//! The frame parser: from a header and a slice of payload bytes to a typed
//! `Frame` whose payload fields are slices into the same read buffer.
//! Parsing copies no payload bytes; every byte read is pinned down by the
//! spec-level parse function `spec_parse_payload`.

use vstd::prelude::*;

use crate::buf::{slice_as_bytes, slice_bytes, slice_clone, slice_len, slice_range};
use crate::frame::{
    be16, be32, be64, flag_byte_ok, mask31, u16_of, u24_of, u32_of, u64_of, Error, ErrorCode,
    FrameHeader, Kind, Priority, Setting, SizeIncrement, StreamIdentifier, FLAG_ACK, FLAG_PADDED,
    FLAG_PRIORITY,
};

verus! {

/// A typed view over the bytes of a SETTINGS payload: identically sized
/// six-byte records, read in place without per-entry allocation.
#[derive(Debug)]
pub struct TypedSlice {
    buf: appendbuf::Slice,
}

/// The settings encoded in a byte sequence, one per six-byte record.
pub open spec fn settings_of(b: Seq<u8>) -> Seq<Setting> {
    Seq::new(
        (b.len() / 6) as nat,
        |i: int|
            Setting {
                identifier: u16_of(b[6 * i], b[6 * i + 1]),
                value: u32_of(b[6 * i + 2], b[6 * i + 3], b[6 * i + 4], b[6 * i + 5]),
            },
    )
}

impl TypedSlice {
    /// The records this view decodes to.
    pub closed spec fn view_settings(&self) -> Seq<Setting> {
        settings_of(slice_bytes(self.buf))
    }

    /// The underlying bytes.
    pub closed spec fn bytes(&self) -> Seq<u8> {
        slice_bytes(self.buf)
    }

    /// Every `TypedSlice` views a whole number of records.
    #[verifier::type_invariant]
    pub open spec fn wf(self) -> bool {
        self.bytes().len() % 6 == 0
    }

    /// Wrap a slice whose length is a whole number of six-byte records.
    pub fn new(buf: appendbuf::Slice) -> (r: TypedSlice)
        requires
            slice_bytes(buf).len() % 6 == 0,
        ensures
            r.wf(),
            r.bytes() == slice_bytes(buf),
            r.view_settings() == settings_of(slice_bytes(buf)),
    {
        TypedSlice { buf }
    }

    /// Unwrap the underlying slice.
    pub fn into_slice(self) -> (r: appendbuf::Slice)
        ensures
            slice_bytes(r) == self.bytes(),
    {
        self.buf
    }

    /// How many records the view holds.
    pub fn len(&self) -> (r: usize)
        ensures
            r == self.view_settings().len(),
    {
        proof {
            use_type_invariant(self);
        }
        slice_len(&self.buf) / 6
    }

    /// The record at the given index, decoded big-endian.
    pub fn get(&self, i: usize) -> (r: Setting)
        requires
            i < self.view_settings().len(),
        ensures
            r == self.view_settings()[i as int],
    {
        proof {
            use_type_invariant(self);
        }
        let bytes = slice_as_bytes(&self.buf);
        let n = bytes.len();
        proof {
            assert(6 * (i as int) + 6 <= n) by (nonlinear_arith)
                requires
                    (i as int) < (n as int) / 6,
                    (n as int) % 6 == 0,
            ;
        }
        let off = i * 6;
        proof {
            assert(off == 6 * (i as int));
        }
        let b0 = *vstd::slice::slice_index_get(bytes, off);
        let b1 = *vstd::slice::slice_index_get(bytes, off + 1);
        let b2 = *vstd::slice::slice_index_get(bytes, off + 2);
        let b3 = *vstd::slice::slice_index_get(bytes, off + 3);
        let b4 = *vstd::slice::slice_index_get(bytes, off + 4);
        let b5 = *vstd::slice::slice_index_get(bytes, off + 5);
        Setting {
            identifier: ((b0 as u16) << 8) | (b1 as u16),
            value: ((b2 as u32) << 24) | ((b3 as u32) << 16) | ((b4 as u32) << 8) | (b5 as u32),
        }
    }

    /// All records of the view, decoded in order.
    pub fn to_vec(&self) -> (r: Vec<Setting>)
        ensures
            r@ == self.view_settings(),
    {
        let n = self.len();
        let mut out: Vec<Setting> = Vec::new();
        let mut i: usize = 0;
        while i < n
            invariant
                i <= n,
                n == self.view_settings().len(),
                out@ == self.view_settings().take(i as int),
            decreases n - i,
        {
            out.push(self.get(i));
            i = i + 1;
            proof {
                assert(out@ =~= self.view_settings().take(i as int));
            }
        }
        proof {
            assert(out@ =~= self.view_settings());
        }
        out
    }

    /// Another view of the same records.
    pub fn clone(&self) -> (r: TypedSlice)
        ensures
            r.bytes() == self.bytes(),
            r.view_settings() == self.view_settings(),
    {
        proof {
            use_type_invariant(self);
        }
        TypedSlice { buf: slice_clone(&self.buf) }
    }
}

/// A parsed payload. Block and data fields are slices into the read buffer
/// the frame was parsed from.
#[derive(Debug)]
pub enum Payload {
    /// Application bytes of a DATA frame, padding stripped.
    Data(appendbuf::Slice),
    /// A HEADERS frame: optional priority fields and the header block.
    Headers { priority: Option<Priority>, block: appendbuf::Slice },
    /// A PRIORITY frame.
    Priority(Priority),
    /// An RST_STREAM frame's error code.
    Reset(ErrorCode),
    /// A SETTINGS frame's entries, viewed in place.
    Settings(TypedSlice),
    /// A PUSH_PROMISE frame: the promised stream and the header block.
    PushPromise { promised: StreamIdentifier, block: appendbuf::Slice },
    /// A PING frame's opaque payload.
    Ping(u64),
    /// A GOAWAY frame: last processed stream, error code, debug bytes.
    GoAway { last: StreamIdentifier, error: ErrorCode, data: appendbuf::Slice },
    /// A WINDOW_UPDATE frame's increment.
    WindowUpdate(SizeIncrement),
    /// A CONTINUATION frame's header block fragment.
    Continuation(appendbuf::Slice),
    /// A frame of an unknown kind, passed through opaquely.
    Unregistered(appendbuf::Slice),
}

/// The mathematical shape of a payload: the same variants over plain byte
/// sequences instead of buffer slices.
#[allow(inconsistent_fields)]
pub enum PayloadView {
    Data { data: Seq<u8> },
    Headers { priority: Option<Priority>, block: Seq<u8> },
    Priority { priority: Priority },
    Reset { error: ErrorCode },
    Settings { settings: Seq<Setting> },
    PushPromise { promised: StreamIdentifier, block: Seq<u8> },
    Ping { opaque: u64 },
    GoAway { last: StreamIdentifier, error: ErrorCode, data: Seq<u8> },
    WindowUpdate { increment: SizeIncrement },
    Continuation { block: Seq<u8> },
    Unregistered { block: Seq<u8> },
}

impl View for Payload {
    type V = PayloadView;

    open spec fn view(&self) -> PayloadView {
        match *self {
            Payload::Data(s) => PayloadView::Data { data: slice_bytes(s) },
            Payload::Headers { priority, block } => PayloadView::Headers {
                priority,
                block: slice_bytes(block),
            },
            Payload::Priority(priority) => PayloadView::Priority { priority },
            Payload::Reset(error) => PayloadView::Reset { error },
            Payload::Settings(ts) => PayloadView::Settings { settings: settings_of(ts.bytes()) },
            Payload::PushPromise { promised, block } => PayloadView::PushPromise {
                promised,
                block: slice_bytes(block),
            },
            Payload::Ping(opaque) => PayloadView::Ping { opaque },
            Payload::GoAway { last, error, data } => PayloadView::GoAway {
                last,
                error,
                data: slice_bytes(data),
            },
            Payload::WindowUpdate(increment) => PayloadView::WindowUpdate { increment },
            Payload::Continuation(s) => PayloadView::Continuation { block: slice_bytes(s) },
            Payload::Unregistered(s) => PayloadView::Unregistered { block: slice_bytes(s) },
        }
    }
}

/// A parsed frame: the header as it stood on the wire, and the typed
/// payload.
#[derive(Debug)]
pub struct Frame {
    /// The frame's header.
    pub header: FrameHeader,
    /// The frame's payload.
    pub payload: Payload,
}

/// The mathematical shape of a frame.
pub struct FrameView {
    pub header: FrameHeader,
    pub payload: PayloadView,
}

impl View for Frame {
    type V = FrameView;

    open spec fn view(&self) -> FrameView {
        FrameView { header: self.header, payload: self.payload@ }
    }
}

/// What the priority fields of five wire bytes mean: the high bit of the
/// dependency is the exclusive flag and is masked out of the id.
pub open spec fn spec_parse_priority(b: Seq<u8>) -> Priority
    recommends
        b.len() >= 5,
{
    Priority {
        exclusive: b[0] & 0x80 != 0,
        dependency: StreamIdentifier(mask31(u32_of(b[0], b[1], b[2], b[3]))),
        weight: b[4],
    }
}

/// Strip the padding of a payload body: the first byte gives the count of
/// trailing pad bytes; both are removed. Padding that does not fit inside
/// the body is `BadPadding` (RFC 7540 section 6.1).
pub open spec fn spec_trim_padding(padded: bool, body: Seq<u8>) -> Result<Seq<u8>, Error>
    recommends
        padded ==> body.len() >= 1,
{
    if !padded {
        Ok(body)
    } else {
        let pad = body[0] as int;
        if pad + 1 > body.len() {
            Err(Error::BadPadding)
        } else {
            Ok(body.subrange(1, body.len() - pad))
        }
    }
}

/// What parsing a payload of the given header from the given bytes yields.
/// Extra bytes beyond `header.length` are left untouched for the next
/// frame; fewer than `header.length` bytes is `Incomplete`.
pub open spec fn spec_parse_payload(h: FrameHeader, b: Seq<u8>) -> Result<PayloadView, Error> {
    let padded = h.flag & FLAG_PADDED != 0;
    let prio = h.flag & FLAG_PRIORITY != 0;
    let min_len: int = (if padded { 1int } else { 0int }) + (if prio { 5int } else { 0int });
    if b.len() < h.length {
        Err(Error::Incomplete)
    } else if h.length < min_len {
        Err(Error::BadLength)
    } else {
        let body = b.take(h.length as int);
        match h.kind {
            Kind::Data => match spec_trim_padding(padded, body) {
                Ok(t) => Ok(PayloadView::Data { data: t }),
                Err(e) => Err(e),
            },
            Kind::Headers => match spec_trim_padding(padded, body) {
                Ok(t) => if prio {
                    if t.len() < 5 {
                        Err(Error::BadLength)
                    } else {
                        Ok(
                            PayloadView::Headers {
                                priority: Some(spec_parse_priority(t)),
                                block: t.skip(5),
                            },
                        )
                    }
                } else {
                    Ok(PayloadView::Headers { priority: None, block: t })
                },
                Err(e) => Err(e),
            },
            Kind::Priority => if h.length != 5 {
                Err(Error::BadLength)
            } else {
                Ok(PayloadView::Priority { priority: spec_parse_priority(body) })
            },
            Kind::Reset => if h.length != 4 {
                Err(Error::BadLength)
            } else {
                Ok(PayloadView::Reset { error: ErrorCode(u32_of(body[0], body[1], body[2], body[3])) })
            },
            Kind::Settings => if h.length % 6 != 0 {
                Err(Error::BadSetting)
            } else if h.flag & FLAG_ACK != 0 && h.length != 0 {
                Err(Error::BadSetting)
            } else {
                Ok(PayloadView::Settings { settings: settings_of(body) })
            },
            Kind::PushPromise => match spec_trim_padding(padded, body) {
                Ok(t) => if t.len() < 4 {
                    Err(Error::BadLength)
                } else {
                    Ok(
                        PayloadView::PushPromise {
                            promised: StreamIdentifier(mask31(u32_of(t[0], t[1], t[2], t[3]))),
                            block: t.skip(4),
                        },
                    )
                },
                Err(e) => Err(e),
            },
            Kind::Ping => if h.length != 8 {
                Err(Error::BadLength)
            } else {
                Ok(
                    PayloadView::Ping {
                        opaque: u64_of(
                            body[0],
                            body[1],
                            body[2],
                            body[3],
                            body[4],
                            body[5],
                            body[6],
                            body[7],
                        ),
                    },
                )
            },
            Kind::GoAway => if h.length < 8 {
                Err(Error::BadLength)
            } else {
                Ok(
                    PayloadView::GoAway {
                        last: StreamIdentifier(mask31(u32_of(body[0], body[1], body[2], body[3]))),
                        error: ErrorCode(u32_of(body[4], body[5], body[6], body[7])),
                        data: body.skip(8),
                    },
                )
            },
            Kind::WindowUpdate => if h.length != 4 {
                Err(Error::BadLength)
            } else {
                Ok(
                    PayloadView::WindowUpdate {
                        increment: SizeIncrement(u32_of(body[0], body[1], body[2], body[3])),
                    },
                )
            },
            Kind::Continuation => Ok(PayloadView::Continuation { block: body }),
            Kind::Unregistered => Ok(PayloadView::Unregistered { block: body }),
        }
    }
}

/// The five wire bytes of priority fields: the dependency with the
/// exclusive flag in the high bit, then the weight.
pub open spec fn priority_bytes(p: Priority) -> Seq<u8> {
    be32(
        if p.exclusive {
            p.dependency.0 | 0x8000_0000
        } else {
            p.dependency.0
        },
    ) + seq![p.weight]
}

/// The six wire bytes of one setting.
pub open spec fn setting_bytes(s: Setting) -> Seq<u8> {
    be16(s.identifier) + be32(s.value)
}

/// The wire bytes of a sequence of settings, in order.
pub open spec fn settings_bytes(s: Seq<Setting>) -> Seq<u8>
    decreases s.len(),
{
    if s.len() == 0 {
        Seq::<u8>::empty()
    } else {
        setting_bytes(s[0]) + settings_bytes(s.skip(1))
    }
}

/// Encoded settings take six bytes each.
pub proof fn lemma_settings_bytes_len(s: Seq<Setting>)
    ensures
        settings_bytes(s).len() == 6 * s.len(),
    decreases s.len(),
{
    if s.len() > 0 {
        lemma_settings_bytes_len(s.skip(1));
    }
}

/// Decoding encoded settings yields the settings back.
pub proof fn lemma_settings_roundtrip(s: Seq<Setting>)
    ensures
        settings_of(settings_bytes(s)) == s,
    decreases s.len(),
{
    let b = settings_bytes(s);
    lemma_settings_bytes_len(s);
    if s.len() == 0 {
        assert(settings_of(b) =~= s);
    } else {
        let first = setting_bytes(s[0]);
        let rest = settings_bytes(s.skip(1));
        lemma_settings_bytes_len(s.skip(1));
        lemma_settings_roundtrip(s.skip(1));
        crate::frame::lemma_be16_roundtrip(s[0].identifier);
        crate::frame::lemma_be32_roundtrip(s[0].value);
        assert forall|i: int| 0 <= i < s.len() implies settings_of(b)[i] == s[i] by {
            if i == 0 {
                assert(settings_of(b)[0] == s[0]);
            } else {
                assert(b[6 * i] == rest[6 * (i - 1)]);
                assert(b[6 * i + 1] == rest[6 * (i - 1) + 1]);
                assert(b[6 * i + 2] == rest[6 * (i - 1) + 2]);
                assert(b[6 * i + 3] == rest[6 * (i - 1) + 3]);
                assert(b[6 * i + 4] == rest[6 * (i - 1) + 4]);
                assert(b[6 * i + 5] == rest[6 * (i - 1) + 5]);
                assert(settings_of(b)[i] == settings_of(rest)[i - 1]);
                assert(settings_of(rest)[i - 1] == s.skip(1)[i - 1]);
            }
        }
        assert(settings_of(b) =~= s);
    }
}

/// Re-encoding decoded settings yields the bytes back, for any byte string
/// that is a whole number of records.
pub proof fn lemma_settings_bytes_of(b: Seq<u8>)
    requires
        b.len() % 6 == 0,
    ensures
        settings_bytes(settings_of(b)) == b,
    decreases b.len(),
{
    if b.len() == 0 {
        assert(settings_bytes(settings_of(b)) =~= b);
    } else {
        let s = settings_of(b);
        assert(s.len() == b.len() / 6 >= 1);
        crate::frame::lemma_be16_of_bytes(b[0], b[1]);
        crate::frame::lemma_be32_of_bytes(b[2], b[3], b[4], b[5]);
        assert(setting_bytes(s[0]) =~= b.take(6));
        let tail = b.skip(6);
        assert(tail.len() % 6 == 0);
        lemma_settings_bytes_of(tail);
        assert(s.skip(1) =~= settings_of(tail)) by {
            assert forall|i: int| 0 <= i < s.len() - 1 implies s.skip(1)[i] == settings_of(tail)[i]
            by {
                assert(tail[6 * i] == b[6 * (i + 1)]);
                assert(tail[6 * i + 1] == b[6 * (i + 1) + 1]);
                assert(tail[6 * i + 2] == b[6 * (i + 1) + 2]);
                assert(tail[6 * i + 3] == b[6 * (i + 1) + 3]);
                assert(tail[6 * i + 4] == b[6 * (i + 1) + 4]);
                assert(tail[6 * i + 5] == b[6 * (i + 1) + 5]);
                assert(s.skip(1)[i] == s[i + 1]);
            }
        }
        assert(settings_bytes(s) == setting_bytes(s[0]) + settings_bytes(s.skip(1)));
        assert(settings_bytes(s) =~= b.take(6) + b.skip(6));
        assert(b.take(6) + b.skip(6) =~= b);
    }
}

/// Strip padding from a payload body slice, carving a sub-slice.
fn trim_padding(padded: bool, body: appendbuf::Slice) -> (r: Result<appendbuf::Slice, Error>)
    requires
        padded ==> slice_bytes(body).len() >= 1,
    ensures
        match spec_trim_padding(padded, slice_bytes(body)) {
            Ok(t) => r matches Ok(s) && slice_bytes(s) == t,
            Err(e) => r matches Err(e2) && e2 == e,
        },
{
    if !padded {
        return Ok(body);
    }
    let bytes = slice_as_bytes(&body);
    let blen = bytes.len();
    let pad = *vstd::slice::slice_index_get(bytes, 0) as usize;
    if pad + 1 > blen {
        return Err(Error::BadPadding);
    }
    Ok(slice_range(&body, 1, blen - pad))
}

/// Read the priority fields from the first five bytes.
fn parse_priority(bytes: &[u8]) -> (r: Priority)
    requires
        bytes@.len() >= 5,
    ensures
        r == spec_parse_priority(bytes@),
{
    let b0 = *vstd::slice::slice_index_get(bytes, 0);
    let b1 = *vstd::slice::slice_index_get(bytes, 1);
    let b2 = *vstd::slice::slice_index_get(bytes, 2);
    let b3 = *vstd::slice::slice_index_get(bytes, 3);
    let b4 = *vstd::slice::slice_index_get(bytes, 4);
    Priority {
        exclusive: b0 & 0x80 != 0,
        dependency: StreamIdentifier(
            ((((b0 as u32) << 24) | ((b1 as u32) << 16) | ((b2 as u32) << 8) | (b3 as u32))
                & 0x7fff_ffff),
        ),
        weight: b4,
    }
}

/// Read a big-endian 32-bit value at the given offset.
fn read_u32(bytes: &[u8], off: usize) -> (r: u32)
    requires
        off + 4 <= bytes@.len(),
    ensures
        r == u32_of(bytes@[off as int], bytes@[off + 1], bytes@[off + 2], bytes@[off + 3]),
{
    let n = bytes.len();
    proof {
        assert(off + 4 <= n);
    }
    let b0 = *vstd::slice::slice_index_get(bytes, off);
    let b1 = *vstd::slice::slice_index_get(bytes, off + 1);
    let b2 = *vstd::slice::slice_index_get(bytes, off + 2);
    let b3 = *vstd::slice::slice_index_get(bytes, off + 3);
    ((b0 as u32) << 24) | ((b1 as u32) << 16) | ((b2 as u32) << 8) | (b3 as u32)
}

impl Frame {
    /// Parse a frame's payload from a slice holding at least
    /// `header.length` bytes; payload fields are sub-slices of it, so no
    /// payload byte is copied. Fewer bytes than `header.length` is
    /// `Incomplete`; the other errors are structural and fatal to the
    /// connection.
    pub fn parse(header: FrameHeader, buf: appendbuf::Slice) -> (r: Result<Frame, Error>)
        ensures
            match spec_parse_payload(header, slice_bytes(buf)) {
                Ok(pv) => r matches Ok(f) && f.header == header && f.payload@ == pv,
                Err(e) => r matches Err(e2) && e2 == e,
            },
    {
        let len = slice_len(&buf);
        if len < header.length as usize {
            return Err(Error::Incomplete);
        }
        let padded = header.flag & FLAG_PADDED != 0;
        let prio = header.flag & FLAG_PRIORITY != 0;
        let min_len: u32 = (if padded { 1u32 } else { 0u32 }) + (if prio { 5u32 } else { 0u32 });
        if header.length < min_len {
            return Err(Error::BadLength);
        }
        let length = header.length as usize;
        let body = slice_range(&buf, 0, length);
        proof {
            assert(slice_bytes(body) =~= slice_bytes(buf).take(header.length as int));
        }
        let payload = match header.kind {
            Kind::Data => {
                match trim_padding(padded, body) {
                    Ok(t) => Payload::Data(t),
                    Err(e) => {
                        return Err(e);
                    },
                }
            },
            Kind::Headers => {
                let t = match trim_padding(padded, body) {
                    Ok(t) => t,
                    Err(e) => {
                        return Err(e);
                    },
                };
                if prio {
                    let tbytes = slice_as_bytes(&t);
                    if tbytes.len() < 5 {
                        return Err(Error::BadLength);
                    }
                    let priority = parse_priority(tbytes);
                    let tlen = tbytes.len();
                    let block = slice_range(&t, 5, tlen);
                    proof {
                        assert(slice_bytes(block) =~= slice_bytes(t).skip(5));
                    }
                    Payload::Headers { priority: Some(priority), block }
                } else {
                    Payload::Headers { priority: None, block: t }
                }
            },
            Kind::Priority => {
                if header.length != 5 {
                    return Err(Error::BadLength);
                }
                let bytes = slice_as_bytes(&body);
                Payload::Priority(parse_priority(bytes))
            },
            Kind::Reset => {
                if header.length != 4 {
                    return Err(Error::BadLength);
                }
                let bytes = slice_as_bytes(&body);
                Payload::Reset(ErrorCode(read_u32(bytes, 0)))
            },
            Kind::Settings => {
                if header.length % 6 != 0 {
                    return Err(Error::BadSetting);
                }
                if header.flag & FLAG_ACK != 0 && header.length != 0 {
                    return Err(Error::BadSetting);
                }
                Payload::Settings(TypedSlice::new(body))
            },
            Kind::PushPromise => {
                let t = match trim_padding(padded, body) {
                    Ok(t) => t,
                    Err(e) => {
                        return Err(e);
                    },
                };
                let tbytes = slice_as_bytes(&t);
                if tbytes.len() < 4 {
                    return Err(Error::BadLength);
                }
                let promised = StreamIdentifier::parse(tbytes);
                let tlen = tbytes.len();
                let block = slice_range(&t, 4, tlen);
                proof {
                    assert(slice_bytes(block) =~= slice_bytes(t).skip(4));
                    assert(slice_bytes(t).subrange(0, 4) =~= seq![
                        slice_bytes(t)[0],
                        slice_bytes(t)[1],
                        slice_bytes(t)[2],
                        slice_bytes(t)[3],
                    ]);
                }
                Payload::PushPromise { promised, block }
            },
            Kind::Ping => {
                if header.length != 8 {
                    return Err(Error::BadLength);
                }
                let bytes = slice_as_bytes(&body);
                let b0 = *vstd::slice::slice_index_get(bytes, 0);
                let b1 = *vstd::slice::slice_index_get(bytes, 1);
                let b2 = *vstd::slice::slice_index_get(bytes, 2);
                let b3 = *vstd::slice::slice_index_get(bytes, 3);
                let b4 = *vstd::slice::slice_index_get(bytes, 4);
                let b5 = *vstd::slice::slice_index_get(bytes, 5);
                let b6 = *vstd::slice::slice_index_get(bytes, 6);
                let b7 = *vstd::slice::slice_index_get(bytes, 7);
                let opaque = ((b0 as u64) << 56) | ((b1 as u64) << 48) | ((b2 as u64) << 40) | ((
                b3 as u64) << 32) | ((b4 as u64) << 24) | ((b5 as u64) << 16) | ((b6 as u64) << 8)
                    | (b7 as u64);
                Payload::Ping(opaque)
            },
            Kind::GoAway => {
                if header.length < 8 {
                    return Err(Error::BadLength);
                }
                let bytes = slice_as_bytes(&body);
                let last = StreamIdentifier(read_u32(bytes, 0) & 0x7fff_ffff);
                let error = ErrorCode(read_u32(bytes, 4));
                let blen = bytes.len();
                let data = slice_range(&body, 8, blen);
                proof {
                    assert(slice_bytes(data) =~= slice_bytes(body).skip(8));
                }
                Payload::GoAway { last, error, data }
            },
            Kind::WindowUpdate => {
                if header.length != 4 {
                    return Err(Error::BadLength);
                }
                let bytes = slice_as_bytes(&body);
                Payload::WindowUpdate(SizeIncrement(read_u32(bytes, 0)))
            },
            Kind::Continuation => Payload::Continuation(body),
            Kind::Unregistered => Payload::Unregistered(body),
        };
        Ok(Frame { header, payload })
    }
}

impl Payload {
    /// The priority fields of this payload, if it carries any: only
    /// HEADERS and PRIORITY frames do.
    pub fn priority(&self) -> (r: Option<Priority>)
        ensures
            r == (match self@ {
                PayloadView::Headers { priority, .. } => priority,
                PayloadView::Priority { priority } => Some(priority),
                _ => None::<Priority>,
            }),
    {
        match *self {
            Payload::Headers { ref priority, .. } => *priority,
            Payload::Priority(ref priority) => Some(*priority),
            _ => None,
        }
    }

    /// The kind of frame this payload belongs to.
    pub fn kind(&self) -> (r: Kind)
        ensures
            r == self@.kind(),
    {
        match *self {
            Payload::Data(..) => Kind::Data,
            Payload::Headers { .. } => Kind::Headers,
            Payload::Priority(..) => Kind::Priority,
            Payload::Reset(..) => Kind::Reset,
            Payload::Settings(..) => Kind::Settings,
            Payload::PushPromise { .. } => Kind::PushPromise,
            Payload::Ping(..) => Kind::Ping,
            Payload::GoAway { .. } => Kind::GoAway,
            Payload::WindowUpdate(..) => Kind::WindowUpdate,
            Payload::Continuation(..) => Kind::Continuation,
            Payload::Unregistered(..) => Kind::Unregistered,
        }
    }

    /// Another frame payload viewing the same bytes; slices are refcounted,
    /// so no byte is copied.
    pub fn clone(&self) -> (r: Payload)
        ensures
            r@ == self@,
    {
        match *self {
            Payload::Data(ref s) => Payload::Data(slice_clone(s)),
            Payload::Headers { ref priority, ref block } => Payload::Headers {
                priority: *priority,
                block: slice_clone(block),
            },
            Payload::Priority(ref p) => Payload::Priority(*p),
            Payload::Reset(ref e) => Payload::Reset(*e),
            Payload::Settings(ref ts) => Payload::Settings(ts.clone()),
            Payload::PushPromise { ref promised, ref block } => Payload::PushPromise {
                promised: *promised,
                block: slice_clone(block),
            },
            Payload::Ping(ref v) => Payload::Ping(*v),
            Payload::GoAway { ref last, ref error, ref data } => Payload::GoAway {
                last: *last,
                error: *error,
                data: slice_clone(data),
            },
            Payload::WindowUpdate(ref v) => Payload::WindowUpdate(*v),
            Payload::Continuation(ref s) => Payload::Continuation(slice_clone(s)),
            Payload::Unregistered(ref s) => Payload::Unregistered(slice_clone(s)),
        }
    }
}

impl PayloadView {
    /// The wire bytes of this payload, unpadded.
    pub open spec fn bytes(self) -> Seq<u8> {
        match self {
            PayloadView::Data { data } => data,
            PayloadView::Headers { priority, block } => match priority {
                Some(p) => priority_bytes(p) + block,
                None => block,
            },
            PayloadView::Priority { priority } => priority_bytes(priority),
            PayloadView::Reset { error } => be32(error.0),
            PayloadView::Settings { settings } => settings_bytes(settings),
            PayloadView::PushPromise { promised, block } => be32(promised.0) + block,
            PayloadView::Ping { opaque } => be64(opaque),
            PayloadView::GoAway { last, error, data } => be32(last.0) + be32(error.0) + data,
            PayloadView::WindowUpdate { increment } => be32(increment.0),
            PayloadView::Continuation { block } => block,
            PayloadView::Unregistered { block } => block,
        }
    }

    /// Whether every stream id this payload carries fits in 31 bits, as the
    /// wire requires.
    pub open spec fn wf(self) -> bool {
        match self {
            PayloadView::Headers { priority, .. } => priority matches Some(p) ==> p.dependency.0
                < 0x8000_0000,
            PayloadView::Priority { priority } => priority.dependency.0 < 0x8000_0000,
            PayloadView::PushPromise { promised, .. } => promised.0 < 0x8000_0000,
            PayloadView::GoAway { last, .. } => last.0 < 0x8000_0000,
            _ => true,
        }
    }

    /// The kind of frame this payload shape belongs to.
    pub open spec fn kind(self) -> Kind {
        match self {
            PayloadView::Data { .. } => Kind::Data,
            PayloadView::Headers { .. } => Kind::Headers,
            PayloadView::Priority { .. } => Kind::Priority,
            PayloadView::Reset { .. } => Kind::Reset,
            PayloadView::Settings { .. } => Kind::Settings,
            PayloadView::PushPromise { .. } => Kind::PushPromise,
            PayloadView::Ping { .. } => Kind::Ping,
            PayloadView::GoAway { .. } => Kind::GoAway,
            PayloadView::WindowUpdate { .. } => Kind::WindowUpdate,
            PayloadView::Continuation { .. } => Kind::Continuation,
            PayloadView::Unregistered { .. } => Kind::Unregistered,
        }
    }
}

impl FrameView {
    /// A frame shape that can be put on the wire and parsed back: the
    /// header is well formed and consistent with the payload (matching
    /// kind, exact length, priority flag if and only if priority fields,
    /// no padding, an ACK only on an empty SETTINGS payload), and every
    /// stream id fits in 31 bits.
    pub open spec fn wf(self) -> bool {
        &&& self.header.wf()
        &&& self.payload.wf()
        &&& self.header.kind == self.payload.kind()
        &&& self.header.length == self.payload.bytes().len()
        &&& self.header.flag & FLAG_PADDED == 0
        &&& (self.header.flag & FLAG_PRIORITY != 0 <==> (self.payload matches PayloadView::Headers {
            priority: Some(_),
            ..
        }))
        &&& (self.payload matches PayloadView::Settings { settings } ==> (self.header.flag
            & FLAG_ACK != 0 ==> settings.len() == 0))
    }

    /// The full wire bytes of this frame: nine header bytes, then the
    /// payload.
    pub open spec fn wire_bytes(self) -> Seq<u8> {
        self.header.spec_bytes() + self.payload.bytes()
    }

    /// How many bytes this frame takes on the wire.
    pub open spec fn encoded_len(self) -> int {
        9 + self.payload.bytes().len() as int
    }
}

/// Parsing encoded priority fields yields the fields back.
pub proof fn lemma_priority_roundtrip(p: Priority)
    requires
        p.dependency.0 < 0x8000_0000,
    ensures
        priority_bytes(p).len() == 5,
        spec_parse_priority(priority_bytes(p)) == p,
{
    let d = p.dependency.0;
    let x: u32 = if p.exclusive {
        d | 0x8000_0000
    } else {
        d
    };
    crate::frame::lemma_be32_roundtrip(x);
    let b = priority_bytes(p);
    assert(b[0] == ((x >> 24) & 0xff) as u8 && b[1] == ((x >> 16) & 0xff) as u8 && b[2] == ((x >> 8)
        & 0xff) as u8 && b[3] == (x & 0xff) as u8 && b[4] == p.weight);
    assert(u32_of(b[0], b[1], b[2], b[3]) == x);
    if p.exclusive {
        assert(d < 0x8000_0000 ==> ((d | 0x8000_0000) & 0x7fff_ffff) == d && ((((d | 0x8000_0000)
            >> 24) & 0xff) as u8) & 0x80 != 0) by (bit_vector);
    } else {
        assert(d < 0x8000_0000 ==> (d & 0x7fff_ffff) == d && (((d >> 24) & 0xff) as u8) & 0x80
            == 0) by (bit_vector);
    }
}

/// Parsing the encoded bytes of a well-formed frame yields its payload
/// back: the parser and the encoder are exact inverses on well-formed
/// frames.
pub proof fn lemma_payload_roundtrip(fv: FrameView)
    requires
        fv.wf(),
    ensures
        spec_parse_payload(fv.header, fv.payload.bytes()) == Ok::<PayloadView, Error>(fv.payload),
{
    let h = fv.header;
    let b = fv.payload.bytes();
    let body = b.take(h.length as int);
    assert(body =~= b);
    match fv.payload {
        PayloadView::Data { data } => {
        },
        PayloadView::Headers { priority, block } => {
            match priority {
                Some(p) => {
                    lemma_priority_roundtrip(p);
                    let pb = priority_bytes(p);
                    assert(b[0] == pb[0] && b[1] == pb[1] && b[2] == pb[2] && b[3] == pb[3] && b[4]
                        == pb[4]);
                    assert(spec_parse_priority(b) == spec_parse_priority(pb));
                    assert(b.skip(5) =~= block);
                },
                None => {
                },
            }
        },
        PayloadView::Priority { priority } => {
            lemma_priority_roundtrip(priority);
        },
        PayloadView::Reset { error } => {
            crate::frame::lemma_be32_roundtrip(error.0);
        },
        PayloadView::Settings { settings } => {
            lemma_settings_bytes_len(settings);
            lemma_settings_roundtrip(settings);
        },
        PayloadView::PushPromise { promised, block } => {
            crate::frame::lemma_be32_roundtrip(promised.0);
            crate::frame::lemma_mask31_small(promised.0);
            let ib = be32(promised.0);
            assert(b[0] == ib[0] && b[1] == ib[1] && b[2] == ib[2] && b[3] == ib[3]);
            assert(u32_of(b[0], b[1], b[2], b[3]) == promised.0);
            assert(b.skip(4) =~= block);
        },
        PayloadView::Ping { opaque } => {
            crate::frame::lemma_be64_roundtrip(opaque);
        },
        PayloadView::GoAway { last, error, data } => {
            crate::frame::lemma_be32_roundtrip(last.0);
            crate::frame::lemma_mask31_small(last.0);
            crate::frame::lemma_be32_roundtrip(error.0);
            let lb = be32(last.0);
            let eb = be32(error.0);
            assert(b[0] == lb[0] && b[1] == lb[1] && b[2] == lb[2] && b[3] == lb[3]);
            assert(b[4] == eb[0] && b[5] == eb[1] && b[6] == eb[2] && b[7] == eb[3]);
            assert(u32_of(b[0], b[1], b[2], b[3]) == last.0);
            assert(u32_of(b[4], b[5], b[6], b[7]) == error.0);
            assert(b.skip(8) =~= data);
        },
        PayloadView::WindowUpdate { increment } => {
            crate::frame::lemma_be32_roundtrip(increment.0);
        },
        PayloadView::Continuation { block } => {
        },
        PayloadView::Unregistered { block } => {
        },
    }
}

/// Parsing the full wire bytes of a well-formed frame — header from the
/// first nine bytes, payload from the rest — yields the frame back.
pub proof fn lemma_frame_roundtrip(fv: FrameView)
    requires
        fv.wf(),
    ensures
        FrameHeader::spec_parse(fv.wire_bytes()) == Ok::<FrameHeader, Error>(fv.header),
        spec_parse_payload(fv.header, fv.wire_bytes().skip(9)) == Ok::<PayloadView, Error>(
            fv.payload,
        ),
{
    let w = fv.wire_bytes();
    let hb = fv.header.spec_bytes();
    crate::frame::lemma_header_roundtrip(fv.header);
    assert(w.len() >= 9);
    assert(w[0] == hb[0] && w[1] == hb[1] && w[2] == hb[2] && w[3] == hb[3] && w[4] == hb[4] && w[5]
        == hb[5] && w[6] == hb[6] && w[7] == hb[7] && w[8] == hb[8]);
    assert(w.subrange(5, 9) =~= hb.subrange(5, 9));
    assert(FrameHeader::spec_parse(w) == FrameHeader::spec_parse(hb));
    assert(w.skip(9) =~= fv.payload.bytes());
    lemma_payload_roundtrip(fv);
}

/// Whether two byte slices hold the same bytes.
pub fn bytes_eq(a: &[u8], b: &[u8]) -> (r: bool)
    ensures
        r == (a@ == b@),
{
    let n = a.len();
    if n != b.len() {
        return false;
    }
    let mut i: usize = 0;
    while i < n
        invariant
            i <= n,
            n == a@.len(),
            n == b@.len(),
            forall|j: int| 0 <= j < i ==> a@[j] == b@[j],
        decreases n - i,
    {
        if *vstd::slice::slice_index_get(a, i) != *vstd::slice::slice_index_get(b, i) {
            return false;
        }
        i = i + 1;
    }
    proof {
        assert(a@ =~= b@);
    }
    true
}

/// Whether two optional priority fields are equal.
fn priority_opt_eq(a: &Option<Priority>, b: &Option<Priority>) -> (r: bool)
    ensures
        r == (a == b),
{
    match (a, b) {
        (None, None) => true,
        (Some(x), Some(y)) => *x == *y,
        _ => false,
    }
}

impl PartialEq for Payload {
    /// Payloads are equal when they decode to the same values: same
    /// variant, same fixed fields, and byte-equal blocks.
    fn eq(&self, other: &Payload) -> (r: bool) {
        match (self, other) {
            (Payload::Data(s1), Payload::Data(s2)) => bytes_eq(
                slice_as_bytes(s1),
                slice_as_bytes(s2),
            ),
            (
                Payload::Headers { priority: p1, block: b1 },
                Payload::Headers { priority: p2, block: b2 },
            ) => priority_opt_eq(p1, p2) && bytes_eq(slice_as_bytes(b1), slice_as_bytes(b2)),
            (Payload::Priority(p1), Payload::Priority(p2)) => *p1 == *p2,
            (Payload::Reset(e1), Payload::Reset(e2)) => *e1 == *e2,
            (Payload::Settings(t1), Payload::Settings(t2)) => {
                proof {
                    use_type_invariant(t1);
                    use_type_invariant(t2);
                    lemma_settings_bytes_of(t1.bytes());
                    lemma_settings_bytes_of(t2.bytes());
                }
                bytes_eq(slice_as_bytes(&t1.buf), slice_as_bytes(&t2.buf))
            },
            (
                Payload::PushPromise { promised: i1, block: b1 },
                Payload::PushPromise { promised: i2, block: b2 },
            ) => *i1 == *i2 && bytes_eq(slice_as_bytes(b1), slice_as_bytes(b2)),
            (Payload::Ping(v1), Payload::Ping(v2)) => *v1 == *v2,
            (
                Payload::GoAway { last: l1, error: e1, data: d1 },
                Payload::GoAway { last: l2, error: e2, data: d2 },
            ) => *l1 == *l2 && *e1 == *e2 && bytes_eq(slice_as_bytes(d1), slice_as_bytes(d2)),
            (Payload::WindowUpdate(v1), Payload::WindowUpdate(v2)) => *v1 == *v2,
            (Payload::Continuation(s1), Payload::Continuation(s2)) => bytes_eq(
                slice_as_bytes(s1),
                slice_as_bytes(s2),
            ),
            (Payload::Unregistered(s1), Payload::Unregistered(s2)) => bytes_eq(
                slice_as_bytes(s1),
                slice_as_bytes(s2),
            ),
            _ => false,
        }
    }
}

impl vstd::std_specs::cmp::PartialEqSpecImpl for Payload {
    open spec fn obeys_eq_spec() -> bool {
        true
    }

    open spec fn eq_spec(&self, other: &Payload) -> bool {
        self@ == other@
    }
}

impl PartialEq for Frame {
    /// Frames are equal when their headers are equal and their payloads
    /// decode to the same values.
    fn eq(&self, other: &Frame) -> (r: bool) {
        self.header == other.header && self.payload == other.payload
    }
}

impl vstd::std_specs::cmp::PartialEqSpecImpl for Frame {
    open spec fn obeys_eq_spec() -> bool {
        true
    }

    open spec fn eq_spec(&self, other: &Frame) -> bool {
        self@ == other@
    }
}

/// Append the five wire bytes of priority fields.
pub fn push_priority(out: &mut Vec<u8>, p: Priority)
    ensures
        final(out)@ == old(out)@ + priority_bytes(p),
{
    let dep: u32 = if p.exclusive {
        p.dependency.0 | 0x8000_0000
    } else {
        p.dependency.0
    };
    crate::frame::push_u32(out, dep);
    out.push(p.weight);
    proof {
        assert(out@ =~= old(out)@ + priority_bytes(p));
    }
}

impl Payload {
    /// Encode this payload as its wire bytes, unpadded.
    pub fn encode_vec(&self) -> (r: Vec<u8>)
        ensures
            r@ == self@.bytes(),
    {
        let mut out: Vec<u8> = Vec::new();
        match *self {
            Payload::Data(ref s) => {
                crate::frame::push_bytes(&mut out, slice_as_bytes(s));
            },
            Payload::Headers { ref priority, ref block } => {
                match *priority {
                    Some(p) => {
                        push_priority(&mut out, p);
                        crate::frame::push_bytes(&mut out, slice_as_bytes(block));
                    },
                    None => {
                        crate::frame::push_bytes(&mut out, slice_as_bytes(block));
                    },
                }
            },
            Payload::Priority(ref p) => {
                push_priority(&mut out, *p);
            },
            Payload::Reset(ref e) => {
                crate::frame::push_u32(&mut out, e.0);
            },
            Payload::Settings(ref ts) => {
                proof {
                    use_type_invariant(ts);
                    lemma_settings_bytes_of(ts.bytes());
                }
                let raw = ts.clone().into_slice();
                crate::frame::push_bytes(&mut out, slice_as_bytes(&raw));
            },
            Payload::PushPromise { ref promised, ref block } => {
                crate::frame::push_u32(&mut out, promised.0);
                crate::frame::push_bytes(&mut out, slice_as_bytes(block));
            },
            Payload::Ping(ref v) => {
                crate::frame::push_u64(&mut out, *v);
            },
            Payload::GoAway { ref last, ref error, ref data } => {
                crate::frame::push_u32(&mut out, last.0);
                crate::frame::push_u32(&mut out, error.0);
                crate::frame::push_bytes(&mut out, slice_as_bytes(data));
            },
            Payload::WindowUpdate(ref v) => {
                crate::frame::push_u32(&mut out, v.0);
            },
            Payload::Continuation(ref s) => {
                crate::frame::push_bytes(&mut out, slice_as_bytes(s));
            },
            Payload::Unregistered(ref s) => {
                crate::frame::push_bytes(&mut out, slice_as_bytes(s));
            },
        }
        out
    }
}

impl Frame {
    /// Encode this frame as its full wire bytes in one piece: nine header
    /// bytes followed by the payload.
    pub fn encode_vec(&self) -> (r: Vec<u8>)
        requires
            self@.wf(),
        ensures
            r@ == self@.wire_bytes(),
    {
        let mut out = self.header.encode();
        let payload = self.payload.encode_vec();
        crate::frame::push_bytes(&mut out, payload.as_slice());
        out
    }

    /// Rebuild a frame by encoding it and parsing the bytes back through a
    /// fresh buffer. The result views the same values; only the backing
    /// allocation is new.
    pub fn clone_from(frame: &Frame) -> (r: Frame)
        requires
            frame@.wf(),
        ensures
            r.header == frame.header,
            r.payload@ == frame.payload@,
    {
        let payload = frame.payload.encode_vec();
        let s = crate::buf::slice_of_bytes(payload.as_slice());
        proof {
            lemma_payload_roundtrip(frame@);
        }
        let parsed = Frame::parse(frame.header, s);
        match parsed {
            Ok(f) => f,
            Err(_) => {
                proof {
                    assert(false);
                }
                Frame { header: frame.header, payload: Payload::Ping(0) }
            },
        }
    }

    /// Another frame viewing the same bytes; payload slices are refcounted,
    /// so no payload byte is copied.
    pub fn clone(&self) -> (r: Frame)
        ensures
            r@ == self@,
    {
        Frame { header: self.header, payload: self.payload.clone() }
    }
}

/// A payload parsed from an unpadded body re-encodes to the same number of
/// bytes: for any byte string of a frame's declared length, the parsed
/// frame's encoded length is the byte string's length.
pub proof fn lemma_parse_preserves_len(h: FrameHeader, b: Seq<u8>)
    requires
        h.flag & FLAG_PADDED == 0,
        b.len() == h.length,
        spec_parse_payload(h, b) is Ok,
    ensures
        spec_parse_payload(h, b)->Ok_0.bytes().len() == b.len(),
{
    let pv = spec_parse_payload(h, b)->Ok_0;
    let body = b.take(h.length as int);
    assert(body =~= b);
    match pv {
        PayloadView::Settings { settings } => {
            lemma_settings_bytes_len(settings);
        },
        _ => {
        },
    }
}

} // verus!
