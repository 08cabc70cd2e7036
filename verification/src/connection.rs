//! The connection's read path: an incremental frame reader that accepts
//! bytes as they arrive, parses as many whole frames as they hold, and
//! keeps the unconsumed tail. For any fragmentation of a byte stream into
//! chunks, the reader emits exactly the frames of the concatenation, in
//! order — `lemma_drain_append` is that law.

use vstd::prelude::*;

use crate::buf::{buf_bytes, buf_capacity, buf_fill, buf_len, buf_slice, new_buf, slice_as_bytes,
    slice_bytes, slice_range};
use crate::frame::{Error, ErrorCode, FrameHeader, StreamIdentifier, ERROR_PROTOCOL};
use crate::http::{Http2, WriteProgress};
use crate::parser::{spec_parse_payload, Frame, FrameView};
use crate::stream::State;

verus! {

/// The largest payload the reader accepts: the default
/// SETTINGS_MAX_FRAME_SIZE of RFC 7540 section 6.5.2.
pub const MAX_FRAME_SIZE: u32 = 16384;

/// Read-buffer capacity: one header and one maximal payload.
pub const READ_BUFFER_SIZE: usize = 16393;

/// What repeatedly parsing whole frames off the front of a byte sequence
/// leaves: the frames in order, the unconsumed tail, and the structural
/// error that stopped it, if one did. Parsing stops without error when
/// fewer bytes than a header, or than a header's declared payload, remain.
pub struct Drained {
    pub frames: Seq<FrameView>,
    pub rest: Seq<u8>,
    pub error: Option<Error>,
}

/// Parse whole frames off the front of a byte sequence until bytes run
/// short or a structural error appears. A frame longer than
/// `MAX_FRAME_SIZE` is `BadLength`.
pub open spec fn spec_drain(b: Seq<u8>) -> Drained
    decreases b.len(),
{
    match FrameHeader::spec_parse(b) {
        Err(Error::Incomplete) => Drained { frames: Seq::<FrameView>::empty(), rest: b, error: None },
        Err(e) => Drained { frames: Seq::<FrameView>::empty(), rest: b, error: Some(e) },
        Ok(h) => {
            if h.length > MAX_FRAME_SIZE {
                Drained {
                    frames: Seq::<FrameView>::empty(),
                    rest: b,
                    error: Some(Error::BadLength),
                }
            } else if b.len() < 9 + h.length {
                Drained { frames: Seq::<FrameView>::empty(), rest: b, error: None }
            } else {
                match spec_parse_payload(h, b.skip(9)) {
                    Ok(pv) => {
                        let d = spec_drain(b.skip(9 + h.length as int));
                        Drained {
                            frames: seq![FrameView { header: h, payload: pv }] + d.frames,
                            rest: d.rest,
                            error: d.error,
                        }
                    },
                    Err(e) => Drained {
                        frames: Seq::<FrameView>::empty(),
                        rest: b,
                        error: Some(e),
                    },
                }
            }
        },
    }
}

/// A frame header's parse reads only the first nine bytes: appending bytes
/// changes nothing once nine are there.
pub proof fn lemma_parse_header_extend(b: Seq<u8>, c: Seq<u8>)
    requires
        b.len() >= 9,
    ensures
        FrameHeader::spec_parse(b + c) == FrameHeader::spec_parse(b),
{
    let w = b + c;
    assert(w[0] == b[0] && w[1] == b[1] && w[2] == b[2] && w[3] == b[3] && w[4] == b[4]);
    assert(w.subrange(5, 9) =~= b.subrange(5, 9));
}

/// A payload's parse reads only the declared length: appending bytes —
/// the next frame's, say — changes nothing once the payload is whole, so
/// a parsed frame's value is independent of what trails it in the buffer.
pub proof fn lemma_parse_payload_extend(h: FrameHeader, b: Seq<u8>, c: Seq<u8>)
    requires
        b.len() >= h.length,
    ensures
        spec_parse_payload(h, b + c) == spec_parse_payload(h, b),
{
    assert((b + c).take(h.length as int) =~= b.take(h.length as int));
}

/// Incremental parsing is parsing of the concatenation: draining `b` and
/// then feeding `c` to the remainder yields exactly what draining `b + c`
/// in one piece yields — the same frames in the same order, the same
/// tail, and the same error; and an error already found in `b` is not
/// changed by more bytes.
pub proof fn lemma_drain_append(b: Seq<u8>, c: Seq<u8>)
    ensures
        spec_drain(b).error is None ==> {
            let d = spec_drain(spec_drain(b).rest + c);
            &&& spec_drain(b + c).frames == spec_drain(b).frames + d.frames
            &&& spec_drain(b + c).rest == d.rest
            &&& spec_drain(b + c).error == d.error
        },
        spec_drain(b).error is Some ==> {
            &&& spec_drain(b + c).frames == spec_drain(b).frames
            &&& spec_drain(b + c).error == spec_drain(b).error
        },
    decreases b.len(),
{
    let w = b + c;
    if b.len() < 9 {
        assert(FrameHeader::spec_parse(b) == Err::<FrameHeader, Error>(Error::Incomplete));
        assert(spec_drain(b).rest + c =~= b + c);
    } else {
        lemma_parse_header_extend(b, c);
        match FrameHeader::spec_parse(b) {
            Err(e) => {
            },
            Ok(h) => {
                if h.length > MAX_FRAME_SIZE {
                } else if b.len() < 9 + h.length {
                    assert(spec_drain(b).rest + c =~= b + c);
                } else {
                    assert(b.skip(9).len() >= h.length);
                    assert(w.skip(9) =~= b.skip(9) + c);
                    lemma_parse_payload_extend(h, b.skip(9), c);
                    match spec_parse_payload(h, b.skip(9)) {
                        Err(e) => {
                        },
                        Ok(pv) => {
                            let b2 = b.skip(9 + h.length as int);
                            assert(w.skip(9 + h.length as int) =~= b2 + c);
                            lemma_drain_append(b2, c);
                            if spec_drain(b).error is None {
                                assert(spec_drain(b2).error is None);
                                assert(spec_drain(b).rest == spec_drain(b2).rest);
                                assert(spec_drain(b + c).frames =~= spec_drain(b).frames
                                    + spec_drain(spec_drain(b).rest + c).frames);
                            }
                        },
                    }
                }
            },
        }
    }
}

/// Two whole frames arriving in one read drain to exactly those two
/// frames, in wire order, with nothing left over and no error.
#[verifier::rlimit(100)]
pub proof fn lemma_drain_two_frames(f1: FrameView, f2: FrameView)
    requires
        f1.wf(),
        f2.wf(),
        f1.header.length <= MAX_FRAME_SIZE,
        f2.header.length <= MAX_FRAME_SIZE,
    ensures
        spec_drain(f1.wire_bytes() + f2.wire_bytes()) == (Drained {
            frames: seq![f1, f2],
            rest: Seq::<u8>::empty(),
            error: None::<Error>,
        }),
{
    let w1 = f1.wire_bytes();
    let w2 = f2.wire_bytes();
    let b = w1 + w2;
    crate::parser::lemma_frame_roundtrip(f1);
    crate::parser::lemma_frame_roundtrip(f2);
    lemma_parse_header_extend(w1, w2);
    assert(FrameHeader::spec_parse(b) == Ok::<FrameHeader, Error>(f1.header));
    assert(w1.skip(9).len() >= f1.header.length);
    assert(b.skip(9) =~= w1.skip(9) + w2);
    lemma_parse_payload_extend(f1.header, w1.skip(9), w2);
    assert(spec_parse_payload(f1.header, b.skip(9)) == Ok::<crate::parser::PayloadView, Error>(
        f1.payload,
    ));
    assert(b.skip(9 + f1.header.length as int) =~= w2);
    assert(f1 == (FrameView { header: f1.header, payload: f1.payload }));
    assert(f2 == (FrameView { header: f2.header, payload: f2.payload }));
    assert(w2.skip(9 + f2.header.length as int) =~= Seq::<u8>::empty());
    assert(Seq::<u8>::empty().len() < 9);
    assert(spec_drain(Seq::<u8>::empty()).frames =~= Seq::<FrameView>::empty());
    assert(spec_drain(w2).frames =~= seq![f2]);
    assert(spec_drain(w2).rest =~= Seq::<u8>::empty());
    assert(spec_drain(w2).error is None);
    assert(spec_drain(b).frames =~= seq![f1] + spec_drain(w2).frames);
    assert(seq![f1] + seq![f2] =~= seq![f1, f2]);
    assert(spec_drain(b).frames =~= seq![f1, f2]);
    assert(spec_drain(b).rest == spec_drain(w2).rest);
    assert(spec_drain(b).error == spec_drain(w2).error);
}

/// The incremental frame reader of one connection: the read buffer, and
/// the header of the frame whose payload is still arriving. Once a frame
/// is whole, its payload slices are carved from the buffer and the
/// unconsumed tail moves to a fresh buffer, so payload bytes are never
/// copied out.
pub struct FrameReader {
    buffer: appendbuf::AppendBuf,
    current: Option<FrameHeader>,
    failed: bool,
}

impl FrameReader {
    /// The bytes received and not yet consumed as frames.
    pub closed spec fn buffered(&self) -> Seq<u8> {
        buf_bytes(self.buffer)
    }

    /// Whether a structural error has killed this reader.
    pub closed spec fn failed_view(&self) -> bool {
        self.failed
    }

    /// The reader is quiescent: its buffer holds at most a partial frame,
    /// and the pending header, if any, is the parse of the buffer's front.
    pub closed spec fn wf(&self) -> bool {
        &&& buf_capacity(self.buffer) == READ_BUFFER_SIZE
        &&& match self.current {
            None => self.buffered().len() < 9,
            Some(h) => {
                &&& FrameHeader::spec_parse(self.buffered()) == Ok::<FrameHeader, Error>(h)
                &&& h.length <= MAX_FRAME_SIZE
                &&& 9 <= self.buffered().len() < 9 + h.length
            },
        }
    }

    /// A quiescent reader's buffer drains to nothing: no whole frame, no
    /// error.
    pub proof fn lemma_quiescent(&self)
        requires
            self.wf(),
        ensures
            spec_drain(self.buffered()) == (Drained {
                frames: Seq::<FrameView>::empty(),
                rest: self.buffered(),
                error: None::<Error>,
            }),
    {
    }

    /// A fresh reader: empty buffer, no pending header.
    pub fn new() -> (r: FrameReader)
        ensures
            r.wf(),
            !r.failed_view(),
            r.buffered() == Seq::<u8>::empty(),
    {
        FrameReader { buffer: new_buf(READ_BUFFER_SIZE), current: None, failed: false }
    }

    /// Parse as many whole frames as the buffer holds, in wire order; on
    /// a structural error, report it and stop.
    fn drain(&mut self) -> (r: Result<Vec<Frame>, Error>)
        requires
            buf_capacity(old(self).buffer) == READ_BUFFER_SIZE,
            old(self).buffered().len() <= READ_BUFFER_SIZE,
            match old(self).current {
                None => true,
                Some(h) => FrameHeader::spec_parse(old(self).buffered()) == Ok::<
                    FrameHeader,
                    Error,
                >(h) && h.length <= MAX_FRAME_SIZE,
            },
            !old(self).failed_view(),
        ensures
            !final(self).failed_view(),
            ({
                let d = spec_drain(old(self).buffered());
                match r {
                    Ok(frames) => {
                        &&& final(self).wf()
                        &&& d.error is None
                        &&& frames@.map_values(|f: Frame| f@) == d.frames
                        &&& final(self).buffered() == d.rest
                    },
                    Err(e) => d.error == Some(e),
                }
            }),
    {
        let ghost b0 = self.buffered();
        let mut out: Vec<Frame> = Vec::new();
        proof {
            assert(out@.map_values(|f: Frame| f@) + spec_drain(b0).frames =~= spec_drain(
                b0,
            ).frames);
        }
        loop
            invariant
                b0 == old(self).buffered(),
                !self.failed,
                buf_capacity(self.buffer) == READ_BUFFER_SIZE,
                self.buffered().len() <= READ_BUFFER_SIZE,
                match self.current {
                    None => true,
                    Some(h) => FrameHeader::spec_parse(self.buffered()) == Ok::<
                        FrameHeader,
                        Error,
                    >(h) && h.length <= MAX_FRAME_SIZE,
                },
                spec_drain(b0).frames == out@.map_values(|f: Frame| f@) + spec_drain(
                    self.buffered(),
                ).frames,
                spec_drain(b0).rest == spec_drain(self.buffered()).rest,
                spec_drain(b0).error == spec_drain(self.buffered()).error,
            decreases
                    self.buffered().len(),
                    (match self.current {
                        None => 1int,
                        Some(_) => 0int,
                    }),
        {
            let has_header = self.current.is_some();
            if !has_header {
                if buf_len(&self.buffer) < 9 {
                    proof {
                        assert(out@.map_values(|f: Frame| f@) + Seq::<FrameView>::empty()
                            =~= out@.map_values(|f: Frame| f@));
                    }
                    return Ok(out);
                }
                let s = buf_slice(&self.buffer);
                let header = FrameHeader::parse(slice_as_bytes(&s));
                match header {
                    Ok(h) => {
                        if h.length > MAX_FRAME_SIZE {
                            return Err(Error::BadLength);
                        }
                        self.current = Some(h);
                    },
                    Err(e) => {
                        return Err(e);
                    },
                }
            } else {
                let h = match self.current {
                    Some(h) => h,
                    None => {
                        proof {
                            assert(false);
                        }
                        return Err(Error::BadLength);
                    },
                };
                let blen = buf_len(&self.buffer);
                let need = 9 + h.length as usize;
                if blen < need {
                    proof {
                        assert(out@.map_values(|f: Frame| f@) + Seq::<FrameView>::empty()
                            =~= out@.map_values(|f: Frame| f@));
                    }
                    return Ok(out);
                }
                let s = buf_slice(&self.buffer);
                let payload_slice = slice_range(&s, 9, blen);
                proof {
                    assert(slice_bytes(payload_slice) =~= self.buffered().skip(9));
                }
                let frame = Frame::parse(h, payload_slice);
                match frame {
                    Ok(f) => {
                        let ghost b_before = self.buffered();
                        let ghost fview = f@;
                        let ghost out_views = out@.map_values(|f2: Frame| f2@);
                        out.push(f);
                        let tail = slice_range(&s, need, blen);
                        let mut nb = new_buf(READ_BUFFER_SIZE);
                        let tail_bytes = slice_as_bytes(&tail);
                        let _ = buf_fill(&mut nb, tail_bytes);
                        proof {
                            assert(buf_bytes(nb) =~= b_before.skip(9 + h.length as int));
                        }
                        self.buffer = nb;
                        self.current = None;
                        proof {
                            lemma_drain_unfold_step(b_before, h, fview.payload);
                            assert(out@.map_values(|f2: Frame| f2@) =~= out_views.push(fview));
                            assert(out_views.push(fview) + spec_drain(self.buffered()).frames
                                =~= out_views + (seq![
                                FrameView { header: h, payload: fview.payload },
                            ] + spec_drain(self.buffered()).frames));
                            assert(fview == FrameView { header: h, payload: fview.payload });
                        }
                    },
                    Err(e) => {
                        return Err(e);
                    },
                }
            }
        }
    }

    /// Hand the reader the bytes one read produced. It returns every frame
    /// that is now whole, in wire order — exactly the frames that parsing
    /// the concatenation of everything fed so far yields — or the
    /// structural error that kills the connection.
    pub fn feed(&mut self, chunk: &[u8]) -> (r: Result<Vec<Frame>, Error>)
        requires
            old(self).wf(),
            !old(self).failed_view(),
        ensures
            ({
                let d = spec_drain(old(self).buffered() + chunk@);
                match r {
                    Ok(frames) => {
                        &&& final(self).wf()
                        &&& !final(self).failed_view()
                        &&& d.error is None
                        &&& frames@.map_values(|f: Frame| f@) == d.frames
                        &&& final(self).buffered() == d.rest
                    },
                    Err(e) => d.error == Some(e) && final(self).failed_view(),
                }
            }),
    {
        let ghost total = self.buffered() + chunk@;
        let mut out: Vec<Frame> = Vec::new();
        let clen = chunk.len();
        let mut i: usize = 0;
        proof {
            assert(self.buffered() + chunk@.skip(0) =~= total);
            assert(out@.map_values(|f: Frame| f@) + spec_drain(total).frames =~= spec_drain(
                total,
            ).frames);
        }
        loop
            invariant
                total == old(self).buffered() + chunk@,
                i <= clen,
                clen == chunk@.len(),
                self.wf(),
                !self.failed,
                spec_drain(total).frames == out@.map_values(|f: Frame| f@) + spec_drain(
                    self.buffered() + chunk@.skip(i as int),
                ).frames,
                spec_drain(total).rest == spec_drain(
                    self.buffered() + chunk@.skip(i as int),
                ).rest,
                spec_drain(total).error == spec_drain(
                    self.buffered() + chunk@.skip(i as int),
                ).error,
            decreases clen - i,
        {
            if i >= clen {
                proof {
                    self.lemma_quiescent();
                    assert(self.buffered() + chunk@.skip(i as int) =~= self.buffered());
                    assert(out@.map_values(|f: Frame| f@) + Seq::<FrameView>::empty()
                        =~= out@.map_values(|f: Frame| f@));
                }
                return Ok(out);
            }
            let ghost b_pre = self.buffered();
            let part = vstd::slice::slice_subrange(chunk, i, clen);
            let n = buf_fill(&mut self.buffer, part);
            proof {
                assert(n >= 1);
                assert(self.buffered() =~= b_pre + part@.take(n as int));
                assert(self.buffered() + chunk@.skip(i + n) =~= b_pre + chunk@.skip(i as int));
            }
            i = i + n;
            let ghost b_mid = self.buffered();
            let ghost out_pre = out@.map_values(|f: Frame| f@);
            let step = self.drain();
            match step {
                Ok(mut fresh) => {
                    let ghost skip_i = chunk@.skip(i as int);
                    let ghost fresh_views = fresh@.map_values(|f: Frame| f@);
                    proof {
                        lemma_drain_append(b_mid, skip_i);
                        assert(spec_drain(b_mid).rest + skip_i =~= self.buffered() + skip_i);
                    }
                    out.append(&mut fresh);
                    proof {
                        assert(out@.map_values(|f: Frame| f@) =~= out_pre + fresh_views);
                        assert(spec_drain(total).frames =~= out@.map_values(|f: Frame| f@)
                            + spec_drain(self.buffered() + skip_i).frames);
                    }
                },
                Err(e) => {
                    proof {
                        lemma_drain_append(b_mid, chunk@.skip(i as int));
                    }
                    self.failed = true;
                    return Err(e);
                },
            }
        }
    }
}

/// The 24-byte client connection preface, "PRI * HTTP/2.0\r\n\r\nSM\r\n\r\n",
/// expected as the first bytes from a client (RFC 7540 section 3.5).
pub open spec fn spec_preface() -> Seq<u8> {
    seq![
        0x50u8, 0x52, 0x49, 0x20, 0x2a, 0x20, 0x48, 0x54, 0x54, 0x50, 0x2f, 0x32, 0x2e, 0x30,
        0x0d, 0x0a, 0x0d, 0x0a, 0x53, 0x4d, 0x0d, 0x0a, 0x0d, 0x0a,
    ]
}

/// One byte of the connection preface.
fn preface_byte(i: usize) -> (r: u8)
    requires
        i < 24,
    ensures
        r == spec_preface()[i as int],
{
    let bytes: [u8; 24] = [
        0x50u8, 0x52, 0x49, 0x20, 0x2a, 0x20, 0x48, 0x54, 0x54, 0x50, 0x2f, 0x32, 0x2e, 0x30,
        0x0d, 0x0a, 0x0d, 0x0a, 0x53, 0x4d, 0x0d, 0x0a, 0x0d, 0x0a,
    ];
    bytes[i]
}

/// Whether a chunk agrees with the next `pl` unseen preface bytes, as far
/// as the chunk reaches.
pub open spec fn preface_matches(pl: int, chunk: Seq<u8>) -> bool {
    forall|j: int|
        0 <= j < (if pl <= chunk.len() {
            pl
        } else {
            chunk.len() as int
        }) ==> #[trigger] chunk[j] == spec_preface()[24 - pl + j]
}

/// Everything a run of received frames does to the connection state, by
/// folding `spec_apply` over them in wire order and stopping at the first
/// connection error.
pub struct FoldEffect {
    pub streams: Map<u32, State>,
    pub max_remote: u32,
    pub closing: bool,
    pub enqueued: Seq<FrameView>,
    pub dispatches: Seq<StreamIdentifier>,
    pub error: Option<crate::http::Error>,
}

/// Fold `spec_apply` over frames in wire order: frames are delivered to
/// the stream table in the order they stood on the wire, answers are
/// queued in that order, and a connection error stops delivery.
pub open spec fn spec_apply_frames(
    streams: Map<u32, State>,
    max_remote: u32,
    closing: bool,
    frames: Seq<FrameView>,
) -> FoldEffect
    decreases frames.len(),
{
    if frames.len() == 0 {
        FoldEffect {
            streams,
            max_remote,
            closing,
            enqueued: Seq::<FrameView>::empty(),
            dispatches: Seq::<StreamIdentifier>::empty(),
            error: None,
        }
    } else {
        let e = crate::http::spec_apply(streams, max_remote, closing, frames[0]);
        match e.result {
            Err(err) => FoldEffect {
                streams: e.streams,
                max_remote: e.max_remote,
                closing: e.closing,
                enqueued: e.enqueued,
                dispatches: Seq::<StreamIdentifier>::empty(),
                error: Some(err),
            },
            Ok(d) => {
                let rest = spec_apply_frames(e.streams, e.max_remote, e.closing, frames.skip(1));
                FoldEffect {
                    streams: rest.streams,
                    max_remote: rest.max_remote,
                    closing: rest.closing,
                    enqueued: e.enqueued + rest.enqueued,
                    dispatches: (match d {
                        Some(id) => seq![id],
                        None => Seq::<StreamIdentifier>::empty(),
                    }) + rest.dispatches,
                    error: rest.error,
                }
            },
        }
    }
}

/// Every frame the drain yields carries a 31-bit stream id, because the
/// header parser masks the reserved bit.
pub proof fn lemma_drain_ids(b: Seq<u8>)
    ensures
        forall|i: int|
            0 <= i < spec_drain(b).frames.len() ==> (#[trigger] spec_drain(
                b,
            ).frames[i]).header.id.0 < 0x8000_0000,
    decreases b.len(),
{
    if b.len() >= 9 {
        match FrameHeader::spec_parse(b) {
            Ok(h) => {
                crate::frame::lemma_mask31_bound(
                    crate::frame::u32_of(
                        b.subrange(5, 9)[0],
                        b.subrange(5, 9)[1],
                        b.subrange(5, 9)[2],
                        b.subrange(5, 9)[3],
                    ),
                );
                if h.length <= MAX_FRAME_SIZE && b.len() >= 9 + h.length {
                    lemma_drain_ids(b.skip(9 + h.length as int));
                }
            },
            Err(_) => {
            },
        }
    }
}

/// What one read's worth of bytes does to a whole connection: consume the
/// missing preface bytes, parse the remainder into frames, and fold
/// `spec_apply` over them. A preface mismatch or a structural parse error
/// is a connection error: GOAWAY is queued and the connection dies.
pub struct ReadEffect {
    pub preface_left: int,
    pub buffered: Seq<u8>,
    pub streams: Map<u32, State>,
    pub max_remote: u32,
    pub closing: bool,
    pub enqueued: Seq<FrameView>,
    pub result: Result<Seq<StreamIdentifier>, crate::http::Error>,
}

/// The readable path of a connection, as a function of its state and the
/// bytes one read produced.
pub open spec fn spec_readable(
    buffered: Seq<u8>,
    pl: int,
    streams: Map<u32, State>,
    max_remote: u32,
    closing: bool,
    chunk: Seq<u8>,
) -> ReadEffect {
    let p = if pl <= chunk.len() {
        pl
    } else {
        chunk.len() as int
    };
    if !preface_matches(pl, chunk) {
        ReadEffect {
            preface_left: pl,
            buffered,
            streams,
            max_remote,
            closing: true,
            enqueued: seq![
                crate::http::spec_goaway_frame(
                    StreamIdentifier(max_remote),
                    crate::frame::ErrorCode(crate::frame::ERROR_PROTOCOL),
                ),
            ],
            result: Err(
                crate::http::Error::Connection(
                    crate::frame::ErrorCode(crate::frame::ERROR_PROTOCOL),
                ),
            ),
        }
    } else {
        let d = spec_drain(buffered + chunk.skip(p));
        if d.error is Some {
            ReadEffect {
                preface_left: pl - p,
                buffered,
                streams,
                max_remote,
                closing: true,
                enqueued: seq![
                    crate::http::spec_goaway_frame(
                        StreamIdentifier(max_remote),
                        crate::frame::ErrorCode(crate::frame::ERROR_PROTOCOL),
                    ),
                ],
                result: Err(
                    crate::http::Error::Connection(
                        crate::frame::ErrorCode(crate::frame::ERROR_PROTOCOL),
                    ),
                ),
            }
        } else {
            let eff = spec_apply_frames(streams, max_remote, closing, d.frames);
            ReadEffect {
                preface_left: pl - p,
                buffered: d.rest,
                streams: eff.streams,
                max_remote: eff.max_remote,
                closing: eff.closing,
                enqueued: eff.enqueued,
                result: match eff.error {
                    None => Ok(eff.dispatches),
                    Some(err) => Err(err),
                },
            }
        }
    }
}

/// One connection's protocol core: the incremental reader, the HTTP/2
/// stream table with its outbound FIFO, and the count of preface bytes
/// still owed. The socket itself lives with the caller; bytes come in
/// through `readable` and leave through `writable`.
pub struct Connection<C> {
    reader: FrameReader,
    http2: Http2<C>,
    preface_left: usize,
    dead: bool,
}

impl<C> Connection<C> {
    /// The bytes received and not yet consumed as frames.
    pub closed spec fn buffered(&self) -> Seq<u8> {
        self.reader.buffered()
    }

    /// How many preface bytes are still owed by the peer.
    pub closed spec fn preface_left_view(&self) -> int {
        self.preface_left as int
    }

    /// Whether a fatal error has ended this connection.
    pub closed spec fn dead_view(&self) -> bool {
        self.dead
    }

    /// The HTTP/2 state, for contracts.
    pub closed spec fn http2_view(&self) -> Http2<C> {
        self.http2
    }

    /// A live connection has a quiescent reader; the HTTP/2 side stays
    /// well-formed even after death, so the farewell GOAWAY can be
    /// written out.
    pub closed spec fn wf(&self) -> bool {
        &&& !self.dead ==> (self.reader.wf() && !self.reader.failed_view())
        &&& self.http2.wf()
        &&& self.preface_left <= 24
    }

    /// A fresh connection: the whole preface owed, nothing buffered,
    /// nothing queued.
    pub fn new() -> (r: Connection<C>)
        ensures
            r.wf(),
            !r.dead_view(),
            r.preface_left_view() == 24,
            r.buffered() == Seq::<u8>::empty(),
            r.http2_view().streams_view() == Map::<u32, State>::empty(),
            r.http2_view().max_remote_view() == 0u32,
            !r.http2_view().closing_view(),
            r.http2_view().outgoing_view().queued().len() == 0,
            r.http2_view().outgoing_view().current_view() is None,
    {
        Connection {
            reader: FrameReader::new(),
            http2: Http2::new(),
            preface_left: 24,
            dead: false,
        }
    }

    /// Queue a well-formed frame for writing on this connection.
    pub fn enqueue(&mut self, frame: Frame, cb: Option<C>)
        requires
            old(self).wf(),
            frame@.wf(),
        ensures
            final(self).wf(),
            final(self).http2_view().outgoing_view().queued() == old(
                self,
            ).http2_view().outgoing_view().queued().push((frame@, cb)),
            final(self).http2_view().outgoing_view().current_view() == old(
                self,
            ).http2_view().outgoing_view().current_view(),
            final(self).http2_view().streams_view() == old(self).http2_view().streams_view(),
            final(self).dead_view() == old(self).dead_view(),
            final(self).buffered() == old(self).buffered(),
    {
        self.http2.enqueue(frame, cb);
    }

    /// Whether output is owed to the socket: writable interest should be
    /// held exactly while this is true.
    pub fn wants_writable(&self) -> (r: bool)
        ensures
            r == !(self.http2_view().outgoing_view().queued().len() == 0
                && self.http2_view().outgoing_view().current_view() is None),
    {
        !self.http2.outgoing_idle()
    }

    /// Whether a fatal error has ended this connection.
    pub fn is_dead(&self) -> (r: bool)
        ensures
            r == self.dead_view(),
    {
        self.dead
    }

    /// Mark the connection dead with a connection error: queue the GOAWAY
    /// and hand the error back.
    fn die(&mut self, code: ErrorCode) -> (r: Result<Vec<StreamIdentifier>, crate::http::Error>)
        requires
            old(self).wf(),
        ensures
            final(self).wf(),
            final(self).dead_view(),
            final(self).http2_view().streams_view() == old(self).http2_view().streams_view(),
            final(self).http2_view().max_remote_view() == old(self).http2_view().max_remote_view(),
            final(self).http2_view().closing_view(),
            final(self).http2_view().outgoing_view().queued() == old(
                self,
            ).http2_view().outgoing_view().queued().push(
                (
                    crate::http::spec_goaway_frame(
                        StreamIdentifier(old(self).http2_view().max_remote_view()),
                        code,
                    ),
                    None::<C>,
                ),
            ),
            final(self).http2_view().outgoing_view().current_view() == old(
                self,
            ).http2_view().outgoing_view().current_view(),
            r == Err::<Vec<StreamIdentifier>, crate::http::Error>(
                crate::http::Error::Connection(code),
            ),
    {
        let fault = self.http2.connection_error(code);
        self.dead = true;
        match fault {
            Err(e) => Err(e),
            Ok(_) => {
                proof {
                    assert(false);
                }
                Err(crate::http::Error::Connection(code))
            },
        }
    }

    /// Hand the connection the bytes one read produced, exactly as
    /// `spec_readable` says: match the preface, parse whole frames, apply
    /// each in wire order, and queue every answer the protocol owes. On
    /// success the result lists the streams to dispatch to the handler;
    /// on a connection error the caller flushes the queued GOAWAY and
    /// closes.
    #[verifier::rlimit(100)]
    pub fn readable(&mut self, chunk: &[u8]) -> (r: Result<
        Vec<StreamIdentifier>,
        crate::http::Error,
    >)
        requires
            old(self).wf(),
            !old(self).dead_view(),
        ensures
            final(self).wf(),
            ({
                let eff = spec_readable(
                    old(self).buffered(),
                    old(self).preface_left_view(),
                    old(self).http2_view().streams_view(),
                    old(self).http2_view().max_remote_view(),
                    old(self).http2_view().closing_view(),
                    chunk@,
                );
                &&& (match eff.result {
                    Ok(ds) => {
                        &&& r matches Ok(v) && v@ == ds
                        &&& !final(self).dead_view()
                        &&& final(self).buffered() == eff.buffered
                        &&& final(self).preface_left_view() == eff.preface_left
                    },
                    Err(e) => r matches Err(e2) && e2 == e && final(self).dead_view(),
                })
                &&& final(self).http2_view().streams_view() == eff.streams
                &&& final(self).http2_view().max_remote_view() == eff.max_remote
                &&& final(self).http2_view().closing_view() == eff.closing
                &&& final(self).http2_view().outgoing_view().queued() == old(
                    self,
                ).http2_view().outgoing_view().queued() + eff.enqueued.map_values(
                    |fv: FrameView| (fv, None::<C>),
                )
                &&& final(self).http2_view().outgoing_view().current_view() == old(
                    self,
                ).http2_view().outgoing_view().current_view()
            }),
    {
        let ghost pl0 = self.preface_left as int;
        let ghost q0 = self.http2.outgoing_view().queued();
        let ghost eff = spec_readable(
            self.buffered(),
            pl0,
            self.http2.streams_view(),
            self.http2.max_remote_view(),
            self.http2.closing_view(),
            chunk@,
        );
        let clen = chunk.len();
        let mut consumed: usize = 0;
        while self.preface_left > 0 && consumed < clen
            invariant
                pl0 == old(self).preface_left_view(),
                clen == chunk@.len(),
                consumed <= clen,
                self.preface_left <= 24,
                pl0 <= 24,
                self.preface_left == pl0 - consumed,
                consumed <= pl0,
                forall|j: int|
                    0 <= j < consumed ==> #[trigger] chunk@[j] == spec_preface()[24 - pl0 + j],
                self.reader == old(self).reader,
                self.http2 == old(self).http2,
                self.dead == old(self).dead,
                old(self).wf(),
                !old(self).dead_view(),
            decreases clen - consumed,
        {
            let idx = 24 - self.preface_left;
            let expect = preface_byte(idx);
            let got = *vstd::slice::slice_index_get(chunk, consumed);
            if got != expect {
                proof {
                    assert(chunk@[consumed as int] != spec_preface()[24 - pl0 + consumed]);
                    assert(!preface_matches(pl0, chunk@));
                }
                return self.die(ErrorCode(ERROR_PROTOCOL));
            }
            consumed = consumed + 1;
            self.preface_left = self.preface_left - 1;
        }
        proof {
            assert(consumed == if pl0 <= clen {
                pl0
            } else {
                clen as int
            });
            assert(preface_matches(pl0, chunk@));
        }
        let rest = vstd::slice::slice_subrange(chunk, consumed, clen);
        let ghost b_pre = self.reader.buffered();
        let ghost all = spec_drain(b_pre + chunk@.skip(consumed as int)).frames;
        let fed = self.reader.feed(rest);
        let mut frames = match fed {
            Ok(fs) => fs,
            Err(_) => {
                proof {
                    assert(rest@ =~= chunk@.skip(consumed as int));
                }
                self.dead = true;
                return self.die(ErrorCode(ERROR_PROTOCOL));
            },
        };
        proof {
            assert(rest@ =~= chunk@.skip(consumed as int));
            assert(b_pre == old(self).buffered());
            lemma_drain_ids(b_pre + chunk@.skip(consumed as int));
            assert(frames@.map_values(|f: Frame| f@) == all);
            assert forall|i: int|
                0 <= i < frames@.len() implies (#[trigger] frames@[i])@.header.id.0
                < 0x8000_0000 by {
                assert(frames@.map_values(|f: Frame| f@)[i] == frames@[i]@);
                assert((b_pre + chunk@.skip(consumed as int)).len() >= 0);
                assert(spec_drain(b_pre + chunk@.skip(consumed as int)).frames[i].header.id.0
                    < 0x8000_0000);
            }
        }
        let ghost s0 = self.http2.streams_view();
        let ghost m0 = self.http2.max_remote_view();
        let ghost c0 = self.http2.closing_view();
        let ghost full = spec_apply_frames(s0, m0, c0, all);
        let ghost cur0 = self.http2.outgoing_view().current_view();
        let ghost mut enq_done: Seq<FrameView> = Seq::<FrameView>::empty();
        let mut dispatches: Vec<StreamIdentifier> = Vec::new();
        proof {
            assert(Seq::<FrameView>::empty().map_values(|fv: FrameView| (fv, None::<C>))
                =~= Seq::<(FrameView, Option<C>)>::empty());
            assert(q0 + Seq::<FrameView>::empty().map_values(|fv: FrameView| (fv, None::<C>))
                =~= q0);
            let d = spec_drain(old(self).buffered() + chunk@.skip(consumed as int));
            assert(d.error is None);
            assert(all == d.frames);
            assert(eff.buffered == d.rest);
            assert(eff.preface_left == pl0 - consumed);
            assert(eff.streams == full.streams);
            assert(eff.enqueued == full.enqueued);
            assert(enq_done + full.enqueued =~= full.enqueued);
            assert(dispatches@ + full.dispatches =~= full.dispatches);
        }
        loop
            invariant
                s0 == old(self).http2_view().streams_view(),
                m0 == old(self).http2_view().max_remote_view(),
                c0 == old(self).http2_view().closing_view(),
                full == spec_apply_frames(s0, m0, c0, all),
                eff == spec_readable(
                    old(self).buffered(),
                    old(self).preface_left_view(),
                    s0,
                    m0,
                    c0,
                    chunk@,
                ),
                eff.buffered == self.reader.buffered(),
                eff.preface_left == self.preface_left as int,
                eff.streams == full.streams,
                eff.max_remote == full.max_remote,
                eff.closing == full.closing,
                eff.enqueued == full.enqueued,
                eff.result == (match full.error {
                    None => Ok::<Seq<StreamIdentifier>, crate::http::Error>(full.dispatches),
                    Some(err) => Err::<Seq<StreamIdentifier>, crate::http::Error>(err),
                }),
                q0 == old(self).http2_view().outgoing_view().queued(),
                cur0 == old(self).http2_view().outgoing_view().current_view(),
                forall|i: int|
                    0 <= i < frames@.len() ==> (#[trigger] frames@[i])@.header.id.0 < 0x8000_0000,
                self.http2.wf(),
                !self.dead,
                self.preface_left <= 24,
                self.reader.wf(),
                !self.reader.failed_view(),
                self.http2.outgoing_view().queued() == q0 + enq_done.map_values(
                    |fv: FrameView| (fv, None::<C>),
                ),
                self.http2.outgoing_view().current_view() == cur0,
                ({
                    let rem = spec_apply_frames(
                        self.http2.streams_view(),
                        self.http2.max_remote_view(),
                        self.http2.closing_view(),
                        frames@.map_values(|f: Frame| f@),
                    );
                    &&& full.streams == rem.streams
                    &&& full.max_remote == rem.max_remote
                    &&& full.closing == rem.closing
                    &&& full.error == rem.error
                    &&& full.enqueued == enq_done + rem.enqueued
                    &&& full.dispatches == dispatches@ + rem.dispatches
                }),
            decreases frames@.len(),
        {
            if frames.len() == 0 {
                proof {
                    assert(frames@.map_values(|f: Frame| f@) =~= Seq::<FrameView>::empty());
                    let rem = spec_apply_frames(
                        self.http2.streams_view(),
                        self.http2.max_remote_view(),
                        self.http2.closing_view(),
                        frames@.map_values(|f: Frame| f@),
                    );
                    assert(rem.error is None);
                    assert(full.enqueued =~= enq_done);
                    assert(full.dispatches =~= dispatches@);
                    assert(eff.enqueued.map_values(|fv: FrameView| (fv, None::<C>))
                        =~= enq_done.map_values(|fv: FrameView| (fv, None::<C>)));
                }
                return Ok(dispatches);
            }
            let ghost r_views = frames@.map_values(|f: Frame| f@);
            let ghost st_pre = self.http2.streams_view();
            let ghost mr_pre = self.http2.max_remote_view();
            let ghost cl_pre = self.http2.closing_view();
            let ghost rem_pre = spec_apply_frames(st_pre, mr_pre, cl_pre, r_views);
            let f = frames.remove(0);
            proof {
                assert(frames@.map_values(|f2: Frame| f2@) =~= r_views.skip(1));
                assert(f@ == r_views[0]);
            }
            let ghost e = crate::http::spec_apply(st_pre, mr_pre, cl_pre, f@);
            let applied = self.http2.apply(f);
            proof {
                enq_done = enq_done + e.enqueued;
                assert(self.http2.outgoing_view().queued() =~= q0 + enq_done.map_values(
                    |fv: FrameView| (fv, None::<C>),
                ));
            }
            match applied {
                Ok(d) => {
                    match d {
                        Some(id) => {
                            dispatches.push(id);
                        },
                        None => {
                        },
                    }
                    proof {
                        let rem_new = spec_apply_frames(
                            e.streams,
                            e.max_remote,
                            e.closing,
                            r_views.skip(1),
                        );
                        assert(rem_pre.streams == rem_new.streams);
                        assert(full.enqueued =~= enq_done + rem_new.enqueued);
                        assert(full.dispatches =~= dispatches@ + rem_new.dispatches);
                    }
                },
                Err(err) => {
                    self.dead = true;
                    proof {
                        assert(rem_pre.error == Some(err));
                        assert(full.error == Some(err));
                        assert(full.streams == rem_pre.streams);
                        assert(self.http2.streams_view() == e.streams);
                        assert(rem_pre.streams == e.streams);
                        assert(full.enqueued =~= enq_done);
                        assert(eff.enqueued.map_values(|fv: FrameView| (fv, None::<C>))
                            =~= enq_done.map_values(|fv: FrameView| (fv, None::<C>)));
                    }
                    return Err(err);
                },
            }
        }
    }

    /// Drive the connection's outbound FIFO into the sink: bytes leave in
    /// enqueue order, and the returned tags are exactly those of the
    /// frames whose bytes have all been accepted, in that order.
    pub fn writable<S: crate::encoder::Sink>(&mut self, sink: &mut S) -> (r: (
        Vec<Option<C>>,
        WriteProgress,
    ))
        requires
            old(self).wf(),
        ensures
            final(self).wf(),
            final(self).dead_view() == old(self).dead_view(),
            final(self).buffered() == old(self).buffered(),
            final(self).http2_view().streams_view() == old(self).http2_view().streams_view(),
            ({
                let ob0 = old(self).http2_view().outgoing_view().outbound_bytes();
                let ob1 = final(self).http2_view().outgoing_view().outbound_bytes();
                let t0 = old(self).http2_view().outgoing_view().tags();
                let t1 = final(self).http2_view().outgoing_view().tags();
                &&& ob1.len() <= ob0.len()
                &&& ob1 == ob0.skip(ob0.len() - ob1.len())
                &&& final(sink).sunk() == old(sink).sunk() + ob0.take(ob0.len() - ob1.len())
                &&& r.0@.len() <= t0.len()
                &&& r.0@ == t0.take(r.0@.len() as int)
                &&& t1 == t0.skip(r.0@.len() as int)
                &&& (r.1 == WriteProgress::Flushed ==> ob1.len() == 0 && t1.len() == 0)
                &&& (ob0.len() == 0 ==> r.1 == WriteProgress::Flushed)
            }),
    {
        self.http2.write_outgoing(sink)
    }
}

/// Mapping frame views over a suffix is the suffix of the mapped views.
proof fn lemma_map_values_skip(v: Seq<Frame>, k: int)
    requires
        0 <= k <= v.len(),
    ensures
        v.map_values(|f: Frame| f@).skip(k) == v.skip(k).map_values(|f: Frame| f@),
{
    assert(v.map_values(|f: Frame| f@).skip(k) =~= v.skip(k).map_values(|f: Frame| f@));
}

/// One whole frame at the front of the buffer is one step of the drain.
proof fn lemma_drain_unfold_step(b: Seq<u8>, h: FrameHeader, pv: crate::parser::PayloadView)
    requires
        FrameHeader::spec_parse(b) == Ok::<FrameHeader, Error>(h),
        h.length <= MAX_FRAME_SIZE,
        b.len() >= 9 + h.length,
        spec_parse_payload(h, b.skip(9)) == Ok::<crate::parser::PayloadView, Error>(pv),
    ensures
        spec_drain(b).frames == seq![FrameView { header: h, payload: pv }] + spec_drain(
            b.skip(9 + h.length as int),
        ).frames,
        spec_drain(b).rest == spec_drain(b.skip(9 + h.length as int)).rest,
        spec_drain(b).error == spec_drain(b.skip(9 + h.length as int)).error,
{
}

} // verus!
