//! Wire-level primitives of the HTTP/2 framing layer: big-endian integer
//! fields, frame kinds and flags, stream identifiers, and the 9-byte frame
//! header with its parser and encoder.

use vstd::prelude::*;

verus! {

/// Number of bytes in a frame header on the wire.
pub const FRAME_HEADER_BYTES: usize = 9;

/// END_STREAM flag bit (DATA, HEADERS).
pub const FLAG_END_STREAM: u8 = 0x1;
/// ACK flag bit (SETTINGS, PING); shares its value with END_STREAM.
pub const FLAG_ACK: u8 = 0x1;
/// END_HEADERS flag bit (HEADERS, PUSH_PROMISE, CONTINUATION).
pub const FLAG_END_HEADERS: u8 = 0x4;
/// PADDED flag bit (DATA, HEADERS, PUSH_PROMISE).
pub const FLAG_PADDED: u8 = 0x8;
/// PRIORITY flag bit (HEADERS).
pub const FLAG_PRIORITY: u8 = 0x20;

/// Errors of the framing layer. Only `Incomplete` is recoverable: the caller
/// should read more bytes and retry. Every other variant is a structural
/// violation that terminates the connection.
#[derive(Clone, Copy, Debug, PartialEq, Eq, Structural)]
pub enum Error {
    /// Not enough bytes yet for a full header or payload.
    Incomplete,
    /// The payload length does not fit the frame kind.
    BadLength,
    /// A flag bit outside the defined set was present.
    BadFlag,
    /// The declared padding does not fit inside the payload.
    BadPadding,
    /// A SETTINGS payload was malformed.
    BadSetting,
}

/// The registered frame kinds, plus a passthrough for unknown kind bytes
/// (RFC 7540 section 4.1 forbids failing on unknown kinds).
#[derive(Clone, Copy, Debug, PartialEq, Eq, Structural)]
pub enum Kind {
    Data,
    Headers,
    Priority,
    Reset,
    Settings,
    PushPromise,
    Ping,
    GoAway,
    WindowUpdate,
    Continuation,
    Unregistered,
}

impl Kind {
    /// Which kind a wire kind byte denotes.
    pub open spec fn from_byte(b: u8) -> Kind {
        if b == 0 {
            Kind::Data
        } else if b == 1 {
            Kind::Headers
        } else if b == 2 {
            Kind::Priority
        } else if b == 3 {
            Kind::Reset
        } else if b == 4 {
            Kind::Settings
        } else if b == 5 {
            Kind::PushPromise
        } else if b == 6 {
            Kind::Ping
        } else if b == 7 {
            Kind::GoAway
        } else if b == 8 {
            Kind::WindowUpdate
        } else if b == 9 {
            Kind::Continuation
        } else {
            Kind::Unregistered
        }
    }

    /// The byte this kind is encoded as; unknown kinds encode as 255.
    pub open spec fn byte(self) -> u8 {
        match self {
            Kind::Data => 0,
            Kind::Headers => 1,
            Kind::Priority => 2,
            Kind::Reset => 3,
            Kind::Settings => 4,
            Kind::PushPromise => 5,
            Kind::Ping => 6,
            Kind::GoAway => 7,
            Kind::WindowUpdate => 8,
            Kind::Continuation => 9,
            Kind::Unregistered => 255,
        }
    }

    /// Decode a kind byte.
    pub fn new(byte: u8) -> (r: Kind)
        ensures
            r == Kind::from_byte(byte),
    {
        match byte {
            0 => Kind::Data,
            1 => Kind::Headers,
            2 => Kind::Priority,
            3 => Kind::Reset,
            4 => Kind::Settings,
            5 => Kind::PushPromise,
            6 => Kind::Ping,
            7 => Kind::GoAway,
            8 => Kind::WindowUpdate,
            9 => Kind::Continuation,
            _ => Kind::Unregistered,
        }
    }

    /// Encode this kind as its wire byte.
    pub fn encode(&self) -> (r: u8)
        ensures
            r == self.byte(),
    {
        match *self {
            Kind::Data => 0,
            Kind::Headers => 1,
            Kind::Priority => 2,
            Kind::Reset => 3,
            Kind::Settings => 4,
            Kind::PushPromise => 5,
            Kind::Ping => 6,
            Kind::GoAway => 7,
            Kind::WindowUpdate => 8,
            Kind::Continuation => 9,
            Kind::Unregistered => 255,
        }
    }
}

/// Decoding a kind's wire byte yields the kind back, for every kind.
pub proof fn lemma_kind_roundtrip(k: Kind)
    ensures
        Kind::from_byte(k.byte()) == k,
{
}

/// The defined flag bits, by name. A frame header carries them as a bitmask.
#[derive(Clone, Copy, Debug, PartialEq, Eq, Structural)]
pub enum Flag {
    EndStream,
    Ack,
    EndHeaders,
    Padded,
    Priority,
}

impl Flag {
    /// The bit this flag occupies in the header's flag byte. ACK and
    /// END_STREAM share a bit; they occur on disjoint frame kinds.
    pub open spec fn spec_bit(self) -> u8 {
        match self {
            Flag::EndStream => 0x1,
            Flag::Ack => 0x1,
            Flag::EndHeaders => 0x4,
            Flag::Padded => 0x8,
            Flag::Priority => 0x20,
        }
    }

    /// The bit this flag occupies in the header's flag byte.
    pub fn bit(self) -> (r: u8)
        ensures
            r == self.spec_bit(),
    {
        match self {
            Flag::EndStream => 0x1,
            Flag::Ack => 0x1,
            Flag::EndHeaders => 0x4,
            Flag::Padded => 0x8,
            Flag::Priority => 0x20,
        }
    }
}

/// Whether a wire flag byte carries only defined bits: 0xd2 is the
/// complement of the five bits above.
pub open spec fn flag_byte_ok(b: u8) -> bool {
    b & 0xd2 == 0
}

/// A 31-bit stream identifier. Zero identifies the connection itself.
#[derive(Clone, Copy, Debug, PartialEq, Eq, Hash, Structural)]
pub struct StreamIdentifier(pub u32);

/// An HTTP/2 error code, as carried by RST_STREAM and GOAWAY.
#[derive(Clone, Copy, Debug, PartialEq, Eq, Hash, Structural)]
pub struct ErrorCode(pub u32);

/// The PROTOCOL_ERROR error code (RFC 7540 section 7).
pub const ERROR_PROTOCOL: u32 = 0x1;
/// The STREAM_CLOSED error code (RFC 7540 section 7).
pub const ERROR_STREAM_CLOSED: u32 = 0x5;

/// A WINDOW_UPDATE increment.
#[derive(Clone, Copy, Debug, PartialEq, Eq, Hash, Structural)]
pub struct SizeIncrement(pub u32);

/// The priority fields a HEADERS or PRIORITY frame may carry.
#[derive(Clone, Copy, Debug, PartialEq, Eq, Hash, Structural)]
pub struct Priority {
    /// Whether the dependency is exclusive (the wire's high bit).
    pub exclusive: bool,
    /// The stream this one depends on.
    pub dependency: StreamIdentifier,
    /// The priority weight.
    pub weight: u8,
}

/// One entry of a SETTINGS payload: an identifier with its value.
#[derive(Clone, Copy, Debug, PartialEq, Eq, Hash, Structural)]
pub struct Setting {
    /// The 16-bit setting identifier.
    pub identifier: u16,
    /// The 32-bit setting value.
    pub value: u32,
}

/// The setting identifiers RFC 7540 section 6.5.2 registers.
#[derive(Clone, Copy, Debug, PartialEq, Eq, Structural)]
pub enum SettingIdentifier {
    HeaderTableSize,
    EnablePush,
    MaxConcurrentStreams,
    InitialWindowSize,
    MaxFrameSize,
}

impl SettingIdentifier {
    /// The wire code of this setting identifier.
    pub open spec fn spec_code(self) -> u16 {
        match self {
            SettingIdentifier::HeaderTableSize => 0x1,
            SettingIdentifier::EnablePush => 0x2,
            SettingIdentifier::MaxConcurrentStreams => 0x3,
            SettingIdentifier::InitialWindowSize => 0x4,
            SettingIdentifier::MaxFrameSize => 0x5,
        }
    }

    /// The wire code of this setting identifier.
    pub fn code(self) -> (r: u16)
        ensures
            r == self.spec_code(),
    {
        match self {
            SettingIdentifier::HeaderTableSize => 0x1,
            SettingIdentifier::EnablePush => 0x2,
            SettingIdentifier::MaxConcurrentStreams => 0x3,
            SettingIdentifier::InitialWindowSize => 0x4,
            SettingIdentifier::MaxFrameSize => 0x5,
        }
    }
}

impl Setting {
    /// The registered identifier of this setting, if its code is registered.
    pub fn identifier(&self) -> (r: Option<SettingIdentifier>)
        ensures
            r == (match self.identifier {
                0x1u16 => Some(SettingIdentifier::HeaderTableSize),
                0x2u16 => Some(SettingIdentifier::EnablePush),
                0x3u16 => Some(SettingIdentifier::MaxConcurrentStreams),
                0x4u16 => Some(SettingIdentifier::InitialWindowSize),
                0x5u16 => Some(SettingIdentifier::MaxFrameSize),
                _ => None::<SettingIdentifier>,
            }),
    {
        match self.identifier {
            0x1 => Some(SettingIdentifier::HeaderTableSize),
            0x2 => Some(SettingIdentifier::EnablePush),
            0x3 => Some(SettingIdentifier::MaxConcurrentStreams),
            0x4 => Some(SettingIdentifier::InitialWindowSize),
            0x5 => Some(SettingIdentifier::MaxFrameSize),
            _ => None,
        }
    }
}

/// The value of two bytes read big-endian.
pub open spec fn u16_of(b0: u8, b1: u8) -> u16 {
    ((b0 as u16) << 8) | (b1 as u16)
}

/// The value of three bytes read big-endian.
pub open spec fn u24_of(b0: u8, b1: u8, b2: u8) -> u32 {
    ((b0 as u32) << 16) | ((b1 as u32) << 8) | (b2 as u32)
}

/// The value of four bytes read big-endian.
pub open spec fn u32_of(b0: u8, b1: u8, b2: u8, b3: u8) -> u32 {
    ((b0 as u32) << 24) | ((b1 as u32) << 16) | ((b2 as u32) << 8) | (b3 as u32)
}

/// The value of eight bytes read big-endian.
pub open spec fn u64_of(b0: u8, b1: u8, b2: u8, b3: u8, b4: u8, b5: u8, b6: u8, b7: u8) -> u64 {
    ((b0 as u64) << 56) | ((b1 as u64) << 48) | ((b2 as u64) << 40) | ((b3 as u64) << 32)
        | ((b4 as u64) << 24) | ((b5 as u64) << 16) | ((b6 as u64) << 8) | (b7 as u64)
}

/// The two big-endian bytes of a 16-bit value.
pub open spec fn be16(v: u16) -> Seq<u8> {
    seq![((v >> 8) & 0xff) as u8, (v & 0xff) as u8]
}

/// The three big-endian bytes of a value below 2^24.
pub open spec fn be24(v: u32) -> Seq<u8> {
    seq![((v >> 16) & 0xff) as u8, ((v >> 8) & 0xff) as u8, (v & 0xff) as u8]
}

/// The four big-endian bytes of a 32-bit value.
pub open spec fn be32(v: u32) -> Seq<u8> {
    seq![
        ((v >> 24) & 0xff) as u8,
        ((v >> 16) & 0xff) as u8,
        ((v >> 8) & 0xff) as u8,
        (v & 0xff) as u8,
    ]
}

/// The eight big-endian bytes of a 64-bit value.
pub open spec fn be64(v: u64) -> Seq<u8> {
    seq![
        ((v >> 56) & 0xff) as u8,
        ((v >> 48) & 0xff) as u8,
        ((v >> 40) & 0xff) as u8,
        ((v >> 32) & 0xff) as u8,
        ((v >> 24) & 0xff) as u8,
        ((v >> 16) & 0xff) as u8,
        ((v >> 8) & 0xff) as u8,
        (v & 0xff) as u8,
    ]
}

/// A 32-bit value with its high (reserved) bit masked off.
pub open spec fn mask31(v: u32) -> u32 {
    v & 0x7fff_ffff
}

/// Reading back the big-endian bytes of a 16-bit value yields the value.
pub proof fn lemma_be16_roundtrip(v: u16)
    ensures
        u16_of(((v >> 8) & 0xff) as u8, (v & 0xff) as u8) == v,
{
    assert(((((v >> 8) & 0xff) as u8 as u16) << 8) | ((v & 0xff) as u8 as u16) == v)
        by (bit_vector);
}

/// Reading back the big-endian bytes of a value below 2^24 yields the value.
pub proof fn lemma_be24_roundtrip(v: u32)
    requires
        v < 0x100_0000,
    ensures
        u24_of(((v >> 16) & 0xff) as u8, ((v >> 8) & 0xff) as u8, (v & 0xff) as u8) == v,
{
    assert(v < 0x100_0000 ==> (((v >> 16) & 0xff) as u8 as u32) << 16 | (((v >> 8) & 0xff) as u8
        as u32) << 8 | ((v & 0xff) as u8 as u32) == v) by (bit_vector);
}

/// Reading back the big-endian bytes of a 32-bit value yields the value.
pub proof fn lemma_be32_roundtrip(v: u32)
    ensures
        u32_of(
            ((v >> 24) & 0xff) as u8,
            ((v >> 16) & 0xff) as u8,
            ((v >> 8) & 0xff) as u8,
            (v & 0xff) as u8,
        ) == v,
{
    assert((((v >> 24) & 0xff) as u8 as u32) << 24 | (((v >> 16) & 0xff) as u8 as u32) << 16 | (((v
        >> 8) & 0xff) as u8 as u32) << 8 | ((v & 0xff) as u8 as u32) == v) by (bit_vector);
}

/// Reading back the big-endian bytes of a 64-bit value yields the value.
pub proof fn lemma_be64_roundtrip(v: u64)
    ensures
        u64_of(
            ((v >> 56) & 0xff) as u8,
            ((v >> 48) & 0xff) as u8,
            ((v >> 40) & 0xff) as u8,
            ((v >> 32) & 0xff) as u8,
            ((v >> 24) & 0xff) as u8,
            ((v >> 16) & 0xff) as u8,
            ((v >> 8) & 0xff) as u8,
            (v & 0xff) as u8,
        ) == v,
{
    assert((((v >> 56) & 0xff) as u8 as u64) << 56 | (((v >> 48) & 0xff) as u8 as u64) << 48 | (((v
        >> 40) & 0xff) as u8 as u64) << 40 | (((v >> 32) & 0xff) as u8 as u64) << 32 | (((v >> 24)
        & 0xff) as u8 as u64) << 24 | (((v >> 16) & 0xff) as u8 as u64) << 16 | (((v >> 8) & 0xff)
        as u8 as u64) << 8 | ((v & 0xff) as u8 as u64) == v) by (bit_vector);
}

/// A 24-bit big-endian read is below 2^24.
pub proof fn lemma_u24_bound(b0: u8, b1: u8, b2: u8)
    ensures
        u24_of(b0, b1, b2) < 0x100_0000,
{
    assert(((b0 as u32) << 16 | (b1 as u32) << 8 | (b2 as u32)) < 0x100_0000) by (bit_vector);
}

/// Encoding a value read from two bytes reproduces the bytes.
pub proof fn lemma_be16_of_bytes(b0: u8, b1: u8)
    ensures
        be16(u16_of(b0, b1)) == seq![b0, b1],
{
    let v = u16_of(b0, b1);
    assert(((((b0 as u16) << 8) | (b1 as u16)) >> 8) & 0xff == b0 && (((b0 as u16) << 8) | (
    b1 as u16)) & 0xff == b1) by (bit_vector);
    assert(be16(v) =~= seq![b0, b1]);
}

/// Encoding a value read from four bytes reproduces the bytes.
pub proof fn lemma_be32_of_bytes(b0: u8, b1: u8, b2: u8, b3: u8)
    ensures
        be32(u32_of(b0, b1, b2, b3)) == seq![b0, b1, b2, b3],
{
    let v = u32_of(b0, b1, b2, b3);
    assert({
        let x = ((b0 as u32) << 24) | ((b1 as u32) << 16) | ((b2 as u32) << 8) | (b3 as u32);
        (x >> 24) & 0xff == b0 && (x >> 16) & 0xff == b1 && (x >> 8) & 0xff == b2 && x & 0xff == b3
    }) by (bit_vector);
    assert(be32(v) =~= seq![b0, b1, b2, b3]);
}

/// Encoding a value read from eight bytes reproduces the bytes.
pub proof fn lemma_be64_of_bytes(b0: u8, b1: u8, b2: u8, b3: u8, b4: u8, b5: u8, b6: u8, b7: u8)
    ensures
        be64(u64_of(b0, b1, b2, b3, b4, b5, b6, b7)) == seq![b0, b1, b2, b3, b4, b5, b6, b7],
{
    let v = u64_of(b0, b1, b2, b3, b4, b5, b6, b7);
    assert({
        let x = ((b0 as u64) << 56) | ((b1 as u64) << 48) | ((b2 as u64) << 40) | ((b3 as u64)
            << 32) | ((b4 as u64) << 24) | ((b5 as u64) << 16) | ((b6 as u64) << 8) | (b7 as u64);
        (x >> 56) & 0xff == b0 && (x >> 48) & 0xff == b1 && (x >> 40) & 0xff == b2 && (x >> 32)
            & 0xff == b3 && (x >> 24) & 0xff == b4 && (x >> 16) & 0xff == b5 && (x >> 8) & 0xff
            == b6 && x & 0xff == b7
    }) by (bit_vector);
    assert(be64(v) =~= seq![b0, b1, b2, b3, b4, b5, b6, b7]);
}

/// Masking the reserved bit of a 31-bit value changes nothing.
pub proof fn lemma_mask31_small(v: u32)
    requires
        v < 0x8000_0000,
    ensures
        mask31(v) == v,
{
    assert(v < 0x8000_0000 ==> v & 0x7fff_ffff == v) by (bit_vector);
}

/// A masked value is below 2^31.
pub proof fn lemma_mask31_bound(v: u32)
    ensures
        mask31(v) < 0x8000_0000,
{
    assert(v & 0x7fff_ffff < 0x8000_0000) by (bit_vector);
}

impl StreamIdentifier {
    /// What parsing four big-endian bytes as a stream id yields: the 32-bit
    /// value with the reserved high bit masked off.
    pub open spec fn spec_parse(b: Seq<u8>) -> StreamIdentifier
        recommends
            b.len() >= 4,
    {
        StreamIdentifier(mask31(u32_of(b[0], b[1], b[2], b[3])))
    }

    /// Parse a stream identifier from the first four bytes, masking the
    /// reserved high bit.
    pub fn parse(buf: &[u8]) -> (r: StreamIdentifier)
        requires
            buf@.len() >= 4,
        ensures
            r == StreamIdentifier::spec_parse(buf@),
    {
        let b0 = *vstd::slice::slice_index_get(buf, 0);
        let b1 = *vstd::slice::slice_index_get(buf, 1);
        let b2 = *vstd::slice::slice_index_get(buf, 2);
        let b3 = *vstd::slice::slice_index_get(buf, 3);
        StreamIdentifier(
            (((b0 as u32) << 24) | ((b1 as u32) << 16) | ((b2 as u32) << 8) | (b3 as u32))
                & 0x7fff_ffff,
        )
    }
}

/// A 9-byte frame header: 24-bit payload length, kind byte, flag byte, and
/// a 31-bit stream identifier. Invariant of well-formed traffic:
/// `length <= MAX_FRAME_SIZE`.
#[derive(Clone, Copy, Debug, PartialEq, Eq, Structural)]
pub struct FrameHeader {
    /// Payload length in bytes (24 bits on the wire).
    pub length: u32,
    /// The frame kind.
    pub kind: Kind,
    /// The flag bits.
    pub flag: u8,
    /// The stream the frame belongs to; zero is the connection itself.
    pub id: StreamIdentifier,
}

impl FrameHeader {
    /// Whether this header can be put on the wire: the length fits in 24
    /// bits, the id in 31, and only defined flag bits are set.
    pub open spec fn wf(self) -> bool {
        &&& self.length < 0x100_0000
        &&& self.id.0 < 0x8000_0000
        &&& flag_byte_ok(self.flag)
    }

    /// The nine wire bytes of this header.
    pub open spec fn spec_bytes(self) -> Seq<u8> {
        be24(self.length) + seq![self.kind.byte()] + seq![self.flag] + be32(self.id.0)
    }

    /// What parsing a byte sequence as a frame header yields.
    pub open spec fn spec_parse(b: Seq<u8>) -> Result<FrameHeader, Error> {
        if b.len() < 9 {
            Err(Error::Incomplete)
        } else if !flag_byte_ok(b[4]) {
            Err(Error::BadFlag)
        } else {
            Ok(
                FrameHeader {
                    length: u24_of(b[0], b[1], b[2]),
                    kind: Kind::from_byte(b[3]),
                    flag: b[4],
                    id: StreamIdentifier::spec_parse(b.subrange(5, 9)),
                },
            )
        }
    }

    /// Parse a frame header from the first nine bytes. Fails with
    /// `Incomplete` on fewer than nine bytes and with `BadFlag` on an
    /// undefined flag bit; the stream id's reserved bit is masked off.
    pub fn parse(buf: &[u8]) -> (r: Result<FrameHeader, Error>)
        ensures
            r == FrameHeader::spec_parse(buf@),
            r matches Ok(h) ==> h.wf() && h.length <= 0xff_ffff,
    {
        if buf.len() < 9 {
            return Err(Error::Incomplete);
        }
        let flag = *vstd::slice::slice_index_get(buf, 4);
        if flag & 0xd2 != 0 {
            return Err(Error::BadFlag);
        }
        let b0 = *vstd::slice::slice_index_get(buf, 0);
        let b1 = *vstd::slice::slice_index_get(buf, 1);
        let b2 = *vstd::slice::slice_index_get(buf, 2);
        let kind_byte = *vstd::slice::slice_index_get(buf, 3);
        let id = StreamIdentifier::parse(vstd::slice::slice_subrange(buf, 5, 9));
        let length = ((b0 as u32) << 16) | ((b1 as u32) << 8) | (b2 as u32);
        proof {
            lemma_u24_bound(b0, b1, b2);
            lemma_mask31_bound(u32_of(buf@[5], buf@[6], buf@[7], buf@[8]));
        }
        Ok(FrameHeader { length, kind: Kind::new(kind_byte), flag, id })
    }

    /// Encode this header as its nine wire bytes.
    pub fn encode(&self) -> (r: Vec<u8>)
        requires
            self.wf(),
        ensures
            r@ == self.spec_bytes(),
            r@.len() == 9,
    {
        let mut out: Vec<u8> = Vec::new();
        let v = self.length;
        out.push(((v >> 16) & 0xff) as u8);
        out.push(((v >> 8) & 0xff) as u8);
        out.push((v & 0xff) as u8);
        out.push(self.kind.encode());
        out.push(self.flag);
        let id = self.id.0;
        out.push(((id >> 24) & 0xff) as u8);
        out.push(((id >> 16) & 0xff) as u8);
        out.push(((id >> 8) & 0xff) as u8);
        out.push((id & 0xff) as u8);
        proof {
            assert(out@ =~= self.spec_bytes());
        }
        out
    }
}

/// Append the four big-endian bytes of a 32-bit value.
pub fn push_u32(out: &mut Vec<u8>, v: u32)
    ensures
        final(out)@ == old(out)@ + be32(v),
{
    out.push(((v >> 24) & 0xff) as u8);
    out.push(((v >> 16) & 0xff) as u8);
    out.push(((v >> 8) & 0xff) as u8);
    out.push((v & 0xff) as u8);
    proof {
        assert(out@ =~= old(out)@ + be32(v));
    }
}

/// Append the eight big-endian bytes of a 64-bit value.
pub fn push_u64(out: &mut Vec<u8>, v: u64)
    ensures
        final(out)@ == old(out)@ + be64(v),
{
    out.push(((v >> 56) & 0xff) as u8);
    out.push(((v >> 48) & 0xff) as u8);
    out.push(((v >> 40) & 0xff) as u8);
    out.push(((v >> 32) & 0xff) as u8);
    out.push(((v >> 24) & 0xff) as u8);
    out.push(((v >> 16) & 0xff) as u8);
    out.push(((v >> 8) & 0xff) as u8);
    out.push((v & 0xff) as u8);
    proof {
        assert(out@ =~= old(out)@ + be64(v));
    }
}

/// Append a copy of the given bytes.
pub fn push_bytes(out: &mut Vec<u8>, bytes: &[u8])
    ensures
        final(out)@ == old(out)@ + bytes@,
{
    let n = bytes.len();
    let mut i: usize = 0;
    while i < n
        invariant
            i <= n,
            n == bytes@.len(),
            out@ == old(out)@ + bytes@.take(i as int),
        decreases n - i,
    {
        out.push(*vstd::slice::slice_index_get(bytes, i));
        i = i + 1;
        proof {
            assert(out@ =~= old(out)@ + bytes@.take(i as int));
        }
    }
    proof {
        assert(out@ =~= old(out)@ + bytes@);
    }
}

/// Parsing an encoded well-formed header yields the header back.
pub proof fn lemma_header_roundtrip(h: FrameHeader)
    requires
        h.wf(),
    ensures
        FrameHeader::spec_parse(h.spec_bytes()) == Ok::<FrameHeader, Error>(h),
{
    let b = h.spec_bytes();
    assert(b.len() == 9);
    assert(flag_byte_ok(b[4]));
    lemma_be24_roundtrip(h.length);
    lemma_kind_roundtrip(h.kind);
    let id = h.id.0;
    lemma_be32_roundtrip(id);
    lemma_mask31_small(id);
    let sub = b.subrange(5, 9);
    assert(sub[0] == ((id >> 24) & 0xff) as u8);
    assert(sub[1] == ((id >> 16) & 0xff) as u8);
    assert(sub[2] == ((id >> 8) & 0xff) as u8);
    assert(sub[3] == (id & 0xff) as u8);
}

} // verus!
