//! The resumable frame encoder. A `FrameEncoder` is a small state machine
//! of sub-encoders: a nine-byte header encoder, zero or more fixed-size
//! field encoders, and position-tracked cursors over payload slices. Each
//! call writes the next chunk of the frame's remaining bytes into a `Sink`;
//! after a would-block, the next call resumes at the same position, so the
//! concatenation of all chunks equals a single-call encoding.

use vstd::prelude::*;

use crate::buf::{slice_as_bytes, slice_bytes, slice_len};
use crate::frame::FrameHeader;
use crate::parser::{priority_bytes, Frame, Payload, PayloadView};

verus! {

/// What one write attempt against a sink yielded.
#[derive(Clone, Copy, Debug, PartialEq, Eq, Structural)]
pub enum WriteOutcome {
    /// The sink accepted this many bytes (at least one).
    Wrote(usize),
    /// The sink accepted nothing for now; retry later.
    WouldBlock,
    /// The sink accepted zero bytes for good: the peer closed.
    Eof,
    /// The sink failed fatally.
    Error,
}

/// A non-blocking byte sink: a socket, or a buffer standing in for one.
/// `sunk` is the sequence of bytes the sink has accepted so far; a write
/// either appends a prefix of the given bytes to it or leaves it unchanged.
pub trait Sink {
    /// The bytes this sink has accepted, in order.
    spec fn sunk(&self) -> Seq<u8>;

    /// Attempt one write of the given (non-empty) bytes.
    fn write(&mut self, data: &[u8]) -> (r: WriteOutcome)
        requires
            data@.len() >= 1,
        ensures
            match r {
                WriteOutcome::Wrote(n) => 1 <= n <= data@.len() && final(self).sunk() == old(
                    self,
                ).sunk() + data@.take(n as int),
                _ => final(self).sunk() == old(self).sunk(),
            },
    ;
}

/// What one encode call did.
#[derive(Clone, Copy, Debug, PartialEq, Eq, Structural)]
pub enum EncodeResult {
    /// This many bytes were committed to the sink.
    Wrote(usize),
    /// The encoder had no bytes left to write.
    Finished,
    /// The sink signalled would-block; this many bytes were written in this
    /// call before that.
    WouldBlock(usize),
    /// The sink accepted zero bytes: the peer closed.
    Eof,
    /// The sink failed fatally.
    Error,
}

impl EncodeResult {
    /// Fold a byte count into a result: zero bytes means the encoder was
    /// already finished.
    pub fn from_bytes(n: usize) -> (r: EncodeResult)
        ensures
            r == if n == 0 {
                EncodeResult::Finished
            } else {
                EncodeResult::Wrote(n)
            },
    {
        if n == 0 {
            EncodeResult::Finished
        } else {
            EncodeResult::Wrote(n)
        }
    }
}

/// A resumable encoder over a sink. `pending` is what remains to be
/// written; every `encode` call moves a prefix of it into the sink, so
/// across calls the sink receives exactly the encoder's initial bytes, in
/// order, regardless of how the sink fragments them.
pub trait Encoder {
    /// The bytes this encoder still has to write.
    spec fn pending(&self) -> Seq<u8>;

    /// Write the next chunk of the pending bytes into the sink, stopping at
    /// the first would-block, close or failure.
    fn encode<S: Sink>(&mut self, sink: &mut S) -> (r: EncodeResult)
        ensures
            ({
                let p0 = old(self).pending();
                let p1 = final(self).pending();
                &&& p1.len() <= p0.len()
                &&& p1 == p0.skip(p0.len() - p1.len())
                &&& final(sink).sunk() == old(sink).sunk() + p0.take(p0.len() - p1.len())
                &&& match r {
                    EncodeResult::Finished => p0.len() == 0,
                    EncodeResult::Wrote(n) => 1 <= n && n == p0.len() - p1.len(),
                    EncodeResult::WouldBlock(n) => n == p0.len() - p1.len(),
                    EncodeResult::Eof => p1.len() > 0,
                    EncodeResult::Error => true,
                }
                &&& (p0.len() == 0 ==> r == EncodeResult::Finished)
            }),
    ;

    /// Whether nothing is left to write.
    fn done(&self) -> (r: bool)
        ensures
            r == (self.pending().len() == 0),
    ;
}

/// Successive encode calls write consecutive chunks: if one call turned
/// pending bytes `p0` into `p1` while the sink took the consumed prefix,
/// and a later call turned `p1` into `p2` likewise, then together they
/// took the combined prefix of `p0`. By induction over calls, when an
/// encoder's pending bytes run out the sink holds exactly the bytes the
/// encoder started with — a stuttering sink receives the same byte stream
/// as a single-call encoding.
pub proof fn lemma_encode_chunks_compose(
    p0: Seq<u8>,
    p1: Seq<u8>,
    p2: Seq<u8>,
    sunk0: Seq<u8>,
    sunk1: Seq<u8>,
    sunk2: Seq<u8>,
)
    requires
        p1.len() <= p0.len(),
        p1 == p0.skip(p0.len() - p1.len()),
        sunk1 == sunk0 + p0.take(p0.len() - p1.len()),
        p2.len() <= p1.len(),
        p2 == p1.skip(p1.len() - p2.len()),
        sunk2 == sunk1 + p1.take(p1.len() - p2.len()),
    ensures
        p2 == p0.skip(p0.len() - p2.len()),
        sunk2 == sunk0 + p0.take(p0.len() - p2.len()),
        p2.len() == 0 ==> sunk2 == sunk0 + p0,
{
    assert(p2 =~= p0.skip(p0.len() - p2.len()));
    assert(sunk2 =~= sunk0 + p0.take(p0.len() - p2.len()));
    if p2.len() == 0 {
        assert(p0.take(p0.len() as int) =~= p0);
    }
}

/// A position-tracked cursor over a byte buffer held by value.
#[derive(Debug)]
struct BufferEncoder {
    buffer: Vec<u8>,
    position: usize,
}

impl BufferEncoder {
    /// The cursor stays inside the buffer, and fixed-field buffers are
    /// always far below the 24-bit frame length limit.
    #[verifier::type_invariant]
    spec fn inv(self) -> bool {
        self.position <= self.buffer@.len() && self.buffer@.len() < 0x100_0000
    }

    spec fn spec_pending(&self) -> Seq<u8> {
        self.buffer@.skip(self.position as int)
    }

    fn of_bytes(buffer: Vec<u8>) -> (r: BufferEncoder)
        requires
            buffer@.len() < 0x100_0000,
        ensures
            r.pending() == buffer@,
    {
        let r = BufferEncoder { buffer, position: 0 };
        proof {
            assert(r.spec_pending() =~= r.buffer@);
        }
        r
    }
}

impl Encoder for BufferEncoder {
    closed spec fn pending(&self) -> Seq<u8> {
        self.spec_pending()
    }

    fn encode<S: Sink>(&mut self, sink: &mut S) -> (r: EncodeResult) {
        proof {
            use_type_invariant(&*self);
        }
        let len = self.buffer.len();
        if self.position == len {
            return EncodeResult::Finished;
        }
        let data = vstd::slice::slice_subrange(self.buffer.as_slice(), self.position, len);
        match sink.write(data) {
            WriteOutcome::Wrote(n) => {
                let ghost p0 = self.spec_pending();
                self.position = self.position + n;
                proof {
                    assert(self.spec_pending() =~= p0.skip(n as int));
                    assert(data@.take(n as int) =~= p0.take(n as int));
                }
                EncodeResult::Wrote(n)
            },
            WriteOutcome::WouldBlock => {
                proof {
                    assert(self.spec_pending().take(0) =~= Seq::<u8>::empty());
                    assert(old(sink).sunk() + self.spec_pending().take(0) =~= old(sink).sunk());
                }
                EncodeResult::WouldBlock(0)
            },
            WriteOutcome::Eof => {
                proof {
                    assert(self.spec_pending().take(0) =~= Seq::<u8>::empty());
                    assert(old(sink).sunk() + self.spec_pending().take(0) =~= old(sink).sunk());
                }
                EncodeResult::Eof
            },
            WriteOutcome::Error => {
                proof {
                    assert(self.spec_pending().take(0) =~= Seq::<u8>::empty());
                    assert(old(sink).sunk() + self.spec_pending().take(0) =~= old(sink).sunk());
                }
                EncodeResult::Error
            },
        }
    }

    fn done(&self) -> (r: bool) {
        proof {
            use_type_invariant(&*self);
        }
        self.position == self.buffer.len()
    }
}

/// A position-tracked cursor over a payload slice; writing from it copies
/// no payload byte into the encoder.
#[derive(Debug)]
pub struct SliceEncoder {
    slice: appendbuf::Slice,
    position: usize,
}

impl SliceEncoder {
    /// The cursor stays inside the slice, whose length respects the 24-bit
    /// frame length limit.
    #[verifier::type_invariant]
    pub closed spec fn inv(self) -> bool {
        self.position <= slice_bytes(self.slice).len() && slice_bytes(self.slice).len()
            < 0x100_0000
    }

    closed spec fn spec_pending(&self) -> Seq<u8> {
        slice_bytes(self.slice).skip(self.position as int)
    }

    /// Start a cursor at the beginning of a slice.
    pub fn from(slice: appendbuf::Slice) -> (r: SliceEncoder)
        requires
            slice_bytes(slice).len() < 0x100_0000,
        ensures
            r.pending() == slice_bytes(slice),
    {
        let r = SliceEncoder { slice, position: 0 };
        proof {
            assert(r.spec_pending() =~= slice_bytes(r.slice));
        }
        r
    }
}

impl Encoder for SliceEncoder {
    closed spec fn pending(&self) -> Seq<u8> {
        self.spec_pending()
    }

    /// Besides the trait's chunk law: a would-block, close or failure
    /// moves nothing — the cursor and the sink stay exactly as they were,
    /// so the next call resumes at the same position.
    fn encode<S: Sink>(&mut self, sink: &mut S) -> (r: EncodeResult)
        ensures
            match r {
                EncodeResult::WouldBlock(_) | EncodeResult::Eof | EncodeResult::Error => {
                    &&& final(self).pending() == old(self).pending()
                    &&& final(sink).sunk() == old(sink).sunk()
                },
                _ => true,
            },
    {
        proof {
            use_type_invariant(&*self);
        }
        let bytes = slice_as_bytes(&self.slice);
        let len = bytes.len();
        if self.position == len {
            return EncodeResult::Finished;
        }
        let data = vstd::slice::slice_subrange(bytes, self.position, len);
        match sink.write(data) {
            WriteOutcome::Wrote(n) => {
                let ghost p0 = self.spec_pending();
                self.position = self.position + n;
                proof {
                    assert(self.spec_pending() =~= p0.skip(n as int));
                    assert(data@.take(n as int) =~= p0.take(n as int));
                }
                EncodeResult::Wrote(n)
            },
            WriteOutcome::WouldBlock => {
                proof {
                    assert(old(sink).sunk() + self.spec_pending().take(0) =~= old(sink).sunk());
                }
                EncodeResult::WouldBlock(0)
            },
            WriteOutcome::Eof => {
                proof {
                    assert(old(sink).sunk() + self.spec_pending().take(0) =~= old(sink).sunk());
                }
                EncodeResult::Eof
            },
            WriteOutcome::Error => {
                proof {
                    assert(old(sink).sunk() + self.spec_pending().take(0) =~= old(sink).sunk());
                }
                EncodeResult::Error
            },
        }
    }

    fn done(&self) -> (r: bool) {
        proof {
            use_type_invariant(&*self);
        }
        let bytes_len = slice_len(&self.slice);
        self.position == bytes_len
    }
}

/// Drive two encoders in declaration order: the second is attempted only
/// once the first has nothing left, so the sink sees the concatenation of
/// their bytes in order.
fn encode_chain2<A: Encoder, B: Encoder, S: Sink>(a: &mut A, b: &mut B, sink: &mut S) -> (r:
    EncodeResult)
    requires
        old(a).pending().len() + old(b).pending().len() <= 0x1000_0000,
    ensures
        ({
            let p0 = old(a).pending() + old(b).pending();
            let p1 = final(a).pending() + final(b).pending();
            &&& p1.len() <= p0.len()
            &&& p1 == p0.skip(p0.len() - p1.len())
            &&& final(sink).sunk() == old(sink).sunk() + p0.take(p0.len() - p1.len())
            &&& match r {
                EncodeResult::Finished => p0.len() == 0,
                EncodeResult::Wrote(n) => 1 <= n && n == p0.len() - p1.len(),
                EncodeResult::WouldBlock(n) => n == p0.len() - p1.len(),
                EncodeResult::Eof => p1.len() > 0,
                EncodeResult::Error => true,
            }
            &&& (p0.len() == 0 ==> r == EncodeResult::Finished)
        }),
{
    let ghost ap0 = a.pending();
    let ghost bp0 = b.pending();
    let ghost p0 = ap0 + bp0;
    let n = match a.encode(sink) {
        EncodeResult::Finished => 0usize,
        EncodeResult::Wrote(k) => k,
        EncodeResult::WouldBlock(k) => {
            proof {
                lemma_chain_prefix(ap0, bp0, a.pending());
            }
            return EncodeResult::WouldBlock(k);
        },
        EncodeResult::Eof => {
            proof {
                lemma_chain_prefix(ap0, bp0, a.pending());
            }
            return EncodeResult::Eof;
        },
        EncodeResult::Error => {
            proof {
                lemma_chain_prefix(ap0, bp0, a.pending());
            }
            return EncodeResult::Error;
        },
    };
    if !a.done() {
        proof {
            lemma_chain_prefix(ap0, bp0, a.pending());
        }
        return EncodeResult::from_bytes(n);
    }
    let ghost sunk1 = sink.sunk();
    let m = match b.encode(sink) {
        EncodeResult::Finished => 0usize,
        EncodeResult::Wrote(k) => k,
        EncodeResult::WouldBlock(k) => {
            proof {
                lemma_chain_both(ap0, bp0, b.pending(), old(sink).sunk());
            }
            return EncodeResult::WouldBlock(n + k);
        },
        EncodeResult::Eof => {
            proof {
                lemma_chain_both(ap0, bp0, b.pending(), old(sink).sunk());
            }
            return EncodeResult::Eof;
        },
        EncodeResult::Error => {
            proof {
                lemma_chain_both(ap0, bp0, b.pending(), old(sink).sunk());
            }
            return EncodeResult::Error;
        },
    };
    proof {
        lemma_chain_both(ap0, bp0, b.pending(), old(sink).sunk());
    }
    EncodeResult::from_bytes(n + m)
}

/// Concatenation facts for a chain whose first encoder still has bytes
/// left: only the first advanced.
proof fn lemma_chain_prefix(ap0: Seq<u8>, bp0: Seq<u8>, ap1: Seq<u8>)
    requires
        ap1.len() <= ap0.len(),
        ap1 == ap0.skip(ap0.len() - ap1.len()),
    ensures
        (ap1 + bp0).len() <= (ap0 + bp0).len(),
        ap1 + bp0 == (ap0 + bp0).skip((ap0 + bp0).len() - (ap1 + bp0).len()),
        (ap0 + bp0).take((ap0 + bp0).len() - (ap1 + bp0).len()) == ap0.take(
            ap0.len() - ap1.len(),
        ),
{
    let w = ap0.len() - ap1.len();
    assert(ap1 + bp0 =~= (ap0 + bp0).skip(w));
    assert((ap0 + bp0).take(w) =~= ap0.take(w));
}

/// Concatenation facts for a chain whose first encoder has drained: the
/// first contributed all its bytes, the second a prefix of its own.
proof fn lemma_chain_both(ap0: Seq<u8>, bp0: Seq<u8>, bp1: Seq<u8>, sunk0: Seq<u8>)
    requires
        bp1.len() <= bp0.len(),
        bp1 == bp0.skip(bp0.len() - bp1.len()),
    ensures
        (Seq::<u8>::empty() + bp1).len() <= (ap0 + bp0).len(),
        Seq::<u8>::empty() + bp1 == (ap0 + bp0).skip(
            (ap0 + bp0).len() - (Seq::<u8>::empty() + bp1).len(),
        ),
        sunk0 + ap0 + bp0.take(bp0.len() - bp1.len()) == sunk0 + (ap0 + bp0).take(
            (ap0 + bp0).len() - (Seq::<u8>::empty() + bp1).len(),
        ),
        (Seq::<u8>::empty() + bp1).len() == bp1.len(),
{
    let w = bp0.len() - bp1.len();
    assert(Seq::<u8>::empty() + bp1 =~= (ap0 + bp0).skip(ap0.len() + w));
    assert(sunk0 + ap0 + bp0.take(w) =~= sunk0 + (ap0 + bp0).take(ap0.len() + w));
}

/// Drive three encoders in declaration order.
fn encode_chain3<A: Encoder, B: Encoder, C: Encoder, S: Sink>(
    a: &mut A,
    b: &mut B,
    c: &mut C,
    sink: &mut S,
) -> (r: EncodeResult)
    requires
        old(a).pending().len() + old(b).pending().len() + old(c).pending().len() <= 0x1000_0000,
    ensures
        ({
            let p0 = old(a).pending() + old(b).pending() + old(c).pending();
            let p1 = final(a).pending() + final(b).pending() + final(c).pending();
            &&& p1.len() <= p0.len()
            &&& p1 == p0.skip(p0.len() - p1.len())
            &&& final(sink).sunk() == old(sink).sunk() + p0.take(p0.len() - p1.len())
            &&& match r {
                EncodeResult::Finished => p0.len() == 0,
                EncodeResult::Wrote(n) => 1 <= n && n == p0.len() - p1.len(),
                EncodeResult::WouldBlock(n) => n == p0.len() - p1.len(),
                EncodeResult::Eof => p1.len() > 0,
                EncodeResult::Error => true,
            }
            &&& (p0.len() == 0 ==> r == EncodeResult::Finished)
        }),
{
    let ghost ap0 = a.pending();
    let ghost bp0 = b.pending();
    let ghost cp0 = c.pending();
    let n = match encode_chain2(a, b, sink) {
        EncodeResult::Finished => 0usize,
        EncodeResult::Wrote(k) => k,
        EncodeResult::WouldBlock(k) => {
            proof {
                lemma_chain_prefix(ap0 + bp0, cp0, a.pending() + b.pending());
            }
            return EncodeResult::WouldBlock(k);
        },
        EncodeResult::Eof => {
            proof {
                lemma_chain_prefix(ap0 + bp0, cp0, a.pending() + b.pending());
            }
            return EncodeResult::Eof;
        },
        EncodeResult::Error => {
            proof {
                lemma_chain_prefix(ap0 + bp0, cp0, a.pending() + b.pending());
            }
            return EncodeResult::Error;
        },
    };
    if !a.done() || !b.done() {
        proof {
            lemma_chain_prefix(ap0 + bp0, cp0, a.pending() + b.pending());
        }
        return EncodeResult::from_bytes(n);
    }
    let m = match c.encode(sink) {
        EncodeResult::Finished => 0usize,
        EncodeResult::Wrote(k) => k,
        EncodeResult::WouldBlock(k) => {
            proof {
                lemma_chain3_tail(ap0, bp0, cp0, c.pending(), old(sink).sunk());
            }
            return EncodeResult::WouldBlock(n + k);
        },
        EncodeResult::Eof => {
            proof {
                lemma_chain3_tail(ap0, bp0, cp0, c.pending(), old(sink).sunk());
            }
            return EncodeResult::Eof;
        },
        EncodeResult::Error => {
            proof {
                lemma_chain3_tail(ap0, bp0, cp0, c.pending(), old(sink).sunk());
            }
            return EncodeResult::Error;
        },
    };
    proof {
        lemma_chain3_tail(ap0, bp0, cp0, c.pending(), old(sink).sunk());
    }
    EncodeResult::from_bytes(n + m)
}

/// Concatenation facts for a three-encoder chain whose first two have
/// drained.
proof fn lemma_chain3_tail(ap0: Seq<u8>, bp0: Seq<u8>, cp0: Seq<u8>, cp1: Seq<u8>, sunk0: Seq<u8>)
    requires
        cp1.len() <= cp0.len(),
        cp1 == cp0.skip(cp0.len() - cp1.len()),
    ensures
        ({
            let e = Seq::<u8>::empty();
            let p0 = ap0 + bp0 + cp0;
            let p1 = e + e + cp1;
            &&& p1.len() <= p0.len()
            &&& p1.len() == cp1.len()
            &&& p1 == p0.skip(p0.len() - p1.len())
            &&& sunk0 + (ap0 + bp0) + cp0.take(cp0.len() - cp1.len()) == sunk0 + p0.take(
                p0.len() - p1.len(),
            )
        }),
{
    let e = Seq::<u8>::empty();
    let w = cp0.len() - cp1.len();
    assert(e + e + cp1 =~= (ap0 + bp0 + cp0).skip(ap0.len() + bp0.len() + w));
    assert(sunk0 + (ap0 + bp0) + cp0.take(w) =~= sunk0 + (ap0 + bp0 + cp0).take(
        ap0.len() + bp0.len() + w,
    ));
}

/// The nine header bytes, pre-encoded, with a cursor.
#[derive(Debug)]
pub struct FrameHeaderEncoder {
    inner: BufferEncoder,
}

impl FrameHeaderEncoder {
    /// Pre-encode a header.
    pub fn from(header: FrameHeader) -> (r: FrameHeaderEncoder)
        requires
            header.wf(),
        ensures
            r.pending() == header.spec_bytes(),
    {
        FrameHeaderEncoder { inner: BufferEncoder::of_bytes(header.encode()) }
    }
}

impl Encoder for FrameHeaderEncoder {
    closed spec fn pending(&self) -> Seq<u8> {
        self.inner.pending()
    }

    fn encode<S: Sink>(&mut self, sink: &mut S) -> (r: EncodeResult) {
        self.inner.encode(sink)
    }

    fn done(&self) -> (r: bool) {
        self.inner.done()
    }
}

/// The five priority bytes, pre-encoded, with a cursor; absent priority
/// fields encode as nothing.
#[derive(Debug)]
pub struct PriorityEncoder {
    inner: BufferEncoder,
}

impl PriorityEncoder {
    /// Pre-encode optional priority fields.
    pub fn new(priority: Option<crate::frame::Priority>) -> (r: PriorityEncoder)
        ensures
            r.pending() == (match priority {
                Some(p) => priority_bytes(p),
                None => Seq::<u8>::empty(),
            }),
    {
        match priority {
            None => PriorityEncoder { inner: BufferEncoder::of_bytes(Vec::new()) },
            Some(p) => {
                let mut buffer: Vec<u8> = Vec::new();
                crate::parser::push_priority(&mut buffer, p);
                PriorityEncoder { inner: BufferEncoder::of_bytes(buffer) }
            },
        }
    }
}

impl Encoder for PriorityEncoder {
    closed spec fn pending(&self) -> Seq<u8> {
        self.inner.pending()
    }

    fn encode<S: Sink>(&mut self, sink: &mut S) -> (r: EncodeResult) {
        self.inner.encode(sink)
    }

    fn done(&self) -> (r: bool) {
        self.inner.done()
    }
}

/// Four big-endian bytes with a cursor.
#[derive(Debug)]
pub struct U32Encoder {
    inner: BufferEncoder,
}

impl U32Encoder {
    /// Pre-encode a 32-bit value big-endian.
    pub fn from(val: u32) -> (r: U32Encoder)
        ensures
            r.pending() == crate::frame::be32(val),
    {
        let mut buffer: Vec<u8> = Vec::new();
        crate::frame::push_u32(&mut buffer, val);
        U32Encoder { inner: BufferEncoder::of_bytes(buffer) }
    }
}

impl Encoder for U32Encoder {
    closed spec fn pending(&self) -> Seq<u8> {
        self.inner.pending()
    }

    fn encode<S: Sink>(&mut self, sink: &mut S) -> (r: EncodeResult) {
        self.inner.encode(sink)
    }

    fn done(&self) -> (r: bool) {
        self.inner.done()
    }
}

/// Eight big-endian bytes with a cursor.
#[derive(Debug)]
pub struct U64Encoder {
    inner: BufferEncoder,
}

impl U64Encoder {
    /// Pre-encode a 64-bit value big-endian.
    pub fn from(val: u64) -> (r: U64Encoder)
        ensures
            r.pending() == crate::frame::be64(val),
    {
        let mut buffer: Vec<u8> = Vec::new();
        crate::frame::push_u64(&mut buffer, val);
        U64Encoder { inner: BufferEncoder::of_bytes(buffer) }
    }
}

impl Encoder for U64Encoder {
    closed spec fn pending(&self) -> Seq<u8> {
        self.inner.pending()
    }

    fn encode<S: Sink>(&mut self, sink: &mut S) -> (r: EncodeResult) {
        self.inner.encode(sink)
    }

    fn done(&self) -> (r: bool) {
        self.inner.done()
    }
}

/// The per-kind payload encoder: cursors over the payload's fixed fields
/// and slices, driven in wire order.
#[derive(Debug)]
pub enum PayloadEncoder {
    Data(SliceEncoder),
    Headers { priority: PriorityEncoder, block: SliceEncoder },
    Priority(PriorityEncoder),
    Reset(U32Encoder),
    Settings(SliceEncoder),
    PushPromise { promised: U32Encoder, block: SliceEncoder },
    Ping(U64Encoder),
    GoAway { last: U32Encoder, error: U32Encoder, data: SliceEncoder },
    WindowUpdate(U32Encoder),
    Continuation(SliceEncoder),
    Unregistered(SliceEncoder),
}

impl PayloadEncoder {
    /// Build the encoder for a payload; its pending bytes are exactly the
    /// payload's wire bytes. The payload must respect the 24-bit frame
    /// length limit.
    pub fn from(payload: Payload) -> (r: PayloadEncoder)
        requires
            payload@.bytes().len() < 0x100_0000,
        ensures
            r.pending() == payload@.bytes(),
    {
        match payload {
            Payload::Data(slice) => PayloadEncoder::Data(SliceEncoder::from(slice)),
            Payload::Headers { priority, block } => {
                let r = PayloadEncoder::Headers {
                    priority: PriorityEncoder::new(priority),
                    block: SliceEncoder::from(block),
                };
                proof {
                    if priority is None {
                        assert(r.pending() =~= slice_bytes(block));
                    }
                }
                r
            },
            Payload::Priority(p) => PayloadEncoder::Priority(PriorityEncoder::new(Some(p))),
            Payload::Reset(e) => PayloadEncoder::Reset(U32Encoder::from(e.0)),
            Payload::Settings(ts) => {
                proof {
                    use_type_invariant(&ts);
                    crate::parser::lemma_settings_bytes_of(ts.bytes());
                }
                PayloadEncoder::Settings(SliceEncoder::from(ts.into_slice()))
            },
            Payload::PushPromise { promised, block } => PayloadEncoder::PushPromise {
                promised: U32Encoder::from(promised.0),
                block: SliceEncoder::from(block),
            },
            Payload::Ping(v) => PayloadEncoder::Ping(U64Encoder::from(v)),
            Payload::GoAway { last, error, data } => PayloadEncoder::GoAway {
                last: U32Encoder::from(last.0),
                error: U32Encoder::from(error.0),
                data: SliceEncoder::from(data),
            },
            Payload::WindowUpdate(v) => PayloadEncoder::WindowUpdate(U32Encoder::from(v.0)),
            Payload::Continuation(s) => PayloadEncoder::Continuation(SliceEncoder::from(s)),
            Payload::Unregistered(s) => PayloadEncoder::Unregistered(SliceEncoder::from(s)),
        }
    }

    /// The payload's remaining bytes respect the frame length limits, by
    /// the cursors' invariants.
    fn pending_bounded(&self)
        ensures
            self.pending().len() < 0x300_0000,
    {
        match self {
            PayloadEncoder::Data(e) => {
                proof {
                    use_type_invariant(e);
                }
            },
            PayloadEncoder::Headers { priority, block } => {
                proof {
                    use_type_invariant(&priority.inner);
                    use_type_invariant(block);
                }
            },
            PayloadEncoder::Priority(e) => {
                proof {
                    use_type_invariant(&e.inner);
                }
            },
            PayloadEncoder::Reset(e) => {
                proof {
                    use_type_invariant(&e.inner);
                }
            },
            PayloadEncoder::Settings(e) => {
                proof {
                    use_type_invariant(e);
                }
            },
            PayloadEncoder::PushPromise { promised, block } => {
                proof {
                    use_type_invariant(&promised.inner);
                    use_type_invariant(block);
                }
            },
            PayloadEncoder::Ping(e) => {
                proof {
                    use_type_invariant(&e.inner);
                }
            },
            PayloadEncoder::GoAway { last, error, data } => {
                proof {
                    use_type_invariant(&last.inner);
                    use_type_invariant(&error.inner);
                    use_type_invariant(data);
                }
            },
            PayloadEncoder::WindowUpdate(e) => {
                proof {
                    use_type_invariant(&e.inner);
                }
            },
            PayloadEncoder::Continuation(e) => {
                proof {
                    use_type_invariant(e);
                }
            },
            PayloadEncoder::Unregistered(e) => {
                proof {
                    use_type_invariant(e);
                }
            },
        }
    }
}

impl Encoder for PayloadEncoder {
    open spec fn pending(&self) -> Seq<u8> {
        match *self {
            PayloadEncoder::Data(ref e) => e.pending(),
            PayloadEncoder::Headers { ref priority, ref block } => priority.pending()
                + block.pending(),
            PayloadEncoder::Priority(ref e) => e.pending(),
            PayloadEncoder::Reset(ref e) => e.pending(),
            PayloadEncoder::Settings(ref e) => e.pending(),
            PayloadEncoder::PushPromise { ref promised, ref block } => promised.pending()
                + block.pending(),
            PayloadEncoder::Ping(ref e) => e.pending(),
            PayloadEncoder::GoAway { ref last, ref error, ref data } => last.pending()
                + error.pending() + data.pending(),
            PayloadEncoder::WindowUpdate(ref e) => e.pending(),
            PayloadEncoder::Continuation(ref e) => e.pending(),
            PayloadEncoder::Unregistered(ref e) => e.pending(),
        }
    }

    fn encode<S: Sink>(&mut self, sink: &mut S) -> (r: EncodeResult) {
        match self {
            PayloadEncoder::Data(e) => e.encode(sink),
            PayloadEncoder::Headers { priority, block } => {
                proof {
                    use_type_invariant(&priority.inner);
                    use_type_invariant(&*block);
                }
                encode_chain2(priority, block, sink)
            },
            PayloadEncoder::Priority(e) => e.encode(sink),
            PayloadEncoder::Reset(e) => e.encode(sink),
            PayloadEncoder::Settings(e) => e.encode(sink),
            PayloadEncoder::PushPromise { promised, block } => {
                proof {
                    use_type_invariant(&promised.inner);
                    use_type_invariant(&*block);
                }
                encode_chain2(promised, block, sink)
            },
            PayloadEncoder::Ping(e) => e.encode(sink),
            PayloadEncoder::GoAway { last, error, data } => {
                proof {
                    use_type_invariant(&last.inner);
                    use_type_invariant(&error.inner);
                    use_type_invariant(&*data);
                }
                encode_chain3(last, error, data, sink)
            },
            PayloadEncoder::WindowUpdate(e) => e.encode(sink),
            PayloadEncoder::Continuation(e) => e.encode(sink),
            PayloadEncoder::Unregistered(e) => e.encode(sink),
        }
    }

    fn done(&self) -> (r: bool) {
        match self {
            PayloadEncoder::Data(e) => e.done(),
            PayloadEncoder::Headers { priority, block } => priority.done() && block.done(),
            PayloadEncoder::Priority(e) => e.done(),
            PayloadEncoder::Reset(e) => e.done(),
            PayloadEncoder::Settings(e) => e.done(),
            PayloadEncoder::PushPromise { promised, block } => promised.done() && block.done(),
            PayloadEncoder::Ping(e) => e.done(),
            PayloadEncoder::GoAway { last, error, data } => last.done() && error.done()
                && data.done(),
            PayloadEncoder::WindowUpdate(e) => e.done(),
            PayloadEncoder::Continuation(e) => e.done(),
            PayloadEncoder::Unregistered(e) => e.done(),
        }
    }
}

/// A resumable encoder for one whole frame: the header's bytes, then the
/// payload's, byte-for-byte what the parser accepts back.
#[derive(Debug)]
pub struct FrameEncoder {
    header: FrameHeaderEncoder,
    payload: PayloadEncoder,
}

impl FrameEncoder {
    /// Build the encoder for a well-formed frame; its pending bytes are
    /// exactly the frame's wire bytes.
    pub fn from(frame: Frame) -> (r: FrameEncoder)
        requires
            frame@.wf(),
        ensures
            r.pending() == frame@.wire_bytes(),
    {
        FrameEncoder {
            header: FrameHeaderEncoder::from(frame.header),
            payload: PayloadEncoder::from(frame.payload),
        }
    }
}

impl Encoder for FrameEncoder {
    closed spec fn pending(&self) -> Seq<u8> {
        self.header.pending() + self.payload.pending()
    }

    fn encode<S: Sink>(&mut self, sink: &mut S) -> (r: EncodeResult) {
        proof {
            use_type_invariant(&self.header.inner);
        }
        self.payload.pending_bounded();
        encode_chain2(&mut self.header, &mut self.payload, sink)
    }

    fn done(&self) -> (r: bool) {
        self.header.done() && self.payload.done()
    }
}

/// A sink that accepts everything at once, into a growable buffer: the
/// reference against which resumable encodings are compared.
pub struct VecSink {
    data: Vec<u8>,
}

impl VecSink {
    /// An empty sink.
    pub fn new() -> (r: VecSink)
        ensures
            r.sunk() == Seq::<u8>::empty(),
    {
        VecSink { data: Vec::new() }
    }

    /// The bytes accepted so far.
    pub fn bytes(&self) -> (r: &Vec<u8>)
        ensures
            r@ == self.sunk(),
    {
        &self.data
    }

    /// Hand the accepted bytes out.
    pub fn into_vec(self) -> (r: Vec<u8>)
        ensures
            r@ == self.sunk(),
    {
        self.data
    }
}

impl Sink for VecSink {
    closed spec fn sunk(&self) -> Seq<u8> {
        self.data@
    }

    /// This sink always accepts everything it is given.
    fn write(&mut self, data: &[u8]) -> (r: WriteOutcome)
        ensures
            r == WriteOutcome::Wrote(data@.len() as usize),
            final(self).sunk() == old(self).sunk() + data@,
    {
        crate::frame::push_bytes(&mut self.data, data);
        proof {
            assert(data@.take(data@.len() as int) =~= data@);
        }
        WriteOutcome::Wrote(data.len())
    }
}

/// A sink that alternates between accepting exactly one byte and
/// signalling would-block, for exercising resumption.
pub struct StutterSink {
    data: Vec<u8>,
    active: bool,
}

impl StutterSink {
    /// Whether the next write is the accepting one of the alternation.
    pub closed spec fn will_accept(&self) -> bool {
        self.active
    }

    /// A fresh sink that accepts a byte on its first write.
    pub fn new() -> (r: StutterSink)
        ensures
            r.sunk() == Seq::<u8>::empty(),
            r.will_accept(),
    {
        StutterSink { data: Vec::new(), active: true }
    }

    /// The bytes accepted so far.
    pub fn bytes(&self) -> (r: &Vec<u8>)
        ensures
            r@ == self.sunk(),
    {
        &self.data
    }

    /// Hand the accepted bytes out.
    pub fn into_vec(self) -> (r: Vec<u8>)
        ensures
            r@ == self.sunk(),
    {
        self.data
    }
}

impl Sink for StutterSink {
    closed spec fn sunk(&self) -> Seq<u8> {
        self.data@
    }

    /// Accept exactly one byte on the accepting turn, nothing on the
    /// other; the turns alternate.
    fn write(&mut self, data: &[u8]) -> (r: WriteOutcome)
        ensures
            final(self).will_accept() == !old(self).will_accept(),
            old(self).will_accept() ==> r == WriteOutcome::Wrote(1usize) && final(self).sunk()
                == old(self).sunk() + data@.take(1),
            !old(self).will_accept() ==> r == WriteOutcome::WouldBlock && final(self).sunk()
                == old(self).sunk(),
    {
        if self.active {
            self.active = false;
            let b = *vstd::slice::slice_index_get(data, 0);
            self.data.push(b);
            proof {
                assert(old(self).sunk().push(b) =~= old(self).sunk() + data@.take(1));
            }
            WriteOutcome::Wrote(1)
        } else {
            self.active = true;
            WriteOutcome::WouldBlock
        }
    }
}

/// A sink whose peer has closed: it accepts nothing, ever.
pub struct ClosedSink {
    closed_marker: bool,
}

impl ClosedSink {
    /// A closed sink.
    pub fn new() -> (r: ClosedSink)
        ensures
            r.sunk() == Seq::<u8>::empty(),
    {
        ClosedSink { closed_marker: true }
    }
}

impl Sink for ClosedSink {
    closed spec fn sunk(&self) -> Seq<u8> {
        Seq::<u8>::empty()
    }

    /// This sink's peer has closed: every write reports end of file.
    fn write(&mut self, data: &[u8]) -> (r: WriteOutcome)
        ensures
            r == WriteOutcome::Eof,
    {
        WriteOutcome::Eof
    }
}

} // verus!