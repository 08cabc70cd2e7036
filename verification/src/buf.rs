//! The read buffer and its refcounted slices, from the `appendbuf` crate.
//!
//! An `AppendBuf` is a fixed-capacity, append-only byte buffer; a `Slice` is
//! an immutable, refcounted view into one. All payload fields of a parsed
//! frame are `Slice`s into the connection's read buffer, so parsing copies
//! no payload bytes. The crate is trusted through the wrappers below; the
//! names `buf_bytes`, `buf_capacity` and `slice_bytes` stand for what a
//! buffer or slice holds.

use vstd::prelude::*;

verus! {

#[verifier::external_type_specification]
#[verifier::external_body]
pub struct ExAppendBuf(appendbuf::AppendBuf);

#[verifier::external_type_specification]
#[verifier::external_body]
pub struct ExSlice(appendbuf::Slice);

/// The committed bytes of an append buffer.
pub uninterp spec fn buf_bytes(b: appendbuf::AppendBuf) -> Seq<u8>;

/// The capacity an append buffer was created with.
pub uninterp spec fn buf_capacity(b: appendbuf::AppendBuf) -> nat;

/// The bytes a slice views.
pub uninterp spec fn slice_bytes(s: appendbuf::Slice) -> Seq<u8>;

/// Relies on `appendbuf::AppendBuf::new`: a fresh buffer of the given
/// capacity holds no committed bytes.
#[verifier::external_body]
pub(crate) fn new_buf(capacity: usize) -> (r: appendbuf::AppendBuf)
    ensures
        buf_bytes(r) == Seq::<u8>::empty(),
        buf_capacity(r) == capacity,
{
    appendbuf::AppendBuf::new(capacity)
}

/// Relies on `appendbuf::AppendBuf`'s `Deref` to `[u8]`: the committed
/// bytes, whose length the buffer's position tracks.
#[verifier::external_body]
pub(crate) fn buf_len(b: &appendbuf::AppendBuf) -> (r: usize)
    ensures
        r == buf_bytes(*b).len(),
{
    (**b).len()
}

/// Relies on `appendbuf::AppendBuf::fill`: appends as many of the given
/// bytes as fit in the remaining capacity and returns how many.
#[verifier::external_body]
pub(crate) fn buf_fill(b: &mut appendbuf::AppendBuf, data: &[u8]) -> (r: usize)
    ensures
        buf_capacity(*final(b)) == buf_capacity(*old(b)),
        r == if data@.len() <= buf_capacity(*old(b)) - buf_bytes(*old(b)).len() {
            data@.len() as int
        } else {
            buf_capacity(*old(b)) - buf_bytes(*old(b)).len()
        },
        buf_bytes(*final(b)) == buf_bytes(*old(b) ) + data@.take(r as int),
{
    b.fill(data)
}

/// Relies on `appendbuf::AppendBuf::slice`: a refcounted view of exactly
/// the committed bytes, without copying.
#[verifier::external_body]
pub(crate) fn buf_slice(b: &appendbuf::AppendBuf) -> (r: appendbuf::Slice)
    ensures
        slice_bytes(r) == buf_bytes(*b),
{
    b.slice()
}

/// Relies on `appendbuf::Slice`'s `Deref` to `[u8]`: the viewed bytes.
#[verifier::external_body]
pub(crate) fn slice_as_bytes(s: &appendbuf::Slice) -> (r: &[u8])
    ensures
        r@ == slice_bytes(*s),
{
    &**s
}

/// Relies on `appendbuf::Slice`'s `Deref` to `[u8]`: the viewed length.
#[verifier::external_body]
pub(crate) fn slice_len(s: &appendbuf::Slice) -> (r: usize)
    ensures
        r == slice_bytes(*s).len(),
{
    (**s).len()
}

/// Relies on `appendbuf::Slice::slice`: a sub-view over the same backing
/// allocation, in bounds by the caller's obligation, without copying.
#[verifier::external_body]
pub(crate) fn slice_range(s: &appendbuf::Slice, from: usize, to: usize) -> (r: appendbuf::Slice)
    requires
        from <= to <= slice_bytes(*s).len(),
    ensures
        slice_bytes(r) == slice_bytes(*s).subrange(from as int, to as int),
{
    s.slice(from, to)
}

/// Relies on `appendbuf::Slice`'s `Clone`: another refcounted view of the
/// same bytes.
#[verifier::external_body]
pub(crate) fn slice_clone(s: &appendbuf::Slice) -> (r: appendbuf::Slice)
    ensures
        slice_bytes(r) == slice_bytes(*s),
{
    s.clone()
}

/// A sub-view of a slice: the bytes from `from` (inclusive) to `to`
/// (exclusive), sharing the same backing allocation.
pub fn sub_slice(s: &appendbuf::Slice, from: usize, to: usize) -> (r: appendbuf::Slice)
    requires
        from <= to <= slice_bytes(*s).len(),
    ensures
        slice_bytes(r) == slice_bytes(*s).subrange(from as int, to as int),
{
    slice_range(s, from, to)
}

/// Copy the given bytes into a fresh buffer of exactly their size and hand
/// back a slice of the whole, for callers that start from plain bytes.
pub fn slice_of_bytes(data: &[u8]) -> (r: appendbuf::Slice)
    ensures
        slice_bytes(r) == data@,
{
    let mut b = new_buf(data.len());
    let n = buf_fill(&mut b, data);
    proof {
        assert(data@.take(n as int) =~= data@);
    }
    let s = buf_slice(&b);
    s
}

} // verus!
