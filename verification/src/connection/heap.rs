//! The byte buffers of a connection: `mayheap::Vec`, through the operations the buffers use.

use vstd::prelude::*;
use super::framing::BUFFER_SIZE;

verus! {

/// `mayheap::Vec`, a vector that starts with room for `N` items.
#[verifier::external_type_specification]
#[verifier::external_body]
#[verifier::reject_recursive_types(T)]
pub struct ExMayheapVec<T, const N: usize>(mayheap::Vec<T, N>);

/// The bytes that a buffer holds, in order.
pub uninterp spec fn heap_bytes(v: mayheap::Vec<u8, BUFFER_SIZE>) -> Seq<u8>;

/// `mayheap::Vec::new`: an empty vector.
#[verifier::external_body]
pub(crate) fn heap_new() -> (r: mayheap::Vec<u8, BUFFER_SIZE>)
    ensures
        heap_bytes(r) == Seq::<u8>::empty(),
{
    mayheap::Vec::new()
}

/// `mayheap::Vec::extend_from_slice`: the bytes of `s` appended. With the crate's default
/// `alloc` feature, which this library builds with, it extends the inner `alloc::vec::Vec` and
/// always returns `Ok`, so its result carries nothing and is dropped here.
#[verifier::external_body]
pub(crate) fn heap_extend(v: &mut mayheap::Vec<u8, BUFFER_SIZE>, s: &[u8])
    ensures
        heap_bytes(*final(v)) == heap_bytes(*old(v)) + s@,
{
    let _ = v.extend_from_slice(s);
}

/// The length of the vector, through its `Deref` to a slice.
#[verifier::external_body]
pub(crate) fn heap_len(v: &mayheap::Vec<u8, BUFFER_SIZE>) -> (r: usize)
    ensures
        r == heap_bytes(*v).len(),
{
    v.len()
}

/// The byte at position `i`, through the vector's `Deref` to a slice.
#[verifier::external_body]
pub(crate) fn heap_get(v: &mayheap::Vec<u8, BUFFER_SIZE>, i: usize) -> (r: u8)
    requires
        i < heap_bytes(*v).len(),
    ensures
        r == heap_bytes(*v)[i as int],
{
    v[i]
}

/// Sets the byte at position `i`, through the vector's `DerefMut` to a slice.
#[verifier::external_body]
pub(crate) fn heap_set(v: &mut mayheap::Vec<u8, BUFFER_SIZE>, i: usize, x: u8)
    requires
        i < heap_bytes(*old(v)).len(),
    ensures
        heap_bytes(*final(v)) == heap_bytes(*old(v)).update(i as int, x),
{
    v[i] = x;
}

/// `mayheap::Vec::as_slice`: all the bytes, as a slice.
#[verifier::external_body]
pub(crate) fn heap_as_slice(v: &mayheap::Vec<u8, BUFFER_SIZE>) -> (r: &[u8])
    ensures
        r@ == heap_bytes(*v),
{
    v.as_slice()
}

} // verus!
