//! Draws from the process-wide fast generator. Nothing is known of a draw
//! beyond the range it was asked for.
use vstd::prelude::*;

verus! {

/// Relies on `fastrand::isize`: for an inclusive range `lo..=hi` with
/// `lo <= hi` it returns a value inside it (it panics only on an empty range).
#[verifier::external_body]
pub(crate) fn isize_in(lo: isize, hi: isize) -> (r: isize)
    requires
        lo <= hi,
    ensures
        lo <= r <= hi,
{
    fastrand::isize(lo..=hi)
}

/// Relies on `fastrand::u16`: for an inclusive range `lo..=hi` with
/// `lo <= hi` it returns a value inside it.
#[verifier::external_body]
pub(crate) fn u16_in(lo: u16, hi: u16) -> (r: u16)
    requires
        lo <= hi,
    ensures
        lo <= r <= hi,
{
    fastrand::u16(lo..=hi)
}

/// Relies on `fastrand::u8`: for an inclusive range `lo..=hi` with
/// `lo <= hi` it returns a value inside it.
#[verifier::external_body]
pub(crate) fn u8_in(lo: u8, hi: u8) -> (r: u8)
    requires
        lo <= hi,
    ensures
        lo <= r <= hi,
{
    fastrand::u8(lo..=hi)
}

/// Relies on `fastrand::usize`: for an inclusive range `lo..=hi` with
/// `lo <= hi` it returns a value inside it.
#[verifier::external_body]
pub(crate) fn usize_in(lo: usize, hi: usize) -> (r: usize)
    requires
        lo <= hi,
    ensures
        lo <= r <= hi,
{
    fastrand::usize(lo..=hi)
}

/// Relies on `fastrand::bool`: a fair coin; either value may come back.
#[verifier::external_body]
pub(crate) fn coin() -> (r: bool) {
    fastrand::bool()
}

/// Relies on `fastrand::shuffle`, which only swaps elements of the slice:
/// the result is a permutation of the input.
#[verifier::external_body]
pub(crate) fn shuffle(v: &mut Vec<usize>)
    ensures
        final(v)@.len() == old(v)@.len(),
        final(v)@.to_multiset() == old(v)@.to_multiset(),
{
    fastrand::shuffle(v.as_mut_slice())
}

} // verus!
