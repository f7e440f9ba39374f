//! Cache-line geometry and 64-byte aligned cells from the `aligned` crate.

use vstd::prelude::*;
use aligned::{Aligned, A64};

verus! {

/// Size in bytes of a CPU cache line.
pub const CACHE_LINE_SIZE: usize = 64;

/// A value laid out so that it starts on a cache line.
pub trait CacheLineAligned {
    /// Whether this value starts on a cache-line boundary.
    fn ensure_cache_aligned(&self) -> bool;
}

/// Whether address `addr` is a multiple of the cache-line size.
pub fn is_cache_line_aligned(addr: usize) -> (r: bool)
    ensures
        r == (addr % CACHE_LINE_SIZE == 0),
{
    addr % CACHE_LINE_SIZE == 0
}

/// `aligned::A64`: a marker type with 64-byte alignment.
#[verifier::external_type_specification]
#[verifier::external_body]
pub struct ExA64(A64);

/// `aligned::Aligned<A, T>`: `T` with alignment of at least that of `A`.
#[verifier::external_type_specification]
#[verifier::external_body]
#[verifier::reject_recursive_types(A)]
#[verifier::reject_recursive_types(T)]
pub struct ExAligned<A, T: ?Sized>(Aligned<A, T>);

/// Calls the constructor `aligned::Aligned(value)`, which places `value` in a
/// 64-byte aligned cell. Nothing is stated of the cell's contents.
#[verifier::external_body]
pub(crate) fn line_aligned<T>(value: T) -> Aligned<A64, T> {
    aligned::Aligned(value)
}

/// Calls `Aligned`'s `Deref::deref`, which gives the value in the cell.
/// Nothing is stated of it.
#[verifier::external_body]
pub(crate) fn line_aligned_value<T>(cell: &Aligned<A64, T>) -> &T {
    &**cell
}

/// Calls `std::ptr::NonNull::from(cell).addr()`: the machine address of a
/// 64-byte aligned cell. Claimed: it is a multiple of 64, as `Aligned<A64, _>`
/// has the alignment of `A64` (`repr(align(64))`) and every Rust reference is
/// aligned for its type. Where in memory the cell was placed is not stated.
#[verifier::external_body]
pub(crate) fn line_address<T>(cell: &Aligned<A64, T>) -> (addr: usize)
    ensures
        addr % 64 == 0,
{
    std::ptr::NonNull::from(cell).addr().get()
}

} // verus!
