//! The source of chance.
//!
//! One call reaches the `rand` crate; everything else in this module is built
//! on it and verified for whatever number comes back.

use crate::fixed::{Fixed, ONE};
use rand::Rng;
use vstd::prelude::*;

verus! {

/// `Rng::gen_range` of the `rand` crate on the thread-local generator, for a
/// half-open range of `i64`. The range must not be empty, the call panics
/// otherwise; the number returned lies in the range.
#[verifier::external_body]
fn random_between(lo: i64, hi: i64) -> (r: i64)
    requires
        lo < hi,
    ensures
        lo <= r < hi,
{
    rand::thread_rng().gen_range(lo..hi)
}

/// A scalar drawn from `[lo, hi)`, or `lo` itself where the range is empty.
pub fn draw_between(lo: Fixed, hi: Fixed) -> (r: Fixed)
    ensures
        lo < hi ==> lo <= r < hi,
        lo >= hi ==> r == lo,
{
    if lo < hi {
        random_between(lo, hi)
    } else {
        lo
    }
}

/// A fraction drawn from `[0, 1)`.
pub fn draw_unit() -> (r: Fixed)
    ensures
        0 <= r < ONE,
{
    random_between(0, ONE)
}

/// A fair coin.
pub fn draw_coin() -> bool {
    random_between(0, 2) == 1
}

/// An index drawn from `0..len`, or zero where `len` is zero.
pub fn draw_index(len: usize) -> (i: usize)
    ensures
        len > 0 ==> i < len,
        len == 0 ==> i == 0,
{
    if len == 0 {
        0
    } else {
        let end: i128 = i64::MIN as i128 + len as i128;  // from the least `i64` upward any length fits
        let drawn = random_between(i64::MIN, end as i64);
        (drawn as i128 - i64::MIN as i128) as usize
    }
}

/// A whole number drawn from `lo..hi`, or `lo` itself where the range is empty.
pub fn draw_count(lo: u32, hi: u32) -> (r: u32)
    ensures
        lo < hi ==> lo <= r < hi,
        lo >= hi ==> r == lo,
{
    if lo < hi {
        random_between(lo as i64, hi as i64) as u32
    } else {
        lo
    }
}

} // verus!
