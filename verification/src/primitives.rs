//! `Duration`, the standard library's unsigned span, and the handful of its
//! operations this crate calls; and the integer `Hash` impls the value-based
//! hashes feed.
//!
//! vstd gives these no specification, so each operation used here is a
//! small trusted item whose contract restates what the standard library
//! documents for it, over one name for the span's length in nanoseconds.

use core::time::Duration;
use vstd::prelude::*;

verus! {

/// What `Duration::as_nanos` returns: the whole span in nanoseconds.
pub uninterp spec fn duration_nanos(d: Duration) -> u128;

/// The longest span a `Duration` holds, in nanoseconds: `Duration::MAX` is
/// documented as `Duration::new(u64::MAX, 999_999_999)`.
pub open spec fn max_duration_nanos() -> int {
    0xFFFF_FFFF_FFFF_FFFFint * 1_000_000_000 + 999_999_999
}

/// Wraps `Duration::new` for a nanosecond part below one second, where the
/// documented carry into the seconds never happens and it cannot panic: the
/// span is `secs` seconds plus `nanos` nanoseconds.
#[verifier::external_body]
pub(crate) fn duration_from_parts(secs: u64, nanos: u32) -> (r: Duration)
    requires
        nanos < 1_000_000_000,
    ensures
        duration_nanos(r) == secs * 1_000_000_000 + nanos,
{
    Duration::new(secs, nanos)
}

/// Wraps `Duration::as_nanos`: the whole span in nanoseconds, which is never
/// more than `Duration::MAX` holds.
#[verifier::external_body]
pub(crate) fn duration_as_nanos(d: &Duration) -> (r: u128)
    ensures
        r == duration_nanos(*d),
        r <= max_duration_nanos(),
{
    d.as_nanos()
}

/// Reads `Duration::ZERO`, the span of no time.
#[verifier::external_body]
pub(crate) fn duration_zero() -> (r: Duration)
    ensures
        duration_nanos(r) == 0,
{
    Duration::ZERO
}

/// Reads `Duration::MAX`, documented as `u64::MAX` seconds and
/// `999_999_999` nanoseconds.
#[verifier::external_body]
pub(crate) fn duration_max() -> (r: Duration)
    ensures
        duration_nanos(r) == max_duration_nanos(),
{
    Duration::MAX
}

/// `Hash::hash` for `i32` from the standard library: feeds the integer to the
/// hasher. Nothing is claimed of what the hasher holds afterwards.
pub assume_specification<H: core::hash::Hasher>[<i32 as core::hash::Hash>::hash::<H>](
    data: &i32,
    state: &mut H,
);

/// `Hash::hash` for `i128` from the standard library: feeds the integer to
/// the hasher. Nothing is claimed of what the hasher holds afterwards.
pub assume_specification<H: core::hash::Hasher>[<i128 as core::hash::Hash>::hash::<H>](
    data: &i128,
    state: &mut H,
);

/// Feeds `a` and then `b` to the hasher, through `Hash` for `i32`, and
/// nothing else. Nothing is known of what the hasher makes of them; a call
/// of this function is how the value-based hashes say what they feed.
pub fn feed_i32_pair<H: core::hash::Hasher>(a: &i32, b: &i32, state: &mut H) {
    core::hash::Hash::hash(a, state);
    core::hash::Hash::hash(b, state);
}

/// Feeds `a` and then `b` to the hasher, through `Hash` for `i128`, and
/// nothing else.
pub fn feed_i128_pair<H: core::hash::Hasher>(a: &i128, b: &i128, state: &mut H) {
    core::hash::Hash::hash(a, state);
    core::hash::Hash::hash(b, state);
}

} // verus!
