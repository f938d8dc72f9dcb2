//! Calendar-day buckets for counting completions.
use vstd::prelude::*;

verus! {

/// Nanoseconds in one day.
pub const NANOS_PER_DAY: u64 = 86_400_000_000_000;

/// The index of the day, counted from the epoch, that a nanosecond timestamp falls in.
pub open spec fn day_of(timestamp: u64) -> u64 {
    timestamp / NANOS_PER_DAY
}

pub fn day_index(timestamp: u64) -> (r: u64)
    ensures
        r == day_of(timestamp),
{
    timestamp / NANOS_PER_DAY
}

/// The character of a decimal digit.
pub open spec fn digit_char(d: nat) -> char {
    seq!['0', '1', '2', '3', '4', '5', '6', '7', '8', '9'][d as int]
}

/// The decimal notation of a natural number, without leading zeros.
pub open spec fn decimal(n: nat) -> Seq<char>
    decreases n,
{
    if n < 10 {
        seq![digit_char(n)]
    } else {
        decimal(n / 10).push(digit_char(n % 10))
    }
}

/// Relies on the standard `Display` of `u64`: its decimal notation, without
/// sign or leading zeros.
#[verifier::external_body]
pub(crate) fn decimal_string(n: u64) -> (r: String)
    ensures
        r@ == decimal(n as nat),
{
    format!("{}", n)
}

} // verus!
