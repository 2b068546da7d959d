//! Numbers in messages.

use vstd::prelude::*;

verus! {

/// The decimal digit of a number below ten.
pub open spec fn digit(d: nat) -> char {
    ('0' as nat + d) as char
}

/// The decimal digits of a number, most significant first, without leading zeros.
pub open spec fn decimal(n: nat) -> Seq<char>
    decreases n,
{
    if n < 10 {
        seq![digit(n)]
    } else {
        decimal(n / 10).push(digit(n % 10))
    }
}

/// Calls `std::format!` to write a number between two pieces of text. The contract claims that the
/// number is written in decimal, as `std` documents `Display` of an integer.
#[verifier::external_body]
pub(crate) fn with_decimal(head: &str, n: u64, tail: &str) -> (result: String)
    ensures
        result@ == head@ + decimal(n as nat) + tail@,
{
    format!("{head}{n}{tail}")
}

} // verus!
