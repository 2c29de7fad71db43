//! Random draws on the thread-local generator.

use rand::Rng;
use vstd::prelude::*;

verus! {

/// Relies on `rand::Rng::gen_range` with an exclusive range, on the generator of
/// `rand::thread_rng`: a value `r` with `low <= r < high`. It panics on an empty range,
/// which `requires` leaves out.
#[verifier::external_body]
pub(crate) fn random_below(low: u32, high: u32) -> (r: u32)
    requires
        low < high,
    ensures
        low <= r < high,
{
    rand::thread_rng().gen_range(low..high)
}

/// Relies on `char::from_u32`: the character whose scalar value is `code`. It returns
/// `None` only for a surrogate or a value above `0x10FFFF`, which `requires` leaves out.
#[verifier::external_body]
pub(crate) fn char_of(code: u32) -> (c: char)
    requires
        code <= 0xD7FF || (0xE000 <= code && code <= 0x10FFFF),
    ensures
        c as u32 == code,
{
    char::from_u32(code).unwrap()
}

} // verus!
