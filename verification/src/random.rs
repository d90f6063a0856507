//! Numbers drawn from random bytes. The bytes come from outside: whoever
//! calls hands in as many as the number takes.

use vstd::prelude::*;

verus! {

/// The number that four bytes spell, the first of them weighing most.
pub open spec fn big_endian(bytes: [u8; 4]) -> int {
    bytes[0] * 0x100_0000 + bytes[1] * 0x1_0000 + bytes[2] * 0x100 + bytes[3]
}

/// The byte drawn.
pub fn get_random(random: [u8; 1]) -> (number: u8)
    ensures
        number == random[0],
{
    random[0]
}

/// The byte drawn.
pub fn get_random_u8(random: [u8; 1]) -> (number: u8)
    ensures
        number == random[0],
{
    random[0]
}

/// The number that the four bytes drawn spell, the first weighing most.
pub fn get_random_u32(random: [u8; 4]) -> (number: u32)
    ensures
        number == big_endian(random),
{
    random[0] as u32 * 0x100_0000 + random[1] as u32 * 0x1_0000 + random[2] as u32 * 0x100
        + random[3] as u32
}

/// A number below `max`: what the four bytes drawn spell, reduced by `max`.
pub fn get_random_u32_under(random: [u8; 4], max: u32) -> (number: u32)
    requires
        max > 0,
    ensures
        number == big_endian(random) % (max as int),
        number < max,
{
    get_random_u32(random) % max
}

/// A number from `min` up to, but not reaching, `under`.
pub fn get_random_u32_between(random: [u8; 4], min: u32, under: u32) -> (number: u32)
    requires
        min < under,
    ensures
        number == min + big_endian(random) % (under - min),
        min <= number < under,
{
    min + get_random_u32(random) % (under - min)
}

/// A byte from `min` up to, but not reaching, `under`.
pub fn get_random_between(random: [u8; 1], min: u8, under: u8) -> (number: u8)
    requires
        min < under,
    ensures
        number == min + random[0] % ((under - min) as u8),
        min <= number < under,
{
    min + random[0] % (under - min)
}

} // verus!
