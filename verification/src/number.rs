//! Reading whole numbers out of the bit patterns of double precision numbers.

use vstd::prelude::*;
use vstd::arithmetic::power2::pow2;
use vstd::bits::lemma_u64_shr_is_div;

verus! {

/// The exponent field of a bit pattern: the eleven bits below the sign.
pub open spec fn exponent_of(bits: u64) -> int {
    (bits as int / 0x10_0000_0000_0000) % 0x800
}

/// The fraction field of a bit pattern: its lowest fifty-two bits.
pub open spec fn fraction_of(bits: u64) -> int {
    bits as int % 0x10_0000_0000_0000
}

/// Whether a bit pattern stands for a number, finite or not.
pub open spec fn is_number(bits: u64) -> bool {
    !(exponent_of(bits) == 0x7FF && fraction_of(bits) != 0)
}

/// Whether the sign bit is set.
pub open spec fn has_sign(bits: u64) -> bool {
    bits >= 0x8000_0000_0000_0000
}

/// The whole part of a number, held to the range of `u32`: zero for what is
/// no number, for a number with a sign and for a number below one; the
/// largest value for a number of 2^32 or more; else the number without the
/// digits behind the point, which is its significand divided by the power of
/// two that its exponent leaves below the point.
pub open spec fn whole_part(bits: u64) -> int {
    let e = exponent_of(bits);
    if !is_number(bits) || has_sign(bits) || e < 1023 {
        0
    } else if e >= 1055 {
        0xFFFF_FFFF
    } else {
        (0x10_0000_0000_0000 + fraction_of(bits)) / (pow2((1075 - e) as nat) as int)
    }
}

/// Cuts a number down to its whole part, without rounding.
pub fn truncate(bits: u64) -> (whole: u32)
    ensures
        whole == whole_part(bits),
{
    let e: u64 = (bits / 0x10_0000_0000_0000) % 0x800;
    let f: u64 = bits % 0x10_0000_0000_0000;
    if (e == 0x7FF && f != 0) || bits >= 0x8000_0000_0000_0000 || e < 1023 {
        0
    } else if e >= 1055 {
        0xFFFF_FFFF
    } else {
        let significand: u64 = 0x10_0000_0000_0000 + f;
        let shift: u64 = 1075 - e;
        proof {
            lemma_u64_shr_is_div(significand, shift);
            assert(significand >> shift <= 0xFFFF_FFFF) by (bit_vector)
                requires
                    significand < 0x20_0000_0000_0000,
                    21 <= shift <= 52,
            ;
        }
        (significand >> shift) as u32
    }
}

} // verus!
