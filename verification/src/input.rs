use vstd::prelude::*;

use crate::dpf::{bits32, bits_value, lemma_bits32_value};

verus! {

/// The sign-and-magnitude word of `value`: the magnitude in the low 31 bits
/// and the sign in the top bit.
pub fn sign_magnitude_u32(value: i32) -> (r: u32)
    requires
        value != i32::MIN,
    ensures
        value >= 0 ==> r == value,
        value < 0 ==> r == 0x8000_0000 + (-value),
{
    if value >= 0 {
        value as u32
    } else {
        let magnitude: u32 = (-value) as u32;
        assert(magnitude < 0x8000_0000);
        assert(magnitude ^ (1u32 << 31u32) == 0x8000_0000 + magnitude) by (bit_vector)
            requires
                magnitude < 0x8000_0000u32,
        ;
        magnitude ^ (1u32 << 31u32)
    }
}

/// The 32 bits of `value`, most significant first, read byte by byte from
/// its big-endian bytes.
pub fn u32_to_bool_vector(value: u32) -> (r: Vec<bool>)
    ensures
        r@ == bits32(value),
        r@.len() == 32,
        bits_value(r@) == value,
{
    proof {
        lemma_bits32_value(value);
    }
    let mut bool_vector: Vec<bool> = Vec::new();
    let mut b: u32 = 0;
    while b < 4
        invariant
            b <= 4,
            bool_vector@ == bits32(value).take(8 * b as int),
        decreases 4 - b,
    {
        let byte: u8 = (value >> (24 - 8 * b)) as u8;
        let mut i: u32 = 8;
        while i > 0
            invariant
                b < 4,
                i <= 8,
                byte == (value >> (24 - 8 * b) as u32) as u8,
                bool_vector@ == bits32(value).take(8 * b + (8 - i)),
            decreases i,
        {
            i = i - 1;
            let bit: bool = (byte & (1u8 << i as u8)) != 0;
            proof {
                let sh: u32 = (24 - 8 * b) as u32;
                let k: u32 = (8 * b + (7 - i)) as u32;
                assert(bit == ((value >> ((31 - k) as u32)) & 1u32 == 1u32)) by (bit_vector)
                    requires
                        b < 4u32,
                        i < 8u32,
                        sh == 24u32 - 8u32 * b,
                        k == 8u32 * b + 7u32 - i,
                        byte == (value >> sh) as u8,
                        bit == ((byte & (1u8 << i as u8)) != 0u8),
                ;
            }
            bool_vector.push(bit);
            assert(bool_vector@ =~= bits32(value).take(8 * b + (8 - i)));
        }
        b = b + 1;
    }
    assert(bool_vector@ =~= bits32(value));
    bool_vector
}

} // verus!
