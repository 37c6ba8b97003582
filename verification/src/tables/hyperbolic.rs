//! Hyperbolic arctangent lookup table for hyperbolic CORDIC mode.
//!
//! Entry `i` holds `atanh(2^-(i+1))` for `i = 0, 1, ..., 63`, as a bit
//! pattern with 63 fractional bits: `round(atanh(2^-(i+1)) * 2^63)`.
//! Hyperbolic CORDIC starts at iteration 1, since `atanh(1)` is undefined.
//! From index 21 on, `atanh(x)` equals `x` to within the stored precision.

use vstd::prelude::*;

verus! {

/// Precomputed hyperbolic arctangent values `atanh(2^-i)` for `i >= 1`, as
/// bit patterns with 63 fractional bits.  Entry 0 is `atanh(1/2)`.
pub const ATANH_TABLE: [i64; 64] = [
    0x464F_A9EA_B40C_2A5E,
    0x20B1_5DF5_0228_A34E,
    0x1015_891C_9EAE_F76A,
    0x0802_AC45_69BA_D66E,
    0x0400_5562_246B_B893,
    0x0200_0AAB_1115_A393,
    0x0100_0155_5888_91AD,
    0x0080_002A_AAC4_4457,
    0x0040_0005_5556_2222,
    0x0020_0000_AAAA_B111,
    0x0010_0000_1555_5589,
    0x0008_0000_02AA_AAAC,
    0x0004_0000_0055_5555,
    0x0002_0000_000A_AAAB,
    0x0001_0000_0001_5555,
    0x0000_8000_0000_2AAB,
    0x0000_4000_0000_0555,
    0x0000_2000_0000_00AB,
    0x0000_1000_0000_0015,
    0x0000_0800_0000_0003,
    0x0000_0400_0000_0000,
    0x0000_0200_0000_0000,
    0x0000_0100_0000_0000,
    0x0000_0080_0000_0000,
    0x0000_0040_0000_0000,
    0x0000_0020_0000_0000,
    0x0000_0010_0000_0000,
    0x0000_0008_0000_0000,
    0x0000_0004_0000_0000,
    0x0000_0002_0000_0000,
    0x0000_0001_0000_0000,
    0x0000_0000_8000_0000,
    0x0000_0000_4000_0000,
    0x0000_0000_2000_0000,
    0x0000_0000_1000_0000,
    0x0000_0000_0800_0000,
    0x0000_0000_0400_0000,
    0x0000_0000_0200_0000,
    0x0000_0000_0100_0000,
    0x0000_0000_0080_0000,
    0x0000_0000_0040_0000,
    0x0000_0000_0020_0000,
    0x0000_0000_0010_0000,
    0x0000_0000_0008_0000,
    0x0000_0000_0004_0000,
    0x0000_0000_0002_0000,
    0x0000_0000_0001_0000,
    0x0000_0000_0000_8000,
    0x0000_0000_0000_4000,
    0x0000_0000_0000_2000,
    0x0000_0000_0000_1000,
    0x0000_0000_0000_0800,
    0x0000_0000_0000_0400,
    0x0000_0000_0000_0200,
    0x0000_0000_0000_0100,
    0x0000_0000_0000_0080,
    0x0000_0000_0000_0040,
    0x0000_0000_0000_0020,
    0x0000_0000_0000_0010,
    0x0000_0000_0000_0008,
    0x0000_0000_0000_0004,
    0x0000_0000_0000_0002,
    0x0000_0000_0000_0001,
    0x0000_0000_0000_0001,
];

/// The hyperbolic gain `K_h`, about `0.82816`, as a bit pattern with 63
/// fractional bits.  It is the product of `sqrt(1 - 2^-2i)` over the
/// iteration sequence, repeat iterations included.
pub const HYPERBOLIC_GAIN: i64 = 0x6A01_203D_99A6_3986;

/// The inverse hyperbolic gain `1/K_h`, about `1.20750`, as a bit pattern
/// with 62 fractional bits (the value exceeds one).
pub const HYPERBOLIC_GAIN_INV: i64 = 0x4D47_A1C8_03BB_08CA;

/// `atanh(1/2)`, as a bit pattern with 63 fractional bits, used by the
/// argument reduction of the inverse hyperbolic tangent.  It equals the
/// first entry of [`ATANH_TABLE`].
pub const ATANH_HALF: i64 = 0x464F_A9EA_B40C_2A5E;

/// The iteration indices that hyperbolic CORDIC must execute twice for the
/// series to converge: `4, 13, 40, 121, 364`, each term three times the
/// previous one plus one.
pub const REPEAT_INDICES: [u32; 5] = [4, 13, 40, 121, 364];

/// The hyperbolic micro-rotation angles never grow: each table entry is
/// positive and at most its predecessor; and the reduction constant
/// `atanh(1/2)` is exactly the table's first entry.
pub proof fn lemma_atanh_table_nonincreasing()
    ensures
        forall|i: int| 0 < i < 64 ==> #[trigger] ATANH_TABLE[i] <= ATANH_TABLE[i - 1],
        forall|i: int| 0 <= i < 64 ==> #[trigger] ATANH_TABLE[i] > 0,
        ATANH_HALF == ATANH_TABLE[0],
{
    assert(forall|i: int| 0 < i < 64 ==> #[trigger] ATANH_TABLE[i] <= ATANH_TABLE[i - 1]);
    assert(forall|i: int| 0 <= i < 64 ==> #[trigger] ATANH_TABLE[i] > 0);
}

/// Whether hyperbolic iteration `index` must be executed twice.
pub fn needs_repeat(index: u32) -> (r: bool)
    ensures
        r == is_repeat_index(index),
{
    matches!(index, 4 | 13 | 40 | 121 | 364)
}

/// The repeat set of hyperbolic CORDIC: membership of `index` in
/// `{4, 13, 40, 121, 364}`.
pub open spec fn is_repeat_index(index: u32) -> bool {
    index == 4 || index == 13 || index == 40 || index == 121 || index == 364
}

} // verus!
