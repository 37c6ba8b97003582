//! Arctangent lookup table for circular CORDIC mode.
//!
//! Entry `i` holds `atan(2^-i)` for `i = 0, 1, ..., 63`, as a bit pattern
//! with 63 fractional bits: `round(atan(2^-i) * 2^63)`.  The entries are
//! non-increasing; from index 21 on, `atan(x)` equals `x` to within the
//! stored precision, so the tail coincides with the powers of two.

use vstd::prelude::*;

verus! {

/// Precomputed arctangent values `atan(2^-i)`, as bit patterns with 63
/// fractional bits.  Entry 0 is `atan(1) = pi/4`.
pub const ATAN_TABLE: [i64; 64] = [
    0x6487_ED51_10B4_611A,
    0x3B58_CE0A_C376_9ED1,
    0x1F5B_75F9_2C80_DD63,
    0x0FEA_DD4D_5617_B6E3,
    0x07FD_56ED_CB3F_7A72,
    0x03FF_AAB7_752E_C495,
    0x01FF_F555_BBB7_29AB,
    0x00FF_FEAA_ADDD_D4B9,
    0x007F_FFD5_556E_EEDD,
    0x003F_FFFA_AAAB_7777,
    0x001F_FFFF_5555_5BBC,
    0x000F_FFFF_EAAA_AADE,
    0x0007_FFFF_FD55_5557,
    0x0003_FFFF_FFAA_AAAB,
    0x0001_FFFF_FFF5_5555,
    0x0000_FFFF_FFFE_AAAB,
    0x0000_7FFF_FFFF_D555,
    0x0000_3FFF_FFFF_FAAB,
    0x0000_1FFF_FFFF_FF55,
    0x0000_0FFF_FFFF_FFEB,
    0x0000_07FF_FFFF_FFFD,
    0x0000_0400_0000_0000,
    0x0000_0200_0000_0000,
    0x0000_0100_0000_0000,
    0x0000_0080_0000_0000,
    0x0000_0040_0000_0000,
    0x0000_0020_0000_0000,
    0x0000_0010_0000_0000,
    0x0000_0008_0000_0000,
    0x0000_0004_0000_0000,
    0x0000_0002_0000_0000,
    0x0000_0001_0000_0000,
    0x0000_0000_8000_0000,
    0x0000_0000_4000_0000,
    0x0000_0000_2000_0000,
    0x0000_0000_1000_0000,
    0x0000_0000_0800_0000,
    0x0000_0000_0400_0000,
    0x0000_0000_0200_0000,
    0x0000_0000_0100_0000,
    0x0000_0000_0080_0000,
    0x0000_0000_0040_0000,
    0x0000_0000_0020_0000,
    0x0000_0000_0010_0000,
    0x0000_0000_0008_0000,
    0x0000_0000_0004_0000,
    0x0000_0000_0002_0000,
    0x0000_0000_0001_0000,
    0x0000_0000_0000_8000,
    0x0000_0000_0000_4000,
    0x0000_0000_0000_2000,
    0x0000_0000_0000_1000,
    0x0000_0000_0000_0800,
    0x0000_0000_0000_0400,
    0x0000_0000_0000_0200,
    0x0000_0000_0000_0100,
    0x0000_0000_0000_0080,
    0x0000_0000_0000_0040,
    0x0000_0000_0000_0020,
    0x0000_0000_0000_0010,
    0x0000_0000_0000_0008,
    0x0000_0000_0000_0004,
    0x0000_0000_0000_0002,
    0x0000_0000_0000_0001,
];

/// The inverse circular gain `1/K`, about `0.60725`, as a bit pattern with
/// 63 fractional bits.  `K` is the product of `sqrt(1 + 2^-2i)` over all
/// iterations, about `1.64676`.
pub const CIRCULAR_GAIN_INV: i64 = 0x4DBA_76D4_21AF_2D34;

/// The micro-rotation angles never grow: each table entry is positive and
/// at most its predecessor, which is what lets the iteration drive the
/// residual angle toward zero.
pub proof fn lemma_atan_table_nonincreasing()
    ensures
        forall|i: int| 0 < i < 64 ==> #[trigger] ATAN_TABLE[i] <= ATAN_TABLE[i - 1],
        forall|i: int| 0 <= i < 64 ==> #[trigger] ATAN_TABLE[i] > 0,
{
    assert(forall|i: int| 0 < i < 64 ==> #[trigger] ATAN_TABLE[i] <= ATAN_TABLE[i - 1]);
    assert(forall|i: int| 0 <= i < 64 ==> #[trigger] ATAN_TABLE[i] > 0);
}

} // verus!
