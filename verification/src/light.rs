//! Directional light and color intensity scaling.

use vstd::prelude::*;
use crate::fixed::{sdiv, FP_ONE};
use crate::vector::Vec3;

verus! {

pub struct Light {
    pub direction: Vec3,
}

/// An intensity clamped to `[0, 1]` in Q16.16.
pub open spec fn clamp01_s(i: int) -> int {
    if i < 0 {
        0
    } else if i > FP_ONE as int {
        FP_ONE as int
    } else {
        i
    }
}

/// One color channel scaled by a clamped intensity, truncating.
pub open spec fn scaled_channel_s(c: int, i: int) -> int {
    sdiv(c * clamp01_s(i), FP_ONE as int)
}

/// Scales a color's RGB channels by an intensity in `[0, 1]` (Q16.16,
/// clamped); the alpha channel is kept.
pub fn light_apply_intensity(color: &[u8; 4], intensity: i64) -> (r: [u8; 4])
    ensures
        r[0] as int == scaled_channel_s(color[0] as int, intensity as int),
        r[1] as int == scaled_channel_s(color[1] as int, intensity as int),
        r[2] as int == scaled_channel_s(color[2] as int, intensity as int),
        r[3] == color[3],
{
    let clamped: u64 = if intensity < 0 {
        0
    } else if intensity > FP_ONE {
        FP_ONE as u64
    } else {
        intensity as u64
    };
    proof {
        assert((color[0] as int) * (clamped as int) <= 255 * 65536 && (color[1] as int) * (
        clamped as int) <= 255 * 65536 && (color[2] as int) * (clamped as int) <= 255 * 65536)
            by (nonlinear_arith)
            requires
                0 <= color[0] as int <= 255,
                0 <= color[1] as int <= 255,
                0 <= color[2] as int <= 255,
                0 <= clamped as int <= 65536;
    }
    let r0: u64 = (color[0] as u64 * clamped) / 65536;
    let r1: u64 = (color[1] as u64 * clamped) / 65536;
    let r2: u64 = (color[2] as u64 * clamped) / 65536;
    proof {
        lemma_scaled_channel(color[0] as int, clamped as int);
        lemma_scaled_channel(color[1] as int, clamped as int);
        lemma_scaled_channel(color[2] as int, clamped as int);
    }
    [r0 as u8, r1 as u8, r2 as u8, color[3]]
}

/// The scaled channel of nonnegative inputs is an ordinary division and
/// stays within a byte.
proof fn lemma_scaled_channel(c: int, i: int)
    requires
        0 <= c <= 255,
        0 <= i <= FP_ONE as int,
    ensures
        sdiv(c * i, FP_ONE as int) == (c * i) / (FP_ONE as int),
        0 <= (c * i) / (FP_ONE as int) <= 255,
{
    assert(0 <= c * i <= 255 * (FP_ONE as int)) by (nonlinear_arith)
        requires 0 <= c <= 255 && 0 <= i <= FP_ONE as int;
    assert((c * i) / (FP_ONE as int) <= (255 * (FP_ONE as int)) / (FP_ONE as int)) by {
        vstd::arithmetic::div_mod::lemma_div_is_ordered(c * i, 255 * (FP_ONE as int), FP_ONE as int);
    }
    assert((255 * (FP_ONE as int)) / (FP_ONE as int) == 255) by {
        crate::fixed::lemma_sdiv_multiple(255, FP_ONE as int);
    }
    vstd::arithmetic::div_mod::lemma_div_pos_is_pos(c * i, FP_ONE as int);
}

} // verus!
