//! The pieces of one octave of fixed-point Perlin noise: the grid cell around a
//! point, the bilinear weight of a cell corner, and the pseudo-random gradient
//! attached to a corner.

use crate::arith::{
    clamp, lemma_trunc_div_bound, sat_add_i128, sat_add_i64, sat_div_i128, sat_mul_i128, sat_mul_i64,
    sat_mul_u128, sat_mul_u32, sat_mul_u64, sat_sub_i32, trunc_div,
};
use crate::digest::{sha3_256, sha3_256_digest};
use vstd::prelude::*;

verus! {

/// `|a - b|` for two unsigned coordinates.
pub open spec fn abs_diff(a: int, b: int) -> int {
    if a > b {
        a - b
    } else {
        b - a
    }
}

/// How much a corner at distance `d` contributes along one axis: `scale - d`,
/// or zero once the corner is a whole cell away.
pub open spec fn axis_falloff(scale: int, d: int) -> int {
    if scale > d {
        scale - d
    } else {
        0
    }
}

/// The weight of the corner `(cx, cy)` for the point `(x, y)`.
pub open spec fn corner_weight(cx: int, cy: int, x: int, y: int, scale: int) -> int {
    axis_falloff(scale, abs_diff(cx, x)) * axis_falloff(scale, abs_diff(cy, y))
}

/// Weight of the corner `(corner_x, corner_y)` for the point `(x, y)` in a grid
/// of cell size `scale`: the product of `scale - |corner - point|` on both axes,
/// each taken as zero when the distance reaches `scale`.
pub fn get_weight(corner_x: u32, corner_y: u32, x: u32, y: u32, scale: u32) -> (w: u64)
    ensures
        w == corner_weight(corner_x as int, corner_y as int, x as int, y as int, scale as int),
{
    let mut res: u64 = 1;
    let fx: u32 = if corner_x > x {
        scale.saturating_sub(corner_x.saturating_sub(x))
    } else {
        scale.saturating_sub(x.saturating_sub(corner_x))
    };
    res = sat_mul_u64(res, fx as u64);
    let fy: u32 = if corner_y > y {
        scale.saturating_sub(corner_y.saturating_sub(y))
    } else {
        scale.saturating_sub(y.saturating_sub(corner_y))
    };
    assert(fx as int * fy as int <= u64::MAX) by (nonlinear_arith)
        requires
            fx <= u32::MAX,
            fy <= u32::MAX,
    ;
    res = sat_mul_u64(res, fy as u64);
    res
}

/// The lower edge of the grid cell of size `scale` holding `v`; zero when `scale` is zero.
pub open spec fn cell_floor(v: int, scale: int) -> int {
    if scale == 0 {
        0
    } else {
        (v / scale) * scale
    }
}

/// `a + b`, held at `u32::MAX`.
pub open spec fn sat_add_u32(a: int, b: int) -> int {
    clamp(a + b, 0, u32::MAX as int)
}

/// The four corners of the grid cell of size `scale` around `(x, y)`, counter-clockwise
/// from the lower-left one; the upper edges stop at `u32::MAX`.
pub open spec fn cell_corners(x: int, y: int, scale: int) -> Seq<(int, int)> {
    let lx = cell_floor(x, scale);
    let ly = cell_floor(y, scale);
    seq![
        (lx, ly),
        (sat_add_u32(lx, scale), ly),
        (sat_add_u32(lx, scale), sat_add_u32(ly, scale)),
        (lx, sat_add_u32(ly, scale)),
    ]
}

/// The floor of a grid cell never lies above the point, and lies on the grid.
pub proof fn lemma_cell_floor(v: int, scale: int)
    requires
        v >= 0,
        scale >= 0,
    ensures
        0 <= cell_floor(v, scale) <= v,
        scale > 0 ==> cell_floor(v, scale) % scale == 0,
        scale > 0 ==> v < cell_floor(v, scale) + scale,
{
    if scale > 0 {
        vstd::arithmetic::div_mod::lemma_fundamental_div_mod(v, scale);
        vstd::arithmetic::div_mod::lemma_mod_multiples_basic(v / scale, scale);
        assert(0 <= v / scale) by (nonlinear_arith)
            requires
                v >= 0,
                scale > 0,
        ;
        vstd::arithmetic::div_mod::lemma_mod_pos_bound(v, scale);
        assert(0 <= (v / scale) * scale <= v < (v / scale) * scale + scale) by (nonlinear_arith)
            requires
                v / scale >= 0,
                scale > 0,
                v == scale * (v / scale) + v % scale,
                0 <= v % scale < scale,
        ;
    }
}

/// The corners of the grid cell of size `scale` around `(x, y)`.
pub fn get_corners(x: u32, y: u32, scale: u32) -> (corners: [[u32; 2]; 4])
    ensures
        forall|i: int|
            0 <= i < 4 ==> (corners[i][0] as int, corners[i][1] as int) == #[trigger] cell_corners(
                x as int,
                y as int,
                scale as int,
            )[i],
{
    proof {
        lemma_cell_floor(x as int, scale as int);
        lemma_cell_floor(y as int, scale as int);
    }
    let lower_x = sat_mul_u32(x.checked_div(scale).unwrap_or(0), scale);
    let lower_y = sat_mul_u32(y.checked_div(scale).unwrap_or(0), scale);
    let corners = [
        [lower_x, lower_y],
        [lower_x.saturating_add(scale), lower_y],
        [lower_x.saturating_add(scale), lower_y.saturating_add(scale)],
        [lower_x, lower_y.saturating_add(scale)],
    ];
    corners
}

/// The little-endian bytes of a `u32`.
pub open spec fn le_bytes(v: u32) -> Seq<u8> {
    seq![(v % 256) as u8, ((v / 256) % 256) as u8, ((v / 65536) % 256) as u8, (v / 16777216) as u8]
}

/// Appends the little-endian bytes of `v` to `buf`.
fn push_le_bytes(buf: &mut Vec<u8>, v: u32)
    ensures
        final(buf)@ == old(buf)@ + le_bytes(v),
{
    assert(v & 0xff == v % 256) by (bit_vector);
    assert((v >> 8) & 0xff == (v / 256) % 256) by (bit_vector);
    assert((v >> 16) & 0xff == (v / 65536) % 256) by (bit_vector);
    assert(v >> 24 == v / 16777216) by (bit_vector);
    buf.push((v & 0xff) as u8);
    buf.push(((v >> 8) & 0xff) as u8);
    buf.push(((v >> 16) & 0xff) as u8);
    buf.push((v >> 24) as u8);
    assert(buf@ =~= old(buf)@ + le_bytes(v));
}

/// The bytes hashed to pick the gradient of a corner: the little-endian
/// encodings of `x`, `y`, `scale` and `seed`, one after the other.
pub open spec fn gradient_input(x: u32, y: u32, scale: u32, seed: u32) -> Seq<u8> {
    le_bytes(x) + le_bytes(y) + le_bytes(scale) + le_bytes(seed)
}

/// The sum of a byte string's bytes.
pub open spec fn byte_sum(s: Seq<u8>) -> int
    decreases s.len(),
{
    if s.len() == 0 {
        0
    } else {
        byte_sum(s.drop_last()) + s.last()
    }
}

/// The sixteen gradient directions, scaled by 1000, in the order they are picked.
pub open spec fn gradient_table(k: int) -> (int, int) {
    if k == 0 {
        (1000, 0)
    } else if k == 1 {
        (923, 382)
    } else if k == 2 {
        (707, 707)
    } else if k == 3 {
        (382, 923)
    } else if k == 4 {
        (0, 1000)
    } else if k == 5 {
        (-383, 923)
    } else if k == 6 {
        (-708, 707)
    } else if k == 7 {
        (-924, 382)
    } else if k == 8 {
        (-1000, 0)
    } else if k == 9 {
        (-924, -383)
    } else if k == 10 {
        (-708, -708)
    } else if k == 11 {
        (-383, -924)
    } else if k == 12 {
        (-1, -1000)
    } else if k == 13 {
        (382, -924)
    } else if k == 14 {
        (707, -708)
    } else {
        (923, -383)
    }
}

/// The gradient a digest selects: entry `(sum of its bytes) mod 16` of the table.
pub open spec fn gradient_of_digest(digest: Seq<u8>) -> (int, int) {
    gradient_table(byte_sum(digest) % 16)
}

/// The gradient attached to the corner `(x, y)` of the grid of size `scale` for `seed`.
pub open spec fn corner_gradient(x: u32, y: u32, scale: u32, seed: u32) -> (int, int) {
    gradient_of_digest(sha3_256_digest(gradient_input(x, y, scale, seed)))
}

/// Every gradient component lies within `[-1000, 1000]`.
pub proof fn lemma_gradient_bound(k: int)
    ensures
        -1000 <= gradient_table(k).0 <= 1000,
        -1000 <= gradient_table(k).1 <= 1000,
{
}

/// Picks the gradient that a 32-byte digest selects: the bytes are summed with
/// wrapping `u32` addition, reduced mod 16, and the sum indexes the table.
pub fn gradient_from_digest(digest: &[u8; 32]) -> (g: [i16; 2])
    ensures
        (g[0] as int, g[1] as int) == gradient_of_digest(digest@),
{
    let mut idx: u32 = 0;
    for i in 0..32
        invariant
            idx == byte_sum(digest@.take(i as int)),
            idx <= 255 * i,
    {
        assert(digest@.take(i + 1).drop_last() =~= digest@.take(i as int));
        idx = idx.wrapping_add(digest[i] as u32);
    }
    assert(digest@.take(32) =~= digest@);
    idx = idx % 16;
    let vecs: [[i16; 2]; 16] = [
        [1000, 0],
        [923, 382],
        [707, 707],
        [382, 923],
        [0, 1000],
        [-383, 923],
        [-708, 707],
        [-924, 382],
        [-1000, 0],
        [-924, -383],
        [-708, -708],
        [-383, -924],
        [-1, -1000],
        [382, -924],
        [707, -708],
        [923, -383],
    ];
    vecs[idx as usize]
}

/// The gradient attached to the corner `(x, y)`: the SHA3-256 digest of the
/// little-endian bytes of `x`, `y`, `scale` and `seed` picks one of sixteen directions.
pub fn get_gradient_at(x: u32, y: u32, scale: u32, seed: u32) -> (g: [i16; 2])
    ensures
        (g[0] as int, g[1] as int) == corner_gradient(x, y, scale, seed),
{
    let mut buf: Vec<u8> = Vec::new();
    push_le_bytes(&mut buf, x);
    push_le_bytes(&mut buf, y);
    push_le_bytes(&mut buf, scale);
    push_le_bytes(&mut buf, seed);
    assert(buf@ =~= gradient_input(x, y, scale, seed));
    let hash = sha3_256(buf.as_slice());
    gradient_from_digest(&hash)
}


/// `v` read as a two's-complement `i32`, as the cast `v as i32` reads a `u32`.
pub open spec fn as_signed(v: int) -> int {
    if v < 0x8000_0000 {
        v
    } else {
        v - 0x1_0000_0000
    }
}

/// The cast `v as i32` of a `u32`.
pub proof fn lemma_as_signed(v: u32)
    ensures
        (v as i32) as int == as_signed(v as int),
{
    if v < 0x8000_0000 {
        assert((v as i32) as i64 == v as i64) by (bit_vector)
            requires
                v < 0x8000_0000u32,
        ;
    } else {
        assert((v as i32) as i64 + 0x1_0000_0000i64 == v as i64) by (bit_vector)
            requires
                v >= 0x8000_0000u32,
        ;
    }
}

/// The signed offset from a corner coordinate `c` to a point coordinate `p`, both
/// read as `i32`, held within the `i32` range.
pub open spec fn axis_offset(p: int, c: int) -> int {
    clamp(as_signed(p) - as_signed(c), i32::MIN as int, i32::MAX as int)
}

/// What the corner `c` with gradient `g` adds to the numerator of the octave at `(x, y)`:
/// the corner's weight times the dot product of the offset to the point with the gradient.
pub open spec fn corner_contribution(x: int, y: int, scale: int, c: (int, int), g: (int, int)) -> int {
    corner_weight(c.0, c.1, x, y, scale) * (axis_offset(x, c.0) * g.0 + axis_offset(y, c.1) * g.1)
}

/// The contributions of the first `n` corners of the cell around `(x, y)`.
pub open spec fn octave_numerator(x: int, y: int, scale: int, grads: Seq<(int, int)>, n: int) -> int
    decreases n,
{
    if n <= 0 {
        0
    } else {
        octave_numerator(x, y, scale, grads, n - 1) + corner_contribution(
            x,
            y,
            scale,
            cell_corners(x, y, scale)[n - 1],
            grads[n - 1],
        )
    }
}

/// The divisor that brings an octave back to gradient units: `1000 * scale^3`.
pub open spec fn octave_divisor(scale: int) -> int {
    1000 * (scale * scale * scale)
}

/// One octave of noise at `(x, y)` for the given corner gradients: the numerator
/// divided by `1000 * scale^3`, rounded toward zero; zero when `scale` is zero.
pub open spec fn octave_value(x: int, y: int, scale: int, grads: Seq<(int, int)>) -> int {
    if scale == 0 {
        0
    } else {
        trunc_div(octave_numerator(x, y, scale, grads, 4), octave_divisor(scale))
    }
}

/// The four gradient arrays as pairs of integers.
pub open spec fn gradient_pairs(g: [[i16; 2]; 4]) -> Seq<(int, int)> {
    Seq::new(4, |i: int| (g[i][0] as int, g[i][1] as int))
}

/// The gradients of the four corners of the cell around `(x, y)`.
pub open spec fn corner_gradients(x: u32, y: u32, scale: u32, seed: u32) -> Seq<(int, int)> {
    Seq::new(
        4,
        |i: int|
            corner_gradient(
                cell_corners(x as int, y as int, scale as int)[i].0 as u32,
                cell_corners(x as int, y as int, scale as int)[i].1 as u32,
                scale,
                seed,
            ),
    )
}

/// One octave of the noise of `seed` at `(x, y)` with cell size `scale`.
pub open spec fn single_scale_noise(x: u32, y: u32, scale: u32, seed: u32) -> int {
    octave_value(x as int, y as int, scale as int, corner_gradients(x, y, scale, seed))
}

/// A weight below `2^64` times a dot product within `2^48` stays within `2^112`.
proof fn lemma_contribution_bound(w: int, dot: int)
    requires
        0 <= w < 0x1_0000_0000_0000_0000,
        -0x1_0000_0000_0000 <= dot <= 0x1_0000_0000_0000,
    ensures
        -0x1_0000_0000_0000_0000_0000_0000_0000 <= w * dot <= 0x1_0000_0000_0000_0000_0000_0000_0000,
{
    assert(-0x1_0000_0000_0000_0000_0000_0000_0000 <= w * dot <= 0x1_0000_0000_0000_0000_0000_0000_0000)
        by (nonlinear_arith)
        requires
            0 <= w < 0x1_0000_0000_0000_0000,
            -0x1_0000_0000_0000 <= dot <= 0x1_0000_0000_0000,
    ;
}

/// An offset within the `i32` range times a gradient component within the `i16`
/// range stays within `2^47`.
proof fn lemma_offset_product_bound(o: int, g: int)
    requires
        i32::MIN <= o <= i32::MAX,
        i16::MIN <= g <= i16::MAX,
    ensures
        -0x8000_0000_0000 <= o * g <= 0x8000_0000_0000,
{
    assert(-0x8000_0000_0000 <= o * g <= 0x8000_0000_0000) by (nonlinear_arith)
        requires
            -0x8000_0000 <= o <= 0x8000_0000,
            -0x8000 <= g <= 0x8000,
    ;
}

/// The divisor of an octave fits in `2^106`.
proof fn lemma_divisor_bound(s: int)
    requires
        0 <= s <= u32::MAX,
    ensures
        0 <= s * s <= 0xffff_ffff_ffff_ffff,
        0 <= s * s * s <= 0xffff_ffff_ffff_ffff_ffff_ffff,
        0 <= 1000 * (s * s * s) < 0x400_0000_0000_0000_0000_0000_0000,
{
    assert(0 <= s * s <= 0xffff_ffff * 0xffff_ffff) by (nonlinear_arith)
        requires
            0 <= s <= 0xffff_ffff,
    ;
    assert(0 <= s * s * s <= 0xffff_ffff * 0xffff_ffff * 0xffff_ffff) by (nonlinear_arith)
        requires
            0 <= s <= 0xffff_ffff,
            0 <= s * s <= 0xffff_ffff * 0xffff_ffff,
    ;
}

/// One octave of noise at `(x, y)` for the gradients already picked for the four
/// corners of its cell (in the order `get_corners` lists them).
pub fn single_scale_from_gradients(x: u32, y: u32, scale: u32, gradients: &[[i16; 2]; 4]) -> (r: i128)
    ensures
        r == octave_value(x as int, y as int, scale as int, gradient_pairs(*gradients)),
        -noise_bound() <= r <= noise_bound(),
{
    let ghost grads = gradient_pairs(*gradients);
    let corners = get_corners(x, y, scale);
    let mut res_numerator: i128 = 0;
    proof {
        lemma_as_signed(x);
        lemma_as_signed(y);
    }
    for i in 0..4
        invariant
            res_numerator == octave_numerator(x as int, y as int, scale as int, grads, i as int),
            -(i as int) * 0x1_0000_0000_0000_0000_0000_0000_0000 <= res_numerator <= (i as int)
                * 0x1_0000_0000_0000_0000_0000_0000_0000,
            grads == gradient_pairs(*gradients),
            forall|k: int|
                0 <= k < 4 ==> (corners[k][0] as int, corners[k][1] as int) == #[trigger] cell_corners(
                    x as int,
                    y as int,
                    scale as int,
                )[k],
            (x as i32) as int == as_signed(x as int),
            (y as i32) as int == as_signed(y as int),
    {
        let corner = corners[i];
        let ghost c = cell_corners(x as int, y as int, scale as int)[i as int];
        assert((corner[0] as int, corner[1] as int) == c);
        proof {
            lemma_as_signed(corner[0]);
            lemma_as_signed(corner[1]);
        }
        let offset = [sat_sub_i32(x as i32, corner[0] as i32), sat_sub_i32(y as i32, corner[1] as i32)];
        let gradient = gradients[i];
        assert(grads[i as int] == (gradient[0] as int, gradient[1] as int));
        proof {
            lemma_offset_product_bound(offset[0] as int, gradient[0] as int);
            lemma_offset_product_bound(offset[1] as int, gradient[1] as int);
        }
        let dot = sat_add_i64(
            sat_mul_i64(offset[0] as i64, gradient[0] as i64),
            sat_mul_i64(offset[1] as i64, gradient[1] as i64),
        );
        let weight = get_weight(corner[0], corner[1], x, y, scale);
        proof {
            lemma_contribution_bound(weight as int, dot as int);
        }
        res_numerator = sat_add_i128(res_numerator, sat_mul_i128(weight as i128, dot as i128));
    }
    let scale_u128 = scale as u128;
    proof {
        lemma_divisor_bound(scale as int);
    }
    let cube = sat_mul_u128(sat_mul_u128(scale_u128, scale_u128), scale_u128);
    let divisor = sat_mul_u128(1000u128, cube);
    assert(divisor as int == octave_divisor(scale as int));
    if divisor == 0 {
        assert(scale == 0) by (nonlinear_arith)
            requires
                divisor as int == 1000 * (scale * scale * scale),
                divisor == 0,
                scale >= 0,
        ;
        0
    } else {
        assert(scale != 0);
        proof {
            lemma_trunc_div_bound(res_numerator as int, divisor as int);
        }
        sat_div_i128(res_numerator, divisor as i128)
    }
}

/// One octave of the noise of `seed` at `(x, y)` with cell size `scale`: the
/// gradients of the four corners of its cell, weighted by closeness and divided by
/// `1000 * scale^3`.
pub fn get_single_scale_perlin(x: u32, y: u32, scale: u32, seed: u32) -> (r: i128)
    ensures
        r == single_scale_noise(x, y, scale, seed),
        -noise_bound() <= r <= noise_bound(),
{
    let corners = get_corners(x, y, scale);
    let g0 = get_gradient_at(corners[0][0], corners[0][1], scale, seed);
    let g1 = get_gradient_at(corners[1][0], corners[1][1], scale, seed);
    let g2 = get_gradient_at(corners[2][0], corners[2][1], scale, seed);
    let g3 = get_gradient_at(corners[3][0], corners[3][1], scale, seed);
    let gradients = [g0, g1, g2, g3];
    let r = single_scale_from_gradients(x, y, scale, &gradients);
    proof {
        let cs = cell_corners(x as int, y as int, scale as int);
        assert((corners[0][0] as int, corners[0][1] as int) == cs[0]);
        assert((corners[1][0] as int, corners[1][1] as int) == cs[1]);
        assert((corners[2][0] as int, corners[2][1] as int) == cs[2]);
        assert((corners[3][0] as int, corners[3][1] as int) == cs[3]);
        assert(gradient_pairs(gradients) =~= corner_gradients(x, y, scale, seed));
    }
    r
}


/// No octave ever moves further than `2^114` from zero.
pub open spec fn noise_bound() -> int {
    0x4_0000_0000_0000_0000_0000_0000_0000
}

/// `2^n`.
pub open spec fn doubling(n: nat) -> int
    decreases n,
{
    if n == 0 {
        1
    } else {
        2 * doubling((n - 1) as nat)
    }
}

/// The cell size of the `n`-th coarser octave: `scale * 2^n`, held at `u32::MAX`.
pub open spec fn octave_scale(scale: u32, n: nat) -> u32 {
    clamp(scale * doubling(n), 0, u32::MAX as int) as u32
}

/// The sum of the first `n` octaves at `(x, y)`, each twice as coarse as the last.
pub open spec fn octave_sum(x: u32, y: u32, scale: u32, seed: u32, n: nat) -> int
    decreases n,
{
    if n == 0 {
        0
    } else {
        octave_sum(x, y, scale, seed, (n - 1) as nat) + single_scale_noise(
            x,
            y,
            octave_scale(scale, (n - 1) as nat),
            seed,
        )
    }
}

/// The terrain height of `seed` at `(x, y)`: the octaves of cell size `scale`,
/// `2 * scale` and `4 * scale`, plus the finest octave once more, averaged
/// (rounding toward zero), then scaled by 32 and shifted up by 32.
pub open spec fn perlin_height(x: u32, y: u32, seed: u32, scale: u32) -> int {
    let total = octave_sum(x, y, scale, seed, 3) + single_scale_noise(x, y, scale, seed);
    trunc_div(total, 4) * 32 + 32
}

/// The terrain height of `seed` at `(x, y)` for the base cell size `scale`.
pub fn compute_perlin_scaled(x: u32, y: u32, seed: u32, scale: u32) -> (r: i128)
    ensures
        r == perlin_height(x, y, seed, scale),
{
    let mut perlin: i128 = 0;
    let mut factor: u32 = 1;
    for i in 0..3
        invariant
            perlin == octave_sum(x, y, scale, seed, i as nat),
            -(i as int) * noise_bound() <= perlin <= (i as int) * noise_bound(),
            factor == doubling(i as nat),
    {
        assert(doubling(0) == 1 && doubling(1) == 2 && doubling(2) == 4) by {
            reveal_with_fuel(doubling, 3);
        }
        let v = get_single_scale_perlin(x, y, sat_mul_u32(scale, factor), seed);
        perlin = sat_add_i128(perlin, v);
        factor = factor * 2;
    }
    let v = get_single_scale_perlin(x, y, scale, seed);
    perlin = sat_add_i128(perlin, v);
    perlin = sat_div_i128(perlin, 4);
    proof {
        lemma_trunc_div_bound(octave_sum(x, y, scale, seed, 3) + single_scale_noise(x, y, scale, seed), 4);
    }
    let perlin_max: i128 = 64;
    let perlin_scaled_shifted = sat_add_i128(sat_mul_i128(perlin, perlin_max / 2), perlin_max / 2);
    perlin_scaled_shifted
}

} // verus!
