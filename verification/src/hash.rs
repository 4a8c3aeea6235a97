//! Integer hashes shared by the CPU noise, erosion and detail-normal
//! generators (and mirrored bit-for-bit by the WGSL shaders), plus the
//! noise-type and detail-normal preset enums.

use vstd::prelude::*;
use vstd::arithmetic::div_mod::{lemma_add_mod_noop, lemma_mod_bound};

verus! {

/// 2^32: all hash arithmetic wraps modulo this.
pub open spec fn m32() -> int {
    0x1_0000_0000
}

/// The PCG output permutation of a 32-bit state: a data-dependent shift,
/// a multiply, and a final xor-shift.
pub open spec fn pcg_permute(state: u32) -> u32 {
    let shift = ((state >> 28u32) + 4) as u32;
    let word = (((state >> shift) ^ state) as int * 277803737 % m32()) as u32;
    (word >> 22u32) ^ word
}

/// The PCG hash: one LCG step (`× 747796405 + 2891336453`, wrapping) followed
/// by the output permutation.
pub open spec fn pcg_spec(input: u32) -> u32 {
    pcg_permute(((input as int * 747796405 + 2891336453) % m32()) as u32)
}

/// The lattice key of cell `(ix, iy)` under `seed`: a wrapping linear mix
/// of the two coordinates (as unsigned bit patterns) and the seed.
pub open spec fn lattice_mix(ix: i32, iy: i32, seed: u32) -> u32 {
    (((ix as u32) as int * 1597334677 + (iy as u32) as int * 3812015801 + seed as int * 2654435761) % m32()) as u32
}

/// `a × b`, wrapping.
fn wmul(a: u32, b: u32) -> (r: u32)
    ensures
        r == (a as int * b as int) % m32(),
{
    a.wrapping_mul(b)
}

/// `a + b`, wrapping.
fn wadd(a: u32, b: u32) -> (r: u32)
    ensures
        r == (a as int + b as int) % m32(),
{
    a.wrapping_add(b)
}

fn permute(state: u32) -> (r: u32)
    ensures
        r == pcg_permute(state),
{
    let top = state >> 28u32;
    assert(top < 16) by (bit_vector)
        requires
            top == state >> 28u32,
    ;
    let shift = top + 4;
    let word = wmul((state >> shift) ^ state, 277803737);
    (word >> 22u32) ^ word
}

/// Simple PCG hash for deterministic pseudo-random numbers.
pub fn pcg_hash(input: u32) -> (r: u32)
    ensures
        r == pcg_spec(input),
{
    let m = wmul(input, 747796405);
    let state = wadd(m, 2891336453);
    proof {
        lemma_add_mod_noop(input as int * 747796405, 2891336453, m32());
    }
    permute(state)
}

fn mix(ix: i32, iy: i32, seed: u32) -> (r: u32)
    ensures
        r == lattice_mix(ix, iy, seed),
{
    let a = wmul(ix as u32, 1597334677);
    let b = wmul(iy as u32, 3812015801);
    let c = wmul(seed, 2654435761);
    let ab = wadd(a, b);
    let n = wadd(ab, c);
    proof {
        let x = (ix as u32) as int * 1597334677;
        let y = (iy as u32) as int * 3812015801;
        let z = seed as int * 2654435761;
        lemma_add_mod_noop(x, y, m32());
        lemma_add_mod_noop(x + y, z, m32());
        lemma_mod_bound(x + y, m32());
        assert(((x + y) % m32()) % m32() == (x + y) % m32()) by {
            vstd::arithmetic::div_mod::lemma_mod_twice(x + y, m32());
        }
        assert(z % m32() == c);
    }
    n
}

/// PCG-style integer lattice hash: the PCG hash of the cell's lattice key.
/// Identical to `hash_cell` in the noise shader, so CPU and GPU select the
/// same gradients.
pub fn hash_cell(ix: i32, iy: i32, seed: u32) -> (r: u32)
    ensures
        r == pcg_spec(lattice_mix(ix, iy, seed)),
{
    pcg_hash(mix(ix, iy, seed))
}

/// The lattice hash used by the detail-normal generator (the same function
/// as [`hash_cell`]).
pub fn hash(ix: i32, iy: i32, seed: u32) -> (r: u32)
    ensures
        r == pcg_spec(lattice_mix(ix, iy, seed)),
{
    pcg_hash(mix(ix, iy, seed))
}

/// Index into the 8-entry gradient table for lattice cell `(cx, cy)`.
pub open spec fn gradient_index_spec(cx: i32, cy: i32, seed: u32) -> u32 {
    pcg_spec(lattice_mix(cx, cy, seed)) & 7u32
}

/// Gradient-table index of lattice cell `(cx, cy)` for the gradient noise
/// (the low three bits of its lattice hash).
pub fn gradient_index(cx: i32, cy: i32, seed: u32) -> (r: u32)
    ensures
        r == gradient_index_spec(cx, cy, seed),
        r < 8,
{
    let h = hash_cell(cx, cy, seed);
    assert(h & 7u32 < 8) by (bit_vector);
    h & 7
}

/// `v` wrapped into `[0, period)` (Euclidean remainder).
fn wrap_coord(v: i32, period: i32) -> (r: i32)
    requires
        period > 0,
    ensures
        r == v as int % period as int,
        0 <= r < period,
{
    if v >= 0 {
        v % period
    } else {
        let neg: i64 = -(v as i64);
        let q: i64 = neg % (period as i64);
        assert(q == (-(v as int)) % (period as int));
        let ghost a = -(v as int);
        let ghost p = period as int;
        let ghost k = a / p;
        proof {
            vstd::arithmetic::div_mod::lemma_fundamental_div_mod(a, p);
            lemma_mod_bound(a, p);
        }
        if q == 0 {
            proof {
                assert(v as int == (-k) * p + 0) by (nonlinear_arith)
                    requires
                        a == p * k + 0,
                        v as int == -a,
                ;
                vstd::arithmetic::div_mod::lemma_fundamental_div_mod_converse(v as int, p, -k, 0);
            }
            0
        } else {
            proof {
                assert(v as int == (-k - 1) * p + (p - q)) by (nonlinear_arith)
                    requires
                        a == p * k + q,
                        v as int == -a,
                ;
                vstd::arithmetic::div_mod::lemma_fundamental_div_mod_converse(v as int, p, -k - 1, p - q);
            }
            (period as i64 - q) as i32
        }
    }
}

/// Gradient index of the periodic lattice: the cell coordinates wrap at
/// `period` before hashing, so the noise tiles with that period.
pub open spec fn periodic_gradient_index_spec(cx: i32, cy: i32, period: i32, seed: u32) -> u32 {
    gradient_index_spec((cx as int % period as int) as i32, (cy as int % period as int) as i32, seed)
}

/// Gradient-table index of lattice cell `(cx, cy)` on a lattice that wraps
/// every `period` cells (the detail-normal generator's tileable noise).
pub fn periodic_gradient_index(cx: i32, cy: i32, period: i32, seed: u32) -> (r: u32)
    requires
        period > 0,
    ensures
        r == periodic_gradient_index_spec(cx, cy, period, seed),
        r < 8,
{
    let x = wrap_coord(cx, period);
    let y = wrap_coord(cy, period);
    let h = hash(x, y, seed);
    assert(h & 7u32 < 8) by (bit_vector);
    h & 7
}

/// The periodic lattice repeats: shifting a cell by a whole number of
/// periods in either direction selects the same gradient, which is what
/// makes the detail-normal maps tile seamlessly.
pub proof fn lemma_periodic_gradient_tiles(cx: i32, cy: i32, period: i32, seed: u32, kx: int, ky: int)
    requires
        period > 0,
        i32::MIN <= cx + kx * period <= i32::MAX,
        i32::MIN <= cy + ky * period <= i32::MAX,
    ensures
        periodic_gradient_index_spec(
            (cx + kx * period) as i32,
            (cy + ky * period) as i32,
            period,
            seed,
        ) == periodic_gradient_index_spec(cx, cy, period, seed),
{
    vstd::arithmetic::div_mod::lemma_mod_multiples_vanish(kx, cx as int, period as int);
    vstd::arithmetic::div_mod::lemma_mod_multiples_vanish(ky, cy as int, period as int);
    assert((cx + kx * period) == (period * kx + cx)) by (nonlinear_arith);
    assert((cy + ky * period) == (period * ky + cy)) by (nonlinear_arith);
}

/// Noise algorithms offered by the terrain noise generator.
#[derive(Debug, Clone, Copy, PartialEq, Eq)]
pub enum NoiseType {
    Perlin,
    Simplex,
    Worley,
    Ridged,
    Billow,
}

/// The noise shader's `noise_type` variant: 0 = FBM, 1 = Ridged, 2 = Billow.
/// Perlin and Simplex share the FBM path; Worley never reaches the GPU (it
/// runs on the CPU) and maps to 0.
pub open spec fn noise_type_discriminant_spec(nt: NoiseType) -> u32 {
    match nt {
        NoiseType::Perlin | NoiseType::Simplex | NoiseType::Worley => 0,
        NoiseType::Ridged => 1,
        NoiseType::Billow => 2,
    }
}

/// Maps `NoiseType` to the shader's `noise_type` integer discriminant.
pub fn noise_type_discriminant(nt: NoiseType) -> (r: u32)
    ensures
        r == noise_type_discriminant_spec(nt),
{
    match nt {
        NoiseType::Perlin | NoiseType::Simplex => 0,
        NoiseType::Ridged => 1,
        NoiseType::Billow => 2,
        NoiseType::Worley => 0,
    }
}

/// Built-in detail-normal styles surfaced in the editor's surface-detail picker.
#[derive(Debug, Clone, Copy, PartialEq, Eq)]
pub enum DetailNormalPreset {
    Rock,
    Gravel,
    Sand,
}

impl DetailNormalPreset {
    /// The preset's name as shown in the picker.
    pub fn label(self) -> (r: &'static str)
        ensures
            self == DetailNormalPreset::Rock ==> r@ == "Rock"@,
            self == DetailNormalPreset::Gravel ==> r@ == "Gravel"@,
            self == DetailNormalPreset::Sand ==> r@ == "Sand"@,
    {
        match self {
            DetailNormalPreset::Rock => "Rock",
            DetailNormalPreset::Gravel => "Gravel",
            DetailNormalPreset::Sand => "Sand",
        }
    }
}

} // verus!
