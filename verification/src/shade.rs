//! Fixed-point shading arithmetic for generated textures.
//!
//! Every value is an integer in thousandths (`ONE` is 1.0): noise samples and
//! blend weights lie in `[0, ONE]`, colour channels are thousandths of full
//! intensity, and the final byte is `min(c, ONE) * 255 / ONE`.
//!
//! Noise is periodic value noise on an integer lattice: a `size`-pixel tile
//! sampled at `fx` by `fy` lattice cells wraps the lattice modulo its cell
//! count, so every sample repeats exactly every `size` pixels on both axes.
use vstd::prelude::*;
use vstd::arithmetic::div_mod::{
    lemma_fundamental_div_mod, lemma_hoist_over_denominator, lemma_mod_multiples_vanish,
};
use crate::tree::{hash, hash_spec};

verus! {

/// 1.0 in thousandths.
pub const ONE: u64 = 1000;

/// A colour in thousandths per channel.
pub type Rgb = (int, int, int);

/// A colour in thousandths per channel, as computed.
pub type Rgb64 = (u64, u64, u64);

pub open spec fn rgb_view(c: Rgb64) -> Rgb {
    (c.0 as int, c.1 as int, c.2 as int)
}

pub open spec fn rgb_le(c: Rgb64, bound: int) -> bool {
    c.0 <= bound && c.1 <= bound && c.2 <= bound
}

pub open spec fn clamp_int(v: int, lo: int, hi: int) -> int {
    if v < lo {
        lo
    } else if v > hi {
        hi
    } else {
        v
    }
}

pub open spec fn min_int(a: int, b: int) -> int {
    if a < b {
        a
    } else {
        b
    }
}

/// Pseudo-random lattice value in `[0, ONE]` at lattice point `(ix, iy)`.
pub open spec fn lattice_spec(seed: u32, ix: u32, iy: u32) -> int {
    (hash_spec(hash_spec(seed, ix), iy) % 1001) as int
}

/// Hermite fade `t^2 (3 - 2t)` of a weight `t` in `[0, ONE]`.
pub open spec fn fade_spec(t: int) -> int {
    t * t * (3 * ONE - 2 * t) / (ONE * ONE) as int
}

/// Blend from `p` (weight 0) to `q` (weight `ONE`).
pub open spec fn lerp_spec(p: int, q: int, t: int) -> int {
    (p * (ONE - t) + q * t) / ONE as int
}

/// Lattice cell containing pixel `x` of a `size`-pixel tile with `f` cells.
pub open spec fn cell_of(x: int, size: int, f: int) -> int {
    (x * f) / size
}

/// Position of pixel `x` inside its lattice cell, in thousandths.
pub open spec fn frac_of(x: int, size: int, f: int) -> int {
    ((x * f) % size) * ONE / size
}

/// Periodic value noise in `[0, ONE]` at pixel `(x, y)` of a `size`-pixel tile
/// holding `fx` by `fy` lattice cells.
pub open spec fn tile_noise_spec(seed: u32, x: int, y: int, size: int, fx: int, fy: int) -> int {
    let cx = cell_of(x, size, fx);
    let cy = cell_of(y, size, fy);
    let i0 = (cx % fx) as u32;
    let i1 = ((cx + 1) % fx) as u32;
    let j0 = (cy % fy) as u32;
    let j1 = ((cy + 1) % fy) as u32;
    let sx = fade_spec(frac_of(x, size, fx));
    let sy = fade_spec(frac_of(y, size, fy));
    let top = lerp_spec(lattice_spec(seed, i0, j0), lattice_spec(seed, i1, j0), sx);
    let bottom = lerp_spec(lattice_spec(seed, i0, j1), lattice_spec(seed, i1, j1), sx);
    lerp_spec(top, bottom, sy)
}

/// Cubic step from 0 at `e0` to `ONE` at `e1`, clamped outside.
pub open spec fn smooth_spec(e0: int, e1: int, x: int) -> int {
    fade_spec(clamp_int((x - e0) * ONE / (e1 - e0), 0, ONE as int))
}

/// Per-channel blend of two colours by a weight clamped to `[0, ONE]`.
pub open spec fn mix_spec(a: Rgb, b: Rgb, t: int) -> Rgb {
    let w = clamp_int(t, 0, ONE as int);
    (lerp_spec(a.0, b.0, w), lerp_spec(a.1, b.1, w), lerp_spec(a.2, b.2, w))
}

/// Every channel multiplied by a factor in thousandths.
pub open spec fn scale_spec(c: Rgb, s: int) -> Rgb {
    (c.0 * s / ONE as int, c.1 * s / ONE as int, c.2 * s / ONE as int)
}

/// Triangle wave of `v * k`: rises from 0 to `ONE` and falls back, period `2 ONE`.
pub open spec fn fold_spec(v: int, k: int) -> int {
    let p = (v * k) % (2 * ONE) as int;
    if p <= ONE {
        p
    } else {
        2 * ONE - p
    }
}

/// `ONE` at the noise midline, falling three times as fast as the noise
/// leaves it, floored at 0: the thin bright seams of a fracture network.
pub open spec fn ridge_spec(n: int) -> int {
    let d = if 2 * n >= ONE {
        2 * n - ONE
    } else {
        ONE - 2 * n
    };
    ONE - min_int(3 * d, ONE as int)
}

/// Thousandths of full intensity to a byte, saturating above `ONE`.
pub open spec fn byte_spec(c: int) -> int {
    min_int(c, ONE as int) * 255 / ONE as int
}

pub fn lattice(seed: u32, ix: u32, iy: u32) -> (v: u64)
    ensures
        v == lattice_spec(seed, ix, iy),
        v <= ONE,
{
    (hash(hash(seed, ix), iy) % 1001) as u64
}

pub fn fade(t: u64) -> (r: u64)
    requires
        t <= ONE,
    ensures
        r == fade_spec(t as int),
        r <= ONE,
{
    proof {
        let ti = t as int;
        assert(ti * ti * (3000 - 2 * ti) <= 1_000_000_000) by (nonlinear_arith)
            requires
                0 <= ti <= 1000,
        {
            assert(1_000_000_000 - ti * ti * (3000 - 2 * ti) == (1000 - ti) * (1000 - ti) * (
            1000 + 2 * ti));
        }
        assert(ti * ti * (3000 - 2 * ti) >= 0) by (nonlinear_arith)
            requires
                0 <= ti <= 1000,
        ;
        assert(ti * ti <= 1_000_000) by (nonlinear_arith)
            requires
                0 <= ti <= 1000,
        ;
    }
    let sq = t * t;
    let cube = sq * (3 * ONE - 2 * t);
    assert(cube / 1_000_000 <= 1000);
    cube / (ONE * ONE)
}

proof fn lemma_lerp_bounds(p: int, q: int, t: int, m: int)
    requires
        0 <= p <= m,
        0 <= q <= m,
        0 <= t <= 1000,
    ensures
        0 <= p * (1000 - t) + q * t <= m * 1000,
        0 <= (p * (1000 - t) + q * t) / 1000 <= m,
{
    assert(0 <= p * (1000 - t) + q * t <= m * 1000) by (nonlinear_arith)
        requires
            0 <= p <= m,
            0 <= q <= m,
            0 <= t <= 1000,
    ;
}

pub fn lerp(p: u64, q: u64, t: u64) -> (r: u64)
    requires
        p <= 1_000_000,
        q <= 1_000_000,
        t <= ONE,
    ensures
        r == lerp_spec(p as int, q as int, t as int),
        r <= p || r <= q,
        p <= q ==> r <= q,
        q <= p ==> r <= p,
{
    proof {
        if p <= q {
            lemma_lerp_bounds(p as int, q as int, t as int, q as int);
        } else {
            lemma_lerp_bounds(p as int, q as int, t as int, p as int);
        }
    }
    (p * (ONE - t) + q * t) / ONE
}

proof fn lemma_frac_below_one(x: int, size: int, f: int)
    requires
        0 <= x,
        0 < size,
        0 < f,
    ensures
        0 <= frac_of(x, size, f) < ONE,
        0 <= cell_of(x, size, f),
{
    let m = (x * f) % size;
    assert(0 <= x * f) by (nonlinear_arith)
        requires
            0 <= x,
            0 < f,
    ;
    assert(0 <= m < size);
    assert(m * 1000 < size * 1000) by (nonlinear_arith)
        requires
            0 <= m < size,
    ;
    assert(m * 1000 / size < 1000) by (nonlinear_arith)
        requires
            0 <= m < size,
            m * 1000 < size * 1000,
            0 < size,
    {
        vstd::arithmetic::div_mod::lemma_div_by_multiple_is_strongly_ordered(
            m * 1000,
            size * 1000,
            1000,
            size,
        );
    }
    assert(0 <= m * 1000 / size) by (nonlinear_arith)
        requires
            0 <= m,
            0 < size,
    ;
    assert(0 <= (x * f) / size) by (nonlinear_arith)
        requires
            0 <= x * f,
            0 < size,
    ;
}

/// Periodic value noise at pixel `(x, y)` of a `size`-pixel tile.
pub fn tile_noise(seed: u32, x: u64, y: u64, size: u64, fx: u64, fy: u64) -> (v: u64)
    requires
        0 < size <= 0x1_0000,
        x < size,
        y < size,
        1 <= fx <= 128,
        1 <= fy <= 128,
    ensures
        v == tile_noise_spec(seed, x as int, y as int, size as int, fx as int, fy as int),
        v <= ONE,
{
    proof {
        lemma_frac_below_one(x as int, size as int, fx as int);
        lemma_frac_below_one(y as int, size as int, fy as int);
        assert(x * fx <= 0x1_0000 * 128) by (nonlinear_arith)
            requires
                x < 0x1_0000,
                fx <= 128,
        ;
        assert(y * fy <= 0x1_0000 * 128) by (nonlinear_arith)
            requires
                y < 0x1_0000,
                fy <= 128,
        ;
    }
    let px = x * fx;
    let py = y * fy;
    let cx = px / size;
    let cy = py / size;
    let i0 = (cx % fx) as u32;
    let i1 = ((cx + 1) % fx) as u32;
    let j0 = (cy % fy) as u32;
    let j1 = ((cy + 1) % fy) as u32;
    let sx = fade((px % size) * ONE / size);
    let sy = fade((py % size) * ONE / size);
    let top = lerp(lattice(seed, i0, j0), lattice(seed, i1, j0), sx);
    let bottom = lerp(lattice(seed, i0, j1), lattice(seed, i1, j1), sx);
    lerp(top, bottom, sy)
}

pub fn smooth(e0: u64, e1: u64, x: u64) -> (r: u64)
    requires
        e0 < e1 <= ONE,
        x <= 4 * ONE,
    ensures
        r == smooth_spec(e0 as int, e1 as int, x as int),
        r <= ONE,
{
    let t: u64 = if x <= e0 {
        0
    } else {
        let raw = (x - e0) * ONE / (e1 - e0);
        if raw > ONE {
            ONE
        } else {
            raw
        }
    };
    proof {
        if x <= e0 {
            assert((x - e0) * 1000 <= 0) by (nonlinear_arith)
                requires
                    x <= e0,
            ;
            assert((x - e0) * 1000 / (e1 - e0) <= 0) by (nonlinear_arith)
                requires
                    (x - e0) * 1000 <= 0,
                    e1 - e0 > 0,
            ;
        } else {
            assert((x - e0) * 1000 / (e1 - e0) >= 0) by (nonlinear_arith)
                requires
                    x > e0,
                    e1 - e0 > 0,
            ;
        }
    }
    fade(t)
}

pub fn mix(a: Rgb64, b: Rgb64, t: u64) -> (c: Rgb64)
    requires
        rgb_le(a, 1_000_000),
        rgb_le(b, 1_000_000),
    ensures
        rgb_view(c) == mix_spec(rgb_view(a), rgb_view(b), t as int),
        c.0 <= a.0 || c.0 <= b.0,
        c.1 <= a.1 || c.1 <= b.1,
        c.2 <= a.2 || c.2 <= b.2,
{
    let w = if t > ONE {
        ONE
    } else {
        t
    };
    (lerp(a.0, b.0, w), lerp(a.1, b.1, w), lerp(a.2, b.2, w))
}

pub fn scale(c: Rgb64, s: u64) -> (r: Rgb64)
    requires
        rgb_le(c, 10_000),
        s <= 10_000,
    ensures
        rgb_view(r) == scale_spec(rgb_view(c), s as int),
        rgb_le(r, 100_000),
        rgb_le(c, 1000) ==> rgb_le(r, s as int),
{
    proof {
        assert(c.0 * s <= 100_000_000 && c.1 * s <= 100_000_000 && c.2 * s <= 100_000_000)
            by (nonlinear_arith)
            requires
                rgb_le(c, 10_000),
                s <= 10_000,
        ;
        if rgb_le(c, 1000) {
            assert(c.0 * s <= 1000 * s && c.1 * s <= 1000 * s && c.2 * s <= 1000 * s)
                by (nonlinear_arith)
                requires
                    rgb_le(c, 1000),
            ;
        }
    }
    (c.0 * s / ONE, c.1 * s / ONE, c.2 * s / ONE)
}

pub fn fold(v: u64, k: u64) -> (r: u64)
    requires
        v <= ONE,
        k <= 16,
    ensures
        r == fold_spec(v as int, k as int),
        r <= ONE,
{
    proof {
        assert(v * k <= 16_000) by (nonlinear_arith)
            requires
                v <= 1000,
                k <= 16,
        ;
    }
    let p = (v * k) % (2 * ONE);
    if p <= ONE {
        p
    } else {
        2 * ONE - p
    }
}

pub fn ridge(n: u64) -> (r: u64)
    requires
        n <= ONE,
    ensures
        r == ridge_spec(n as int),
        r <= ONE,
{
    let d = if 2 * n >= ONE {
        2 * n - ONE
    } else {
        ONE - 2 * n
    };
    let t = 3 * d;
    if t < ONE {
        ONE - t
    } else {
        0
    }
}

pub fn to_byte(c: u64) -> (b: u8)
    ensures
        b == byte_spec(c as int),
{
    let m = if c < ONE {
        c
    } else {
        ONE
    };
    (m * 255 / ONE) as u8
}

/// The noise repeats exactly every `size` pixels along `x`.
pub proof fn tile_noise_wraps_in_x(seed: u32, x: int, y: int, size: int, fx: int, fy: int)
    requires
        0 <= x,
        0 < size,
        0 < fx,
        0 < fy,
    ensures
        tile_noise_spec(seed, x + size, y, size, fx, fy) == tile_noise_spec(
            seed,
            x,
            y,
            size,
            fx,
            fy,
        ),
{
    assert((x + size) * fx == x * fx + fx * size) by (nonlinear_arith);
    lemma_hoist_over_denominator(x * fx, fx, size as nat);
    assert(cell_of(x + size, size, fx) == cell_of(x, size, fx) + fx);
    lemma_mod_multiples_vanish(fx, x * fx, size);
    assert(((x + size) * fx) % size == (x * fx) % size) by {
        assert(size * fx + x * fx == (x + size) * fx) by (nonlinear_arith);
    }
    let cx = cell_of(x, size, fx);
    lemma_mod_multiples_vanish(1, cx, fx);
    lemma_mod_multiples_vanish(1, cx + 1, fx);
    assert((cx + fx) % fx == cx % fx);
    assert((cx + fx + 1) % fx == (cx + 1) % fx);
}

/// The noise repeats exactly every `size` pixels along `y`.
pub proof fn tile_noise_wraps_in_y(seed: u32, x: int, y: int, size: int, fx: int, fy: int)
    requires
        0 <= y,
        0 < size,
        0 < fx,
        0 < fy,
    ensures
        tile_noise_spec(seed, x, y + size, size, fx, fy) == tile_noise_spec(
            seed,
            x,
            y,
            size,
            fx,
            fy,
        ),
{
    assert((y + size) * fy == y * fy + fy * size) by (nonlinear_arith);
    lemma_hoist_over_denominator(y * fy, fy, size as nat);
    assert(cell_of(y + size, size, fy) == cell_of(y, size, fy) + fy);
    lemma_mod_multiples_vanish(fy, y * fy, size);
    assert(((y + size) * fy) % size == (y * fy) % size) by {
        assert(size * fy + y * fy == (y + size) * fy) by (nonlinear_arith);
    }
    let cy = cell_of(y, size, fy);
    lemma_mod_multiples_vanish(1, cy, fy);
    lemma_mod_multiples_vanish(1, cy + 1, fy);
    assert((cy + fy) % fy == cy % fy);
    assert((cy + fy + 1) % fy == (cy + 1) % fy);
}

} // verus!
