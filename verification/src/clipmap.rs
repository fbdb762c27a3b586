//! Index buffers of the clipmap terrain grid.
//!
//! Every clipmap ring draws the same `res` by `res` grid of quads, scaled by
//! its cell size. The finest ring draws the whole grid; every coarser ring
//! skips its central quarter, which the next finer ring already covers. Both
//! index lists share one buffer: the full grid first, then the annulus.
use vstd::prelude::*;
use vstd::arithmetic::div_mod::lemma_fundamental_div_mod_converse;

verus! {

/// A `(start, count)` range of an index buffer.
pub type IndexRange = (u32, u32);

/// Quads per grid side: the requested resolution, at least 8.
pub open spec fn grid_res(resolution: u32) -> int {
    if resolution < 8 {
        8
    } else {
        resolution as int
    }
}

/// Cells `[res / 4, res - res / 4)` on both axes form the hole a finer ring fills.
pub open spec fn in_hole(res: int, ix: int, iz: int) -> bool {
    let inner0 = res / 4;
    let inner1 = res - inner0;
    ix >= inner0 && ix < inner1 && iz >= inner0 && iz < inner1
}

/// The two triangles of quad `(ix, iz)`, wound as the terrain pipeline culls:
/// `(00, 01, 11)` then `(00, 11, 10)`, vertices numbered row-major with
/// `res + 1` vertices per row.
pub open spec fn quad_indices(res: int, ix: int, iz: int) -> Seq<u32> {
    let stride = res + 1;
    let i00 = iz * stride + ix;
    let i10 = i00 + 1;
    let i01 = i00 + stride;
    let i11 = i01 + 1;
    seq![i00 as u32, i01 as u32, i11 as u32, i00 as u32, i11 as u32, i10 as u32]
}

/// Indices of the first `n` quads in row-major order, skipping the hole when
/// `skip_hole` is set.
pub open spec fn grid_tris(res: int, n: int, skip_hole: bool) -> Seq<u32>
    decreases n,
{
    if n <= 0 {
        Seq::empty()
    } else {
        let c = n - 1;
        let rest = grid_tris(res, n - 1, skip_hole);
        if skip_hole && in_hole(res, c % res, c / res) {
            rest
        } else {
            rest + quad_indices(res, c % res, c / res)
        }
    }
}

/// Resolutions whose two index lists fit a `u32`-counted buffer.
pub open spec fn grid_fits(resolution: u32) -> bool {
    12 * grid_res(resolution) * grid_res(resolution) <= u32::MAX
}

proof fn lemma_quad_in_bounds(res: int, ix: int, iz: int)
    requires
        8 <= res,
        12 * res * res <= u32::MAX,
        0 <= ix < res,
        0 <= iz < res,
    ensures
        forall|k: int|
            0 <= k < 6 ==> (#[trigger] quad_indices(res, ix, iz)[k]) < (res + 1) * (res + 1),
        iz * (res + 1) + ix + (res + 1) + 1 < (res + 1) * (res + 1),
        (res + 1) * (res + 1) <= u32::MAX,
{
    assert(iz * (res + 1) + ix + (res + 1) + 1 < (res + 1) * (res + 1)) by (nonlinear_arith)
        requires
            0 <= ix < res,
            0 <= iz < res,
    ;
    assert((res + 1) * (res + 1) <= u32::MAX) by (nonlinear_arith)
        requires
            8 <= res,
            12 * res * res <= u32::MAX,
    ;
    assert(0 <= iz * (res + 1)) by (nonlinear_arith)
        requires
            0 <= iz,
            0 <= res,
    ;
}

/// Every index of the first `n` quads names a vertex of the grid.
pub proof fn grid_indices_in_bounds(res: int, n: int, skip_hole: bool)
    requires
        8 <= res,
        12 * res * res <= u32::MAX,
        0 <= n <= res * res,
    ensures
        forall|k: int|
            0 <= k < grid_tris(res, n, skip_hole).len() ==> (#[trigger] grid_tris(
                res,
                n,
                skip_hole,
            )[k]) < (res + 1) * (res + 1),
        grid_tris(res, n, skip_hole).len() <= 6 * n,
        !skip_hole ==> grid_tris(res, n, skip_hole).len() == 6 * n,
    decreases n,
{
    if n > 0 {
        grid_indices_in_bounds(res, n - 1, skip_hole);
        let c = n - 1;
        assert(0 <= c % res < res);
        assert(0 <= c / res < res) by {
            vstd::arithmetic::div_mod::lemma_div_by_multiple_is_strongly_ordered(c, res * res, res, res);
            assert(c / res >= 0) by (nonlinear_arith)
                requires
                    c >= 0,
                    res > 0,
            ;
            assert(c < res * res);
            vstd::arithmetic::div_mod::lemma_div_multiples_vanish(res, res);
        }
        lemma_quad_in_bounds(res, c % res, c / res);
    }
}

fn push_quad(v: &mut Vec<u32>, res: u32, ix: u32, iz: u32)
    requires
        8 <= res,
        12 * res * res <= u32::MAX,
        ix < res,
        iz < res,
    ensures
        final(v)@ == old(v)@ + quad_indices(res as int, ix as int, iz as int),
{
    proof {
        lemma_quad_in_bounds(res as int, ix as int, iz as int);
    }
    let stride = res + 1;
    let i00 = iz * stride + ix;
    let i10 = i00 + 1;
    let i01 = i00 + stride;
    let i11 = i01 + 1;
    v.push(i00);
    v.push(i01);
    v.push(i11);
    v.push(i00);
    v.push(i11);
    v.push(i10);
    assert(v@ =~= old(v)@ + quad_indices(res as int, ix as int, iz as int));
}

/// The index buffer of a clipmap grid, and the ranges of its two lists: the
/// full grid, then the annulus without the central quarter.
pub fn grid_indices(resolution: u32) -> (out: (Vec<u32>, IndexRange, IndexRange))
    requires
        grid_fits(resolution),
    ensures
        ({
            let res = grid_res(resolution);
            let full = grid_tris(res, res * res, false);
            let annulus = grid_tris(res, res * res, true);
            &&& out.0@ == full + annulus
            &&& out.1 == (0u32, full.len() as u32)
            &&& out.2 == (full.len() as u32, annulus.len() as u32)
        }),
{
    let res: u32 = if resolution < 8 {
        8
    } else {
        resolution
    };
    let inner0 = res / 4;
    let inner1 = res - inner0;
    let mut full: Vec<u32> = Vec::new();
    let mut annulus: Vec<u32> = Vec::new();
    let mut iz: u32 = 0;
    proof {
        assert(res * res <= u32::MAX) by (nonlinear_arith)
            requires
                12 * res * res <= u32::MAX,
        ;
    }
    while iz < res
        invariant
            res == grid_res(resolution),
            8 <= res,
            12 * res * res <= u32::MAX,
            inner0 == res / 4,
            inner1 == res - inner0,
            iz <= res,
            full@ == grid_tris(res as int, iz * res, false),
            annulus@ == grid_tris(res as int, iz * res, true),
        decreases res - iz,
    {
        let mut ix: u32 = 0;
        while ix < res
            invariant
                res == grid_res(resolution),
                8 <= res,
                12 * res * res <= u32::MAX,
                inner0 == res / 4,
                inner1 == res - inner0,
                iz < res,
                ix <= res,
                full@ == grid_tris(res as int, iz * res + ix, false),
                annulus@ == grid_tris(res as int, iz * res + ix, true),
            decreases res - ix,
        {
            proof {
                lemma_fundamental_div_mod_converse(
                    iz * res + ix,
                    res as int,
                    iz as int,
                    ix as int,
                );
            }
            push_quad(&mut full, res, ix, iz);
            let hole = ix >= inner0 && ix < inner1 && iz >= inner0 && iz < inner1;
            if !hole {
                push_quad(&mut annulus, res, ix, iz);
            }
            ix = ix + 1;
        }
        proof {
            assert(iz * res + res == (iz + 1) * res) by (nonlinear_arith);
        }
        iz = iz + 1;
    }
    proof {
        grid_indices_in_bounds(res as int, res * res, false);
        grid_indices_in_bounds(res as int, res * res, true);
        assert(6 * (res * res) <= u32::MAX) by (nonlinear_arith)
            requires
                12 * res * res <= u32::MAX,
        ;
    }
    let full_len = full.len() as u32;
    let annulus_len = annulus.len() as u32;
    let mut indices = full;
    indices.append(&mut annulus);
    (indices, (0, full_len), (full_len, annulus_len))
}

/// Number of rings drawn: the configured count, clamped to `1..=6`.
pub fn ring_count(rings: u32) -> (n: u32)
    ensures
        n == (if rings < 1 {
            1
        } else if rings > 6 {
            6
        } else {
            rings
        }),
{
    if rings < 1 {
        1
    } else if rings > 6 {
        6
    } else {
        rings
    }
}

/// The innermost ring draws the full grid; every coarser ring the annulus.
pub fn ring_index_range(ring: u32, full: IndexRange, annulus: IndexRange) -> (r: IndexRange)
    ensures
        r == (if ring == 0 {
            full
        } else {
            annulus
        }),
{
    if ring == 0 {
        full
    } else {
        annulus
    }
}

/// `s` holds the six indices `q` as one of its aligned triangle pairs.
pub open spec fn holds_quad(s: Seq<u32>, q: Seq<u32>) -> bool {
    exists|k: int| 0 <= k && 6 * k + 6 <= s.len() && #[trigger] s.subrange(6 * k, 6 * k + 6) == q
}

proof fn lemma_quad_unique(res: int, ix: int, iz: int, jx: int, jz: int)
    requires
        8 <= res,
        12 * res * res <= u32::MAX,
        0 <= ix < res,
        0 <= iz < res,
        0 <= jx < res,
        0 <= jz < res,
        quad_indices(res, ix, iz) == quad_indices(res, jx, jz),
    ensures
        ix == jx,
        iz == jz,
{
    lemma_quad_in_bounds(res, ix, iz);
    lemma_quad_in_bounds(res, jx, jz);
    assert(quad_indices(res, ix, iz)[0] == quad_indices(res, jx, jz)[0]);
    assert(0 <= iz * (res + 1)) by (nonlinear_arith)
        requires
            0 <= iz,
            0 <= res,
    ;
    assert(0 <= jz * (res + 1)) by (nonlinear_arith)
        requires
            0 <= jz,
            0 <= res,
    ;
    assert(iz * (res + 1) + ix == jz * (res + 1) + jx);
    lemma_fundamental_div_mod_converse(iz * (res + 1) + ix, res + 1, iz, ix);
    lemma_fundamental_div_mod_converse(jz * (res + 1) + jx, res + 1, jz, jx);
}

proof fn lemma_holds_after_push(s: Seq<u32>, p: Seq<u32>, q: Seq<u32>)
    requires
        s.len() % 6 == 0,
        p.len() == 6,
    ensures
        holds_quad(s + p, q) <==> holds_quad(s, q) || p == q,
{
    let t = s + p;
    let m: int = (s.len() / 6) as int;
    if holds_quad(t, q) {
        let k = choose|k: int| 0 <= k && 6 * k + 6 <= t.len() && #[trigger] t.subrange(6 * k, 6 * k + 6) == q;
        if k < m {
            assert(s.subrange(6 * k, 6 * k + 6) =~= t.subrange(6 * k, 6 * k + 6));
        } else {
            assert(k == m);
            assert(p =~= t.subrange(6 * k, 6 * k + 6));
        }
    }
    if holds_quad(s, q) {
        let k = choose|k: int| 0 <= k && 6 * k + 6 <= s.len() && #[trigger] s.subrange(6 * k, 6 * k + 6) == q;
        assert(s.subrange(6 * k, 6 * k + 6) =~= t.subrange(6 * k, 6 * k + 6));
    }
    if p == q {
        assert(p =~= t.subrange(6 * m, 6 * m + 6));
    }
}

/// Row-major quad `c` of a `res`-wide grid has column `c % res` and row `c / res`.
proof fn lemma_quad_number(res: int, c: int)
    requires
        8 <= res,
        0 <= c < res * res,
    ensures
        0 <= c % res < res,
        0 <= c / res < res,
        (c / res) * res + c % res == c,
{
    vstd::arithmetic::div_mod::lemma_fundamental_div_mod(c, res);
    vstd::arithmetic::div_mod::lemma_div_by_multiple_is_strongly_ordered(c, res * res, res, res);
    vstd::arithmetic::div_mod::lemma_div_multiples_vanish(res, res);
    assert(c / res >= 0) by (nonlinear_arith)
        requires
            c >= 0,
            res > 0,
    ;
    assert((c / res) * res == res * (c / res)) by (nonlinear_arith);
}

proof fn lemma_annulus_quads(res: int, n: int, ix: int, iz: int)
    requires
        8 <= res,
        12 * res * res <= u32::MAX,
        0 <= n <= res * res,
        0 <= ix < res,
        0 <= iz < res,
    ensures
        grid_tris(res, n, true).len() % 6 == 0,
        holds_quad(grid_tris(res, n, true), quad_indices(res, ix, iz)) <==> iz * res + ix < n
            && !(res / 4 <= ix < res - res / 4 && res / 4 <= iz < res - res / 4),
    decreases n,
{
    if n == 0 {
        assert(!holds_quad(grid_tris(res, n, true), quad_indices(res, ix, iz)));
        assert(0 <= iz * res) by (nonlinear_arith)
            requires
                0 <= iz,
                0 <= res,
        ;
    } else {
        let c = n - 1;
        lemma_annulus_quads(res, c, ix, iz);
        lemma_quad_number(res, c);
        let cx = c % res;
        let cz = c / res;
        let rest = grid_tris(res, c, true);
        if in_hole(res, cx, cz) {
            if iz * res + ix == c {
                lemma_fundamental_div_mod_converse(c, res, iz, ix);
            }
        } else {
            lemma_holds_after_push(rest, quad_indices(res, cx, cz), quad_indices(res, ix, iz));
            if quad_indices(res, cx, cz) == quad_indices(res, ix, iz) {
                lemma_quad_unique(res, cx, cz, ix, iz);
            }
            if iz * res + ix == c {
                lemma_fundamental_div_mod_converse(c, res, iz, ix);
            }
        }
    }
}

/// The coarser rings draw quad `(ix, iz)` exactly when it lies outside the
/// central square `res / 4 <= ix, iz < res - res / 4` that the next finer
/// ring covers: every quad of the outer border of width `res / 4` is drawn,
/// each once as two whole triangles, and no quad of the central square is.
pub proof fn annulus_draws_the_quads_outside_the_centre(resolution: u32, ix: int, iz: int)
    requires
        grid_fits(resolution),
        0 <= ix < grid_res(resolution),
        0 <= iz < grid_res(resolution),
    ensures
        ({
            let res = grid_res(resolution);
            holds_quad(grid_tris(res, res * res, true), quad_indices(res, ix, iz)) <==> !(res / 4
                <= ix < res - res / 4 && res / 4 <= iz < res - res / 4)
        }),
{
    let res = grid_res(resolution);
    assert(iz * res + ix < res * res) by (nonlinear_arith)
        requires
            0 <= ix < res,
            0 <= iz < res,
    ;
    lemma_annulus_quads(res, res * res, ix, iz);
}

} // verus!
