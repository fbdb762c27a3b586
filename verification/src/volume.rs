//! Integer bookkeeping of chunked scalar volumes: where a corner sample of a
//! chunk is stored, which chunks lie within a streaming radius, and which
//! loaded chunks a streamer must drop.
use vstd::prelude::*;
use vstd::arithmetic::div_mod::lemma_fundamental_div_mod_converse;
use crate::error::{is_resource_limit, EngineError};
use crate::filtering::lemma_filter_no_duplicates;
use crate::text::{decimal, push_decimal};

verus! {

/// Number of voxels along one axis of a chunk (exclusive upper bound of cell grid).
pub const CHUNK_SIZE: i32 = 32;

/// Corner samples along one axis of a chunk.
pub open spec fn samples_per_axis() -> int {
    CHUNK_SIZE + 1
}

/// Storage position of corner sample `(x, y, z)`: `y` outermost, then `z`, then `x`.
pub open spec fn sample_index_spec(x: int, y: int, z: int) -> int {
    let n = samples_per_axis();
    y * n * n + z * n + x
}

/// Storage position of corner sample `(x, y, z)` of a chunk.
pub fn sample_index(x: i32, y: i32, z: i32) -> (i: usize)
    requires
        0 <= x < samples_per_axis(),
        0 <= y < samples_per_axis(),
        0 <= z < samples_per_axis(),
    ensures
        i == sample_index_spec(x as int, y as int, z as int),
        i < samples_per_axis() * samples_per_axis() * samples_per_axis(),
{
    let n = CHUNK_SIZE + 1;
    (y * n * n + z * n + x) as usize
}

/// Distinct corners of a chunk are stored at distinct positions, and every
/// position below `33^3` holds exactly the corner it decodes to.
pub proof fn sample_index_is_a_bijection(x: int, y: int, z: int)
    requires
        0 <= x < 33,
        0 <= y < 33,
        0 <= z < 33,
    ensures
        sample_index_spec(x, y, z) % 33 == x,
        (sample_index_spec(x, y, z) / 33) % 33 == z,
        sample_index_spec(x, y, z) / 1089 == y,
        0 <= sample_index_spec(x, y, z) < 35937,
{
    let i = sample_index_spec(x, y, z);
    assert(i == (y * 33 + z) * 33 + x);
    lemma_fundamental_div_mod_converse(i, 33, y * 33 + z, x);
    lemma_fundamental_div_mod_converse(y * 33 + z, 33, y, z);
    lemma_fundamental_div_mod_converse(i, 1089, y, z * 33 + x);
}

/// The chunk holding grid coordinate `g` along one axis, and `g`'s place in
/// it: `g == chunk * 32 + local` with `0 <= local < 32`.
pub open spec fn split_spec(g: int) -> (int, int) {
    (g / 32, g % 32)
}

/// Split a grid coordinate into its chunk and its place in the chunk.
pub fn grid_split(g: i32) -> (out: (i32, i32))
    ensures
        out.0 == split_spec(g as int).0,
        out.1 == split_spec(g as int).1,
        out.0 * CHUNK_SIZE + out.1 == g,
        0 <= out.1 < CHUNK_SIZE,
{
    let u: i64 = g as i64 + 2147483648;
    let q: i64 = u / 32;
    let r: i64 = u % 32;
    proof {
        lemma_fundamental_div_mod_converse(g as int, 32, q - 67108864, r as int);
    }
    ((q - 67108864) as i32, r as i32)
}

/// A sample slot: the chunk and the corner inside it.
pub type SampleSlot = (ChunkKey, ChunkKey);

/// The slots a write at grid point `g` lands in: its own corner, and the
/// copy on the far face of each neighbour behind a face it lies on, so
/// neighbouring chunks mesh without seams.
pub open spec fn sample_writes_spec(g: ChunkKey) -> Seq<SampleSlot> {
    let (cx, lx) = split_spec(g.0 as int);
    let (cy, ly) = split_spec(g.1 as int);
    let (cz, lz) = split_spec(g.2 as int);
    let own = seq![((cx as i32, cy as i32, cz as i32), (lx as i32, ly as i32, lz as i32))];
    let with_x = if lx == 0 {
        own.push((((cx - 1) as i32, cy as i32, cz as i32), (32i32, ly as i32, lz as i32)))
    } else {
        own
    };
    let with_y = if ly == 0 {
        with_x.push(((cx as i32, (cy - 1) as i32, cz as i32), (lx as i32, 32i32, lz as i32)))
    } else {
        with_x
    };
    if lz == 0 {
        with_y.push(((cx as i32, cy as i32, (cz - 1) as i32), (lx as i32, ly as i32, 32i32)))
    } else {
        with_y
    }
}

/// Where a write at grid point `g` is stored.
pub fn sample_writes(g: ChunkKey) -> (w: Vec<SampleSlot>)
    ensures
        w@ == sample_writes_spec(g),
        forall|i: int| 0 <= i < w@.len() ==> {
            let (chunk, local) = #[trigger] w@[i];
            &&& chunk.0 * CHUNK_SIZE + local.0 == g.0
            &&& chunk.1 * CHUNK_SIZE + local.1 == g.1
            &&& chunk.2 * CHUNK_SIZE + local.2 == g.2
            &&& 0 <= local.0 <= CHUNK_SIZE
            &&& 0 <= local.1 <= CHUNK_SIZE
            &&& 0 <= local.2 <= CHUNK_SIZE
        },
{
    let (cx, lx) = grid_split(g.0);
    let (cy, ly) = grid_split(g.1);
    let (cz, lz) = grid_split(g.2);
    let mut w: Vec<SampleSlot> = Vec::new();
    w.push(((cx, cy, cz), (lx, ly, lz)));
    if lx == 0 {
        w.push(((cx - 1, cy, cz), (CHUNK_SIZE, ly, lz)));
    }
    if ly == 0 {
        w.push(((cx, cy - 1, cz), (lx, CHUNK_SIZE, lz)));
    }
    if lz == 0 {
        w.push(((cx, cy, cz - 1), (lx, ly, CHUNK_SIZE)));
    }
    assert(w@ =~= sample_writes_spec(g));
    w
}

/// A write at grid point `g` lands first in its own corner, in chunk
/// `g / 32` at corner `g % 32`, and then, for each axis separately on which
/// `g` lies on a chunk face (`g % 32 == 0` there), in the neighbour one chunk
/// back along that axis, at corner 32 on that axis and the same corner on the
/// other two. Nothing else is written: one slot, plus one per such axis.
pub proof fn face_writes_reach_every_neighbour_behind(g: ChunkKey)
    ensures
        ({
            let w = sample_writes_spec(g);
            let (x, y, z) = (g.0 as int, g.1 as int, g.2 as int);
            &&& w[0] == (((x / 32) as i32, (y / 32) as i32, (z / 32) as i32), ((x % 32) as i32, (y
                % 32) as i32, (z % 32) as i32))
            &&& x % 32 == 0 ==> w.contains(
                (((x / 32 - 1) as i32, (y / 32) as i32, (z / 32) as i32), (32i32, (y % 32) as i32, (z
                    % 32) as i32)),
            )
            &&& y % 32 == 0 ==> w.contains(
                (((x / 32) as i32, (y / 32 - 1) as i32, (z / 32) as i32), ((x % 32) as i32, 32i32, (z
                    % 32) as i32)),
            )
            &&& z % 32 == 0 ==> w.contains(
                (((x / 32) as i32, (y / 32) as i32, (z / 32 - 1) as i32), ((x % 32) as i32, (y
                    % 32) as i32, 32i32)),
            )
            &&& w.len() == 1 + (if x % 32 == 0 {
                1int
            } else {
                0int
            }) + (if y % 32 == 0 {
                1int
            } else {
                0int
            }) + (if z % 32 == 0 {
                1int
            } else {
                0int
            })
        }),
{
    let w = sample_writes_spec(g);
    let (x, y, z) = (g.0 as int, g.1 as int, g.2 as int);
    let a: int = if x % 32 == 0 {
        1
    } else {
        0
    };
    let b: int = if y % 32 == 0 {
        1
    } else {
        0
    };
    if x % 32 == 0 {
        assert(w[1] == (((x / 32 - 1) as i32, (y / 32) as i32, (z / 32) as i32), (32i32, (y % 32) as i32, (z % 32) as i32)));
    }
    if y % 32 == 0 {
        assert(w[1 + a] == (((x / 32) as i32, (y / 32 - 1) as i32, (z / 32) as i32), ((x % 32) as i32, 32i32, (z % 32) as i32)));
    }
    if z % 32 == 0 {
        assert(w[1 + a + b] == (((x / 32) as i32, (y / 32) as i32, (z / 32 - 1) as i32), ((x % 32) as i32, (y % 32) as i32, 32i32)));
    }
}

/// The slot a read at grid point `g` comes from.
pub fn sample_read(g: ChunkKey) -> (slot: SampleSlot)
    ensures
        slot == sample_writes_spec(g)[0],
{
    let (cx, lx) = grid_split(g.0);
    let (cy, ly) = grid_split(g.1);
    let (cz, lz) = grid_split(g.2);
    ((cx, cy, cz), (lx, ly, lz))
}

/// `<n> samples (limit <limit>)`, after the opening words.
pub open spec fn paint_budget_message(samples: u64, limit: u64) -> Seq<char> {
    "volume paint would touch "@ + decimal(samples as nat) + " samples (limit "@ + decimal(
        limit as nat,
    ) + ")"@
}

/// A paint touching `samples` corner samples is refused above `limit`.
pub fn check_paint_budget(samples: u64, limit: u64) -> (r: Result<(), EngineError>)
    ensures
        r is Ok <==> samples <= limit,
        r matches Err(e) ==> is_resource_limit(e, paint_budget_message(samples, limit)),
{
    if samples > limit {
        let mut msg = String::from_str("volume paint would touch ");
        push_decimal(&mut msg, samples);
        msg.append(" samples (limit ");
        push_decimal(&mut msg, limit);
        msg.append(")");
        proof {
            reveal_strlit("volume paint would touch ");
        }
        assert(msg@ =~= paint_budget_message(samples, limit));
        return Err(EngineError::ResourceLimit(msg));
    }
    Ok(())
}

/// An integer chunk key.
pub type ChunkKey = (i32, i32, i32);

/// Side of the cube of candidate offsets for radius `r`.
pub open spec fn ball_side(r: int) -> int {
    2 * r + 1
}

/// The candidate offset visited `n`-th: `x` fastest, then `z`, then `y`, each
/// running from `-r` to `r`.
pub open spec fn ball_offset(r: int, n: int) -> (int, int, int) {
    let w = ball_side(r);
    (-r + n % w, -r + (n / (w * w)), -r + (n / w) % w)
}

/// The offset lies within the sphere of radius `r`.
pub open spec fn in_ball(o: (int, int, int), r: int) -> bool {
    o.0 * o.0 + o.1 * o.1 + o.2 * o.2 <= r * r
}

/// Keys within radius `r` of `center`, among the first `n` candidates.
pub open spec fn ball_keys(center: ChunkKey, r: int, n: int) -> Seq<ChunkKey>
    decreases n,
{
    if n <= 0 {
        Seq::empty()
    } else {
        let rest = ball_keys(center, r, n - 1);
        let o = ball_offset(r, n - 1);
        if in_ball(o, r) {
            rest.push(((center.0 + o.0) as i32, (center.1 + o.1) as i32, (center.2 + o.2) as i32))
        } else {
            rest
        }
    }
}

/// The whole ball of keys around `center`.
pub open spec fn desired_keys(center: ChunkKey, r: int) -> Seq<ChunkKey> {
    if r < 0 {
        Seq::empty()
    } else {
        let w = ball_side(r);
        ball_keys(center, r, w * w * w)
    }
}

/// Keys of the ball stay inside `i32`, and its squared radius too.
pub open spec fn ball_fits(center: ChunkKey, r: int) -> bool {
    &&& r <= 1024
    &&& i32::MIN <= center.0 - r
    &&& center.0 + r <= i32::MAX
    &&& i32::MIN <= center.1 - r
    &&& center.1 + r <= i32::MAX
    &&& i32::MIN <= center.2 - r
    &&& center.2 + r <= i32::MAX
}

/// Chunk keys whose offset from `center` lies within radius `r`, in the order
/// a streamer generates them: `y` outermost, then `z`, then `x`.
pub fn desired_chunks_around(center: ChunkKey, r: i32) -> (keys: Vec<ChunkKey>)
    requires
        ball_fits(center, r as int),
    ensures
        keys@ == desired_keys(center, r as int),
{
    let mut keys: Vec<ChunkKey> = Vec::new();
    if r < 0 {
        return keys;
    }
    let ghost w = ball_side(r as int);
    let mut y: i32 = -r;
    assert((y + r) * w * w == 0) by (nonlinear_arith)
        requires
            y + r == 0,
    ;
    while y <= r
        invariant
            0 <= r <= 1024,
            ball_fits(center, r as int),
            w == 2 * r + 1,
            -r <= y <= r + 1,
            keys@ == ball_keys(center, r as int, (y + r) * w * w),
        decreases r + 1 - y,
    {
        let mut z: i32 = -r;
        assert((z + r) * w == 0) by (nonlinear_arith)
            requires
                z + r == 0,
        ;
        while z <= r
            invariant
                0 <= r <= 1024,
                ball_fits(center, r as int),
                w == 2 * r + 1,
                -r <= y <= r,
                -r <= z <= r + 1,
                keys@ == ball_keys(center, r as int, (y + r) * w * w + (z + r) * w),
            decreases r + 1 - z,
        {
            let mut x: i32 = -r;
            while x <= r
                invariant
                    0 <= r <= 1024,
                    ball_fits(center, r as int),
                    w == 2 * r + 1,
                    -r <= y <= r,
                    -r <= z <= r,
                    -r <= x <= r + 1,
                    keys@ == ball_keys(
                        center,
                        r as int,
                        (y + r) * w * w + (z + r) * w + (x + r),
                    ),
                decreases r + 1 - x,
            {
                proof {
                    let n = (y + r) * w * w + (z + r) * w + (x + r);
                    let yy = (y + r) as int;
                    let zz = (z + r) as int;
                    let xx = (x + r) as int;
                    assert(n == (yy * w + zz) * w + xx) by (nonlinear_arith)
                        requires
                            n == yy * w * w + zz * w + xx,
                    ;
                    lemma_fundamental_div_mod_converse(n, w, yy * w + zz, xx);
                    lemma_fundamental_div_mod_converse(yy * w + zz, w, yy, zz);
                    assert(n == yy * (w * w) + (zz * w + xx)) by (nonlinear_arith)
                        requires
                            n == yy * w * w + zz * w + xx,
                    ;
                    assert(0 <= zz * w + xx < w * w) by (nonlinear_arith)
                        requires
                            0 <= zz < w,
                            0 <= xx < w,
                    ;
                    lemma_fundamental_div_mod_converse(n, w * w, yy, zz * w + xx);
                    assert(ball_offset(r as int, n) == (x as int, y as int, z as int));
                    assert(x * x <= 1024 * 1024 && y * y <= 1024 * 1024 && z * z <= 1024 * 1024)
                        by (nonlinear_arith)
                        requires
                            -1024 <= x <= 1024,
                            -1024 <= y <= 1024,
                            -1024 <= z <= 1024,
                    ;
                    assert(r * r <= 1024 * 1024) by (nonlinear_arith)
                        requires
                            0 <= r <= 1024,
                    ;
                    assert(0 <= x * x && 0 <= y * y && 0 <= z * z) by (nonlinear_arith);
                }
                if x * x + y * y + z * z <= r * r {
                    keys.push((center.0 + x, center.1 + y, center.2 + z));
                }
                x = x + 1;
            }
            proof {
                assert((y + r) * w * w + (z + r) * w + w == (y + r) * w * w + (z + 1 + r) * w)
                    by (nonlinear_arith);
            }
            z = z + 1;
        }
        proof {
            assert((y + r) * w * w + w * w == (y + 1 + r) * w * w) by (nonlinear_arith);
            assert((y + r) * w * w + (r + 1 + r) * w == (y + r) * w * w + w * w)
                by (nonlinear_arith)
                requires
                    w == 2 * r + 1,
            ;
        }
        y = y + 1;
    }
    proof {
        assert((r + 1 + r) * w * w == w * w * w) by (nonlinear_arith)
            requires
                w == 2 * r + 1,
        ;
    }
    keys
}

/// The key at offset `d` from `center`.
pub open spec fn key_at(center: ChunkKey, d: (int, int, int)) -> ChunkKey {
    ((center.0 + d.0) as i32, (center.1 + d.1) as i32, (center.2 + d.2) as i32)
}

/// Every component of `d` lies in `[-r, r]`.
pub open spec fn within_cube(d: (int, int, int), r: int) -> bool {
    -r <= d.0 <= r && -r <= d.1 <= r && -r <= d.2 <= r
}

/// Position of the offset `d` among the candidates of radius `r`.
pub open spec fn ball_index(r: int, d: (int, int, int)) -> int {
    let w = ball_side(r);
    (d.1 + r) * w * w + (d.2 + r) * w + (d.0 + r)
}

proof fn lemma_ball_index(r: int, d: (int, int, int))
    requires
        r >= 0,
        within_cube(d, r),
    ensures
        0 <= ball_index(r, d) < ball_side(r) * ball_side(r) * ball_side(r),
        ball_offset(r, ball_index(r, d)) == d,
{
    let w = ball_side(r);
    let n = ball_index(r, d);
    let xx = d.0 + r;
    let yy = d.1 + r;
    let zz = d.2 + r;
    assert(n == (yy * w + zz) * w + xx) by (nonlinear_arith)
        requires
            n == yy * w * w + zz * w + xx,
    ;
    assert(0 <= yy * w + zz) by (nonlinear_arith)
        requires
            0 <= yy,
            0 <= zz,
            0 < w,
    ;
    assert(0 <= zz * w + xx < w * w) by (nonlinear_arith)
        requires
            0 <= zz < w,
            0 <= xx < w,
    ;
    lemma_fundamental_div_mod_converse(n, w, yy * w + zz, xx);
    lemma_fundamental_div_mod_converse(yy * w + zz, w, yy, zz);
    assert(n == yy * (w * w) + (zz * w + xx)) by (nonlinear_arith)
        requires
            n == yy * w * w + zz * w + xx,
    ;
    lemma_fundamental_div_mod_converse(n, w * w, yy, zz * w + xx);
    assert(0 <= n < w * w * w) by (nonlinear_arith)
        requires
            n == yy * (w * w) + (zz * w + xx),
            0 <= yy < w,
            0 <= zz * w + xx < w * w,
    ;
}

proof fn lemma_offset_in_cube(r: int, n: int)
    requires
        r >= 0,
        0 <= n < ball_side(r) * ball_side(r) * ball_side(r),
    ensures
        within_cube(ball_offset(r, n), r),
        ball_index(r, ball_offset(r, n)) == n,
{
    let w = ball_side(r);
    let q = n / w;
    vstd::arithmetic::div_mod::lemma_fundamental_div_mod(n, w);
    vstd::arithmetic::div_mod::lemma_fundamental_div_mod(q, w);
    vstd::arithmetic::div_mod::lemma_div_pos_is_pos(n, w);
    vstd::arithmetic::div_mod::lemma_div_denominator(n, w, w);
    assert(n == (n / (w * w)) * w * w + ((n / w) % w) * w + n % w) by (nonlinear_arith)
        requires
            n == w * q + n % w,
            q == w * (q / w) + q % w,
            q / w == n / (w * w),
            q == n / w,
    ;
    assert(0 <= n / (w * w) < w) by {
        vstd::arithmetic::div_mod::lemma_div_by_multiple_is_strongly_ordered(n, w * w * w, w, w * w);
        assert(w * w * w == w * (w * w)) by (nonlinear_arith);
        vstd::arithmetic::div_mod::lemma_div_multiples_vanish(w, w * w);
        assert(0 <= w * w) by (nonlinear_arith);
        vstd::arithmetic::div_mod::lemma_div_pos_is_pos(n, w * w);
    }
}

proof fn lemma_ball_keys_members(center: ChunkKey, r: int, m: int, d: (int, int, int))
    requires
        r >= 0,
        ball_fits(center, r),
        0 <= m <= ball_side(r) * ball_side(r) * ball_side(r),
        i32::MIN <= center.0 + d.0 <= i32::MAX,
        i32::MIN <= center.1 + d.1 <= i32::MAX,
        i32::MIN <= center.2 + d.2 <= i32::MAX,
    ensures
        ball_keys(center, r, m).contains(key_at(center, d)) <==> within_cube(d, r) && ball_index(r, d)
            < m && in_ball(d, r),
    decreases m,
{
    let k = key_at(center, d);
    if m == 0 {
        if within_cube(d, r) {
            lemma_ball_index(r, d);
        }
    } else {
        lemma_ball_keys_members(center, r, m - 1, d);
        let o = ball_offset(r, m - 1);
        lemma_offset_in_cube(r, m - 1);
        lemma_ball_index(r, o);
        let rest = ball_keys(center, r, m - 1);
        let here = within_cube(d, r) && ball_index(r, d) < m && in_ball(d, r);
        let before = within_cube(d, r) && ball_index(r, d) < m - 1 && in_ball(d, r);
        if within_cube(d, r) {
            lemma_ball_index(r, d);
            if ball_index(r, d) == m - 1 {
                assert(o == d);
            }
        }
        assert(here <==> before || (within_cube(d, r) && ball_index(r, d) == m - 1 && in_ball(d, r)));
        if in_ball(o, r) {
            let ko = key_at(center, o);
            assert(ball_keys(center, r, m) == rest.push(ko));
            assert(ko == k <==> o == d) by {
                if ko == k {
                    assert(center.0 + o.0 == center.0 + d.0);
                    assert(center.1 + o.1 == center.1 + d.1);
                    assert(center.2 + o.2 == center.2 + d.2);
                }
            }
            assert(o == d ==> within_cube(d, r) && ball_index(r, d) == m - 1);
            if rest.push(ko).contains(k) {
                let i = choose|i: int| 0 <= i < rest.len() + 1 && rest.push(ko)[i] == k;
                if i < rest.len() {
                    assert(rest[i] == k);
                    assert(rest.contains(k));
                } else {
                    assert(ko == k);
                }
            }
            if rest.contains(k) {
                let i = choose|i: int| 0 <= i < rest.len() && rest[i] == k;
                assert(rest.push(ko)[i] == k);
            }
            if ko == k {
                assert(rest.push(ko)[rest.len() as int] == k);
            }
        } else {
            assert(ball_keys(center, r, m) == rest);
        }
    }
}

/// The streaming ball around `center` holds exactly the chunks whose offset
/// `(dx, dy, dz)` from the centre has `dx² + dy² + dz² <= r²`: every chunk
/// of the sphere is streamed, and none outside it.
pub proof fn desired_chunks_are_the_sphere(center: ChunkKey, r: int, d: (int, int, int))
    requires
        r >= 0,
        ball_fits(center, r),
        i32::MIN <= center.0 + d.0 <= i32::MAX,
        i32::MIN <= center.1 + d.1 <= i32::MAX,
        i32::MIN <= center.2 + d.2 <= i32::MAX,
    ensures
        desired_keys(center, r).contains(key_at(center, d)) <==> d.0 * d.0 + d.1 * d.1 + d.2 * d.2
            <= r * r,
{
    let w = ball_side(r);
    lemma_ball_keys_members(center, r, w * w * w, d);
    if d.0 * d.0 + d.1 * d.1 + d.2 * d.2 <= r * r {
        assert(within_cube(d, r)) by (nonlinear_arith)
            requires
                d.0 * d.0 + d.1 * d.1 + d.2 * d.2 <= r * r,
                r >= 0,
        ;
        lemma_ball_index(r, d);
    }
}

/// Chunks a streamer has loaded, each once, in the order they were loaded.
pub struct ChunkStreamer {
    radius_chunks: i32,
    loaded: Vec<ChunkKey>,
}

impl View for ChunkStreamer {
    type V = Seq<ChunkKey>;

    closed spec fn view(&self) -> Seq<ChunkKey> {
        self.loaded@
    }
}

fn find_key(keys: &Vec<ChunkKey>, key: ChunkKey) -> (r: bool)
    ensures
        r == keys@.contains(key),
{
    let mut i: usize = 0;
    while i < keys.len()
        invariant
            i <= keys@.len(),
            forall|j: int| 0 <= j < i ==> keys@[j] != key,
        decreases keys@.len() - i,
    {
        let k = keys[i];
        if k.0 == key.0 && k.1 == key.1 && k.2 == key.2 {
            return true;
        }
        i = i + 1;
    }
    false
}

impl ChunkStreamer {
    pub open spec fn wf(&self) -> bool {
        self@.no_duplicates()
    }

    /// Streaming radius, in chunks.
    pub closed spec fn radius(&self) -> i32 {
        self.radius_chunks
    }

    pub fn radius_chunks(&self) -> (r: i32)
        ensures
            r == self.radius(),
    {
        self.radius_chunks
    }

    pub fn new(radius_chunks: i32) -> (s: Self)
        ensures
            s.wf(),
            s.radius() == radius_chunks,
            s@ == Seq::<ChunkKey>::empty(),
    {
        ChunkStreamer { radius_chunks, loaded: Vec::new() }
    }

    pub fn mark_loaded(&mut self, key: ChunkKey)
        requires
            old(self).wf(),
        ensures
            final(self).wf(),
            final(self).radius() == old(self).radius(),
            final(self)@ == (if old(self)@.contains(key) {
                old(self)@
            } else {
                old(self)@.push(key)
            }),
    {
        if !find_key(&self.loaded, key) {
            self.loaded.push(key);
        }
    }

    pub fn is_loaded(&self, key: ChunkKey) -> (b: bool)
        ensures
            b == self@.contains(key),
    {
        find_key(&self.loaded, key)
    }

    /// Forget every loaded chunk that is not desired, and return those keys.
    pub fn unload_outside(&mut self, desired: &Vec<ChunkKey>) -> (removed: Vec<ChunkKey>)
        requires
            old(self).wf(),
        ensures
            final(self).wf(),
            final(self).radius() == old(self).radius(),
            removed@ == old(self)@.filter(|k: ChunkKey| !desired@.contains(k)),
            final(self)@ == old(self)@.filter(|k: ChunkKey| desired@.contains(k)),
    {
        let ghost keep = |k: ChunkKey| desired@.contains(k);
        let ghost drop = |k: ChunkKey| !desired@.contains(k);
        let mut kept: Vec<ChunkKey> = Vec::new();
        let mut removed: Vec<ChunkKey> = Vec::new();
        let mut i: usize = 0;
        while i < self.loaded.len()
            invariant
                i <= self@.len(),
                self@ == old(self)@,
                self.radius_chunks == old(self).radius_chunks,
                keep == (|k: ChunkKey| desired@.contains(k)),
                drop == (|k: ChunkKey| !desired@.contains(k)),
                kept@ == self@.take(i as int).filter(keep),
                removed@ == self@.take(i as int).filter(drop),
            decreases self@.len() - i,
        {
            let k = self.loaded[i];
            proof {
                reveal_with_fuel(Seq::filter, 1);
                assert(self@.take(i + 1).drop_last() =~= self@.take(i as int));
            }
            if find_key(desired, k) {
                kept.push(k);
            } else {
                removed.push(k);
            }
            i = i + 1;
        }
        proof {
            assert(self@.take(i as int) =~= self@);
            lemma_filter_no_duplicates(old(self)@, keep);
        }
        self.loaded = kept;
        removed
    }
}

} // verus!
