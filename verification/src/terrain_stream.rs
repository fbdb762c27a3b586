//! The plan that keeps a ring of heightfield chunks loaded around a focus.
//!
//! Chunks are built in the background and uploaded a few per frame, nearest
//! first, so one frame never stalls on a whole ring. This module decides,
//! each frame, which loaded chunks fell out of the ring, whether the focus
//! chunk must be built at once, which finished chunks to upload or keep
//! queued, and which columns to start building; the caller builds the
//! meshes, runs the background jobs and performs the uploads.
use vstd::prelude::*;
use vstd::set_lib::{lemma_int_range, lemma_len_subset, set_int_range};
use crate::filtering::{lemma_filter_contains_iff, lemma_filter_no_duplicates};

verus! {

broadcast use vstd::seq_lib::seq_to_set_is_finite;

/// A heightfield column: chunk coordinates along x and z.
pub type ColumnKey = (i32, i32);

pub open spec fn abs_of(v: int) -> int {
    if v < 0 {
        -v
    } else {
        v
    }
}

/// Chunks between `k` and the centre `c`, walking along the axes.
pub open spec fn manhattan(k: ColumnKey, c: ColumnKey) -> int {
    abs_of(k.0 - c.0) + abs_of(k.1 - c.1)
}

/// Entry `i` of `keys` comes before entry `j`: it is nearer to `c`, or as
/// near and earlier.
pub open spec fn comes_before(keys: Seq<ColumnKey>, c: ColumnKey, i: int, j: int) -> bool {
    ||| manhattan(keys[i], c) < manhattan(keys[j], c)
    ||| manhattan(keys[i], c) == manhattan(keys[j], c) && i < j
}

/// `order` lists every position of `keys` once, nearest to `c` first and
/// equally near ones in the order they were given.
pub open spec fn by_distance(keys: Seq<ColumnKey>, c: ColumnKey, order: Seq<usize>) -> bool {
    &&& order.len() == keys.len()
    &&& order.no_duplicates()
    &&& forall|a: int| 0 <= a < order.len() ==> #[trigger] order[a] < keys.len()
    &&& forall|a: int, b: int|
        0 <= a < b < order.len() ==> comes_before(keys, c, #[trigger] order[a] as int, #[trigger] order[b] as int)
}

/// A sequence without duplicates that holds every index below `n` is at
/// least `n` long.
proof fn lemma_covering_is_long(s: Seq<usize>, n: nat)
    requires
        n <= usize::MAX,
        forall|i: int| 0 <= i < n ==> #[trigger] s.contains(i as usize),
    ensures
        s.len() >= n,
{
    let t = s.map_values(|x: usize| x as int);
    lemma_int_range(0, n as int);
    assert forall|i: int| #[trigger] set_int_range(0, n as int).contains(i) implies t.to_set().contains(i) by {
        assert(s.contains(i as usize));
        let k = choose|k: int| 0 <= k < s.len() && s[k] == i as usize;
        assert(t[k] == i);
    }
    lemma_len_subset(set_int_range(0, n as int), t.to_set());
    t.lemma_cardinality_of_set();
}

/// `|k.0 - c.0| + |k.1 - c.1|` without overflow.
fn manhattan_of(k: ColumnKey, c: ColumnKey) -> (d: i64)
    ensures
        d == manhattan(k, c),
{
    let dx: i64 = k.0 as i64 - c.0 as i64;
    let dz: i64 = k.1 as i64 - c.1 as i64;
    let ax: i64 = if dx < 0 {
        -dx
    } else {
        dx
    };
    let az: i64 = if dz < 0 {
        -dz
    } else {
        dz
    };
    ax + az
}

/// The positions of `keys`, nearest to `c` first; equally near ones keep
/// their order.
pub fn order_by_distance(keys: &Vec<ColumnKey>, c: ColumnKey) -> (order: Vec<usize>)
    ensures
        by_distance(keys@, c, order@),
{
    let n = keys.len();
    let mut dist: Vec<i64> = Vec::new();
    let mut chosen: Vec<bool> = Vec::new();
    let mut i: usize = 0;
    while i < n
        invariant
            n == keys@.len(),
            i <= n,
            dist@.len() == i,
            chosen@.len() == i,
            forall|j: int| 0 <= j < i ==> #[trigger] dist@[j] == manhattan(keys@[j], c),
            forall|j: int| 0 <= j < i ==> !#[trigger] chosen@[j],
        decreases n - i,
    {
        dist.push(manhattan_of(keys[i], c));
        chosen.push(false);
        i = i + 1;
    }
    let mut order: Vec<usize> = Vec::new();
    while order.len() < n
        invariant
            n == keys@.len(),
            dist@.len() == n,
            chosen@.len() == n,
            forall|j: int| 0 <= j < n ==> #[trigger] dist@[j] == manhattan(keys@[j], c),
            order@.no_duplicates(),
            order@.len() <= n,
            forall|a: int| 0 <= a < order@.len() ==> #[trigger] order@[a] < n,
            forall|j: int| 0 <= j < n ==> (#[trigger] chosen@[j] <==> order@.contains(j as usize)),
            forall|a: int, b: int|
                0 <= a < b < order@.len() ==> comes_before(keys@, c, #[trigger] order@[a] as int, #[trigger] order@[b] as int),
            forall|a: int, j: int|
                0 <= a < order@.len() && 0 <= j < n && !#[trigger] chosen@[j] ==> comes_before(keys@, c, #[trigger] order@[a] as int, j),
        decreases n - order@.len(),
    {
        let mut best: usize = n;
        let mut j: usize = 0;
        while j < n
            invariant
                n == keys@.len(),
                dist@.len() == n,
                chosen@.len() == n,
                forall|k: int| 0 <= k < n ==> #[trigger] dist@[k] == manhattan(keys@[k], c),
                j <= n,
                best <= n,
                best == n ==> forall|k: int| 0 <= k < j ==> #[trigger] chosen@[k],
                best < n ==> best < j && !chosen@[best as int],
                best < n ==> forall|k: int|
                    0 <= k < j && !#[trigger] chosen@[k] && k != best ==> comes_before(keys@, c, best as int, k),
            decreases n - j,
        {
            let ghost old_best = best;
            if !chosen[j] && (best == n || dist[j] < dist[best]) {
                best = j;
            }
            proof {
                if best < n {
                    assert forall|k: int| 0 <= k < j + 1 && !#[trigger] chosen@[k] && k != best implies comes_before(keys@, c, best as int, k) by {
                        assert(dist@[k] == manhattan(keys@[k], c));
                        assert(dist@[best as int] == manhattan(keys@[best as int], c));
                        if old_best < n {
                            assert(dist@[old_best as int] == manhattan(keys@[old_best as int], c));
                        }
                    }
                }
            }
            j = j + 1;
        }
        if best == n {
            proof {
                assert forall|k: int| 0 <= k < n implies #[trigger] order@.contains(k as usize) by {
                    assert(chosen@[k]);
                }
                lemma_covering_is_long(order@, n as nat);
            }
        }
        assert(best < n);
        proof {
            assert(!order@.contains(best));
        }
        let ghost before = order@;
        chosen.set(best, true);
        order.push(best);
        proof {
            let o = order@;
            assert(o == before.push(best));
            assert forall|k: int| 0 <= k < n implies (#[trigger] chosen@[k] <==> o.contains(k as usize)) by {
                if k == best as int {
                    assert(o[o.len() - 1] == best);
                } else {
                    if before.contains(k as usize) {
                        let m = choose|m: int| 0 <= m < before.len() && before[m] == k as usize;
                        assert(o[m] == k as usize);
                    }
                    if o.contains(k as usize) {
                        let m = choose|m: int| 0 <= m < o.len() && o[m] == k as usize;
                        assert(m < before.len());
                        assert(before[m] == k as usize);
                    }
                }
            }
            assert forall|a: int, b: int| 0 <= a < b < o.len() implies comes_before(keys@, c, #[trigger] o[a] as int, #[trigger] o[b] as int) by {
                if b == o.len() - 1 {
                    assert(o[a] == before[a]);
                }
            }
            assert forall|a: int, k: int| 0 <= a < o.len() && 0 <= k < n && !#[trigger] chosen@[k] implies comes_before(keys@, c, #[trigger] o[a] as int, k) by {
                if a == o.len() - 1 {
                    assert(k != best as int);
                } else {
                    assert(o[a] == before[a]);
                }
            }
        }
    }
    order
}

/// `k` lies within the square of Chebyshev radius `r` around `c`.
pub open spec fn in_ring(k: ColumnKey, c: ColumnKey, r: int) -> bool {
    abs_of(k.0 - c.0) <= r && abs_of(k.1 - c.1) <= r
}

/// Every column of the ring around `c` stays inside `i32`.
pub open spec fn ring_fits(c: ColumnKey, r: int) -> bool {
    r >= 0 ==> {
        &&& r < i32::MAX
        &&& i32::MIN <= c.0 - r
        &&& c.0 + r <= i32::MAX
        &&& i32::MIN <= c.1 - r
        &&& c.1 + r <= i32::MAX
    }
}

/// Row `dz` of the ring: `x` from `c.0 - r` to `c.0 + r` at `z = c.1 + dz`.
pub open spec fn ring_row(c: ColumnKey, r: int, dz: int) -> Seq<ColumnKey> {
    Seq::new((2 * r + 1) as nat, |i: int| ((c.0 - r + i) as i32, (c.1 + dz) as i32))
}

/// The first `m` rows of the ring, nearest `-z` first.
pub open spec fn ring_rows_upto(c: ColumnKey, r: int, m: int) -> Seq<ColumnKey>
    decreases m,
{
    if m <= 0 {
        Seq::empty()
    } else {
        ring_rows_upto(c, r, m - 1) + ring_row(c, r, m - 1 - r)
    }
}

/// The ring's columns row by row: `z` outer, `x` inner. Empty for a
/// negative radius.
pub open spec fn ring_rows(c: ColumnKey, r: int) -> Seq<ColumnKey> {
    if r < 0 {
        Seq::empty()
    } else {
        ring_rows_upto(c, r, 2 * r + 1)
    }
}

/// Column `dx` of the ring: `z` from `c.1 - r` to `c.1 + r` at `x = c.0 + dx`.
pub open spec fn ring_col(c: ColumnKey, r: int, dx: int) -> Seq<ColumnKey> {
    Seq::new((2 * r + 1) as nat, |i: int| ((c.0 + dx) as i32, (c.1 - r + i) as i32))
}

/// The first `m` columns of the ring.
pub open spec fn ring_cols_upto(c: ColumnKey, r: int, m: int) -> Seq<ColumnKey>
    decreases m,
{
    if m <= 0 {
        Seq::empty()
    } else {
        ring_cols_upto(c, r, m - 1) + ring_col(c, r, m - 1 - r)
    }
}

/// The ring's columns in key order: `x` outer, `z` inner.
pub open spec fn ring_cols(c: ColumnKey, r: int) -> Seq<ColumnKey> {
    if r < 0 {
        Seq::empty()
    } else {
        ring_cols_upto(c, r, 2 * r + 1)
    }
}

/// The first `m` rows hold distinct columns, each in the ring and in a row
/// below `m`.
proof fn lemma_rows_distinct(c: ColumnKey, r: int, m: int)
    requires
        r >= 0,
        0 <= m <= 2 * r + 1,
        ring_fits(c, r),
    ensures
        ring_rows_upto(c, r, m).no_duplicates(),
        ring_rows_upto(c, r, m).len() == m * (2 * r + 1),
        forall|i: int| 0 <= i < ring_rows_upto(c, r, m).len() ==> {
            let k = #[trigger] ring_rows_upto(c, r, m)[i];
            &&& in_ring(k, c, r)
            &&& k.1 < c.1 - r + m
        },
    decreases m,
{
    if m > 0 {
        lemma_rows_distinct(c, r, m - 1);
        let a = ring_rows_upto(c, r, m - 1);
        let b = ring_row(c, r, m - 1 - r);
        let s = ring_rows_upto(c, r, m);
        assert(s == a + b);
        assert((m - 1) * (2 * r + 1) + (2 * r + 1) == m * (2 * r + 1)) by (nonlinear_arith);
        assert forall|i: int, j: int| 0 <= i < j < s.len() implies s[i] != s[j] by {
            if j >= a.len() && i < a.len() {
                assert(s[j] == b[j - a.len()]);
                assert(s[i] == a[i]);
            } else if i >= a.len() {
                assert(s[i] == b[i - a.len()]);
                assert(s[j] == b[j - a.len()]);
            } else {
                assert(s[i] == a[i]);
                assert(s[j] == a[j]);
            }
        }
        assert forall|i: int| 0 <= i < s.len() implies {
            let k = #[trigger] s[i];
            &&& in_ring(k, c, r)
            &&& k.1 < c.1 - r + m
        } by {
            if i < a.len() {
                assert(s[i] == a[i]);
            } else {
                assert(s[i] == b[i - a.len()]);
            }
        }
    }
}

/// The first `m` columns hold distinct keys, each in the ring and in a
/// column below `m`.
proof fn lemma_cols_distinct(c: ColumnKey, r: int, m: int)
    requires
        r >= 0,
        0 <= m <= 2 * r + 1,
        ring_fits(c, r),
    ensures
        ring_cols_upto(c, r, m).no_duplicates(),
        forall|i: int| 0 <= i < ring_cols_upto(c, r, m).len() ==> {
            let k = #[trigger] ring_cols_upto(c, r, m)[i];
            &&& in_ring(k, c, r)
            &&& k.0 < c.0 - r + m
        },
    decreases m,
{
    if m > 0 {
        lemma_cols_distinct(c, r, m - 1);
        let a = ring_cols_upto(c, r, m - 1);
        let b = ring_col(c, r, m - 1 - r);
        let s = ring_cols_upto(c, r, m);
        assert(s == a + b);
        assert forall|i: int, j: int| 0 <= i < j < s.len() implies s[i] != s[j] by {
            if j >= a.len() && i < a.len() {
                assert(s[j] == b[j - a.len()]);
                assert(s[i] == a[i]);
            } else if i >= a.len() {
                assert(s[i] == b[i - a.len()]);
                assert(s[j] == b[j - a.len()]);
            } else {
                assert(s[i] == a[i]);
                assert(s[j] == a[j]);
            }
        }
        assert forall|i: int| 0 <= i < s.len() implies {
            let k = #[trigger] s[i];
            &&& in_ring(k, c, r)
            &&& k.0 < c.0 - r + m
        } by {
            if i < a.len() {
                assert(s[i] == a[i]);
            } else {
                assert(s[i] == b[i - a.len()]);
            }
        }
    }
}

/// The upload pass only appends to the loaded columns, appends only ring
/// columns, one per upload, and uploads at most up to the budget.
proof fn lemma_walk_facts(
    queue: Seq<ColumnKey>,
    order: Seq<usize>,
    p: int,
    loaded: Seq<ColumnKey>,
    upload: Seq<usize>,
    keep: Seq<usize>,
    budget: int,
    c: ColumnKey,
    r: int,
)
    requires
        0 <= p,
    ensures
        ({
            let w = upload_walk(queue, order, p, loaded, upload, keep, budget, c, r);
            &&& w.0.len() - loaded.len() == w.1.len() - upload.len()
            &&& w.1.len() >= upload.len()
            &&& w.0.subrange(0, loaded.len() as int) == loaded
            &&& forall|i: int| loaded.len() <= i < w.0.len() ==> in_ring(#[trigger] w.0[i], c, r)
            &&& w.1.len() <= if upload.len() < budget {
                budget
            } else {
                upload.len() as int
            }
        }),
    decreases order.len() - p,
{
    if p < order.len() {
        let i = order[p];
        let k = queue[i as int];
        if !in_ring(k, c, r) || loaded.contains(k) {
            lemma_walk_facts(queue, order, p + 1, loaded, upload, keep, budget, c, r);
        } else if upload.len() < budget {
            lemma_walk_facts(queue, order, p + 1, loaded.push(k), upload.push(i), keep, budget, c, r);
            let w = upload_walk(queue, order, p, loaded, upload, keep, budget, c, r);
            assert(w.0.subrange(0, loaded.len() as int) =~= w.0.subrange(0, loaded.len() as int + 1).subrange(0, loaded.len() as int));
            assert(w.0.subrange(0, loaded.len() as int + 1) == loaded.push(k));
            assert(w.0[loaded.len() as int] == loaded.push(k)[loaded.len() as int]);
        } else {
            lemma_walk_facts(queue, order, p + 1, loaded, upload, keep.push(i), budget, c, r);
        }
    } else {
        assert(loaded.subrange(0, loaded.len() as int) =~= loaded);
    }
}

/// Every column of the ring is among its first `m` columns once its `x`
/// is below the `m`-th.
proof fn lemma_cols_complete(c: ColumnKey, r: int, m: int, k: ColumnKey)
    requires
        r >= 0,
        0 <= m <= 2 * r + 1,
        ring_fits(c, r),
        in_ring(k, c, r),
        k.0 < c.0 - r + m,
    ensures
        ring_cols_upto(c, r, m).contains(k),
    decreases m,
{
    let a = ring_cols_upto(c, r, m - 1);
    let b = ring_col(c, r, m - 1 - r);
    let s = ring_cols_upto(c, r, m);
    assert(s == a + b);
    if k.0 < c.0 - r + m - 1 {
        lemma_cols_complete(c, r, m - 1, k);
        let i = choose|i: int| 0 <= i < a.len() && a[i] == k;
        assert(s[i] == k);
    } else {
        let j = k.1 - c.1 + r;
        assert(b[j] == k);
        assert(s[a.len() + j] == k);
    }
}

proof fn lemma_cols_len(c: ColumnKey, r: int, m: int)
    requires
        r >= 0,
        0 <= m,
    ensures
        ring_cols_upto(c, r, m).len() == m * (2 * r + 1),
    decreases m,
{
    if m > 0 {
        lemma_cols_len(c, r, m - 1);
        assert(ring_cols_upto(c, r, m) == ring_cols_upto(c, r, m - 1) + ring_col(c, r, m - 1 - r));
        assert(ring_col(c, r, m - 1 - r).len() == 2 * r + 1);
        assert((m - 1) * (2 * r + 1) + (2 * r + 1) == m * (2 * r + 1)) by (nonlinear_arith);
    } else {
        assert(m * (2 * r + 1) == 0) by (nonlinear_arith)
            requires
                m == 0,
        ;
    }
}

/// Columns held once each, exactly those of the ring of radius `r` around
/// `c` (as a blocking sync leaves them), are the whole `(2r + 1)` by
/// `(2r + 1)` square of columns `c.0 - r ..= c.0 + r` by `c.1 - r ..= c.1 + r`,
/// and no other column.
pub proof fn ring_is_the_whole_square(loaded: Seq<ColumnKey>, c: ColumnKey, r: int)
    requires
        r >= 0,
        ring_fits(c, r),
        loaded.no_duplicates(),
        forall|k: ColumnKey| #[trigger] loaded.contains(k) <==> in_ring(k, c, r),
    ensures
        loaded.len() == (2 * r + 1) * (2 * r + 1),
        forall|k: ColumnKey|
            #[trigger] loaded.contains(k) <==> c.0 - r <= k.0 <= c.0 + r && c.1 - r <= k.1 <= c.1 + r,
{
    let w = 2 * r + 1;
    let cols = ring_cols(c, r);
    lemma_cols_distinct(c, r, w);
    lemma_cols_len(c, r, w);
    assert forall|k: ColumnKey| #[trigger] loaded.to_set().contains(k) <==> cols.to_set().contains(k) by {
        if in_ring(k, c, r) {
            lemma_cols_complete(c, r, w, k);
        }
        if cols.contains(k) {
            let i = choose|i: int| 0 <= i < cols.len() && cols[i] == k;
            assert(in_ring(cols[i], c, r));
        }
    }
    assert(loaded.to_set() =~= cols.to_set());
    loaded.unique_seq_to_set();
    cols.unique_seq_to_set();
}

/// Whether `k` lies in the ring of radius `r` around `c`.
pub fn column_in_ring(k: ColumnKey, c: ColumnKey, r: i32) -> (b: bool)
    ensures
        b == in_ring(k, c, r as int),
{
    let dx: i64 = k.0 as i64 - c.0 as i64;
    let dz: i64 = k.1 as i64 - c.1 as i64;
    let ax: i64 = if dx < 0 {
        -dx
    } else {
        dx
    };
    let az: i64 = if dz < 0 {
        -dz
    } else {
        dz
    };
    ax <= r as i64 && az <= r as i64
}

/// The ring's columns row by row, `z` outer and `x` inner.
pub fn ring_by_rows(c: ColumnKey, r: i32) -> (keys: Vec<ColumnKey>)
    requires
        ring_fits(c, r as int),
    ensures
        keys@ == ring_rows(c, r as int),
{
    let mut keys: Vec<ColumnKey> = Vec::new();
    if r < 0 {
        return keys;
    }
    let mut dz: i32 = -r;
    while dz <= r
        invariant
            r >= 0,
            ring_fits(c, r as int),
            -r <= dz <= r + 1,
            keys@ == ring_rows_upto(c, r as int, dz + r),
        decreases r + 1 - dz,
    {
        let ghost before = keys@;
        let mut dx: i32 = -r;
        while dx <= r
            invariant
                r >= 0,
                ring_fits(c, r as int),
                -r <= dz <= r,
                -r <= dx <= r + 1,
                keys@ == before + ring_row(c, r as int, dz as int).take(dx + r),
            decreases r + 1 - dx,
        {
            proof {
                assert(ring_row(c, r as int, dz as int).take(dx + r + 1) =~= ring_row(c, r as int, dz as int).take(dx + r).push(((c.0 + dx) as i32, (c.1 + dz) as i32)));
            }
            keys.push((c.0 + dx, c.1 + dz));
            dx = dx + 1;
        }
        proof {
            assert(ring_row(c, r as int, dz as int).take(2 * r + 1) =~= ring_row(c, r as int, dz as int));
            assert(ring_rows_upto(c, r as int, dz + r + 1) == ring_rows_upto(c, r as int, dz + r) + ring_row(c, r as int, dz as int));
        }
        dz = dz + 1;
    }
    keys
}

/// The ring's columns in key order, `x` outer and `z` inner.
pub fn ring_by_columns(c: ColumnKey, r: i32) -> (keys: Vec<ColumnKey>)
    requires
        ring_fits(c, r as int),
    ensures
        keys@ == ring_cols(c, r as int),
{
    let mut keys: Vec<ColumnKey> = Vec::new();
    if r < 0 {
        return keys;
    }
    let mut dx: i32 = -r;
    while dx <= r
        invariant
            r >= 0,
            ring_fits(c, r as int),
            -r <= dx <= r + 1,
            keys@ == ring_cols_upto(c, r as int, dx + r),
        decreases r + 1 - dx,
    {
        let ghost before = keys@;
        let mut dz: i32 = -r;
        while dz <= r
            invariant
                r >= 0,
                ring_fits(c, r as int),
                -r <= dx <= r,
                -r <= dz <= r + 1,
                keys@ == before + ring_col(c, r as int, dx as int).take(dz + r),
            decreases r + 1 - dz,
        {
            proof {
                assert(ring_col(c, r as int, dx as int).take(dz + r + 1) =~= ring_col(c, r as int, dx as int).take(dz + r).push(((c.0 + dx) as i32, (c.1 + dz) as i32)));
            }
            keys.push((c.0 + dx, c.1 + dz));
            dz = dz + 1;
        }
        proof {
            assert(ring_col(c, r as int, dx as int).take(2 * r + 1) =~= ring_col(c, r as int, dx as int));
            assert(ring_cols_upto(c, r as int, dx + r + 1) == ring_cols_upto(c, r as int, dx + r) + ring_col(c, r as int, dx as int));
        }
        dx = dx + 1;
    }
    keys
}

/// Columns inside the ring.
pub open spec fn within(c: ColumnKey, r: int) -> spec_fn(ColumnKey) -> bool {
    |k: ColumnKey| in_ring(k, c, r)
}

/// Columns outside the ring.
pub open spec fn outside(c: ColumnKey, r: int) -> spec_fn(ColumnKey) -> bool {
    |k: ColumnKey| !in_ring(k, c, r)
}

/// Columns not in `s`.
pub open spec fn not_in(s: Seq<ColumnKey>) -> spec_fn(ColumnKey) -> bool {
    |k: ColumnKey| !s.contains(k)
}

/// Columns neither loaded nor being built.
pub open spec fn missing_from(loaded: Seq<ColumnKey>, inflight: Seq<ColumnKey>) -> spec_fn(
    ColumnKey,
) -> bool {
    |k: ColumnKey| !loaded.contains(k) && !inflight.contains(k)
}

/// The upload pass over a ready `queue` visited in `order`, from position `p`
/// on: an entry whose column left the ring or is already loaded is dropped;
/// otherwise it is uploaded while fewer than `budget` were, and kept queued
/// after that. Gives the loaded columns, the uploaded positions and the kept
/// positions.
pub open spec fn upload_walk(
    queue: Seq<ColumnKey>,
    order: Seq<usize>,
    p: int,
    loaded: Seq<ColumnKey>,
    upload: Seq<usize>,
    keep: Seq<usize>,
    budget: int,
    c: ColumnKey,
    r: int,
) -> (Seq<ColumnKey>, Seq<usize>, Seq<usize>)
    decreases order.len() - p,
{
    if p < 0 || p >= order.len() {
        (loaded, upload, keep)
    } else {
        let i = order[p];
        let k = queue[i as int];
        if !in_ring(k, c, r) || loaded.contains(k) {
            upload_walk(queue, order, p + 1, loaded, upload, keep, budget, c, r)
        } else if upload.len() < budget {
            upload_walk(queue, order, p + 1, loaded.push(k), upload.push(i), keep, budget, c, r)
        } else {
            upload_walk(queue, order, p + 1, loaded, upload, keep.push(i), budget, c, r)
        }
    }
}

/// The column at each queue position.
pub open spec fn column_at(queue: Seq<ColumnKey>) -> spec_fn(usize) -> ColumnKey {
    |i: usize| queue[i as int]
}

/// The first `n` entries of `keys` taken in `order`.
pub open spec fn take_in_order(keys: Seq<ColumnKey>, order: Seq<usize>, n: int) -> Seq<ColumnKey> {
    Seq::new(n as nat, |j: int| keys[order[j] as int])
}

/// `start` is the nearest `budget` of the `missing` columns, nearest first,
/// and they join the columns being built.
pub open spec fn jobs_planned(
    missing: Seq<ColumnKey>,
    c: ColumnKey,
    budget: int,
    start: Seq<ColumnKey>,
    inflight_before: Seq<ColumnKey>,
    inflight_after: Seq<ColumnKey>,
) -> bool {
    exists|order: Seq<usize>|
        #[trigger] by_distance(missing, c, order) && start == take_in_order(
            missing,
            order,
            if budget < missing.len() {
                budget
            } else {
                missing.len() as int
            },
        ) && inflight_after == inflight_before + start
}

/// The ready `queue` is walked nearest first by the upload pass from
/// `loaded`, giving the uploads, the kept entries and the loaded columns
/// after it; then the missing ring columns are planned as jobs.
pub open spec fn uploads_planned(
    queue: Seq<ColumnKey>,
    c: ColumnKey,
    r: int,
    loaded: Seq<ColumnKey>,
    upload_budget: int,
    upload: Seq<usize>,
    keep: Seq<usize>,
    loaded_after: Seq<ColumnKey>,
    ready_after: Seq<ColumnKey>,
    inflight: Seq<ColumnKey>,
    job_budget: int,
    start: Seq<ColumnKey>,
    inflight_after: Seq<ColumnKey>,
) -> bool {
    exists|order: Seq<usize>|
        #[trigger] by_distance(queue, c, order) && {
            let w = upload_walk(queue, order, 0, loaded, Seq::empty(), Seq::empty(), upload_budget, c, r);
            &&& upload == w.1
            &&& keep == w.2
            &&& loaded_after == w.0
            &&& ready_after == w.2.map_values(column_at(queue))
            &&& jobs_planned(
                ring_rows(c, r).filter(missing_from(w.0, inflight)),
                c,
                job_budget,
                start,
                inflight,
                inflight_after,
            )
        }
}

/// What one frame of streaming asks of the caller, in order.
pub struct SyncPlan {
    /// Loaded columns that left the ring: clear their chunks.
    pub stale: Vec<ColumnKey>,
    /// The focus column, when it is not loaded: build and upload it now.
    pub build_now: Option<ColumnKey>,
    /// Positions in the ready queue (with this frame's arrivals appended) to
    /// upload, in this order.
    pub upload: Vec<usize>,
    /// Positions in that queue that stay queued, in their new order; the
    /// others are dropped.
    pub keep: Vec<usize>,
    /// Columns to start building in the background, nearest first.
    pub start: Vec<ColumnKey>,
}

/// What a blocking fill asks of the caller.
pub struct BlockingPlan {
    /// Loaded columns that left the ring: clear their chunks.
    pub stale: Vec<ColumnKey>,
    /// Columns to build and upload now, in key order.
    pub build: Vec<ColumnKey>,
}

/// The loaded, building and finished columns of a streamed heightfield ring.
pub struct TerrainStream {
    radius: i32,
    max_jobs_per_frame: usize,
    max_uploads_per_frame: usize,
    loaded: Vec<ColumnKey>,
    inflight: Vec<ColumnKey>,
    ready: Vec<ColumnKey>,
}

fn contains_column(keys: &Vec<ColumnKey>, k: ColumnKey) -> (b: bool)
    ensures
        b == keys@.contains(k),
{
    let mut i: usize = 0;
    while i < keys.len()
        invariant
            i <= keys@.len(),
            forall|j: int| 0 <= j < i ==> keys@[j] != k,
        decreases keys@.len() - i,
    {
        if keys[i].0 == k.0 && keys[i].1 == k.1 {
            assert(keys@[i as int] == k);
            return true;
        }
        i = i + 1;
    }
    false
}

/// Split `keys` into those inside the ring and those outside, each in order.
fn split_by_ring(keys: &Vec<ColumnKey>, c: ColumnKey, r: i32) -> (out: (Vec<ColumnKey>, Vec<ColumnKey>))
    ensures
        out.0@ == keys@.filter(within(c, r as int)),
        out.1@ == keys@.filter(outside(c, r as int)),
{
    let mut inside: Vec<ColumnKey> = Vec::new();
    let mut gone: Vec<ColumnKey> = Vec::new();
    let mut i: usize = 0;
    while i < keys.len()
        invariant
            i <= keys@.len(),
            inside@ == keys@.take(i as int).filter(within(c, r as int)),
            gone@ == keys@.take(i as int).filter(outside(c, r as int)),
        decreases keys@.len() - i,
    {
        proof {
            reveal_with_fuel(Seq::filter, 1);
            assert(keys@.take(i + 1).drop_last() =~= keys@.take(i as int));
        }
        let k = keys[i];
        if column_in_ring(k, c, r) {
            inside.push(k);
        } else {
            gone.push(k);
        }
        i = i + 1;
    }
    assert(keys@.take(i as int) =~= keys@);
    (inside, gone)
}

/// `keys` without the columns of `remove`.
fn without_columns(keys: &Vec<ColumnKey>, remove: &Vec<ColumnKey>) -> (out: Vec<ColumnKey>)
    ensures
        out@ == keys@.filter(not_in(remove@)),
{
    let mut out: Vec<ColumnKey> = Vec::new();
    let mut i: usize = 0;
    while i < keys.len()
        invariant
            i <= keys@.len(),
            out@ == keys@.take(i as int).filter(not_in(remove@)),
        decreases keys@.len() - i,
    {
        proof {
            reveal_with_fuel(Seq::filter, 1);
            assert(keys@.take(i + 1).drop_last() =~= keys@.take(i as int));
        }
        let k = keys[i];
        if !contains_column(remove, k) {
            out.push(k);
        }
        i = i + 1;
    }
    assert(keys@.take(i as int) =~= keys@);
    out
}

/// Columns of `ring` neither loaded nor being built, in ring order.
fn missing_columns(ring: &Vec<ColumnKey>, loaded: &Vec<ColumnKey>, inflight: &Vec<ColumnKey>) -> (out: Vec<ColumnKey>)
    ensures
        out@ == ring@.filter(missing_from(loaded@, inflight@)),
{
    let mut out: Vec<ColumnKey> = Vec::new();
    let mut i: usize = 0;
    while i < ring.len()
        invariant
            i <= ring@.len(),
            out@ == ring@.take(i as int).filter(missing_from(loaded@, inflight@)),
        decreases ring@.len() - i,
    {
        proof {
            reveal_with_fuel(Seq::filter, 1);
            assert(ring@.take(i + 1).drop_last() =~= ring@.take(i as int));
        }
        let k = ring[i];
        if !contains_column(loaded, k) && !contains_column(inflight, k) {
            out.push(k);
        }
        i = i + 1;
    }
    assert(ring@.take(i as int) =~= ring@);
    out
}

/// Run the upload pass from the start of `order`.
fn walk_uploads(
    queue: &Vec<ColumnKey>,
    order: &Vec<usize>,
    loaded: Vec<ColumnKey>,
    budget: usize,
    c: ColumnKey,
    r: i32,
) -> (out: (Vec<ColumnKey>, Vec<usize>, Vec<usize>))
    requires
        forall|a: int| 0 <= a < order@.len() ==> #[trigger] order@[a] < queue@.len(),
        loaded@.no_duplicates(),
    ensures
        (out.0@, out.1@, out.2@) == upload_walk(
            queue@,
            order@,
            0,
            loaded@,
            Seq::empty(),
            Seq::empty(),
            budget as int,
            c,
            r as int,
        ),
        out.0@.no_duplicates(),
        out.1@.len() + out.2@.len() <= order@.len(),
        forall|a: int| 0 <= a < out.2@.len() ==> #[trigger] out.2@[a] < queue@.len(),
{
    let ghost start = loaded@;
    let mut loaded = loaded;
    let mut upload: Vec<usize> = Vec::new();
    let mut keep: Vec<usize> = Vec::new();
    let mut p: usize = 0;
    while p < order.len()
        invariant
            forall|a: int| 0 <= a < order@.len() ==> #[trigger] order@[a] < queue@.len(),
            p <= order@.len(),
            loaded@.no_duplicates(),
            upload@.len() + keep@.len() <= p,
            forall|a: int| 0 <= a < keep@.len() ==> #[trigger] keep@[a] < queue@.len(),
            upload_walk(queue@, order@, 0, start, Seq::empty(), Seq::empty(), budget as int, c, r as int)
                == upload_walk(queue@, order@, p as int, loaded@, upload@, keep@, budget as int, c, r as int),
        decreases order@.len() - p,
    {
        let i = order[p];
        let k = queue[i];
        if !column_in_ring(k, c, r) || contains_column(&loaded, k) {
        } else if upload.len() < budget {
            proof {
                assert forall|a: int, b: int| 0 <= a < b < loaded@.push(k).len() implies loaded@.push(k)[a] != loaded@.push(k)[b] by {
                    if b == loaded@.len() {
                        assert(loaded@.push(k)[a] == loaded@[a]);
                    }
                }
            }
            loaded.push(k);
            upload.push(i);
        } else {
            keep.push(i);
        }
        p = p + 1;
    }
    (loaded, upload, keep)
}

/// The first `n` entries of `keys` in `order`.
fn take_ordered(keys: &Vec<ColumnKey>, order: &Vec<usize>, n: usize) -> (out: Vec<ColumnKey>)
    requires
        n <= order@.len(),
        forall|a: int| 0 <= a < order@.len() ==> #[trigger] order@[a] < keys@.len(),
    ensures
        out@ == take_in_order(keys@, order@, n as int),
{
    let mut out: Vec<ColumnKey> = Vec::new();
    let mut j: usize = 0;
    while j < n
        invariant
            n <= order@.len(),
            forall|a: int| 0 <= a < order@.len() ==> #[trigger] order@[a] < keys@.len(),
            j <= n,
            out@ == take_in_order(keys@, order@, j as int),
        decreases n - j,
    {
        out.push(keys[order[j]]);
        proof {
            assert(out@ =~= take_in_order(keys@, order@, j + 1));
        }
        j = j + 1;
    }
    out
}

/// Columns in the ring of radius `r`: none for a negative radius.
pub open spec fn ring_len(r: int) -> int {
    if r < 0 {
        0
    } else {
        (2 * r + 1) * (2 * r + 1)
    }
}

impl TerrainStream {
    /// Chebyshev radius of the ring kept loaded.
    pub closed spec fn ring_radius(&self) -> i32 {
        self.radius
    }

    /// Most background builds started per frame.
    pub closed spec fn job_budget(&self) -> usize {
        self.max_jobs_per_frame
    }

    /// Most finished chunks uploaded per frame.
    pub closed spec fn upload_budget(&self) -> usize {
        self.max_uploads_per_frame
    }

    pub fn radius(&self) -> (r: i32)
        ensures
            r == self.ring_radius(),
    {
        self.radius
    }

    pub fn max_jobs_per_frame(&self) -> (n: usize)
        ensures
            n == self.job_budget(),
    {
        self.max_jobs_per_frame
    }

    pub fn max_uploads_per_frame(&self) -> (n: usize)
        ensures
            n == self.upload_budget(),
    {
        self.max_uploads_per_frame
    }

    /// Loaded columns, in the order they were loaded.
    pub closed spec fn loaded_keys(&self) -> Seq<ColumnKey> {
        self.loaded@
    }

    /// Columns being built in the background.
    pub closed spec fn inflight_keys(&self) -> Seq<ColumnKey> {
        self.inflight@
    }

    /// Finished columns waiting to be uploaded, oldest first.
    pub closed spec fn ready_keys(&self) -> Seq<ColumnKey> {
        self.ready@
    }

    /// Loaded and building columns are each held once.
    pub open spec fn wf(&self) -> bool {
        &&& self.loaded_keys().no_duplicates()
        &&& self.inflight_keys().no_duplicates()
        &&& self.inflight_keys().len() + self.ready_keys().len() <= usize::MAX
    }

    /// A stream with nothing loaded, keeping at least radius 1, starting six
    /// builds and uploading two chunks per frame.
    pub fn new(radius: i32) -> (s: Self)
        ensures
            s.wf(),
            s.ring_radius() == if radius < 1 {
                1
            } else {
                radius
            },
            s.job_budget() == 6,
            s.upload_budget() == 2,
            s.loaded_keys() == Seq::<ColumnKey>::empty(),
            s.inflight_keys() == Seq::<ColumnKey>::empty(),
            s.ready_keys() == Seq::<ColumnKey>::empty(),
    {
        TerrainStream {
            radius: if radius < 1 {
                1
            } else {
                radius
            },
            max_jobs_per_frame: 6,
            max_uploads_per_frame: 2,
            loaded: Vec::new(),
            inflight: Vec::new(),
            ready: Vec::new(),
        }
    }

    /// The same stream with other per-frame budgets, each at least one.
    pub fn with_budgets(self, jobs_per_frame: usize, uploads_per_frame: usize) -> (s: Self)
        ensures
            s.job_budget() == if jobs_per_frame < 1 {
                1
            } else {
                jobs_per_frame
            },
            s.upload_budget() == if uploads_per_frame < 1 {
                1
            } else {
                uploads_per_frame
            },
            s.ring_radius() == self.ring_radius(),
            s.loaded_keys() == self.loaded_keys(),
            s.inflight_keys() == self.inflight_keys(),
            s.ready_keys() == self.ready_keys(),
    {
        let mut s = self;
        s.max_jobs_per_frame = if jobs_per_frame < 1 {
            1
        } else {
            jobs_per_frame
        };
        s.max_uploads_per_frame = if uploads_per_frame < 1 {
            1
        } else {
            uploads_per_frame
        };
        s
    }

    /// Number of loaded columns.
    pub fn loaded_count(&self) -> (n: usize)
        ensures
            n == self.loaded_keys().len(),
    {
        self.loaded.len()
    }

    /// Columns being built or waiting to be uploaded.
    pub fn pending_count(&self) -> (n: usize)
        requires
            self.wf(),
        ensures
            n == self.inflight_keys().len() + self.ready_keys().len(),
    {
        self.inflight.len() + self.ready.len()
    }

    /// Stream chunks around the focus column `center` for one frame.
    /// `arrived` lists the columns whose background builds finished since
    /// the last frame, in the order they finished; they join the ready
    /// queue. The plan says which chunks to clear, whether to build the
    /// focus chunk at once, which queued chunks to upload (nearest first, at
    /// most the upload budget) and which columns to start building (nearest
    /// first, at most the job budget).
    pub fn sync(&mut self, center: ColumnKey, arrived: &Vec<ColumnKey>) -> (plan: SyncPlan)
        requires
            old(self).wf(),
            ring_fits(center, old(self).ring_radius() as int),
            old(self).inflight_keys().len() + old(self).ready_keys().len() + arrived@.len()
                + ring_len(old(self).ring_radius() as int) <= usize::MAX,
        ensures
            final(self).wf(),
            final(self).ring_radius() == old(self).ring_radius(),
            final(self).job_budget() == old(self).job_budget(),
            final(self).upload_budget() == old(self).upload_budget(),
            ({
                let c = center;
                let r = old(self).ring_radius() as int;
                let loaded1 = old(self).loaded_keys().filter(within(c, r));
                let inflight2 = old(self).inflight_keys().filter(not_in(arrived@));
                let queue = old(self).ready_keys() + arrived@;
                let focus = !loaded1.contains(c);
                let loaded3 = if focus {
                    loaded1.push(c)
                } else {
                    loaded1
                };
                let inflight3 = if focus {
                    inflight2.filter(not_in(seq![c]))
                } else {
                    inflight2
                };
                &&& plan.stale@ == old(self).loaded_keys().filter(outside(c, r))
                &&& plan.build_now == if focus {
                    Some(c)
                } else {
                    None
                }
                &&& final(self).loaded_keys().contains(c)
                &&& r >= 0 ==> forall|i: int|
                    0 <= i < final(self).loaded_keys().len() ==> in_ring(
                        #[trigger] final(self).loaded_keys()[i],
                        c,
                        r,
                    )
                &&& plan.upload@.len() <= old(self).upload_budget()
                &&& plan.start@.len() <= old(self).job_budget()
                &&& uploads_planned(
                    queue,
                    c,
                    r,
                    loaded3,
                    old(self).upload_budget() as int,
                    plan.upload@,
                    plan.keep@,
                    final(self).loaded_keys(),
                    final(self).ready_keys(),
                    inflight3,
                    old(self).job_budget() as int,
                    plan.start@,
                    final(self).inflight_keys(),
                )
            }),
    {
        let c = center;
        let r = self.radius;
        let ghost rr = r as int;
        let (loaded1, stale) = split_by_ring(&self.loaded, c, r);
        let inflight2 = without_columns(&self.inflight, arrived);
        let mut queue: Vec<ColumnKey> = Vec::new();
        let mut i: usize = 0;
        while i < self.ready.len()
            invariant
                i <= self.ready@.len(),
                queue@ == self.ready@.take(i as int),
            decreases self.ready@.len() - i,
        {
            queue.push(self.ready[i]);
            proof {
                assert(queue@ =~= self.ready@.take(i + 1));
            }
            i = i + 1;
        }
        let mut j: usize = 0;
        while j < arrived.len()
            invariant
                j <= arrived@.len(),
                queue@ == self.ready@ + arrived@.take(j as int),
            decreases arrived@.len() - j,
        {
            queue.push(arrived[j]);
            proof {
                assert(queue@ =~= self.ready@ + arrived@.take(j + 1));
            }
            j = j + 1;
        }
        proof {
            assert(self.ready@.take(self.ready@.len() as int) =~= self.ready@);
            assert(arrived@.take(arrived@.len() as int) =~= arrived@);
            lemma_filter_no_duplicates(old(self).loaded_keys(), within(c, rr));
            lemma_filter_no_duplicates(old(self).inflight_keys(), not_in(arrived@));
            old(self).inflight_keys().lemma_filter_len(not_in(arrived@));
        }
        let focus = !contains_column(&loaded1, c);
        let mut loaded3 = loaded1;
        let mut inflight3 = inflight2;
        let build_now = if focus {
            let only = vec![c];
            proof {
                assert(only@ =~= seq![c]);
                assert forall|a: int, b: int| 0 <= a < b < loaded3@.push(c).len() implies loaded3@.push(c)[a] != loaded3@.push(c)[b] by {
                    if b == loaded3@.len() {
                        assert(loaded3@.push(c)[a] == loaded3@[a]);
                    }
                }
            }
            loaded3.push(c);
            let kept = without_columns(&inflight3, &only);
            proof {
                lemma_filter_no_duplicates(inflight3@, not_in(seq![c]));
                inflight3@.lemma_filter_len(not_in(seq![c]));
            }
            inflight3 = kept;
            Some(c)
        } else {
            None
        };
        let order = order_by_distance(&queue, c);
        let budget = self.max_uploads_per_frame;
        let ghost g_loaded3 = loaded3@;
        let ghost g_inflight3 = inflight3@;
        proof {
            let loaded1_s = old(self).loaded_keys().filter(within(c, rr));
            let inflight2_s = old(self).inflight_keys().filter(not_in(arrived@));
            assert(g_loaded3 == if focus { loaded1_s.push(c) } else { loaded1_s });
            assert(g_inflight3 == if focus { inflight2_s.filter(not_in(seq![c])) } else { inflight2_s });
        }
        let (loaded4, upload, keep) = walk_uploads(&queue, &order, loaded3, budget, c, r);
        let mut ready: Vec<ColumnKey> = Vec::new();
        let mut k: usize = 0;
        while k < keep.len()
            invariant
                k <= keep@.len(),
                forall|a: int| 0 <= a < keep@.len() ==> #[trigger] keep@[a] < queue@.len(),
                ready@ == keep@.take(k as int).map_values(column_at(queue@)),
            decreases keep@.len() - k,
        {
            ready.push(queue[keep[k]]);
            proof {
                assert(ready@ =~= keep@.take(k + 1).map_values(column_at(queue@)));
            }
            k = k + 1;
        }
        proof {
            assert(keep@.take(keep@.len() as int) =~= keep@);
        }
        let ring = ring_by_rows(c, r);
        let missing = missing_columns(&ring, &loaded4, &inflight3);
        let order2 = order_by_distance(&missing, c);
        let n = if self.max_jobs_per_frame < missing.len() {
            self.max_jobs_per_frame
        } else {
            missing.len()
        };
        let start = take_ordered(&missing, &order2, n);
        let mut inflight4 = inflight3;
        let mut s: usize = 0;
        proof {
            if rr >= 0 {
                lemma_rows_distinct(c, rr, 2 * rr + 1);
            }
            lemma_filter_no_duplicates(ring@, missing_from(loaded4@, inflight3@));
            ring@.lemma_filter_len(missing_from(loaded4@, inflight3@));
        }
        while s < start.len()
            invariant
                s <= start@.len(),
                n <= missing@.len(),
                start@ == take_in_order(missing@, order2@, n as int),
                by_distance(missing@, c, order2@),
                missing@.no_duplicates(),
                missing@ == ring@.filter(missing_from(loaded4@, inflight3@)),
                inflight3@.no_duplicates(),
                inflight4@ == inflight3@ + start@.take(s as int),
                inflight4@.no_duplicates(),
            decreases start@.len() - s,
        {
            let key = start[s];
            proof {
                let m = missing@;
                let o = order2@;
                assert(start@[s as int] == m[o[s as int] as int]);
                lemma_filter_contains_iff(ring@, missing_from(loaded4@, inflight3@), m[o[s as int] as int]);
                assert(m.contains(m[o[s as int] as int]));
                assert(!inflight3@.contains(key));
                let before = inflight4@;
                assert forall|a: int| 0 <= a < before.len() implies before[a] != key by {
                    if a < inflight3@.len() {
                        assert(before[a] == inflight3@[a]);
                    } else {
                        let t = a - inflight3@.len();
                        assert(before[a] == start@[t]);
                        assert(start@[t] == m[o[t] as int]);
                        assert(o[t] != o[s as int]);
                    }
                }
                assert forall|a: int, b: int| 0 <= a < b < before.push(key).len() implies before.push(key)[a] != before.push(key)[b] by {
                    if b == before.len() {
                        assert(before.push(key)[a] == before[a]);
                    }
                }
                assert(inflight3@ + start@.take(s + 1) =~= before.push(key));
            }
            inflight4.push(key);
            s = s + 1;
        }
        proof {
            assert(start@.take(start@.len() as int) =~= start@);
            assert(by_distance(queue@, c, order@));
            assert(by_distance(missing@, c, order2@));
            let w = upload_walk(queue@, order@, 0, g_loaded3, Seq::empty(), Seq::empty(), budget as int, c, rr);
            assert(w.0 == loaded4@ && w.1 == upload@ && w.2 == keep@);
            assert(queue@ == old(self).ready_keys() + arrived@);
            assert(missing@ == ring_rows(c, rr).filter(missing_from(w.0, g_inflight3)));
            assert(jobs_planned(missing@, c, old(self).job_budget() as int, start@, g_inflight3, inflight4@));
            lemma_walk_facts(queue@, order@, 0, g_loaded3, Seq::empty(), Seq::empty(), budget as int, c, rr);
            if focus {
                assert(g_loaded3[g_loaded3.len() - 1] == c);
            }
            assert(g_loaded3.contains(c));
            let ci = choose|i: int| 0 <= i < g_loaded3.len() && g_loaded3[i] == c;
            assert(loaded4@.subrange(0, g_loaded3.len() as int)[ci] == c);
            assert(loaded4@[ci] == c);
            if rr >= 0 {
                let l1 = old(self).loaded_keys().filter(within(c, rr));
                assert forall|i: int| 0 <= i < loaded4@.len() implies in_ring(#[trigger] loaded4@[i], c, rr) by {
                    if i < l1.len() {
                        assert(loaded4@.subrange(0, g_loaded3.len() as int)[i] == g_loaded3[i]);
                        assert(g_loaded3[i] == l1[i]);
                        lemma_filter_contains_iff(old(self).loaded_keys(), within(c, rr), l1[i]);
                    } else if i < g_loaded3.len() {
                        assert(loaded4@.subrange(0, g_loaded3.len() as int)[i] == g_loaded3[i]);
                    }
                }
            }
            assert(uploads_planned(queue@, c, rr, g_loaded3, budget as int, upload@, keep@, loaded4@, ready@, g_inflight3, old(self).job_budget() as int, start@, inflight4@));
        }
        self.loaded = loaded4;
        self.inflight = inflight4;
        self.ready = ready;
        SyncPlan { stale, build_now, upload, keep, start }
    }

    /// Fill the whole ring now, on the caller's thread: clear the chunks
    /// that left it, drop whatever the background was building or had
    /// finished, and build every ring column that is not loaded, in key
    /// order.
    pub fn sync_blocking(&mut self, center: ColumnKey) -> (plan: BlockingPlan)
        requires
            old(self).wf(),
            ring_fits(center, old(self).ring_radius() as int),
        ensures
            final(self).wf(),
            final(self).ring_radius() == old(self).ring_radius(),
            final(self).job_budget() == old(self).job_budget(),
            final(self).upload_budget() == old(self).upload_budget(),
            ({
                let c = center;
                let r = old(self).ring_radius() as int;
                let loaded1 = old(self).loaded_keys().filter(within(c, r));
                &&& plan.stale@ == old(self).loaded_keys().filter(outside(c, r))
                &&& plan.build@ == ring_cols(c, r).filter(not_in(loaded1))
                &&& final(self).loaded_keys() == loaded1 + plan.build@
                &&& r >= 0 ==> forall|k: ColumnKey|
                    #[trigger] final(self).loaded_keys().contains(k) <==> in_ring(k, c, r)
                &&& final(self).inflight_keys() == Seq::<ColumnKey>::empty()
                &&& final(self).ready_keys() == Seq::<ColumnKey>::empty()
            }),
    {
        let c = center;
        let r = self.radius;
        let ghost rr = r as int;
        let (loaded1, stale) = split_by_ring(&self.loaded, c, r);
        let ring = ring_by_columns(c, r);
        let build = without_columns(&ring, &loaded1);
        let mut loaded = loaded1;
        let ghost l1 = loaded@;
        let mut i: usize = 0;
        proof {
            lemma_filter_no_duplicates(old(self).loaded_keys(), within(c, rr));
            if rr >= 0 {
                lemma_cols_distinct(c, rr, 2 * rr + 1);
            }
            lemma_filter_no_duplicates(ring@, not_in(l1));
        }
        while i < build.len()
            invariant
                i <= build@.len(),
                build@ == ring@.filter(not_in(l1)),
                build@.no_duplicates(),
                l1.no_duplicates(),
                loaded@ == l1 + build@.take(i as int),
                loaded@.no_duplicates(),
            decreases build@.len() - i,
        {
            let key = build[i];
            proof {
                lemma_filter_contains_iff(ring@, not_in(l1), key);
                assert(build@.contains(key));
                let before = loaded@;
                assert forall|a: int| 0 <= a < before.len() implies before[a] != key by {
                    if a < l1.len() {
                        assert(before[a] == l1[a]);
                    } else {
                        assert(before[a] == build@[a - l1.len()]);
                    }
                }
                assert forall|a: int, b: int| 0 <= a < b < before.push(key).len() implies before.push(key)[a] != before.push(key)[b] by {
                    if b == before.len() {
                        assert(before.push(key)[a] == before[a]);
                    }
                }
                assert(l1 + build@.take(i + 1) =~= before.push(key));
            }
            loaded.push(key);
            i = i + 1;
        }
        proof {
            assert(build@.take(build@.len() as int) =~= build@);
            if rr >= 0 {
                let all = loaded@;
                assert forall|k: ColumnKey| #[trigger] all.contains(k) <==> in_ring(k, c, rr) by {
                    lemma_filter_contains_iff(old(self).loaded_keys(), within(c, rr), k);
                    lemma_filter_contains_iff(ring@, not_in(l1), k);
                    if all.contains(k) {
                        let i = choose|i: int| 0 <= i < all.len() && all[i] == k;
                        if i < l1.len() {
                            assert(l1[i] == k);
                            assert(l1.contains(k));
                        } else {
                            assert(build@[i - l1.len()] == k);
                            assert(build@.contains(k));
                            let j = choose|j: int| 0 <= j < ring@.len() && ring@[j] == k;
                            assert(in_ring(ring@[j], c, rr));
                        }
                    }
                    if in_ring(k, c, rr) {
                        if l1.contains(k) {
                            let i = choose|i: int| 0 <= i < l1.len() && l1[i] == k;
                            assert(all[i] == k);
                        } else {
                            lemma_cols_complete(c, rr, 2 * rr + 1, k);
                            assert(build@.contains(k));
                            let i = choose|i: int| 0 <= i < build@.len() && build@[i] == k;
                            assert(all[l1.len() + i] == k);
                        }
                    }
                }
            }
        }
        self.loaded = loaded;
        self.inflight = Vec::new();
        self.ready = Vec::new();
        BlockingPlan { stale, build }
    }
}

} // verus!
