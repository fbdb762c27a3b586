//! Integer chunk addressing on the horizontal plane.
//!
//! Streaming chunks are addressed by integer `(x, z)` pairs; the distances
//! between addresses decide which chunks a streamer keeps and in which order
//! it loads them.
use vstd::prelude::*;

verus! {

/// Absolute value of an integer.
pub open spec fn abs_int(v: int) -> int {
    if v < 0 {
        -v
    } else {
        v
    }
}

/// Larger of two integers.
pub open spec fn max_int(a: int, b: int) -> int {
    if a < b {
        b
    } else {
        a
    }
}

/// Integer address of a streaming chunk on the horizontal plane.
#[derive(Clone, Copy, Debug, PartialEq, Eq, Structural, Hash, PartialOrd, Ord)]
pub struct ChunkCoord {
    pub x: i32,
    pub z: i32,
}

/// Chebyshev distance between two chunk addresses.
pub open spec fn ring_distance_spec(a: ChunkCoord, b: ChunkCoord) -> int {
    max_int(abs_int(a.x - b.x), abs_int(a.z - b.z))
}

/// Manhattan distance between two chunk addresses.
pub open spec fn walk_distance_spec(a: ChunkCoord, b: ChunkCoord) -> int {
    abs_int(a.x - b.x) + abs_int(a.z - b.z)
}

/// The per-axis differences of two addresses can be negated inside `i32`.
pub open spec fn axis_gaps_fit(a: ChunkCoord, b: ChunkCoord) -> bool {
    &&& i32::MIN < a.x - b.x <= i32::MAX
    &&& i32::MIN < a.z - b.z <= i32::MAX
}

/// Absolute difference of two `i32` values, where it is representable.
fn abs_gap(a: i32, b: i32) -> (d: i32)
    requires
        i32::MIN < a - b <= i32::MAX,
    ensures
        d == abs_int(a - b),
{
    let g = a - b;
    if g < 0 {
        -g
    } else {
        g
    }
}

impl ChunkCoord {
    pub fn new(x: i32, z: i32) -> (c: Self)
        ensures
            c.x == x,
            c.z == z,
    {
        ChunkCoord { x, z }
    }

    /// Chebyshev distance in chunks.
    pub fn ring_distance(self, other: Self) -> (d: i32)
        requires
            axis_gaps_fit(self, other),
        ensures
            d == ring_distance_spec(self, other),
    {
        let dx = abs_gap(self.x, other.x);
        let dz = abs_gap(self.z, other.z);
        if dx < dz {
            dz
        } else {
            dx
        }
    }

    /// Manhattan distance in chunks (load ordering).
    pub fn walk_distance(self, other: Self) -> (d: i32)
        requires
            axis_gaps_fit(self, other),
            walk_distance_spec(self, other) <= i32::MAX,
        ensures
            d == walk_distance_spec(self, other),
    {
        let dx = abs_gap(self.x, other.x);
        let dz = abs_gap(self.z, other.z);
        dx + dz
    }

    pub fn offset(self, dx: i32, dz: i32) -> (c: Self)
        requires
            i32::MIN <= self.x + dx <= i32::MAX,
            i32::MIN <= self.z + dz <= i32::MAX,
        ensures
            c.x == self.x + dx,
            c.z == self.z + dz,
    {
        ChunkCoord { x: self.x + dx, z: self.z + dz }
    }
}

/// Draw layer of a chunk mesh. Layers of one chunk share an anchor.
#[derive(Clone, Copy, Debug, PartialEq, Eq, Structural, Hash, PartialOrd, Ord)]
pub enum ChunkLayer {
    /// Opaque ground.
    Land,
    /// Translucent water sheets.
    Water,
}

impl ChunkLayer {
    /// Every layer, in draw order: opaque ground before translucent water.
    pub fn all() -> (layers: [ChunkLayer; 2])
        ensures
            layers@ == seq![ChunkLayer::Land, ChunkLayer::Water],
    {
        [ChunkLayer::Land, ChunkLayer::Water]
    }
}

/// Identity of one uploaded chunk mesh.
#[derive(Clone, Copy, Debug, PartialEq, Eq, Structural, Hash, PartialOrd, Ord)]
pub struct ChunkId {
    pub coord: ChunkCoord,
    pub layer: ChunkLayer,
}

impl ChunkId {
    pub fn new(coord: ChunkCoord, layer: ChunkLayer) -> (id: Self)
        ensures
            id.coord == coord,
            id.layer == layer,
    {
        ChunkId { coord, layer }
    }
}

/// The Chebyshev chunk distance is a metric: it is zero exactly between equal
/// addresses, symmetric, and obeys the triangle inequality.
pub proof fn ring_distance_is_a_metric(a: ChunkCoord, b: ChunkCoord, c: ChunkCoord)
    ensures
        ring_distance_spec(a, b) >= 0,
        ring_distance_spec(a, b) == 0 <==> a == b,
        ring_distance_spec(a, b) == ring_distance_spec(b, a),
        ring_distance_spec(a, c) <= ring_distance_spec(a, b) + ring_distance_spec(b, c),
{
}

/// The Manhattan load-ordering distance bounds the Chebyshev ring distance
/// from above, and is itself at most twice the ring distance.
pub proof fn walk_distance_brackets_ring_distance(a: ChunkCoord, b: ChunkCoord)
    ensures
        ring_distance_spec(a, b) <= walk_distance_spec(a, b),
        walk_distance_spec(a, b) <= 2 * ring_distance_spec(a, b),
        walk_distance_spec(a, b) == walk_distance_spec(b, a),
        walk_distance_spec(a, b) == 0 <==> a == b,
{
}

/// Offsetting an address by `(dx, dz)` moves it exactly `max(|dx|, |dz|)` rings
/// and `|dx| + |dz|` walking steps away.
pub proof fn offset_moves_by_its_own_distance(c: ChunkCoord, moved: ChunkCoord, dx: int, dz: int)
    requires
        moved.x == c.x + dx,
        moved.z == c.z + dz,
    ensures
        ring_distance_spec(c, moved) == max_int(abs_int(dx), abs_int(dz)),
        walk_distance_spec(c, moved) == abs_int(dx) + abs_int(dz),
{
}

} // verus!
