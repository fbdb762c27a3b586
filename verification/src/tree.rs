//! Tree species, detail levels, and the seeded integer hash that drives
//! deterministic procedural generation.
use vstd::prelude::*;

verus! {

#[derive(Clone, Copy, Debug, PartialEq, Eq, Structural, Hash)]
pub enum TreeKind {
    Oak,
    Beech,
    Birch,
    Pine,
    Spruce,
    Willow,
}

#[derive(Clone, Copy, Debug, PartialEq, Eq, Structural, PartialOrd, Ord, Hash)]
pub enum TreeLod {
    Hero,
    Mid,
    Far,
}

/// Numeric detail level: 0 is the most detailed mesh.
pub open spec fn lod_level_spec(lod: TreeLod) -> u8 {
    match lod {
        TreeLod::Hero => 0,
        TreeLod::Mid => 1,
        TreeLod::Far => 2,
    }
}

impl TreeLod {
    pub fn level(self) -> (l: u8)
        ensures
            l == lod_level_spec(self),
    {
        match self {
            TreeLod::Hero => 0,
            TreeLod::Mid => 1,
            TreeLod::Far => 2,
        }
    }
}

#[derive(Clone, Copy, Debug, PartialEq, Eq, Structural)]
pub enum LeafKind {
    Broad,
    Pointed,
    Needle,
    Willow,
}

/// Leaf shape that each species grows.
pub open spec fn leaf_kind_spec(kind: TreeKind) -> LeafKind {
    match kind {
        TreeKind::Oak | TreeKind::Beech => LeafKind::Broad,
        TreeKind::Birch => LeafKind::Pointed,
        TreeKind::Pine | TreeKind::Spruce => LeafKind::Needle,
        TreeKind::Willow => LeafKind::Willow,
    }
}

impl TreeKind {
    pub fn leaf_kind(self) -> (leaf: LeafKind)
        ensures
            leaf == leaf_kind_spec(self),
    {
        match self {
            TreeKind::Oak | TreeKind::Beech => LeafKind::Broad,
            TreeKind::Birch => LeafKind::Pointed,
            TreeKind::Pine | TreeKind::Spruce => LeafKind::Needle,
            TreeKind::Willow => LeafKind::Willow,
        }
    }
}

/// What a generated tree is: species, seed, and detail level.
#[derive(Clone, Copy, Debug)]
pub struct TreeSettings {
    pub kind: TreeKind,
    pub seed: u32,
    pub lod: TreeLod,
}

impl TreeSettings {
    /// Full-detail settings for a species and seed.
    pub fn new(kind: TreeKind, seed: u32) -> (s: Self)
        ensures
            s.kind == kind,
            s.seed == seed,
            s.lod == TreeLod::Hero,
    {
        TreeSettings { kind, seed, lod: TreeLod::Hero }
    }

    pub fn with_lod(self, lod: TreeLod) -> (s: Self)
        ensures
            s.kind == self.kind,
            s.seed == self.seed,
            s.lod == lod,
    {
        let mut s = self;
        s.lod = lod;
        s
    }

    /// A full-detail oak.
    pub fn broadleaf(seed: u32) -> (s: Self)
        ensures
            s.kind == TreeKind::Oak,
            s.seed == seed,
            s.lod == TreeLod::Hero,
    {
        Self::new(TreeKind::Oak, seed)
    }

    /// A full-detail pine.
    pub fn conifer(seed: u32) -> (s: Self)
        ensures
            s.kind == TreeKind::Pine,
            s.seed == seed,
            s.lod == TreeLod::Hero,
    {
        Self::new(TreeKind::Pine, seed)
    }
}

/// `x * y` reduced modulo 2^32.
pub open spec fn mul32(x: u32, y: u32) -> u32 {
    ((x as nat * y as nat) % 0x1_0000_0000nat) as u32
}

/// `x + y` reduced modulo 2^32.
pub open spec fn add32(x: u32, y: u32) -> u32 {
    ((x as nat + y as nat) % 0x1_0000_0000nat) as u32
}

/// The seeded avalanche hash: a golden-ratio multiply, the second input added,
/// then two xor-shift / multiply rounds, all modulo 2^32.
pub open spec fn hash_spec(a: u32, b: u32) -> u32 {
    let x0 = add32(mul32(a, 0x9E37_79B9u32), b);
    let x1 = x0 ^ (x0 >> 16u32);
    let x2 = mul32(x1, 0x85EB_CA6Bu32);
    x2 ^ (x2 >> 13u32)
}

pub fn hash(a: u32, b: u32) -> (h: u32)
    ensures
        h == hash_spec(a, b),
{
    let m = a.wrapping_mul(0x9E37_79B9);
    let mut x = m.wrapping_add(b);
    assert(x == add32(mul32(a, 0x9E37_79B9u32), b));
    x = x ^ (x >> 16);
    let y = x.wrapping_mul(0x85EB_CA6B);
    y ^ (y >> 13)
}

} // verus!
