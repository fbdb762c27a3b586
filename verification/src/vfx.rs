//! Spell visual vocabulary: effect handles, delivery shapes, visual kinds,
//! and the authored colour palette of each kind.
use vstd::prelude::*;
use crate::error::{invalid_value, is_invalid_value, is_resource_limit, resource_limit, EngineError};

verus! {

#[derive(Clone, Copy, Debug, PartialEq, Eq, Structural, Hash)]
pub struct EffectHandle(pub u64);

#[derive(Clone, Copy, Debug, PartialEq, Eq, Structural)]
pub enum Delivery {
    SingleTarget,
    Aoe,
    Pbaoe,
    Cone,
}

#[derive(Clone, Copy, Debug, PartialEq, Eq, Structural)]
pub enum VisualKind {
    Fire,
    Frost,
    Lightning,
    Poison,
    Root,
    Hold,
    Snare,
    Charm,
}

/// An authored colour as its three sRGB bytes; the renderer decodes it to
/// linear light before shading.
#[derive(Clone, Copy, Debug, PartialEq, Eq, Structural)]
pub struct Srgb8 {
    pub r: u8,
    pub g: u8,
    pub b: u8,
}

pub open spec fn srgb(r: u8, g: u8, b: u8) -> Srgb8 {
    Srgb8 { r, g, b }
}

#[derive(Clone, Copy, Debug, PartialEq, Eq, Structural)]
pub struct VfxPalette {
    pub primary: Srgb8,
    pub secondary: Srgb8,
    pub accent: Srgb8,
}

pub open spec fn palette_of(p: Srgb8, s: Srgb8, a: Srgb8) -> VfxPalette {
    VfxPalette { primary: p, secondary: s, accent: a }
}

/// The authored palette of each visual kind.
pub open spec fn palette_spec(k: VisualKind) -> VfxPalette {
    match k {
        VisualKind::Fire => palette_of(srgb(255, 55, 8), srgb(255, 170, 20), srgb(255, 245, 150)),
        VisualKind::Frost => palette_of(srgb(40, 150, 255), srgb(150, 235, 255), srgb(255, 255, 255)),
        VisualKind::Lightning => palette_of(srgb(80, 120, 255), srgb(190, 210, 255), srgb(255, 255, 255)),
        VisualKind::Poison => palette_of(srgb(35, 180, 45), srgb(130, 240, 40), srgb(220, 255, 80)),
        VisualKind::Root => palette_of(srgb(80, 125, 35), srgb(165, 85, 25), srgb(225, 175, 55)),
        VisualKind::Hold => palette_of(srgb(110, 60, 220), srgb(195, 130, 255), srgb(255, 255, 255)),
        VisualKind::Snare => palette_of(srgb(100, 70, 160), srgb(190, 150, 235), srgb(255, 255, 255)),
        VisualKind::Charm => palette_of(srgb(220, 55, 180), srgb(255, 135, 220), srgb(255, 235, 120)),
    }
}

impl VfxPalette {
    pub fn fire() -> (p: Self)
        ensures
            p == palette_spec(VisualKind::Fire),
    {
        VfxPalette {
            primary: Srgb8 { r: 255, g: 55, b: 8 },
            secondary: Srgb8 { r: 255, g: 170, b: 20 },
            accent: Srgb8 { r: 255, g: 245, b: 150 },
        }
    }

    pub fn frost() -> (p: Self)
        ensures
            p == palette_spec(VisualKind::Frost),
    {
        VfxPalette {
            primary: Srgb8 { r: 40, g: 150, b: 255 },
            secondary: Srgb8 { r: 150, g: 235, b: 255 },
            accent: Srgb8 { r: 255, g: 255, b: 255 },
        }
    }

    pub fn lightning() -> (p: Self)
        ensures
            p == palette_spec(VisualKind::Lightning),
    {
        VfxPalette {
            primary: Srgb8 { r: 80, g: 120, b: 255 },
            secondary: Srgb8 { r: 190, g: 210, b: 255 },
            accent: Srgb8 { r: 255, g: 255, b: 255 },
        }
    }

    pub fn poison() -> (p: Self)
        ensures
            p == palette_spec(VisualKind::Poison),
    {
        VfxPalette {
            primary: Srgb8 { r: 35, g: 180, b: 45 },
            secondary: Srgb8 { r: 130, g: 240, b: 40 },
            accent: Srgb8 { r: 220, g: 255, b: 80 },
        }
    }

    pub fn root() -> (p: Self)
        ensures
            p == palette_spec(VisualKind::Root),
    {
        VfxPalette {
            primary: Srgb8 { r: 80, g: 125, b: 35 },
            secondary: Srgb8 { r: 165, g: 85, b: 25 },
            accent: Srgb8 { r: 225, g: 175, b: 55 },
        }
    }

    pub fn hold() -> (p: Self)
        ensures
            p == palette_spec(VisualKind::Hold),
    {
        VfxPalette {
            primary: Srgb8 { r: 110, g: 60, b: 220 },
            secondary: Srgb8 { r: 195, g: 130, b: 255 },
            accent: Srgb8 { r: 255, g: 255, b: 255 },
        }
    }

    pub fn snare() -> (p: Self)
        ensures
            p == palette_spec(VisualKind::Snare),
    {
        VfxPalette {
            primary: Srgb8 { r: 100, g: 70, b: 160 },
            secondary: Srgb8 { r: 190, g: 150, b: 235 },
            accent: Srgb8 { r: 255, g: 255, b: 255 },
        }
    }

    pub fn charm() -> (p: Self)
        ensures
            p == palette_spec(VisualKind::Charm),
    {
        VfxPalette {
            primary: Srgb8 { r: 220, g: 55, b: 180 },
            secondary: Srgb8 { r: 255, g: 135, b: 220 },
            accent: Srgb8 { r: 255, g: 235, b: 120 },
        }
    }

}

pub fn palette(k: VisualKind) -> (p: VfxPalette)
    ensures
        p == palette_spec(k),
{
    match k {
        VisualKind::Fire => VfxPalette::fire(),
        VisualKind::Frost => VfxPalette::frost(),
        VisualKind::Lightning => VfxPalette::lightning(),
        VisualKind::Poison => VfxPalette::poison(),
        VisualKind::Root => VfxPalette::root(),
        VisualKind::Hold => VfxPalette::hold(),
        VisualKind::Snare => VfxPalette::snare(),
        VisualKind::Charm => VfxPalette::charm(),
    }
}

/// Most effects alive at once.
pub const MAX_ACTIVE_EFFECTS: usize = 16;

/// `v` holds an effect under handle number `k`.
pub open spec fn holds<E>(v: Seq<(u64, E)>, k: u64) -> bool {
    exists|i: int| 0 <= i < v.len() && #[trigger] v[i].0 == k
}

/// Live effects, each under a distinct handle below `next`, at most
/// [`MAX_ACTIVE_EFFECTS`] of them.
pub open spec fn effects_wf<E>(v: Seq<(u64, E)>, next: u64) -> bool {
    &&& next >= 1
    &&& v.len() <= MAX_ACTIVE_EFFECTS
    &&& forall|i: int| 0 <= i < v.len() ==> 1 <= #[trigger] v[i].0 < next
    &&& forall|i: int, j: int| 0 <= i < j < v.len() ==> #[trigger] v[i].0 != #[trigger] v[j].0
}

/// Live spell effects and the handles that name them.
///
/// An effect occupies the table from a successful spawn until it is
/// interrupted, finishes, or the table is reset. Handles count up from 1 and
/// are never handed out twice, so a handle to an effect that is gone is
/// refused rather than steering a newer one.
pub struct EffectTable<E> {
    next_handle: u64,
    active: Vec<(u64, E)>,
    paused: bool,
}

impl<E> View for EffectTable<E> {
    type V = Seq<(u64, E)>;

    closed spec fn view(&self) -> Seq<(u64, E)> {
        self.active@
    }
}

impl<E> EffectTable<E> {
    /// The number the next spawned effect's handle gets.
    pub closed spec fn next(&self) -> u64 {
        self.next_handle
    }

    pub closed spec fn paused_spec(&self) -> bool {
        self.paused
    }

    pub open spec fn wf(&self) -> bool {
        effects_wf(self@, self.next())
    }

    pub fn new() -> (t: Self)
        ensures
            t.wf(),
            t@ == Seq::<(u64, E)>::empty(),
            t.next() == 1,
            !t.paused_spec(),
    {
        EffectTable { next_handle: 1, active: Vec::new(), paused: false }
    }

    pub fn active_count(&self) -> (n: usize)
        ensures
            n == self@.len(),
    {
        self.active.len()
    }

    fn find(&self, h: EffectHandle) -> (r: Option<usize>)
        requires
            self.wf(),
        ensures
            match r {
                Some(i) => i < self@.len() && self@[i as int].0 == h.0,
                None => !holds(self@, h.0),
            },
    {
        let mut i: usize = 0;
        while i < self.active.len()
            invariant
                i <= self@.len(),
                forall|j: int| 0 <= j < i ==> self@[j].0 != h.0,
            decreases self@.len() - i,
        {
            if self.active[i].0 == h.0 {
                return Some(i);
            }
            i = i + 1;
        }
        None
    }

    pub fn is_active(&self, h: EffectHandle) -> (b: bool)
        requires
            self.wf(),
        ensures
            b == holds(self@, h.0),
    {
        self.find(h).is_some()
    }

    pub fn is_paused(&self) -> (b: bool)
        ensures
            b == self.paused_spec(),
    {
        self.paused
    }

    /// Record whether effects are paused; the caller freezes the particle and
    /// ribbon clocks to match.
    pub fn set_paused(&mut self, paused: bool)
        ensures
            final(self).paused_spec() == paused,
            final(self)@ == old(self)@,
            final(self).next() == old(self).next(),
    {
        self.paused = paused;
    }

    /// Whether another effect fits; checked before its layers are built.
    pub fn check_capacity(&self) -> (r: Result<(), EngineError>)
        ensures
            r is Ok <==> self@.len() < MAX_ACTIVE_EFFECTS,
            r matches Err(e) ==> is_resource_limit(e, "active VFX capacity (16) exhausted"@),
    {
        if self.active.len() >= MAX_ACTIVE_EFFECTS {
            return Err(resource_limit("active VFX capacity (16) exhausted"));
        }
        Ok(())
    }

    /// Insert a built effect under a fresh handle.
    pub fn insert_built(&mut self, effect: E) -> (r: Result<EffectHandle, EngineError>)
        requires
            old(self).wf(),
        ensures
            final(self).wf(),
            old(self)@.len() >= MAX_ACTIVE_EFFECTS ==> (r matches Err(e) && is_resource_limit(
                e,
                "active VFX capacity (16) exhausted"@,
            ) && final(self)@ == old(self)@ && final(self).next() == old(self).next()),
            old(self)@.len() < MAX_ACTIVE_EFFECTS && old(self).next() == u64::MAX ==> (r matches Err(e) && is_resource_limit(e, "VFX handle space exhausted"@) && final(self)@ == old(self)@ && final(self).next() == old(self).next()),
            old(self)@.len() < MAX_ACTIVE_EFFECTS && old(self).next() < u64::MAX ==> (r matches Ok(h)
                && h.0 == old(self).next() && !holds(old(self)@, h.0) && final(self)@ == old(self)@.push((h.0, effect)) && final(self).next() == old(self).next() + 1),
            final(self).paused_spec() == old(self).paused_spec(),
    {
        if self.active.len() >= MAX_ACTIVE_EFFECTS {
            return Err(resource_limit("active VFX capacity (16) exhausted"));
        }
        let h = self.next_handle;
        if h == u64::MAX {
            return Err(resource_limit("VFX handle space exhausted"));
        }
        self.next_handle = h + 1;
        self.active.push((h, effect));
        proof {
            assert forall|i: int, j: int| 0 <= i < j < self@.len() implies #[trigger] self@[i].0
                != #[trigger] self@[j].0 by {
                if j == self@.len() - 1 {
                    assert(old(self)@[i].0 < h);
                } else {
                    assert(old(self)@[i].0 != old(self)@[j].0);
                }
            }
        }
        Ok(EffectHandle(h))
    }

    /// Remove the effect `h` and hand it back for cleanup; a handle to an
    /// effect that is gone is refused.
    pub fn interrupt(&mut self, h: EffectHandle) -> (r: Result<E, EngineError>)
        requires
            old(self).wf(),
        ensures
            final(self).wf(),
            final(self).next() == old(self).next(),
            final(self).paused_spec() == old(self).paused_spec(),
            !holds(old(self)@, h.0) ==> (r matches Err(e) && is_invalid_value(
                e,
                "stale or inactive VFX handle"@,
            ) && final(self)@ == old(self)@),
            holds(old(self)@, h.0) ==> (r matches Ok(e) && exists|i: int|
                0 <= i < old(self)@.len() && old(self)@[i].0 == h.0 && e == old(self)@[i].1
                    && final(self)@ == old(self)@.remove(i)),
            !holds(final(self)@, h.0),
    {
        match self.find(h) {
            None => Err(invalid_value("stale or inactive VFX handle")),
            Some(i) => {
                let (_, e) = self.active.remove(i);
                proof {
                    assert(self@ == old(self)@.remove(i as int));
                    assert forall|a: int, b: int| 0 <= a < b < self@.len() implies #[trigger] self@[a].0
                        != #[trigger] self@[b].0 by {
                        let oa = if a < i { a } else { a + 1 };
                        let ob = if b < i { b } else { b + 1 };
                        assert(old(self)@[oa].0 != old(self)@[ob].0);
                    }
                    assert forall|k: int| 0 <= k < self@.len() implies self@[k].0 != h.0 by {
                        let ok = if k < i { k } else { k + 1 };
                        assert(old(self)@[ok].0 != old(self)@[i as int].0);
                    }
                }
                Ok(e)
            },
        }
    }

    /// Put back an effect that was taken out for its per-frame update and is
    /// still running.
    pub fn restore(&mut self, h: EffectHandle, effect: E) -> (r: Result<(), EngineError>)
        requires
            old(self).wf(),
        ensures
            final(self).wf(),
            final(self).next() == old(self).next(),
            final(self).paused_spec() == old(self).paused_spec(),
            r is Ok <==> (1 <= h.0 < old(self).next() && !holds(old(self)@, h.0) && old(self)@.len()
                < MAX_ACTIVE_EFFECTS),
            r is Ok ==> final(self)@ == old(self)@.push((h.0, effect)),
            r matches Err(e) ==> is_invalid_value(e, "stale or inactive VFX handle"@) && final(self)@ == old(self)@,
    {
        if h.0 == 0 || h.0 >= self.next_handle || self.active.len() >= MAX_ACTIVE_EFFECTS {
            return Err(invalid_value("stale or inactive VFX handle"));
        }
        if self.find(h).is_some() {
            return Err(invalid_value("stale or inactive VFX handle"));
        }
        self.active.push((h.0, effect));
        proof {
            assert forall|i: int, j: int| 0 <= i < j < self@.len() implies #[trigger] self@[i].0
                != #[trigger] self@[j].0 by {
                if j == self@.len() - 1 {
                    assert(old(self)@[i].0 != h.0);
                } else {
                    assert(old(self)@[i].0 != old(self)@[j].0);
                }
            }
        }
        Ok(())
    }

    /// Handles of the live effects, oldest first.
    pub fn handles(&self) -> (hs: Vec<EffectHandle>)
        ensures
            hs@.len() == self@.len(),
            forall|i: int| 0 <= i < hs@.len() ==> #[trigger] hs@[i].0 == self@[i].0,
    {
        let mut hs: Vec<EffectHandle> = Vec::new();
        let mut i: usize = 0;
        while i < self.active.len()
            invariant
                i <= self@.len(),
                hs@.len() == i,
                forall|k: int| 0 <= k < i ==> #[trigger] hs@[k].0 == self@[k].0,
            decreases self@.len() - i,
        {
            hs.push(EffectHandle(self.active[i].0));
            i = i + 1;
        }
        hs
    }

    /// Empty the table and hand every effect back for cleanup. Handles keep
    /// counting on from where they were.
    pub fn take_all(&mut self) -> (all: Vec<(u64, E)>)
        requires
            old(self).wf(),
        ensures
            final(self).wf(),
            all@ == old(self)@,
            final(self)@ == Seq::<(u64, E)>::empty(),
            final(self).next() == old(self).next(),
            final(self).paused_spec() == old(self).paused_spec(),
    {
        let mut all: Vec<(u64, E)> = Vec::new();
        std::mem::swap(&mut all, &mut self.active);
        all
    }
}

/// A handle is never handed out twice: whatever an insertion returns was
/// held by no live effect, and lies below every handle issued after it.
pub proof fn effect_handles_are_fresh<E>(v: Seq<(u64, E)>, next: u64, k: u64)
    requires
        effects_wf(v, next),
        k >= next,
    ensures
        !holds(v, k),
{
}

} // verus!
