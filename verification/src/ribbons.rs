//! Lifecycle of bounded world-space ribbon trails.
//!
//! A fixed pool of slots holds at most [`MAX_RIBBONS`] live trails. Each slot
//! carries a generation: a handle names a slot and the generation it was
//! issued under, and a slot's generation moves on every time its trail is
//! retired, so a handle to a retired trail is refused instead of silently
//! steering whichever trail reuses the slot.
//!
//! This module owns every decision about slots, handles, recording, and the
//! bounded point history; the trail's points themselves (positions and ages)
//! are held by the caller, which performs the [`HeadAction`] each update
//! returns and reports how many of the oldest points have expired.
use vstd::prelude::*;
use crate::error::{invalid_value, is_invalid_value, is_resource_limit, resource_limit, EngineError};

verus! {

/// Most trails alive at once.
pub const MAX_RIBBONS: usize = 32;

/// Most points one trail remembers; the oldest is dropped beyond this.
pub const MAX_RIBBON_POINTS: usize = 64;

/// Handle to a live ribbon: a slot and the generation it was issued under.
#[derive(Clone, Copy, Debug, PartialEq, Eq, Structural, Hash)]
pub struct RibbonId {
    pub slot: u32,
    pub generation: u32,
}

#[derive(Clone, Copy, Debug, PartialEq, Eq, Structural)]
pub enum RibbonProfile {
    Smooth,
    Turbulent,
    Jagged,
    Organic,
    Orbit,
}

/// What one slot holds.
#[derive(Clone, Copy, Debug, PartialEq, Eq, Structural)]
pub struct SlotState {
    /// Bumped every time the slot's trail is retired.
    pub generation: u32,
    /// A trail occupies the slot.
    pub live: bool,
    /// The trail still accepts new head positions.
    pub recording: bool,
    /// Points the trail currently remembers.
    pub points: u32,
}

/// What the caller does to a trail's points after an accepted head update.
#[derive(Clone, Copy, Debug, PartialEq, Eq, Structural)]
pub enum HeadAction {
    /// The trail had no points left: the head becomes its only point.
    Restart,
    /// The head moved far enough: append it as a new point.
    Append,
    /// As `Append`, but the history is full: drop the oldest point first.
    AppendDropOldest,
    /// The head moved less than the point spacing: move the newest point.
    MoveHead,
}

/// An empty slot that has never held a trail.
pub open spec fn fresh_slot() -> SlotState {
    SlotState { generation: 1, live: false, recording: false, points: 0 }
}

/// Pool shape: exactly [`MAX_RIBBONS`] slots, generations start at 1, a live
/// trail remembers at most [`MAX_RIBBON_POINTS`] points, and an empty slot
/// neither records nor remembers anything.
pub open spec fn slots_wf(v: Seq<SlotState>) -> bool {
    &&& v.len() == MAX_RIBBONS
    &&& forall|i: int|
        0 <= i < v.len() ==> {
            &&& #[trigger] v[i].generation >= 1
            &&& v[i].points <= MAX_RIBBON_POINTS
            &&& !v[i].live ==> !v[i].recording && v[i].points == 0
        }
}

/// `id` names a live trail under its current generation.
pub open spec fn handle_valid(v: Seq<SlotState>, id: RibbonId) -> bool {
    &&& id.slot < v.len()
    &&& v[id.slot as int].live
    &&& v[id.slot as int].generation == id.generation
}

/// The error a handle lookup fails with: an out-of-range slot, or a slot
/// whose trail is gone or was replaced.
pub open spec fn lookup_error(v: Seq<SlotState>, id: RibbonId, e: EngineError) -> bool {
    if id.slot >= v.len() {
        is_invalid_value(e, "ribbon handle has invalid slot"@)
    } else {
        is_invalid_value(e, "stale ribbon handle"@)
    }
}

/// No slot's generation went backwards between `a` and `b`.
pub open spec fn generations_monotone(a: Seq<SlotState>, b: Seq<SlotState>) -> bool {
    &&& a.len() == b.len()
    &&& forall|i: int| 0 <= i < a.len() ==> #[trigger] a[i].generation <= b[i].generation
}

/// The slot after its trail is retired: empty, under the next generation.
pub open spec fn retired(s: SlotState) -> SlotState {
    SlotState { generation: (s.generation + 1) as u32, live: false, recording: false, points: 0 }
}

/// Every live trail retired; empty slots untouched.
pub open spec fn cleared(v: Seq<SlotState>) -> Seq<SlotState> {
    Seq::new(v.len(), |i: int| if v[i].live { retired(v[i]) } else { v[i] })
}

/// The next generation of a slot whose trail is retired.
pub fn next_generation(g: u32) -> (n: u32)
    requires
        g < u32::MAX,
    ensures
        n == g + 1,
{
    g + 1
}

/// The slot-and-handle core of the ribbon pool.
pub struct RibbonWorld {
    slots: Vec<SlotState>,
}

impl View for RibbonWorld {
    type V = Seq<SlotState>;

    closed spec fn view(&self) -> Seq<SlotState> {
        self.slots@
    }
}

impl RibbonWorld {
    pub open spec fn wf(&self) -> bool {
        slots_wf(self@)
    }

    /// A pool of empty slots.
    pub fn new() -> (w: Self)
        ensures
            w.wf(),
            w@ == Seq::new(MAX_RIBBONS as nat, |i: int| fresh_slot()),
    {
        let mut slots: Vec<SlotState> = Vec::new();
        let mut i: usize = 0;
        while i < MAX_RIBBONS
            invariant
                i <= MAX_RIBBONS,
                slots@ == Seq::new(i as nat, |k: int| fresh_slot()),
            decreases MAX_RIBBONS - i,
        {
            slots.push(SlotState { generation: 1, live: false, recording: false, points: 0 });
            i = i + 1;
        }
        RibbonWorld { slots }
    }

    /// State of slot `i`.
    pub fn slot(&self, i: usize) -> (s: SlotState)
        requires
            i < self@.len(),
        ensures
            s == self@[i as int],
    {
        self.slots[i]
    }

    /// Number of live trails.
    pub fn live_count(&self) -> (n: usize)
        requires
            self.wf(),
        ensures
            n == self@.filter(|s: SlotState| s.live).len(),
            n <= MAX_RIBBONS,
    {
        let mut n: usize = 0;
        let mut i: usize = 0;
        while i < self.slots.len()
            invariant
                self.wf(),
                i <= self.slots@.len(),
                n == self@.take(i as int).filter(|s: SlotState| s.live).len(),
                n <= i,
            decreases self.slots@.len() - i,
        {
            proof {
                reveal_with_fuel(Seq::filter, 1);
                assert(self@.take(i + 1).drop_last() =~= self@.take(i as int));
            }
            if self.slots[i].live {
                n = n + 1;
            }
            i = i + 1;
        }
        proof {
            assert(self@.take(i as int) =~= self@);
        }
        n
    }

    /// Start a trail in the lowest empty slot; refused when every slot is live.
    pub fn start(&mut self) -> (r: Result<RibbonId, EngineError>)
        requires
            old(self).wf(),
        ensures
            final(self).wf(),
            generations_monotone(old(self)@, final(self)@),
            match r {
                Ok(id) => {
                    &&& id.slot < MAX_RIBBONS
                    &&& !old(self)@[id.slot as int].live
                    &&& forall|j: int| 0 <= j < id.slot ==> old(self)@[j].live
                    &&& id.generation == old(self)@[id.slot as int].generation
                    &&& final(self)@ == old(self)@.update(
                        id.slot as int,
                        SlotState { generation: id.generation, live: true, recording: true, points: 1 },
                    )
                    &&& handle_valid(final(self)@, id)
                },
                Err(e) => {
                    &&& forall|j: int| 0 <= j < MAX_RIBBONS ==> old(self)@[j].live
                    &&& final(self)@ == old(self)@
                    &&& is_resource_limit(e, "ribbon capacity (32) exhausted"@)
                },
            },
    {
        let mut i: usize = 0;
        while i < self.slots.len()
            invariant
                self.wf(),
                self@ == old(self)@,
                i <= self@.len(),
                forall|j: int| 0 <= j < i ==> self@[j].live,
            decreases self@.len() - i,
        {
            if !self.slots[i].live {
                let g = self.slots[i].generation;
                self.slots.set(i, SlotState { generation: g, live: true, recording: true, points: 1 });
                return Ok(RibbonId { slot: i as u32, generation: g });
            }
            i = i + 1;
        }
        Err(resource_limit("ribbon capacity (32) exhausted"))
    }

    fn check(&self, id: RibbonId) -> (r: Result<usize, EngineError>)
        requires
            self.wf(),
        ensures
            match r {
                Ok(i) => i == id.slot && handle_valid(self@, id),
                Err(e) => !handle_valid(self@, id) && lookup_error(self@, id, e),
            },
    {
        if id.slot as usize >= self.slots.len() {
            return Err(invalid_value("ribbon handle has invalid slot"));
        }
        let s = self.slots[id.slot as usize];
        if s.generation != id.generation || !s.live {
            return Err(invalid_value("stale ribbon handle"));
        }
        Ok(id.slot as usize)
    }

    /// Decide how a new head position joins the trail `id`. `far_enough` says
    /// whether the head is at least the style's point spacing away from the
    /// newest point; it is not consulted when the trail has no points.
    pub fn update_head(&mut self, id: RibbonId, far_enough: bool) -> (r: Result<HeadAction, EngineError>)
        requires
            old(self).wf(),
        ensures
            final(self).wf(),
            generations_monotone(old(self)@, final(self)@),
            !handle_valid(old(self)@, id) ==> (r matches Err(e) && lookup_error(old(self)@, id, e)
                && final(self)@ == old(self)@),
            handle_valid(old(self)@, id) ==> {
                let s = old(self)@[id.slot as int];
                if s.points == 0 {
                    r == Ok::<HeadAction, EngineError>(HeadAction::Restart) && final(self)@
                        == old(self)@.update(id.slot as int, SlotState { points: 1, ..s })
                } else if !s.recording {
                    (r matches Err(e) && is_invalid_value(e, "cannot update a stopped ribbon"@)
                        && final(self)@ == old(self)@)
                } else if !far_enough {
                    r == Ok::<HeadAction, EngineError>(HeadAction::MoveHead) && final(self)@
                        == old(self)@
                } else if s.points == MAX_RIBBON_POINTS {
                    r == Ok::<HeadAction, EngineError>(HeadAction::AppendDropOldest)
                        && final(self)@ == old(self)@
                } else {
                    r == Ok::<HeadAction, EngineError>(HeadAction::Append) && final(self)@
                        == old(self)@.update(
                        id.slot as int,
                        SlotState { points: (s.points + 1) as u32, ..s },
                    )
                }
            },
    {
        let i = match self.check(id) {
            Ok(i) => i,
            Err(e) => return Err(e),
        };
        let s = self.slots[i];
        if s.points == 0 {
            self.slots.set(i, SlotState { points: 1, ..s });
            return Ok(HeadAction::Restart);
        }
        if !s.recording {
            return Err(invalid_value("cannot update a stopped ribbon"));
        }
        if !far_enough {
            return Ok(HeadAction::MoveHead);
        }
        if s.points as usize == MAX_RIBBON_POINTS {
            Ok(HeadAction::AppendDropOldest)
        } else {
            self.slots.set(i, SlotState { points: s.points + 1, ..s });
            Ok(HeadAction::Append)
        }
    }

    /// Stop recording the trail `id`; its tail stays until it expires.
    pub fn stop(&mut self, id: RibbonId) -> (r: Result<(), EngineError>)
        requires
            old(self).wf(),
        ensures
            final(self).wf(),
            generations_monotone(old(self)@, final(self)@),
            !handle_valid(old(self)@, id) ==> (r matches Err(e) && lookup_error(old(self)@, id, e)
                && final(self)@ == old(self)@),
            handle_valid(old(self)@, id) ==> {
                let s = old(self)@[id.slot as int];
                if !s.recording {
                    (r matches Err(e) && is_invalid_value(e, "ribbon already stopped"@)
                        && final(self)@ == old(self)@)
                } else {
                    r is Ok && final(self)@ == old(self)@.update(
                        id.slot as int,
                        SlotState { recording: false, ..s },
                    )
                }
            },
    {
        let i = match self.check(id) {
            Ok(i) => i,
            Err(e) => return Err(e),
        };
        let s = self.slots[i];
        if !s.recording {
            return Err(invalid_value("ribbon already stopped"));
        }
        self.slots.set(i, SlotState { recording: false, ..s });
        Ok(())
    }

    /// Retire every live trail.
    pub fn clear(&mut self)
        requires
            old(self).wf(),
            forall|i: int| 0 <= i < old(self)@.len() && #[trigger] old(self)@[i].live
                ==> old(self)@[i].generation < u32::MAX,
        ensures
            final(self).wf(),
            final(self)@ == cleared(old(self)@),
            generations_monotone(old(self)@, final(self)@),
    {
        let mut i: usize = 0;
        while i < self.slots.len()
            invariant
                self@.len() == old(self)@.len(),
                old(self).wf(),
                i <= self@.len(),
                forall|k: int| 0 <= k < old(self)@.len() && #[trigger] old(self)@[k].live
                    ==> old(self)@[k].generation < u32::MAX,
                forall|k: int| 0 <= k < i ==> #[trigger] self@[k] == cleared(old(self)@)[k],
                forall|k: int| i <= k < self@.len() ==> #[trigger] self@[k] == old(self)@[k],
            decreases self@.len() - i,
        {
            let s = self.slots[i];
            if s.live {
                let g = next_generation(s.generation);
                self.slots.set(i, SlotState { generation: g, live: false, recording: false, points: 0 });
            }
            i = i + 1;
        }
        proof {
            assert(self@ =~= cleared(old(self)@));
        }
    }

    /// Forget the `count` oldest points of the trail in `slot` after they
    /// aged past the style's lifetime; a stopped trail with nothing left is
    /// retired. Returns whether it was.
    pub fn expire(&mut self, slot: usize, count: u32) -> (gone: bool)
        requires
            old(self).wf(),
            slot < MAX_RIBBONS,
            old(self)@[slot as int].live,
            count <= old(self)@[slot as int].points,
            !old(self)@[slot as int].recording && count == old(self)@[slot as int].points
                ==> old(self)@[slot as int].generation < u32::MAX,
        ensures
            final(self).wf(),
            generations_monotone(old(self)@, final(self)@),
            ({
                let s = old(self)@[slot as int];
                let left = (s.points - count) as u32;
                if !s.recording && left == 0 {
                    gone && final(self)@ == old(self)@.update(slot as int, retired(s))
                } else {
                    !gone && final(self)@ == old(self)@.update(
                        slot as int,
                        SlotState { points: left, ..s },
                    )
                }
            }),
    {
        let s = self.slots[slot];
        let left = s.points - count;
        if !s.recording && left == 0 {
            let g = next_generation(s.generation);
            self.slots.set(slot, SlotState { generation: g, live: false, recording: false, points: 0 });
            true
        } else {
            self.slots.set(slot, SlotState { points: left, ..s });
            false
        }
    }
}

/// Once a slot's generation has moved past a handle's, that handle is refused
/// in every later state of the pool.
pub proof fn stale_handles_stay_stale(
    earlier: Seq<SlotState>,
    later: Seq<SlotState>,
    id: RibbonId,
)
    requires
        generations_monotone(earlier, later),
        id.slot < earlier.len(),
        id.generation < earlier[id.slot as int].generation,
    ensures
        !handle_valid(later, id),
{
    assert(earlier[id.slot as int].generation <= later[id.slot as int].generation);
}

/// Generation monotonicity composes across any sequence of pool operations.
pub proof fn generations_monotone_compose(
    a: Seq<SlotState>,
    b: Seq<SlotState>,
    c: Seq<SlotState>,
)
    requires
        generations_monotone(a, b),
        generations_monotone(b, c),
    ensures
        generations_monotone(a, c),
{
    assert forall|i: int| 0 <= i < a.len() implies #[trigger] a[i].generation
        <= c[i].generation by {
        assert(a[i].generation <= b[i].generation);
        assert(b[i].generation <= c[i].generation);
    }
}

/// Clearing refuses every handle that was valid before: the retired trails'
/// slots are empty under a newer generation, and the empty ones stay empty.
pub proof fn cleared_handles_are_refused(v: Seq<SlotState>, id: RibbonId)
    requires
        slots_wf(v),
        handle_valid(v, id),
        v[id.slot as int].generation < u32::MAX,
    ensures
        !handle_valid(cleared(v), id),
        id.generation < cleared(v)[id.slot as int].generation,
{
}

} // verus!
