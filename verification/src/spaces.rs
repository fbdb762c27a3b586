//! Disconnected spaces of a world: interned by name, one where new entities
//! spawn, one the camera lives in, and the set that draws the outdoor sky and
//! clipmap.
use vstd::prelude::*;
use crate::error::{invalid_value, is_invalid_value, EngineError};
use crate::text::{decimal, push_decimal};

verus! {

/// Identity of a space. Space 0 is the default outdoor space.
#[derive(Clone, Copy, Debug, PartialEq, Eq, Structural, Hash)]
pub struct SpaceId(pub u32);

impl SpaceId {
    /// The default outdoor space, which every world has.
    pub open spec fn default_spec() -> SpaceId {
        SpaceId(0)
    }

    pub fn default_space() -> (s: SpaceId)
        ensures
            s == Self::default_spec(),
    {
        SpaceId(0)
    }

    pub fn raw(self) -> (r: u32)
        ensures
            r == self.0,
    {
        self.0
    }
}

/// The name `n` is interned under id `k` in `names`.
pub open spec fn named(names: Seq<(Seq<char>, u32)>, n: Seq<char>, k: u32) -> bool {
    exists|i: int| 0 <= i < names.len() && #[trigger] names[i] == (n, k)
}

/// Some name is interned under id `k`.
pub open spec fn id_known(names: Seq<(Seq<char>, u32)>, k: u32) -> bool {
    exists|i: int| 0 <= i < names.len() && #[trigger] names[i].1 == k
}

/// `s` is the default space or a named one.
pub open spec fn space_known(names: Seq<(Seq<char>, u32)>, s: SpaceId) -> bool {
    s.0 == 0 || id_known(names, s.0)
}

/// The message for an unknown space.
pub open spec fn unknown_space_message(s: SpaceId) -> Seq<char> {
    "unknown space "@ + decimal(s.0 as nat)
}

/// The spaces of one world.
pub struct Spaces {
    names: Vec<(String, u32)>,
    next_space_id: u32,
    spawn_space: SpaceId,
    live_space: SpaceId,
    environment: Vec<u32>,
}

impl Spaces {
    /// Interned names and their ids, in interning order.
    pub closed spec fn names(&self) -> Seq<(Seq<char>, u32)> {
        self.names@.map_values(|p: (String, u32)| (p.0@, p.1))
    }

    pub closed spec fn next_id(&self) -> u32 {
        self.next_space_id
    }

    pub closed spec fn spawn_in(&self) -> SpaceId {
        self.spawn_space
    }

    pub closed spec fn live_in_spec(&self) -> SpaceId {
        self.live_space
    }

    /// Named spaces that also draw the outdoor environment.
    pub closed spec fn environment(&self) -> Seq<u32> {
        self.environment@
    }

    /// Names and ids are each interned once, ids count up from 1, and the
    /// spawn space, the live space, and every environment space are known.
    pub open spec fn wf(&self) -> bool {
        let n = self.names();
        &&& self.next_id() >= 1
        &&& forall|i: int| 0 <= i < n.len() ==> 1 <= #[trigger] n[i].1 < self.next_id()
        &&& forall|i: int, j: int|
            0 <= i < j < n.len() ==> #[trigger] n[i].0 != #[trigger] n[j].0 && n[i].1 != n[j].1
        &&& space_known(n, self.spawn_in())
        &&& space_known(n, self.live_in_spec())
        &&& self.environment().no_duplicates()
        &&& forall|i: int| 0 <= i < self.environment().len() ==> id_known(n, #[trigger] self.environment()[i])
    }

    /// Only the default space; spawning and living there.
    pub fn new() -> (s: Self)
        ensures
            s.wf(),
            s.names() == Seq::<(Seq<char>, u32)>::empty(),
            s.next_id() == 1,
            s.spawn_in() == SpaceId::default_spec(),
            s.live_in_spec() == SpaceId::default_spec(),
            s.environment() == Seq::<u32>::empty(),
    {
        let s = Spaces {
            names: Vec::new(),
            next_space_id: 1,
            spawn_space: SpaceId(0),
            live_space: SpaceId(0),
            environment: Vec::new(),
        };
        assert(s.names() =~= Seq::<(Seq<char>, u32)>::empty());
        s
    }

    /// Room is left to intern another name.
    pub fn can_intern(&self) -> (b: bool)
        ensures
            b == (self.next_id() < u32::MAX),
    {
        self.next_space_id < u32::MAX
    }

    fn lookup(&self, name: &String) -> (r: Option<u32>)
        requires
            self.wf(),
        ensures
            match r {
                Some(k) => named(self.names(), name@, k),
                None => forall|i: int| 0 <= i < self.names().len() ==> #[trigger] self.names()[i].0 != name@,
            },
    {
        let mut i: usize = 0;
        while i < self.names.len()
            invariant
                i <= self.names@.len(),
                self.names().len() == self.names@.len(),
                self.names() == self.names@.map_values(|p: (String, u32)| (p.0@, p.1)),
                forall|j: int| 0 <= j < i ==> #[trigger] self.names()[j].0 != name@,
            decreases self.names@.len() - i,
        {
            if self.names[i].0.eq(name) {
                assert(self.names()[i as int] == (name@, self.names[i as int].1));
                return Some(self.names[i].1);
            }
            i = i + 1;
        }
        None
    }

    /// Intern a disconnected space by name: a known name gets its id back,
    /// a new one the next id. Does not change where new entities spawn.
    pub fn space(&mut self, name: &str) -> (r: Result<SpaceId, EngineError>)
        requires
            old(self).wf(),
            old(self).next_id() < u32::MAX,
        ensures
            final(self).wf(),
            final(self).spawn_in() == old(self).spawn_in(),
            final(self).live_in_spec() == old(self).live_in_spec(),
            final(self).environment() == old(self).environment(),
            name@.len() == 0 ==> (r matches Err(e) && is_invalid_value(
                e,
                "space name must not be empty"@,
            ) && final(self).names() == old(self).names() && final(self).next_id() == old(self).next_id()),
            name@.len() > 0 && (exists|k: u32| named(old(self).names(), name@, k)) ==> (r matches Ok(s)
                && named(old(self).names(), name@, s.0) && final(self).names() == old(self).names()
                && final(self).next_id() == old(self).next_id()),
            name@.len() > 0 && !(exists|k: u32| named(old(self).names(), name@, k)) ==> (r matches Ok(s) && s.0 == old(self).next_id() && !id_known(old(self).names(), s.0) && final(self).names() == old(self).names().push((name@, s.0)) && final(self).next_id() == old(self).next_id() + 1),
    {
        if name.unicode_len() == 0 {
            return Err(invalid_value("space name must not be empty"));
        }
        let owned = String::from_str(name);
        match self.lookup(&owned) {
            Some(k) => Ok(SpaceId(k)),
            None => {
                proof {
                    assert forall|k: u32| !named(old(self).names(), name@, k) by {
                        if named(old(self).names(), name@, k) {
                            let i = choose|i: int| 0 <= i < old(self).names().len() && #[trigger] old(self).names()[i] == (name@, k);
                            assert(old(self).names()[i].0 != name@);
                        }
                    }
                    assert forall|i: int| 0 <= i < old(self).names().len() implies #[trigger] old(self).names()[i].1 != self.next_space_id by {
                    }
                }
                let id = self.next_space_id;
                self.next_space_id = id + 1;
                let ghost before = self.names();
                self.names.push((owned, id));
                proof {
                    assert(self.names() =~= before.push((name@, id)));
                    let n = self.names();
                    assert forall|i: int| 0 <= i < n.len() && #[trigger] n[i].1 == id implies i == n.len() - 1 by {
                        if i < n.len() - 1 {
                            assert(before[i].1 < id);
                        }
                    }
                    assert forall|k: u32| id_known(before, k) implies id_known(n, k) by {
                        let i = choose|i: int| 0 <= i < before.len() && #[trigger] before[i].1 == k;
                        assert(n[i] == before[i]);
                    }
                    assert(space_known(n, self.spawn_space));
                    assert(space_known(n, self.live_space));
                    assert forall|i: int| 0 <= i < self.environment().len() implies id_known(n, #[trigger] self.environment()[i]) by {
                        assert(id_known(before, self.environment()[i]));
                    }
                }
                Ok(SpaceId(id))
            },
        }
    }

    fn known_id(&self, k: u32) -> (b: bool)
        ensures
            b == id_known(self.names(), k),
    {
        let mut i: usize = 0;
        while i < self.names.len()
            invariant
                i <= self.names@.len(),
                self.names().len() == self.names@.len(),
                self.names() == self.names@.map_values(|p: (String, u32)| (p.0@, p.1)),
                forall|j: int| 0 <= j < i ==> #[trigger] self.names()[j].1 != k,
            decreases self.names@.len() - i,
        {
            if self.names[i].1 == k {
                assert(self.names()[i as int].1 == k);
                return true;
            }
            i = i + 1;
        }
        false
    }

    /// The default space, or a space this world interned.
    pub fn require_space(&self, space: SpaceId) -> (r: Result<(), EngineError>)
        ensures
            r is Ok <==> space_known(self.names(), space),
            r matches Err(e) ==> is_invalid_value(e, unknown_space_message(space)),
    {
        if space.0 == 0 || self.known_id(space.0) {
            return Ok(());
        }
        let mut msg = String::from_str("unknown space ");
        push_decimal(&mut msg, space.0 as u64);
        assert(msg@ =~= unknown_space_message(space));
        Err(EngineError::InvalidValue(msg))
    }

    /// Subsequent spawns go into `space`.
    pub fn in_space(&mut self, space: SpaceId) -> (r: Result<(), EngineError>)
        requires
            old(self).wf(),
        ensures
            final(self).wf(),
            final(self).names() == old(self).names(),
            final(self).next_id() == old(self).next_id(),
            final(self).live_in_spec() == old(self).live_in_spec(),
            final(self).environment() == old(self).environment(),
            r is Ok <==> space_known(old(self).names(), space),
            r is Ok ==> final(self).spawn_in() == space,
            r matches Err(e) ==> is_invalid_value(e, unknown_space_message(space)) && final(self).spawn_in() == old(self).spawn_in(),
    {
        match self.require_space(space) {
            Ok(()) => {
                self.spawn_space = space;
                Ok(())
            },
            Err(e) => Err(e),
        }
    }

    /// Which space the main camera is standing in. Returns whether it changed,
    /// in which case any remembered portal crossing is void.
    pub fn live_in(&mut self, space: SpaceId) -> (r: Result<bool, EngineError>)
        requires
            old(self).wf(),
        ensures
            final(self).wf(),
            final(self).names() == old(self).names(),
            final(self).next_id() == old(self).next_id(),
            final(self).spawn_in() == old(self).spawn_in(),
            final(self).environment() == old(self).environment(),
            r is Ok <==> space_known(old(self).names(), space),
            r matches Ok(changed) ==> final(self).live_in_spec() == space && changed == (old(self).live_in_spec() != space),
            r matches Err(e) ==> is_invalid_value(e, unknown_space_message(space)) && final(self).live_in_spec() == old(self).live_in_spec(),
    {
        match self.require_space(space) {
            Ok(()) => {
                let changed = self.live_space.0 != space.0;
                self.live_space = space;
                Ok(changed)
            },
            Err(e) => Err(e),
        }
    }

    pub fn living_in(&self) -> (s: SpaceId)
        ensures
            s == self.live_in_spec(),
    {
        self.live_space
    }

    pub fn spawning_in(&self) -> (s: SpaceId)
        ensures
            s == self.spawn_in(),
    {
        self.spawn_space
    }

    fn env_index(&self, k: u32) -> (r: Option<usize>)
        ensures
            match r {
                Some(i) => i < self.environment().len() && self.environment()[i as int] == k,
                None => !self.environment().contains(k),
            },
    {
        let mut i: usize = 0;
        while i < self.environment.len()
            invariant
                i <= self.environment@.len(),
                forall|j: int| 0 <= j < i ==> self.environment@[j] != k,
            decreases self.environment@.len() - i,
        {
            if self.environment[i] == k {
                return Some(i);
            }
            i = i + 1;
        }
        None
    }

    /// Sky and clipmap belong to the default outdoor space, and to any named
    /// space that opted in.
    pub fn space_draws_environment(&self, space: SpaceId) -> (b: bool)
        ensures
            b == (space.0 == 0 || self.environment().contains(space.0)),
    {
        space.0 == 0 || self.env_index(space.0).is_some()
    }

    /// Let a named space draw the outdoor sky and clipmap, or take that back.
    /// The default space always draws the environment; asking to disable it
    /// is a caller bug, not a silent no-op.
    pub fn set_space_draws_environment(&mut self, space: SpaceId, draws: bool) -> (r: Result<
        (),
        EngineError,
    >)
        requires
            old(self).wf(),
        ensures
            final(self).wf(),
            final(self).names() == old(self).names(),
            final(self).next_id() == old(self).next_id(),
            final(self).spawn_in() == old(self).spawn_in(),
            final(self).live_in_spec() == old(self).live_in_spec(),
            !space_known(old(self).names(), space) ==> (r matches Err(e) && is_invalid_value(
                e,
                unknown_space_message(space),
            ) && final(self).environment() == old(self).environment()),
            space.0 == 0 && draws ==> r is Ok && final(self).environment() == old(self).environment(),
            space.0 == 0 && !draws ==> (r matches Err(e) && is_invalid_value(
                e,
                "the default space always draws the outdoor environment"@,
            ) && final(self).environment() == old(self).environment()),
            space.0 != 0 && space_known(old(self).names(), space) ==> r is Ok && (forall|k: u32|
                #[trigger] final(self).environment().contains(k) <==> (if k == space.0 {
                    draws
                } else {
                    old(self).environment().contains(k)
                })),
    {
        match self.require_space(space) {
            Err(e) => return Err(e),
            Ok(()) => {},
        }
        if space.0 == 0 {
            if draws {
                return Ok(());
            }
            return Err(invalid_value("the default space always draws the outdoor environment"));
        }
        let at = self.env_index(space.0);
        let ghost before = self.environment@;
        if draws {
            if at.is_none() {
                self.environment.push(space.0);
                proof {
                    assert forall|k: u32| #[trigger] self.environment@.contains(k) <==> (k == space.0 || before.contains(k)) by {
                        if self.environment@.contains(k) {
                            let i = choose|i: int| 0 <= i < self.environment@.len() && self.environment@[i] == k;
                            if i < before.len() {
                                assert(before[i] == k);
                            }
                        }
                        if before.contains(k) {
                            let i = choose|i: int| 0 <= i < before.len() && before[i] == k;
                            assert(self.environment@[i] == k);
                        }
                        if k == space.0 {
                            assert(self.environment@[before.len() as int] == k);
                        }
                    }
                }
            }
        } else {
            match at {
                Some(i) => {
                    self.environment.remove(i);
                    proof {
                        assert forall|k: u32| #[trigger] self.environment@.contains(k) <==> (k != space.0 && before.contains(k)) by {
                            if self.environment@.contains(k) {
                                let j = choose|j: int| 0 <= j < self.environment@.len() && self.environment@[j] == k;
                                let oj = if j < i { j } else { j + 1 };
                                assert(before[oj] == k);
                                assert(oj != i as int);
                            }
                            if k != space.0 && before.contains(k) {
                                let j = choose|j: int| 0 <= j < before.len() && before[j] == k;
                                assert(j != i as int);
                                let nj = if j < i { j } else { j - 1 };
                                assert(self.environment@[nj] == k);
                            }
                        }
                        assert forall|a: int, b: int| 0 <= a < b < self.environment@.len() implies self.environment@[a] != self.environment@[b] by {
                            let oa = if a < i { a } else { a + 1 };
                            let ob = if b < i { b } else { b + 1 };
                            assert(before[oa] != before[ob]);
                        }
                        assert forall|j: int| 0 <= j < self.environment().len() implies id_known(self.names(), #[trigger] self.environment()[j]) by {
                            let oj = if j < i { j } else { j + 1 };
                            assert(self.environment()[j] == before[oj]);
                        }
                    }
                },
                None => {},
            }
        }
        Ok(())
    }
}

/// Interning is a function of the name: two requests for one name yield one
/// space, and two different names never share one.
pub proof fn interned_names_and_ids_correspond(names: Seq<(Seq<char>, u32)>, a: Seq<char>, b: Seq<char>, ka: u32, kb: u32)
    requires
        forall|i: int, j: int| 0 <= i < j < names.len() ==> #[trigger] names[i].0 != #[trigger] names[j].0 && names[i].1 != names[j].1,
        named(names, a, ka),
        named(names, b, kb),
    ensures
        a == b <==> ka == kb,
{
    let i = choose|i: int| 0 <= i < names.len() && #[trigger] names[i] == (a, ka);
    let j = choose|j: int| 0 <= j < names.len() && #[trigger] names[j] == (b, kb);
    if i < j {
        assert(names[i].0 != names[j].0 && names[i].1 != names[j].1);
    } else if j < i {
        assert(names[j].0 != names[i].0 && names[j].1 != names[i].1);
    }
}

} // verus!
