//! World state: the unit collection and the terrain grid, with turn
//! bookkeeping and occupancy queries. Units are keyed by identity; the unit
//! with identity `i` sits at index `i` of the vector, which makes identity
//! assignment monotonic from zero with no reuse.

use vstd::prelude::*;

use crate::map::GameMap;
use crate::math::Point;
use crate::unit::{ErasedUnit, TextureKey, Unit, UnitId};

verus! {

#[derive(Clone, Copy, PartialEq, Eq, Structural, Debug)]
pub enum Faction {
    Player,
    Neutral,
    Enemy,
}

pub struct WorldState {
    pub units: Vec<Unit>,
    pub map: GameMap,
}

/// A unit the world can hold: it stands within grid bounds and its movement
/// budget is below the unreachable sentinel.
pub open spec fn unit_wf(u: Unit, map: GameMap) -> bool {
    map.in_bounds_spec(u.pos) && u.movement < crate::pathfinding::UNREACHABLE
}

impl WorldState {
    /// Well-formed world: usable map, every unit's identity equals its index,
    /// and every unit is holdable.
    pub open spec fn wf(&self) -> bool {
        &&& self.map.wf()
        &&& self.units@.len() < u32::MAX
        &&& forall|i: int|
            0 <= i < self.units@.len() ==> (#[trigger] self.units@[i]).id == (UnitId(i as u32))
        &&& forall|i: int|
            0 <= i < self.units@.len() ==> unit_wf(#[trigger] self.units@[i], self.map)
    }

    /// Unit `i` is of faction `f` and has not yet acted this round.
    pub open spec fn unmoved_candidate(&self, f: Faction, i: int) -> bool {
        &&& 0 <= i < self.units@.len()
        &&& self.units@[i].faction == f
        &&& !self.units@[i].turn_complete
    }

    pub open spec fn has_unmoved(&self, f: Faction) -> bool {
        exists|i: int| self.unmoved_candidate(f, i)
    }

    /// No unit other than an optionally excluded one stands on `pos`.
    pub open spec fn tile_empty_spec(&self, pos: Point, excluding: Option<UnitId>) -> bool {
        forall|i: int|
            0 <= i < self.units@.len() ==> ((#[trigger] self.units@[i]).pos == pos ==> excluding
                == Some(self.units@[i].id))
    }

    pub fn new(map: GameMap) -> (r: Self)
        requires
            map.wf(),
        ensures
            r.wf(),
            r.units@.len() == 0,
            r.map == map,
    {
        Self { units: Vec::new(), map }
    }

    /// Spawn a unit, assigning the next identity, monotonically increasing
    /// from zero; freed identities are never reused (none are freed).
    pub fn spawn_units(&mut self, erased: &ErasedUnit, texture: TextureKey)
        requires
            old(self).wf(),
            old(self).units@.len() + 1 < u32::MAX,
            old(self).map.in_bounds_spec(erased.pos),
            erased.movement < crate::pathfinding::UNREACHABLE,
        ensures
            final(self).wf(),
            final(self).map == old(self).map,
            final(self).units@.len() == old(self).units@.len() + 1,
            forall|i: int|
                0 <= i < old(self).units@.len() ==> final(self).units@[i] == old(self).units@[i],
            final(self).units@.last() == (Unit {
                id: UnitId(old(self).units@.len() as u32),
                movement: erased.movement,
                movement_class: erased.movement_class,
                turn_complete: erased.turn_complete,
                faction: erased.faction,
                curr_health: erased.curr_health,
                max_health: erased.max_health,
                pos: erased.pos,
                texture,
                weapon: erased.weapon,
            }),
    {
        let id = UnitId(self.units.len() as u32);
        let unit = Unit::from_erased(id, erased, texture);
        self.units.push(unit);
    }

    /// Clear the turn-complete flag for every unit, regardless of faction:
    /// the reset happens once per full round.
    pub fn setup_turn(&mut self)
        requires
            old(self).wf(),
        ensures
            final(self).wf(),
            final(self).map == old(self).map,
            final(self).units@.len() == old(self).units@.len(),
            forall|i: int|
                0 <= i < old(self).units@.len() ==> final(self).units@[i] == (Unit {
                    turn_complete: false,
                    ..old(self).units@[i]
                }),
    {
        let n = self.units.len();
        let mut i: usize = 0;
        while i < n
            invariant
                i <= n,
                n == self.units@.len(),
                self.map == old(self).map,
                old(self).wf(),
                forall|k: int|
                    0 <= k < i ==> self.units@[k] == (Unit {
                        turn_complete: false,
                        ..old(self).units@[k]
                    }),
                forall|k: int| i <= k < n ==> self.units@[k] == old(self).units@[k],
            decreases n - i,
        {
            let mut u = self.units[i];
            u.turn_complete = false;
            self.units.set(i, u);
            i = i + 1;
        }
        assert(self.wf()) by {
            assert(forall|k: int|
                0 <= k < self.units@.len() ==> (#[trigger] self.units@[k]).id == old(
                    self,
                ).units@[k].id && self.units@[k].pos == old(self).units@[k].pos
                    && self.units@[k].movement == old(self).units@[k].movement);
        }
    }

    /// The unmoved unit of `f` with the lowest identity, if any: a stable,
    /// deterministic order, so simulated play and tests are reproducible.
    pub fn get_unmoved_unit(&self, faction: Faction) -> (r: Option<Unit>)
        ensures
            r.is_some() <==> self.has_unmoved(faction),
            r matches Some(u) ==> exists|i: int|
                {
                    &&& #[trigger] self.unmoved_candidate(faction, i)
                    &&& u == self.units@[i]
                    &&& forall|j: int| 0 <= j < i ==> !self.unmoved_candidate(faction, j)
                },
    {
        let n = self.units.len();
        let mut i: usize = 0;
        while i < n
            invariant
                i <= n,
                n == self.units@.len(),
                forall|j: int| 0 <= j < i ==> !self.unmoved_candidate(faction, j),
            decreases n - i,
        {
            let u = self.units[i];
            if u.faction == faction && !u.turn_complete {
                assert(self.unmoved_candidate(faction, i as int));
                return Some(u);
            }
            i = i + 1;
        }
        None
    }

    /// True when no unit, other than an optionally excluded identity,
    /// occupies `pos`.
    pub fn is_tile_empty(&self, pos: Point, excluding: Option<UnitId>) -> (r: bool)
        ensures
            r == self.tile_empty_spec(pos, excluding),
    {
        let n = self.units.len();
        let mut i: usize = 0;
        while i < n
            invariant
                i <= n,
                n == self.units@.len(),
                forall|j: int|
                    0 <= j < i ==> ((#[trigger] self.units@[j]).pos == pos ==> excluding == Some(
                        self.units@[j].id,
                    )),
            decreases n - i,
        {
            let u = self.units[i];
            if u.pos == pos {
                match excluding {
                    Some(ex) => {
                        if !(ex == u.id) {
                            return false;
                        }
                    },
                    None => {
                        return false;
                    },
                }
            }
            i = i + 1;
        }
        true
    }

    /// The unmoved unit of `f` standing on `pos` with the lowest identity,
    /// if any: `get_unmoved_unit` narrowed to one tile.
    pub fn get_unmoved_by_pos(&self, faction: Faction, pos: Point) -> (r: Option<Unit>)
        ensures
            r.is_some() <==> exists|i: int|
                #[trigger] self.unmoved_candidate(faction, i) && self.units@[i].pos == pos,
            r matches Some(u) ==> exists|i: int|
                {
                    &&& #[trigger] self.unmoved_candidate(faction, i)
                    &&& self.units@[i].pos == pos
                    &&& u == self.units@[i]
                    &&& forall|j: int|
                        0 <= j < i ==> !(#[trigger] self.unmoved_candidate(faction, j)
                            && self.units@[j].pos == pos)
                },
    {
        let n = self.units.len();
        let mut i: usize = 0;
        while i < n
            invariant
                i <= n,
                n == self.units@.len(),
                forall|j: int|
                    0 <= j < i ==> !(#[trigger] self.unmoved_candidate(faction, j)
                        && self.units@[j].pos == pos),
            decreases n - i,
        {
            let u = self.units[i];
            if u.faction == faction && !u.turn_complete && u.pos == pos {
                assert(self.unmoved_candidate(faction, i as int));
                return Some(u);
            }
            i = i + 1;
        }
        None
    }
}

/// After a turn reset, every faction that has a unit at all has an unmoved
/// unit to report: no faction is skipped at its turn boundary. (All units in
/// the collection are living: there is no removal path.)
pub proof fn lemma_turn_reset_gives_unmoved(w: WorldState, f: Faction, i: int)
    requires
        0 <= i < w.units@.len(),
        w.units@[i].faction == f,
        forall|j: int| 0 <= j < w.units@.len() ==> !(#[trigger] w.units@[j]).turn_complete,
    ensures
        w.has_unmoved(f),
{
    assert(w.unmoved_candidate(f, i));
}

/// Once every unit of a faction is committed, none of them reports unmoved.
pub proof fn lemma_all_committed_none_unmoved(w: WorldState, f: Faction)
    requires
        forall|j: int|
            0 <= j < w.units@.len() && (#[trigger] w.units@[j]).faction == f
                ==> w.units@[j].turn_complete,
    ensures
        !w.has_unmoved(f),
{
}

} // verus!
