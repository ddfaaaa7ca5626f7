//! Simulated (enemy) turn-flow states: the per-faction manager and the
//! heuristic move-and-attack policy.

use vstd::prelude::*;

use crate::input::ControllerInput;
use crate::map::GameMap;
use crate::math::Point;
use crate::pathfinding::{
    lemma_path_to_properties, search_ctx_of, DijkstraMap,
};
use crate::state::animation::MoveAnimation;
use crate::state::player::PlayerSelect;
use crate::state::{
    dm_matches_map, msg_wf, outcome_wf, Command, GameMsg, GameState, StepOutcome, Transition,
};
use crate::unit::Unit;
use crate::world::{unit_wf, Faction, WorldState};

verus! {

/// Drives one simulated faction's round: picks the next unmoved unit and
/// pushes its move, or ends the round.
pub struct SimulatedManager {
    pub faction: Faction,
}

/// What one tick of the manager produces, as a relation between the state
/// before, the world, and the outcome.
pub open spec fn simulated_manager_step(
    s: SimulatedManager,
    msg: Option<GameMsg>,
    input: ControllerInput,
    world: WorldState,
    r: StepOutcome,
) -> bool {
    &&& r.post_msg is None
    &&& r.state matches GameState::SimulatedManager(sm) && sm.faction == s.faction
    &&& !world.has_unmoved(s.faction) ==> {
        &&& r.commands@.len() == 1 && r.commands@[0] == Command::SetupTurn
        &&& r.transition matches Transition::Switch(g) && g matches GameState::PlayerSelect(ps)
            && crate::state::player::fresh_select_ok(ps, world)
    }
    &&& world.has_unmoved(s.faction) ==> exists|i: int|
        {
            &&& #[trigger] world.unmoved_candidate(s.faction, i)
            &&& forall|j: int| 0 <= j < i ==> !world.unmoved_candidate(s.faction, j)
            &&& r.commands@.len() == 1 && r.commands@[0] == Command::FocusView(world.units@[i].pos)
            &&& r.transition matches Transition::Push(g) && g matches GameState::MoveSimulated(ms)
                && ms.unit == world.units@[i] && ms.dijkstra_map.wf() && ms.dijkstra_map.ctx()
                == search_ctx_of(world.map, world.units@[i], world.units@)
        }
}

impl SimulatedManager {
    pub open spec fn wf(self, map: GameMap) -> bool {
        true
    }

    pub fn new(faction: Faction) -> (r: Self)
        ensures
            r.faction == faction,
    {
        Self { faction }
    }

    /// One tick of the manager. With an unmoved unit left it builds that
    /// unit's movement range and pushes the simulated move; with none left
    /// it issues the turn reset and switches to a fresh player selection.
    /// It never pushes a simulated move in the latter case. Any pending
    /// message is unexpected here and is discarded.
    pub fn update(self, msg: Option<GameMsg>, input: &ControllerInput, world: &WorldState) -> (r:
        StepOutcome)
        requires
            world.wf(),
            input.dpad_wf(),
            msg matches Some(m) ==> msg_wf(m, world.map),
        ensures
            outcome_wf(r, world.map),
            simulated_manager_step(self, msg, *input, *world, r),
    {
        match world.get_unmoved_unit(self.faction) {
            Some(unit) => {
                let dijkstra_map = DijkstraMap::new(&world.map, &unit, &world.units);
                let mut cmds: Vec<Command> = Vec::new();
                cmds.push(Command::FocusView(unit.pos));
                let ms = MoveSimulated { unit, dijkstra_map };
                StepOutcome {
                    state: GameState::SimulatedManager(self),
                    transition: Transition::Push(GameState::MoveSimulated(ms)),
                    commands: cmds,
                    post_msg: None,
                }
            },
            None => {
                let mut cmds: Vec<Command> = Vec::new();
                cmds.push(Command::SetupTurn);
                let ps = PlayerSelect::new(world);
                StepOutcome {
                    state: GameState::SimulatedManager(self),
                    transition: Transition::Switch(GameState::PlayerSelect(ps)),
                    commands: cmds,
                    post_msg: None,
                }
            },
        }
    }
}

/// A destination the heuristic accepts: an empty, reachable cell directly
/// adjacent to some player unit.
pub open spec fn sim_move_candidate(world: WorldState, dm: DijkstraMap, pt: Point) -> bool {
    &&& dm.reachable(pt)
    &&& world.tile_empty_spec(pt, None)
    &&& exists|j: int|
        0 <= j < world.units@.len() && (#[trigger] world.units@[j]).faction == Faction::Player && 0
            < world.units@[j].pos.manhattan_dist(pt) <= 1
}

/// A simulated unit choosing its destination.
pub struct MoveSimulated {
    pub unit: Unit,
    pub dijkstra_map: DijkstraMap,
}

/// What one tick of the simulated move produces.
pub open spec fn move_simulated_step(
    s: MoveSimulated,
    msg: Option<GameMsg>,
    input: ControllerInput,
    world: WorldState,
    r: StepOutcome,
) -> bool {
    &&& r.commands@.len() == 0
    &&& r.post_msg is None
    &&& r.state matches GameState::MoveSimulated(s2) && s2.unit == s.unit && s2.dijkstra_map
        == s.dijkstra_map
    &&& msg matches Some(GameMsg::MoveAnimationDone(u)) ==> ({
        &&& r.transition matches Transition::Push(g)
        &&& g matches GameState::ActionSimulated(a)
        &&& a.unit == u
    })
    &&& !(msg matches Some(GameMsg::MoveAnimationDone(_))) ==> ({
        &&& r.transition matches Transition::Push(g)
        &&& g matches GameState::MoveAnimation(ma)
        &&& ma.unit == s.unit
        &&& ma.timer_ms == 0
        &&& exists|dest: Point|
            {
                &&& #[trigger] ma.path@ == s.dijkstra_map.path_to(dest)
                &&& (sim_move_candidate(world, s.dijkstra_map, dest) || dest == s.unit.pos)
                &&& ((exists|pt: Point| sim_move_candidate(world, s.dijkstra_map, pt)) ==> (
                sim_move_candidate(world, s.dijkstra_map, dest) && forall|pt: Point|
                    #[trigger] sim_move_candidate(world, s.dijkstra_map, pt)
                        ==> s.dijkstra_map.cost_of(dest) <= s.dijkstra_map.cost_of(pt)))
            }
    })
}

impl MoveSimulated {
    pub open spec fn wf(self, map: GameMap) -> bool {
        &&& unit_wf(self.unit, map)
        &&& dm_matches_map(self.dijkstra_map, map)
        &&& self.dijkstra_map.ctx().start == self.unit.pos
    }

    /// One tick: choose a destination heuristically — the nearest (cheapest
    /// by recorded movement cost, ties to the first in scan order) empty
    /// reachable cell adjacent to some player unit, falling back to staying
    /// put — and push the move animation along the reconstructed path. A
    /// move-finished message pushes the simulated action instead.
    pub fn update(self, msg: Option<GameMsg>, input: &ControllerInput, world: &WorldState) -> (r:
        StepOutcome)
        requires
            world.wf(),
            self.wf(world.map),
            input.dpad_wf(),
            msg matches Some(m) ==> msg_wf(m, world.map),
        ensures
            outcome_wf(r, world.map),
            move_simulated_step(self, msg, *input, *world, r),
    {
        match msg {
            Some(GameMsg::MoveAnimationDone(u)) => {
                return StepOutcome {
                    state: GameState::MoveSimulated(self),
                    transition: Transition::Push(
                        GameState::ActionSimulated(ActionSimulated { unit: u }),
                    ),
                    commands: Vec::new(),
                    post_msg: None,
                };
            },
            Some(_) => {
                // unexpected here: discarded
            },
            None => {
            },
        }
        let mut dest = self.unit.pos;
        let mut found = false;
        let mut best: u32 = crate::pathfinding::UNREACHABLE;
        let n = world.units.len();
        let mut i: usize = 0;
        while i < n
            invariant
                i <= n,
                n == world.units@.len(),
                world.wf(),
                self.wf(world.map),
                found ==> sim_move_candidate(*world, self.dijkstra_map, dest) && best
                    == self.dijkstra_map.cost_of(dest),
                !found ==> dest == self.unit.pos,
                !found ==> forall|jj: int, pt: Point|
                    (0 <= jj < i && world.units@[jj].faction == Faction::Player && 0 < (
                    #[trigger] world.units@[jj].pos.manhattan_dist(pt)) <= 1)
                        ==> !(world.tile_empty_spec(pt, None) && self.dijkstra_map.reachable(pt)),
                forall|jj: int, pt: Point|
                    (0 <= jj < i && world.units@[jj].faction == Faction::Player && 0 < (
                    #[trigger] world.units@[jj].pos.manhattan_dist(pt)) <= 1
                        && world.tile_empty_spec(pt, None) && self.dijkstra_map.reachable(pt))
                        ==> best <= self.dijkstra_map.cost_of(pt),
            decreases n - i,
        {
            let u2 = world.units[i];
            if u2.faction == Faction::Player {
                let neigh = crate::pathfinding::get_manahattan_neighbours(u2.pos, 1);
                let m = neigh.len();
                let mut j: usize = 0;
                while j < m
                    invariant
                        j <= m,
                        i < n,
                        n == world.units@.len(),
                        world.wf(),
                        self.wf(world.map),
                        u2 == world.units@[i as int],
                        u2.faction == Faction::Player,
                        m == neigh@.len(),
                        forall|p: Point|
                            #[trigger] neigh@.contains(p) <==> 0 < u2.pos.manhattan_dist(p) <= 1,
                        found ==> sim_move_candidate(*world, self.dijkstra_map, dest) && best
                            == self.dijkstra_map.cost_of(dest),
                        !found ==> dest == self.unit.pos,
                        !found ==> forall|jj: int, pt: Point|
                            (0 <= jj < i && world.units@[jj].faction == Faction::Player && 0 < (
                            #[trigger] world.units@[jj].pos.manhattan_dist(pt)) <= 1)
                                ==> !(world.tile_empty_spec(pt, None)
                                && self.dijkstra_map.reachable(pt)),
                        !found ==> forall|l: int|
                            0 <= l < j ==> !(world.tile_empty_spec(#[trigger] neigh@[l], None)
                                && self.dijkstra_map.reachable(neigh@[l])),
                        forall|jj: int, pt: Point|
                            (0 <= jj < i && world.units@[jj].faction == Faction::Player && 0 < (
                            #[trigger] world.units@[jj].pos.manhattan_dist(pt)) <= 1
                                && world.tile_empty_spec(pt, None) && self.dijkstra_map.reachable(
                                pt,
                            )) ==> best <= self.dijkstra_map.cost_of(pt),
                        forall|l: int|
                            (0 <= l < j && world.tile_empty_spec(#[trigger] neigh@[l], None)
                                && self.dijkstra_map.reachable(neigh@[l])) ==> best
                                <= self.dijkstra_map.cost_of(neigh@[l]),
                    decreases m - j,
                {
                    let pt = neigh[j];
                    proof {
                        assert(neigh@.contains(neigh@[j as int]));
                    }
                    if world.is_tile_empty(pt, None) && self.dijkstra_map.is_reachable(pt) {
                        let c = self.dijkstra_map.get_cost(pt);
                        if !found || c < best {
                            dest = pt;
                            found = true;
                            best = c;
                            proof {
                                assert(world.units@[i as int].faction == Faction::Player);
                                assert(0 < world.units@[i as int].pos.manhattan_dist(dest) <= 1);
                                assert(exists|jj: int|
                                    0 <= jj < world.units@.len() && (
                                    #[trigger] world.units@[jj]).faction == Faction::Player && 0
                                        < world.units@[jj].pos.manhattan_dist(dest) <= 1);
                                assert(sim_move_candidate(*world, self.dijkstra_map, dest));
                            }
                        }
                    }
                    j = j + 1;
                }
                proof {
                    if !found {
                        assert forall|pt: Point| 0 < u2.pos.manhattan_dist(pt) <= 1 implies !(
                        world.tile_empty_spec(pt, None) && self.dijkstra_map.reachable(pt)) by {
                            assert(neigh@.contains(pt));
                            let l = choose|l: int| 0 <= l < neigh@.len() && neigh@[l] == pt;
                            assert(!(world.tile_empty_spec(neigh@[l], None)
                                && self.dijkstra_map.reachable(neigh@[l])));
                        }
                    }
                    assert forall|pt: Point|
                        (0 < u2.pos.manhattan_dist(pt) <= 1 && world.tile_empty_spec(pt, None)
                            && self.dijkstra_map.reachable(pt)) implies best
                        <= self.dijkstra_map.cost_of(pt) by {
                        assert(neigh@.contains(pt));
                        let l = choose|l: int| 0 <= l < neigh@.len() && neigh@[l] == pt;
                        assert(best <= self.dijkstra_map.cost_of(neigh@[l]));
                    }
                }
            }
            i = i + 1;
        }
        proof {
            if !found {
                assert forall|pt: Point| !sim_move_candidate(
                    *world,
                    self.dijkstra_map,
                    pt,
                ) by {
                    if sim_move_candidate(*world, self.dijkstra_map, pt) {
                        let jj = choose|jj: int|
                            0 <= jj < world.units@.len() && (#[trigger] world.units@[jj]).faction
                                == Faction::Player && 0 < world.units@[jj].pos.manhattan_dist(pt)
                                <= 1;
                        assert(!(world.tile_empty_spec(pt, None) && self.dijkstra_map.reachable(
                            pt,
                        )));
                    }
                }
                self.dijkstra_map.lemma_start_reachable();
            }
        }
        let path = self.dijkstra_map.get_path_to(dest);
        proof {
            lemma_path_to_properties(self.dijkstra_map, dest);
        }
        let ma = MoveAnimation::new(self.unit, path);
        StepOutcome {
            state: GameState::MoveSimulated(self),
            transition: Transition::Push(GameState::MoveAnimation(ma)),
            commands: Vec::new(),
            post_msg: None,
        }
    }
}

/// A simulated unit acting after its move: strike a player unit in reach,
/// then commit turn-complete.
pub struct ActionSimulated {
    pub unit: Unit,
}

/// What one tick of the simulated action produces.
pub open spec fn action_simulated_step(
    s: ActionSimulated,
    msg: Option<GameMsg>,
    input: ControllerInput,
    world: WorldState,
    r: StepOutcome,
) -> bool {
    &&& r.post_msg is None
    &&& r.transition is PopAllButFirst
    &&& r.state matches GameState::ActionSimulated(a2) && a2.unit == (Unit {
        turn_complete: true,
        ..s.unit
    })
    &&& (exists|i: int|
        0 <= i < world.units@.len() && (#[trigger] world.units@[i]).faction == Faction::Player && 0
            < s.unit.pos.manhattan_dist(world.units@[i].pos) <= 2) ==> exists|i: int|
        {
            &&& 0 <= i < world.units@.len()
            &&& (#[trigger] world.units@[i]).faction == Faction::Player
            &&& 0 < s.unit.pos.manhattan_dist(world.units@[i].pos) <= 2
            &&& forall|j: int|
                0 <= j < i ==> !((#[trigger] world.units@[j]).faction == Faction::Player && 0
                    < s.unit.pos.manhattan_dist(world.units@[j].pos) <= 2)
            &&& r.commands@.len() == 2
            &&& r.commands@[0] == Command::DamageUnit(world.units@[i].id, 5)
            &&& r.commands@[1] == Command::CommitUnit(Unit { turn_complete: true, ..s.unit })
        }
    &&& !(exists|i: int|
        0 <= i < world.units@.len() && (#[trigger] world.units@[i]).faction == Faction::Player && 0
            < s.unit.pos.manhattan_dist(world.units@[i].pos) <= 2) ==> r.commands@.len() == 1
        && r.commands@[0] == Command::CommitUnit(Unit { turn_complete: true, ..s.unit })
}

impl ActionSimulated {
    pub open spec fn wf(self, map: GameMap) -> bool {
        unit_wf(self.unit, map)
    }

    /// One tick: if a player unit stands within taxicab distance 2 of the
    /// final position, issue the fixed damage against the lowest-identity
    /// such unit; either way commit the unit turn-complete and unwind to the
    /// base state. Any pending message is ignored.
    ///
    /// The strike radius here is deliberately 2, one more than the player's
    /// attack reach: the simulated unit is given a little slack because its
    /// destination heuristic may leave it one step short of the cell it was
    /// aiming for.
    pub fn update(self, msg: Option<GameMsg>, input: &ControllerInput, world: &WorldState) -> (r:
        StepOutcome)
        requires
            world.wf(),
            self.wf(world.map),
            input.dpad_wf(),
            msg matches Some(m) ==> msg_wf(m, world.map),
        ensures
            outcome_wf(r, world.map),
            action_simulated_step(self, msg, *input, *world, r),
    {
        let mut this = self;
        let mut cmds: Vec<Command> = Vec::new();
        let n = world.units.len();
        let mut i: usize = 0;
        let mut struck = false;
        while i < n
            invariant
                i <= n,
                n == world.units@.len(),
                world.wf(),
                self.wf(world.map),
                this == self,
                !struck ==> cmds@.len() == 0,
                !struck ==> forall|j: int|
                    0 <= j < i ==> !((#[trigger] world.units@[j]).faction == Faction::Player && 0
                        < self.unit.pos.manhattan_dist(world.units@[j].pos) <= 2),
                struck ==> exists|ii: int|
                    {
                        &&& 0 <= ii < world.units@.len()
                        &&& (#[trigger] world.units@[ii]).faction == Faction::Player
                        &&& 0 < self.unit.pos.manhattan_dist(world.units@[ii].pos) <= 2
                        &&& forall|j: int|
                            0 <= j < ii ==> !((#[trigger] world.units@[j]).faction
                                == Faction::Player && 0 < self.unit.pos.manhattan_dist(
                                world.units@[j].pos,
                            ) <= 2)
                        &&& cmds@.len() == 1
                        &&& cmds@[0] == Command::DamageUnit(world.units@[ii].id, 5)
                    },
            decreases n - i,
        {
            if !struck {
                let u2 = world.units[i];
                if u2.faction == Faction::Player {
                    let dxv = u2.pos.x - this.unit.pos.x;
                    let dyv = u2.pos.y - this.unit.pos.y;
                    let adx = if dxv < 0 {
                        -dxv
                    } else {
                        dxv
                    };
                    let ady = if dyv < 0 {
                        -dyv
                    } else {
                        dyv
                    };
                    if (adx > 0 || ady > 0) && adx <= 2 - ady && ady <= 2 {
                        proof {
                            assert(self.unit.pos.manhattan_dist(u2.pos) == adx + ady);
                        }
                        cmds.push(Command::DamageUnit(u2.id, 5));
                        struck = true;
                    }
                }
            }
            i = i + 1;
        }
        this.unit.turn_complete = true;
        cmds.push(Command::CommitUnit(this.unit));
        StepOutcome {
            state: GameState::ActionSimulated(this),
            transition: Transition::PopAllButFirst,
            commands: cmds,
            post_msg: None,
        }
    }
}

} // verus!
