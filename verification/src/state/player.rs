//! Player-controlled turn-flow states: selecting a unit, choosing its move,
//! picking an action, and aiming an attack.

use vstd::prelude::*;

use crate::cursor::{moved_cursor, Cursor};
use crate::input::ControllerInput;
use crate::map::GameMap;
use crate::math::{contains_point, Point};
use crate::pathfinding::{
    get_manahattan_neighbours, lemma_path_to_properties, search_ctx_of, step_target, DijkstraMap,
};
use crate::state::animation::MoveAnimation;
use crate::state::simulated::SimulatedManager;
use crate::state::{
    dm_matches_map, msg_wf, outcome_wf, Command, GameMsg, GameState, StepOutcome, Transition,
};
use crate::ui::{menu_step, Menu, MenuItem};
use crate::unit::{attack_range_spec, Unit, UnitId};
use crate::world::{unit_wf, Faction, WorldState};

verus! {

broadcast use vstd::seq_lib::lemma_seq_contains_after_push;

/// The action menu entries, in display order.
#[derive(Clone, Copy, PartialEq, Eq, Structural, Debug)]
pub enum PossibleActions {
    Attack,
    Skill,
    Wait,
}

impl MenuItem for PossibleActions {
    fn menu_label(&self) -> &'static str {
        match self {
            Self::Attack => "Attack",
            Self::Skill => "Skill",
            Self::Wait => "Wait",
        }
    }
}

// ---------------------------------------------------------------------------
// PlayerSelect
// ---------------------------------------------------------------------------
/// The base state: a cursor roaming the map, waiting for the player to pick
/// an unmoved unit of their faction.
pub struct PlayerSelect {
    pub cursor: Cursor,
}

/// What a freshly built selection state looks like: its cursor sits on the
/// lowest-identity player unit, or at the origin when the player has none.
pub open spec fn fresh_select_ok(ps: PlayerSelect, world: WorldState) -> bool {
    ||| exists|i: int|
        {
            &&& 0 <= i < world.units@.len()
            &&& (#[trigger] world.units@[i]).faction == Faction::Player
            &&& forall|j: int| 0 <= j < i ==> world.units@[j].faction != Faction::Player
            &&& ps.cursor.pos == world.units@[i].pos
        }
    ||| ((forall|i: int|
        0 <= i < world.units@.len() ==> (#[trigger] world.units@[i]).faction != Faction::Player)
        && ps.cursor.pos == (Point { x: 0, y: 0 }))
}

/// The cursor a selection state works with this tick: a posted set-cursor
/// message overrides the stored one.
pub open spec fn select_cursor_after_msg(ps: PlayerSelect, msg: Option<GameMsg>) -> Cursor {
    match msg {
        Some(GameMsg::SetCursor(c)) => c,
        _ => ps.cursor,
    }
}

/// What one tick of unit selection produces, as a relation between the
/// state before, the frame's message, input and world, and the outcome.
pub open spec fn player_select_step(
    s: PlayerSelect,
    msg: Option<GameMsg>,
    input: ControllerInput,
    world: WorldState,
    r: StepOutcome,
) -> bool {
    let cur = moved_cursor(select_cursor_after_msg(s, msg), input, world.map);
    &&& r.state matches GameState::PlayerSelect(s2) && s2.cursor == cur
    &&& !world.has_unmoved(Faction::Player) ==> {
        &&& r.commands@.len() == 1 && r.commands@[0] == Command::SetupTurn
        &&& r.transition matches Transition::Switch(g) && g matches GameState::SimulatedManager(sm)
            && sm.faction == Faction::Enemy
        &&& r.post_msg is None
    }
    &&& world.has_unmoved(Faction::Player) ==> r.commands@.len() == 0 && r.post_msg is None
    &&& (world.has_unmoved(Faction::Player) && input.confirm && (exists|i: int|
        #[trigger] world.unmoved_candidate(Faction::Player, i) && world.units@[i].pos == cur.pos))
        ==> ({
        &&& r.transition matches Transition::Push(g)
        &&& g matches GameState::PlayerMove(pm)
        &&& exists|i: int|
            {
                &&& #[trigger] world.unmoved_candidate(Faction::Player, i)
                &&& world.units@[i].pos == cur.pos
                &&& pm.unit == world.units@[i]
                &&& pm.dijkstra_map.wf()
                &&& pm.dijkstra_map.ctx() == search_ctx_of(
                    world.map,
                    world.units@[i],
                    world.units@,
                )
                &&& pm.cursor == cur
                &&& targetables_ok(pm.targetables@, pm.dijkstra_map, pm.unit)
            }
    })
    &&& (world.has_unmoved(Faction::Player) && !(input.confirm && (exists|i: int|
        #[trigger] world.unmoved_candidate(Faction::Player, i) && world.units@[i].pos == cur.pos)))
        ==> r.transition is Stay
}

impl PlayerSelect {
    pub open spec fn wf(self, map: GameMap) -> bool {
        map.in_bounds_spec(self.cursor.pos)
    }

    pub fn new(world: &WorldState) -> (r: Self)
        requires
            world.wf(),
        ensures
            r.wf(world.map),
            fresh_select_ok(r, *world),
    {
        let n = world.units.len();
        let mut i: usize = 0;
        while i < n
            invariant
                i <= n,
                n == world.units@.len(),
                world.wf(),
                forall|j: int|
                    0 <= j < i ==> (#[trigger] world.units@[j]).faction != Faction::Player,
            decreases n - i,
        {
            let u = world.units[i];
            if u.faction == Faction::Player {
                return Self { cursor: Cursor::new(u.pos) };
            }
            i = i + 1;
        }
        Self { cursor: Cursor::new(Point { x: 0, y: 0 }) }
    }

    /// One tick of unit selection. With no unmoved player unit left, the
    /// player's round is over: issue the turn reset and hand over to the
    /// simulated faction. A confirm press on an unmoved own unit's cell
    /// builds its movement range and pushes the move state.
    pub fn update(self, msg: Option<GameMsg>, input: &ControllerInput, world: &WorldState) -> (r:
        StepOutcome)
        requires
            world.wf(),
            self.wf(world.map),
            input.dpad_wf(),
            msg matches Some(m) ==> msg_wf(m, world.map),
        ensures
            outcome_wf(r, world.map),
            player_select_step(self, msg, *input, *world, r),
    {
        let mut this = self;
        match msg {
            Some(GameMsg::SetCursor(c)) => {
                this.cursor = c;
            },
            _ => {
                // a world update needs no action here (no cached data), and
                // any other message is unexpected: discarded
            },
        }
        this.cursor.update(input, &world.map);
        match world.get_unmoved_unit(Faction::Player) {
            None => {
                let mut cmds: Vec<Command> = Vec::new();
                cmds.push(Command::SetupTurn);
                return StepOutcome {
                    state: GameState::PlayerSelect(this),
                    transition: Transition::Switch(
                        GameState::SimulatedManager(SimulatedManager { faction: Faction::Enemy }),
                    ),
                    commands: cmds,
                    post_msg: None,
                };
            },
            Some(_) => {
            },
        }
        if input.confirm {
            match world.get_unmoved_by_pos(Faction::Player, this.cursor.get_pos()) {
                Some(u) => {
                    let dm = DijkstraMap::new(&world.map, &u, &world.units);
                    let pm = PlayerMove::new(u, dm, this.cursor);
                    return StepOutcome {
                        state: GameState::PlayerSelect(this),
                        transition: Transition::Push(GameState::PlayerMove(pm)),
                        commands: Vec::new(),
                        post_msg: None,
                    };
                },
                None => {
                },
            }
        }
        StepOutcome {
            state: GameState::PlayerSelect(this),
            transition: Transition::Stay,
            commands: Vec::new(),
            post_msg: None,
        }
    }
}

// ---------------------------------------------------------------------------
// PlayerMove
// ---------------------------------------------------------------------------
/// A reachable cell on the border of the movement range: at least one of its
/// orthogonal neighbours lies outside the range.
pub open spec fn edge_tile(dm: DijkstraMap, t: Point) -> bool {
    &&& dm.reachable(t)
    &&& (!dm.reachable(step_target(t, 0, 1)) || !dm.reachable(step_target(t, 0, -1))
        || !dm.reachable(step_target(t, 1, 0)) || !dm.reachable(step_target(t, -1, 0)))
}

/// The attack-range overlay of a movement range: the cells outside the range
/// that the unit could strike after moving to some edge tile.
pub open spec fn targetables_ok(ts: Seq<Point>, dm: DijkstraMap, unit: Unit) -> bool {
    &&& forall|p: Point|
        #[trigger] ts.contains(p) <==> (!dm.reachable(p) && exists|t: Point|
            #[trigger] edge_tile(dm, t) && 0 < t.manhattan_dist(p) <= attack_range_spec(unit))
    &&& ts.no_duplicates()
}

/// A fresh action menu for `unit` with the cursor `c`.
pub open spec fn fresh_action_ok(pa: PlayerAction, unit: Unit, c: Cursor) -> bool {
    &&& pa.unit == unit
    &&& pa.cursor == c
    &&& pa.targetables@.len() == 0
    &&& pa.menu.items_seq() == seq![
        PossibleActions::Attack,
        PossibleActions::Skill,
        PossibleActions::Wait,
    ]
    &&& pa.menu.selected_ix() == 0
}

/// What one tick of destination choice produces.
pub open spec fn player_move_step(
    s: PlayerMove,
    msg: Option<GameMsg>,
    input: ControllerInput,
    world: WorldState,
    r: StepOutcome,
) -> bool {
    &&& r.commands@.len() == 0
    &&& r.post_msg is None
    &&& r.state matches GameState::PlayerMove(s2) && s2.unit == s.unit && s2.dijkstra_map
        == s.dijkstra_map && s2.targetables == s.targetables
    &&& msg matches Some(GameMsg::MoveAnimationDone(u)) ==> {
        &&& r.transition matches Transition::Push(g) && g matches GameState::PlayerAction(pa)
            && fresh_action_ok(pa, u, s.cursor)
        &&& r.state matches GameState::PlayerMove(s2) && s2.cursor == s.cursor
    }
    &&& !(msg matches Some(GameMsg::MoveAnimationDone(_))) ==> {
        let cur = moved_cursor(s.cursor, input, world.map);
        &&& r.state matches GameState::PlayerMove(s2) && s2.cursor == cur
        &&& input.cancel ==> r.transition is Pop
        &&& (!input.cancel && input.confirm && cur.pos == s.unit.pos) ==> ({
            &&& r.transition matches Transition::Push(g)
            &&& g matches GameState::PlayerAction(pa)
            &&& fresh_action_ok(pa, s.unit, cur)
        })
        &&& (!input.cancel && input.confirm && cur.pos != s.unit.pos && s.dijkstra_map.reachable(
            cur.pos,
        ) && world.tile_empty_spec(cur.pos, None)) ==> ({
            &&& r.transition matches Transition::Push(g)
            &&& g matches GameState::MoveAnimation(ma)
            &&& ma.unit == s.unit
            &&& ma.timer_ms == 0
            &&& ma.path@ == s.dijkstra_map.path_to(cur.pos)
        })
        &&& (!input.cancel && !(input.confirm && (cur.pos == s.unit.pos || (
        s.dijkstra_map.reachable(cur.pos) && world.tile_empty_spec(cur.pos, None))))) ==> r.transition
            is Stay
    }
}

/// Choosing a destination for a selected unit, with its movement range and
/// the cells it could attack from the range's border.
pub struct PlayerMove {
    pub unit: Unit,
    pub dijkstra_map: DijkstraMap,
    pub targetables: Vec<Point>,
    pub cursor: Cursor,
}

impl PlayerMove {
    pub open spec fn wf(self, map: GameMap) -> bool {
        &&& unit_wf(self.unit, map)
        &&& map.in_bounds_spec(self.cursor.pos)
        &&& dm_matches_map(self.dijkstra_map, map)
        &&& self.dijkstra_map.ctx().start == self.unit.pos
    }

    /// Build the move state: compute the attack-range overlay from the edge
    /// tiles of the movement range.
    #[verifier::loop_isolation(false)]
    pub fn new(unit: Unit, dijkstra_map: DijkstraMap, cursor: Cursor) -> (r: Self)
        requires
            dijkstra_map.wf(),
        ensures
            r.unit == unit,
            r.dijkstra_map == dijkstra_map,
            r.cursor == cursor,
            targetables_ok(r.targetables@, dijkstra_map, unit),
    {
        proof {
            dijkstra_map.lemma_ctx_wf();
        }
        let range = unit.get_attack_range();
        let reachables = dijkstra_map.get_reachables();
        let n = reachables.len();
        let mut targetables: Vec<Point> = Vec::new();
        let mut i: usize = 0;
        while i < n
            invariant
                i <= n,
                dijkstra_map.wf(),
                range == attack_range_spec(unit),
                n == reachables@.len(),
                reachables@ == dijkstra_map.reachables_seq(),
                forall|p: Point| #[trigger] reachables@.contains(p) <==> dijkstra_map.reachable(p),
                targetables@.no_duplicates(),
                forall|p: Point|
                    #[trigger] targetables@.contains(p) <==> (!dijkstra_map.reachable(p) && exists|
                        k: int,
                    |
                        0 <= k < i && edge_tile(dijkstra_map, #[trigger] reachables@[k]) && 0
                            < reachables@[k].manhattan_dist(p) <= attack_range_spec(unit)),
            decreases n - i,
        {
            let t = reachables[i];
            proof {
                assert(reachables@.contains(reachables@[i as int]));
            }
            let up = dijkstra_map.is_reachable(t.shifted(0, 1));
            let down = dijkstra_map.is_reachable(t.shifted(0, -1));
            let right = dijkstra_map.is_reachable(t.shifted(1, 0));
            let left = dijkstra_map.is_reachable(t.shifted(-1, 0));
            if !up || !down || !right || !left {
                assert(edge_tile(dijkstra_map, t));
                let neigh = get_manahattan_neighbours(t, range);
                let m = neigh.len();
                let mut j: usize = 0;
                while j < m
                    invariant
                        j <= m,
                        i < n,
                        dijkstra_map.wf(),
                        range == attack_range_spec(unit),
                        n == reachables@.len(),
                        reachables@ == dijkstra_map.reachables_seq(),
                        forall|p: Point|
                            #[trigger] reachables@.contains(p) <==> dijkstra_map.reachable(p),
                        t == reachables@[i as int],
                        edge_tile(dijkstra_map, t),
                        m == neigh@.len(),
                        neigh@.no_duplicates(),
                        forall|p: Point|
                            #[trigger] neigh@.contains(p) <==> 0 < t.manhattan_dist(p)
                                <= attack_range_spec(unit),
                        targetables@.no_duplicates(),
                        forall|p: Point|
                            #[trigger] targetables@.contains(p) <==> (!dijkstra_map.reachable(p)
                                && ((exists|k: int|
                                0 <= k < i && edge_tile(dijkstra_map, #[trigger] reachables@[k])
                                    && 0 < reachables@[k].manhattan_dist(p) <= attack_range_spec(
                                    unit,
                                )) || (exists|l: int|
                                0 <= l < j && #[trigger] neigh@[l] == p))),
                    decreases m - j,
                {
                    let pt = neigh[j];
                    proof {
                        assert(neigh@.contains(neigh@[j as int]));
                    }
                    if !dijkstra_map.is_reachable(pt) && !contains_point(&targetables, pt) {
                        proof {
                            crate::math::lemma_push_no_duplicates(targetables@, pt);
                        }
                        targetables.push(pt);
                    }
                    j = j + 1;
                }
                proof {
                    assert forall|p: Point| #[trigger] targetables@.contains(p) implies (
                    !dijkstra_map.reachable(p) && exists|k: int|
                        0 <= k < i + 1 && edge_tile(dijkstra_map, #[trigger] reachables@[k]) && 0
                            < reachables@[k].manhattan_dist(p) <= attack_range_spec(unit)) by {
                        if exists|l: int| 0 <= l < j && #[trigger] neigh@[l] == p {
                            assert(neigh@.contains(p));
                            assert(edge_tile(dijkstra_map, reachables@[i as int]));
                        }
                    }
                    assert forall|p: Point|
                        (!dijkstra_map.reachable(p) && exists|k: int|
                            0 <= k < i + 1 && edge_tile(dijkstra_map, #[trigger] reachables@[k])
                                && 0 < reachables@[k].manhattan_dist(p) <= attack_range_spec(
                                unit,
                            )) implies #[trigger] targetables@.contains(p) by {
                        let k = choose|k: int|
                            0 <= k < i + 1 && edge_tile(dijkstra_map, #[trigger] reachables@[k])
                                && 0 < reachables@[k].manhattan_dist(p) <= attack_range_spec(unit);
                        if k == i {
                            assert(neigh@.contains(p));
                            let l = choose|l: int| 0 <= l < m && neigh@[l] == p;
                            assert(0 <= l < j && neigh@[l] == p);
                        }
                    }
                }
            }
            i = i + 1;
        }
        proof {
            assert forall|p: Point| #[trigger] targetables@.contains(p) implies (
            !dijkstra_map.reachable(p) && exists|t2: Point|
                #[trigger] edge_tile(dijkstra_map, t2) && 0 < t2.manhattan_dist(p)
                    <= attack_range_spec(unit)) by {
                let k = choose|k: int|
                    0 <= k < n && edge_tile(dijkstra_map, #[trigger] reachables@[k]) && 0
                        < reachables@[k].manhattan_dist(p) <= attack_range_spec(unit);
                assert(edge_tile(dijkstra_map, reachables@[k]));
            }
            assert forall|p: Point|
                (!dijkstra_map.reachable(p) && exists|t2: Point|
                    #[trigger] edge_tile(dijkstra_map, t2) && 0 < t2.manhattan_dist(p)
                        <= attack_range_spec(unit)) implies #[trigger] targetables@.contains(
                p,
            ) by {
                let t2 = choose|t2: Point|
                    #[trigger] edge_tile(dijkstra_map, t2) && 0 < t2.manhattan_dist(p)
                        <= attack_range_spec(unit);
                assert(reachables@.contains(t2));
                let k = choose|k: int| 0 <= k < reachables@.len() && reachables@[k] == t2;
                assert(0 <= k < n && edge_tile(dijkstra_map, reachables@[k]) && 0
                    < reachables@[k].manhattan_dist(p) <= attack_range_spec(unit));
            }
        }
        Self { unit, dijkstra_map, targetables, cursor }
    }

    /// One tick of destination choice: cancel pops back to selection; a
    /// confirm on the unit's own cell opens the action menu (never a move
    /// animation); a confirm on a reachable, unoccupied cell starts the move
    /// animation along the reconstructed path; a move-finished message opens
    /// the action menu for the moved unit.
    pub fn update(self, msg: Option<GameMsg>, input: &ControllerInput, world: &WorldState) -> (r:
        StepOutcome)
        requires
            world.wf(),
            self.wf(world.map),
            input.dpad_wf(),
            msg matches Some(m) ==> msg_wf(m, world.map),
        ensures
            outcome_wf(r, world.map),
            player_move_step(self, msg, *input, *world, r),
    {
        let mut this = self;
        match msg {
            Some(GameMsg::MoveAnimationDone(u)) => {
                let pa = PlayerAction::new(u, this.cursor);
                return StepOutcome {
                    state: GameState::PlayerMove(this),
                    transition: Transition::Push(GameState::PlayerAction(pa)),
                    commands: Vec::new(),
                    post_msg: None,
                };
            },
            Some(_) => {
                // unexpected here: discarded
            },
            None => {
            },
        }
        this.cursor.update(input, &world.map);
        if input.cancel {
            return StepOutcome {
                state: GameState::PlayerMove(this),
                transition: Transition::Pop,
                commands: Vec::new(),
                post_msg: None,
            };
        }
        if input.confirm {
            if this.unit.pos == this.cursor.get_pos() {
                let pa = PlayerAction::new(this.unit, this.cursor);
                return StepOutcome {
                    state: GameState::PlayerMove(this),
                    transition: Transition::Push(GameState::PlayerAction(pa)),
                    commands: Vec::new(),
                    post_msg: None,
                };
            }
            if this.dijkstra_map.is_reachable(this.cursor.get_pos()) && world.is_tile_empty(
                this.cursor.get_pos(),
                None,
            ) {
                let path = this.dijkstra_map.get_path_to(this.cursor.get_pos());
                proof {
                    lemma_path_to_properties(this.dijkstra_map, this.cursor.pos);
                }
                let ma = MoveAnimation::new(this.unit, path);
                return StepOutcome {
                    state: GameState::PlayerMove(this),
                    transition: Transition::Push(GameState::MoveAnimation(ma)),
                    commands: Vec::new(),
                    post_msg: None,
                };
            }
        }
        StepOutcome {
            state: GameState::PlayerMove(this),
            transition: Transition::Stay,
            commands: Vec::new(),
            post_msg: None,
        }
    }
}

// ---------------------------------------------------------------------------
// PlayerAction
// ---------------------------------------------------------------------------
/// One candidate target of an attack: the identity and position of an enemy
/// unit within the attacker's reach.
pub open spec fn is_attack_target(world: WorldState, attacker: Unit, entry: (UnitId, Point)) -> bool {
    exists|i: int|
        {
            &&& 0 <= i < world.units@.len()
            &&& entry.0 == (#[trigger] world.units@[i]).id
            &&& entry.1 == world.units@[i].pos
            &&& world.units@[i].faction == Faction::Enemy
            &&& 0 < attacker.pos.manhattan_dist(world.units@[i].pos) <= attack_range_spec(attacker)
        }
}

/// The candidate targets of an attack: every enemy unit within the
/// attacker's reach, as (identity, position) pairs.
pub open spec fn attack_targets_ok(ts: Seq<(UnitId, Point)>, world: WorldState, attacker: Unit) -> bool {
    &&& forall|k: int| 0 <= k < ts.len() ==> is_attack_target(world, attacker, #[trigger] ts[k])
    &&& forall|i: int|
        (0 <= i < world.units@.len() && (#[trigger] world.units@[i]).faction == Faction::Enemy && 0
            < attacker.pos.manhattan_dist(world.units@[i].pos) <= attack_range_spec(attacker))
            ==> ts.contains((world.units@[i].id, world.units@[i].pos))
}

/// An enemy unit stands within the attacker's reach.
pub open spec fn enemy_in_range(world: WorldState, attacker: Unit) -> bool {
    exists|i: int|
        0 <= i < world.units@.len() && (#[trigger] world.units@[i]).faction == Faction::Enemy && 0
            < attacker.pos.manhattan_dist(world.units@[i].pos) <= attack_range_spec(attacker)
}

/// What one tick of the action menu produces.
pub open spec fn player_action_step(
    s: PlayerAction,
    msg: Option<GameMsg>,
    input: ControllerInput,
    world: WorldState,
    r: StepOutcome,
) -> bool {
    let sel = s.menu.items_seq()[menu_step(s.menu.selected_ix(), 3, input.dpad_y)];
    &&& r.state matches GameState::PlayerAction(a2) && a2.cursor == s.cursor
        && a2.menu.items_seq() == s.menu.items_seq() && a2.menu.selected_ix() == menu_step(
        s.menu.selected_ix(),
        3,
        input.dpad_y,
    )
    &&& input.cancel ==> (r.transition is Pop) && r.commands@.len() == 0 && r.post_msg is None
    &&& (!input.cancel && sel == PossibleActions::Wait && input.confirm) ==> {
        &&& r.commands@.len() == 1
        &&& r.commands@[0] == Command::CommitUnit(Unit { turn_complete: true, ..s.unit })
        &&& r.post_msg == Some(GameMsg::SetCursor(s.cursor))
        &&& r.transition is PopAllButFirst
        &&& r.state matches GameState::PlayerAction(a2) && a2.unit == (Unit {
            turn_complete: true,
            ..s.unit
        })
    }
    &&& (!input.cancel && sel == PossibleActions::Wait && !input.confirm) ==> (r.transition
        is Stay) && r.commands@.len() == 0 && r.post_msg is None
    &&& (!input.cancel && sel == PossibleActions::Attack) ==> {
        &&& r.state matches GameState::PlayerAction(a2) && a2.unit == s.unit && (forall|p: Point|
            #[trigger] a2.targetables@.contains(p) <==> 0 < s.unit.pos.manhattan_dist(p)
                <= attack_range_spec(s.unit))
        &&& r.commands@.len() == 0 && r.post_msg is None
        &&& (input.confirm && enemy_in_range(world, s.unit)) ==> ({
            &&& r.transition matches Transition::Push(g)
            &&& g matches GameState::PlayerAttack(pat)
            &&& pat.unit == s.unit
            &&& pat.cursor == s.cursor
            &&& pat.selected == 0
            &&& attack_targets_ok(pat.targets@, world, s.unit)
        })
        &&& !(input.confirm && enemy_in_range(world, s.unit)) ==> r.transition is Stay
    }
    &&& (!input.cancel && sel == PossibleActions::Skill) ==> ({
        &&& r.transition is Stay
        &&& r.commands@.len() == 0
        &&& r.post_msg is None
        &&& r.state matches GameState::PlayerAction(a2) && a2.unit == s.unit
            && a2.targetables@.len() == 0
    })
}

/// The action menu for a unit that finished (or declined) its move: wait,
/// attack, or a skill placeholder.
pub struct PlayerAction {
    pub targetables: Vec<Point>,
    pub unit: Unit,
    pub menu: Menu<PossibleActions>,
    pub cursor: Cursor,
}

impl PlayerAction {
    pub open spec fn wf(self, map: GameMap) -> bool {
        &&& unit_wf(self.unit, map)
        &&& map.in_bounds_spec(self.cursor.pos)
        &&& self.menu.wf()
        &&& self.menu.items_seq() == seq![
            PossibleActions::Attack,
            PossibleActions::Skill,
            PossibleActions::Wait,
        ]
    }

    pub fn new(unit: Unit, cursor: Cursor) -> (r: Self)
        ensures
            fresh_action_ok(r, unit, cursor),
    {
        let mut items: Vec<PossibleActions> = Vec::new();
        items.push(PossibleActions::Attack);
        items.push(PossibleActions::Skill);
        items.push(PossibleActions::Wait);
        assert(items@ =~= seq![
            PossibleActions::Attack,
            PossibleActions::Skill,
            PossibleActions::Wait,
        ]);
        Self { targetables: Vec::new(), unit, menu: Menu::new(items), cursor }
    }

    /// One tick of the action menu. "Wait" commits the unit turn-complete and
    /// unwinds to the base state; "Attack" shows the reach overlay and, when
    /// confirmed with at least one enemy in range, pushes target choice.
    pub fn update(self, msg: Option<GameMsg>, input: &ControllerInput, world: &WorldState) -> (r:
        StepOutcome)
        requires
            world.wf(),
            self.wf(world.map),
            input.dpad_wf(),
            msg matches Some(m) ==> msg_wf(m, world.map),
        ensures
            outcome_wf(r, world.map),
            player_action_step(self, msg, *input, *world, r),
    {
        let mut this = self;
        // a message here is unexpected: discarded
        this.menu.update(input);
        if input.cancel {
            return StepOutcome {
                state: GameState::PlayerAction(this),
                transition: Transition::Pop,
                commands: Vec::new(),
                post_msg: None,
            };
        }
        match this.menu.selected() {
            PossibleActions::Wait => {
                this.targetables = Vec::new();
                if input.confirm {
                    this.unit.turn_complete = true;
                    let mut cmds: Vec<Command> = Vec::new();
                    cmds.push(Command::CommitUnit(this.unit));
                    let cur = this.cursor;
                    return StepOutcome {
                        state: GameState::PlayerAction(this),
                        transition: Transition::PopAllButFirst,
                        commands: cmds,
                        post_msg: Some(GameMsg::SetCursor(cur)),
                    };
                }
            },
            PossibleActions::Attack => {
                this.targetables = get_manahattan_neighbours(
                    this.unit.pos,
                    this.unit.get_attack_range(),
                );
                if input.confirm {
                    let range = this.unit.get_attack_range();
                    let n = world.units.len();
                    let mut targets: Vec<(UnitId, Point)> = Vec::new();
                    let mut i: usize = 0;
                    while i < n
                        invariant
                            i <= n,
                            n == world.units@.len(),
                            world.wf(),
                            unit_wf(this.unit, world.map),
                            range == attack_range_spec(this.unit),
                            targets@.len() <= i,
                            forall|k: int|
                                0 <= k < targets@.len() ==> is_attack_target(
                                    *world,
                                    this.unit,
                                    #[trigger] targets@[k],
                                ),
                            forall|ii: int|
                                (0 <= ii < i && (#[trigger] world.units@[ii]).faction
                                    == Faction::Enemy && 0 < this.unit.pos.manhattan_dist(
                                    world.units@[ii].pos,
                                ) <= attack_range_spec(this.unit)) ==> targets@.contains(
                                    (world.units@[ii].id, world.units@[ii].pos),
                                ),
                        decreases n - i,
                    {
                        let u2 = world.units[i];
                        if u2.faction == Faction::Enemy {
                            let dxv = u2.pos.x - this.unit.pos.x;
                            let dyv = u2.pos.y - this.unit.pos.y;
                            let adx = if dxv < 0 {
                                -dxv
                            } else {
                                dxv
                            };
                            let ady = if dyv < 0 {
                                -dyv
                            } else {
                                dyv
                            };
                            proof {
                                assert(this.unit.pos.manhattan_dist(u2.pos) == adx + ady);
                            }
                            if (adx > 0 || ady > 0) && adx <= range - ady && ady <= range {
                                proof {
                                    assert((0 <= (i as int) < world.units@.len() && (u2.id, u2.pos).0
                                        == world.units@[i as int].id && (u2.id, u2.pos).1
                                        == world.units@[i as int].pos && world.units@[
                                    i as int].faction == Faction::Enemy && 0
                                        < this.unit.pos.manhattan_dist(world.units@[i as int].pos)
                                        <= attack_range_spec(this.unit)));
                                    assert(is_attack_target(*world, this.unit, (u2.id, u2.pos)));
                                }
                                targets.push((u2.id, u2.pos));
                            }
                        }
                        i = i + 1;
                    }
                    if targets.len() > 0 {
                        proof {
                            assert(attack_targets_ok(targets@, *world, this.unit));
                            let entry = targets@[0];
                            assert(is_attack_target(*world, this.unit, entry));
                            let ii = choose|ii: int|
                                {
                                    &&& 0 <= ii < world.units@.len()
                                    &&& entry.0 == (#[trigger] world.units@[ii]).id
                                    &&& entry.1 == world.units@[ii].pos
                                    &&& world.units@[ii].faction == Faction::Enemy
                                    &&& 0 < this.unit.pos.manhattan_dist(world.units@[ii].pos)
                                        <= attack_range_spec(this.unit)
                                };
                            assert(enemy_in_range(*world, this.unit));
                            assert forall|k: int|
                                0 <= k < targets@.len() implies world.map.in_bounds_spec(
                                (#[trigger] targets@[k]).1,
                            ) by {
                                let e2 = targets@[k];
                                assert(is_attack_target(*world, this.unit, e2));
                                let jj = choose|jj: int|
                                    {
                                        &&& 0 <= jj < world.units@.len()
                                        &&& e2.0 == (#[trigger] world.units@[jj]).id
                                        &&& e2.1 == world.units@[jj].pos
                                        &&& world.units@[jj].faction == Faction::Enemy
                                        &&& 0 < this.unit.pos.manhattan_dist(world.units@[jj].pos)
                                            <= attack_range_spec(this.unit)
                                    };
                            }
                        }
                        let pat = PlayerAttack {
                            unit: this.unit,
                            cursor: this.cursor,
                            targets,
                            selected: 0,
                        };
                        return StepOutcome {
                            state: GameState::PlayerAction(this),
                            transition: Transition::Push(GameState::PlayerAttack(pat)),
                            commands: Vec::new(),
                            post_msg: None,
                        };
                    }
                    proof {
                        assert(!enemy_in_range(*world, this.unit)) by {
                            if enemy_in_range(*world, this.unit) {
                                let ii = choose|ii: int|
                                    0 <= ii < world.units@.len() && (
                                    #[trigger] world.units@[ii]).faction == Faction::Enemy && 0
                                        < this.unit.pos.manhattan_dist(world.units@[ii].pos)
                                        <= attack_range_spec(this.unit);
                                assert(targets@.contains(
                                    (world.units@[ii].id, world.units@[ii].pos),
                                ));
                            }
                        }
                    }
                }
            },
            PossibleActions::Skill => {
                this.targetables = Vec::new();
            },
        }
        StepOutcome {
            state: GameState::PlayerAction(this),
            transition: Transition::Stay,
            commands: Vec::new(),
            post_msg: None,
        }
    }
}

// ---------------------------------------------------------------------------
// PlayerAttack
// ---------------------------------------------------------------------------
/// Where one directional input moves the target selection: forward or
/// backward through the candidate list, wrapping around.
pub open spec fn cycle_ix(ix: int, len: int, dx: i32, dy: i32) -> int {
    if dx > 0 || dy > 0 {
        (ix + 1) % len
    } else if dx < 0 || dy < 0 {
        (ix + len - 1) % len
    } else {
        ix
    }
}

/// What one tick of target choice produces.
pub open spec fn player_attack_step(
    s: PlayerAttack,
    msg: Option<GameMsg>,
    input: ControllerInput,
    world: WorldState,
    r: StepOutcome,
) -> bool {
    &&& input.cancel ==> ({
        &&& r.transition is Pop
        &&& r.commands@.len() == 0
        &&& r.post_msg is None
        &&& r.state matches GameState::PlayerAttack(a2) && a2.selected == s.selected && a2.cursor
            == s.cursor
    })
    &&& (!input.cancel && input.confirm) ==> {
        &&& r.commands@.len() == 2
        &&& r.commands@[0] == Command::DamageUnit(s.targets@[s.selected as int].0, 3)
        &&& r.commands@[1] == Command::CommitUnit(Unit { turn_complete: true, ..s.unit })
        &&& r.post_msg == Some(GameMsg::SetCursor(Cursor { pos: s.unit.pos }))
        &&& r.transition is PopAllButFirst
        &&& r.state matches GameState::PlayerAttack(a2) && a2.unit == (Unit {
            turn_complete: true,
            ..s.unit
        }) && a2.cursor.pos == s.unit.pos
    }
    &&& (!input.cancel && !input.confirm) ==> {
        let sel2 = cycle_ix(s.selected as int, s.targets@.len() as int, input.dpad_x, input.dpad_y);
        &&& r.transition is Stay
        &&& r.commands@.len() == 0 && r.post_msg is None
        &&& r.state matches GameState::PlayerAttack(a2) && a2.selected == sel2 && a2.cursor.pos
            == s.targets@[sel2].1 && a2.unit == s.unit && a2.targets@ == s.targets@
    }
}

/// Choosing which enemy in range to strike.
pub struct PlayerAttack {
    pub unit: Unit,
    pub cursor: Cursor,
    pub targets: Vec<(UnitId, Point)>,
    pub selected: usize,
}

impl PlayerAttack {
    pub open spec fn wf(self, map: GameMap) -> bool {
        &&& unit_wf(self.unit, map)
        &&& map.in_bounds_spec(self.cursor.pos)
        &&& 1 <= self.targets@.len() < u32::MAX
        &&& 0 <= (self.selected as int) < self.targets@.len()
        &&& forall|k: int|
            0 <= k < self.targets@.len() ==> map.in_bounds_spec((#[trigger] self.targets@[k]).1)
    }

    /// One tick of target choice: directional input cycles the selection, a
    /// confirm applies the fixed damage to the chosen target, commits the
    /// attacker turn-complete and unwinds to the base state.
    pub fn update(self, msg: Option<GameMsg>, input: &ControllerInput, world: &WorldState) -> (r:
        StepOutcome)
        requires
            world.wf(),
            self.wf(world.map),
            input.dpad_wf(),
            msg matches Some(m) ==> msg_wf(m, world.map),
        ensures
            outcome_wf(r, world.map),
            player_attack_step(self, msg, *input, *world, r),
    {
        let mut this = self;
        // a message here is unexpected: discarded
        if input.cancel {
            return StepOutcome {
                state: GameState::PlayerAttack(this),
                transition: Transition::Pop,
                commands: Vec::new(),
                post_msg: None,
            };
        }
        if input.confirm {
            this.unit.turn_complete = true;
            let mut cmds: Vec<Command> = Vec::new();
            cmds.push(Command::DamageUnit(this.targets[this.selected].0, 3));
            cmds.push(Command::CommitUnit(this.unit));
            this.cursor.set_pos(this.unit.pos);
            let cur = this.cursor;
            return StepOutcome {
                state: GameState::PlayerAttack(this),
                transition: Transition::PopAllButFirst,
                commands: cmds,
                post_msg: Some(GameMsg::SetCursor(cur)),
            };
        }
        let len = this.targets.len();
        if input.dpad_x > 0 || input.dpad_y > 0 {
            this.selected = (this.selected + 1) % len;
        } else if input.dpad_x < 0 || input.dpad_y < 0 {
            this.selected = if this.selected == 0 {
                len - 1
            } else {
                this.selected - 1
            };
            proof {
                let lenint = self.targets@.len() as int;
                let oldix = self.selected as int;
                let newix = this.selected as int;
                assert(newix == (oldix + lenint - 1) % lenint) by (nonlinear_arith)
                    requires
                        1 <= lenint,
                        0 <= oldix < lenint,
                        newix == if oldix == 0 {
                            lenint - 1
                        } else {
                            oldix - 1
                        },
                ;
            }
        }
        this.cursor.set_pos(this.targets[this.selected].1);
        StepOutcome {
            state: GameState::PlayerAttack(this),
            transition: Transition::Stay,
            commands: Vec::new(),
            post_msg: None,
        }
    }
}

} // verus!
