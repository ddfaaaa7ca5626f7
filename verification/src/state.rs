//! The hierarchical game-state stack: shared message, command and transition
//! types, the closed set of turn-flow states, and the driver that ticks the
//! top state and applies its directives.
//!
//! States never mutate the world directly: they append commands, and the
//! driver drains the buffer in FIFO order once the tick loop settles.

pub mod animation;
pub mod player;
pub mod simulated;

use vstd::prelude::*;

use crate::cursor::Cursor;
use crate::input::ControllerInput;
use crate::map::GameMap;
use crate::math::Point;
use crate::pathfinding::DijkstraMap;
use crate::unit::{Unit, UnitId};
use crate::world::{unit_wf, WorldState};

use crate::state::animation::{move_animation_step, MoveAnimation};
use crate::state::player::{
    player_action_step, player_attack_step, player_move_step, player_select_step, PlayerAction,
    PlayerAttack, PlayerMove, PlayerSelect,
};
use crate::state::simulated::{
    action_simulated_step, move_simulated_step, simulated_manager_step, ActionSimulated,
    MoveSimulated, SimulatedManager,
};

verus! {

/// A message posted by one state for its successor on the stack.
#[derive(Clone, Copy, Debug)]
pub enum GameMsg {
    MoveAnimationDone(Unit),
    SetCursor(Cursor),
    WorldUpdated,
}

/// A deferred world mutation, applied exclusively by the stack driver.
#[derive(Clone, Copy, Debug)]
pub enum Command {
    CommitUnit(Unit),
    DamageUnit(UnitId, i32),
    SetupTurn,
    FocusView(Point),
}

/// A message a state may safely hand on: any unit or cursor it carries fits
/// the map.
pub open spec fn msg_wf(m: GameMsg, map: GameMap) -> bool {
    match m {
        GameMsg::MoveAnimationDone(u) => unit_wf(u, map),
        GameMsg::SetCursor(c) => map.in_bounds_spec(c.pos),
        GameMsg::WorldUpdated => true,
    }
}

/// A command the driver can apply without breaking the world's invariant.
pub open spec fn command_wf(c: Command, map: GameMap) -> bool {
    match c {
        Command::CommitUnit(u) => unit_wf(u, map),
        Command::DamageUnit(_, _) => true,
        Command::SetupTurn => true,
        Command::FocusView(_) => true,
    }
}

/// The append-only per-tick command buffer.
#[derive(Debug)]
pub struct Commands {
    queue: Vec<Command>,
}

impl Commands {
    pub closed spec fn queue_seq(self) -> Seq<Command> {
        self.queue@
    }

    pub fn new() -> (r: Self)
        ensures
            r.queue_seq().len() == 0,
    {
        Self { queue: Vec::new() }
    }

    pub fn add(&mut self, command: Command)
        ensures
            final(self).queue_seq() == old(self).queue_seq().push(command),
    {
        self.queue.push(command);
    }

    pub fn len(&self) -> (r: usize)
        ensures
            r == self.queue_seq().len(),
    {
        self.queue.len()
    }

    pub fn get(&self, i: usize) -> (r: Command)
        requires
            i < self.queue_seq().len(),
        ensures
            r == self.queue_seq()[i as int],
    {
        self.queue[i]
    }

    pub fn clear(&mut self)
        ensures
            final(self).queue_seq().len() == 0,
    {
        self.queue.clear();
    }
}

/// The stack's directive for how to change the active state after a tick.
pub enum Transition {
    Stay,
    Pop,
    Push(GameState),
    Switch(GameState),
    PopAllButFirst,
}

/// The closed set of turn-flow states.
pub enum GameState {
    PlayerSelect(PlayerSelect),
    PlayerMove(PlayerMove),
    PlayerAction(PlayerAction),
    PlayerAttack(PlayerAttack),
    MoveAnimation(MoveAnimation),
    SimulatedManager(SimulatedManager),
    MoveSimulated(MoveSimulated),
    ActionSimulated(ActionSimulated),
}

/// What one tick of a state produces: the updated state itself, a stack
/// directive, the commands it appended, and at most one posted message.
pub struct StepOutcome {
    pub state: GameState,
    pub transition: Transition,
    pub commands: Vec<Command>,
    pub post_msg: Option<GameMsg>,
}

/// A search result usable against this map: well formed and of the map's
/// dimensions.
pub open spec fn dm_matches_map(dm: DijkstraMap, map: GameMap) -> bool {
    &&& dm.wf()
    &&& dm.ctx().width == map.width
    &&& dm.ctx().height == map.height
}

pub open spec fn transition_wf(t: Transition, map: GameMap) -> bool {
    match t {
        Transition::Push(s) => s.wf(map),
        Transition::Switch(s) => s.wf(map),
        _ => true,
    }
}

pub open spec fn outcome_wf(o: StepOutcome, map: GameMap) -> bool {
    &&& o.state.wf(map)
    &&& transition_wf(o.transition, map)
    &&& forall|i: int| 0 <= i < o.commands@.len() ==> command_wf(#[trigger] o.commands@[i], map)
    &&& (o.post_msg matches Some(m) ==> msg_wf(m, map))
}

impl GameState {
    /// Every state keeps its owned data consistent with the map it plays on.
    pub open spec fn wf(self, map: GameMap) -> bool {
        match self {
            GameState::PlayerSelect(s) => s.wf(map),
            GameState::PlayerMove(s) => s.wf(map),
            GameState::PlayerAction(s) => s.wf(map),
            GameState::PlayerAttack(s) => s.wf(map),
            GameState::MoveAnimation(s) => s.wf(map),
            GameState::SimulatedManager(s) => s.wf(map),
            GameState::MoveSimulated(s) => s.wf(map),
            GameState::ActionSimulated(s) => s.wf(map),
        }
    }

    /// The unit a state owns and operates on, if any: the render collaborator
    /// highlights it distinctly.
    pub open spec fn active_unit_spec(self) -> Option<Unit> {
        match self {
            GameState::PlayerMove(s) => Some(s.unit),
            GameState::PlayerAction(s) => Some(s.unit),
            GameState::MoveAnimation(s) => Some(s.unit),
            GameState::MoveSimulated(s) => Some(s.unit),
            GameState::ActionSimulated(s) => Some(s.unit),
            _ => None,
        }
    }

    pub fn active_unit(&self) -> (r: Option<Unit>)
        ensures
            r == self.active_unit_spec(),
    {
        match self {
            GameState::PlayerMove(s) => Some(s.unit),
            GameState::PlayerAction(s) => Some(s.unit),
            GameState::MoveAnimation(s) => Some(s.unit),
            GameState::MoveSimulated(s) => Some(s.unit),
            GameState::ActionSimulated(s) => Some(s.unit),
            _ => None,
        }
    }

    pub fn name(&self) -> &'static str {
        match self {
            GameState::PlayerSelect(_) => "Player Select",
            GameState::PlayerMove(_) => "Player Move",
            GameState::PlayerAction(_) => "Player Action",
            GameState::PlayerAttack(_) => "Player Attack",
            GameState::MoveAnimation(_) => "Move Animation",
            GameState::SimulatedManager(_) => "Simulated Manager",
            GameState::MoveSimulated(_) => "Move Simulated",
            GameState::ActionSimulated(_) => "Action Simulated",
        }
    }

    /// Tick the state once: hand it the pending message (it handles or
    /// discards it), the frame's input and a read-only world view. The
    /// outcome is the active variant's, exactly: see `game_step`.
    pub fn update(self, msg: Option<GameMsg>, input: &ControllerInput, world: &WorldState) -> (r:
        StepOutcome)
        requires
            world.wf(),
            self.wf(world.map),
            input.dpad_wf(),
            msg matches Some(m) ==> msg_wf(m, world.map),
        ensures
            outcome_wf(r, world.map),
            game_step(self, msg, *input, *world, r),
    {
        match self {
            GameState::PlayerSelect(s) => s.update(msg, input, world),
            GameState::PlayerMove(s) => s.update(msg, input, world),
            GameState::PlayerAction(s) => s.update(msg, input, world),
            GameState::PlayerAttack(s) => s.update(msg, input, world),
            GameState::MoveAnimation(s) => s.update(msg, input, world),
            GameState::SimulatedManager(s) => s.update(msg, input, world),
            GameState::MoveSimulated(s) => s.update(msg, input, world),
            GameState::ActionSimulated(s) => s.update(msg, input, world),
        }
    }
}

/// What one tick of any state produces: the per-variant step relation of
/// the active variant. This is what the stack driver runs on.
pub open spec fn game_step(
    s: GameState,
    msg: Option<GameMsg>,
    input: ControllerInput,
    world: WorldState,
    r: StepOutcome,
) -> bool {
    match s {
        GameState::PlayerSelect(x) => player_select_step(x, msg, input, world, r),
        GameState::PlayerMove(x) => player_move_step(x, msg, input, world, r),
        GameState::PlayerAction(x) => player_action_step(x, msg, input, world, r),
        GameState::PlayerAttack(x) => player_attack_step(x, msg, input, world, r),
        GameState::MoveAnimation(x) => move_animation_step(x, msg, input, world, r),
        GameState::SimulatedManager(x) => simulated_manager_step(x, msg, input, world, r),
        GameState::MoveSimulated(x) => move_simulated_step(x, msg, input, world, r),
        GameState::ActionSimulated(x) => action_simulated_step(x, msg, input, world, r),
    }
}

/// The stack after a directive is applied: push and switch replace or grow
/// the top, pop is refused on the base state, and unwind keeps exactly the
/// base state.
pub open spec fn transition_applied(stack: Seq<GameState>, t: Transition) -> Seq<GameState> {
    match t {
        Transition::Stay => stack,
        Transition::Pop => if stack.len() > 1 {
            stack.drop_last()
        } else {
            stack
        },
        Transition::Push(s) => stack.push(s),
        Transition::Switch(s) => stack.drop_last().push(s),
        Transition::PopAllButFirst => stack.subrange(0, 1),
    }
}

/// The front of the message queue, if any: what the next tick consumes.
pub open spec fn front_msg(msgs: Seq<GameMsg>) -> Option<GameMsg> {
    if msgs.len() > 0 {
        Some(msgs[0])
    } else {
        None
    }
}

/// The effect of one applied command on the world: committing replaces the
/// named unit's entry, damaging lowers its health (saturating), setup-turn
/// clears every turn-complete flag, and a focus request leaves the world
/// alone. A command naming an absent identity is a no-op.
pub open spec fn command_applied(w0: WorldState, c: Command, w1: WorldState) -> bool {
    &&& w1.map == w0.map
    &&& match c {
        Command::CommitUnit(u) => w1.units@ == (if u.id.0 < w0.units@.len() {
            w0.units@.update(u.id.0 as int, u)
        } else {
            w0.units@
        }),
        Command::DamageUnit(id, dmg) => w1.units@ == (if id.0 < w0.units@.len() {
            w0.units@.update(
                id.0 as int,
                (Unit {
                    curr_health: sat_sub_spec(
                        w0.units@[id.0 as int].curr_health as int,
                        dmg as int,
                    ) as i32,
                    ..w0.units@[id.0 as int]
                }),
            )
        } else {
            w0.units@
        }),
        Command::SetupTurn => w1.units@.len() == w0.units@.len() && (forall|i: int|
            0 <= i < w0.units@.len() ==> w1.units@[i] == (Unit {
                turn_complete: false,
                ..w0.units@[i]
            })),
        Command::FocusView(_) => w1.units@ == w0.units@,
    }
}

/// The world after a command sequence is drained: each command applied
/// exactly once, in FIFO order.
pub open spec fn commands_applied(w0: WorldState, cmds: Seq<Command>, w1: WorldState) -> bool
    decreases cmds.len(),
{
    if cmds.len() == 0 {
        w1.units@ == w0.units@ && w1.map == w0.map
    } else {
        exists|mid: WorldState|
            #[trigger] command_applied(w0, cmds[0], mid) && commands_applied(
                mid,
                cmds.drop_first(),
                w1,
            )
    }
}

/// The message one applied command posts for the successor state: committing
/// or damaging a unit announces a world update; the rest post nothing.
pub open spec fn command_msgs(c: Command) -> Seq<GameMsg> {
    match c {
        Command::CommitUnit(_) => seq![GameMsg::WorldUpdated],
        Command::DamageUnit(_, _) => seq![GameMsg::WorldUpdated],
        Command::SetupTurn => Seq::empty(),
        Command::FocusView(_) => Seq::empty(),
    }
}

/// The messages a drained command sequence appends to the queue, in order.
pub open spec fn drain_msgs(cmds: Seq<Command>) -> Seq<GameMsg>
    decreases cmds.len(),
{
    if cmds.len() == 0 {
        Seq::empty()
    } else {
        command_msgs(cmds[0]) + drain_msgs(cmds.drop_first())
    }
}

proof fn lemma_drain_msgs_snoc(cmds: Seq<Command>, c: Command)
    ensures
        drain_msgs(cmds.push(c)) == drain_msgs(cmds) + command_msgs(c),
    decreases cmds.len(),
{
    if cmds.len() == 0 {
        assert(cmds.push(c)[0] == c);
        assert(cmds.push(c).drop_first() =~= Seq::<Command>::empty());
        assert(command_msgs(c) + drain_msgs(Seq::<Command>::empty()) =~= command_msgs(c));
        assert(drain_msgs(cmds) + command_msgs(c) =~= command_msgs(c));
    } else {
        lemma_drain_msgs_snoc(cmds.drop_first(), c);
        assert(cmds.push(c).drop_first() =~= cmds.drop_first().push(c));
        assert(cmds.push(c)[0] == cmds[0]);
        assert(command_msgs(cmds[0]) + (drain_msgs(cmds.drop_first()) + command_msgs(c)) =~= (
        command_msgs(cmds[0]) + drain_msgs(cmds.drop_first())) + command_msgs(c));
    }
}

/// The message queue after one tick: the front entry (if any) consumed, the
/// tick's posted message (if any) appended.
pub open spec fn msgs_after_tick(msgs: Seq<GameMsg>, r: StepOutcome) -> Seq<GameMsg> {
    let popped = if msgs.len() > 0 {
        msgs.drop_first()
    } else {
        msgs
    };
    match r.post_msg {
        Some(m) => popped.push(m),
        None => popped,
    }
}

/// Extending a drained sequence by one more applied command.
proof fn lemma_commands_applied_snoc(
    w0: WorldState,
    cmds: Seq<Command>,
    w1: WorldState,
    c: Command,
    w2: WorldState,
)
    requires
        commands_applied(w0, cmds, w1),
        command_applied(w1, c, w2),
    ensures
        commands_applied(w0, cmds.push(c), w2),
    decreases cmds.len(),
{
    if cmds.len() == 0 {
        assert(cmds.push(c)[0] == c);
        assert(command_applied(w0, cmds.push(c)[0], w2)) by {
            assert(w1.units@ == w0.units@ && w1.map == w0.map);
        }
        assert(cmds.push(c).drop_first() =~= Seq::<Command>::empty());
        assert(commands_applied(w2, cmds.push(c).drop_first(), w2));
    } else {
        let mid = choose|mid: WorldState|
            #[trigger] command_applied(w0, cmds[0], mid) && commands_applied(
                mid,
                cmds.drop_first(),
                w1,
            );
        lemma_commands_applied_snoc(mid, cmds.drop_first(), w1, c, w2);
        assert(cmds.push(c).drop_first() =~= cmds.drop_first().push(c));
        assert(cmds.push(c)[0] == cmds[0]);
        assert(command_applied(w0, cmds.push(c)[0], mid));
        assert(commands_applied(mid, cmds.push(c).drop_first(), w2));
    }
}

/// Cap on chained same-frame transitions: the guard against a
/// non-terminating transition chain. When it trips, the frame settles and
/// buffered commands are applied; the next frame carries on from there.
pub const MAX_CHAIN_STEPS: usize = 64;

/// Difference clamped to the i32 range.
pub open spec fn sat_sub_spec(a: int, b: int) -> int {
    if a - b < i32::MIN {
        i32::MIN as int
    } else if a - b > i32::MAX {
        i32::MAX as int
    } else {
        a - b
    }
}

fn sub_saturating(a: i32, b: i32) -> (r: i32)
    ensures
        r == sat_sub_spec(a as int, b as int),
{
    if b >= 0 {
        if a >= i32::MIN + b {
            a - b
        } else {
            i32::MIN
        }
    } else {
        if a <= i32::MAX + b {
            a - b
        } else {
            i32::MAX
        }
    }
}

/// The stack driver: the ordered list of active states (always at least the
/// base selection state), the cross-state message queue, the shared command
/// buffer, and the latest focus request for the render collaborator.
pub struct StateMachine {
    stack: Vec<GameState>,
    msg_queue: Vec<GameMsg>,
    commands_buffer: Commands,
    focus: Option<Point>,
}

impl StateMachine {
    pub closed spec fn stack_seq(self) -> Seq<GameState> {
        self.stack@
    }

    pub closed spec fn msgs_seq(self) -> Seq<GameMsg> {
        self.msg_queue@
    }

    pub closed spec fn buffered_seq(self) -> Seq<Command> {
        self.commands_buffer.queue_seq()
    }

    pub closed spec fn focus_spec(self) -> Option<Point> {
        self.focus
    }

    pub open spec fn depth_spec(self) -> int {
        self.stack_seq().len() as int
    }

    /// The driver's invariant: at least one state on the stack, and every
    /// held state, queued message and buffered command consistent with the
    /// map.
    pub open spec fn wf(self, map: GameMap) -> bool {
        &&& self.stack_seq().len() >= 1
        &&& forall|i: int|
            0 <= i < self.stack_seq().len() ==> (#[trigger] self.stack_seq()[i]).wf(map)
        &&& forall|i: int|
            0 <= i < self.msgs_seq().len() ==> msg_wf(#[trigger] self.msgs_seq()[i], map)
        &&& forall|i: int|
            0 <= i < self.buffered_seq().len() ==> command_wf(#[trigger] self.buffered_seq()[i], map)
    }

    /// A fresh machine: one base selection state, empty queue and buffer.
    pub fn new(world: &WorldState) -> (r: Self)
        requires
            world.wf(),
        ensures
            r.wf(world.map),
            r.depth_spec() == 1,
            r.stack_seq()[0] matches GameState::PlayerSelect(ps)
                && crate::state::player::fresh_select_ok(ps, *world),
            r.msgs_seq().len() == 0,
            r.buffered_seq().len() == 0,
            r.focus_spec() is None,
    {
        let ps = PlayerSelect::new(world);
        let mut stack: Vec<GameState> = Vec::new();
        stack.push(GameState::PlayerSelect(ps));
        Self { stack, msg_queue: Vec::new(), commands_buffer: Commands::new(), focus: None }
    }

    pub fn depth(&self) -> (r: usize)
        ensures
            r == self.depth_spec(),
    {
        self.stack.len()
    }

    /// The i-th state from the bottom; the render collaborator walks these.
    pub fn state_at(&self, i: usize) -> (r: &GameState)
        requires
            i < self.depth_spec(),
        ensures
            r == self.stack_seq()[i as int],
    {
        &self.stack[i]
    }

    /// The latest focus-view request, for the render collaborator.
    pub fn take_focus(&mut self) -> (r: Option<Point>)
        ensures
            r == old(self).focus_spec(),
            final(self).focus_spec() is None,
            final(self).stack_seq() == old(self).stack_seq(),
            final(self).msgs_seq() == old(self).msgs_seq(),
            final(self).buffered_seq() == old(self).buffered_seq(),
    {
        let r = self.focus;
        self.focus = None;
        r
    }

    /// The unit to highlight: scanning the stack top-down, the first state
    /// that exposes an active unit wins.
    pub fn active_unit(&self) -> (r: Option<Unit>)
        requires
            self.depth_spec() >= 1,
        ensures
            r is None ==> forall|i: int|
                0 <= i < self.stack_seq().len() ==> (
                #[trigger] self.stack_seq()[i]).active_unit_spec() is None,
            r matches Some(u) ==> exists|i: int|
                {
                    &&& 0 <= i < self.stack_seq().len()
                    &&& (#[trigger] self.stack_seq()[i]).active_unit_spec() == Some(u)
                    &&& forall|j: int|
                        i < j < self.stack_seq().len() ==> self.stack_seq()[j].active_unit_spec()
                            is None
                },
    {
        let n = self.stack.len();
        let mut i: usize = n;
        while i > 0
            invariant
                i <= n,
                n == self.stack@.len(),
                forall|j: int|
                    i <= j < n ==> (#[trigger] self.stack@[j]).active_unit_spec() is None,
            decreases i,
        {
            i = i - 1;
            match self.stack[i].active_unit() {
                Some(u) => {
                    return Some(u);
                },
                None => {
                },
            }
        }
        None
    }

    /// Apply a stack directive. The stack length never drops below one: a
    /// pop of the base state is structurally impossible, and unwind-to-base
    /// always leaves exactly one element.
    pub fn apply_transition(&mut self, transition: Transition)
        requires
            old(self).depth_spec() >= 1,
        ensures
            final(self).stack_seq() == transition_applied(old(self).stack_seq(), transition),
            final(self).depth_spec() >= 1,
            transition is Pop ==> final(self).depth_spec() >= 1,
            transition is PopAllButFirst ==> final(self).depth_spec() == 1,
            final(self).msgs_seq() == old(self).msgs_seq(),
            final(self).buffered_seq() == old(self).buffered_seq(),
            final(self).focus_spec() == old(self).focus_spec(),
    {
        match transition {
            Transition::Stay => {
            },
            Transition::Pop => {
                if self.stack.len() > 1 {
                    let _ = self.stack.pop();
                }
            },
            Transition::Push(game_state) => {
                self.stack.push(game_state);
            },
            Transition::Switch(game_state) => {
                let _ = self.stack.pop();
                self.stack.push(game_state);
            },
            Transition::PopAllButFirst => {
                while self.stack.len() > 1
                    invariant
                        1 <= self.stack@.len() <= old(self).stack@.len(),
                        forall|i: int|
                            0 <= i < self.stack@.len() ==> #[trigger] self.stack@[i] == old(
                                self,
                            ).stack@[i],
                        self.msg_queue@ == old(self).msg_queue@,
                        self.commands_buffer.queue_seq() == old(self).commands_buffer.queue_seq(),
                        self.focus == old(self).focus,
                    decreases self.stack@.len(),
                {
                    let _ = self.stack.pop();
                }
                proof {
                    assert(self.stack@ =~= old(self).stack@.subrange(0, 1));
                }
            },
        }
    }

    /// Apply one deferred command to the world. Committing or damaging a
    /// unit posts a world-updated message for the next active state. A
    /// command naming an identity that is not present is a defensive no-op:
    /// no removal path exists today, so it cannot occur.
    pub fn apply_command(&mut self, world: &mut WorldState, cmd: Command)
        requires
            old(world).wf(),
            command_wf(cmd, old(world).map),
        ensures
            final(world).wf(),
            final(world).map == old(world).map,
            final(world).units@.len() == old(world).units@.len(),
            command_applied(*old(world), cmd, *final(world)),
            final(self).stack_seq() == old(self).stack_seq(),
            final(self).buffered_seq() == old(self).buffered_seq(),
            cmd matches Command::CommitUnit(u) ==> ({
                &&& (u.id.0 < old(world).units@.len() ==> final(world).units@ == old(
                    world,
                ).units@.update(u.id.0 as int, u))
                &&& (u.id.0 >= old(world).units@.len() ==> final(world).units@ == old(
                    world,
                ).units@)
                &&& final(self).msgs_seq() == old(self).msgs_seq().push(GameMsg::WorldUpdated)
                &&& final(self).focus_spec() == old(self).focus_spec()
            }),
            cmd matches Command::DamageUnit(id, dmg) ==> ({
                &&& (id.0 < old(world).units@.len() ==> final(world).units@ == old(
                    world,
                ).units@.update(
                    id.0 as int,
                    (Unit {
                        curr_health: sat_sub_spec(
                            old(world).units@[id.0 as int].curr_health as int,
                            dmg as int,
                        ) as i32,
                        ..old(world).units@[id.0 as int]
                    }),
                ))
                &&& (id.0 >= old(world).units@.len() ==> final(world).units@ == old(world).units@)
                &&& final(self).msgs_seq() == old(self).msgs_seq().push(GameMsg::WorldUpdated)
                &&& final(self).focus_spec() == old(self).focus_spec()
            }),
            cmd is SetupTurn ==> ({
                &&& forall|i: int|
                    0 <= i < old(world).units@.len() ==> final(world).units@[i] == (Unit {
                        turn_complete: false,
                        ..old(world).units@[i]
                    })
                &&& final(self).msgs_seq() == old(self).msgs_seq()
                &&& final(self).focus_spec() == old(self).focus_spec()
            }),
            cmd matches Command::FocusView(p) ==> ({
                &&& final(world).units@ == old(world).units@
                &&& final(self).msgs_seq() == old(self).msgs_seq()
                &&& final(self).focus_spec() == Some(p)
            }),
    {
        match cmd {
            Command::CommitUnit(u) => {
                let idx = u.id.0 as usize;
                if idx < world.units.len() {
                    world.units.set(idx, u);
                }
                self.msg_queue.push(GameMsg::WorldUpdated);
            },
            Command::DamageUnit(id, dmg) => {
                let idx = id.0 as usize;
                if idx < world.units.len() {
                    let mut u = world.units[idx];
                    u.curr_health = sub_saturating(u.curr_health, dmg);
                    world.units.set(idx, u);
                }
                self.msg_queue.push(GameMsg::WorldUpdated);
            },
            Command::SetupTurn => {
                world.setup_turn();
            },
            Command::FocusView(p) => {
                self.focus = Some(p);
            },
        }
    }

    /// One driver invocation per rendered frame: tick the top state, apply
    /// its directive, and re-tick the new top within the same call until a
    /// state reports no change (chained transitions see neutral input, as a
    /// frame's edge-triggered presses are consumed by the first tick). Once
    /// the loop settles, drain the command buffer in FIFO order and apply
    /// each command exactly once.
    ///
    /// The contract exhibits the first tick's outcome (a `game_step` of the
    /// old top state on the frame's input and front message) and states that
    /// the final world results from draining a command sequence extending
    /// the old buffer, each command applied exactly once in FIFO order
    /// (`commands_applied`). When that first tick already settles — every
    /// frame without a chained transition — the final stack, world and
    /// message queue are pinned exactly; a chained frame is pinned tick by
    /// tick through `game_step` and `transition_applied` but not as one
    /// closed formula here.
    pub fn update(&mut self, world: &mut WorldState, input: &ControllerInput)
        requires
            old(self).wf(old(world).map),
            old(world).wf(),
            input.dpad_wf(),
        ensures
            final(self).wf(final(world).map),
            final(world).wf(),
            final(world).map == old(world).map,
            final(world).units@.len() == old(world).units@.len(),
            final(self).depth_spec() >= 1,
            final(self).buffered_seq().len() == 0,
            exists|cs: Seq<Command>|
                {
                    &&& old(self).buffered_seq().is_prefix_of(cs)
                    &&& (forall|i: int|
                        0 <= i < cs.len() ==> command_wf(#[trigger] cs[i], old(world).map))
                    &&& commands_applied(*old(world), cs, *final(world))
                },
            exists|r: StepOutcome|
                {
                    &&& #[trigger] game_step(
                        old(self).stack_seq().last(),
                        front_msg(old(self).msgs_seq()),
                        *input,
                        *old(world),
                        r,
                    )
                    &&& outcome_wf(r, old(world).map)
                    &&& (r.transition is Stay ==> final(self).stack_seq() == old(
                        self,
                    ).stack_seq().drop_last().push(r.state) && commands_applied(
                        *old(world),
                        old(self).buffered_seq() + r.commands@,
                        *final(world),
                    ) && final(self).msgs_seq() == msgs_after_tick(old(self).msgs_seq(), r)
                        + drain_msgs(old(self).buffered_seq() + r.commands@))
                },
    {
        let mut cur_input: ControllerInput = *input;
        let mut steps: usize = 0;
        let ghost mut first: Option<StepOutcome> = None;
        loop
            invariant_except_break
                steps == 0 ==> first is None,
            invariant
                self.wf(world.map),
                world.wf(),
                *world == *old(world),
                cur_input.dpad_wf(),
                steps <= MAX_CHAIN_STEPS,
                old(self).commands_buffer.queue_seq().len()
                    <= self.commands_buffer.queue_seq().len(),
                forall|i: int|
                    0 <= i < old(self).commands_buffer.queue_seq().len()
                        ==> #[trigger] self.commands_buffer.queue_seq()[i] == old(
                        self,
                    ).commands_buffer.queue_seq()[i],
                first is None ==> self.stack@ == old(self).stack@
                    && self.commands_buffer.queue_seq() == old(self).commands_buffer.queue_seq()
                    && self.msg_queue@ == old(self).msg_queue@ && steps == 0 && cur_input
                    == *input,
                first matches Some(fr) ==> game_step(
                    old(self).stack@.last(),
                    front_msg(old(self).msg_queue@),
                    *input,
                    *old(world),
                    fr,
                ) && outcome_wf(fr, old(world).map),
                first matches Some(fr) ==> (fr.transition is Stay ==> self.stack@ == old(
                    self,
                ).stack@.drop_last().push(fr.state) && self.commands_buffer.queue_seq() == old(
                    self,
                ).commands_buffer.queue_seq() + fr.commands@),
                steps > 0 ==> first is Some,
                steps > 0 ==> (first matches Some(fr) ==> !(fr.transition is Stay)),
            ensures
                self.wf(world.map),
                world.wf(),
                *world == *old(world),
                old(self).commands_buffer.queue_seq().len()
                    <= self.commands_buffer.queue_seq().len(),
                forall|i: int|
                    0 <= i < old(self).commands_buffer.queue_seq().len()
                        ==> #[trigger] self.commands_buffer.queue_seq()[i] == old(
                        self,
                    ).commands_buffer.queue_seq()[i],
                first matches Some(fr) && game_step(
                    old(self).stack@.last(),
                    front_msg(old(self).msg_queue@),
                    *input,
                    *old(world),
                    fr,
                ) && outcome_wf(fr, old(world).map) && (fr.transition is Stay ==> self.stack@
                    == old(self).stack@.drop_last().push(fr.state)
                    && self.commands_buffer.queue_seq() == old(
                    self,
                ).commands_buffer.queue_seq() + fr.commands@ && self.msg_queue@ == msgs_after_tick(
                    old(self).msg_queue@,
                    fr,
                )),
            decreases MAX_CHAIN_STEPS - steps,
        {
            let ghost pre_msgs = self.msg_queue@;
            let ghost pre_buf = self.commands_buffer.queue_seq();
            let ghost pre_stack = self.stack@;
            proof {
                assert forall|i: int| 0 <= i < pre_msgs.len() implies msg_wf(
                    #[trigger] pre_msgs[i],
                    world.map,
                ) by {
                    assert(pre_msgs[i] == self.msgs_seq()[i]);
                }
                assert forall|i: int| 0 <= i < pre_buf.len() implies command_wf(
                    #[trigger] pre_buf[i],
                    world.map,
                ) by {
                    assert(pre_buf[i] == self.buffered_seq()[i]);
                }
                assert forall|i: int| 0 <= i < pre_stack.len() implies (
                #[trigger] pre_stack[i]).wf(world.map) by {
                    assert(pre_stack[i] == self.stack_seq()[i]);
                }
            }
            let msg: Option<GameMsg> = if self.msg_queue.len() > 0 {
                let m = self.msg_queue.remove(0);
                proof {
                    assert(m == pre_msgs[0]);
                    assert(msg_wf(m, world.map));
                }
                Some(m)
            } else {
                None
            };
            let ghost msgs1 = self.msg_queue@;
            proof {
                assert forall|i: int| 0 <= i < msgs1.len() implies msg_wf(
                    #[trigger] msgs1[i],
                    world.map,
                ) by {
                    if pre_msgs.len() > 0 {
                        assert(msgs1 == pre_msgs.remove(0));
                        assert(msgs1[i] == pre_msgs[i + 1]);
                    } else {
                        assert(msgs1[i] == pre_msgs[i]);
                    }
                }
            }
            let top = self.stack.remove(self.stack.len() - 1);
            proof {
                assert(top == pre_stack.last());
                assert(top.wf(world.map));
                assert(self.stack@ =~= pre_stack.drop_last());
            }
            let ghost popped_stack = self.stack@;
            let outcome = top.update(msg, &cur_input, world);
            let ghost o = outcome;
            proof {
                assert(outcome.state.wf(world.map));
                assert(transition_wf(outcome.transition, world.map));
                assert(forall|i: int|
                    0 <= i < outcome.commands@.len() ==> command_wf(
                        #[trigger] outcome.commands@[i],
                        world.map,
                    ));
                if first is None {
                    assert(pre_stack == old(self).stack@);
                    assert(top == old(self).stack@.last());
                    assert(pre_msgs == old(self).msg_queue@);
                    assert(msg == front_msg(old(self).msg_queue@));
                    assert(cur_input == *input);
                    first = Some(o);
                }
            }
            let StepOutcome { state: new_top, transition, commands, post_msg } = outcome;
            self.stack.push(new_top);
            let ghost mid_stack = self.stack@;
            proof {
                assert(mid_stack == popped_stack.push(new_top));
                assert forall|i: int| 0 <= i < mid_stack.len() implies (
                #[trigger] mid_stack[i]).wf(world.map) by {
                    if i < mid_stack.len() - 1 {
                        assert(mid_stack[i] == popped_stack[i]);
                        assert(popped_stack[i] == pre_stack[i]);
                    } else {
                        assert(mid_stack[i] == new_top);
                    }
                }
            }
            let ncmds = commands.len();
            let mut ci: usize = 0;
            proof {
                assert forall|i: int|
                    0 <= i < self.commands_buffer.queue_seq().len() implies command_wf(
                    #[trigger] self.commands_buffer.queue_seq()[i],
                    world.map,
                ) by {
                    assert(self.commands_buffer.queue_seq()[i] == pre_buf[i]);
                }
                assert(pre_buf + commands@.subrange(0, 0) =~= pre_buf);
            }
            while ci < ncmds
                invariant
                    ci <= ncmds,
                    ncmds == commands@.len(),
                    forall|i: int|
                        0 <= i < commands@.len() ==> command_wf(#[trigger] commands@[i], world.map),
                    world.wf(),
                    *world == *old(world),
                    self.msg_queue@ == msgs1,
                    self.stack@ == mid_stack,
                    self.commands_buffer.queue_seq() == pre_buf + commands@.subrange(0, ci as int),
                    forall|i: int|
                        0 <= i < mid_stack.len() ==> (#[trigger] mid_stack[i]).wf(world.map),
                    forall|i: int|
                        0 <= i < self.commands_buffer.queue_seq().len() ==> command_wf(
                            #[trigger] self.commands_buffer.queue_seq()[i],
                            world.map,
                        ),
                decreases ncmds - ci,
            {
                let ghost buf_before = self.commands_buffer.queue_seq();
                self.commands_buffer.add(commands[ci]);
                proof {
                    assert forall|i: int|
                        0 <= i < self.commands_buffer.queue_seq().len() implies command_wf(
                        #[trigger] self.commands_buffer.queue_seq()[i],
                        world.map,
                    ) by {
                        if i < buf_before.len() {
                            assert(self.commands_buffer.queue_seq()[i] == buf_before[i]);
                        } else {
                            assert(self.commands_buffer.queue_seq()[i] == commands@[ci as int]);
                        }
                    }
                    assert(pre_buf + commands@.subrange(0, ci + 1) =~= (pre_buf
                        + commands@.subrange(0, ci as int)).push(commands@[ci as int]));
                }
                ci = ci + 1;
            }
            proof {
                assert(commands@.subrange(0, ncmds as int) =~= commands@);
            }
            match post_msg {
                Some(m) => {
                    let ghost m1 = self.msg_queue@;
                    self.msg_queue.push(m);
                    proof {
                        assert forall|i: int| 0 <= i < self.msg_queue@.len() implies msg_wf(
                            #[trigger] self.msg_queue@[i],
                            world.map,
                        ) by {
                            if i < m1.len() {
                                assert(self.msg_queue@[i] == m1[i]);
                                assert(m1[i] == msgs1[i]);
                            } else {
                                assert(self.msg_queue@[i] == m);
                            }
                        }
                    }
                },
                None => {
                },
            }
            let mut settled = false;
            proof {
                assert(o.transition == transition);
            }
            match transition {
                Transition::Stay => {
                    settled = true;
                },
                t => {
                    proof {
                        assert(transition_wf(t, world.map));
                    }
                    self.apply_transition(t);
                    proof {
                        assert forall|i: int| 0 <= i < self.stack@.len() implies (
                        #[trigger] self.stack@[i]).wf(world.map) by {
                            match t {
                                Transition::Pop => {
                                    if mid_stack.len() > 1 {
                                        assert(self.stack@ == mid_stack.drop_last());
                                        assert(self.stack@[i] == mid_stack[i]);
                                    } else {
                                        assert(self.stack@[i] == mid_stack[i]);
                                    }
                                },
                                Transition::Push(s) => {
                                    assert(self.stack@ == mid_stack.push(s));
                                    if i < self.stack@.len() - 1 {
                                        assert(self.stack@[i] == mid_stack[i]);
                                    } else {
                                        assert(self.stack@[i] == s);
                                    }
                                },
                                Transition::Switch(s) => {
                                    assert(self.stack@ == mid_stack.drop_last().push(s));
                                    if i < self.stack@.len() - 1 {
                                        assert(self.stack@[i] == mid_stack.drop_last()[i]);
                                        assert(mid_stack.drop_last()[i] == mid_stack[i]);
                                    } else {
                                        assert(self.stack@[i] == s);
                                    }
                                },
                                Transition::PopAllButFirst => {
                                    assert(self.stack@ == mid_stack.subrange(0, 1));
                                    assert(self.stack@[i] == mid_stack.subrange(0, 1)[i]);
                                    assert(mid_stack.subrange(0, 1)[i] == mid_stack[0]);
                                },
                                Transition::Stay => {
                                },
                            }
                        }
                    }
                },
            }
            if settled {
                proof {
                    if steps == 0 {
                        assert(first == Some(o));
                        assert(self.stack@ == old(self).stack@.drop_last().push(o.state));
                        assert(self.commands_buffer.queue_seq() == old(
                            self,
                        ).commands_buffer.queue_seq() + o.commands@);
                        if pre_msgs.len() > 0 {
                            assert(msgs1 =~= pre_msgs.drop_first());
                        }
                        assert(self.msg_queue@ == msgs_after_tick(old(self).msg_queue@, o));
                    }
                }
                break ;
            }
            cur_input = ControllerInput::neutral();
            if steps < MAX_CHAIN_STEPS - 1 {
                steps = steps + 1;
            } else {
                // chain guard tripped: treat the frame as settled
                break ;
            }
        }
        let ghost buf_f = self.commands_buffer.queue_seq();
        let ghost stack_f = self.stack@;
        let ghost msgs_dstart = self.msg_queue@;
        let ghost first_r = first->Some_0;
        proof {
            assert(buf_f.subrange(0, 0) =~= Seq::<Command>::empty());
            assert(commands_applied(*old(world), buf_f.subrange(0, 0), *world));
            assert(msgs_dstart + drain_msgs(buf_f.subrange(0, 0)) =~= msgs_dstart);
            assert forall|i: int| 0 <= i < buf_f.len() implies command_wf(
                #[trigger] buf_f[i],
                old(world).map,
            ) by {
                assert(buf_f[i] == self.buffered_seq()[i]);
            }
        }
        let n = self.commands_buffer.len();
        let mut ci: usize = 0;
        while ci < n
            invariant
                ci <= n,
                n == self.buffered_seq().len(),
                world.wf(),
                world.map == old(world).map,
                world.units@.len() == old(world).units@.len(),
                self.wf(world.map),
                self.commands_buffer.queue_seq() == buf_f,
                self.stack@ == stack_f,
                self.msg_queue@ == msgs_dstart + drain_msgs(buf_f.subrange(0, ci as int)),
                commands_applied(*old(world), buf_f.subrange(0, ci as int), *world),
            decreases n - ci,
        {
            let cmd = self.commands_buffer.get(ci);
            let ghost w_before = *world;
            let ghost dpre_msgs = self.msg_queue@;
            let ghost dpre_buf = self.commands_buffer.queue_seq();
            let ghost dpre_stack = self.stack@;
            proof {
                assert(command_wf(cmd, world.map));
                assert forall|i: int| 0 <= i < dpre_msgs.len() implies msg_wf(
                    #[trigger] dpre_msgs[i],
                    world.map,
                ) by {
                    assert(dpre_msgs[i] == self.msgs_seq()[i]);
                }
                assert forall|i: int| 0 <= i < dpre_buf.len() implies command_wf(
                    #[trigger] dpre_buf[i],
                    world.map,
                ) by {
                    assert(dpre_buf[i] == self.buffered_seq()[i]);
                }
                assert forall|i: int| 0 <= i < dpre_stack.len() implies (
                #[trigger] dpre_stack[i]).wf(world.map) by {
                    assert(dpre_stack[i] == self.stack_seq()[i]);
                }
            }
            self.apply_command(world, cmd);
            proof {
                assert(self.stack@ == dpre_stack);
                assert(self.commands_buffer.queue_seq() == dpre_buf);
                assert(command_applied(w_before, cmd, *world));
                lemma_commands_applied_snoc(
                    *old(world),
                    buf_f.subrange(0, ci as int),
                    w_before,
                    cmd,
                    *world,
                );
                assert(buf_f.subrange(0, ci + 1) =~= buf_f.subrange(0, ci as int).push(
                    buf_f[ci as int],
                ));
                assert(commands_applied(*old(world), buf_f.subrange(0, ci + 1), *world));
                lemma_drain_msgs_snoc(buf_f.subrange(0, ci as int), buf_f[ci as int]);
                assert(self.msg_queue@ =~= msgs_dstart + drain_msgs(buf_f.subrange(0, ci + 1)))
                    by {
                    assert(self.msg_queue@ =~= (msgs_dstart + drain_msgs(buf_f.subrange(
                        0,
                        ci as int,
                    ))) + command_msgs(cmd));
                }
                assert forall|i: int| 0 <= i < self.msgs_seq().len() implies msg_wf(
                    #[trigger] self.msgs_seq()[i],
                    world.map,
                ) by {
                    if i < dpre_msgs.len() {
                        assert(self.msgs_seq()[i] == dpre_msgs[i]);
                    } else {
                        assert(self.msgs_seq()[i] == GameMsg::WorldUpdated);
                    }
                }
                assert forall|i: int| 0 <= i < self.stack_seq().len() implies (
                #[trigger] self.stack_seq()[i]).wf(world.map) by {
                    assert(self.stack_seq()[i] == dpre_stack[i]);
                }
                assert forall|i: int| 0 <= i < self.buffered_seq().len() implies command_wf(
                    #[trigger] self.buffered_seq()[i],
                    world.map,
                ) by {
                    assert(self.buffered_seq()[i] == dpre_buf[i]);
                }
            }
            ci = ci + 1;
        }
        let ghost fpre_msgs = self.msg_queue@;
        let ghost fpre_stack = self.stack@;
        proof {
            assert forall|i: int| 0 <= i < fpre_msgs.len() implies msg_wf(
                #[trigger] fpre_msgs[i],
                world.map,
            ) by {
                assert(fpre_msgs[i] == self.msgs_seq()[i]);
            }
            assert forall|i: int| 0 <= i < fpre_stack.len() implies (
            #[trigger] fpre_stack[i]).wf(world.map) by {
                assert(fpre_stack[i] == self.stack_seq()[i]);
            }
        }
        self.commands_buffer.clear();
        proof {
            assert forall|i: int| 0 <= i < self.msgs_seq().len() implies msg_wf(
                #[trigger] self.msgs_seq()[i],
                world.map,
            ) by {
                assert(self.msgs_seq()[i] == fpre_msgs[i]);
            }
            assert forall|i: int| 0 <= i < self.stack_seq().len() implies (
            #[trigger] self.stack_seq()[i]).wf(world.map) by {
                assert(self.stack_seq()[i] == fpre_stack[i]);
            }
            // the drained commands: the entry buffer extended by what the
            // ticks appended, applied to the world in FIFO order
            assert(buf_f.subrange(0, buf_f.len() as int) =~= buf_f);
            assert(commands_applied(*old(world), buf_f, *world));
            assert(old(self).buffered_seq().is_prefix_of(buf_f)) by {
                assert(old(self).buffered_seq() =~= buf_f.subrange(
                    0,
                    old(self).buffered_seq().len() as int,
                ));
            }
            // the first tick's outcome, and the exact settled-in-one-tick case
            assert(game_step(
                old(self).stack_seq().last(),
                front_msg(old(self).msgs_seq()),
                *input,
                *old(world),
                first_r,
            ));
            if first_r.transition is Stay {
                assert(buf_f == old(self).buffered_seq() + first_r.commands@);
                assert(commands_applied(
                    *old(world),
                    old(self).buffered_seq() + first_r.commands@,
                    *world,
                ));
                assert(buf_f.subrange(0, buf_f.len() as int) =~= buf_f);
                assert(self.msg_queue@ == msgs_after_tick(old(self).msgs_seq(), first_r)
                    + drain_msgs(old(self).buffered_seq() + first_r.commands@));
            }
        }
    }
}

} // verus!
