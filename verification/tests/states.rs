use luminara::cursor::Cursor;
use luminara::input::ControllerInput;
use luminara::map::{GameMap, Terrain};
use luminara::math::Point;
use luminara::pathfinding::DijkstraMap;
use luminara::state::animation::{MoveAnimation, TICK_MS};
use luminara::state::player::{PlayerAction, PlayerAttack, PlayerMove, PossibleActions};
use luminara::state::simulated::{ActionSimulated, MoveSimulated, SimulatedManager};
use luminara::state::{Command, GameMsg, GameState, StateMachine, Transition};
use luminara::ui::{Menu, MenuItem};
use luminara::unit::{ErasedUnit, MovementClass, TextureKey, Unit, UnitId};
use luminara::world::{Faction, WorldState};

fn erased(class: MovementClass, faction: Faction, movement: u32, x: i32, y: i32) -> ErasedUnit {
    ErasedUnit {
        movement,
        movement_class: class,
        turn_complete: false,
        faction,
        curr_health: 10,
        max_health: 10,
        pos: Point::new(x, y),
        texture_path: String::from("unit1.png"),
        weapon: None,
    }
}

fn small_world() -> WorldState {
    let map = GameMap::filled(8, 8, Terrain::Ground);
    let mut world = WorldState::new(map);
    world.spawn_units(&erased(MovementClass::Infantry, Faction::Player, 5, 2, 2), TextureKey(0));
    world.spawn_units(&erased(MovementClass::Infantry, Faction::Enemy, 5, 6, 6), TextureKey(1));
    world
}

fn neutral() -> ControllerInput {
    ControllerInput::neutral()
}

fn press_confirm() -> ControllerInput {
    ControllerInput { confirm: true, ..ControllerInput::neutral() }
}

fn press_cancel() -> ControllerInput {
    ControllerInput { cancel: true, ..ControllerInput::neutral() }
}

fn dpad(x: i32, y: i32) -> ControllerInput {
    ControllerInput { dpad_x: x, dpad_y: y, ..ControllerInput::neutral() }
}

fn player_move_for(world: &WorldState, idx: usize) -> PlayerMove {
    let u = world.units[idx];
    let dm = DijkstraMap::new(&world.map, &u, &world.units);
    PlayerMove::new(u, dm, Cursor::new(u.pos))
}

#[test]
fn confirm_on_own_cell_opens_action_menu_not_animation() {
    // Confirm while the cursor sits on the selected unit's own cell must
    // push the action menu, never a move animation.
    let world = small_world();
    let pm = player_move_for(&world, 0);
    let out = pm.update(None, &press_confirm(), &world);
    match out.transition {
        Transition::Push(GameState::PlayerAction(pa)) => {
            assert_eq!(pa.unit.id, UnitId::new(0));
        },
        _ => panic!("expected a push of the action menu"),
    }
}

#[test]
fn confirm_on_reachable_empty_cell_starts_move_animation() {
    let world = small_world();
    let u = world.units[0];
    let dm = DijkstraMap::new(&world.map, &u, &world.units);
    // cursor one step right of the unit
    let pm = PlayerMove::new(u, dm, Cursor::new(Point::new(2, 2)));
    let input = ControllerInput { confirm: true, dpad_x: 1, ..ControllerInput::neutral() };
    let out = pm.update(None, &input, &world);
    match out.transition {
        Transition::Push(GameState::MoveAnimation(ma)) => {
            assert_eq!(ma.path, vec![Point::new(3, 2), Point::new(2, 2)]);
            assert_eq!(ma.timer_ms, 0);
        },
        _ => panic!("expected a push of the move animation"),
    }
}

#[test]
fn cancel_pops_move_state() {
    let world = small_world();
    let pm = player_move_for(&world, 0);
    let out = pm.update(None, &press_cancel(), &world);
    assert!(matches!(out.transition, Transition::Pop));
}

#[test]
fn move_finished_message_opens_action_menu() {
    let world = small_world();
    let pm = player_move_for(&world, 0);
    let moved = Unit { pos: Point::new(3, 2), ..world.units[0] };
    let out = pm.update(Some(GameMsg::MoveAnimationDone(moved)), &neutral(), &world);
    match out.transition {
        Transition::Push(GameState::PlayerAction(pa)) => {
            assert_eq!(pa.unit.pos, Point::new(3, 2));
        },
        _ => panic!("expected a push of the action menu"),
    }
}

#[test]
fn manager_with_no_unmoved_unit_switches_to_fresh_select_after_reset() {
    // With zero unmoved units of its faction the manager issues setup-turn
    // and switches to a fresh player selection; it never pushes a move.
    let mut world = small_world();
    let mut e = world.units[1];
    e.turn_complete = true;
    world.units[1] = e;
    let sm = SimulatedManager::new(Faction::Enemy);
    let out = sm.update(None, &neutral(), &world);
    assert_eq!(out.commands.len(), 1);
    assert!(matches!(out.commands[0], Command::SetupTurn));
    match out.transition {
        Transition::Switch(GameState::PlayerSelect(ps)) => {
            // the fresh selection cursor sits on the first player unit
            assert_eq!(ps.cursor.pos, Point::new(2, 2));
        },
        _ => panic!("expected a switch to player selection"),
    }
}

#[test]
fn manager_with_unmoved_unit_pushes_simulated_move() {
    let world = small_world();
    let sm = SimulatedManager::new(Faction::Enemy);
    let out = sm.update(None, &neutral(), &world);
    assert_eq!(out.commands.len(), 1);
    match out.commands[0] {
        Command::FocusView(p) => assert_eq!(p, Point::new(6, 6)),
        _ => panic!("expected a focus-view command"),
    }
    match out.transition {
        Transition::Push(GameState::MoveSimulated(ms)) => {
            assert_eq!(ms.unit.id, UnitId::new(1));
        },
        _ => panic!("expected a push of the simulated move"),
    }
}

#[test]
fn simulated_move_targets_cell_next_to_player_unit() {
    let mut world = small_world();
    let mut e = world.units[1];
    e.pos = Point::new(4, 2);
    world.units[1] = e;
    let dm = DijkstraMap::new(&world.map, &e, &world.units);
    let ms = MoveSimulated { unit: e, dijkstra_map: dm };
    let out = ms.update(None, &neutral(), &world);
    match out.transition {
        Transition::Push(GameState::MoveAnimation(ma)) => {
            let dest = ma.path[0];
            // the chosen destination is empty, adjacent to the player unit,
            // and the nearest such cell by movement cost
            let d = (dest.x - 2).abs() + (dest.y - 2).abs();
            assert_eq!(d, 1);
            assert_eq!(dest, Point::new(3, 2));
            assert_eq!(*ma.path.last().unwrap(), Point::new(4, 2));
        },
        _ => panic!("expected a push of the move animation"),
    }
}

#[test]
fn simulated_move_stays_put_when_nothing_is_reachable() {
    // The enemy is walled off: no empty cell adjacent to a player unit is
    // reachable, so it falls back to staying put.
    let mut map = GameMap::filled(5, 1, Terrain::Ground);
    map.terrain[2] = Terrain::Mountain;
    let mut world = WorldState::new(map);
    world.spawn_units(&erased(MovementClass::Infantry, Faction::Player, 5, 0, 0), TextureKey(0));
    world.spawn_units(&erased(MovementClass::Infantry, Faction::Enemy, 5, 4, 0), TextureKey(1));
    let e = world.units[1];
    let dm = DijkstraMap::new(&world.map, &e, &world.units);
    let ms = MoveSimulated { unit: e, dijkstra_map: dm };
    let out = ms.update(None, &neutral(), &world);
    match out.transition {
        Transition::Push(GameState::MoveAnimation(ma)) => {
            assert_eq!(ma.path, vec![Point::new(4, 0)]);
        },
        _ => panic!("expected a push of the move animation"),
    }
}

#[test]
fn simulated_action_strikes_player_in_reach_and_commits() {
    let mut world = small_world();
    // put the enemy within taxicab distance 2 of the player unit
    let mut e = world.units[1];
    e.pos = Point::new(3, 3);
    world.units[1] = e;
    let a = ActionSimulated { unit: e };
    let out = a.update(None, &neutral(), &world);
    assert!(matches!(out.transition, Transition::PopAllButFirst));
    assert_eq!(out.commands.len(), 2);
    match out.commands[0] {
        Command::DamageUnit(id, amount) => {
            assert_eq!(id, UnitId::new(0));
            assert_eq!(amount, 5);
        },
        _ => panic!("expected a damage command first"),
    }
    match out.commands[1] {
        Command::CommitUnit(u) => assert!(u.turn_complete),
        _ => panic!("expected a commit command second"),
    }
}

#[test]
fn simulated_action_out_of_reach_only_commits() {
    let world = small_world();
    let a = ActionSimulated { unit: world.units[1] };
    let out = a.update(None, &neutral(), &world);
    assert_eq!(out.commands.len(), 1);
    assert!(matches!(out.commands[0], Command::CommitUnit(_)));
    assert!(matches!(out.transition, Transition::PopAllButFirst));
}

#[test]
fn wait_commits_unit_and_unwinds_to_base() {
    let world = small_world();
    let pa = PlayerAction::new(world.units[0], Cursor::new(Point::new(2, 2)));
    // move the selection down twice: Attack -> Skill -> Wait
    let out = pa.update(None, &dpad(0, -1), &world);
    let pa = match out.state {
        GameState::PlayerAction(p) => p,
        _ => panic!("state kept"),
    };
    assert!(matches!(out.transition, Transition::Stay));
    let out = pa.update(None, &dpad(0, -1), &world);
    let pa = match out.state {
        GameState::PlayerAction(p) => p,
        _ => panic!("state kept"),
    };
    let out = pa.update(None, &press_confirm(), &world);
    assert!(matches!(out.transition, Transition::PopAllButFirst));
    assert_eq!(out.commands.len(), 1);
    match out.commands[0] {
        Command::CommitUnit(u) => {
            assert!(u.turn_complete);
            assert_eq!(u.id, UnitId::new(0));
        },
        _ => panic!("expected a commit command"),
    }
    assert!(matches!(out.post_msg, Some(GameMsg::SetCursor(_))));
}

#[test]
fn attack_with_enemy_in_range_pushes_target_choice() {
    let mut world = small_world();
    let mut e = world.units[1];
    e.pos = Point::new(3, 2); // adjacent to the player unit at (2, 2)
    world.units[1] = e;
    let pa = PlayerAction::new(world.units[0], Cursor::new(Point::new(2, 2)));
    // Attack is the initial selection; confirm immediately
    let out = pa.update(None, &press_confirm(), &world);
    match out.transition {
        Transition::Push(GameState::PlayerAttack(pat)) => {
            assert_eq!(pat.targets, vec![(UnitId::new(1), Point::new(3, 2))]);
            assert_eq!(pat.selected, 0);
        },
        _ => panic!("expected a push of target choice"),
    }
}

#[test]
fn attack_with_no_enemy_in_range_stays() {
    let world = small_world();
    let pa = PlayerAction::new(world.units[0], Cursor::new(Point::new(2, 2)));
    let out = pa.update(None, &press_confirm(), &world);
    assert!(matches!(out.transition, Transition::Stay));
    assert_eq!(out.commands.len(), 0);
}

#[test]
fn attack_confirm_damages_selected_target_and_unwinds() {
    let world = small_world();
    let pat = PlayerAttack {
        unit: world.units[0],
        cursor: Cursor::new(Point::new(2, 2)),
        targets: vec![(UnitId::new(1), Point::new(3, 2))],
        selected: 0,
    };
    let out = pat.update(None, &press_confirm(), &world);
    assert!(matches!(out.transition, Transition::PopAllButFirst));
    assert_eq!(out.commands.len(), 2);
    match out.commands[0] {
        Command::DamageUnit(id, amount) => {
            assert_eq!(id, UnitId::new(1));
            assert_eq!(amount, 3);
        },
        _ => panic!("expected a damage command first"),
    }
    match out.commands[1] {
        Command::CommitUnit(u) => assert!(u.turn_complete),
        _ => panic!("expected a commit command second"),
    }
}

#[test]
fn attack_directional_input_cycles_targets() {
    let world = small_world();
    let targets = vec![
        (UnitId::new(1), Point::new(3, 2)),
        (UnitId::new(2), Point::new(2, 3)),
        (UnitId::new(3), Point::new(1, 2)),
    ];
    let pat = PlayerAttack {
        unit: world.units[0],
        cursor: Cursor::new(Point::new(2, 2)),
        targets,
        selected: 0,
    };
    let out = pat.update(None, &dpad(1, 0), &world);
    let pat = match out.state {
        GameState::PlayerAttack(p) => p,
        _ => panic!("state kept"),
    };
    assert_eq!(pat.selected, 1);
    assert_eq!(pat.cursor.pos, Point::new(2, 3));
    let out = pat.update(None, &dpad(-1, 0), &world);
    let pat = match out.state {
        GameState::PlayerAttack(p) => p,
        _ => panic!("state kept"),
    };
    assert_eq!(pat.selected, 0);
    // wrapping backwards from the first entry reaches the last
    let out = pat.update(None, &dpad(0, -1), &world);
    let pat = match out.state {
        GameState::PlayerAttack(p) => p,
        _ => panic!("state kept"),
    };
    assert_eq!(pat.selected, 2);
    assert_eq!(pat.cursor.pos, Point::new(1, 2));
}

#[test]
fn animation_advances_one_step_per_tick_interval() {
    let world = small_world();
    let unit = world.units[0];
    let path = vec![Point::new(3, 2), Point::new(2, 2)];
    let ma = MoveAnimation::new(unit, path);
    // a partial frame accumulates time without stepping
    let out = ma.update(None, &ControllerInput { frame_ms: 40, ..neutral() }, &world);
    let ma = match out.state {
        GameState::MoveAnimation(m) => m,
        _ => panic!("state kept"),
    };
    assert!(matches!(out.transition, Transition::Stay));
    assert_eq!(ma.timer_ms, 40);
    assert_eq!(ma.path.len(), 2);
    // a frame that completes the interval advances the position
    let out = ma.update(None, &ControllerInput { frame_ms: TICK_MS, ..neutral() }, &world);
    let ma = match out.state {
        GameState::MoveAnimation(m) => m,
        _ => panic!("state kept"),
    };
    assert_eq!(ma.timer_ms, 0);
    assert_eq!(ma.unit.pos, Point::new(2, 2));
    assert_eq!(ma.path, vec![Point::new(3, 2)]);
    let out = ma.update(None, &ControllerInput { frame_ms: TICK_MS, ..neutral() }, &world);
    let ma = match out.state {
        GameState::MoveAnimation(m) => m,
        _ => panic!("state kept"),
    };
    assert_eq!(ma.unit.pos, Point::new(3, 2));
    assert_eq!(ma.path.len(), 0);
    // path exhausted: post move-finished and pop
    let out = ma.update(None, &neutral(), &world);
    assert!(matches!(out.transition, Transition::Pop));
    match out.post_msg {
        Some(GameMsg::MoveAnimationDone(u)) => assert_eq!(u.pos, Point::new(3, 2)),
        _ => panic!("expected the move-finished message"),
    }
}

#[test]
fn stack_never_drops_below_one_state() {
    let world = small_world();
    let mut machine = StateMachine::new(&world);
    assert_eq!(machine.depth(), 1);
    // popping the base state is structurally impossible
    machine.apply_transition(Transition::Pop);
    assert_eq!(machine.depth(), 1);
    let pm = player_move_for(&world, 0);
    machine.apply_transition(Transition::Push(GameState::PlayerMove(pm)));
    assert_eq!(machine.depth(), 2);
    let pa = PlayerAction::new(world.units[0], Cursor::new(Point::new(2, 2)));
    machine.apply_transition(Transition::Push(GameState::PlayerAction(pa)));
    assert_eq!(machine.depth(), 3);
    machine.apply_transition(Transition::Pop);
    assert_eq!(machine.depth(), 2);
    // unwind-to-base always leaves exactly one element
    machine.apply_transition(Transition::PopAllButFirst);
    assert_eq!(machine.depth(), 1);
    machine.apply_transition(Transition::PopAllButFirst);
    assert_eq!(machine.depth(), 1);
}

#[test]
fn driver_chains_select_into_move_within_one_frame() {
    let mut world = small_world();
    let mut machine = StateMachine::new(&world);
    // the fresh cursor sits on the first player unit: confirm selects it
    machine.update(&mut world, &press_confirm());
    assert_eq!(machine.depth(), 2);
    assert!(matches!(machine.state_at(1), GameState::PlayerMove(_)));
    assert!(matches!(machine.active_unit(), Some(u) if u.id == UnitId::new(0)));
    // cancel pops back to selection
    machine.update(&mut world, &press_cancel());
    assert_eq!(machine.depth(), 1);
    assert!(matches!(machine.state_at(0), GameState::PlayerSelect(_)));
    assert!(machine.active_unit().is_none());
}

#[test]
fn driver_applies_commands_after_settling() {
    let mut world = small_world();
    let mut machine = StateMachine::new(&world);
    machine.apply_command(&mut world, Command::DamageUnit(UnitId::new(1), 4));
    assert_eq!(world.units[1].curr_health, 6);
    let committed = Unit { turn_complete: true, ..world.units[0] };
    machine.apply_command(&mut world, Command::CommitUnit(committed));
    assert!(world.units[0].turn_complete);
    machine.apply_command(&mut world, Command::SetupTurn);
    assert!(world.units.iter().all(|u| !u.turn_complete));
    machine.apply_command(&mut world, Command::FocusView(Point::new(4, 4)));
    assert_eq!(machine.take_focus(), Some(Point::new(4, 4)));
    assert_eq!(machine.take_focus(), None);
    // a command naming an absent identity is a defensive no-op
    machine.apply_command(&mut world, Command::DamageUnit(UnitId::new(99), 4));
    assert_eq!(world.units.len(), 2);
}

#[test]
fn damage_saturates_at_the_integer_floor() {
    let mut world = small_world();
    let mut u = world.units[0];
    u.curr_health = i32::MIN + 1;
    world.units[0] = u;
    let mut machine = StateMachine::new(&world);
    machine.apply_command(&mut world, Command::DamageUnit(UnitId::new(0), 5));
    assert_eq!(world.units[0].curr_health, i32::MIN);
}

#[test]
fn menu_selection_moves_and_clamps() {
    let items = vec![PossibleActions::Attack, PossibleActions::Skill, PossibleActions::Wait];
    let mut menu = Menu::new(items);
    assert!(matches!(menu.selected(), PossibleActions::Attack));
    menu.update(&dpad(0, 1));
    assert!(matches!(menu.selected(), PossibleActions::Attack));
    menu.update(&dpad(0, -1));
    assert!(matches!(menu.selected(), PossibleActions::Skill));
    menu.update(&dpad(0, -1));
    assert!(matches!(menu.selected(), PossibleActions::Wait));
    menu.update(&dpad(0, -1));
    assert!(matches!(menu.selected(), PossibleActions::Wait));
    assert_eq!(PossibleActions::Attack.menu_label(), "Attack");
    assert_eq!(PossibleActions::Skill.menu_label(), "Skill");
    assert_eq!(PossibleActions::Wait.menu_label(), "Wait");
}

#[test]
fn cursor_moves_by_dpad_and_clamps_to_map() {
    let map = GameMap::filled(4, 4, Terrain::Ground);
    let mut c = Cursor::new(Point::new(0, 0));
    // screen-up (positive dpad_y) decreases grid y: clamped at the edge
    c.update(&dpad(0, 1), &map);
    assert_eq!(c.get_pos(), Point::new(0, 0));
    c.update(&dpad(1, -1), &map);
    assert_eq!(c.get_pos(), Point::new(1, 1));
    c.update(&dpad(-1, 0), &map);
    c.update(&dpad(-1, 0), &map);
    assert_eq!(c.get_pos(), Point::new(0, 1));
    c.set_pos(Point::new(3, 3));
    c.update(&dpad(1, -1), &map);
    assert_eq!(c.get_pos(), Point::new(3, 3));
}

#[test]
fn select_update_handles_set_cursor_message() {
    let world = small_world();
    let machine = StateMachine::new(&world);
    assert_eq!(machine.depth(), 1);
    let ps = match machine.state_at(0) {
        GameState::PlayerSelect(p) => luminara::state::player::PlayerSelect { cursor: p.cursor },
        _ => panic!("base state is selection"),
    };
    let msg = GameMsg::SetCursor(Cursor::new(Point::new(5, 5)));
    let out = ps.update(Some(msg), &neutral(), &world);
    match out.state {
        GameState::PlayerSelect(p2) => assert_eq!(p2.cursor.pos, Point::new(5, 5)),
        _ => panic!("state kept"),
    }
    assert!(matches!(out.transition, Transition::Stay));
}
