use luminara::map::{GameMap, Terrain};
use luminara::math::{Point, TileRect};
use luminara::unit::{ErasedUnit, MovementClass, TextureKey, UnitId};
use luminara::world::{Faction, WorldState};

fn erased(class: MovementClass, faction: Faction, movement: u32, x: i32, y: i32) -> ErasedUnit {
    ErasedUnit {
        movement,
        movement_class: class,
        turn_complete: false,
        faction,
        curr_health: 10,
        max_health: 10,
        pos: Point::new(x, y),
        texture_path: String::from("unit1.png"),
        weapon: None,
    }
}

fn small_world() -> WorldState {
    let map = GameMap::filled(8, 8, Terrain::Ground);
    let mut world = WorldState::new(map);
    world.spawn_units(&erased(MovementClass::Infantry, Faction::Player, 5, 1, 1), TextureKey(0));
    world.spawn_units(&erased(MovementClass::Mounted, Faction::Player, 7, 2, 2), TextureKey(0));
    world.spawn_units(&erased(MovementClass::Infantry, Faction::Enemy, 5, 5, 5), TextureKey(1));
    world
}

#[test]
fn spawn_assigns_identities_monotonically_from_zero() {
    let world = small_world();
    assert_eq!(world.units.len(), 3);
    for (i, u) in world.units.iter().enumerate() {
        assert_eq!(u.id, UnitId::new(i as u32));
    }
}

#[test]
fn get_unmoved_unit_returns_lowest_identity_first() {
    let mut world = small_world();
    let first = world.get_unmoved_unit(Faction::Player).unwrap();
    assert_eq!(first.id, UnitId::new(0));
    // commit the first: the next one reports
    let mut u = world.units[0];
    u.turn_complete = true;
    world.units[0] = u;
    let second = world.get_unmoved_unit(Faction::Player).unwrap();
    assert_eq!(second.id, UnitId::new(1));
}

#[test]
fn turn_invariant_after_reset_and_after_commit() {
    let mut world = small_world();
    // commit everything
    for i in 0..world.units.len() {
        let mut u = world.units[i];
        u.turn_complete = true;
        world.units[i] = u;
    }
    // once all of a faction's units are committed, none report unmoved
    assert!(world.get_unmoved_unit(Faction::Player).is_none());
    assert!(world.get_unmoved_unit(Faction::Enemy).is_none());
    // after the turn reset, every faction with a unit reports an unmoved one
    world.setup_turn();
    assert!(world.get_unmoved_unit(Faction::Player).is_some());
    assert!(world.get_unmoved_unit(Faction::Enemy).is_some());
    // a faction with no units still reports none
    assert!(world.get_unmoved_unit(Faction::Neutral).is_none());
    for u in &world.units {
        assert!(!u.turn_complete);
    }
}

#[test]
fn setup_turn_clears_flags_for_every_faction() {
    let mut world = small_world();
    let mut u = world.units[2];
    u.turn_complete = true;
    world.units[2] = u;
    world.setup_turn();
    assert!(world.units.iter().all(|u| !u.turn_complete));
}

#[test]
fn is_tile_empty_with_and_without_exclusion() {
    let world = small_world();
    assert!(world.is_tile_empty(Point::new(0, 0), None));
    assert!(!world.is_tile_empty(Point::new(1, 1), None));
    // excluding the unit that stands there makes the tile count as empty
    assert!(world.is_tile_empty(Point::new(1, 1), Some(UnitId::new(0))));
    // excluding a different unit does not
    assert!(!world.is_tile_empty(Point::new(1, 1), Some(UnitId::new(2))));
}

#[test]
fn get_unmoved_by_pos_combines_faction_flag_and_tile() {
    let mut world = small_world();
    let u = world.get_unmoved_by_pos(Faction::Player, Point::new(2, 2)).unwrap();
    assert_eq!(u.id, UnitId::new(1));
    assert!(world.get_unmoved_by_pos(Faction::Enemy, Point::new(2, 2)).is_none());
    assert!(world.get_unmoved_by_pos(Faction::Player, Point::new(7, 7)).is_none());
    let mut c = world.units[1];
    c.turn_complete = true;
    world.units[1] = c;
    assert!(world.get_unmoved_by_pos(Faction::Player, Point::new(2, 2)).is_none());
}

#[test]
fn map_bounds_and_terrain_lookup() {
    let mut map = GameMap::filled(4, 3, Terrain::Ground);
    map.terrain[2 * 4 + 3] = Terrain::Forest;
    assert!(map.in_bounds(Point::new(0, 0)));
    assert!(map.in_bounds(Point::new(3, 2)));
    assert!(!map.in_bounds(Point::new(4, 0)));
    assert!(!map.in_bounds(Point::new(0, 3)));
    assert!(!map.in_bounds(Point::new(-1, 0)));
    assert!(matches!(map.get_terrain(Point::new(3, 2)), Terrain::Forest));
    assert!(matches!(map.get_terrain(Point::new(0, 0)), Terrain::Ground));
    assert_eq!(map.point_to_idx(Point::new(3, 2)), 11);
}

#[test]
fn tile_rect_membership_and_enumeration() {
    let r = TileRect::with_size(1, 1, 2, 3);
    assert!(r.point_in_rect(Point::new(1, 1)));
    assert!(r.point_in_rect(Point::new(2, 3)));
    assert!(!r.point_in_rect(Point::new(3, 1)));
    assert!(!r.point_in_rect(Point::new(0, 1)));
    let cells = r.for_each();
    assert_eq!(cells.len(), 6);
    assert!(cells.iter().all(|p| r.point_in_rect(*p)));
    assert_eq!(Point::zero(), Point::new(0, 0));
}
