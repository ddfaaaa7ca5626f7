use luminara::map::{GameMap, Terrain};
use luminara::math::Point;
use luminara::pathfinding::{get_manahattan_neighbours, DijkstraMap, UNREACHABLE};
use luminara::unit::{MovementClass, TextureKey, Unit, UnitId, WeaponId};
use luminara::world::Faction;

fn unit(id: u32, class: MovementClass, faction: Faction, movement: u32, x: i32, y: i32) -> Unit {
    Unit {
        id: UnitId::new(id),
        movement,
        movement_class: class,
        turn_complete: false,
        faction,
        curr_health: 10,
        max_health: 10,
        pos: Point::new(x, y),
        texture: TextureKey(0),
        weapon: None,
    }
}

fn dist(a: Point, b: Point) -> i32 {
    (a.x - b.x).abs() + (a.y - b.y).abs()
}

fn contains(v: &[Point], p: Point) -> bool {
    v.iter().any(|q| *q == p)
}

#[test]
fn reachable_set_all_passable_ten_by_ten() {
    let map = GameMap::filled(10, 10, Terrain::Ground);
    let u = unit(0, MovementClass::Infantry, Faction::Player, 5, 5, 5);
    let units = vec![u];
    let dm = DijkstraMap::new(&map, &u, &units);
    let reach = dm.get_reachables();
    let origin = Point::new(5, 5);
    let mut expected = 0;
    for x in 0..10 {
        for y in 0..10 {
            let p = Point::new(x, y);
            let inside = dist(origin, p) <= 5;
            if inside {
                expected += 1;
            }
            assert_eq!(contains(reach, p), inside);
        }
    }
    assert_eq!(reach.len(), expected);
}

#[test]
fn cheaper_route_through_cost_two_cell_is_taken() {
    // A cost-2 cell (forest, for a mounted unit) sits directly on the
    // shortest route; going through costs 3, around costs 4, so the
    // reconstructed path must go through.
    let mut map = GameMap::filled(3, 2, Terrain::Ground);
    map.terrain[1] = Terrain::Forest; // (1, 0)
    let u = unit(0, MovementClass::Mounted, Faction::Player, 3, 0, 0);
    let units = vec![u];
    let dm = DijkstraMap::new(&map, &u, &units);
    let path = dm.get_path_to(Point::new(2, 0));
    assert_eq!(path, vec![Point::new(2, 0), Point::new(1, 0), Point::new(0, 0)]);
}

#[test]
fn route_detours_around_impassable_cell() {
    // With the direct cell impassable, the only cost-4 route goes around.
    let mut map = GameMap::filled(3, 2, Terrain::Ground);
    map.terrain[1] = Terrain::Mountain; // (1, 0)
    let u = unit(0, MovementClass::Infantry, Faction::Player, 5, 0, 0);
    let units = vec![u];
    let dm = DijkstraMap::new(&map, &u, &units);
    let path = dm.get_path_to(Point::new(2, 0));
    assert_eq!(
        path,
        vec![
            Point::new(2, 0),
            Point::new(2, 1),
            Point::new(1, 1),
            Point::new(0, 1),
            Point::new(0, 0),
        ]
    );
}

#[test]
fn budget_boundary_respects_terrain_cost() {
    // Mounted into forest costs 2: not affordable with budget 1, affordable
    // with budget 2.
    let mut map = GameMap::filled(2, 1, Terrain::Ground);
    map.terrain[1] = Terrain::Forest; // (1, 0)
    let mut u = unit(0, MovementClass::Mounted, Faction::Player, 1, 0, 0);
    let units = vec![u];
    let dm = DijkstraMap::new(&map, &u, &units);
    assert!(!contains(dm.get_reachables(), Point::new(1, 0)));
    u.movement = 2;
    let units = vec![u];
    let dm = DijkstraMap::new(&map, &u, &units);
    assert!(contains(dm.get_reachables(), Point::new(1, 0)));
}

#[test]
fn opposing_unit_blocks_cell_friendly_does_not() {
    let map = GameMap::filled(3, 1, Terrain::Ground);
    let mover = unit(0, MovementClass::Infantry, Faction::Player, 2, 0, 0);
    let enemy = unit(1, MovementClass::Infantry, Faction::Enemy, 2, 1, 0);
    let units = vec![mover, enemy];
    let dm = DijkstraMap::new(&map, &mover, &units);
    // the enemy-occupied cell and everything behind it are unreachable
    assert!(!contains(dm.get_reachables(), Point::new(1, 0)));
    assert!(!contains(dm.get_reachables(), Point::new(2, 0)));

    let friend = unit(1, MovementClass::Infantry, Faction::Player, 2, 1, 0);
    let units = vec![mover, friend];
    let dm = DijkstraMap::new(&map, &mover, &units);
    // a same-faction unit does not block passage
    assert!(contains(dm.get_reachables(), Point::new(1, 0)));
    assert!(contains(dm.get_reachables(), Point::new(2, 0)));
}

#[test]
fn path_is_deterministic_with_adjacent_steps_and_exact_endpoints() {
    let mut map = GameMap::filled(6, 6, Terrain::Ground);
    map.terrain[2 * 6 + 2] = Terrain::Forest;
    map.terrain[3 * 6 + 2] = Terrain::Mountain;
    let u = unit(0, MovementClass::Infantry, Faction::Player, 6, 1, 1);
    let units = vec![u];
    let dm = DijkstraMap::new(&map, &u, &units);
    let goal = Point::new(4, 4);
    let first = dm.get_path_to(goal);
    let second = dm.get_path_to(goal);
    assert_eq!(first, second);
    assert!(first.len() >= 2);
    assert_eq!(first[0], goal);
    assert_eq!(*first.last().unwrap(), Point::new(1, 1));
    for w in first.windows(2) {
        assert_eq!(dist(w[0], w[1]), 1);
    }
}

#[test]
fn unreachable_goal_gives_empty_path() {
    let mut map = GameMap::filled(3, 1, Terrain::Ground);
    map.terrain[1] = Terrain::River; // cuts the row in two
    let u = unit(0, MovementClass::Infantry, Faction::Player, 5, 0, 0);
    let units = vec![u];
    let dm = DijkstraMap::new(&map, &u, &units);
    assert_eq!(dm.get_path_to(Point::new(2, 0)), Vec::<Point>::new());
    // out of bounds is unreachable too
    assert_eq!(dm.get_path_to(Point::new(7, 7)), Vec::<Point>::new());
}

#[test]
fn origin_is_reachable_and_its_path_is_itself() {
    let map = GameMap::filled(4, 4, Terrain::Ground);
    let u = unit(0, MovementClass::Flying, Faction::Enemy, 0, 2, 2);
    let units = vec![u];
    let dm = DijkstraMap::new(&map, &u, &units);
    // budget zero: only the origin
    assert_eq!(dm.get_reachables().len(), 1);
    assert!(contains(dm.get_reachables(), Point::new(2, 2)));
    assert_eq!(dm.get_path_to(Point::new(2, 2)), vec![Point::new(2, 2)]);
    assert_eq!(dm.get_start(), Point::new(2, 2));
}

#[test]
fn flying_ignores_rough_terrain() {
    let mut map = GameMap::filled(3, 1, Terrain::Ground);
    map.terrain[1] = Terrain::Mountain;
    let u = unit(0, MovementClass::Flying, Faction::Player, 2, 0, 0);
    let units = vec![u];
    let dm = DijkstraMap::new(&map, &u, &units);
    assert!(contains(dm.get_reachables(), Point::new(1, 0)));
    assert!(contains(dm.get_reachables(), Point::new(2, 0)));
}

#[test]
fn movement_cost_table_exact() {
    let mk = |class| unit(0, class, Faction::Player, 5, 0, 0);
    let inf = mk(MovementClass::Infantry);
    let mnt = mk(MovementClass::Mounted);
    let fly = mk(MovementClass::Flying);
    assert_eq!(inf.get_movement_cost(Terrain::Ground), 1);
    assert_eq!(inf.get_movement_cost(Terrain::Forest), 1);
    assert_eq!(inf.get_movement_cost(Terrain::Mountain), UNREACHABLE);
    assert_eq!(inf.get_movement_cost(Terrain::River), UNREACHABLE);
    assert_eq!(mnt.get_movement_cost(Terrain::Ground), 1);
    assert_eq!(mnt.get_movement_cost(Terrain::Forest), 2);
    assert_eq!(mnt.get_movement_cost(Terrain::Mountain), UNREACHABLE);
    assert_eq!(mnt.get_movement_cost(Terrain::River), UNREACHABLE);
    assert_eq!(fly.get_movement_cost(Terrain::Ground), 1);
    assert_eq!(fly.get_movement_cost(Terrain::Forest), 1);
    assert_eq!(fly.get_movement_cost(Terrain::Mountain), 1);
    assert_eq!(fly.get_movement_cost(Terrain::River), 1);
}

#[test]
fn manhattan_neighbours_exact_sets() {
    let from = Point::new(3, 3);
    let one = get_manahattan_neighbours(from, 1);
    assert_eq!(one.len(), 4);
    for p in [
        Point::new(2, 3),
        Point::new(4, 3),
        Point::new(3, 2),
        Point::new(3, 4),
    ] {
        assert!(contains(&one, p));
    }
    assert!(!contains(&one, from));

    let two = get_manahattan_neighbours(from, 2);
    assert_eq!(two.len(), 12);
    for x in 0..8 {
        for y in 0..8 {
            let p = Point::new(x, y);
            let d = dist(from, p);
            assert_eq!(contains(&two, p), d > 0 && d <= 2);
        }
    }

    assert_eq!(get_manahattan_neighbours(from, 0).len(), 0);
}

#[test]
fn weapon_ids_construct() {
    let w = WeaponId::new(7);
    assert_eq!(w.0, 7);
    let u = UnitId::new(3);
    assert_eq!(u.0, 3);
}

#[test]
fn reachable_list_is_row_major_sorted() {
    let map = GameMap::filled(6, 6, Terrain::Ground);
    let u = unit(0, MovementClass::Infantry, Faction::Player, 3, 2, 2);
    let units = vec![u];
    let dm = DijkstraMap::new(&map, &u, &units);
    let reach = dm.get_reachables();
    for w in reach.windows(2) {
        assert!(w[0].y < w[1].y || (w[0].y == w[1].y && w[0].x < w[1].x));
    }
    // and two builds with equal inputs give the identical list
    let again = DijkstraMap::new(&map, &u, &units);
    assert_eq!(reach, again.get_reachables());
}

#[test]
fn recorded_costs_are_exposed_exactly() {
    let mut map = GameMap::filled(3, 1, Terrain::Ground);
    map.terrain[1] = Terrain::Forest;
    let u = unit(0, MovementClass::Mounted, Faction::Player, 5, 0, 0);
    let units = vec![u];
    let dm = DijkstraMap::new(&map, &u, &units);
    assert_eq!(dm.get_cost(Point::new(0, 0)), 0);
    assert_eq!(dm.get_cost(Point::new(1, 0)), 2);
    assert_eq!(dm.get_cost(Point::new(2, 0)), 3);
    assert_eq!(dm.get_cost(Point::new(9, 9)), UNREACHABLE);
}
