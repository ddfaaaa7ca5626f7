//! Units: identity, movement budget and class, faction, health, position and
//! an opaque texture handle. Units are created once at scenario setup and
//! mutated only through buffered commands.

use vstd::prelude::*;

use crate::map::Terrain;
use crate::math::Point;
use crate::pathfinding::UNREACHABLE;
use crate::world::Faction;

verus! {

/// A unit identity, assigned monotonically from zero at spawn time.
#[derive(Clone, Copy, PartialEq, Eq, Structural, Hash, Debug)]
pub struct UnitId(pub u32);

impl UnitId {
    pub fn new(id: u32) -> (r: Self)
        ensures
            r == UnitId(id),
    {
        Self(id)
    }
}

#[derive(Clone, Copy, PartialEq, Eq, Structural, Hash, Debug)]
pub struct WeaponId(pub u32);

impl WeaponId {
    pub fn new(id: u32) -> (r: Self)
        ensures
            r == WeaponId(id),
    {
        Self(id)
    }
}

#[derive(Clone, Copy, Debug)]
pub struct Weapon {
    pub id: WeaponId,
}

/// Categorical movement trait modifying terrain traversal cost.
#[derive(Clone, Copy, PartialEq, Eq, Structural, Debug)]
pub enum MovementClass {
    Infantry,
    Mounted,
    Flying,
}

/// An opaque handle to a texture owned by the asset collaborator; the core
/// never inspects it.
#[derive(Clone, Copy, PartialEq, Eq, Structural, Hash, Debug)]
pub struct TextureKey(pub u32);

/// Terrain traversal cost by (movement class, terrain kind); `UNREACHABLE`
/// marks impassable combinations.
pub open spec fn movement_cost_spec(class: MovementClass, terrain: Terrain) -> u32 {
    match (class, terrain) {
        (MovementClass::Mounted, Terrain::Forest) => 2u32,
        (MovementClass::Flying, _) => 1u32,
        (MovementClass::Infantry, Terrain::Forest) => 1u32,
        (_, Terrain::Ground) => 1u32,
        (_, Terrain::Mountain) => UNREACHABLE,
        (_, Terrain::River) => UNREACHABLE,
    }
}

/// A unit's attack reach in taxicab distance.
pub open spec fn attack_range_spec(u: Unit) -> int {
    1
}

#[derive(Clone, Copy, Debug)]
pub struct Unit {
    pub id: UnitId,
    pub movement: u32,
    pub movement_class: MovementClass,
    pub turn_complete: bool,
    pub faction: Faction,
    pub curr_health: i32,
    pub max_health: i32,
    pub pos: Point,
    pub texture: TextureKey,
    pub weapon: Option<Weapon>,
}

impl Unit {
    /// Build a unit from its erased description, with the identity the world
    /// assigned and the texture handle the asset collaborator resolved.
    pub fn from_erased(id: UnitId, erased: &ErasedUnit, texture: TextureKey) -> (r: Self)
        ensures
            r == (Unit {
                id,
                movement: erased.movement,
                movement_class: erased.movement_class,
                turn_complete: erased.turn_complete,
                faction: erased.faction,
                curr_health: erased.curr_health,
                max_health: erased.max_health,
                pos: erased.pos,
                texture,
                weapon: erased.weapon,
            }),
    {
        Self {
            id,
            movement: erased.movement,
            movement_class: erased.movement_class,
            turn_complete: erased.turn_complete,
            faction: erased.faction,
            curr_health: erased.curr_health,
            max_health: erased.max_health,
            pos: erased.pos,
            texture,
            weapon: erased.weapon,
        }
    }

    pub fn get_movement_cost(&self, terrain: Terrain) -> (r: u32)
        ensures
            r == movement_cost_spec(self.movement_class, terrain),
    {
        match (self.movement_class, terrain) {
            (MovementClass::Mounted, Terrain::Forest) => 2,
            (MovementClass::Flying, _) => 1,
            (MovementClass::Infantry, Terrain::Forest) => 1,
            (_, Terrain::Ground) => 1,
            (_, Terrain::Mountain) => UNREACHABLE,
            (_, Terrain::River) => UNREACHABLE,
        }
    }

    /// Attack reach in taxicab distance. A fixed placeholder, like the fixed
    /// damage amount: there is no weapon-dependent combat formula yet.
    pub fn get_attack_range(&self) -> (r: i32)
        ensures
            r == attack_range_spec(*self),
    {
        1
    }

    pub fn id(&self) -> (r: UnitId)
        ensures
            r == self.id,
    {
        self.id
    }
}

/// A unit description before the world assigns it an identity: what scenario
/// setup hands to `WorldState::spawn_units`.
#[derive(Clone, Debug)]
pub struct ErasedUnit {
    pub movement: u32,
    pub movement_class: MovementClass,
    pub turn_complete: bool,
    pub faction: Faction,
    pub curr_health: i32,
    pub max_health: i32,
    pub pos: Point,
    pub texture_path: String,
    pub weapon: Option<Weapon>,
}

} // verus!
