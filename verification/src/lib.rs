//! Turn-based tactics core: a hierarchical game-state stack driving player and
//! simulated turns, and a grid pathfinding engine computing unit movement
//! ranges, least-cost paths, and attack-range sets.
//!
//! Rendering, input polling, asset loading and windowing are collaborators
//! that live outside this crate; the types here work on plain grid-space
//! values and are verified.

pub mod cursor;
pub mod state;
pub mod input;
pub mod map;
pub mod math;
pub mod pathfinding;
pub mod ui;
pub mod unit;
pub mod world;

use vstd::prelude::*;

verus! {

} // verus!
