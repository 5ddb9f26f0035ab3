//! Ant colony optimisation for short open paths through points of the plane.
//!
//! A [`colony::Colony`] runs rounds of ants. Each ant builds a path that
//! starts at node 0 and visits every node once, choosing its steps at random
//! in the first round and by pheromone and distance afterwards. After each
//! round the pheromone store evaporates and takes the deposits of the round,
//! shorter paths depositing more, and the colony keeps the shortest path seen.
//!
//! All quantities are integers: distances in thousandths of a coordinate
//! unit, pheromone levels in millionths.
use vstd::prelude::*;

pub mod ant;
pub mod colony;
pub mod geometry;
pub mod laws;
pub mod pheromone;
mod random;
pub mod selection;

verus! {

} // verus!
