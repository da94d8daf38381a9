//! Simulation core of a top-down arcade shooter: fixed-point actor state
//! machines, a quadtree spatial index, collision detection and the per-tick
//! simulation step.
pub mod geometry;
pub mod collision;
pub mod quadtree;
pub mod projectile;
pub mod ship;
pub mod enemy;
pub mod simulation;
