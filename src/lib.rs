//! A small voxel-world simulation: a fixed cube of cells, an enemy pool with
//! tombstoned slots, axis-separated collision, a voxel ray walk for shooting,
//! a deferred event queue, and a time-driven enemy spawner.
pub mod types;
pub mod grid;
pub mod enemies;
pub mod movement;
pub mod events;
pub mod world;
pub mod shooting;
pub mod spawning;
pub mod debug;
