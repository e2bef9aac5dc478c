//! A grid-based box-pushing puzzle engine.
//!
//! The entity store holds every entity's grid position and tags; the input
//! system resolves one pending directional key per tick, pushing a chain of
//! movable entities or reporting an obstruction; the gameplay tracker counts
//! moves and records victory once every box spot is covered.
pub mod components;
pub mod constants;
pub mod events;
pub mod map;
pub mod resources;
pub mod store;
pub mod systems;
