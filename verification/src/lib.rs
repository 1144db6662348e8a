//! Simulation core of a tile-based box-pushing puzzle.
//!
//! The world is an arena of entities, each owning a subset of a fixed set of
//! components. A tick resolves one push per player, applies it, re-evaluates
//! the win condition and drains the event queue.

pub mod components;
pub mod entities;
pub mod events;
pub mod game;
pub mod map;
pub mod resources;
pub mod systems;
pub mod world;
