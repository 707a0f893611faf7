//! Turn-based simulation core of a dungeon crawler.
//!
//! The library models the game world as a store of entities with optional
//! components, and verifies the logic that advances it one turn at a time:
//! item pickup, item use (targeting, equipping, healing, damage, confusion,
//! consumption), item removal, the spatial index, melee and damage
//! resolution, the run-state machine, and level transitions.
//!
//! Rendering, input decoding, field-of-view geometry, map generation and
//! persistence are the shell's business; the shell hands their results in as
//! plain values (see `TickInput` and the blast-tile arguments).

pub mod components;
pub mod map;
pub mod text;
pub mod world;
pub mod inventory;
pub mod systems;
pub mod state;
pub mod laws;
