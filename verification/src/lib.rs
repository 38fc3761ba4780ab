//! Game rules of Bomby: the tile grid, collision against it, and the life of a bomb from
//! placement to blast.
//!
//! Everything here works on plain values. World positions are whole world units, time is
//! whole nanoseconds, and actors are named by integer ids.

pub mod blast;
pub mod bomb;
pub mod collision;
pub mod detonation;
pub mod grid;
pub mod movement;
pub mod placement;
pub mod player;
pub mod seq_facts;
pub mod tiles;
pub mod timer;
pub mod update;
pub mod world;
