//! A 3x3x3 twisty-puzzle engine: sticker lattice model, move notation,
//! and canonical face serialization.

pub mod geom;
pub mod moves;
pub mod cube;
pub mod serial;
pub mod laws;

pub use cube::Cube;
pub use moves::InvalidNotation;
