//! The core of a 2D physics game: an arena of game objects keyed by stable
//! keys, the assembly of chain weapons from declarative definitions, the
//! countdown of short-lived effects, and which force each object applies on a
//! tick. Bodies, sprites and floating-point physics belong to the engines
//! around it; this crate decides, they carry out.
pub mod arena;
pub mod assembly;
pub mod chain;
pub mod game;
pub mod registry;
mod seq_lemmas;
