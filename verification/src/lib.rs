//! Core of a slippy-map renderer: the tile-grid coordinate system, the
//! tile cache with its bounded download queue, and the flood-fill discovery
//! of the tiles visible in a viewport.

pub mod coords;
pub mod map;
pub mod tiles;
