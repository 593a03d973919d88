//! Coordinates of the square tiles that cover the world bitmap.
//!
//! At zoom level `z` the world is covered by a `pow2(z) x pow2(z)` grid of
//! tiles, each `TILE_SIZE` pixels on a side.  Neighbour computation is
//! clamped at the edges of the grid, so it can never leave the grid.

use vstd::arithmetic::power2::lemma_pow2_strictly_increases;
use vstd::arithmetic::power2::pow2;
use vstd::bits::lemma_u32_shl_is_mul;
use vstd::prelude::*;

verus! {

/// Width and height of one tile, in pixels.
pub const TILE_SIZE: u32 = 256;

/// The deepest zoom level of the grid.
pub const MAX_ZOOM: u8 = 30;

/// Coordinates of one tile of the grid at a given zoom level.
#[derive(Debug, PartialEq, Eq, Structural, Hash, Clone, Copy)]
pub struct TileCoordinates {
    /// Column of the tile, counted from the west edge of the world bitmap.
    pub x: u32,

    /// Row of the tile, counted from the north edge of the world bitmap.
    pub y: u32,

    /// Zoom level of the grid this tile belongs to.
    pub zoom: u8,
}

impl TileCoordinates {
    /// Number of tiles per axis of the grid at this tile's zoom level.
    pub open spec fn grid_len(self) -> int {
        pow2(self.zoom as nat) as int
    }

    /// The tile lies inside the grid of its zoom level.
    pub open spec fn in_grid(self) -> bool {
        &&& self.zoom <= MAX_ZOOM
        &&& self.x < self.grid_len()
        &&& self.y < self.grid_len()
    }

    /// The clamped eastern neighbour, as a mathematical value.
    pub open spec fn spec_east(self) -> TileCoordinates {
        if self.x + 1 < self.grid_len() {
            TileCoordinates { x: (self.x + 1) as u32, ..self }
        } else {
            self
        }
    }

    /// The clamped western neighbour, as a mathematical value.
    pub open spec fn spec_west(self) -> TileCoordinates {
        if self.x > 0 {
            TileCoordinates { x: (self.x - 1) as u32, ..self }
        } else {
            self
        }
    }

    /// The clamped northern neighbour, as a mathematical value.
    pub open spec fn spec_north(self) -> TileCoordinates {
        if self.y > 0 {
            TileCoordinates { y: (self.y - 1) as u32, ..self }
        } else {
            self
        }
    }

    /// The clamped southern neighbour, as a mathematical value.
    pub open spec fn spec_south(self) -> TileCoordinates {
        if self.y + 1 < self.grid_len() {
            TileCoordinates { y: (self.y + 1) as u32, ..self }
        } else {
            self
        }
    }

    /// Number of tiles per axis at this tile's zoom level.
    pub fn grid_size(&self) -> (n: u32)
        requires
            self.zoom <= MAX_ZOOM,
        ensures
            n == self.grid_len(),
            n >= 1,
    {
        proof {
            vstd::arithmetic::power2::lemma2_to64();
            if self.zoom < 30 {
                lemma_pow2_strictly_increases(self.zoom as nat, 30);
            }
            lemma_u32_shl_is_mul(1u32, self.zoom as u32);
        }
        1u32 << self.zoom
    }

    /// Position, in pixels, of this tile's north-west corner on the world
    /// bitmap of its zoom level.
    pub fn position_on_world_bitmap(&self) -> (p: (u64, u64))
        requires
            self.in_grid(),
        ensures
            p.0 == self.x * TILE_SIZE,
            p.1 == self.y * TILE_SIZE,
    {
        ((self.x as u64) * (TILE_SIZE as u64), (self.y as u64) * (TILE_SIZE as u64))
    }

    /// The tile one step to the east, clamped at the edge of the grid.
    pub fn east(&self) -> (t: TileCoordinates)
        requires
            self.in_grid(),
        ensures
            t == self.spec_east(),
            t.in_grid(),
    {
        let n = self.grid_size();
        if self.x + 1 < n {
            TileCoordinates { x: self.x + 1, y: self.y, zoom: self.zoom }
        } else {
            *self
        }
    }

    /// The tile one step to the west, clamped at the edge of the grid.
    pub fn west(&self) -> (t: TileCoordinates)
        requires
            self.in_grid(),
        ensures
            t == self.spec_west(),
            t.in_grid(),
    {
        if self.x > 0 {
            TileCoordinates { x: self.x - 1, y: self.y, zoom: self.zoom }
        } else {
            *self
        }
    }

    /// The tile one step to the north, clamped at the edge of the grid.
    pub fn north(&self) -> (t: TileCoordinates)
        requires
            self.in_grid(),
        ensures
            t == self.spec_north(),
            t.in_grid(),
    {
        if self.y > 0 {
            TileCoordinates { x: self.x, y: self.y - 1, zoom: self.zoom }
        } else {
            *self
        }
    }

    /// The tile one step to the south, clamped at the edge of the grid.
    pub fn south(&self) -> (t: TileCoordinates)
        requires
            self.in_grid(),
        ensures
            t == self.spec_south(),
            t.in_grid(),
    {
        let n = self.grid_size();
        if self.y + 1 < n {
            TileCoordinates { x: self.x, y: self.y + 1, zoom: self.zoom }
        } else {
            *self
        }
    }
}

} // verus!
