//! Visible-tile discovery.
//!
//! Given a viewport rectangle in screen pixels, a centre tile and the
//! on-screen position of that tile's north-west corner, [`visible_tiles`]
//! flood-fills outward from the centre tile and returns every tile of the
//! grid whose on-screen rectangle intersects the viewport, together with its
//! screen position and, when the cache already holds it, its bitmap.  The
//! fill keeps an explicit frontier and visited set, so every coordinate is
//! examined at most once and the traversal terminates.

use crate::coords::TileCoordinates;
use crate::coords::TILE_SIZE;
use crate::tiles::Tile;
use crate::tiles::Tiles;
use vstd::arithmetic::power2::lemma_pow2_strictly_increases;
use vstd::arithmetic::power2::lemma2_to64;
use vstd::math::abs;
use vstd::prelude::*;
use vstd::relations::injective;
use vstd::set_lib::lemma_int_range;
use vstd::set_lib::lemma_len_subset;
use vstd::set_lib::set_int_range;

verus! {

broadcast use vstd::seq_lib::group_seq_properties;

/// Screen coordinates, and the viewport corners, stay within this many
/// pixels of the origin, so that all screen arithmetic fits in an `i64`.
pub const SCREEN_LIMIT: i64 = 0x100_0000_0000;

/// An axis-aligned rectangle in screen pixels, closed on all four edges.
#[derive(Debug, PartialEq, Eq, Structural, Clone, Copy)]
pub struct ScreenRect {
    /// West edge.
    pub min_x: i64,
    /// North edge.
    pub min_y: i64,
    /// East edge.
    pub max_x: i64,
    /// South edge.
    pub max_y: i64,
}

impl ScreenRect {
    /// The corners are ordered.
    pub open spec fn wf(self) -> bool {
        self.min_x <= self.max_x && self.min_y <= self.max_y
    }

    /// The rectangle lies within [`SCREEN_LIMIT`] of the origin.
    pub open spec fn bounded(self) -> bool {
        &&& -SCREEN_LIMIT <= self.min_x
        &&& self.max_x <= SCREEN_LIMIT
        &&& -SCREEN_LIMIT <= self.min_y
        &&& self.max_y <= SCREEN_LIMIT
    }
}

/// Horizontal screen position of the north-west corner of `t`, when the
/// north-west corner of `center` is on screen at `origin_x`.
pub open spec fn spec_screen_x(origin_x: int, center: TileCoordinates, t: TileCoordinates) -> int {
    origin_x + (TILE_SIZE as int) * (t.x - center.x)
}

/// Vertical screen position of the north-west corner of `t`, when the
/// north-west corner of `center` is on screen at `origin_y`.
pub open spec fn spec_screen_y(origin_y: int, center: TileCoordinates, t: TileCoordinates) -> int {
    origin_y + (TILE_SIZE as int) * (t.y - center.y)
}

/// Whether tile `t` belongs to the same grid as `center` and its on-screen
/// rectangle intersects the viewport.
pub open spec fn tile_visible(
    viewport: ScreenRect,
    center: TileCoordinates,
    origin_x: int,
    origin_y: int,
    t: TileCoordinates,
) -> bool {
    let sx = spec_screen_x(origin_x, center, t);
    let sy = spec_screen_y(origin_y, center, t);
    &&& t.zoom == center.zoom
    &&& t.in_grid()
    &&& sx <= viewport.max_x
    &&& viewport.min_x <= sx + (TILE_SIZE as int)
    &&& sy <= viewport.max_y
    &&& viewport.min_y <= sy + (TILE_SIZE as int)
}

/// One tile to draw: its coordinates, where its north-west corner falls on
/// screen, and its bitmap if the cache already holds it.
pub struct VisibleTile {
    /// The tile's grid coordinates.
    pub coordinates: TileCoordinates,
    /// Horizontal screen position of the tile's north-west corner.
    pub screen_x: i64,
    /// Vertical screen position of the tile's north-west corner.
    pub screen_y: i64,
    /// The tile's bitmap, when it was cached at the time of discovery.
    pub tile: Option<Tile>,
}

/// What every entry handed back by [`visible_tiles`] satisfies: its tile is
/// visible, its screen position is the projected one, and its bitmap is
/// exactly what the cache held for it.
pub open spec fn entry_ok(
    viewport: ScreenRect,
    center: TileCoordinates,
    origin_x: int,
    origin_y: int,
    cache: Tiles,
    e: VisibleTile,
) -> bool {
    &&& tile_visible(viewport, center, origin_x, origin_y, e.coordinates)
    &&& e.screen_x == spec_screen_x(origin_x, center, e.coordinates)
    &&& e.screen_y == spec_screen_y(origin_y, center, e.coordinates)
    &&& match e.tile {
        Some(t) => cache.cached(e.coordinates) == Some(t@),
        None => !cache.has(e.coordinates),
    }
}

/// Whether some entry of `s` is for tile `t`.
pub open spec fn output_contains(s: Seq<VisibleTile>, t: TileCoordinates) -> bool {
    exists|i: int| 0 <= i < s.len() && (#[trigger] s[i]).coordinates == t
}

proof fn lemma_grid_coord_bounds(t: TileCoordinates)
    requires
        t.in_grid(),
    ensures
        t.x < 0x40000000,
        t.y < 0x40000000,
{
    lemma2_to64();
    if t.zoom < 30 {
        lemma_pow2_strictly_increases(t.zoom as nat, 30);
    }
}

spec fn tile_code(t: TileCoordinates) -> int {
    ((t.zoom as int) * 0x1_0000_0000 + t.x) * 0x1_0000_0000 + t.y
}

proof fn lemma_mixed_radix(a1: int, y1: int, a2: int, y2: int)
    requires
        0 <= y1 < 0x1_0000_0000,
        0 <= y2 < 0x1_0000_0000,
        a1 * 0x1_0000_0000 + y1 == a2 * 0x1_0000_0000 + y2,
    ensures
        a1 == a2,
        y1 == y2,
{
    if a1 < a2 {
        assert(a1 * 0x1_0000_0000 + 0x1_0000_0000 <= a2 * 0x1_0000_0000);
    }
    if a2 < a1 {
        assert(a2 * 0x1_0000_0000 + 0x1_0000_0000 <= a1 * 0x1_0000_0000);
    }
}

proof fn lemma_tile_code_injective()
    ensures
        injective(|t: TileCoordinates| tile_code(t)),
{
    assert forall|t1: TileCoordinates, t2: TileCoordinates|
        #[trigger] tile_code(t1) == #[trigger] tile_code(t2) implies t1 == t2 by {
        lemma_mixed_radix(
            (t1.zoom as int) * 0x1_0000_0000 + t1.x,
            t1.y as int,
            (t2.zoom as int) * 0x1_0000_0000 + t2.x,
            t2.y as int,
        );
        lemma_mixed_radix(t1.zoom as int, t1.x as int, t2.zoom as int, t2.x as int);
    }
}

/// No more than `2^80` distinct tiles exist within one grid, so a
/// duplicate-free visited list is bounded and the flood fill terminates.
proof fn lemma_distinct_tiles_bound(s: Seq<TileCoordinates>)
    requires
        s.no_duplicates(),
        forall|i: int| 0 <= i < s.len() ==> (#[trigger] s[i]).in_grid(),
    ensures
        s.len() <= 0x1_0000_0000_0000_0000_0000,
{
    let f = |t: TileCoordinates| tile_code(t);
    let codes = s.map_values(f);
    lemma_tile_code_injective();
    s.lemma_no_duplicates_injective(f);
    codes.unique_seq_to_set();
    assert forall|c: int| codes.to_set().contains(c) implies set_int_range(
        0,
        0x1_0000_0000_0000_0000_0000,
    ).contains(c) by {
        let i = choose|i: int| 0 <= i < codes.len() && codes[i] == c;
        let t = s[i];
        lemma_grid_coord_bounds(t);
        assert(c == tile_code(t));
        assert(0 <= (t.zoom as int) * 0x1_0000_0000 + t.x <= 0xFF_FFFF_FFFF);
        assert(tile_code(t) <= 0xFF_FFFF_FFFF * 0x1_0000_0000 + 0xFFFF_FFFF);
    }
    lemma_int_range(0, 0x1_0000_0000_0000_0000_0000);
    lemma_len_subset(codes.to_set(), set_int_range(0, 0x1_0000_0000_0000_0000_0000));
}

/// Every visible tile is joined to the centre tile by a chain of visible
/// tiles, each the neighbour of the last; so a visited set that contains the
/// centre and is closed under neighbours of its visible members contains
/// every visible tile.
proof fn lemma_visible_reachable(
    visited: Seq<TileCoordinates>,
    viewport: ScreenRect,
    center: TileCoordinates,
    origin_x: int,
    origin_y: int,
    t: TileCoordinates,
)
    requires
        center.in_grid(),
        tile_visible(viewport, center, origin_x, origin_y, center),
        visited.contains(center),
        forall|u: TileCoordinates|
            #[trigger] visited.contains(u) && tile_visible(viewport, center, origin_x, origin_y, u)
                ==> visited.contains(u.spec_north()) && visited.contains(u.spec_east())
                && visited.contains(u.spec_south()) && visited.contains(u.spec_west()),
        tile_visible(viewport, center, origin_x, origin_y, t),
    ensures
        visited.contains(t),
    decreases abs(t.x - center.x) + abs(t.y - center.y),
{
    if t.x > center.x {
        let p = TileCoordinates { x: (t.x - 1) as u32, y: t.y, zoom: t.zoom };
        assert(tile_visible(viewport, center, origin_x, origin_y, p));
        lemma_visible_reachable(visited, viewport, center, origin_x, origin_y, p);
        assert(p.spec_east() == t);
    } else if t.x < center.x {
        let p = TileCoordinates { x: (t.x + 1) as u32, y: t.y, zoom: t.zoom };
        assert(tile_visible(viewport, center, origin_x, origin_y, p));
        lemma_visible_reachable(visited, viewport, center, origin_x, origin_y, p);
        assert(p.spec_west() == t);
    } else if t.y > center.y {
        let p = TileCoordinates { x: t.x, y: (t.y - 1) as u32, zoom: t.zoom };
        assert(tile_visible(viewport, center, origin_x, origin_y, p));
        lemma_visible_reachable(visited, viewport, center, origin_x, origin_y, p);
        assert(p.spec_south() == t);
    } else if t.y < center.y {
        let p = TileCoordinates { x: t.x, y: (t.y + 1) as u32, zoom: t.zoom };
        assert(tile_visible(viewport, center, origin_x, origin_y, p));
        lemma_visible_reachable(visited, viewport, center, origin_x, origin_y, p);
        assert(p.spec_north() == t);
    } else {
        assert(t == center);
    }
}

fn contains_coord(v: &Vec<TileCoordinates>, t: TileCoordinates) -> (b: bool)
    ensures
        b == v@.contains(t),
{
    let n = v.len();
    let mut i: usize = 0;
    while i < n
        invariant
            n == v@.len(),
            0 <= i <= n,
            forall|j: int| 0 <= j < i ==> v@[j] != t,
        decreases n - i,
    {
        if v[i] == t {
            return true;
        }
        i = i + 1;
    }
    false
}

/// Flood-fill discovery of the tiles to draw.
///
/// `center` is the tile containing the map centre and `(origin_x,
/// origin_y)` is the screen position of its north-west corner.  Starting
/// from `center`, tiles are expanded breadth-outward: each examined tile is
/// looked up in the cache — which on a miss also queues a download request —
/// and when its on-screen rectangle intersects `viewport` it is recorded,
/// with its bitmap if one was cached, and its four neighbours are examined
/// in turn.
///
/// The result contains exactly the visible tiles of the grid, each once,
/// provided the centre tile itself is visible; if it is not, the fill never
/// starts and the result is empty.  The cache contents are read, never
/// changed; only the request queue may grow.
pub fn visible_tiles(
    viewport: &ScreenRect,
    center: TileCoordinates,
    origin_x: i64,
    origin_y: i64,
    tiles: &mut Tiles,
) -> (r: Vec<VisibleTile>)
    requires
        center.in_grid(),
        viewport.wf(),
        viewport.bounded(),
        -SCREEN_LIMIT <= origin_x <= SCREEN_LIMIT,
        -SCREEN_LIMIT <= origin_y <= SCREEN_LIMIT,
        old(tiles).wf(),
    ensures
        final(tiles).wf(),
        final(tiles).cache_map() == old(tiles).cache_map(),
        forall|i: int|
            0 <= i < r@.len() ==> entry_ok(
                *viewport,
                center,
                origin_x as int,
                origin_y as int,
                *old(tiles),
                #[trigger] r@[i],
            ),
        forall|i: int, j: int|
            0 <= i < j < r@.len() ==> (#[trigger] r@[i]).coordinates != (
            #[trigger] r@[j]).coordinates,
        tile_visible(*viewport, center, origin_x as int, origin_y as int, center)
            ==> forall|t: TileCoordinates|
            #[trigger] tile_visible(*viewport, center, origin_x as int, origin_y as int, t)
                ==> output_contains(r@, t),
        !tile_visible(*viewport, center, origin_x as int, origin_y as int, center) ==> r@.len()
            == 0,
{
    let ghost vp = *viewport;
    let ghost ox = origin_x as int;
    let ghost oy = origin_y as int;
    let ghost tiles0 = *tiles;

    let seed_visible = origin_x <= viewport.max_x && viewport.min_x <= origin_x + 256
        && origin_y <= viewport.max_y && viewport.min_y <= origin_y + 256;
    if !seed_visible {
        return Vec::new();
    }

    let mut visited: Vec<TileCoordinates> = Vec::new();
    let mut frontier: Vec<TileCoordinates> = Vec::new();
    let mut out: Vec<VisibleTile> = Vec::new();
    frontier.push(center);

    while frontier.len() > 0
        invariant
            vp == *viewport,
            ox == origin_x as int,
            oy == origin_y as int,
            center.in_grid(),
            vp.wf(),
            vp.bounded(),
            -SCREEN_LIMIT <= ox <= SCREEN_LIMIT,
            -SCREEN_LIMIT <= oy <= SCREEN_LIMIT,
            tile_visible(vp, center, ox, oy, center),
            tiles.wf(),
            tiles0.wf(),
            tiles.cache_map() == tiles0.cache_map(),
            forall|k: TileCoordinates| #[trigger] tiles.cached(k) == tiles0.cached(k),
            visited@.no_duplicates(),
            visited@.len() <= 0x1_0000_0000_0000_0000_0000,
            forall|i: int|
                0 <= i < visited@.len() ==> (#[trigger] visited@[i]).in_grid()
                    && visited@[i].zoom == center.zoom,
            forall|i: int|
                0 <= i < frontier@.len() ==> (#[trigger] frontier@[i]).in_grid()
                    && frontier@[i].zoom == center.zoom,
            visited@.contains(center) || frontier@.contains(center),
            forall|u: TileCoordinates|
                #[trigger] visited@.contains(u) && tile_visible(vp, center, ox, oy, u)
                    ==> (visited@.contains(u.spec_north()) || frontier@.contains(u.spec_north()))
                    && (visited@.contains(u.spec_east()) || frontier@.contains(u.spec_east())) && (
                visited@.contains(u.spec_south()) || frontier@.contains(u.spec_south())) && (
                visited@.contains(u.spec_west()) || frontier@.contains(u.spec_west())),
            forall|i: int|
                0 <= i < out@.len() ==> entry_ok(vp, center, ox, oy, tiles0, #[trigger] out@[i]),
            forall|i: int|
                0 <= i < out@.len() ==> visited@.contains((#[trigger] out@[i]).coordinates),
            forall|i: int, j: int|
                0 <= i < j < out@.len() ==> (#[trigger] out@[i]).coordinates != (
                #[trigger] out@[j]).coordinates,
            forall|u: TileCoordinates|
                #[trigger] visited@.contains(u) && tile_visible(vp, center, ox, oy, u)
                    ==> output_contains(out@, u),
        decreases 5 * (0x1_0000_0000_0000_0000_0000 - visited@.len()) + frontier@.len(),
    {
        let ghost prev_visited = visited@;
        let ghost prev_frontier = frontier@;
        let ghost prev_out = out@;
        let t = frontier.pop().unwrap();
        proof {
            assert(t == prev_frontier[prev_frontier.len() - 1]);
            assert(t.in_grid() && t.zoom == center.zoom);
            lemma_grid_coord_bounds(t);
            lemma_grid_coord_bounds(center);
            assert(forall|x: TileCoordinates|
                prev_frontier.contains(x) ==> x == t || frontier@.contains(x));
        }
        if !contains_coord(&visited, t) {
            visited.push(t);
            proof {
                assert forall|i: int, j: int|
                    0 <= i < j < visited@.len() implies visited@[i] != visited@[j] by {
                    if j == visited@.len() - 1 {
                        assert(!prev_visited.contains(visited@[j]));
                        assert(prev_visited[i] == visited@[i]);
                    }
                }
                lemma_distinct_tiles_bound(visited@);
                lemma_grid_coord_bounds(t);
                lemma_grid_coord_bounds(center);
            }
            let bitmap = tiles.at(t.x, t.y, t.zoom);
            let sx = origin_x + 256 * ((t.x as i64) - (center.x as i64));
            let sy = origin_y + 256 * ((t.y as i64) - (center.y as i64));
            if sx <= viewport.max_x && viewport.min_x <= sx + 256 && sy <= viewport.max_y
                && viewport.min_y <= sy + 256 {
                out.push(
                    VisibleTile { coordinates: t, screen_x: sx, screen_y: sy, tile: bitmap },
                );
                let north = t.north();
                let east = t.east();
                let south = t.south();
                let west = t.west();
                frontier.push(north);
                frontier.push(east);
                frontier.push(south);
                frontier.push(west);
                proof {
                    assert(tile_visible(vp, center, ox, oy, t));
                    assert(entry_ok(vp, center, ox, oy, tiles0, out@[out@.len() - 1]));
                    assert forall|u: TileCoordinates|
                        #[trigger] visited@.contains(u) && tile_visible(vp, center, ox, oy, u)
                            implies (visited@.contains(u.spec_north()) || frontier@.contains(
                        u.spec_north(),
                    )) && (visited@.contains(u.spec_east()) || frontier@.contains(u.spec_east()))
                        && (visited@.contains(u.spec_south()) || frontier@.contains(u.spec_south()))
                        && (visited@.contains(u.spec_west()) || frontier@.contains(
                        u.spec_west(),
                    )) by {
                        if u == t {
                            assert(frontier@.contains(t.spec_north()));
                            assert(frontier@.contains(t.spec_east()));
                            assert(frontier@.contains(t.spec_south()));
                            assert(frontier@.contains(t.spec_west()));
                        } else {
                            assert(prev_visited.contains(u));
                        }
                    }
                    assert forall|u: TileCoordinates|
                        #[trigger] visited@.contains(u) && tile_visible(vp, center, ox, oy, u)
                            implies output_contains(out@, u) by {
                        if u == t {
                            assert(out@[out@.len() - 1].coordinates == t);
                        } else {
                            assert(prev_visited.contains(u));
                            assert(output_contains(prev_out, u));
                            let i = choose|i: int|
                                0 <= i < prev_out.len() && prev_out[i].coordinates == u;
                            assert(out@[i].coordinates == u);
                        }
                    }
                }
            } else {
                proof {
                    assert(!tile_visible(vp, center, ox, oy, t));
                    assert forall|u: TileCoordinates|
                        #[trigger] visited@.contains(u) && tile_visible(vp, center, ox, oy, u)
                            implies (visited@.contains(u.spec_north()) || frontier@.contains(
                        u.spec_north(),
                    )) && (visited@.contains(u.spec_east()) || frontier@.contains(u.spec_east()))
                        && (visited@.contains(u.spec_south()) || frontier@.contains(u.spec_south()))
                        && (visited@.contains(u.spec_west()) || frontier@.contains(
                        u.spec_west(),
                    )) by {
                        assert(prev_visited.contains(u));
                    }
                    assert forall|u: TileCoordinates|
                        #[trigger] visited@.contains(u) && tile_visible(vp, center, ox, oy, u)
                            implies output_contains(out@, u) by {
                        assert(prev_visited.contains(u));
                    }
                }
            }
        }
    }
    proof {
        assert(forall|u: TileCoordinates| !frontier@.contains(u));
        assert(visited@.contains(center));
        assert forall|t: TileCoordinates|
            #[trigger] tile_visible(vp, center, ox, oy, t) implies output_contains(out@, t) by {
            lemma_visible_reachable(visited@, vp, center, ox, oy, t);
        }
    }
    out
}

} // verus!
