use slippy_map::coords::TileCoordinates;
use slippy_map::map::{visible_tiles, ScreenRect};
use slippy_map::tiles::{Tiles, REQUEST_QUEUE_CAPACITY};

#[test]
fn fill_covers_exactly_the_intersecting_tiles() {
    // A 600x400 viewport; the centre tile's corner is on screen at
    // (100, 50).  A tile column d is visible when 100 + 256*d is in
    // [-256, 599], i.e. d in {-1, 0, 1}; a row e when 50 + 256*e is in
    // [-256, 399], i.e. e in {-1, 0, 1}: nine tiles in all.
    let viewport = ScreenRect { min_x: 0, min_y: 0, max_x: 599, max_y: 399 };
    let center = TileCoordinates { x: 100, y: 200, zoom: 10 };
    let mut tiles = Tiles::new();

    let out = visible_tiles(&viewport, center, 100, 50, &mut tiles);

    assert_eq!(out.len(), 9);
    for dx in -1i64..=1 {
        for dy in -1i64..=1 {
            let want = TileCoordinates {
                x: (100 + dx) as u32,
                y: (200 + dy) as u32,
                zoom: 10,
            };
            let entry = out
                .iter()
                .find(|e| e.coordinates == want)
                .expect("every intersecting tile is discovered");
            assert_eq!(entry.screen_x, 100 + 256 * dx);
            assert_eq!(entry.screen_y, 50 + 256 * dy);
            // The cache is empty, so no bitmap is available yet.
            assert!(entry.tile.is_none());
        }
    }
}

#[test]
fn each_tile_is_reported_once() {
    let viewport = ScreenRect { min_x: 0, min_y: 0, max_x: 1023, max_y: 767 };
    let center = TileCoordinates { x: 512, y: 512, zoom: 12 };
    let mut tiles = Tiles::new();

    let out = visible_tiles(&viewport, center, 400, 300, &mut tiles);
    for i in 0..out.len() {
        for j in 0..i {
            assert_ne!(out[i].coordinates, out[j].coordinates);
        }
    }
    // 5 columns (400 + 256*d in [-256, 1023] for d in -2..=2) times
    // 4 rows (300 + 256*e in [-256, 767] for e in -2..=1).
    assert_eq!(out.len(), 20);
}

#[test]
fn fill_never_starts_when_the_centre_tile_is_off_screen() {
    let viewport = ScreenRect { min_x: 0, min_y: 0, max_x: 599, max_y: 399 };
    let center = TileCoordinates { x: 100, y: 200, zoom: 10 };
    let mut tiles = Tiles::new();

    let out = visible_tiles(&viewport, center, 10_000, 10_000, &mut tiles);
    assert!(out.is_empty());
}

#[test]
fn fill_is_clamped_at_the_grid_edge() {
    // Zoom 0: the world is a single tile; a huge viewport still yields
    // exactly that one tile.
    let viewport = ScreenRect { min_x: -2000, min_y: -2000, max_x: 2000, max_y: 2000 };
    let center = TileCoordinates { x: 0, y: 0, zoom: 0 };
    let mut tiles = Tiles::new();

    let out = visible_tiles(&viewport, center, 0, 0, &mut tiles);
    assert_eq!(out.len(), 1);
    assert_eq!(out[0].coordinates, center);
}

#[test]
fn discovery_requests_missing_tiles_up_to_the_queue_capacity() {
    let viewport = ScreenRect { min_x: 0, min_y: 0, max_x: 599, max_y: 399 };
    let center = TileCoordinates { x: 100, y: 200, zoom: 10 };
    let mut tiles = Tiles::new();

    // Nine tiles are visible and none is cached: the first five misses
    // fill the request queue and the rest are dropped.
    let out = visible_tiles(&viewport, center, 100, 50, &mut tiles);
    assert_eq!(out.len(), 9);
    for _ in 0..REQUEST_QUEUE_CAPACITY {
        assert!(tiles.next_request().is_some());
    }
    assert_eq!(tiles.next_request(), None);
}
