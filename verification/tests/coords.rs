use slippy_map::coords::TileCoordinates;

#[test]
fn neighbors_move_one_step() {
    let t = TileCoordinates { x: 10, y: 20, zoom: 8 };
    assert_eq!(t.east(), TileCoordinates { x: 11, y: 20, zoom: 8 });
    assert_eq!(t.west(), TileCoordinates { x: 9, y: 20, zoom: 8 });
    assert_eq!(t.north(), TileCoordinates { x: 10, y: 19, zoom: 8 });
    assert_eq!(t.south(), TileCoordinates { x: 10, y: 21, zoom: 8 });
}

#[test]
fn neighbors_clamp_at_grid_edges() {
    // Zoom 2 has a 4x4 grid: indices 0..=3 on both axes.
    let north_west = TileCoordinates { x: 0, y: 0, zoom: 2 };
    assert_eq!(north_west.west(), north_west);
    assert_eq!(north_west.north(), north_west);
    assert_eq!(north_west.east(), TileCoordinates { x: 1, y: 0, zoom: 2 });

    let south_east = TileCoordinates { x: 3, y: 3, zoom: 2 };
    assert_eq!(south_east.east(), south_east);
    assert_eq!(south_east.south(), south_east);
    assert_eq!(south_east.west(), TileCoordinates { x: 2, y: 3, zoom: 2 });
}

#[test]
fn single_tile_grid_has_no_neighbors() {
    // Zoom 0: the whole world is one tile.
    let world = TileCoordinates { x: 0, y: 0, zoom: 0 };
    assert_eq!(world.east(), world);
    assert_eq!(world.west(), world);
    assert_eq!(world.north(), world);
    assert_eq!(world.south(), world);
}

#[test]
fn world_bitmap_position_of_warsaw_citadel_tile() {
    // The tile that contains the Warsaw Citadel at zoom 16; its pixel
    // origin on the world bitmap is its coordinates times the tile size.
    let citadel = TileCoordinates { x: 36590, y: 21569, zoom: 16 };
    assert_eq!(citadel.position_on_world_bitmap(), (36590 * 256, 21569 * 256));
}

#[test]
fn grid_size_is_a_power_of_two() {
    assert_eq!(TileCoordinates { x: 0, y: 0, zoom: 0 }.grid_size(), 1);
    assert_eq!(TileCoordinates { x: 0, y: 0, zoom: 4 }.grid_size(), 16);
    assert_eq!(TileCoordinates { x: 36590, y: 21569, zoom: 16 }.grid_size(), 65536);
}
