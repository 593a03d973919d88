use slippy_map::coords::TileCoordinates;
use slippy_map::tiles::{FetchError, Tiles, REQUEST_QUEUE_CAPACITY};

/// A well-formed PNG with the given dimensions, encoded in memory.
fn png_bytes(width: u32, height: u32) -> Vec<u8> {
    let img = image::RgbaImage::new(width, height);
    let mut buf = std::io::Cursor::new(Vec::new());
    image::DynamicImage::ImageRgba8(img)
        .write_to(&mut buf, image::ImageOutputFormat::Png)
        .unwrap();
    buf.into_inner()
}

fn coord(x: u32, y: u32) -> TileCoordinates {
    TileCoordinates { x, y, zoom: 16 }
}

#[test]
fn miss_returns_nothing_and_later_read_sees_the_download() {
    let mut tiles = Tiles::new();
    let c = coord(10, 20);

    // A miss returns immediately with nothing; the coordinate is queued.
    assert!(tiles.at(10, 20, 16).is_none());
    assert_eq!(tiles.next_request(), Some(c));

    // The download completes; the next read sees the decoded bitmap.
    assert_eq!(tiles.complete(c, Ok(png_bytes(1, 1))), Ok(()));
    let tile = tiles.at(10, 20, 16).expect("cached after completion");
    assert_eq!(tile.width(), 1);
    assert_eq!(tile.height(), 1);
    assert_eq!(tile.pixels.len(), 4);
}

#[test]
fn decoded_dimensions_come_from_the_image_bytes() {
    let mut tiles = Tiles::new();
    let c = coord(3, 4);
    assert_eq!(tiles.complete(c, Ok(png_bytes(2, 3))), Ok(()));
    let tile = tiles.at(3, 4, 16).expect("cached after completion");
    assert_eq!(tile.width(), 2);
    assert_eq!(tile.height(), 3);
    assert_eq!(tile.pixels.len(), 24);
}

#[test]
fn duplicate_requests_are_downloaded_once() {
    let mut tiles = Tiles::new();
    let c = coord(5, 6);

    // Two readers ask for the same tile before any download finishes:
    // the coordinate sits in the queue twice.
    assert!(tiles.at(5, 6, 16).is_none());
    assert!(tiles.at(5, 6, 16).is_none());
    assert_eq!(tiles.next_request(), Some(c));
    assert!(tiles.should_fetch(c));
    assert_eq!(tiles.complete(c, Ok(png_bytes(1, 1))), Ok(()));

    // The second queued copy is rechecked and not fetched again.
    assert_eq!(tiles.next_request(), Some(c));
    assert!(!tiles.should_fetch(c));

    // Even a second completed download for the same coordinate does not
    // replace the first bitmap.
    assert_eq!(tiles.complete(c, Ok(png_bytes(2, 2))), Ok(()));
    let tile = tiles.at(5, 6, 16).expect("still cached");
    assert_eq!(tile.width(), 1);
    assert_eq!(tile.height(), 1);
}

#[test]
fn full_queue_drops_the_newest_request() {
    let mut tiles = Tiles::new();
    for i in 0..REQUEST_QUEUE_CAPACITY as u32 {
        assert!(tiles.at(i, 0, 16).is_none());
    }

    // The queue is at capacity: one more request neither blocks nor crashes,
    // it is silently dropped.
    assert!(tiles.at(99, 99, 16).is_none());

    for i in 0..REQUEST_QUEUE_CAPACITY as u32 {
        assert_eq!(tiles.next_request(), Some(coord(i, 0)));
    }
    assert_eq!(tiles.next_request(), None);
}

#[test]
fn cached_tile_is_not_requested_again() {
    let mut tiles = Tiles::new();
    let c = coord(7, 8);
    assert_eq!(tiles.complete(c, Ok(png_bytes(1, 1))), Ok(()));

    // A hit returns the bitmap and queues nothing.
    assert!(tiles.at(7, 8, 16).is_some());
    assert_eq!(tiles.next_request(), None);
}

#[test]
fn failures_are_classified_and_leave_nothing_cached() {
    let mut tiles = Tiles::new();
    let c = coord(1, 1);
    assert_eq!(tiles.complete(c, Err(FetchError::Transport)), Err(FetchError::Transport));
    assert_eq!(tiles.complete(c, Err(FetchError::HttpStatus)), Err(FetchError::HttpStatus));
    assert_eq!(tiles.complete(c, Ok(vec![1, 2, 3])), Err(FetchError::Decode));
    assert!(tiles.at(1, 1, 16).is_none());
}

#[test]
fn one_failed_download_does_not_stop_the_next() {
    let mut tiles = Tiles::new();
    let bad = coord(1, 2);
    let good = coord(3, 4);

    assert_eq!(tiles.complete(bad, Err(FetchError::Transport)), Err(FetchError::Transport));

    // A later download for a different coordinate still succeeds.
    assert_eq!(tiles.complete(good, Ok(png_bytes(1, 1))), Ok(()));
    assert!(tiles.at(3, 4, 16).is_some());
    assert!(tiles.at(1, 2, 16).is_none());
}
