use editoast::tiles::{
    count_tiles, get_tiles_to_invalidate, tile_range, tiles_in_range, BboxError, BoundingBox,
    WORLD_ZOOM,
};

/// Projects a geographic point onto the world grid.
fn world_point(lon: f64, lat: f64) -> (u64, u64) {
    let n = 2.0_f64.powi(WORLD_ZOOM as i32);
    let x = ((lon + 180.0) / 360.0 * n).floor() as u64;
    let y = ((1.0 - lat.to_radians().tan().asinh() / std::f64::consts::PI) / 2.0 * n).floor() as u64;
    (x, y)
}

/// The box `[[min_lon, min_lat], [max_lon, max_lat]]` on the world grid.
fn project(bbox: [[f64; 2]; 2]) -> BoundingBox {
    let (west, south) = world_point(bbox[0][0], bbox[0][1]);
    let (east, north) = world_point(bbox[1][0], bbox[1][1]);
    BoundingBox { west, north, east, south }
}

fn campus_bbox() -> BoundingBox {
    project([[2.3535, 48.921], [2.3568, 48.922]])
}

#[test]
fn find_tiles_to_invalidate() {
    let campus_sncf_bbox = campus_bbox();
    let expected_tiles: Vec<(u64, u64, u64)> = vec![
        (0, 0, 0),
        (1, 0, 1),
        (2, 1, 2),
        (4, 2, 3),
        (8, 5, 4),
        (16, 11, 5),
        (32, 22, 6),
        (64, 44, 7),
        (129, 88, 8),
        (259, 176, 9),
        (518, 352, 10),
        (1037, 704, 11),
        (2074, 1408, 12),
        (4149, 2816, 13),
        (8299, 5632, 14),
        (16598, 11264, 15),
        (33196, 22528, 16),
        (33197, 22528, 16),
        (66392, 45056, 17),
        (66393, 45056, 17),
        (66394, 45056, 17),
        (132785, 90112, 18),
        (132785, 90113, 18),
        (132786, 90112, 18),
        (132786, 90113, 18),
        (132787, 90112, 18),
        (132787, 90113, 18),
        (132788, 90112, 18),
        (132788, 90113, 18),
    ];
    let mut found_tiles: Vec<(u64, u64, u64)> = Vec::new();
    for found_tile in get_tiles_to_invalidate(18, campus_sncf_bbox).unwrap() {
        found_tiles.push((found_tile.x, found_tile.y, found_tile.z));
    }
    assert_eq!(expected_tiles, found_tiles);
}

#[test]
fn campus_range_at_zoom_18() {
    let range = tile_range(18, campus_bbox()).unwrap();
    assert_eq!((range.min_x, range.max_x), (132785, 132788));
    assert_eq!((range.min_y, range.max_y), (90112, 90113));
    assert_eq!(count_tiles(18, campus_bbox()), Ok(8));
    assert_eq!(tiles_in_range(18, campus_bbox()).unwrap().len(), 8);
}

#[test]
fn count_matches_listing_at_every_zoom() {
    for zoom in 0..=WORLD_ZOOM as u64 {
        let listed = tiles_in_range(zoom, campus_bbox()).unwrap().len() as u64;
        assert_eq!(count_tiles(zoom, campus_bbox()), Ok(listed));
    }
}

#[test]
fn counts_grow_with_zoom_and_ancestors_stay_in_range() {
    let mut previous = 0;
    for zoom in 0..=20u64 {
        let count = count_tiles(zoom, campus_bbox()).unwrap();
        assert!(count >= previous);
        previous = count;
    }
    let coarse = tile_range(10, campus_bbox()).unwrap();
    for tile in tiles_in_range(18, campus_bbox()).unwrap() {
        let (x, y) = (tile.x >> 8, tile.y >> 8);
        assert!(coarse.min_x <= x && x <= coarse.max_x);
        assert!(coarse.min_y <= y && y <= coarse.max_y);
    }
}

#[test]
fn tiles_of_one_zoom_come_by_x_then_y() {
    let tiles = tiles_in_range(17, campus_bbox()).unwrap();
    let coords: Vec<(u64, u64, u64)> = tiles.iter().map(|t| (t.x, t.y, t.z)).collect();
    assert_eq!(coords, vec![(66392, 45056, 17), (66393, 45056, 17), (66394, 45056, 17)]);
}

#[test]
fn degenerate_box_covers_one_tile_per_zoom() {
    let point = BoundingBox { west: 7, north: 9, east: 7, south: 9 };
    assert_eq!(count_tiles(30, point), Ok(1));
    assert_eq!(get_tiles_to_invalidate(3, point).unwrap().len(), 4);
}

#[test]
fn whole_world_at_zoom_two() {
    let last = (1u64 << WORLD_ZOOM) - 1;
    let world = BoundingBox { west: 0, north: 0, east: last, south: last };
    assert_eq!(count_tiles(2, world), Ok(16));
    assert_eq!(count_tiles(30, world), Ok(1u64 << 60));
}

#[test]
fn inverted_box_is_rejected() {
    let inverted = BoundingBox { west: 10, north: 0, east: 5, south: 3 };
    assert_eq!(count_tiles(5, inverted), Err(BboxError::Inverted));
    let upside_down = BoundingBox { west: 0, north: 8, east: 5, south: 3 };
    assert_eq!(tiles_in_range(5, upside_down), Err(BboxError::Inverted));
}

#[test]
fn box_outside_the_world_is_rejected() {
    let outside = BoundingBox { west: 0, north: 0, east: 1u64 << WORLD_ZOOM, south: 3 };
    assert_eq!(count_tiles(5, outside), Err(BboxError::OutsideWorld));
}

#[test]
fn zoom_beyond_the_grid_is_rejected() {
    assert_eq!(count_tiles(31, campus_bbox()), Err(BboxError::ZoomTooDeep));
    assert_eq!(get_tiles_to_invalidate(31, campus_bbox()), Err(BboxError::ZoomTooDeep));
}

#[test]
fn listed_tiles_refine_between_zooms() {
    let listed = get_tiles_to_invalidate(18, campus_bbox()).unwrap();
    let at = |z: u64| listed.iter().filter(move |t| t.z == z).cloned().collect::<Vec<_>>();
    for (z1, z2) in [(10u64, 18u64), (16, 17), (0, 18)] {
        let shift = z2 - z1;
        for deep in at(z2) {
            assert!(at(z1).iter().any(|s| s.x == deep.x >> shift && s.y == deep.y >> shift));
        }
        for shallow in at(z1) {
            assert!(at(z2).iter().any(|t| t.x >> shift == shallow.x && t.y >> shift == shallow.y));
        }
    }
}
