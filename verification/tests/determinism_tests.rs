use mapgen::grid::TileGrid;
use mapgen::noise::Perlin;
use mapgen::rng::Random;
use mapgen::roads::road_runs;

// Runs the whole integer core once from one seed and collects every output
// it produces, so that two runs can be compared bit for bit.
fn generate(seed: i64) -> (Vec<i64>, Vec<(u8, u8, u8, u8)>, Vec<bool>, Vec<(usize, usize)>) {
    let mut rng = Random::create(seed);
    let mut draws = Vec::new();
    for _ in 0..16 {
        draws.push(rng.next());
    }

    let mut noise = Perlin::default();
    noise.seed_int((draws[0] % 65536) as i32);
    let mut corners = Vec::new();
    for k in 0..16i32 {
        corners.push(noise.lattice_corners(k * 37 - 100, k * 91 - 300));
    }

    let mut grid = TileGrid::create(16, 12);
    let mut tiles = Vec::new();
    for k in 0..12 {
        let x = (draws[k] % 16 - 8) as i32;
        let y = (draws[k] % 12 - 6) as i32;
        tiles.push((x, y));
    }
    grid.mark_road_tiles(&tiles);
    let mut cells = Vec::new();
    for y in -6..6i32 {
        for x in -8..8i32 {
            cells.push(grid.is_tile_grass(x, y));
        }
    }

    let flags: Vec<bool> = (0..200).map(|k| (seed + k) % 7 != 0).collect();
    let runs = road_runs(&flags);

    (draws, corners, cells, runs)
}

#[test]
fn same_seed_generates_identical_results() {
    let a = generate(42);
    let b = generate(42);
    assert_eq!(a.0, b.0);
    assert_eq!(a.1, b.1);
    assert_eq!(a.2, b.2);
    assert_eq!(a.3, b.3);
}

#[test]
fn another_seed_is_also_reproducible() {
    let a = generate(2996010972);
    let b = generate(2996010972);
    assert_eq!(a.0, b.0);
    assert_eq!(a.1, b.1);
    assert_eq!(a.2, b.2);
    assert_eq!(a.3, b.3);
}
