use mapgen::noise::Perlin;

#[test]
fn corners_for_zero_seed() {
    let mut n = Perlin::default();
    n.seed_int(0);
    assert_eq!(n.lattice_corners(0, 0), (5, 11, 2, 8));
    assert_eq!(n.lattice_corners(255, 255), (1, 10, 7, 5));
}

#[test]
fn corners_for_large_seed() {
    let mut n = Perlin::default();
    n.seed_int(54321);
    assert_eq!(n.lattice_corners(0, 0), (3, 3, 11, 11));
    assert_eq!(n.lattice_corners(12, 200), (3, 0, 7, 10));
}

#[test]
fn small_seed_spreads_low_byte() {
    let mut n = Perlin::default();
    n.seed_int(101);
    assert_eq!(n.lattice_corners(3, 4), (10, 0, 11, 11));
    // cell coordinates wrap modulo the table period
    assert_eq!(n.lattice_corners(300, -42), (9, 0, 11, 9));
}

#[test]
fn negative_cells_wrap() {
    let mut n = Perlin::default();
    n.seed_int(0);
    assert_eq!(n.lattice_corners(-1, -3), (3, 6, 0, 7));
}

#[test]
fn gradient_indices_stay_below_twelve() {
    let mut n = Perlin::default();
    n.seed_int(31415);
    for cell in -40..40i32 {
        let (a, b, c, d) = n.lattice_corners(cell * 7, cell * 13);
        assert!(a < 12 && b < 12 && c < 12 && d < 12);
    }
}

#[test]
fn equal_seeds_give_identical_tables() {
    let mut a = Perlin::default();
    let mut b = Perlin::default();
    a.seed_int(4242);
    b.seed_int(4242);
    for x in -300..300i32 {
        assert_eq!(a.lattice_corners(x, -x * 3), b.lattice_corners(x, -x * 3));
    }
}

#[test]
fn reseeding_replaces_the_tables() {
    let mut a = Perlin::default();
    a.seed_int(1);
    a.seed_int(54321);
    let mut b = Perlin::default();
    b.seed_int(54321);
    for x in 0..256i32 {
        assert_eq!(a.lattice_corners(x, x), b.lattice_corners(x, x));
    }
}
