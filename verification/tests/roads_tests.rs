use mapgen::roads::first_grass_index;
use mapgen::roads::road_runs;

// in the flag vectors, `true` is grass and `false` is road

#[test]
fn first_grass_scans_forward() {
    assert_eq!(first_grass_index(&vec![false, false, true, true]), 2);
    assert_eq!(first_grass_index(&vec![true, false]), 0);
    assert_eq!(first_grass_index(&vec![false, false]), 0);
}

#[test]
fn two_runs_on_a_simple_ring() {
    let flags = vec![true, false, false, true, false];
    assert_eq!(road_runs(&flags), vec![(1, 2), (4, 4)]);
}

#[test]
fn a_run_may_cross_the_wrap_point() {
    let flags = vec![false, true, false, false];
    assert_eq!(road_runs(&flags), vec![(2, 0)]);
}

#[test]
fn all_grass_yields_no_runs() {
    let flags = vec![true, true, true];
    assert_eq!(road_runs(&flags), Vec::<(usize, usize)>::new());
}

#[test]
fn all_road_yields_no_closed_runs() {
    // with no grass sample the walk never closes the single giant run
    let flags = vec![false, false, false];
    assert_eq!(road_runs(&flags), Vec::<(usize, usize)>::new());
    assert_eq!(road_runs(&vec![false]), Vec::<(usize, usize)>::new());
}

#[test]
fn run_count_matches_contiguous_road_stretches() {
    // three stretches of road on the ring, one of them wrapping around
    let flags = vec![false, true, false, true, true, false, false, true, false];
    let runs = road_runs(&flags);
    assert_eq!(runs.len(), 3);
    assert_eq!(runs, vec![(2, 2), (5, 6), (8, 0)]);
}
