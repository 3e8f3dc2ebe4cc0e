use mapgen::roads::sort_dedup_by_key;

#[test]
fn orders_buckets_by_key() {
    let entries: Vec<(i32, u8, char)> = vec![(30, 1, 'a'), (10, 2, 'b'), (20, 3, 'c')];
    let sorted = sort_dedup_by_key(&entries);
    assert_eq!(sorted, vec![(10, 2, 'b'), (20, 3, 'c'), (30, 1, 'a')]);
}

#[test]
fn equal_keys_keep_first_tag_and_last_payload() {
    let entries: Vec<(i32, u8, char)> =
        vec![(10, 1, 'a'), (20, 2, 'b'), (10, 3, 'c'), (10, 4, 'd')];
    let sorted = sort_dedup_by_key(&entries);
    assert_eq!(sorted, vec![(10, 1, 'd'), (20, 2, 'b')]);
}

#[test]
fn negative_keys_sort_before_positive_ones() {
    let entries: Vec<(i32, u8, u8)> = vec![(5, 0, 0), (-7, 1, 1), (0, 2, 2), (-7, 9, 9)];
    let sorted = sort_dedup_by_key(&entries);
    assert_eq!(sorted, vec![(-7, 1, 9), (0, 2, 2), (5, 0, 0)]);
}

#[test]
fn empty_input_gives_empty_output() {
    let entries: Vec<(i32, u8, u8)> = Vec::new();
    let sorted = sort_dedup_by_key(&entries);
    assert!(sorted.is_empty());
}

#[test]
fn payloads_ride_through_opaquely() {
    // the angles of the boundary ring ride through as payload; the sort
    // never looks inside them
    let entries: Vec<(i32, f32, [i32; 2])> =
        vec![(314159, 3.14159, [4, 0]), (-271828, -2.71828, [-3, -1])];
    let sorted = sort_dedup_by_key(&entries);
    assert_eq!(sorted.len(), 2);
    assert_eq!(sorted[0].0, -271828);
    assert_eq!(sorted[0].1, -2.71828);
    assert_eq!(sorted[0].2, [-3, -1]);
    assert_eq!(sorted[1].0, 314159);
    assert_eq!(sorted[1].1, 3.14159);
    assert_eq!(sorted[1].2, [4, 0]);
}
