use balancebeam::jobs::assemble_results;

#[test]
fn results_land_in_their_own_slots_whatever_the_order() {
    let results: Vec<(usize, u64)> = vec![(2, 9), (0, 7), (1, 8)];
    assert_eq!(assemble_results(&results, 3, 0), vec![7, 8, 9]);
}

#[test]
fn unfilled_slots_keep_the_fill_value() {
    let results: Vec<(usize, i32)> = vec![(1, -5)];
    assert_eq!(assemble_results(&results, 3, 42), vec![42, -5, 42]);
}

#[test]
fn later_results_for_a_slot_win_and_stray_slots_are_ignored() {
    let results: Vec<(usize, u64)> = vec![(0, 1), (0, 2), (9, 3)];
    assert_eq!(assemble_results(&results, 2, 0), vec![2, 0]);
}
