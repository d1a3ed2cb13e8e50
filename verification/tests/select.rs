use fantastic_bits::select::best_index;

#[test]
fn a_row_without_candidates_has_no_best() {
    assert_eq!(best_index(&Vec::new()), None);
    assert_eq!(best_index(&vec![None, None, None]), None);
}

#[test]
fn the_best_candidate_has_the_smallest_measure() {
    let row = vec![Some((30, 0)), None, Some((10, 5)), Some((20, 1))];
    assert_eq!(best_index(&row), Some(2));
    assert_eq!(best_index(&vec![None, Some((-5, 0))]), Some(1));
    assert_eq!(best_index(&vec![Some((i128::MAX, 0)), Some((i128::MIN, 0))]), Some(1));
}

#[test]
fn equal_measures_are_settled_by_the_tie_breaker() {
    let row = vec![Some((10, 7)), Some((10, 3)), None, Some((10, 5))];
    assert_eq!(best_index(&row), Some(1));
    let row = vec![Some((10, -1)), Some((10, -2)), Some((9, 100))];
    assert_eq!(best_index(&row), Some(2));
    let row = vec![Some((10, -1)), Some((10, -2))];
    assert_eq!(best_index(&row), Some(1));
}

#[test]
fn of_equal_ranks_the_first_is_best() {
    let row = vec![None, Some((0, 0)), Some((0, 0)), Some((0, 0))];
    assert_eq!(best_index(&row), Some(1));
}
