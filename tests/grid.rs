use mapgen::grid::{adjacent, index_to_xy, is_boundary};
use mapgen::position::Position;

#[test]
fn corners_have_two_neighbours() {
    assert_eq!(adjacent(0, 4, 16), vec![1, 4]);
    assert_eq!(adjacent(3, 4, 16), vec![2, 7]);
    assert_eq!(adjacent(15, 4, 16), vec![14, 11]);
    assert_eq!(adjacent(12, 4, 16), vec![13, 8]);
}

#[test]
fn edges_have_three_neighbours() {
    assert_eq!(adjacent(4, 4, 16), vec![5, 0, 8]);
    assert_eq!(adjacent(7, 4, 16), vec![6, 3, 11]);
    assert_eq!(adjacent(1, 4, 16), vec![0, 2, 5]);
    assert_eq!(adjacent(13, 4, 16), vec![12, 14, 9]);
}

#[test]
fn interior_has_four_neighbours() {
    assert_eq!(adjacent(5, 4, 16), vec![4, 6, 1, 9]);
}

#[test]
fn thin_grids() {
    assert_eq!(adjacent(1, 1, 3), vec![0, 2]);
    assert_eq!(adjacent(0, 1, 1), Vec::<usize>::new());
    assert_eq!(adjacent(0, 3, 3), vec![1]);
    assert_eq!(adjacent(1, 3, 3), vec![0, 2]);
}

#[test]
fn boundary_ring() {
    assert!(is_boundary(0, 4, 16));
    assert!(is_boundary(7, 4, 16));
    assert!(is_boundary(13, 4, 16));
    assert!(!is_boundary(5, 4, 16));
    assert!(!is_boundary(10, 4, 16));
}

#[test]
fn coordinates_of_index() {
    assert_eq!(index_to_xy(11, 4), (3, 2));
    assert_eq!(index_to_xy(0, 4), (0, 0));
}

#[test]
fn position_get_and_set() {
    let mut p = Position::new(3, 4);
    assert_eq!(p.get(), (3, 4));
    p.set(7, 1);
    assert_eq!(p.get(), (7, 1));
}
