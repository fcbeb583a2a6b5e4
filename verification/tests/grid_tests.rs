use std::cell::RefCell;
use gunship::component::collider::grid_collision::{broadphase_candidates, narrowphase, GridCell, GridIter};
use gunship::ecs::Entity;

fn collect(mut iter: GridIter) -> Vec<GridCell> {
    let mut cells = Vec::new();
    while let Some(cell) = iter.next() {
        cells.push(cell);
    }
    cells
}

#[test]
fn grid_iter_visits_every_cell_of_the_box() {
    let from = GridCell::new(0, 0, 0);
    let to = GridCell::new(1, 1, 1);
    let cells = collect(from.iter_to(to));
    assert_eq!(
        cells,
        vec![
            GridCell::new(0, 0, 0),
            GridCell::new(0, 0, 1),
            GridCell::new(0, 1, 0),
            GridCell::new(0, 1, 1),
            GridCell::new(1, 0, 0),
            GridCell::new(1, 0, 1),
            GridCell::new(1, 1, 0),
            GridCell::new(1, 1, 1),
        ],
    );
}

#[test]
fn grid_iter_single_cell_yields_that_cell() {
    let cell = GridCell::new(-3, 4, 2);
    assert_eq!(collect(cell.iter_to(cell)), vec![cell]);
}

#[test]
fn grid_iter_stays_ended() {
    let cell = GridCell::new(1, 1, 1);
    let mut iter = cell.iter_to(cell);
    assert_eq!(iter.next(), Some(cell));
    assert_eq!(iter.next(), None);
    assert_eq!(iter.next(), None);
}

#[test]
fn grid_iter_count_matches_box_size() {
    let from = GridCell::new(-2, 0, 5);
    let to = GridCell::new(1, 2, 6);
    let cells = collect(from.iter_to(to));
    assert_eq!(cells.len(), 4 * 3 * 2);
    assert_eq!(cells.last(), Some(&to));
    for pair in cells.windows(2) {
        let (a, b) = (pair[0], pair[1]);
        assert!((a.x, a.y, a.z) < (b.x, b.y, b.z));
    }
}

#[test]
fn broadphase_pairs_each_box_with_earlier_boxes_in_shared_cells() {
    let a = (GridCell::new(0, 0, 0), GridCell::new(1, 0, 0));
    let b = (GridCell::new(0, 0, 0), GridCell::new(0, 0, 1));
    let single = (GridCell::new(5, 5, 5), GridCell::new(5, 5, 5));
    let c = (GridCell::new(0, 0, 0), GridCell::new(1, 1, 0));
    let candidates = broadphase_candidates(&[a, b, single, c]);
    // c shares (0,0,0) with a and b, and (1,0,0) with a.
    assert_eq!(candidates, vec![(1, 0), (3, 0), (3, 1), (3, 0)]);
}

#[test]
fn broadphase_pairs_a_box_once_per_shared_cell() {
    let wide = (GridCell::new(0, 0, 0), GridCell::new(0, 1, 1));
    let same = (GridCell::new(0, 0, 0), GridCell::new(0, 1, 1));
    // Both walks yield the four cells of the box, so the pair comes up once for each.
    assert_eq!(broadphase_candidates(&[wide, same]), vec![(1, 0), (1, 0), (1, 0), (1, 0)]);
    assert!(broadphase_candidates(&[]).is_empty());
}

#[test]
fn broadphase_pairs_boxes_inside_one_cell() {
    let cell = (GridCell::new(2, 2, 2), GridCell::new(2, 2, 2));
    let far = (GridCell::new(9, 9, 9), GridCell::new(9, 9, 9));
    assert_eq!(broadphase_candidates(&[cell, far, cell]), vec![(2, 0)]);
}

#[test]
fn broadphase_pairs_boxes_sharing_only_their_highest_cell() {
    let left = (GridCell::new(0, 0, 0), GridCell::new(1, 1, 1));
    let right = (GridCell::new(1, 1, 1), GridCell::new(2, 2, 2));
    assert_eq!(broadphase_candidates(&[left, right]), vec![(1, 0)]);
}

#[test]
fn narrowphase_tests_each_pair_until_it_collides() {
    let pairs = [
        (Entity(1), Entity(0)),
        (Entity(2), Entity(0)),
        (Entity(1), Entity(0)),
        (Entity(2), Entity(0)),
        (Entity(0), Entity(1)),
    ];
    let tested = RefCell::new(Vec::new());
    // The first test of (2, 0) misses, the second hits; (1, 0) hits at once.
    let collisions = narrowphase(&pairs, |k| {
        tested.borrow_mut().push(k);
        k != 1
    });
    assert_eq!(collisions, vec![(Entity(1), Entity(0)), (Entity(2), Entity(0)), (Entity(0), Entity(1))]);
    // The repeat of (1, 0) at index 2 is not tested again.
    assert_eq!(tested.into_inner(), vec![0, 1, 3, 4]);
    assert!(narrowphase(&[], |_| true).is_empty());
}
