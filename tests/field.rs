use minesweeper::{Cell, Field, FieldError};

fn mines(f: &Field) -> usize {
    f.cells().iter().filter(|c| c.is_mine).count()
}

#[test]
fn empty_field_has_blank_cells() {
    let f = Field::empty(4, 3).unwrap();
    assert_eq!(f.size(), 12);
    assert_eq!(f.dimensions(), (4, 3));
    assert_eq!(f.width(), 4);
    assert_eq!(f.height(), 3);
    assert!(f.cells().iter().all(|c| *c == Cell::default()));
    assert!(f.cells().iter().all(|c| !c.is_mine && !c.is_revealed && !c.is_flagged));
}

#[test]
fn empty_rejects_zero_dimensions() {
    assert_eq!(Field::empty(0, 3).err(), Some(FieldError::InvalidDimensions));
    assert_eq!(Field::empty(3, 0).err(), Some(FieldError::InvalidDimensions));
    assert_eq!(Field::with_mines(0, 0, 1).err(), Some(FieldError::InvalidDimensions));
}

#[test]
fn with_mines_places_requested_count() {
    let f = Field::with_mines(5, 4, 7).unwrap();
    assert_eq!(mines(&f), 7);
    assert!(f.cells().iter().all(|c| !c.is_revealed && !c.is_flagged));
}

#[test]
fn with_mines_saturates_at_size() {
    let f = Field::with_mines(2, 2, 10).unwrap();
    assert_eq!(mines(&f), 4);
    let g = Field::with_mines(3, 3, 0).unwrap();
    assert_eq!(mines(&g), 0);
}

#[test]
fn fill_skips_revealed_and_mined_cells() {
    let mut f = Field::empty(3, 1).unwrap();
    f.place_mines(&vec![0]);
    f.get_mut(1, 0).unwrap().is_revealed = true;
    f.fill_with_mines(5);
    assert_eq!(mines(&f), 2);
    assert!(!f.get(1, 0).unwrap().is_mine);
    assert!(f.get(2, 0).unwrap().is_mine);
}

#[test]
fn place_mines_skips_indices_outside() {
    let mut f = Field::empty(2, 2).unwrap();
    f.place_mines(&vec![3, 9, 3]);
    assert_eq!(mines(&f), 1);
    assert!(f.get(1, 1).unwrap().is_mine);
}

#[test]
fn get_out_of_bounds_is_none() {
    let mut f = Field::empty(3, 2).unwrap();
    assert!(f.get(3, 0).is_none());
    assert!(f.get(0, 2).is_none());
    assert!(f.get(usize::MAX, usize::MAX).is_none());
    assert!(f.get_mut(0, 5).is_none());
    assert!(f.get(2, 1).is_some());
}

#[test]
fn neighbour_positions_near_origin() {
    let f = Field::empty(3, 3).unwrap();
    assert_eq!(f.neighbour_positions(0, 0), vec![(0, 1), (1, 0), (1, 1)]);
    assert_eq!(f.neighbour_positions(1, 1).len(), 8);
    assert_eq!(
        f.neighbour_positions(1, 1),
        vec![(0, 0), (0, 1), (0, 2), (1, 0), (1, 2), (2, 0), (2, 1), (2, 2)]
    );
}

#[test]
fn neighbour_positions_at_usize_max() {
    let f = Field::empty(1, 1).unwrap();
    assert_eq!(
        f.neighbour_positions(usize::MAX, 0),
        vec![(usize::MAX - 1, 0), (usize::MAX - 1, 1), (usize::MAX, 1)]
    );
}

#[test]
fn neighbours_and_mine_counts() {
    let mut f = Field::empty(3, 3).unwrap();
    f.place_mines(&vec![0, 2, 8]);
    assert_eq!(f.num_neighbour_mines(1, 1), 3);
    assert_eq!(f.num_neighbour_mines(1, 0), 2);
    assert_eq!(f.num_neighbour_mines(0, 2), 0);
    assert_eq!(f.neighbours(0, 0).len(), 3);
    assert_eq!(f.neighbours(1, 1).iter().filter(|c| c.is_mine).count(), 3);
}

#[test]
fn reveal_cascades_to_far_corner_mine() {
    let mut f = Field::empty(5, 5).unwrap();
    f.place_mines(&vec![24]);
    assert!(!f.reveal_cell(0, 0));
    for y in 0..4 {
        for x in 0..4 {
            assert!(f.get(x, y).unwrap().is_revealed);
        }
    }
    assert!(f.get(4, 3).unwrap().is_revealed);
    assert!(f.get(3, 4).unwrap().is_revealed);
    assert!(!f.get(4, 4).unwrap().is_revealed);
}

#[test]
fn reveal_stops_at_numbered_ring() {
    let mut f = Field::empty(5, 1).unwrap();
    f.place_mines(&vec![3]);
    assert!(!f.reveal_cell(0, 0));
    let shown: Vec<bool> = f.cells().iter().map(|c| c.is_revealed).collect();
    assert_eq!(shown, vec![true, true, true, false, false]);
}

#[test]
fn reveal_numbered_cell_does_not_spread() {
    let mut f = Field::empty(3, 3).unwrap();
    f.place_mines(&vec![0]);
    assert!(!f.reveal_cell(1, 1));
    assert_eq!(f.cells().iter().filter(|c| c.is_revealed).count(), 1);
}

#[test]
fn reveal_mine_hits_once() {
    let mut f = Field::empty(3, 3).unwrap();
    f.place_mines(&vec![4]);
    assert!(f.reveal_cell(1, 1));
    assert_eq!(f.cells().iter().filter(|c| c.is_revealed).count(), 1);
    let before: Vec<Cell> = f.cells().clone();
    assert!(!f.reveal_cell(1, 1));
    assert_eq!(*f.cells(), before);
}

#[test]
fn reveal_out_of_bounds_is_noop() {
    let mut f = Field::empty(2, 2).unwrap();
    assert!(!f.reveal_cell(2, 0));
    assert!(!f.reveal_cell(0, 7));
    assert!(f.cells().iter().all(|c| !c.is_revealed));
}

#[test]
fn cascade_skips_flagged_cells() {
    let mut f = Field::empty(3, 1).unwrap();
    f.toggle_flag(1, 0);
    assert!(!f.reveal_cell(0, 0));
    let shown: Vec<bool> = f.cells().iter().map(|c| c.is_revealed).collect();
    assert_eq!(shown, vec![true, false, false]);
}

#[test]
fn toggle_flag_twice_restores() {
    let mut f = Field::empty(2, 2).unwrap();
    f.toggle_flag(1, 1);
    assert!(f.get(1, 1).unwrap().is_flagged);
    f.toggle_flag(1, 1);
    assert!(!f.get(1, 1).unwrap().is_flagged);
    f.toggle_flag(5, 5);
    assert!(f.cells().iter().all(|c| !c.is_flagged));
}

#[test]
fn flagged_cell_cannot_be_revealed_until_unflagged() {
    let mut f = Field::empty(2, 2).unwrap();
    f.place_mines(&vec![0]);
    f.toggle_flag(0, 0);
    assert!(!f.reveal_cell(0, 0));
    assert!(!f.get(0, 0).unwrap().is_revealed);
    f.toggle_flag(0, 0);
    assert!(f.reveal_cell(0, 0));
    assert!(f.get(0, 0).unwrap().is_revealed);
}

#[test]
fn rows_split_cells_by_width() {
    let mut f = Field::empty(3, 2).unwrap();
    f.place_mines(&vec![1, 5]);
    let rows = f.rows();
    assert_eq!(rows.len(), 2);
    let mined: Vec<Vec<bool>> = rows.iter().map(|r| r.iter().map(|c| c.is_mine).collect()).collect();
    assert_eq!(mined, vec![vec![false, true, false], vec![false, false, true]]);
}

#[test]
fn rows_enumerated_numbers_rows_and_columns() {
    let mut f = Field::empty(2, 3).unwrap();
    f.place_mines(&vec![3]);
    let rows = f.rows_enumerated();
    assert_eq!(rows.len(), 3);
    let numbers: Vec<usize> = rows.iter().map(|(y, _)| *y).collect();
    assert_eq!(numbers, vec![0, 1, 2]);
    let columns: Vec<usize> = rows[1].1.iter().map(|(x, _)| *x).collect();
    assert_eq!(columns, vec![0, 1]);
    assert!(rows[1].1[1].1.is_mine);
    assert!(!rows[1].1[0].1.is_mine);
    assert!(!rows[2].1[1].1.is_mine);
}
