use sandpile::grid::Grid;
use sandpile::mirror::mirror_along_diagonal;
use sandpile::point::Point;
use sandpile::random::gen_grid;
use sandpile::worklist::UnstableSet;

#[test]
fn a_new_grid_is_empty() {
    let g = Grid::new(3, 2);
    assert_eq!(g.width, 3);
    assert_eq!(g.height, 2);
    assert_eq!(g.to_vec(), vec![vec![0, 0, 0], vec![0, 0, 0]]);
}

#[test]
fn rows_go_in_and_come_out_unchanged() {
    let rows = vec![vec![1, 2, 3], vec![4, 5, 6]];
    let g = Grid::from_vec(rows.clone());
    assert_eq!(g.width, 3);
    assert_eq!(g.height, 2);
    assert_eq!(g.to_vec(), rows);
}

#[test]
fn a_cell_lies_at_x_times_width_plus_y() {
    let g = Grid::from_vec(vec![vec![1, 2, 3], vec![4, 5, 6]]);
    assert_eq!(g.get(Point { x: 0, y: 0 }), &1);
    assert_eq!(g.get(Point { x: 0, y: 2 }), &3);
    assert_eq!(g.get(Point { x: 1, y: 0 }), &4);
    assert_eq!(g.get(Point { x: 1, y: 2 }), &6);
    // Beside the field, but inside the store: offset 0 * 3 + 4.
    assert_eq!(g.get(Point { x: 0, y: 4 }), &5);
}

#[test]
fn reading_outside_the_store_gives_zero() {
    let g = Grid::from_vec(vec![vec![1, 2, 3], vec![4, 5, 6]]);
    assert_eq!(g.get(Point { x: 2, y: 0 }), &0);
    assert_eq!(g.get(Point { x: 1, y: 3 }), &0);
    assert_eq!(g.get(Point { x: usize::MAX, y: usize::MAX }), &0);
    assert_eq!(g.get(Point { x: usize::MAX, y: 0 }), &0);
    assert_eq!(g.get(Point { x: 0, y: usize::MAX }), &0);
}

#[test]
fn set_overwrites_one_cell() {
    let mut g = Grid::new(3, 2);
    g.set(Point { x: 1, y: 1 }, 9);
    g.set(Point { x: 0, y: 2 }, 8);
    g.set(Point { x: 1, y: 1 }, 7);
    assert_eq!(g.to_vec(), vec![vec![0, 0, 8], vec![0, 7, 0]]);
}

#[test]
fn the_walk_goes_row_by_row() {
    let g = Grid::from_vec(vec![vec![1, 2, 3], vec![4, 5, 6]]);
    let mut walk = g.iter();
    let mut seen = Vec::new();
    while let Some((p, count)) = walk.next() {
        seen.push((p.x, p.y, *count));
    }
    assert_eq!(seen, vec![(0, 0, 1), (0, 1, 2), (0, 2, 3), (1, 0, 4), (1, 1, 5), (1, 2, 6)]);
    assert_eq!(walk.next(), None);
}

#[test]
fn the_walk_over_an_empty_grid_ends_at_once() {
    let g = Grid::new(0, 5);
    assert_eq!(g.iter().next(), None);
    let g = Grid::new(5, 0);
    assert_eq!(g.iter().next(), None);
}

#[test]
fn the_writing_walk_changes_the_grid() {
    let mut g = Grid::from_vec(vec![vec![1, 2], vec![3, 4], vec![5, 6]]);
    {
        let mut walk = g.iter_mut();
        let mut cells = Vec::new();
        while let Some((p, count)) = walk.next() {
            cells.push((p.x, p.y));
            *count = *count * 10;
        }
        assert_eq!(cells, vec![(0, 0), (0, 1), (1, 0), (1, 1), (2, 0), (2, 1)]);
    }
    assert_eq!(g.to_vec(), vec![vec![10, 20], vec![30, 40], vec![50, 60]]);
}

#[test]
fn the_four_neighbours_of_a_point() {
    let p = Point { x: 3, y: 7 };
    assert_eq!(p.up(), Point { x: 3, y: 8 });
    assert_eq!(p.down(), Point { x: 3, y: 6 });
    assert_eq!(p.left(), Point { x: 2, y: 7 });
    assert_eq!(p.right(), Point { x: 4, y: 7 });
}

#[test]
fn a_symmetric_grid_folds_to_its_upper_triangle() {
    let source = Grid::from_vec(vec![
        vec![0, 1, 2, 3],
        vec![1, 0, 1, 2],
        vec![2, 1, 0, 1],
        vec![3, 2, 1, 0],
    ]);
    let folded = mirror_along_diagonal(&source);
    assert_eq!(folded.width, 2);
    assert_eq!(folded.height, 2);
    // (0,0) from (0,2), (0,1) and (1,0) from (0,3), (1,1) from (1,3).
    assert_eq!(folded.to_vec(), vec![vec![2, 3], vec![3, 2]]);
}

#[test]
fn the_fold_reads_the_upper_triangle_only() {
    let source = Grid::from_vec(vec![
        vec![10, 11, 12, 13],
        vec![20, 21, 22, 23],
        vec![30, 31, 32, 33],
        vec![40, 41, 42, 43],
    ]);
    let folded = mirror_along_diagonal(&source);
    assert_eq!(folded.to_vec(), vec![vec![12, 13], vec![13, 23]]);
}

#[test]
fn the_fold_of_the_smallest_grids() {
    let folded = mirror_along_diagonal(&Grid::from_vec(vec![vec![3]]));
    assert_eq!(folded.width, 0);
    assert_eq!(folded.height, 0);
    assert_eq!(folded.to_vec(), Vec::<Vec<u32>>::new());

    let folded = mirror_along_diagonal(&Grid::from_vec(vec![vec![1, 2], vec![3, 0]]));
    assert_eq!(folded.to_vec(), vec![vec![2]]);

    let folded = mirror_along_diagonal(&Grid::new(0, 0));
    assert_eq!(folded.to_vec(), Vec::<Vec<u32>>::new());
}

#[test]
fn a_random_grid_has_the_asked_extent_and_small_counts() {
    let rows = gen_grid(7, 4);
    assert_eq!(rows.len(), 7);
    for row in &rows {
        assert_eq!(row.len(), 4);
        for &count in row {
            assert!(count < 5);
        }
    }
    assert_eq!(gen_grid(0, 3), Vec::<Vec<u32>>::new());
    assert_eq!(gen_grid(2, 0), vec![Vec::<u32>::new(), Vec::<u32>::new()]);
}

#[test]
fn random_counts_are_not_all_the_same() {
    let rows = gen_grid(40, 40);
    let first = rows[0][0];
    assert!(rows.iter().any(|row| row.iter().any(|&count| count != first)));
}

#[test]
fn inserting_twice_keeps_one() {
    let mut set = UnstableSet::new();
    assert_eq!(set.len(), 0);
    assert!(set.insert(Point { x: 1, y: 2 }));
    assert!(!set.insert(Point { x: 1, y: 2 }));
    assert!(set.insert(Point { x: 2, y: 1 }));
    assert_eq!(set.len(), 2);
}

#[test]
fn removing_what_is_not_there_does_nothing() {
    let mut set = UnstableSet::new();
    set.insert(Point { x: 1, y: 2 });
    assert!(!set.remove(&Point { x: 2, y: 1 }));
    assert_eq!(set.len(), 1);
    assert!(set.remove(&Point { x: 1, y: 2 }));
    assert!(!set.remove(&Point { x: 1, y: 2 }));
    assert_eq!(set.len(), 0);
}

#[test]
fn take_hands_back_the_cell() {
    let mut set = UnstableSet::new();
    set.insert(Point { x: 4, y: 5 });
    assert_eq!(set.take(&Point { x: 5, y: 4 }), None);
    assert_eq!(set.take(&Point { x: 4, y: 5 }), Some(Point { x: 4, y: 5 }));
    assert_eq!(set.take(&Point { x: 4, y: 5 }), None);
    assert_eq!(set.len(), 0);
}

#[test]
fn take_any_empties_the_set() {
    let mut set = UnstableSet::new();
    assert_eq!(set.take_any(), None);
    set.insert(Point { x: 0, y: 0 });
    set.insert(Point { x: 0, y: 1 });
    set.insert(Point { x: 9, y: 9 });
    let mut taken = Vec::new();
    while let Some(p) = set.take_any() {
        taken.push((p.x, p.y));
    }
    taken.sort();
    assert_eq!(taken, vec![(0, 0), (0, 1), (9, 9)]);
    assert_eq!(set.len(), 0);
    assert_eq!(set.take_any(), None);
}

#[test]
fn the_grid_as_text() {
    let g = Grid::from_vec(vec![vec![0, 2, 0], vec![2, 2, 2], vec![0, 2, 0]]);
    assert_eq!(g.to_string(), "0,2,0\n2,2,2\n0,2,0");
}

#[test]
fn counts_of_every_length_are_written_in_decimal() {
    let g = Grid::from_vec(vec![vec![0, 7, 10], vec![409, 1000, 4294967295]]);
    assert_eq!(g.to_string(), "0,7,10\n409,1000,4294967295");
}

#[test]
fn the_text_of_the_smallest_grids() {
    assert_eq!(Grid::new(0, 0).to_string(), "");
    assert_eq!(Grid::new(1, 1).to_string(), "0");
    assert_eq!(Grid::new(1, 3).to_string(), "0\n0\n0");
    assert_eq!(Grid::new(3, 1).to_string(), "0,0,0");
    assert_eq!(Grid::new(0, 3).to_string(), "\n\n");
}

#[test]
fn what_the_text_writes_can_be_read_back() {
    let g = Grid::from_vec(vec![vec![12, 0, 305]]);
    let text = g.to_string();
    let read: Vec<u32> = text.split(',').map(|count| count.parse::<u32>().unwrap()).collect();
    assert_eq!(read, vec![12, 0, 305]);
}
