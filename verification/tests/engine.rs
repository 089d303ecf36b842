use sandpile::engine::{
    add_to_grid, find_unstable_vertex, find_unstable_vertices, maybe_topple, run_iteration,
    topple_vertex, total_grains, try_run_iteration,
};
use sandpile::grid::Grid;
use sandpile::point::Point;
use sandpile::worklist::UnstableSet;

#[test]
fn add_1_to_grid() {
    let r: Vec<Vec<u32>> = vec![vec![0, 1], vec![0, 0]];
    let mut g = Grid::from_vec(r);

    add_to_grid(&mut g, Point { x: 0, y: 1 }, 1);

    let res = g.to_vec();
    assert_eq!(res[0][1], 2);
}

#[test]
fn test_find_unstable_vertices() {
    let r: Vec<Vec<u32>> = vec![vec![0, 0, 4], vec![2, 0, 0], vec![0, 1, 0]];
    let g = Grid::from_vec(r);

    let res = find_unstable_vertex(&g);

    assert_eq!(Some(Point { x: 0, y: 2 }), res);
}

#[test]
fn test_topple_vertex() {
    let r: Vec<Vec<u32>> = vec![vec![0, 0, 4], vec![0, 5, 0], vec![0, 5, 0]];
    let mut g = Grid::from_vec(r);
    let p = Point { x: 1, y: 1 };
    let mut unstables = UnstableSet::new();
    unstables.insert(Point { x: 0, y: 2 });

    topple_vertex(&mut g, &p, &mut unstables);

    let res = g.to_vec();
    assert_eq!(res[1][1], 1);

    topple_vertex(&mut g, &Point { x: 0, y: 2 }, &mut unstables);

    let res2 = g.to_vec();
    assert_eq!(res2[0][2], 0);
}

#[test]
fn test_iteration() {
    let r: Vec<Vec<u32>> = vec![vec![0, 0, 0], vec![0, 10, 0], vec![0, 0, 0]];
    let mut g = Grid::from_vec(r);

    run_iteration(&mut g);

    let res = g.to_vec();

    assert_eq!(res, vec![vec![0, 2, 0], vec![2, 2, 2], vec![0, 2, 0]]);
}

#[test]
fn test_grid_impl() {
    let mut g = Grid::new(10, 10);

    g.set(Point { x: 0, y: 0 }, 1);
    g.set(Point { x: 5, y: 5 }, 2);
    g.set(Point { x: 7, y: 5 }, 3);
    g.set(Point { x: 5, y: 7 }, 4);

    let getted = g.get(Point { x: 0, y: 0 });
    let getted_2 = g.get(Point { x: 5, y: 5 });
    let getted_3 = g.get(Point { x: 7, y: 5 });
    let getted_4 = g.get(Point { x: 5, y: 7 });

    assert_eq!(getted, &1);
    assert_eq!(getted_2, &2);
    assert_eq!(getted_3, &3);
    assert_eq!(getted_4, &4);
}

#[test]
fn test_find_unstable_vertices_set() {
    let mut g = Grid::new(10, 10);
    g.set(Point { x: 0, y: 0 }, 1);
    g.set(Point { x: 5, y: 5 }, 2);
    g.set(Point { x: 7, y: 5 }, 3);
    g.set(Point { x: 5, y: 7 }, 4);

    let mut res = find_unstable_vertices(&g);

    assert_eq!(res.len(), 1);
    let gg = res.take_any();
    assert_eq!(gg.unwrap(), Point { x: 5, y: 7 });
    assert_eq!(res.len(), 0);
}

#[test]
fn deposit_at_centre_of_three_by_three() {
    let mut g = Grid::new(3, 3);
    add_to_grid(&mut g, Point { x: 1, y: 1 }, 10);
    run_iteration(&mut g);
    assert_eq!(g.to_vec(), vec![vec![0, 2, 0], vec![2, 2, 2], vec![0, 2, 0]]);
}

#[test]
fn single_grain_is_already_stable() {
    let mut g = Grid::new(2, 2);
    add_to_grid(&mut g, Point { x: 0, y: 1 }, 1);
    run_iteration(&mut g);
    assert_eq!(g.to_vec(), vec![vec![0, 1], vec![0, 0]]);
}

#[test]
fn four_grains_topple_to_the_neighbours() {
    let mut g = Grid::from_vec(vec![vec![0, 0, 0], vec![0, 4, 0], vec![0, 0, 0]]);
    let mut noted = UnstableSet::new();
    let still = topple_vertex(&mut g, &Point { x: 1, y: 1 }, &mut noted);
    assert!(!still);
    assert_eq!(g.to_vec(), vec![vec![0, 1, 0], vec![1, 0, 1], vec![0, 1, 0]]);
    assert_eq!(noted.len(), 0);
}

#[test]
fn grains_sent_over_the_border_are_lost() {
    let mut g = Grid::from_vec(vec![vec![4, 0, 0], vec![0, 0, 0], vec![0, 0, 0]]);
    let mut noted = UnstableSet::new();
    topple_vertex(&mut g, &Point { x: 0, y: 0 }, &mut noted);
    assert_eq!(g.to_vec(), vec![vec![0, 1, 0], vec![1, 0, 0], vec![0, 0, 0]]);
    assert_eq!(total_grains(&g), Some(2));
}

#[test]
fn topple_on_the_last_row_and_column() {
    let mut g = Grid::from_vec(vec![vec![0, 0], vec![0, 0], vec![0, 9]]);
    let mut noted = UnstableSet::new();
    let still = topple_vertex(&mut g, &Point { x: 2, y: 1 }, &mut noted);
    assert!(still);
    assert_eq!(g.to_vec(), vec![vec![0, 0], vec![0, 1], vec![1, 5]]);
    assert_eq!(noted.len(), 1);
    assert_eq!(noted.take_any(), Some(Point { x: 2, y: 1 }));
}

#[test]
fn topple_notes_the_neighbours_that_reach_four() {
    let mut g = Grid::from_vec(vec![vec![0, 3, 0], vec![3, 4, 2], vec![0, 3, 0]]);
    let mut noted = UnstableSet::new();
    noted.insert(Point { x: 1, y: 1 });
    let still = topple_vertex(&mut g, &Point { x: 1, y: 1 }, &mut noted);
    assert!(!still);
    assert_eq!(g.to_vec(), vec![vec![0, 4, 0], vec![4, 0, 3], vec![0, 4, 0]]);
    assert_eq!(noted.len(), 3);
    assert!(noted.remove(&Point { x: 0, y: 1 }));
    assert!(noted.remove(&Point { x: 1, y: 0 }));
    assert!(noted.remove(&Point { x: 2, y: 1 }));
    assert_eq!(noted.len(), 0);
}

#[test]
fn maybe_topple_adds_one_grain_and_notes_four() {
    let mut g = Grid::from_vec(vec![vec![2, 3]]);
    let mut noted = UnstableSet::new();
    maybe_topple(Point { x: 0, y: 0 }, &mut g, &mut noted);
    assert_eq!(g.to_vec(), vec![vec![3, 3]]);
    assert_eq!(noted.len(), 0);
    maybe_topple(Point { x: 0, y: 1 }, &mut g, &mut noted);
    assert_eq!(g.to_vec(), vec![vec![3, 4]]);
    assert_eq!(noted.take_any(), Some(Point { x: 0, y: 1 }));
}

#[test]
fn grains_left_and_grains_lost_add_up() {
    // One cell, seven grains: one toppling, and all four grains leave.
    let mut g = Grid::from_vec(vec![vec![7]]);
    run_iteration(&mut g);
    assert_eq!(g.to_vec(), vec![vec![3]]);
    assert_eq!(total_grains(&g), Some(7 - 4));

    // Ten grains in the middle never reach the border: none is lost.
    let mut g = Grid::from_vec(vec![vec![0, 0, 0], vec![0, 10, 0], vec![0, 0, 0]]);
    run_iteration(&mut g);
    assert_eq!(total_grains(&g), Some(10));

    // Sixteen grains do: each of the four cells beside the middle topples
    // once and loses one grain over the border.
    let mut g = Grid::from_vec(vec![vec![0, 0, 0], vec![0, 16, 0], vec![0, 0, 0]]);
    run_iteration(&mut g);
    assert_eq!(g.to_vec(), vec![vec![2, 1, 2], vec![1, 0, 1], vec![2, 1, 2]]);
    assert_eq!(total_grains(&g), Some(16 - 4));
}

#[test]
fn every_cell_ends_below_four() {
    let mut g = Grid::from_vec(vec![
        vec![9, 0, 7, 3],
        vec![4, 4, 4, 4],
        vec![0, 25, 1, 2],
        vec![3, 3, 3, 30],
    ]);
    run_iteration(&mut g);
    for x in 0..6 {
        for y in 0..6 {
            assert!(*g.get(Point { x, y }) < 4);
        }
    }
    assert_eq!(find_unstable_vertices(&g).len(), 0);
    assert_eq!(find_unstable_vertex(&g), None);
}

fn topple_in_order(rows: Vec<Vec<u32>>, order: &[(usize, usize)]) -> Vec<Vec<u32>> {
    let mut g = Grid::from_vec(rows);
    let mut noted = UnstableSet::new();
    for &(x, y) in order {
        let p = Point { x, y };
        assert!(*g.get(p) >= 4);
        topple_vertex(&mut g, &p, &mut noted);
    }
    g.to_vec()
}

#[test]
fn the_order_of_topplings_does_not_show() {
    let rows = vec![vec![4, 4, 0], vec![0, 3, 0], vec![0, 0, 0]];
    // (0,0) first, then (0,1), then (0,0) is refilled to 1 only: done after
    // (1,1) topples as well.
    let one = topple_in_order(rows.clone(), &[(0, 0), (0, 1), (1, 1)]);
    let other = topple_in_order(rows.clone(), &[(0, 1), (1, 1), (0, 0)]);
    assert_eq!(one, other);

    let mut g = Grid::from_vec(rows);
    run_iteration(&mut g);
    assert_eq!(g.to_vec(), one);
    assert_eq!(one, vec![vec![1, 2, 1], vec![2, 0, 1], vec![0, 1, 0]]);
}

#[test]
fn a_stable_grid_stays_as_it_is() {
    let rows = vec![vec![3, 2, 1], vec![0, 3, 3], vec![1, 1, 0]];
    let mut g = Grid::from_vec(rows.clone());
    run_iteration(&mut g);
    assert_eq!(g.to_vec(), rows);

    let mut g = Grid::from_vec(vec![vec![0, 0, 0], vec![0, 37, 0], vec![0, 0, 0]]);
    run_iteration(&mut g);
    let once = g.to_vec();
    run_iteration(&mut g);
    assert_eq!(g.to_vec(), once);
}

#[test]
fn stabilising_a_grid_that_is_not_square() {
    let mut g = Grid::from_vec(vec![vec![0, 0, 0, 5], vec![0, 0, 0, 0]]);
    assert_eq!(g.width, 4);
    assert_eq!(g.height, 2);
    run_iteration(&mut g);
    assert_eq!(g.to_vec(), vec![vec![0, 0, 1, 1], vec![0, 0, 0, 1]]);
}

#[test]
fn an_empty_grid_has_nothing_to_topple() {
    let mut g = Grid::new(0, 0);
    run_iteration(&mut g);
    assert_eq!(g.to_vec(), Vec::<Vec<u32>>::new());
    assert_eq!(find_unstable_vertex(&g), None);
    assert_eq!(total_grains(&g), Some(0));
}

#[test]
fn all_unstable_cells_are_found() {
    let g = Grid::from_vec(vec![vec![4, 3, 9], vec![0, 0, 0], vec![0, 100, 3]]);
    let mut found = find_unstable_vertices(&g);
    assert_eq!(found.len(), 3);
    assert!(found.remove(&Point { x: 0, y: 0 }));
    assert!(found.remove(&Point { x: 0, y: 2 }));
    assert!(found.remove(&Point { x: 2, y: 1 }));
    assert_eq!(found.take_any(), None);
}

#[test]
fn the_search_from_the_middle_meets_the_nearest_ring_first() {
    // The middle of a 5 by 5 grid is (2, 2).
    let mut g = Grid::new(5, 5);
    g.set(Point { x: 0, y: 0 }, 7);
    g.set(Point { x: 3, y: 2 }, 4);
    g.set(Point { x: 4, y: 4 }, 4);
    assert_eq!(find_unstable_vertex(&g), Some(Point { x: 3, y: 2 }));

    // Within a ring the smaller y comes first, then the smaller x.
    let mut g = Grid::new(5, 5);
    g.set(Point { x: 1, y: 3 }, 4);
    g.set(Point { x: 3, y: 1 }, 4);
    g.set(Point { x: 2, y: 1 }, 4);
    assert_eq!(find_unstable_vertex(&g), Some(Point { x: 2, y: 1 }));

    g.set(Point { x: 2, y: 2 }, 4);
    assert_eq!(find_unstable_vertex(&g), Some(Point { x: 2, y: 2 }));
}

#[test]
fn the_search_covers_a_grid_that_is_not_square() {
    let g = Grid::from_vec(vec![vec![0, 0, 0, 0, 0, 0, 6]]);
    assert_eq!(find_unstable_vertex(&g), Some(Point { x: 0, y: 6 }));
    let g = Grid::from_vec(vec![vec![0], vec![0], vec![0], vec![0], vec![5]]);
    assert_eq!(find_unstable_vertex(&g), Some(Point { x: 4, y: 0 }));
    let g = Grid::from_vec(vec![vec![3, 3, 3], vec![3, 3, 3]]);
    assert_eq!(find_unstable_vertex(&g), None);
}

#[test]
fn grains_are_counted_or_found_too_many() {
    let g = Grid::from_vec(vec![vec![1, 2, 3], vec![4, 5, 6]]);
    assert_eq!(total_grains(&g), Some(21));
    let g = Grid::from_vec(vec![vec![u32::MAX, 0], vec![0, 0]]);
    assert_eq!(total_grains(&g), Some(u32::MAX));
    let g = Grid::from_vec(vec![vec![u32::MAX, 0], vec![0, 1]]);
    assert_eq!(total_grains(&g), None);
}

#[test]
fn a_deposit_adds_to_what_is_there() {
    let mut g = Grid::new(3, 2);
    add_to_grid(&mut g, Point { x: 1, y: 2 }, 5);
    add_to_grid(&mut g, Point { x: 1, y: 2 }, 6);
    assert_eq!(g.to_vec(), vec![vec![0, 0, 0], vec![0, 0, 11]]);
}

#[test]
fn a_grid_that_can_be_run_is_run() {
    let mut g = Grid::from_vec(vec![vec![0, 0, 0], vec![0, 10, 0], vec![0, 0, 0]]);
    assert!(try_run_iteration(&mut g));
    assert_eq!(g.to_vec(), vec![vec![0, 2, 0], vec![2, 2, 2], vec![0, 2, 0]]);
}

#[test]
fn a_grid_with_too_many_grains_is_left_alone() {
    let mut g = Grid::from_vec(vec![vec![u32::MAX, 9], vec![0, 0]]);
    assert!(!try_run_iteration(&mut g));
    assert_eq!(g.to_vec(), vec![vec![u32::MAX, 9], vec![0, 0]]);
}

#[test]
fn a_grid_with_ragged_rows_is_left_alone() {
    let mut g = Grid::from_vec(vec![vec![9, 9, 9], vec![9]]);
    assert_eq!(g.width, 3);
    assert_eq!(g.height, 2);
    assert!(!try_run_iteration(&mut g));
    assert_eq!(g.array, vec![9, 9, 9, 9]);
}

#[test]
fn other_cells_keep_their_counts_when_one_topples() {
    let mut g = Grid::from_vec(vec![
        vec![1, 2, 3, 1],
        vec![3, 6, 2, 2],
        vec![1, 3, 3, 0],
    ]);
    let mut noted = UnstableSet::new();
    topple_vertex(&mut g, &Point { x: 1, y: 1 }, &mut noted);
    assert_eq!(g.width, 4);
    assert_eq!(g.height, 3);
    assert_eq!(g.to_vec(), vec![vec![1, 3, 3, 1], vec![4, 2, 3, 2], vec![1, 4, 3, 0]]);
}

#[test]
fn a_grain_sent_over_the_border_does_not_wrap_into_the_next_row() {
    // The last cell of the first row: the next entry of the store is the
    // first cell of the second row, and stays as it is.
    let mut g = Grid::from_vec(vec![vec![0, 0, 4], vec![0, 0, 0], vec![0, 0, 0]]);
    let mut noted = UnstableSet::new();
    topple_vertex(&mut g, &Point { x: 0, y: 2 }, &mut noted);
    assert_eq!(g.to_vec(), vec![vec![0, 1, 0], vec![0, 0, 1], vec![0, 0, 0]]);

    // The first cell of the second row: the entry before it is the last
    // cell of the first row.
    let mut g = Grid::from_vec(vec![vec![0, 0, 0], vec![4, 0, 0], vec![0, 0, 0]]);
    topple_vertex(&mut g, &Point { x: 1, y: 0 }, &mut noted);
    assert_eq!(g.to_vec(), vec![vec![1, 0, 0], vec![0, 1, 0], vec![1, 0, 0]]);
}

#[test]
fn running_twice_is_running_once() {
    let mut g = Grid::new(6, 6);
    add_to_grid(&mut g, Point { x: 2, y: 2 }, 500);
    run_iteration(&mut g);
    let once = g.to_vec();
    run_iteration(&mut g);
    assert_eq!(g.to_vec(), once);
    assert_eq!(g.width, 6);
    assert_eq!(g.height, 6);
    assert!(try_run_iteration(&mut g));
    assert_eq!(g.to_vec(), once);
}
