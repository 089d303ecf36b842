//! Deposits, topplings and the run to a stable grid.
use vstd::prelude::*;
use crate::grid::Grid;
use crate::pile::{gain, lemma_offset_in_range, lemma_offset_injective, Pile};
use crate::point::Point;
use crate::sums::{lemma_sum_covers_two, lemma_weighted_sum_prefix, unit_weight, weighted_sum};
use crate::worklist::UnstableSet;

verus! {

/// The cells of `pile` that hold four grains or more.
pub open spec fn unstable_cells(pile: Pile) -> Set<Point> {
    Set::new(|p: Point| pile.unstable_at(p.x as int, p.y as int))
}

/// `q` is one of the four cardinal neighbours of `p`.
pub open spec fn adjacent(p: Point, q: Point) -> bool {
    gain(p.x as int, p.y as int, q.x as int, q.y as int) == 1
}

/// Every neighbour of `(x, y)` that exists can take one grain more without
/// its count leaving the range of `u32`.
pub open spec fn neighbours_have_room(pile: Pile, x: int, y: int) -> bool {
    &&& pile.inside(x - 1, y) ==> pile.at(x - 1, y) < u32::MAX
    &&& pile.inside(x + 1, y) ==> pile.at(x + 1, y) < u32::MAX
    &&& pile.inside(x, y - 1) ==> pile.at(x, y - 1) < u32::MAX
    &&& pile.inside(x, y + 1) ==> pile.at(x, y + 1) < u32::MAX
}

/// Deposits `amount` grains on the cell `p`.
pub fn add_to_grid(grid: &mut Grid, p: Point, amount: u32)
    requires
        old(grid)@.stored(p.x as int, p.y as int),
        old(grid)@.at(p.x as int, p.y as int) + amount <= u32::MAX,
    ensures
        final(grid).width == old(grid).width,
        final(grid).height == old(grid).height,
        final(grid).array@.len() == old(grid).array@.len(),
        final(grid)@ == old(grid)@.add(p.x as int, p.y as int, amount as int),
{
    let count = *grid.get(p);
    grid.set(p, count + amount);
}

/// All grains of the grid, or `None` if they are more than a `u32` can
/// count.
pub fn total_grains(grid: &Grid) -> (total: Option<u32>)
    ensures
        match total {
            Some(grains) => grains == grid@.total(),
            None => grid@.total() > u32::MAX,
        },
{
    let ghost cells = grid@.cells;
    let mut grains: u32 = 0;
    let mut i: usize = 0;
    assert(cells.take(0) =~= Seq::<int>::empty());
    while i < grid.array.len()
        invariant
            cells == grid@.cells,
            i <= grid.array@.len(),
            grains == weighted_sum(cells.take(i as int), unit_weight()),
        decreases grid.array@.len() - i,
    {
        proof {
            let longer = cells.take(i + 1);
            assert(longer.drop_last() =~= cells.take(i as int));
            assert(longer.last() == grid.array@[i as int]);
            assert(longer.last() * unit_weight()(longer.len() - 1) == longer.last())
                by (nonlinear_arith)
                requires
                    unit_weight()(longer.len() - 1) == 1,
            ;
            assert(weighted_sum(longer, unit_weight()) == grains + grid.array@[i as int]);
        }
        match grains.checked_add(grid.array[i]) {
            Some(sum) => {
                grains = sum;
            },
            None => {
                proof {
                    lemma_weighted_sum_prefix(cells, unit_weight(), i + 1);
                }
                return None;
            },
        }
        i += 1;
    }
    assert(cells.take(i as int) =~= cells);
    Some(grains)
}

/// All cells of the grid that hold four grains or more.
pub fn find_unstable_vertices(grid: &Grid) -> (points: UnstableSet)
    requires
        grid.wf(),
    ensures
        points@ == unstable_cells(grid@),
        points@.finite(),
{
    let mut points = UnstableSet::new();
    let mut walk = grid.iter();
    let ghost pile = grid@;
    loop
        invariant_except_break
            grid.wf(),
            pile == grid@,
            walk.grid == grid,
            points@.finite(),
            forall|q: Point|
                points@.contains(q) <==> pile.unstable_at(q.x as int, q.y as int) && pile.offset(
                    q.x as int,
                    q.y as int,
                ) < walk.index,
        ensures
            points@ == unstable_cells(grid@),
            points@.finite(),
        decreases grid.array@.len() - walk.index,
    {
        match walk.next() {
            Some((point, value)) => {
                if *value >= 4 {
                    points.insert(point);
                }
                proof {
                    assert forall|q: Point|
                        points@.contains(q) <==> pile.unstable_at(q.x as int, q.y as int)
                            && pile.offset(q.x as int, q.y as int) < walk.index by {
                        if pile.inside(q.x as int, q.y as int) && pile.offset(
                            q.x as int,
                            q.y as int,
                        ) == pile.offset(point.x as int, point.y as int) {
                            lemma_offset_injective(
                                pile.width,
                                q.x as int,
                                q.y as int,
                                point.x as int,
                                point.y as int,
                            );
                        }
                    }
                }
            },
            None => {
                proof {
                    assert forall|q: Point|
                        points@.contains(q) <==> unstable_cells(pile).contains(q) by {
                        if pile.inside(q.x as int, q.y as int) {
                            lemma_offset_in_range(pile.width, pile.height, q.x as int, q.y as int);
                        }
                    }
                    assert(points@ =~= unstable_cells(pile));
                }
                break ;
            },
        }
    }
    points
}

/// How far `position` lies from `middle`.
pub open spec fn distance(position: int, middle: int) -> int {
    if position >= middle {
        position - middle
    } else {
        middle - position
    }
}

/// The ring of the cell `q` around the middle of the grid: the larger of its
/// two distances from the cell `(height / 2, width / 2)`.
pub open spec fn ring(grid: &Grid, q: Point) -> int {
    let dx = distance(q.x as int, (grid.height / 2) as int);
    let dy = distance(q.y as int, (grid.width / 2) as int);
    if dx >= dy {
        dx
    } else {
        dy
    }
}

/// `q` is a cell of the grid at which four grains or more are read.
pub open spec fn hot(grid: &Grid, q: Point) -> bool {
    q.x < grid.height && q.y < grid.width && grid@.get(q.x as int, q.y as int) >= 4
}

/// `p` is met no later than `q` by a search that goes ring by ring from the
/// middle outwards, within a ring by rising `y`, and for one `y` by rising
/// `x`.
pub open spec fn met_first(grid: &Grid, p: Point, q: Point) -> bool {
    ring(grid, p) < ring(grid, q) || (ring(grid, p) == ring(grid, q) && (p.y < q.y || (p.y == q.y
        && p.x <= q.x)))
}

/// Searches the grid from its middle outwards for an unstable cell, and
/// hands back the first that it meets, or `None` if there is none.
pub fn find_unstable_vertex(grid: &Grid) -> (found: Option<Point>)
    ensures
        match found {
            Some(p) => hot(grid, p) && forall|q: Point| hot(grid, q) ==> met_first(grid, p, q),
            None => forall|q: Point| !hot(grid, q),
        },
{
    let rows = grid.width;
    if rows == 0 {
        return None;
    }
    let cols = grid.height;
    let (mid_y, mid_x) = (rows / 2, cols / 2);
    let max_radius = if mid_y >= mid_x {
        mid_y
    } else {
        mid_x
    };

    let mut r: usize = 0;
    while r <= max_radius
        invariant
            rows == grid.width,
            cols == grid.height,
            mid_y == rows / 2,
            mid_x == cols / 2,
            max_radius >= mid_y,
            max_radius >= mid_x,
            max_radius <= usize::MAX / 2,
            r <= max_radius + 1,
            forall|q: Point| hot(grid, q) ==> ring(grid, q) >= r,
        decreases max_radius + 1 - r,
    {
        let y_first = if mid_y >= r {
            mid_y - r
        } else {
            0
        };
        let y_last = mid_y + r;
        let mut y: usize = y_first;
        while y <= y_last
            invariant
                rows == grid.width,
                cols == grid.height,
                mid_y == rows / 2,
                mid_x == cols / 2,
                r <= max_radius <= usize::MAX / 2,
                max_radius >= mid_x,
                y_last == mid_y + r,
                y_first <= y <= y_last + 1,
                y_first == if mid_y >= r {
                    mid_y - r
                } else {
                    0
                },
                forall|q: Point| hot(grid, q) ==> ring(grid, q) >= r,
                forall|q: Point| hot(grid, q) && ring(grid, q) == r ==> q.y >= y,
            decreases y_last + 1 - y,
        {
            let x_first = if mid_x >= r {
                mid_x - r
            } else {
                0
            };
            let x_last = mid_x + r;
            let mut x: usize = x_first;
            while x <= x_last
                invariant
                    rows == grid.width,
                    cols == grid.height,
                    mid_y == rows / 2,
                    mid_x == cols / 2,
                    r <= usize::MAX / 2,
                    x_last == mid_x + r,
                    x_first <= x <= x_last + 1,
                    x_first == if mid_x >= r {
                        mid_x - r
                    } else {
                        0
                    },
                    if mid_y >= r {
                        mid_y - r
                    } else {
                        0
                    } <= y <= mid_y + r,
                    forall|q: Point| hot(grid, q) ==> ring(grid, q) >= r,
                    forall|q: Point| hot(grid, q) && ring(grid, q) == r ==> q.y >= y,
                    forall|q: Point| hot(grid, q) && ring(grid, q) == r && q.y == y ==> q.x >= x,
                decreases x_last + 1 - x,
            {
                if x < cols && y < rows {
                    let val = grid.get(Point { x, y });
                    if *val >= 4 {
                        return Some(Point { x, y });
                    }
                }
                x += 1;
            }
            y += 1;
        }
        r += 1;
    }
    None
}

/// Gives the cell `p` one grain, and notes it in `unstable_points` if it
/// holds four or more afterwards.
pub fn maybe_topple(p: Point, grid: &mut Grid, unstable_points: &mut UnstableSet)
    requires
        old(grid)@.stored(p.x as int, p.y as int),
        old(grid)@.at(p.x as int, p.y as int) < u32::MAX,
    ensures
        final(grid).width == old(grid).width,
        final(grid).height == old(grid).height,
        final(grid).array@.len() == old(grid).array@.len(),
        final(grid)@ == old(grid)@.add(p.x as int, p.y as int, 1),
        final(unstable_points)@ == if old(grid)@.at(p.x as int, p.y as int) + 1 >= 4 {
            old(unstable_points)@.insert(p)
        } else {
            old(unstable_points)@
        },
{
    let max_sands: u32 = 4;
    let new_val = *grid.get(p) + 1;
    grid.set(p, new_val);
    if new_val >= max_sands {
        unstable_points.insert(p);
    }
}

/// Topples the cell `p`: takes four grains from it and gives one to each
/// neighbour that exists. Every other cell keeps its count, and a grain sent
/// over the border goes nowhere. A neighbour that holds four or more
/// afterwards is noted in `unstable_points`; `p` itself is noted there if it
/// still holds four or more, and struck from there if it does not. The
/// result tells whether `p` is still unstable.
///
/// A neighbour that holds as many grains as a `u32` can count has no room
/// for one more: such a grid is not taken.
pub fn topple_vertex(grid: &mut Grid, p: &Point, unstable_points: &mut UnstableSet) -> (still:
    bool)
    requires
        old(grid).wf(),
        old(grid)@.unstable_at(p.x as int, p.y as int),
        neighbours_have_room(old(grid)@, p.x as int, p.y as int),
    ensures
        final(grid).wf(),
        final(grid).width == old(grid).width,
        final(grid).height == old(grid).height,
        final(grid)@ == old(grid)@.topple(p.x as int, p.y as int),
        forall|x: int, y: int|
            old(grid)@.inside(x, y) ==> #[trigger] final(grid)@.at(x, y) == old(grid)@.at(x, y)
                + gain(p.x as int, p.y as int, x, y),
        still == (final(grid)@.at(p.x as int, p.y as int) >= 4),
        forall|q: Point|
            #[trigger] final(unstable_points)@.contains(q) <==> if q == *p {
                still
            } else {
                old(unstable_points)@.contains(q) || (adjacent(*p, q) && final(grid)@.unstable_at(
                    q.x as int,
                    q.y as int,
                ))
            },
{
    let ghost start = grid@;
    let ghost (x, y) = (p.x as int, p.y as int);
    proof {
        lemma_offset_in_range(start.width, start.height, x, y);
    }
    let val = *grid.get(*p);
    let max_sands: u32 = 4;
    let new_val = val - max_sands;

    if new_val < 4 {
        unstable_points.remove(p);
    } else {
        unstable_points.insert(*p);
    }

    let pos_x = p.x;
    let pos_y = p.y;

    if pos_x >= 1 {
        let pleft = p.left();
        proof {
            lemma_offset_in_range(start.width, start.height, x - 1, y);
        }
        maybe_topple(pleft, grid, unstable_points);
    }
    let ghost after_left = grid@;
    assert(after_left == start.pour(x - 1, y));
    proof {
        if start.inside(x + 1, y) {
            start.lemma_pour_at(x - 1, y, x + 1, y);
        }
    }
    if pos_x + 1 < grid.height {
        let pright = p.right();
        proof {
            lemma_offset_in_range(start.width, start.height, x + 1, y);
        }
        maybe_topple(pright, grid, unstable_points);
    }
    let ghost after_right = grid@;
    assert(after_right == after_left.pour(x + 1, y));
    proof {
        if start.inside(x, y - 1) {
            start.lemma_pour_at(x - 1, y, x, y - 1);
            after_left.lemma_pour_at(x + 1, y, x, y - 1);
        }
    }
    if pos_y >= 1 {
        let pdown = p.down();
        proof {
            lemma_offset_in_range(start.width, start.height, x, y - 1);
        }
        maybe_topple(pdown, grid, unstable_points);
    }
    let ghost after_down = grid@;
    assert(after_down == after_right.pour(x, y - 1));
    proof {
        if start.inside(x, y + 1) {
            start.lemma_pour_at(x - 1, y, x, y + 1);
            after_left.lemma_pour_at(x + 1, y, x, y + 1);
            after_right.lemma_pour_at(x, y - 1, x, y + 1);
        }
    }
    if pos_y + 1 < grid.width {
        let pup = p.up();
        proof {
            lemma_offset_in_range(start.width, start.height, x, y + 1);
        }
        maybe_topple(pup, grid, unstable_points);
    }
    let ghost after_up = grid@;
    assert(after_up == after_down.pour(x, y + 1));
    grid.set(*p, new_val);

    proof {
        start.lemma_topple_by_pours(x, y);
        let end = start.topple(x, y);
        assert(grid@ == end);
        start.lemma_topple_at(x, y, x, y);
        assert forall|cx: int, cy: int| start.inside(cx, cy) implies #[trigger] end.at(cx, cy)
            == start.at(cx, cy) + gain(x, y, cx, cy) by {
            start.lemma_topple_at(x, y, cx, cy);
        }
        assert forall|q: Point|
            #[trigger] unstable_points@.contains(q) <==> if q == *p {
                new_val >= 4
            } else {
                old(unstable_points)@.contains(q) || (adjacent(*p, q) && end.unstable_at(
                    q.x as int,
                    q.y as int,
                ))
            } by {
            if start.inside(q.x as int, q.y as int) {
                start.lemma_topple_at(x, y, q.x as int, q.y as int);
            }
        }
    }
    new_val >= max_sands
}

/// Topples unstable cells until none is left.
///
/// The grid ends in the one stable pile that its pile comes to, whatever the
/// order in which the cells were taken. A grid that is stable already is
/// left as it is. On any other grid the grains must fit into a `u32` when
/// counted together, so that no cell can overflow on the way.
pub fn run_iteration(grid: &mut Grid)
    requires
        old(grid).wf(),
        old(grid)@.stable() || old(grid)@.total() <= u32::MAX,
    ensures
        final(grid).wf(),
        final(grid).width == old(grid).width,
        final(grid).height == old(grid).height,
        old(grid)@.stabilizes_to(final(grid)@),
        final(grid)@.stable(),
        forall|p: Point| final(grid)@.get(p.x as int, p.y as int) < 4,
        old(grid)@.stable() ==> final(grid)@ == old(grid)@,
        final(grid)@.total() <= old(grid)@.total(),
{
    let mut all_unstables = find_unstable_vertices(grid);
    let ghost start = grid@;
    let ghost mut sites = Seq::<(int, int)>::empty();
    loop
        invariant_except_break
            grid.wf(),
            grid.width == old(grid).width,
            grid.height == old(grid).height,
            start == old(grid)@,
            start.wf(),
            start.stable() || start.total() <= u32::MAX,
            start.legal(sites),
            start.after(sites) == grid@,
            all_unstables@ == unstable_cells(grid@),
        ensures
            grid.wf(),
            grid.width == old(grid).width,
            grid.height == old(grid).height,
            start == old(grid)@,
            start.wf(),
            start.legal(sites),
            start.after(sites) == grid@,
            grid@.stable(),
        decreases grid@.energy(),
    {
        let ghost before = grid@;
        match all_unstables.take_any() {
            None => {
                proof {
                    assert forall|x: int, y: int| !before.unstable_at(x, y) by {
                        if before.unstable_at(x, y) {
                            let q = Point { x: x as usize, y: y as usize };
                            assert(unstable_cells(before).contains(q));
                        }
                    }
                    before.lemma_stable_by_cells();
                }
                break ;
            },
            Some(p) => {
                let ghost (x, y) = (p.x as int, p.y as int);
                proof {
                    assert(unstable_cells(before).contains(p));
                    if start.stable() {
                        start.lemma_stable_is_fixed(sites);
                        start.lemma_stable_by_cells();
                    }
                    start.lemma_conservation(sites);
                    lemma_room_for_topple(before, x, y);
                    before.lemma_measures_nonnegative();
                    before.lemma_topple_measures(x, y);
                }
                topple_vertex(grid, &p, &mut all_unstables);
                proof {
                    start.lemma_legal_push(sites, x, y);
                    sites = sites.push((x, y));
                    let now = grid@;
                    assert forall|q: Point|
                        all_unstables@.contains(q) <==> unstable_cells(now).contains(q) by {
                        if before.inside(q.x as int, q.y as int) {
                            before.lemma_topple_at(x, y, q.x as int, q.y as int);
                        }
                    }
                    assert(all_unstables@ =~= unstable_cells(now));
                    now.lemma_measures_nonnegative();
                }
            },
        }
    }
    proof {
        let end = grid@;
        assert(start.legal(sites) && start.after(sites) == end);
        assert forall|p: Point| end.get(p.x as int, p.y as int) < 4 by {
            if end.stored(p.x as int, p.y as int) {
                assert(end.cells[end.offset(p.x as int, p.y as int)] < 4);
            }
        }
        if start.stable() {
            start.lemma_stable_is_fixed(sites);
        }
        start.lemma_conservation(sites);
    }
}

/// Topples unstable cells until none is left, if the grid has one entry
/// per cell and is stable already or holds no more grains than a `u32` can
/// count. Any other grid is left as it is. The result tells whether the grid
/// was run.
pub fn try_run_iteration(grid: &mut Grid) -> (ran: bool)
    ensures
        ran == (old(grid).wf() && (old(grid)@.stable() || old(grid)@.total() <= u32::MAX)),
        ran ==> final(grid).wf() && final(grid).width == old(grid).width && final(grid).height
            == old(grid).height && old(grid)@.stabilizes_to(final(grid)@),
        !ran ==> *final(grid) == *old(grid),
{
    let stored = grid.array.len();
    let cells = match grid.width.checked_mul(grid.height) {
        Some(cells) => cells,
        None => {
            return false;
        },
    };
    if stored != cells {
        return false;
    }
    if total_grains(grid).is_none() {
        let mut waiting = find_unstable_vertices(grid);
        let first = waiting.take_any();
        proof {
            let pile = grid@;
            pile.lemma_stable_by_cells();
            if first is None {
                assert forall|x: int, y: int| !pile.unstable_at(x, y) by {
                    if pile.unstable_at(x, y) {
                        let q = Point { x: x as usize, y: y as usize };
                        assert(unstable_cells(pile).contains(q));
                    }
                }
            }
        }
        if first.is_some() {
            return false;
        }
    }
    run_iteration(grid);
    true
}

/// In a well-formed pile whose grains fit into a `u32` when counted
/// together, the neighbours of an unstable cell have room for one grain
/// more.
pub proof fn lemma_room_for_topple(pile: Pile, x: int, y: int)
    requires
        pile.wf(),
        pile.total() <= u32::MAX,
        pile.unstable_at(x, y),
    ensures
        neighbours_have_room(pile, x, y),
{
    lemma_offset_in_range(pile.width, pile.height, x, y);
    lemma_neighbour_below_total(pile, x, y, x - 1, y);
    lemma_neighbour_below_total(pile, x, y, x + 1, y);
    lemma_neighbour_below_total(pile, x, y, x, y - 1);
    lemma_neighbour_below_total(pile, x, y, x, y + 1);
}

/// Two different cells of a well-formed pile hold, together, no more than
/// all grains of the pile.
proof fn lemma_neighbour_below_total(pile: Pile, x: int, y: int, nx: int, ny: int)
    requires
        pile.wf(),
        pile.inside(x, y),
        (nx, ny) != (x, y),
    ensures
        pile.inside(nx, ny) ==> pile.at(x, y) + pile.at(nx, ny) <= pile.total(),
{
    if pile.inside(nx, ny) {
        lemma_offset_in_range(pile.width, pile.height, x, y);
        lemma_offset_in_range(pile.width, pile.height, nx, ny);
        if pile.offset(x, y) == pile.offset(nx, ny) {
            lemma_offset_injective(pile.width, x, y, nx, ny);
        }
        lemma_sum_covers_two(pile.cells, pile.offset(x, y), pile.offset(nx, ny));
    }
}

} // verus!
