//! Folding a symmetric grid to a quarter of its size.
use vstd::prelude::*;
use crate::grid::Grid;
use crate::pile::lemma_offset_in_range;
use crate::point::Point;

verus! {

/// What the cell `(a, b)` of the folded grid holds: the count read in the
/// source, in the smaller of the two rows `a` and `b`, `half` cells to the
/// right of the larger of the two.
pub open spec fn folded(source: &Grid, half: int, a: int, b: int) -> int {
    if a <= b {
        source@.get(a, b + half)
    } else {
        source@.get(b, a + half)
    }
}

/// Folds a square grid of side `n` along its diagonal to a grid of side
/// `n / 2`.
///
/// Of the source only the rows `0` to `n / 2 - 1` are read, and of the row
/// `i` only the cells from `n / 2 + i` to the right. Each count read goes to
/// two cells of the result that mirror each other in its diagonal. The side
/// must be even, or one: with any other odd side the fold does not fit.
pub fn mirror_along_diagonal(grid: &Grid) -> (folded_grid: Grid)
    requires
        grid.wf(),
        grid.width == grid.height,
        grid.width % 2 == 0 || grid.width == 1,
    ensures
        folded_grid.wf(),
        folded_grid.width == grid.width / 2,
        folded_grid.height == grid.width / 2,
        forall|a: int, b: int|
            0 <= a < grid.width / 2 && 0 <= b < grid.width / 2 ==> #[trigger] folded_grid@.at(a, b)
                == folded(grid, (grid.width / 2) as int, a, b),
{
    let n = grid.width;
    let half = n / 2;
    let len = grid.array.len();
    assert(half * half <= len) by (nonlinear_arith)
        requires
            0 <= half <= n,
            len == n * n,
    ;
    let mut new_grid = Grid::new(half, half);
    let mut i: usize = 0;
    while i < half
        invariant
            n == grid.width,
            half == n / 2,
            n % 2 == 0 || n == 1,
            i <= half,
            new_grid.wf(),
            new_grid.width == half,
            new_grid.height == half,
            forall|a: int, b: int|
                0 <= a < half && 0 <= b < half && (a < i || b < i) ==> #[trigger] new_grid@.at(a, b)
                    == folded(grid, half as int, a, b),
        decreases half - i,
    {
        let mut j: usize = half + i;
        while j < n
            invariant
                n == grid.width,
                half == n / 2,
                n % 2 == 0 || n == 1,
                i < half,
                half + i <= j <= n,
                new_grid.wf(),
                new_grid.width == half,
                new_grid.height == half,
                forall|a: int, b: int|
                    0 <= a < half && 0 <= b < half && (a < i || b < i || (a == i && b < j - half)
                        || (b == i && a < j - half)) ==> #[trigger] new_grid@.at(a, b) == folded(
                        grid,
                        half as int,
                        a,
                        b,
                    ),
            decreases n - j,
        {
            let val = *grid.get(Point { x: i, y: j });
            let ghost before = new_grid@;
            let ghost k = j - half;
            proof {
                lemma_offset_in_range(half as nat, half as nat, i as int, k);
                lemma_offset_in_range(half as nat, half as nat, k, i as int);
            }
            new_grid.set(Point { x: i, y: j - half }, val);
            let ghost between = new_grid@;
            new_grid.set(Point { x: j - half, y: i }, val);
            proof {
                assert forall|a: int, b: int|
                    0 <= a < half && 0 <= b < half && (a < i || b < i || (a == i && b < j + 1
                        - half) || (b == i && a < j + 1 - half)) implies #[trigger] new_grid@.at(
                    a,
                    b,
                ) == folded(grid, half as int, a, b) by {
                    before.lemma_put_at(i as int, k, val as int, a, b);
                    between.lemma_put_at(k, i as int, val as int, a, b);
                    assert(before.at(a, b) == folded(grid, half as int, a, b) || (a == i && b == k)
                        || (a == k && b == i));
                }
            }
            j += 1;
        }
        i += 1;
    }
    new_grid
}

} // verus!
