//! The dense field of grain counts.
use vstd::prelude::*;
use crate::pile::{lemma_offset_cell, lemma_offset_in_range, Pile};
use crate::point::Point;

verus! {

/// A `width` by `height` field of grain counts, kept in one flat store.
///
/// The count of the cell `p` lies at `p.x * width + p.y`.
pub struct Grid {
    pub array: Vec<u32>,
    pub width: usize,
    pub height: usize,
}

/// A walk over the cells of a grid in the order of its store: row after row,
/// and each row from its first cell to its last.
pub struct GridIter<'a> {
    pub grid: &'a Grid,
    /// The offset of the cell that comes next.
    pub index: usize,
}

/// A walk over the cells of a grid, in the order of its store, that hands
/// out each count for writing.
pub struct GridIterMut<'a> {
    pub grid: &'a mut Grid,
    /// The offset of the cell that comes next.
    pub index: usize,
}

/// The cell whose count lies at `index` in a store with rows of `width`
/// cells.
pub open spec fn cell_at(width: usize, index: usize) -> Point {
    Point { x: (index / width) as usize, y: (index % width) as usize }
}

/// The rows that a vector of vectors holds.
pub open spec fn rows_of(rows: Seq<Vec<u32>>) -> Seq<Seq<u32>> {
    rows.map_values(|row: Vec<u32>| row@)
}

/// All rows have `width` entries.
pub open spec fn rectangular(rows: Seq<Seq<u32>>, width: nat) -> bool {
    forall|i: int| 0 <= i < rows.len() ==> (#[trigger] rows[i]).len() == width
}

/// In the concatenation of rows of equal length, the entry `y` of row `x`
/// lies at `x * width + y`.
pub proof fn lemma_flatten_rectangular(rows: Seq<Seq<u32>>, width: nat)
    requires
        rectangular(rows, width),
    ensures
        rows.flatten().len() == rows.len() * width,
        forall|x: int, y: int|
            0 <= x < rows.len() && 0 <= y < width ==> rows.flatten()[x * width + y]
                == #[trigger] rows[x][y],
    decreases rows.len(),
{
    if rows.len() == 0 {
        assert(rows.flatten().len() == 0);
        assert(rows.len() * width == 0) by (nonlinear_arith)
            requires
                rows.len() == 0,
        ;
    } else {
        let front = rows.drop_last();
        let last = rows.last();
        lemma_flatten_rectangular(front, width);
        front.lemma_flatten_push(last);
        assert(front.push(last) =~= rows);
        assert(rows.flatten() =~= front.flatten() + last);
        assert(rows.len() * width == front.len() * width + width) by (nonlinear_arith)
            requires
                rows.len() == front.len() + 1,
        ;
        assert forall|x: int, y: int| 0 <= x < rows.len() && 0 <= y < width implies rows.flatten()[x
            * width + y] == #[trigger] rows[x][y] by {
            if x < front.len() {
                lemma_offset_in_range(width, front.len(), x, y);
                assert(width * front.len() == front.len() * width) by (nonlinear_arith);
                assert(front[x][y] == rows[x][y]);
            } else {
                assert(x * width == front.len() * width) by (nonlinear_arith)
                    requires
                        x == front.len(),
                ;
            }
        }
    }
}

impl View for Grid {
    type V = Pile;

    /// The pile that the grid holds.
    open spec fn view(&self) -> Pile {
        Pile {
            width: self.width as nat,
            height: self.height as nat,
            cells: self.array@.map_values(|count: u32| count as int),
        }
    }
}

impl Grid {
    /// The store has one entry for each cell of the field.
    pub open spec fn wf(&self) -> bool {
        self.array@.len() == self.width * self.height
    }

    /// A field of `width` by `height` cells, all empty.
    pub fn new(width: usize, height: usize) -> (grid: Grid)
        requires
            width * height <= usize::MAX,
        ensures
            grid.width == width,
            grid.height == height,
            grid.wf(),
            grid.array@ == Seq::new((width * height) as nat, |i: int| 0u32),
    {
        let array: Vec<u32> = vec![0u32; width * height];
        Grid { array, width, height }
    }

    /// The grid that holds the given rows one after the other. Its height is
    /// the number of rows, and its width the length of the first row.
    ///
    /// Rows of unequal length are taken as they come: the store is then not
    /// one entry per cell, and the grid is not well formed.
    pub fn from_vec(vec: Vec<Vec<u32>>) -> (grid: Grid)
        requires
            vec@.len() > 0,
        ensures
            grid.height == vec@.len(),
            grid.width == vec@[0]@.len(),
            grid.array@ == rows_of(vec@).flatten(),
            rectangular(rows_of(vec@), vec@[0]@.len() as nat) ==> grid.wf() && forall|
                x: int,
                y: int,
            |
                0 <= x < grid.height && 0 <= y < grid.width ==> grid.array@[x * grid.width + y]
                    == #[trigger] vec@[x]@[y],
    {
        let height = vec.len();
        let width = vec[0].len();
        let ghost rows = rows_of(vec@);
        let mut array: Vec<u32> = Vec::new();
        let mut i: usize = 0;
        assert(rows.take(0) =~= Seq::<Seq<u32>>::empty());
        while i < height
            invariant
                height == vec@.len(),
                rows == rows_of(vec@),
                i <= height,
                array@ == rows.take(i as int).flatten(),
            decreases height - i,
        {
            let row = &vec[i];
            let mut j: usize = 0;
            assert(row@.take(0) =~= Seq::<u32>::empty());
            while j < row.len()
                invariant
                    j <= row@.len(),
                    array@ == rows.take(i as int).flatten() + row@.take(j as int),
                decreases row@.len() - j,
            {
                array.push(row[j]);
                assert(row@.take(j as int).push(row@[j as int]) =~= row@.take(j + 1));
                j += 1;
            }
            proof {
                assert(row@.take(j as int) =~= row@);
                assert(rows[i as int] == row@);
                rows.take(i as int).lemma_flatten_push(row@);
                assert(rows.take(i as int).push(row@) =~= rows.take(i + 1));
            }
            i += 1;
        }
        proof {
            assert(rows.take(i as int) =~= rows);
            if rectangular(rows, width as nat) {
                lemma_flatten_rectangular(rows, width as nat);
                assert(height * width == width * height) by (nonlinear_arith);
                assert forall|x: int, y: int| 0 <= x < height && 0 <= y < width implies array@[x
                    * width + y] == #[trigger] vec@[x]@[y] by {
                    assert(rows[x][y] == vec@[x]@[y]);
                }
            }
        }
        Grid { array, width, height }
    }

    /// The rows of the grid, from the first to the last.
    pub fn to_vec(&self) -> (rows: Vec<Vec<u32>>)
        requires
            self.wf(),
        ensures
            rows@.len() == self.height,
            rectangular(rows_of(rows@), self.width as nat),
            forall|x: int, y: int|
                0 <= x < self.height && 0 <= y < self.width ==> #[trigger] rows@[x]@[y]
                    == self.array@[x * self.width + y],
    {
        let len = self.array.len();
        let mut result: Vec<Vec<u32>> = Vec::with_capacity(self.height);
        let mut i: usize = 0;
        while i < self.height
            invariant
                self.wf(),
                len == self.array@.len(),
                i <= self.height,
                result@.len() == i,
                forall|x: int| 0 <= x < i ==> (#[trigger] result@[x])@.len() == self.width,
                forall|x: int, y: int|
                    0 <= x < i && 0 <= y < self.width ==> #[trigger] result@[x]@[y]
                        == self.array@[x * self.width + y],
            decreases self.height - i,
        {
            let mut row: Vec<u32> = Vec::with_capacity(self.width);
            let mut j: usize = 0;
            while j < self.width
                invariant
                    self.wf(),
                    len == self.array@.len(),
                    i < self.height,
                    j <= self.width,
                    row@.len() == j,
                    forall|y: int| 0 <= y < j ==> #[trigger] row@[y] == self.array@[i * self.width + y],
                decreases self.width - j,
            {
                proof {
                    lemma_offset_in_range(self.width as nat, self.height as nat, i as int, j as int);
                }
                row.push(self.array[i * self.width + j]);
                j += 1;
            }
            result.push(row);
            i += 1;
        }
        result
    }

    /// A walk over all cells and their counts, starting at the first cell.
    pub fn iter(&self) -> (walk: GridIter<'_>)
        ensures
            walk.grid == self,
            walk.index == 0,
    {
        GridIter { grid: self, index: 0 }
    }

    /// A walk over all cells, starting at the first, that lets the caller
    /// change each count in turn. The grid takes the changes as they are
    /// made.
    pub fn iter_mut(&mut self) -> (walk: GridIterMut<'_>)
        ensures
            *walk.grid == *old(self),
            walk.index == 0,
            *final(self) == *final(walk.grid),
    {
        GridIterMut { grid: self, index: 0 }
    }

    /// The count stored for `p`, or zero where the offset of `p` falls
    /// outside the store.
    pub fn get(&self, p: Point) -> (count: &u32)
        ensures
            *count as int == self@.get(p.x as int, p.y as int),
    {
        let len = self.array.len();
        assert(0 <= p.x * self.width) by (nonlinear_arith);
        assert(self@.cells.len() == len);
        match p.x.checked_mul(self.width) {
            Some(row) => match row.checked_add(p.y) {
                Some(offset) => {
                    if offset < len {
                        &self.array[offset]
                    } else {
                        &0
                    }
                },
                None => &0,
            },
            None => &0,
        }
    }

    /// Replaces the count stored for `p`.
    pub fn set(&mut self, p: Point, val: u32)
        requires
            old(self)@.stored(p.x as int, p.y as int),
        ensures
            final(self).width == old(self).width,
            final(self).height == old(self).height,
            final(self).array@ == old(self).array@.update(p.x * old(self).width + p.y, val),
            final(self)@ == old(self)@.put(p.x as int, p.y as int, val as int),
    {
        let len = self.array.len();
        assert(0 <= p.x * self.width) by (nonlinear_arith);
        assert(self@.cells.len() == len);
        let offset = p.x * self.width + p.y;
        self.array.set(offset, val);
        assert(self@.cells =~= old(self)@.put(p.x as int, p.y as int, val as int).cells);
    }
}

impl<'a> GridIter<'a> {
    /// The next cell with its count, or `None` when every cell was seen.
    pub fn next(&mut self) -> (item: Option<(Point, &'a u32)>)
        requires
            old(self).grid.wf(),
        ensures
            final(self).grid == old(self).grid,
            match item {
                Some((p, count)) => {
                    &&& old(self).index < old(self).grid.array@.len()
                    &&& final(self).index == old(self).index + 1
                    &&& p == cell_at(old(self).grid.width, old(self).index)
                    &&& p.x < old(self).grid.height
                    &&& p.y < old(self).grid.width
                    &&& p.x * old(self).grid.width + p.y == old(self).index
                    &&& *count == old(self).grid.array@[old(self).index as int]
                },
                None => {
                    &&& old(self).index >= old(self).grid.array@.len()
                    &&& final(self).index == old(self).index
                },
            },
    {
        let k = self.index;
        if k < self.grid.array.len() {
            proof {
                lemma_offset_cell(self.grid.width as nat, self.grid.height as nat, k as int);
            }
            let p = Point { x: k / self.grid.width, y: k % self.grid.width };
            self.index = k + 1;
            Some((p, &self.grid.array[k]))
        } else {
            None
        }
    }
}

impl<'a> GridIterMut<'a> {
    /// The next cell with its count, which the caller may overwrite, or
    /// `None` when every cell was seen.
    pub fn next(&mut self) -> (item: Option<(Point, &mut u32)>)
        requires
            old(self).grid.wf(),
        ensures
            *final(final(self).grid) == *final(old(self).grid),
            final(self).grid.width == old(self).grid.width,
            final(self).grid.height == old(self).grid.height,
            match item {
                Some((p, count)) => {
                    &&& old(self).index < old(self).grid.array@.len()
                    &&& final(self).index == old(self).index + 1
                    &&& p == cell_at(old(self).grid.width, old(self).index)
                    &&& p.x < old(self).grid.height
                    &&& p.y < old(self).grid.width
                    &&& p.x * old(self).grid.width + p.y == old(self).index
                    &&& *count == old(self).grid.array@[old(self).index as int]
                    &&& final(self).grid.array@ == old(self).grid.array@.update(
                        old(self).index as int,
                        *final(count),
                    )
                },
                None => {
                    &&& old(self).index >= old(self).grid.array@.len()
                    &&& final(self).index == old(self).index
                    &&& final(self).grid.array@ == old(self).grid.array@
                },
            },
    {
        let k = self.index;
        if k < self.grid.array.len() {
            proof {
                lemma_offset_cell(self.grid.width as nat, self.grid.height as nat, k as int);
            }
            let p = Point { x: k / self.grid.width, y: k % self.grid.width };
            self.index = k + 1;
            Some((p, &mut self.grid.array[k]))
        } else {
            None
        }
    }
}

} // verus!
