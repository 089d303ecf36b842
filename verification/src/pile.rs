//! The sandpile as a mathematical object.
//!
//! A [`Pile`] is what a grid stands for in contracts: its extent and the
//! grain count of every cell, as unbounded integers. Toppling, sequences of
//! topplings and stability are defined here, on that model alone.
use vstd::prelude::*;
use vstd::arithmetic::div_mod::lemma_fundamental_div_mod_converse;
use crate::sums::{
    lemma_weighted_sum_bounds, lemma_weighted_sum_update, unit_weight, weighted_sum,
};

verus! {

/// A rectangular field of grain counts.
///
/// The cell `(x, y)` is stored at `x * width + y`: `x` counts the rows, of
/// which there are `height`, and `y` the cells of a row, of which there are
/// `width`.
#[verifier::ext_equal]
pub struct Pile {
    pub width: nat,
    pub height: nat,
    pub cells: Seq<int>,
}

impl Pile {
    /// The store has one entry per cell, and no entry is negative.
    pub open spec fn wf(self) -> bool {
        &&& self.cells.len() == self.width * self.height
        &&& forall|i: int| 0 <= i < self.cells.len() ==> 0 <= #[trigger] self.cells[i]
    }

    /// Where the cell `(x, y)` lies in the store.
    pub open spec fn offset(self, x: int, y: int) -> int {
        x * self.width + y
    }

    /// `(x, y)` is a cell of the field.
    pub open spec fn inside(self, x: int, y: int) -> bool {
        0 <= x < self.height && 0 <= y < self.width
    }

    /// The offset of `(x, y)` falls into the store. This holds of every cell
    /// of the field, and of some coordinates beside it.
    pub open spec fn stored(self, x: int, y: int) -> bool {
        0 <= self.offset(x, y) < self.cells.len()
    }

    /// The entry at the offset of `(x, y)`.
    pub open spec fn at(self, x: int, y: int) -> int {
        self.cells[self.offset(x, y)]
    }

    /// The count read at `(x, y)`: the entry at its offset, and zero where
    /// the offset falls outside the store.
    pub open spec fn get(self, x: int, y: int) -> int {
        if self.stored(x, y) {
            self.at(x, y)
        } else {
            0
        }
    }

    /// The pile with the entry at the offset of `(x, y)` replaced by `value`.
    pub open spec fn put(self, x: int, y: int, value: int) -> Pile {
        Pile { cells: self.cells.update(self.offset(x, y), value), ..self }
    }

    /// The pile with `amount` grains more at `(x, y)`.
    pub open spec fn add(self, x: int, y: int, amount: int) -> Pile {
        self.put(x, y, self.at(x, y) + amount)
    }

    /// The pile after one grain was sent towards `(x, y)`: the cell gains it
    /// if it exists, and the grain is lost if it does not.
    pub open spec fn pour(self, x: int, y: int) -> Pile {
        if self.inside(x, y) {
            self.add(x, y, 1)
        } else {
            self
        }
    }

    /// The cell `(x, y)` exists and holds four grains or more.
    pub open spec fn unstable_at(self, x: int, y: int) -> bool {
        self.inside(x, y) && self.at(x, y) >= 4
    }

    /// No entry of the store reaches four.
    pub open spec fn stable(self) -> bool {
        forall|i: int| 0 <= i < self.cells.len() ==> #[trigger] self.cells[i] < 4
    }

    /// The pile after the cell `(x, y)` toppled: it loses four grains, and
    /// sends one towards each of its four cardinal neighbours.
    pub open spec fn topple(self, x: int, y: int) -> Pile {
        self.add(x, y, -4).pour(x - 1, y).pour(x + 1, y).pour(x, y - 1).pour(x, y + 1)
    }

    /// All grains of the pile.
    pub open spec fn total(self) -> int {
        weighted_sum(self.cells, unit_weight())
    }

    /// The weight of the store entry `i` in the energy of the pile.
    pub open spec fn weights(self) -> spec_fn(int) -> int {
        |i: int|
            hill(i / (self.width as int), self.height as int) + hill(
                i % (self.width as int),
                self.width as int,
            )
    }

    /// The grains of the pile, each weighted by where it lies: the nearer to
    /// the middle of the field, the heavier. Every toppling lowers the
    /// energy, which is why toppling comes to an end.
    pub open spec fn energy(self) -> int {
        weighted_sum(self.cells, self.weights())
    }

    /// How many of the four neighbours of `(x, y)` exist.
    pub open spec fn degree(self, x: int, y: int) -> int {
        (if self.inside(x - 1, y) { 1int } else { 0 })
        + (if self.inside(x + 1, y) { 1int } else { 0 })
        + (if self.inside(x, y - 1) { 1int } else { 0 })
        + (if self.inside(x, y + 1) { 1int } else { 0 })
    }
}

/// A hill over the positions `0` to `size - 1`: highest in the middle, and
/// zero one step outside at either end.
pub open spec fn hill(position: int, size: int) -> int {
    (position + 1) * (size - position)
}

/// The hill is not negative from one step before the first position to one
/// step behind the last, and the two neighbours of a position lie, taken
/// together, two below twice its own height.
pub proof fn lemma_hill(position: int, size: int)
    ensures
        hill(position - 1, size) + hill(position + 1, size) == 2 * hill(position, size) - 2,
        -1 <= position <= size ==> hill(position, size) >= 0,
{
    assert(hill(position - 1, size) + hill(position + 1, size) == 2 * hill(position, size) - 2)
        by (nonlinear_arith);
    if -1 <= position <= size {
        assert((position + 1) * (size - position) >= 0) by (nonlinear_arith)
            requires
                0 <= position + 1,
                0 <= size - position,
        ;
    }
}

/// What the cell `(cx, cy)` gains when the cell `(qx, qy)` topples: minus four
/// for the toppling cell itself, one for a neighbour, nothing elsewhere.
pub open spec fn gain(qx: int, qy: int, cx: int, cy: int) -> int {
    if cx == qx && cy == qy {
        -4
    } else if cx == qx && (cy == qy - 1 || cy == qy + 1) {
        1
    } else if cy == qy && (cx == qx - 1 || cx == qx + 1) {
        1
    } else {
        0
    }
}

/// A cell of a `width` by `height` field has its offset inside the store.
pub proof fn lemma_offset_in_range(width: nat, height: nat, x: int, y: int)
    requires
        0 <= x < height,
        0 <= y < width,
    ensures
        0 <= x * width + y < width * height,
{
    assert(0 <= x * width && x * width + width <= width * height) by (nonlinear_arith)
        requires
            0 <= x < height,
            0 <= width,
    ;
}

/// Two positions in rows of length `width` that share an offset are the same.
pub proof fn lemma_offset_injective(width: nat, x1: int, y1: int, x2: int, y2: int)
    requires
        0 <= y1 < width,
        0 <= y2 < width,
        x1 * width + y1 == x2 * width + y2,
    ensures
        x1 == x2,
        y1 == y2,
{
    assert(x1 == x2) by (nonlinear_arith)
        requires
            0 <= y1 < width,
            0 <= y2 < width,
            x1 * width + y1 == x2 * width + y2,
    ;
}

/// Every offset of the store belongs to exactly one cell: the one in row
/// `i / width` at position `i % width`.
pub proof fn lemma_offset_cell(width: nat, height: nat, i: int)
    requires
        0 <= i < width * height,
    ensures
        width > 0,
        0 <= i / (width as int) < height,
        0 <= i % (width as int) < width,
        (i / (width as int)) * width + i % (width as int) == i,
{
    assert(width > 0) by (nonlinear_arith)
        requires
            0 <= i < width * height,
    ;
    let w = width as int;
    vstd::arithmetic::div_mod::lemma_fundamental_div_mod(i, w);
    vstd::arithmetic::div_mod::lemma_mod_bound(i, w);
    vstd::arithmetic::div_mod::lemma_div_pos_is_pos(i, w);
    vstd::arithmetic::div_mod::lemma_multiply_divide_lt(i, w, height as int);
    assert(w * (i / w) == (i / w) * w) by (nonlinear_arith);
}

impl Pile {
    /// Adding grains to one cell changes that cell and no other.
    pub proof fn lemma_add_at(self, x: int, y: int, amount: int, cx: int, cy: int)
        requires
            self.cells.len() == self.width * self.height,
            self.inside(x, y),
            self.inside(cx, cy),
        ensures
            self.add(x, y, amount).width == self.width,
            self.add(x, y, amount).height == self.height,
            self.add(x, y, amount).cells.len() == self.cells.len(),
            self.add(x, y, amount).at(cx, cy) == self.at(cx, cy) + if cx == x && cy == y {
                amount
            } else {
                0
            },
    {
        lemma_offset_in_range(self.width, self.height, x, y);
        lemma_offset_in_range(self.width, self.height, cx, cy);
        if self.offset(x, y) == self.offset(cx, cy) {
            lemma_offset_injective(self.width, x, y, cx, cy);
        }
    }

    /// Replacing the count of one cell changes that cell and no other.
    pub proof fn lemma_put_at(self, x: int, y: int, value: int, cx: int, cy: int)
        requires
            self.cells.len() == self.width * self.height,
            self.inside(x, y),
            self.inside(cx, cy),
        ensures
            self.put(x, y, value).width == self.width,
            self.put(x, y, value).height == self.height,
            self.put(x, y, value).cells.len() == self.cells.len(),
            self.put(x, y, value).at(cx, cy) == if cx == x && cy == y {
                value
            } else {
                self.at(cx, cy)
            },
    {
        lemma_offset_in_range(self.width, self.height, x, y);
        lemma_offset_in_range(self.width, self.height, cx, cy);
        if self.offset(x, y) == self.offset(cx, cy) {
            lemma_offset_injective(self.width, x, y, cx, cy);
        }
    }

    /// A grain sent towards `(x, y)` changes that cell, if it exists, and no
    /// other.
    pub proof fn lemma_pour_at(self, x: int, y: int, cx: int, cy: int)
        requires
            self.cells.len() == self.width * self.height,
            self.inside(cx, cy),
        ensures
            self.pour(x, y).width == self.width,
            self.pour(x, y).height == self.height,
            self.pour(x, y).cells.len() == self.cells.len(),
            self.pour(x, y).at(cx, cy) == self.at(cx, cy) + if cx == x && cy == y {
                1int
            } else {
                0
            },
    {
        if self.inside(x, y) {
            self.lemma_add_at(x, y, 1, cx, cy);
        }
    }

    /// What a toppling does, whatever the counts are: it keeps the extent of
    /// the pile, takes four grains from the toppling cell, gives one to each
    /// of its neighbours in the field, and leaves every other cell of the
    /// field as it was. A grain sent towards a place outside the field
    /// changes no cell: it does not turn up in the next row of the store.
    pub proof fn lemma_topple_at(self, qx: int, qy: int, cx: int, cy: int)
        requires
            self.cells.len() == self.width * self.height,
            self.inside(qx, qy),
            self.inside(cx, cy),
        ensures
            self.topple(qx, qy).width == self.width,
            self.topple(qx, qy).height == self.height,
            self.topple(qx, qy).cells.len() == self.cells.len(),
            self.topple(qx, qy).at(cx, cy) == self.at(cx, cy) + gain(qx, qy, cx, cy),
    {
        let lowered = self.add(qx, qy, -4);
        self.lemma_add_at(qx, qy, -4, cx, cy);
        let once = lowered.pour(qx - 1, qy);
        lowered.lemma_pour_at(qx - 1, qy, cx, cy);
        let twice = once.pour(qx + 1, qy);
        once.lemma_pour_at(qx + 1, qy, cx, cy);
        let thrice = twice.pour(qx, qy - 1);
        twice.lemma_pour_at(qx, qy - 1, cx, cy);
        thrice.lemma_pour_at(qx, qy + 1, cx, cy);
    }
}

impl Pile {
    /// Two piles of one extent that agree on every cell of the field are the
    /// same pile.
    pub proof fn lemma_equal_by_cells(self, other: Pile)
        requires
            self.width == other.width,
            self.height == other.height,
            self.cells.len() == self.width * self.height,
            other.cells.len() == self.cells.len(),
            forall|x: int, y: int| self.inside(x, y) ==> self.at(x, y) == other.at(x, y),
        ensures
            self == other,
    {
        assert forall|i: int| 0 <= i < self.cells.len() implies self.cells[i] == other.cells[i] by {
            lemma_offset_cell(self.width, self.height, i);
            let w = self.width as int;
            assert(self.at(i / w, i % w) == other.at(i / w, i % w));
        }
        assert(self =~= other);
    }

    /// Sending the four grains first and taking them from the toppling cell
    /// afterwards gives the same pile as the toppling.
    pub proof fn lemma_topple_by_pours(self, x: int, y: int)
        requires
            self.cells.len() == self.width * self.height,
            self.inside(x, y),
        ensures
            self.pour(x - 1, y).pour(x + 1, y).pour(x, y - 1).pour(x, y + 1).put(
                x,
                y,
                self.at(x, y) - 4,
            ) == self.topple(x, y),
    {
        let once = self.pour(x - 1, y);
        let twice = once.pour(x + 1, y);
        let thrice = twice.pour(x, y - 1);
        let poured = thrice.pour(x, y + 1);
        let end = poured.put(x, y, self.at(x, y) - 4);
        let toppled = self.topple(x, y);
        self.lemma_pour_at(x - 1, y, x, y);
        once.lemma_pour_at(x + 1, y, x, y);
        twice.lemma_pour_at(x, y - 1, x, y);
        thrice.lemma_pour_at(x, y + 1, x, y);
        self.lemma_topple_at(x, y, x, y);
        lemma_offset_in_range(self.width, self.height, x, y);
        assert forall|cx: int, cy: int| end.inside(cx, cy) implies end.at(cx, cy) == toppled.at(
            cx,
            cy,
        ) by {
            self.lemma_pour_at(x - 1, y, cx, cy);
            once.lemma_pour_at(x + 1, y, cx, cy);
            twice.lemma_pour_at(x, y - 1, cx, cy);
            thrice.lemma_pour_at(x, y + 1, cx, cy);
            self.lemma_topple_at(x, y, cx, cy);
            lemma_offset_in_range(self.width, self.height, cx, cy);
            if end.offset(cx, cy) == end.offset(x, y) {
                lemma_offset_injective(self.width, cx, cy, x, y);
            }
        }
        end.lemma_equal_by_cells(toppled);
    }

    /// A pile is stable if and only if none of its cells is unstable.
    pub proof fn lemma_stable_by_cells(self)
        requires
            self.cells.len() == self.width * self.height,
        ensures
            self.stable() <==> forall|x: int, y: int| !self.unstable_at(x, y),
    {
        if self.stable() {
            assert forall|x: int, y: int| !self.unstable_at(x, y) by {
                if self.inside(x, y) {
                    lemma_offset_in_range(self.width, self.height, x, y);
                }
            }
        }
        if forall|x: int, y: int| !self.unstable_at(x, y) {
            assert forall|i: int| 0 <= i < self.cells.len() implies #[trigger] self.cells[i]
                < 4 by {
                lemma_offset_cell(self.width, self.height, i);
                let w = self.width as int;
                assert(!self.unstable_at(i / w, i % w));
            }
        }
    }

    /// The weight of the store entry of a cell, by its coordinates.
    pub proof fn lemma_weight_of_cell(self, x: int, y: int)
        requires
            self.inside(x, y),
        ensures
            self.weights()(self.offset(x, y)) == hill(x, self.height as int) + hill(
                y,
                self.width as int,
            ),
            self.weights()(self.offset(x, y)) >= 0,
    {
        lemma_fundamental_div_mod_converse(self.offset(x, y), self.width as int, x, y);
        lemma_hill(x, self.height as int);
        lemma_hill(y, self.width as int);
    }

    /// No store entry of a well-formed pile has a negative weight.
    pub proof fn lemma_weights_nonnegative(self)
        requires
            self.cells.len() == self.width * self.height,
        ensures
            forall|i: int| 0 <= i < self.cells.len() ==> 0 <= #[trigger] self.weights()(i),
    {
        assert forall|i: int| 0 <= i < self.cells.len() implies 0 <= #[trigger] self.weights()(
            i,
        ) by {
            lemma_offset_cell(self.width, self.height, i);
            let w = self.width as int;
            self.lemma_weight_of_cell(i / w, i % w);
        }
    }

    /// Neither the grains nor the energy of a well-formed pile are negative.
    pub proof fn lemma_measures_nonnegative(self)
        requires
            self.wf(),
        ensures
            0 <= self.total(),
            0 <= self.energy(),
    {
        self.lemma_weights_nonnegative();
        lemma_weighted_sum_bounds(self.cells, unit_weight());
        lemma_weighted_sum_bounds(self.cells, self.weights());
    }

    /// What adding grains to one cell does to the grains and to the energy of
    /// the pile.
    pub proof fn lemma_add_measures(self, x: int, y: int, amount: int)
        requires
            self.cells.len() == self.width * self.height,
            self.inside(x, y),
        ensures
            self.add(x, y, amount).total() == self.total() + amount,
            self.add(x, y, amount).energy() == self.energy() + amount * (hill(
                x,
                self.height as int,
            ) + hill(y, self.width as int)),
    {
        lemma_offset_in_range(self.width, self.height, x, y);
        let i = self.offset(x, y);
        lemma_weighted_sum_update(self.cells, unit_weight(), i, amount);
        assert(amount * unit_weight()(i) == amount) by (nonlinear_arith)
            requires
                unit_weight()(i) == 1,
        ;
        lemma_weighted_sum_update(self.cells, self.weights(), i, amount);
        self.lemma_weight_of_cell(x, y);
        assert(self.add(x, y, amount).weights() == self.weights());
    }

    /// What a grain sent towards `(x, y)` does to the grains and to the
    /// energy of the pile.
    pub proof fn lemma_pour_measures(self, x: int, y: int)
        requires
            self.cells.len() == self.width * self.height,
        ensures
            self.pour(x, y).cells.len() == self.cells.len(),
            self.pour(x, y).width == self.width,
            self.pour(x, y).height == self.height,
            self.pour(x, y).total() == self.total() + if self.inside(x, y) {
                1int
            } else {
                0
            },
            self.pour(x, y).energy() == self.energy() + if self.inside(x, y) {
                hill(x, self.height as int) + hill(y, self.width as int)
            } else {
                0
            },
    {
        if self.inside(x, y) {
            self.lemma_add_measures(x, y, 1);
            self.lemma_add_at(x, y, 1, x, y);
        }
    }

    /// A toppling of a cell of the field keeps all grains but those that it
    /// sends over the border, and lowers the energy by four at least.
    pub proof fn lemma_topple_measures(self, x: int, y: int)
        requires
            self.cells.len() == self.width * self.height,
            self.inside(x, y),
        ensures
            self.topple(x, y).total() + (4 - self.degree(x, y)) == self.total(),
            self.topple(x, y).energy() + 4 <= self.energy(),
    {
        let h = self.height as int;
        let w = self.width as int;
        let lowered = self.add(x, y, -4);
        self.lemma_add_measures(x, y, -4);
        self.lemma_add_at(x, y, -4, x, y);
        let once = lowered.pour(x - 1, y);
        lowered.lemma_pour_measures(x - 1, y);
        let twice = once.pour(x + 1, y);
        once.lemma_pour_measures(x + 1, y);
        let thrice = twice.pour(x, y - 1);
        twice.lemma_pour_measures(x, y - 1);
        thrice.lemma_pour_measures(x, y + 1);
        lemma_hill(x, h);
        lemma_hill(y, w);
        lemma_hill(x - 1, h);
        lemma_hill(x + 1, h);
        lemma_hill(y - 1, w);
        lemma_hill(y + 1, w);
    }

    /// The toppling of an unstable cell leaves a well-formed pile well
    /// formed.
    pub proof fn lemma_topple_wf(self, x: int, y: int)
        requires
            self.wf(),
            self.unstable_at(x, y),
        ensures
            self.topple(x, y).wf(),
            self.topple(x, y).width == self.width,
            self.topple(x, y).height == self.height,
    {
        let after = self.topple(x, y);
        self.lemma_topple_at(x, y, x, y);
        assert forall|i: int| 0 <= i < after.cells.len() implies 0 <= #[trigger] after.cells[i] by {
            lemma_offset_cell(self.width, self.height, i);
            let w = self.width as int;
            self.lemma_topple_at(x, y, i / w, i % w);
        }
    }
}

} // verus!
