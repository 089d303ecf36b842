//! Sequences of topplings, and what holds of them whatever their order.
//!
//! A pile is stabilised by toppling unstable cells one after another until
//! none is left. Which cell topples next is free. This file proves that the
//! freedom does not show in the result: every such sequence topples each cell
//! equally often, ends in the same pile, and loses the same grains over the
//! border.
use vstd::prelude::*;
use crate::pile::{lemma_offset_cell, lemma_offset_in_range, Pile};

verus! {

/// How often the cell `(x, y)` occurs in `sites`.
pub open spec fn tally(sites: Seq<(int, int)>, x: int, y: int) -> int
    decreases sites.len(),
{
    if sites.len() == 0 {
        0
    } else {
        tally(sites.drop_last(), x, y) + if sites.last() == (x, y) {
            1int
        } else {
            0
        }
    }
}

impl Pile {
    /// The pile after the cells of `sites` toppled, one after the other.
    pub open spec fn after(self, sites: Seq<(int, int)>) -> Pile
        decreases sites.len(),
    {
        if sites.len() == 0 {
            self
        } else {
            self.after(sites.drop_last()).topple(sites.last().0, sites.last().1)
        }
    }

    /// Every cell of `sites` is unstable at the moment it topples.
    pub open spec fn legal(self, sites: Seq<(int, int)>) -> bool
        decreases sites.len(),
    {
        sites.len() == 0 || (self.legal(sites.drop_last()) && self.after(
            sites.drop_last(),
        ).unstable_at(sites.last().0, sites.last().1))
    }

    /// The grains that the topplings of `sites` send over the border: one
    /// for each neighbour that a toppling cell lacks.
    pub open spec fn spilled(self, sites: Seq<(int, int)>) -> int
        decreases sites.len(),
    {
        if sites.len() == 0 {
            0
        } else {
            self.spilled(sites.drop_last()) + 4 - self.degree(sites.last().0, sites.last().1)
        }
    }

    /// `end` is stable and comes from this pile by toppling unstable cells.
    pub open spec fn stabilizes_to(self, end: Pile) -> bool {
        end.stable() && exists|sites: Seq<(int, int)>|
            #[trigger] self.legal(sites) && self.after(sites) == end
    }

    /// Toppling unstable cells keeps a well-formed pile well formed, and
    /// keeps its extent.
    pub proof fn lemma_after_wf(self, sites: Seq<(int, int)>)
        requires
            self.wf(),
            self.legal(sites),
        ensures
            self.after(sites).wf(),
            self.after(sites).width == self.width,
            self.after(sites).height == self.height,
        decreases sites.len(),
    {
        if sites.len() > 0 {
            self.lemma_after_wf(sites.drop_last());
            self.after(sites.drop_last()).lemma_topple_wf(sites.last().0, sites.last().1);
        }
    }

    /// One more toppling of an unstable cell at the end of a legal sequence
    /// gives a legal sequence.
    pub proof fn lemma_legal_push(self, sites: Seq<(int, int)>, x: int, y: int)
        requires
            self.legal(sites),
            self.after(sites).unstable_at(x, y),
        ensures
            self.legal(sites.push((x, y))),
            self.after(sites.push((x, y))) == self.after(sites).topple(x, y),
            self.spilled(sites.push((x, y))) == self.spilled(sites) + 4 - self.degree(x, y),
    {
        assert(sites.push((x, y)).drop_last() =~= sites);
    }

    /// The count of a cell after a legal sequence, from how often the cell
    /// and its four neighbours toppled: it lost four grains each time it
    /// toppled itself, and gained one each time a neighbour did.
    pub proof fn lemma_after_at(self, sites: Seq<(int, int)>, x: int, y: int)
        requires
            self.wf(),
            self.legal(sites),
            self.inside(x, y),
        ensures
            self.after(sites).at(x, y) == self.at(x, y) - 4 * tally(sites, x, y) + tally(
                sites,
                x - 1,
                y,
            ) + tally(sites, x + 1, y) + tally(sites, x, y - 1) + tally(sites, x, y + 1),
        decreases sites.len(),
    {
        if sites.len() > 0 {
            let front = sites.drop_last();
            let (qx, qy) = sites.last();
            self.lemma_after_at(front, x, y);
            self.lemma_after_wf(front);
            self.after(front).lemma_topple_at(qx, qy, x, y);
        }
    }

    /// A cell never topples more often in a legal sequence than in a legal
    /// sequence that ends in a stable pile.
    pub proof fn lemma_least_action(self, sites: Seq<(int, int)>, full: Seq<(int, int)>)
        requires
            self.wf(),
            self.legal(sites),
            self.legal(full),
            self.after(full).stable(),
        ensures
            forall|x: int, y: int| #[trigger] tally(sites, x, y) <= tally(full, x, y),
        decreases sites.len(),
    {
        if sites.len() == 0 {
            assert forall|x: int, y: int| #[trigger] tally(sites, x, y) <= tally(full, x, y) by {
                lemma_tally_nonnegative(full, x, y);
            }
        } else {
            let front = sites.drop_last();
            let (qx, qy) = sites.last();
            self.lemma_least_action(front, full);
            self.lemma_after_wf(front);
            self.lemma_after_wf(full);
            assert(tally(front, qx, qy) < tally(full, qx, qy)) by {
                if tally(front, qx, qy) >= tally(full, qx, qy) {
                    assert(tally(front, qx, qy) <= tally(full, qx, qy));
                    assert(tally(front, qx - 1, qy) <= tally(full, qx - 1, qy));
                    assert(tally(front, qx + 1, qy) <= tally(full, qx + 1, qy));
                    assert(tally(front, qx, qy - 1) <= tally(full, qx, qy - 1));
                    assert(tally(front, qx, qy + 1) <= tally(full, qx, qy + 1));
                    self.lemma_after_at(front, qx, qy);
                    self.lemma_after_at(full, qx, qy);
                    lemma_offset_in_range(self.width, self.height, qx, qy);
                    let end = self.after(full);
                    assert(end.cells[end.offset(qx, qy)] < 4);
                    assert(false);
                }
            }
            assert forall|x: int, y: int| #[trigger] tally(sites, x, y) <= tally(full, x, y) by {
                assert(tally(front, x, y) <= tally(full, x, y));
            }
        }
    }

    /// Two legal sequences that both end in a stable pile end in the same
    /// pile, after toppling every cell equally often.
    pub proof fn lemma_order_independent(self, first: Seq<(int, int)>, second: Seq<(int, int)>)
        requires
            self.wf(),
            self.legal(first),
            self.legal(second),
            self.after(first).stable(),
            self.after(second).stable(),
        ensures
            self.after(first) == self.after(second),
            forall|x: int, y: int| #[trigger] tally(first, x, y) == tally(second, x, y),
    {
        self.lemma_least_action(first, second);
        self.lemma_least_action(second, first);
        assert forall|x: int, y: int| #[trigger] tally(first, x, y) == tally(second, x, y) by {
            assert(tally(first, x, y) <= tally(second, x, y));
            assert(tally(second, x, y) <= tally(first, x, y));
        }
        self.lemma_after_wf(first);
        self.lemma_after_wf(second);
        let a = self.after(first);
        let b = self.after(second);
        assert forall|i: int| 0 <= i < a.cells.len() implies a.cells[i] == b.cells[i] by {
            lemma_offset_cell(self.width, self.height, i);
            let w = self.width as int;
            let (x, y) = (i / w, i % w);
            self.lemma_after_at(first, x, y);
            self.lemma_after_at(second, x, y);
            assert(tally(first, x, y) == tally(second, x, y));
            assert(tally(first, x - 1, y) == tally(second, x - 1, y));
            assert(tally(first, x + 1, y) == tally(second, x + 1, y));
            assert(tally(first, x, y - 1) == tally(second, x, y - 1));
            assert(tally(first, x, y + 1) == tally(second, x, y + 1));
            assert(a.at(x, y) == b.at(x, y));
        }
        assert(a =~= b);
    }

    /// The stable pile that a pile comes to is the same whatever the order in
    /// which its unstable cells topple.
    pub proof fn lemma_stabilization_unique(self, first: Pile, second: Pile)
        requires
            self.wf(),
            self.stabilizes_to(first),
            self.stabilizes_to(second),
        ensures
            first == second,
    {
        let s1 = choose|sites: Seq<(int, int)>| #[trigger]
            self.legal(sites) && self.after(sites) == first;
        let s2 = choose|sites: Seq<(int, int)>| #[trigger]
            self.legal(sites) && self.after(sites) == second;
        self.lemma_order_independent(s1, s2);
    }

    /// In a stable pile no cell can topple: the only legal sequence is the
    /// empty one, and the pile stabilises to itself and to nothing else.
    pub proof fn lemma_stable_is_fixed(self, sites: Seq<(int, int)>)
        requires
            self.wf(),
            self.stable(),
            self.legal(sites),
        ensures
            sites.len() == 0,
            self.after(sites) == self,
            self.stabilizes_to(self),
        decreases sites.len(),
    {
        if sites.len() > 0 {
            let front = sites.drop_last();
            self.lemma_stable_is_fixed(front);
            let (qx, qy) = sites.last();
            lemma_offset_in_range(self.width, self.height, qx, qy);
            assert(self.cells[self.offset(qx, qy)] < 4);
            assert(false);
        }
        let none = Seq::<(int, int)>::empty();
        assert(self.legal(none) && self.after(none) == self);
    }

    /// The grains that are left after a legal sequence and the grains that it
    /// sent over the border are, together, the grains that were there.
    pub proof fn lemma_conservation(self, sites: Seq<(int, int)>)
        requires
            self.wf(),
            self.legal(sites),
        ensures
            self.after(sites).total() + self.spilled(sites) == self.total(),
            0 <= self.spilled(sites),
            0 <= self.after(sites).total() <= self.total(),
        decreases sites.len(),
    {
        if sites.len() > 0 {
            let front = sites.drop_last();
            self.lemma_conservation(front);
            self.lemma_after_wf(front);
            self.after(front).lemma_topple_measures(sites.last().0, sites.last().1);
        }
        self.lemma_after_wf(sites);
        self.after(sites).lemma_measures_nonnegative();
    }

    /// Whatever the order of the topplings, stabilising loses the same
    /// number of grains: those that the start holds more than the end. No
    /// grain is ever gained.
    pub proof fn lemma_stabilization_conserves(self, end: Pile, sites: Seq<(int, int)>)
        requires
            self.wf(),
            self.stabilizes_to(end),
            self.legal(sites),
            self.after(sites).stable(),
        ensures
            self.after(sites) == end,
            end.total() + self.spilled(sites) == self.total(),
            0 <= end.total() <= self.total(),
    {
        let witness = choose|other: Seq<(int, int)>| #[trigger]
            self.legal(other) && self.after(other) == end;
        self.lemma_order_independent(sites, witness);
        self.lemma_conservation(sites);
    }

    /// Every toppling costs four units of energy at least, so a legal
    /// sequence is never longer than a quarter of the energy of the pile it
    /// starts from.
    pub proof fn lemma_energy_bounds_length(self, sites: Seq<(int, int)>)
        requires
            self.wf(),
            self.legal(sites),
        ensures
            self.after(sites).energy() + 4 * sites.len() <= self.energy(),
            0 <= self.after(sites).energy(),
        decreases sites.len(),
    {
        if sites.len() > 0 {
            let front = sites.drop_last();
            self.lemma_energy_bounds_length(front);
            self.lemma_after_wf(front);
            self.after(front).lemma_topple_measures(sites.last().0, sites.last().1);
        }
        self.lemma_after_wf(sites);
        self.after(sites).lemma_measures_nonnegative();
    }
}

/// No cell occurs a negative number of times.
pub proof fn lemma_tally_nonnegative(sites: Seq<(int, int)>, x: int, y: int)
    ensures
        0 <= tally(sites, x, y),
    decreases sites.len(),
{
    if sites.len() > 0 {
        lemma_tally_nonnegative(sites.drop_last(), x, y);
    }
}

} // verus!
