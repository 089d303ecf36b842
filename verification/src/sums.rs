//! Weighted sums over a store of counts.
use vstd::prelude::*;

verus! {

/// The sum of `cells[i] * weight(i)` over all entries of `cells`.
pub open spec fn weighted_sum(cells: Seq<int>, weight: spec_fn(int) -> int) -> int
    decreases cells.len(),
{
    if cells.len() == 0 {
        0
    } else {
        weighted_sum(cells.drop_last(), weight) + cells.last() * weight(cells.len() - 1)
    }
}

/// The weight that counts every entry once.
pub open spec fn unit_weight() -> spec_fn(int) -> int {
    |i: int| 1int
}

/// Raising one entry by `amount` raises the sum by `amount` times the weight
/// of that entry.
pub proof fn lemma_weighted_sum_update(
    cells: Seq<int>,
    weight: spec_fn(int) -> int,
    i: int,
    amount: int,
)
    requires
        0 <= i < cells.len(),
    ensures
        weighted_sum(cells.update(i, cells[i] + amount), weight) == weighted_sum(cells, weight)
            + amount * weight(i),
    decreases cells.len(),
{
    let last = cells.len() - 1;
    let raised = cells.update(i, cells[i] + amount);
    if i == last {
        assert(raised.drop_last() =~= cells.drop_last());
        assert((cells[i] + amount) * weight(last) == cells[i] * weight(last) + amount * weight(
            last,
        )) by (nonlinear_arith);
    } else {
        assert(raised.drop_last() =~= cells.drop_last().update(i, cells[i] + amount));
        lemma_weighted_sum_update(cells.drop_last(), weight, i, amount);
    }
}

/// With no negative entry and no negative weight, every term of the sum is
/// at most the sum, and the sum is not negative.
pub proof fn lemma_weighted_sum_bounds(cells: Seq<int>, weight: spec_fn(int) -> int)
    requires
        forall|i: int| 0 <= i < cells.len() ==> 0 <= #[trigger] cells[i],
        forall|i: int| 0 <= i < cells.len() ==> 0 <= #[trigger] weight(i),
    ensures
        0 <= weighted_sum(cells, weight),
        forall|i: int|
            0 <= i < cells.len() ==> #[trigger] cells[i] * weight(i) <= weighted_sum(cells, weight),
    decreases cells.len(),
{
    if cells.len() > 0 {
        let last = cells.len() - 1;
        let front = cells.drop_last();
        assert forall|i: int| 0 <= i < front.len() implies 0 <= #[trigger] front[i] by {
            assert(front[i] == cells[i]);
        }
        lemma_weighted_sum_bounds(front, weight);
        assert(0 <= cells[last] * weight(last)) by (nonlinear_arith)
            requires
                0 <= cells[last],
                0 <= weight(last),
        ;
        assert forall|i: int| 0 <= i < cells.len() implies #[trigger] cells[i] * weight(i)
            <= weighted_sum(cells, weight) by {
            if i < last {
                assert(front[i] == cells[i]);
                assert(front[i] * weight(i) <= weighted_sum(front, weight));
            }
        }
    }
}

/// With no negative entry and no negative weight, the sum over the first
/// `count` entries is at most the sum over all.
pub proof fn lemma_weighted_sum_prefix(cells: Seq<int>, weight: spec_fn(int) -> int, count: int)
    requires
        forall|i: int| 0 <= i < cells.len() ==> 0 <= #[trigger] cells[i],
        forall|i: int| 0 <= i < cells.len() ==> 0 <= #[trigger] weight(i),
        0 <= count <= cells.len(),
    ensures
        weighted_sum(cells.take(count), weight) <= weighted_sum(cells, weight),
    decreases cells.len(),
{
    if count == cells.len() {
        assert(cells.take(count) =~= cells);
    } else {
        let last = cells.len() - 1;
        let front = cells.drop_last();
        assert forall|i: int| 0 <= i < front.len() implies 0 <= #[trigger] front[i] by {
            assert(front[i] == cells[i]);
        }
        lemma_weighted_sum_prefix(front, weight, count);
        assert(front.take(count) =~= cells.take(count));
        assert(0 <= cells[last] * weight(last)) by (nonlinear_arith)
            requires
                0 <= cells[last],
                0 <= weight(last),
        ;
    }
}

/// With no negative entry, two different entries together are at most the
/// plain sum of all entries.
pub proof fn lemma_sum_covers_two(cells: Seq<int>, i: int, j: int)
    requires
        forall|k: int| 0 <= k < cells.len() ==> 0 <= #[trigger] cells[k],
        0 <= i < cells.len(),
        0 <= j < cells.len(),
        i != j,
    ensures
        cells[i] + cells[j] <= weighted_sum(cells, unit_weight()),
{
    let cleared = cells.update(i, cells[i] + (-cells[i]));
    lemma_weighted_sum_update(cells, unit_weight(), i, -cells[i]);
    assert((-cells[i]) * unit_weight()(i) == -cells[i]);
    assert forall|k: int| 0 <= k < cleared.len() implies 0 <= #[trigger] cleared[k] by {
        if k != i {
            assert(cleared[k] == cells[k]);
        }
    }
    lemma_weighted_sum_bounds(cleared, unit_weight());
    assert(cleared[j] * unit_weight()(j) <= weighted_sum(cleared, unit_weight()));
    assert(cleared[j] == cells[j]);
}

} // verus!
