//! The set of cells that wait to topple.
//!
//! The set is a hash set of `rustc_hash`, keyed by the two coordinates of a
//! cell. What the hash set does is not verified here: the few functions at
//! the top of this file state it, and everything below is proved from them.
use vstd::prelude::*;
use vstd::set_lib::lemma_map_size;
use rustc_hash::FxHashSet;
use crate::point::Point;

verus! {

/// The hasher builder of `rustc_hash`. It holds no state: every hasher it
/// builds starts from the same value.
#[verifier::external_type_specification]
#[verifier::external_body]
pub struct ExFxBuildHasher(rustc_hash::FxBuildHasher);

/// Calls `HashSet::insert` on a set with the Fx hasher.
///
/// Believed of it, as the standard library documents the method: the key is
/// in the set afterwards, nothing else changes, and the result tells whether
/// the key was new.
#[verifier::external_body]
fn fx_insert(set: &mut FxHashSet<(usize, usize)>, key: (usize, usize)) -> (fresh: bool)
    ensures
        final(set)@ == old(set)@.insert(key),
        fresh == !old(set)@.contains(key),
{
    set.insert(key)
}

/// Calls `HashSet::remove` on a set with the Fx hasher.
///
/// Believed of it: the key is gone afterwards, nothing else changes, and the
/// result tells whether the key was there.
#[verifier::external_body]
fn fx_remove(set: &mut FxHashSet<(usize, usize)>, key: (usize, usize)) -> (found: bool)
    ensures
        final(set)@ == old(set)@.remove(key),
        found == old(set)@.contains(key),
{
    set.remove(&key)
}

/// Calls `HashSet::take` on a set with the Fx hasher.
///
/// Believed of it: the key is gone afterwards, nothing else changes, and the
/// key comes back if and only if it was there.
#[verifier::external_body]
fn fx_take(set: &mut FxHashSet<(usize, usize)>, key: (usize, usize)) -> (taken: Option<
    (usize, usize),
>)
    ensures
        final(set)@ == old(set)@.remove(key),
        taken == if old(set)@.contains(key) {
            Some(key)
        } else {
            None::<(usize, usize)>
        },
{
    set.take(&key)
}

/// Calls `HashSet::len` on a set with the Fx hasher.
///
/// Believed of it: the result is the number of keys in the set.
#[verifier::external_body]
fn fx_len(set: &FxHashSet<(usize, usize)>) -> (count: usize)
    ensures
        count == set@.len(),
{
    set.len()
}

/// Asks the iterator of `HashSet::iter` for its first key.
///
/// Which key comes first depends on how the table was filled, so nothing is
/// said of it but that it is a key of the set. Believed besides: there is no
/// first key only if the set is empty.
#[verifier::external_body]
fn fx_first(set: &FxHashSet<(usize, usize)>) -> (first: Option<(usize, usize)>)
    ensures
        match first {
            Some(key) => set@.contains(key),
            None => set@ == Set::<(usize, usize)>::empty(),
        },
{
    set.iter().next().copied()
}

/// The cells that wait to topple. No cell is in the set twice.
pub struct UnstableSet {
    set: FxHashSet<(usize, usize)>,
}

/// The cell that a key of the hash set stands for.
pub open spec fn cell_of(key: (usize, usize)) -> Point {
    Point { x: key.0, y: key.1 }
}

impl View for UnstableSet {
    type V = Set<Point>;

    /// The cells in the set.
    closed spec fn view(&self) -> Set<Point> {
        Set::new(|p: Point| self.set@.contains((p.x, p.y)))
    }
}

impl UnstableSet {
    /// The cells are the keys, one for one.
    proof fn lemma_view_is_image(self)
        requires
            self@.finite(),
        ensures
            self.set@.finite(),
            self@.len() == self.set@.len(),
    {
        let keys = self@.map(|p: Point| (p.x, p.y));
        assert forall|key: (usize, usize)| self.set@.contains(key) implies keys.contains(key) by {
            assert(self@.contains(cell_of(key)) && key == (cell_of(key).x, cell_of(key).y));
        }
        assert(keys =~= self.set@);
        self@.lemma_map_finite(|p: Point| (p.x, p.y));
        let image = self.set@.map(|key: (usize, usize)| cell_of(key));
        assert forall|p: Point| self@.contains(p) implies image.contains(p) by {
            assert(self.set@.contains((p.x, p.y)) && p == cell_of((p.x, p.y)));
        }
        assert(image =~= self@);
        assert(vstd::relations::injective_on(|key: (usize, usize)| cell_of(key), self.set@));
        lemma_map_size(self.set@, self@, |key: (usize, usize)| cell_of(key));
    }

    /// An empty set.
    pub fn new() -> (fresh: UnstableSet)
        ensures
            fresh@ == Set::<Point>::empty(),
    {
        let fresh = UnstableSet { set: FxHashSet::default() };
        assert(fresh@ =~= Set::<Point>::empty());
        fresh
    }

    /// Puts `p` into the set. A cell that is in the set already stays there
    /// once. The result tells whether `p` was new.
    pub fn insert(&mut self, p: Point) -> (fresh: bool)
        ensures
            final(self)@ == old(self)@.insert(p),
            fresh == !old(self)@.contains(p),
    {
        let fresh = fx_insert(&mut self.set, (p.x, p.y));
        assert(self@ =~= old(self)@.insert(p));
        fresh
    }

    /// Takes `p` out of the set, and does nothing if it is not there. The
    /// result tells whether it was.
    pub fn remove(&mut self, p: &Point) -> (found: bool)
        ensures
            final(self)@ == old(self)@.remove(*p),
            found == old(self)@.contains(*p),
    {
        let found = fx_remove(&mut self.set, (p.x, p.y));
        assert(self@ =~= old(self)@.remove(*p));
        found
    }

    /// Takes `p` out of the set and hands it back, or hands back `None` if it
    /// is not there.
    pub fn take(&mut self, p: &Point) -> (taken: Option<Point>)
        ensures
            final(self)@ == old(self)@.remove(*p),
            taken == if old(self)@.contains(*p) {
                Some(*p)
            } else {
                None::<Point>
            },
    {
        let taken = fx_take(&mut self.set, (p.x, p.y));
        assert(self@ =~= old(self)@.remove(*p));
        match taken {
            Some(key) => Some(Point { x: key.0, y: key.1 }),
            None => None,
        }
    }

    /// The number of cells in the set. A set that was filled cell by cell is
    /// finite, and the count is then its size.
    pub fn len(&self) -> (count: usize)
        ensures
            self@.finite() ==> count == self@.len(),
    {
        let count = fx_len(&self.set);
        proof {
            if self@.finite() {
                self.lemma_view_is_image();
            }
        }
        count
    }

    /// Takes some cell out of the set and hands it back, or hands back `None`
    /// if the set is empty. Which cell comes is not fixed.
    pub fn take_any(&mut self) -> (taken: Option<Point>)
        ensures
            match taken {
                Some(p) => old(self)@.contains(p) && final(self)@ == old(self)@.remove(p),
                None => old(self)@ == Set::<Point>::empty() && final(self)@ == old(self)@,
            },
    {
        match fx_first(&self.set) {
            Some(key) => {
                let p = Point { x: key.0, y: key.1 };
                self.take(&p)
            },
            None => {
                assert(self@ =~= Set::<Point>::empty());
                None
            },
        }
    }
}

} // verus!
