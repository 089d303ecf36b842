//! Grids filled at random.
//!
//! The random numbers come from the thread-local generator of `rand`. What
//! the generator hands out is not verified here, and cannot be: the two
//! functions at the top of this file state what holds of every outcome.
use vstd::prelude::*;
use rand::rngs::ThreadRng;
use rand::Rng;

verus! {

/// The thread-local random number generator of `rand`.
#[verifier::external_type_specification]
#[verifier::external_body]
pub struct ExThreadRng(rand::rngs::ThreadRng);

/// Calls `rand::rng` for a handle to the generator of this thread. Nothing
/// is said of the handle. The generator is seeded from the random source of
/// the operating system when a thread first asks for it, and panics if that
/// source fails: no caller can rule that out, and it is not part of what is
/// believed here.
#[verifier::external_body]
fn thread_rng() -> ThreadRng {
    rand::rng()
}

/// Calls `Rng::random_range` with the range from `low` up to, and without,
/// `high`.
///
/// Believed of it, as `rand` documents the method: on a range that is not
/// empty the value that it returns lies in the range. Which value comes is
/// left open. An empty range makes it panic, and is left out. It panics as
/// well if the generator has to be seeded anew and the random source of the
/// operating system fails; like running out of memory, that is outside what
/// a contract can exclude.
#[verifier::external_body]
fn random_range(rng: &mut ThreadRng, low: u32, high: u32) -> (value: u32)
    requires
        low < high,
    ensures
        low <= value < high,
{
    rng.random_range(low..high)
}

/// All counts in `rows` are below `bound`.
pub open spec fn counts_below(rows: Seq<Vec<u32>>, bound: u32) -> bool {
    forall|i: int, j: int|
        0 <= i < rows.len() && 0 <= j < rows[i]@.len() ==> #[trigger] rows[i]@[j] < bound
}

/// `width` rows of `height` counts each, every count drawn at random from
/// `0` to `4`.
pub fn gen_grid(width: u32, height: u32) -> (grid: Vec<Vec<u32>>)
    ensures
        grid@.len() == width,
        forall|i: int| 0 <= i < grid@.len() ==> (#[trigger] grid@[i])@.len() == height,
        counts_below(grid@, 5),
{
    let mut rng = thread_rng();
    let mut grid: Vec<Vec<u32>> = Vec::new();
    let mut i: u32 = 0;
    while i < width
        invariant
            i <= width,
            grid@.len() == i,
            forall|k: int| 0 <= k < grid@.len() ==> (#[trigger] grid@[k])@.len() == height,
            counts_below(grid@, 5),
        decreases width - i,
    {
        let mut row: Vec<u32> = Vec::new();
        let mut j: u32 = 0;
        while j < height
            invariant
                j <= height,
                row@.len() == j,
                forall|k: int| 0 <= k < row@.len() ==> #[trigger] row@[k] < 5,
            decreases height - j,
        {
            let count = random_range(&mut rng, 0, 5);
            row.push(count);
            j += 1;
        }
        grid.push(row);
        i += 1;
    }
    grid
}

} // verus!
