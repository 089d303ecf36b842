//! The colour in which a count is drawn.
use vstd::prelude::*;

verus! {

/// The four colours of a stable grid.
#[derive(Clone, Copy, Debug, PartialEq, Eq, Structural)]
pub enum Bucket {
    Red,
    Green,
    Blue,
    Black,
}

/// The colour of a count below four: red for none, green for one, blue for
/// two and black for three grains. A count of four or more has no colour:
/// it does not occur in a stable grid.
pub open spec fn colour_of(count: u32) -> Option<Bucket> {
    if count == 0 {
        Some(Bucket::Red)
    } else if count == 1 {
        Some(Bucket::Green)
    } else if count == 2 {
        Some(Bucket::Blue)
    } else if count == 3 {
        Some(Bucket::Black)
    } else {
        None
    }
}

/// The colour in which `count` is drawn, or `None` for a count that a stable
/// grid does not hold.
pub fn bucket(count: u32) -> (colour: Option<Bucket>)
    ensures
        colour == colour_of(count),
        colour is Some <==> count < 4,
{
    match count {
        0 => Some(Bucket::Red),
        1 => Some(Bucket::Green),
        2 => Some(Bucket::Blue),
        3 => Some(Bucket::Black),
        _ => None,
    }
}

} // verus!
