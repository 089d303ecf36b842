//! The Abelian sandpile model on a finite rectangular lattice.
//!
//! Grains of sand sit on the cells of a [`grid::Grid`]. A cell that holds four
//! grains or more is unstable: it topples, handing one grain to each of its
//! four cardinal neighbours, and grains pushed over the border are lost.
//! [`engine::run_iteration`] topples until no unstable cell is left.
//!
//! Contracts speak of a grid through its [`pile::Pile`], the grid as a
//! mathematical object. [`toppling`] proves what makes the model Abelian: the
//! stable pile that a pile comes to does not depend on the order in which its
//! cells topple.
pub mod cli;
pub mod csv;
pub mod engine;
pub mod grid;
pub mod mirror;
pub mod palette;
pub mod pile;
pub mod point;
pub mod random;
pub mod sums;
pub mod toppling;
pub mod worklist;
