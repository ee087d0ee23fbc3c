//! A quad tree: a tree that stores items at points of a rectangular area and
//! finds again the items that lie in a given part of it.
//!
//! Coordinates can be any primitive integer type (see `PositionUnit`); items
//! need no trait bounds.
use vstd::prelude::*;

pub mod boundary;
pub mod capacity;
pub mod coordinate;
pub mod point;
pub mod text;
pub mod tree;

pub use boundary::Boundary;
pub use capacity::{Capacity, ConstCap, DynCap};
pub use coordinate::PositionUnit;
pub use point::Point;
pub use tree::iter::{Iter, IterPoints};
pub use tree::query::{Query, QueryPoints};
pub use tree::{AsPoint, QuadTree, QuadTreeError};

verus! {

} // verus!
