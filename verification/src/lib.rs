//! Exact geometric search for grid subsets without four concyclic points.
//!
//! The library enumerates, for growing subset sizes, the n-element subsets of
//! an integer grid in lexicographic index order, and looks for one in which no
//! four points lie on a common circle (collinear quadruples count as
//! degenerate circles).  All predicates work in exact integer arithmetic.

pub mod combinations;
pub mod feasibility;
pub mod geometry;
pub mod search;

pub use geometry::Point;
