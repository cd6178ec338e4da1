use vstd::prelude::*;

verus! {

/// A grid coordinate of the rendered graph: a lane (column) and a row.
#[derive(Clone, Copy, Debug, PartialEq, Eq, Structural)]
pub struct Point {
    pub x: usize,
    pub y: usize,
}

/// A segment between two grid points. `locked_first` anchors the drawn curve
/// to `p1` (it leaves its start vertically); otherwise it is anchored to `p2`.
#[derive(Clone, Copy, Debug, PartialEq, Eq, Structural)]
pub struct Line {
    pub p1: Point,
    pub p2: Point,
    pub locked_first: bool,
}

/// Where a parent edge points: a row of the loaded window, or an ancestor
/// that lies outside of it.
#[derive(Clone, Copy, Debug, PartialEq, Eq, Structural)]
pub enum ParentRef {
    Row(usize),
    Outside,
}

/// A lane of a vertex's row that is already committed to routing toward
/// `connects_to` on branch `on_branch`.
#[derive(Clone, Copy, Debug, PartialEq, Eq, Structural)]
pub struct UnavailablePoint {
    pub connects_to: ParentRef,
    pub on_branch: usize,
}

} // verus!
