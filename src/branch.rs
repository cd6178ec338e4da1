use vstd::prelude::*;

use crate::point::{Line, Point};

verus! {

/// One continuous coloured run of lanes in the rendered graph.
pub struct Branch {
    /// Palette index, before any reduction to a bucket.
    pub colour: usize,
    /// Row at which the branch starts.
    pub start: usize,
    /// Row at which the branch's last activity stopped (exclusive).
    pub end: usize,
    /// Segments in the order they were drawn.
    pub lines: Vec<Line>,
    /// Count of provisional segments near the top of history.
    pub num_uncommitted: usize,
}

/// The counter of provisional segments after a segment ending at `p2` is added.
pub open spec fn next_uncommitted(count: usize, p2: Point, is_committed: bool) -> int {
    if is_committed {
        if p2.x == 0 && p2.y < count {
            p2.y as int
        } else {
            count as int
        }
    } else {
        count + 1
    }
}

impl Branch {
    pub open spec fn inv(&self) -> bool {
        self.num_uncommitted <= self.lines@.len()
    }

    pub fn new(colour: usize) -> (r: Self)
        ensures
            r.colour == colour,
            r.start == 0,
            r.end == 0,
            r.lines@ == Seq::<Line>::empty(),
            r.num_uncommitted == 0,
            r.inv(),
    {
        Branch { colour, start: 0, end: 0, lines: Vec::new(), num_uncommitted: 0 }
    }

    /// Appends the segment `p1`-`p2`.
    pub fn add_line(&mut self, p1: Point, p2: Point, is_committed: bool, locked_first: bool)
        requires
            old(self).inv(),
        ensures
            final(self).inv(),
            final(self).colour == old(self).colour,
            final(self).start == old(self).start,
            final(self).end == old(self).end,
            final(self).lines@ == old(self).lines@.push(Line { p1, p2, locked_first }),
            final(self).num_uncommitted == next_uncommitted(
                old(self).num_uncommitted,
                p2,
                is_committed,
            ),
    {
        self.lines.push(Line { p1, p2, locked_first });
        if is_committed {
            if p2.x == 0 && p2.y < self.num_uncommitted {
                self.num_uncommitted = p2.y;
            }
        } else {
            assert(self.num_uncommitted < self.lines.len());
            self.num_uncommitted = self.num_uncommitted + 1;
        }
    }

    pub fn get_colour(&self) -> (r: usize)
        ensures
            r == self.colour,
    {
        self.colour
    }

    pub fn set_end(&mut self, end: usize)
        ensures
            *final(self) == (Branch { end, ..*old(self) }),
    {
        self.end = end;
    }
}

} // verus!
