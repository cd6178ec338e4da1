use vstd::prelude::*;

use crate::branch::Branch;
use crate::builder::GraphBuilder;
use crate::point::Line;
use crate::svg::{curve_text, decimal, line_text, push_curve, push_decimal, push_line};

verus! {

/// Horizontal distance between two lanes.
pub const COL_SPACING: u128 = 16;

/// Horizontal offset of lane 0.
pub const COL_OFFSET: u128 = 7;

/// Height of one row.
pub const ROW_HEIGHT: u128 = 28;

/// Vertical position of a row's node, from the top of the row.
pub const NODE_CENTER_Y: u128 = 14;

/// Number of path buckets; a branch draws into bucket `colour % PATH_BUCKETS`.
pub const PATH_BUCKETS: usize = 8;

/// Horizontal position of the centre of lane `lane`.
pub open spec fn lane_x(lane: usize) -> nat {
    (lane * COL_SPACING + COL_OFFSET) as nat
}

/// The piece of a cross-lane segment drawn in row `row`: at its start row it
/// leaves the start point, at its end row it reaches the end point, and it
/// draws nothing elsewhere. A segment anchored to its start curves away in
/// its start row and comes straight down into its end; one anchored to its
/// end goes straight down out of its start and curves in its end row.
pub open spec fn curve_piece(l: Line, row: usize) -> Seq<char> {
    let x1 = lane_x(l.p1.x);
    let x2 = lane_x(l.p2.x);
    if l.p1.y == row {
        if l.locked_first {
            curve_text(x1, 14, x1, 28, x2, 28, x2, 28)
        } else {
            line_text(x1, 14, x1, 28)
        }
    } else if l.p2.y == row {
        if l.locked_first {
            line_text(x2, 0, x2, 14)
        } else {
            curve_text(x1, 0, x1, 0, x2, 0, x2, 14)
        }
    } else {
        Seq::empty()
    }
}

/// The piece of segment `l` drawn in row `row`, in the row's own vertical
/// coordinates (0 at its top, 14 at its node, 28 at its bottom). A same-lane
/// segment is a vertical stroke clipped to the row; a cross-lane one is a
/// curve piece at its start and end rows; a row it only passes through gets
/// a vertical stroke on the lane its curves reach there, which joins the two
/// pieces (the end lane when anchored to the start, the start lane otherwise).
pub open spec fn segment_text(l: Line, row: usize) -> Seq<char> {
    if l.p1.x == l.p2.x {
        if l.p1.y <= row <= l.p2.y && l.p1.y < l.p2.y {
            let x = lane_x(l.p1.x);
            line_text(
                x,
                if l.p1.y < row {
                    0
                } else {
                    14
                },
                x,
                if l.p2.y > row {
                    28
                } else {
                    14
                },
            )
        } else {
            Seq::empty()
        }
    } else if l.p1.y == row || l.p2.y == row {
        curve_piece(l, row)
    } else if l.p1.y < row < l.p2.y {
        let x = if l.locked_first {
            lane_x(l.p2.x)
        } else {
            lane_x(l.p1.x)
        };
        line_text(x, 0, x, 28)
    } else {
        Seq::empty()
    }
}

/// What the segments `lines` draw in row `row`, in order.
pub open spec fn lines_text(lines: Seq<Line>, row: usize) -> Seq<char>
    decreases lines.len(),
{
    if lines.len() == 0 {
        Seq::empty()
    } else {
        lines_text(lines.drop_last(), row) + segment_text(lines.last(), row)
    }
}

/// What the branches of bucket `k` draw in row `row`, branch by branch.
pub open spec fn bucket_text(bs: Seq<Branch>, k: nat, row: usize) -> Seq<char>
    decreases bs.len(),
{
    if bs.len() == 0 {
        Seq::empty()
    } else {
        bucket_text(bs.drop_last(), k, row) + if bs.last().colour % PATH_BUCKETS == k {
            lines_text(bs.last().lines@, row)
        } else {
            Seq::empty()
        }
    }
}

/// A circle of radius 4 around the node of a row whose commit is at lane `lane`.
pub open spec fn node_text(lane: usize) -> Seq<char> {
    "M "@ + decimal(lane_x(lane)) + " 14 m -4 0 a 4 4 0 1 0 8 0 a 4 4 0 1 0 -8 0 "@
}

/// Horizontal position of the centre of lane `lane`.
pub fn lane_position(lane: usize) -> (r: u128)
    ensures
        r == lane_x(lane),
{
    assert(lane <= u64::MAX);
    lane as u128 * COL_SPACING + COL_OFFSET
}

impl GraphBuilder {
    /// The SVG paths drawn in row `row`: one per bucket, made of the pieces
    /// in that row of the segments of every branch whose colour falls in the
    /// bucket, and the marker of the row's commit node.
    pub fn generate_svg_paths(&self, row: usize) -> (r: (Vec<String>, String))
        ensures
            r.0@.len() == PATH_BUCKETS,
            forall|k: int| 0 <= k < PATH_BUCKETS ==> (#[trigger] r.0@[k])@ == bucket_text(self.branches@, k as nat, row),
            r.1@ == if row < self.vertices@.len() {
                node_text(self.vertices@[row as int].x)
            } else {
                Seq::empty()
            },
    {
        let mut paths: Vec<String> = Vec::new();
        let mut k: usize = 0;
        while k < PATH_BUCKETS
            invariant
                k <= PATH_BUCKETS,
                paths@.len() == k,
                forall|m: int| 0 <= m < k ==> (#[trigger] paths@[m])@ == Seq::<char>::empty(),
            decreases PATH_BUCKETS - k,
        {
            paths.push(String::new());
            k = k + 1;
        }
        let mut b: usize = 0;
        while b < self.branches.len()
            invariant
                b <= self.branches@.len(),
                paths@.len() == PATH_BUCKETS,
                forall|m: int| 0 <= m < PATH_BUCKETS ==> (#[trigger] paths@[m])@ == bucket_text(
                    self.branches@.take(b as int),
                    m as nat,
                    row,
                ),
            decreases self.branches@.len() - b,
        {
            let bucket = self.branches[b].get_colour() % PATH_BUCKETS;
            let ghost lines = self.branches@[b as int].lines@;
            let mut j: usize = 0;
            while j < self.branches[b].lines.len()
                invariant
                    b < self.branches@.len(),
                    lines == self.branches@[b as int].lines@,
                    bucket == self.branches@[b as int].colour % PATH_BUCKETS,
                    j <= lines.len(),
                    paths@.len() == PATH_BUCKETS,
                    forall|m: int| 0 <= m < PATH_BUCKETS && m != bucket ==> (#[trigger] paths@[m])@ == bucket_text(
                        self.branches@.take(b as int),
                        m as nat,
                        row,
                    ),
                    paths@[bucket as int]@ == bucket_text(self.branches@.take(b as int), bucket as nat, row)
                        + lines_text(lines.take(j as int), row),
                decreases lines.len() - j,
            {
                let line = self.branches[b].lines[j];
                let ghost before = paths@[bucket as int]@;
                if line.p1.y == row || line.p2.y == row || (line.p1.y < row && row < line.p2.y) {
                    if line.p1.x == line.p2.x {
                        let top: u128 = if line.p1.y < row {
                            0
                        } else {
                            NODE_CENTER_Y
                        };
                        let bottom: u128 = if line.p2.y > row {
                            ROW_HEIGHT
                        } else {
                            NODE_CENTER_Y
                        };
                        if top < bottom {
                            let x = lane_position(line.p1.x);
                            push_line(&mut paths[bucket], x, top, x, bottom);
                        }
                    } else if line.p1.y == row || line.p2.y == row {
                        self.draw_curve_segment(&mut paths[bucket], &line, row);
                    } else {
                        let x = if line.locked_first {
                            lane_position(line.p2.x)
                        } else {
                            lane_position(line.p1.x)
                        };
                        push_line(&mut paths[bucket], x, 0, x, ROW_HEIGHT);
                    }
                }
                proof {
                    assert(lines.take(j + 1).drop_last() == lines.take(j as int));
                    assert(paths@[bucket as int]@ == before + segment_text(line, row));
                    assert(paths@[bucket as int]@ =~= bucket_text(self.branches@.take(b as int), bucket as nat, row)
                        + lines_text(lines.take(j + 1), row));
                }
                j = j + 1;
            }
            proof {
                assert(lines.take(lines.len() as int) == lines);
                assert(self.branches@.take(b + 1).drop_last() == self.branches@.take(b as int));
                assert forall|m: int| 0 <= m < PATH_BUCKETS implies (#[trigger] paths@[m])@ == bucket_text(
                    self.branches@.take(b + 1),
                    m as nat,
                    row,
                ) by {
                    assert(self.branches@.take(b + 1).last() == self.branches@[b as int]);
                }
            }
            b = b + 1;
        }
        proof {
            assert(self.branches@.take(self.branches@.len() as int) == self.branches@);
        }
        let mut node_path = String::new();
        if row < self.vertices.len() {
            node_path.append("M ");
            push_decimal(&mut node_path, lane_position(self.vertices[row].x));
            node_path.append(" 14 m -4 0 a 4 4 0 1 0 8 0 a 4 4 0 1 0 -8 0 ");
        }
        (paths, node_path)
    }

    /// Appends the piece of the cross-lane segment `line` drawn in row `row`.
    /// The control points sit on the row's edge, so that the pieces of the
    /// start and end rows join into one S-curve.
    fn draw_curve_segment(&self, path: &mut String, line: &Line, row: usize)
        ensures
            final(path)@ == old(path)@ + curve_piece(*line, row),
    {
        let x1 = lane_position(line.p1.x);
        let x2 = lane_position(line.p2.x);
        if line.p1.y == row {
            if line.locked_first {
                push_curve(path, x1, NODE_CENTER_Y, x1, ROW_HEIGHT, x2, ROW_HEIGHT, x2, ROW_HEIGHT);
            } else {
                push_line(path, x1, NODE_CENTER_Y, x1, ROW_HEIGHT);
            }
        } else if line.p2.y == row {
            if line.locked_first {
                push_line(path, x2, 0, x2, NODE_CENTER_Y);
            } else {
                push_curve(path, x1, 0, x1, 0, x2, 0, x2, NODE_CENTER_Y);
            }
        } else {
            assert(curve_piece(*line, row) == Seq::<char>::empty());
            assert(old(path)@ + Seq::<char>::empty() =~= old(path)@);
        }
    }
}

} // verus!
