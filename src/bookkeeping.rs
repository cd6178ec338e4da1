use vstd::prelude::*;

use crate::branch::Branch;
use crate::builder::{parent_ref, parents_from, GraphBuilder};
use crate::point::{Line, ParentRef, Point, UnavailablePoint};
use crate::model::{claim_m, close_m, consume_m, draw_m, open_m, reserve_m};
use crate::vertex::Vertex;

verus! {

// The well-formedness of a graph under layout, and the state changes that
// keep it.

/// A parent edge of row `r` that points inside the window points further down.
pub open spec fn parent_in_window(p: ParentRef, r: int, n: int) -> bool {
    match p {
        ParentRef::Row(q) => r < q < n,
        ParentRef::Outside => true,
    }
}

/// Bookkeeping of the vertex at row `r`, among `n` rows and `nb` branches.
pub open spec fn vertex_ok(v: Vertex, r: int, n: int, nb: int) -> bool {
    &&& v.inv()
    &&& v.id == r
    &&& forall|j: int|
        0 <= j < v.parents@.len() ==> parent_in_window(#[trigger] v.parents@[j], r, n)
    &&& forall|k: int| 0 <= k < v.connections@.len() ==> #[trigger] v.connections@[k].on_branch < nb
    &&& match v.on_branch {
        Some(b) => b < nb && v.reserved_for(v.x as int, ParentRef::Row(r as usize), b),
        None => true,
    }
}

/// A segment of branch `b` ending at `p` ends in a reserved slot that either
/// belongs to `b` itself or is the commit of that row (the segment merges into it).
pub open spec fn endpoint_ok(vs: Seq<Vertex>, p: Point, b: int) -> bool {
    &&& p.y < vs.len()
    &&& p.x < vs[p.y as int].connections@.len()
    &&& {
        let c = vs[p.y as int].connections@[p.x as int];
        c.on_branch == b || c.connects_to == ParentRef::Row(p.y)
    }
}

/// Bookkeeping of branch `b`: its colour is a palette slot whose marker is
/// at least the branch's end row, and each of its segments ends well.
/// Both ends of a segment of branch `b` sit in slots reserved for `b` or for
/// the commit of their row.
pub open spec fn segment_ok(vs: Seq<Vertex>, l: Line, b: int) -> bool {
    endpoint_ok(vs, l.p1, b) && endpoint_ok(vs, l.p2, b)
}

pub open spec fn branch_ok(br: Branch, b: int, vs: Seq<Vertex>, colours: Seq<usize>) -> bool {
    &&& br.inv()
    &&& br.colour < colours.len()
    &&& br.end <= colours[br.colour as int]
    &&& forall|j: int| 0 <= j < br.lines@.len() ==> segment_ok(vs, #[trigger] br.lines@[j], b)
}

/// `b` is `a` after some work of the layout: edges and flags are kept, the
/// parent cursor only advances, branch membership is set once, and the
/// reservations only grow.
pub open spec fn vertex_grows(a: Vertex, b: Vertex) -> bool {
    &&& b.id == a.id
    &&& b.parents@ == a.parents@
    &&& b.children@ == a.children@
    &&& b.is_committed == a.is_committed
    &&& b.is_current == a.is_current
    &&& a.next_parent <= b.next_parent
    &&& a.on_branch is Some ==> b.on_branch == a.on_branch && b.x == a.x
    &&& a.connections@.len() <= b.connections@.len()
    &&& forall|k: int| 0 <= k < a.connections@.len() ==> b.connections@[k] == a.connections@[k]
}

impl GraphBuilder {
    pub open spec fn wf(&self) -> bool {
        let n = self.vertices@.len() as int;
        let nb = self.branches@.len() as int;
        &&& forall|r: int| 0 <= r < n ==> vertex_ok(#[trigger] self.vertices@[r], r, n, nb)
        &&& forall|b: int|
            0 <= b < nb ==> branch_ok(
                #[trigger] self.branches@[b],
                b,
                self.vertices@,
                self.available_colours@,
            )
        &&& self.colours_reused_late()
    }

    /// A colour passes to a later branch only after its earlier holder has
    /// ended: of two branches of one colour, the earlier ends before the
    /// later starts.
    pub open spec fn colours_reused_late(&self) -> bool {
        forall|a: int, b: int|
            0 <= a < b < self.branches@.len() && #[trigger] self.branches@[a].colour
                == #[trigger] self.branches@[b].colour ==> self.branches@[a].end < self.branches@[b].start
    }

    pub open spec fn grows_from(&self, old: &GraphBuilder) -> bool {
        &&& self.vertices@.len() == old.vertices@.len()
        &&& forall|r: int|
            0 <= r < old.vertices@.len() ==> vertex_grows(
                old.vertices@[r],
                #[trigger] self.vertices@[r],
            )
        &&& old.branches@.len() <= self.branches@.len()
        &&& old.available_colours@.len() <= self.available_colours@.len()
    }

    /// No layout has been done: no branch, no colour, and no vertex on a
    /// branch, with a reservation, or with a parent edge drawn.
    pub open spec fn untouched(&self) -> bool {
        &&& self.branches@.len() == 0
        &&& self.available_colours@.len() == 0
        &&& forall|r: int|
            0 <= r < self.vertices@.len() ==> {
                &&& (#[trigger] self.vertices@[r]).on_branch is None
                &&& self.vertices@[r].next_parent == 0
                &&& self.vertices@[r].connections@.len() == 0
            }
    }

    /// One branch of colour 0 runs through every row at lane 0 and ends
    /// below the last row; its segments are the vertical one-row steps from
    /// each row to the next.
    pub open spec fn single_lane(&self) -> bool {
        &&& self.branches@.len() == 1
        &&& self.branches@[0].colour == 0
        &&& self.branches@[0].end == self.vertices@.len()
        &&& self.branches@[0].lines@.len() + 1 == self.vertices@.len()
        &&& forall|k: int|
            0 <= k < self.branches@[0].lines@.len() ==> #[trigger] self.branches@[0].lines@[k] == (Line {
                p1: Point { x: 0, y: k as usize },
                p2: Point { x: 0, y: (k + 1) as usize },
                locked_first: false,
            })
        &&& forall|r: int|
            0 <= r < self.vertices@.len() ==> (#[trigger] self.vertices@[r]).on_branch == Some(0usize)
                && self.vertices@[r].x == 0
    }

    /// Every row is on a branch and every parent edge is drawn.
    pub open spec fn resolved(&self) -> bool {
        forall|r: int| 0 <= r < self.vertices@.len() ==> (#[trigger] self.vertices@[r]).pending() == 0
    }

    /// Opens a new, empty branch of colour `colour`.
    pub(crate) fn push_branch(&mut self, colour: usize, start: usize) -> (b: usize)
        requires
            old(self).wf(),
            colour < old(self).available_colours@.len(),
            forall|c: int| 0 <= c < old(self).branches@.len() && #[trigger] old(self).branches@[c].colour == colour
                ==> old(self).branches@[c].end < start,
        ensures
            final(self).model() == open_m(old(self).model(), colour, start),
            final(self).branches@[b as int].start == start,
            final(self).wf(),
            final(self).grows_from(old(self)),
            final(self).vertices == old(self).vertices,
            final(self).available_colours == old(self).available_colours,
            b == old(self).branches@.len(),
            final(self).branches@.len() == b + 1,
            forall|c: int| 0 <= c < b ==> #[trigger] final(self).branches@[c] == old(self).branches@[c],
            final(self).branches@[b as int].colour == colour,
            final(self).branches@[b as int].end == 0,
            final(self).branches@[b as int].lines@ == Seq::<Line>::empty(),
    {
        let b = self.branches.len();
        let mut branch = Branch::new(colour);
        branch.start = start;
        self.branches.push(branch);
        proof {
            let n = self.vertices@.len() as int;
            let nb = self.branches@.len() as int;
            assert forall|r: int| 0 <= r < n implies vertex_ok(#[trigger] self.vertices@[r], r, n, nb) by {
                assert(vertex_ok(old(self).vertices@[r], r, n, nb - 1));
            }
            assert forall|c: int| 0 <= c < nb implies branch_ok(
                #[trigger] self.branches@[c],
                c,
                self.vertices@,
                self.available_colours@,
            ) by {
                if c < b {
                    assert(branch_ok(old(self).branches@[c], c, old(self).vertices@, old(self).available_colours@));
                }
            }
            assert forall|r: int| 0 <= r < n implies vertex_grows(
                old(self).vertices@[r],
                #[trigger] self.vertices@[r],
            ) by {}
        }
        proof {
            let m = open_m(old(self).model(), colour, start);
            assert(self.model().vertices =~= m.vertices);
            assert(self.model().branches =~= m.branches);
            assert(self.model().colours =~= m.colours);
        }
        b
    }

    /// Records `end` as the end row of branch `b` and of its colour slot.
    pub(crate) fn close_branch(&mut self, b: usize, end: usize)
        requires
            old(self).wf(),
            b + 1 == old(self).branches@.len(),
            old(self).available_colours@[old(self).branches@[b as int].colour as int] <= end,
        ensures
            final(self).model() == close_m(old(self).model(), b as int, end),
            final(self).wf(),
            final(self).vertices == old(self).vertices,
            final(self).branches@.len() == old(self).branches@.len(),
            forall|c: int| 0 <= c < old(self).branches@.len() && c != b ==>
                #[trigger] final(self).branches@[c] == old(self).branches@[c],
            final(self).branches@[b as int] == (Branch { end, ..old(self).branches@[b as int] }),
            final(self).available_colours@ == old(self).available_colours@.update(
                old(self).branches@[b as int].colour as int,
                end,
            ),
    {
        proof {
            assert(branch_ok(self.branches@[b as int], b as int, self.vertices@, self.available_colours@));
        }
        let colour = self.branches[b].get_colour();
        self.set_colour_end(colour, end);
        let ghost mid = *self;
        self.branches[b].set_end(end);
        proof {
            let nb = self.branches@.len() as int;
            let n = self.vertices@.len() as int;
            assert forall|r: int| 0 <= r < n implies vertex_ok(#[trigger] self.vertices@[r], r, n, nb) by {
                assert(vertex_ok(mid.vertices@[r], r, n, nb));
            }
            assert forall|c: int| 0 <= c < nb implies branch_ok(
                #[trigger] self.branches@[c],
                c,
                self.vertices@,
                self.available_colours@,
            ) by {
                assert(branch_ok(mid.branches@[c], c, mid.vertices@, mid.available_colours@));
            }
        }
        proof {
            let m = close_m(old(self).model(), b as int, end);
            assert(self.model().vertices =~= m.vertices);
            assert(self.model().branches =~= m.branches);
            assert(self.model().colours =~= m.colours);
        }
    }

    /// Records the end row of the branch that holds colour `colour`.
    pub(crate) fn set_colour_end(&mut self, colour: usize, end: usize)
        requires
            old(self).wf(),
            colour < old(self).available_colours@.len(),
            old(self).available_colours@[colour as int] <= end,
        ensures
            final(self).wf(),
            final(self).vertices == old(self).vertices,
            final(self).branches == old(self).branches,
            final(self).available_colours@ == old(self).available_colours@.update(colour as int, end),
    {
        self.available_colours.set(colour, end);
        proof {
            assert forall|b: int| 0 <= b < self.branches@.len() implies branch_ok(
                #[trigger] self.branches@[b],
                b,
                self.vertices@,
                self.available_colours@,
            ) by {
                assert(branch_ok(old(self).branches@[b], b, old(self).vertices@, old(self).available_colours@));
            }
        }
    }

    /// Reserves lane `x` of row `row` toward `connects_to` on branch `b`, when
    /// `x` is that row's lowest free lane.
    pub(crate) fn reserve(&mut self, row: usize, x: usize, connects_to: ParentRef, b: usize)
        requires
            old(self).wf(),
            row < old(self).vertices@.len(),
            b < old(self).branches@.len(),
        ensures
            final(self).model() == reserve_m(old(self).model(), row as int, x, connects_to, b),
            final(self).wf(),
            final(self).grows_from(old(self)),
            final(self).branches == old(self).branches,
            final(self).available_colours == old(self).available_colours,
            forall|r: int| 0 <= r < old(self).vertices@.len() && r != row ==>
                #[trigger] final(self).vertices@[r] == old(self).vertices@[r],
            x == old(self).vertices@[row as int].next_x ==> final(self).vertices@[row as int] == (Vertex {
                next_x: (x + 1) as usize,
                connections: final(self).vertices@[row as int].connections,
                ..old(self).vertices@[row as int]
            }) && final(self).vertices@[row as int].connections@ == old(self).vertices@[row as int].connections@.push(
                UnavailablePoint { connects_to, on_branch: b },
            ),
            x != old(self).vertices@[row as int].next_x ==> final(self).vertices@[row as int] == old(self).vertices@[row as int],
    {
        proof {
            assert(vertex_ok(self.vertices@[row as int], row as int, self.vertices@.len() as int, self.branches@.len() as int));
        }
        self.vertices[row].register_unavailable_point(x, connects_to, b);
        proof {
            let n = self.vertices@.len() as int;
            let nb = self.branches@.len() as int;
            assert forall|r: int| 0 <= r < n implies vertex_grows(
                old(self).vertices@[r],
                #[trigger] self.vertices@[r],
            ) by {}
            assert forall|r: int| 0 <= r < n implies vertex_ok(#[trigger] self.vertices@[r], r, n, nb) by {
                assert(vertex_ok(old(self).vertices@[r], r, n, nb));
            }
            assert forall|c: int| 0 <= c < nb implies branch_ok(
                #[trigger] self.branches@[c],
                c,
                self.vertices@,
                self.available_colours@,
            ) by {
                let br = self.branches@[c];
                assert(branch_ok(br, c, old(self).vertices@, old(self).available_colours@));
                assert forall|j: int| 0 <= j < br.lines@.len() implies segment_ok(
                    self.vertices@,
                    #[trigger] br.lines@[j],
                    c,
                ) by {
                    lemma_endpoint_stable(old(self).vertices@, self.vertices@, br.lines@[j].p1, c);
                    lemma_endpoint_stable(old(self).vertices@, self.vertices@, br.lines@[j].p2, c);
                }
            }
        }
        proof {
            let m = reserve_m(old(self).model(), row as int, x, connects_to, b);
            assert(self.model().vertices =~= m.vertices);
            assert(self.model().branches =~= m.branches);
            assert(self.model().colours =~= m.colours);
        }
    }

    /// Appends the segment `p1`-`p2` to branch `b`.
    pub(crate) fn draw(&mut self, b: usize, p1: Point, p2: Point, is_committed: bool, locked_first: bool)
        requires
            old(self).wf(),
            b < old(self).branches@.len(),
            endpoint_ok(old(self).vertices@, p1, b as int),
            endpoint_ok(old(self).vertices@, p2, b as int),
        ensures
            final(self).model() == draw_m(old(self).model(), b as int, p1, p2, is_committed, locked_first),
            final(self).wf(),
            final(self).vertices == old(self).vertices,
            final(self).available_colours == old(self).available_colours,
            final(self).branches@.len() == old(self).branches@.len(),
            forall|c: int| 0 <= c < old(self).branches@.len() && c != b ==>
                #[trigger] final(self).branches@[c] == old(self).branches@[c],
            final(self).branches@[b as int].lines@ == old(self).branches@[b as int].lines@.push(
                Line { p1, p2, locked_first },
            ),
            final(self).branches@[b as int].colour == old(self).branches@[b as int].colour,
            final(self).branches@[b as int].end == old(self).branches@[b as int].end,
    {
        proof {
            assert(branch_ok(self.branches@[b as int], b as int, self.vertices@, self.available_colours@));
        }
        self.branches[b].add_line(p1, p2, is_committed, locked_first);
        proof {
            let nb = self.branches@.len() as int;
            let n = self.vertices@.len() as int;
            assert forall|r: int| 0 <= r < n implies vertex_ok(#[trigger] self.vertices@[r], r, n, nb) by {
                assert(vertex_ok(old(self).vertices@[r], r, n, nb));
            }
            assert forall|c: int| 0 <= c < nb implies branch_ok(
                #[trigger] self.branches@[c],
                c,
                self.vertices@,
                self.available_colours@,
            ) by {
                assert(branch_ok(old(self).branches@[c], c, old(self).vertices@, old(self).available_colours@));
                if c == b {
                    let br = self.branches@[c];
                    assert forall|j: int| 0 <= j < br.lines@.len() implies segment_ok(
                        self.vertices@,
                        #[trigger] br.lines@[j],
                        c,
                    ) by {
                        if j < br.lines@.len() - 1 {
                            assert(br.lines@[j] == old(self).branches@[c].lines@[j]);
                        }
                    }
                }
            }
        }
        proof {
            let m = draw_m(old(self).model(), b as int, p1, p2, is_committed, locked_first);
            assert(self.model().vertices =~= m.vertices);
            assert(self.model().branches =~= m.branches);
            assert(self.model().colours =~= m.colours);
        }
    }

    /// Puts the vertex of row `row` on branch `b` at lane `x`, unless it is on
    /// a branch already.
    pub(crate) fn claim(&mut self, row: usize, b: usize, x: usize)
        requires
            old(self).wf(),
            row < old(self).vertices@.len(),
            b < old(self).branches@.len(),
            old(self).vertices@[row as int].on_branch is None ==> old(self).vertices@[row as int].reserved_for(
                x as int,
                ParentRef::Row(row),
                b,
            ),
        ensures
            final(self).model() == claim_m(old(self).model(), row as int, b, x),
            final(self).wf(),
            final(self).grows_from(old(self)),
            final(self).branches == old(self).branches,
            final(self).available_colours == old(self).available_colours,
            forall|r: int| 0 <= r < old(self).vertices@.len() && r != row ==>
                #[trigger] final(self).vertices@[r] == old(self).vertices@[r],
            old(self).vertices@[row as int].on_branch is None ==> final(self).vertices@[row as int] == (Vertex {
                on_branch: Some(b),
                x,
                ..old(self).vertices@[row as int]
            }),
            old(self).vertices@[row as int].on_branch is Some ==> final(self).vertices@[row as int] == old(self).vertices@[row as int],
    {
        self.vertices[row].add_to_branch(b, x);
        proof {
            let n = self.vertices@.len() as int;
            let nb = self.branches@.len() as int;
            assert forall|r: int| 0 <= r < n implies vertex_grows(
                old(self).vertices@[r],
                #[trigger] self.vertices@[r],
            ) by {}
            assert forall|r: int| 0 <= r < n implies vertex_ok(#[trigger] self.vertices@[r], r, n, nb) by {
                assert(vertex_ok(old(self).vertices@[r], r, n, nb));
            }
            assert forall|c: int| 0 <= c < nb implies branch_ok(
                #[trigger] self.branches@[c],
                c,
                self.vertices@,
                self.available_colours@,
            ) by {
                let br = self.branches@[c];
                assert(branch_ok(br, c, old(self).vertices@, old(self).available_colours@));
                assert forall|j: int| 0 <= j < br.lines@.len() implies segment_ok(
                    self.vertices@,
                    #[trigger] br.lines@[j],
                    c,
                ) by {
                    lemma_endpoint_stable(old(self).vertices@, self.vertices@, br.lines@[j].p1, c);
                    lemma_endpoint_stable(old(self).vertices@, self.vertices@, br.lines@[j].p2, c);
                }
            }
        }
        proof {
            let m = claim_m(old(self).model(), row as int, b, x);
            assert(self.model().vertices =~= m.vertices);
            assert(self.model().branches =~= m.branches);
            assert(self.model().colours =~= m.colours);
        }
    }

    /// Marks the next parent edge of row `row` as drawn.
    pub(crate) fn consume_parent(&mut self, row: usize)
        requires
            old(self).wf(),
            row < old(self).vertices@.len(),
            old(self).vertices@[row as int].next_parent < old(self).vertices@[row as int].parents@.len(),
        ensures
            final(self).model() == consume_m(old(self).model(), row as int),
            final(self).wf(),
            final(self).grows_from(old(self)),
            final(self).branches == old(self).branches,
            final(self).available_colours == old(self).available_colours,
            forall|r: int| 0 <= r < old(self).vertices@.len() && r != row ==>
                #[trigger] final(self).vertices@[r] == old(self).vertices@[r],
            final(self).vertices@[row as int].next_parent == old(self).vertices@[row as int].next_parent + 1,
            final(self).vertices@[row as int] == (Vertex {
                next_parent: (old(self).vertices@[row as int].next_parent + 1) as usize,
                ..old(self).vertices@[row as int]
            }),
    {
        proof {
            assert(vertex_ok(self.vertices@[row as int], row as int, self.vertices@.len() as int, self.branches@.len() as int));
        }
        self.vertices[row].register_parent_processed();
        proof {
            assert(old(self).vertices@[row as int].next_parent < old(self).vertices@[row as int].parents.len());
            let n = self.vertices@.len() as int;
            let nb = self.branches@.len() as int;
            assert forall|r: int| 0 <= r < n implies vertex_grows(
                old(self).vertices@[r],
                #[trigger] self.vertices@[r],
            ) by {}
            assert forall|r: int| 0 <= r < n implies vertex_ok(#[trigger] self.vertices@[r], r, n, nb) by {
                assert(vertex_ok(old(self).vertices@[r], r, n, nb));
            }
            assert forall|c: int| 0 <= c < nb implies branch_ok(
                #[trigger] self.branches@[c],
                c,
                self.vertices@,
                self.available_colours@,
            ) by {
                let br = self.branches@[c];
                assert(branch_ok(br, c, old(self).vertices@, old(self).available_colours@));
                assert forall|j: int| 0 <= j < br.lines@.len() implies segment_ok(
                    self.vertices@,
                    #[trigger] br.lines@[j],
                    c,
                ) by {
                    lemma_endpoint_stable(old(self).vertices@, self.vertices@, br.lines@[j].p1, c);
                    lemma_endpoint_stable(old(self).vertices@, self.vertices@, br.lines@[j].p2, c);
                }
            }
        }
        proof {
            let m = consume_m(old(self).model(), row as int);
            assert(self.model().vertices =~= m.vertices);
            assert(self.model().branches =~= m.branches);
            assert(self.model().colours =~= m.colours);
        }
    }
}

/// Every parent edge read from the input points further down the window.
pub proof fn lemma_parents_from_in_window(entries: Seq<(usize, Vec<i32>)>, r: int, n: int)
    ensures
        forall|j: int|
            0 <= j < parents_from(entries, r, n).len() ==> parent_in_window(
                #[trigger] parents_from(entries, r, n)[j],
                r,
                n,
            ),
    decreases entries.len(),
{
    if entries.len() > 0 {
        lemma_parents_from_in_window(entries.drop_last(), r, n);
        let a = parents_from(entries.drop_last(), r, n);
        let s = parents_from(entries, r, n);
        assert forall|j: int| 0 <= j < s.len() implies parent_in_window(#[trigger] s[j], r, n) by {
            if j >= a.len() {
                let last = entries.last();
                if last.0 == r {
                    assert(s[j] == parent_ref(last.1@[j - a.len()], r, n));
                }
            }
        }
    }
}

/// A segment end that sits well stays so while the reservations only grow.
pub proof fn lemma_endpoint_stable(old_vs: Seq<Vertex>, new_vs: Seq<Vertex>, p: Point, b: int)
    requires
        endpoint_ok(old_vs, p, b),
        new_vs.len() == old_vs.len(),
        forall|r: int| 0 <= r < old_vs.len() ==> vertex_grows(old_vs[r], #[trigger] new_vs[r]),
    ensures
        endpoint_ok(new_vs, p, b),
{
    assert(vertex_grows(old_vs[p.y as int], new_vs[p.y as int]));
}

/// Layout work composes: growth from `a` to `b` and from `b` to `c` is growth
/// from `a` to `c`.
pub proof fn lemma_grows_trans(a: &GraphBuilder, b: &GraphBuilder, c: &GraphBuilder)
    requires
        b.grows_from(a),
        c.grows_from(b),
    ensures
        c.grows_from(a),
{
    assert forall|r: int| 0 <= r < a.vertices@.len() implies vertex_grows(
        a.vertices@[r],
        #[trigger] c.vertices@[r],
    ) by {
        assert(vertex_grows(a.vertices@[r], b.vertices@[r]));
        assert(vertex_grows(b.vertices@[r], c.vertices@[r]));
    }
}

} // verus!
