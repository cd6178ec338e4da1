use vstd::prelude::*;

use crate::branch::Branch;
use crate::bookkeeping::{
    endpoint_ok, lemma_endpoint_stable, parent_in_window, branch_ok, lemma_grows_trans, lemma_parents_from_in_window, vertex_grows, vertex_ok,
};
use crate::model::{
    alloc_m, first_free, lemma_first_free, merge_walk, normal_walk, normal_path_m, determine_m, scan,
    layout, initial, consume_m, claim_m, draw_m, reserve_m, open_m, close_m, first_slot,
    lemma_first_slot, origin_of, merge_case_m, next_parent_of, pending_of,
};
use crate::point::{Line, ParentRef, Point, UnavailablePoint};
use crate::vertex::Vertex;

verus! {

/// The commit-graph layout engine: it owns the vertices of the loaded rows,
/// the branches drawn through them, and the colour palette markers.
pub struct GraphBuilder {
    pub vertices: Vec<Vertex>,
    pub branches: Vec<Branch>,
    /// For each colour slot, the end row of its latest occupant.
    pub available_colours: Vec<usize>,
}

/// The segments that a merge stitch of row `start` toward its parent row `pid`,
/// leaving from point `from`, appends to the parent's branch `pb`, against the
/// state `g` it started from. They go down one row at a time, each joined to
/// the one before, and never pass the parent's row; each is anchored to its
/// start exactly when it is not the last one and moves to a higher lane; each row
/// before the last has no reservation toward the parent and the segment takes
/// its lowest free lane; the last one ends on the first reservation toward the
/// parent on `pb`, or, where the parent's row holds none, on that row's lowest
/// free lane.
pub open spec fn stitch_ok(
    g: &GraphBuilder,
    lines: Seq<Line>,
    start: int,
    pid: int,
    pb: int,
    from: Point,
) -> bool {
    let old_lines = g.branches@[pb].lines@;
    let base = old_lines.len() as int;
    let target = ParentRef::Row(pid as usize);
    &&& base < lines.len()
    &&& forall|j: int| 0 <= j < base ==> #[trigger] lines[j] == old_lines[j]
    &&& start + (lines.len() - base) <= pid
    &&& forall|j: int| base <= j < lines.len() ==> #[trigger] lines[j].p2.y == start + 1 + (j - base)
    &&& forall|j: int|
        base <= j < lines.len() ==> (#[trigger] lines[j]).p1 == if j == base {
            from
        } else {
            lines[j - 1].p2
        } && lines[j].locked_first == (j < lines.len() - 1 && lines[j].p1.x < lines[j].p2.x)
    &&& forall|j: int|
        base <= j < lines.len() - 1 ==> {
            let p = #[trigger] lines[j].p2;
            let v = g.vertices@[p.y as int];
            &&& forall|k: int| !#[trigger] v.reserved_for(k, target, pb as usize)
            &&& p.x == v.next_x
        }
    &&& {
        let p = lines.last().p2;
        let v = g.vertices@[p.y as int];
        ||| v.reserved_for(p.x as int, target, pb as usize) && forall|k: int|
            0 <= k < p.x ==> !#[trigger] v.reserved_for(k, target, pb as usize)
        ||| p.y == pid && (forall|k: int| !#[trigger] v.reserved_for(k, target, pb as usize)) && p.x == v.next_x
    }
}

/// A summary of the segments that a walk from row `start`, leaving from
/// point `from`, draws on its new branch (`normal_path_m` gives them exactly), against the state `g` it started from: one per
/// row going down from the row below `start`, each joined to the one before;
/// each is anchored to its start exactly when it moves to a higher lane, and
/// ends on its row's lowest free lane or, merging, on the lane of a commit
/// that is on a branch already.
pub open spec fn walk_ok(g: &GraphBuilder, lines: Seq<Line>, start: int, from: Point) -> bool {
    forall|j: int|
        0 <= j < lines.len() ==> {
            let l = #[trigger] lines[j];
            let v = g.vertices@[l.p2.y as int];
            &&& l.p2.y == start + 1 + j
            &&& l.p1 == if j == 0 {
                from
            } else {
                lines[j - 1].p2
            }
            &&& l.locked_first == (l.p1.x < l.p2.x)
            &&& l.p2.x == v.next_x || (v.on_branch is Some && l.p2.x == v.x)
        }
}

/// How an input parent of row `r` is read among `n` rows: a later row of the
/// window, or, for the null marker and any reference that is not such a row,
/// an ancestor outside the window.
pub open spec fn parent_ref(p: i32, r: int, n: int) -> ParentRef {
    if r < p < n {
        ParentRef::Row(p as usize)
    } else {
        ParentRef::Outside
    }
}

/// The parent edges of row `r` given by the input entries, in input order.
pub open spec fn parents_from(entries: Seq<(usize, Vec<i32>)>, r: int, n: int) -> Seq<ParentRef>
    decreases entries.len(),
{
    if entries.len() == 0 {
        Seq::empty()
    } else {
        let last = entries.last();
        parents_from(entries.drop_last(), r, n) + if last.0 == r {
            last.1@.map_values(|p: i32| parent_ref(p, r, n))
        } else {
            Seq::empty()
        }
    }
}

/// Row `idx` once for each entry of `ps` that names row `r` as its parent.
pub open spec fn child_marks(ps: Seq<i32>, idx: int, r: int, n: int) -> Seq<usize>
    decreases ps.len(),
{
    if ps.len() == 0 {
        Seq::empty()
    } else {
        child_marks(ps.drop_last(), idx, r, n) + if parent_ref(ps.last(), idx, n) == ParentRef::Row(
            r as usize,
        ) {
            seq![idx as usize]
        } else {
            Seq::empty()
        }
    }
}

/// The child edges of row `r` given by the input entries: the rows that
/// name it as a parent, in input order.
pub open spec fn children_from(entries: Seq<(usize, Vec<i32>)>, r: int, n: int) -> Seq<usize>
    decreases entries.len(),
{
    if entries.len() == 0 {
        Seq::empty()
    } else {
        let last = entries.last();
        children_from(entries.drop_last(), r, n) + if last.0 < n {
            child_marks(last.1@, last.0 as int, r, n)
        } else {
            Seq::empty()
        }
    }
}

/// Row `r` of a loaded graph carries exactly the edges and flags of the input.
pub open spec fn row_from_input(
    v: Vertex,
    r: int,
    entries: Seq<(usize, Vec<i32>)>,
    n: int,
    head_index: Option<usize>,
    has_uncommitted: bool,
) -> bool {
    &&& v.id == r
    &&& v.parents@ == parents_from(entries, r, n)
    &&& v.children@ == children_from(entries, r, n)
    &&& v.is_current == (head_index == Some(r as usize))
    &&& v.is_committed == !(has_uncommitted && r == 0)
}

/// A parent reference moved one row down; the null marker stays, and a
/// reference that cannot move stands for an ancestor outside the window.
pub open spec fn shift_parent(p: i32) -> i32 {
    if p < 0 {
        -1i32
    } else if p < i32::MAX {
        (p + 1) as i32
    } else {
        -1i32
    }
}

/// `shifted` is `entries` with every row and parent reference moved one row
/// down, after a first entry for the synthetic row 0, which has no parents.
pub open spec fn shifted_entries(shifted: Seq<(usize, Vec<i32>)>, entries: Seq<(usize, Vec<i32>)>) -> bool {
    &&& shifted.len() == entries.len() + 1
    &&& shifted[0].0 == 0
    &&& shifted[0].1@.len() == 0
    &&& forall|k: int|
        0 <= k < entries.len() ==> {
            &&& (#[trigger] shifted[k + 1]).0 == if entries[k].0 < usize::MAX {
                (entries[k].0 + 1) as usize
            } else {
                entries[k].0
            }
            &&& shifted[k + 1].1@ == entries[k].1@.map_values(|p: i32| shift_parent(p))
        }
}

/// The colour of the vertex of row `row`, or 0 where there is none.
pub open spec fn colour_at(vs: Seq<Vertex>, bs: Seq<Branch>, row: int) -> usize {
    if 0 <= row < vs.len() {
        match vs[row].on_branch {
            Some(b) => if b < bs.len() {
                bs[b as int].colour
            } else {
                0
            },
            None => 0,
        }
    } else {
        0
    }
}

/// Each row's only parent edge is the next row, and the last row's is outside
/// the window.
pub open spec fn linear_rows(vs: Seq<Vertex>) -> bool {
    forall|r: int|
        0 <= r < vs.len() ==> (#[trigger] vs[r]).parents@ == if r + 1 < vs.len() {
            seq![ParentRef::Row((r + 1) as usize)]
        } else {
            seq![ParentRef::Outside]
        }
}

impl GraphBuilder {
    pub fn new() -> (r: Self)
        ensures
            r.wf(),
            r.vertices@.len() == 0,
            r.branches@.len() == 0,
            r.available_colours@.len() == 0,
    {
        GraphBuilder { vertices: Vec::new(), branches: Vec::new(), available_colours: Vec::new() }
    }

    /// The vertex of row `start` is a merge on a branch whose next parent
    /// edge leads to a row that is on a branch already.
    pub open spec fn merge_case(&self, start: int) -> bool {
        let v = self.vertices@[start];
        &&& v.on_branch is Some
        &&& v.parents@.len() > 1
        &&& v.next_parent_spec() matches Some(ParentRef::Row(q))
        &&& self.vertices@[q as int].on_branch is Some
    }

    /// Where a walk from row `start` leaves from: the commit's own point, or
    /// the row's lowest free lane when the commit is on no branch yet.
    pub open spec fn walk_origin(&self, start: int) -> Point {
        let v = self.vertices@[start];
        if v.on_branch is None {
            v.get_next_point_spec()
        } else {
            v.get_point_spec()
        }
    }

    /// The state that `load_commits` leaves for this input.
    pub open spec fn loaded_from(
        &self,
        commit_count: usize,
        parent_map: Seq<(usize, Vec<i32>)>,
        head_index: Option<usize>,
        has_uncommitted: bool,
    ) -> bool {
        &&& self.wf()
        &&& self.model() == layout(commit_count, parent_map, head_index, has_uncommitted)
        &&& self.vertices@.len() == commit_count
        &&& self.resolved()
        &&& commit_count > 0 && linear_rows(self.vertices@) ==> self.single_lane()
        &&& forall|r: int|
            0 <= r < commit_count ==> row_from_input(
                #[trigger] self.vertices@[r],
                r,
                parent_map,
                commit_count as int,
                head_index,
                has_uncommitted,
            )
    }

    /// Rebuilds the whole graph from the given rows: `parent_map` lists parent
    /// edges by row, where -1 (or any reference that is not a later row of the
    /// window) stands for an ancestor outside the window; `head_index` is the
    /// row of HEAD, and `has_uncommitted` marks row 0 as the synthetic row of
    /// uncommitted changes.
    pub fn load_commits(
        &mut self,
        commit_count: usize,
        parent_map: &[(usize, Vec<i32>)],
        head_index: Option<usize>,
        has_uncommitted: bool,
    )
        ensures
            final(self).loaded_from(commit_count, parent_map@, head_index, has_uncommitted),
    {
        self.vertices = Vec::new();
        self.branches = Vec::new();
        self.available_colours = Vec::new();
        let n = commit_count;
        let mut i: usize = 0;
        while i < n
            invariant
                i <= n,
                self.vertices@.len() == i,
                self.branches@.len() == 0,
                self.available_colours@.len() == 0,
                forall|r: int| 0 <= r < i ==> (#[trigger] self.vertices@[r]).fresh_at(r, Seq::empty()),
                forall|r: int| 0 <= r < i ==> (#[trigger] self.vertices@[r]).children@ == Seq::<usize>::empty(),
                forall|r: int| 0 <= r < i ==> (#[trigger] self.vertices@[r]).is_committed && !self.vertices@[r].is_current,
            decreases n - i,
        {
            self.vertices.push(Vertex::new(i));
            i = i + 1;
        }
        let mut k: usize = 0;
        while k < parent_map.len()
            invariant
                k <= parent_map@.len(),
                self.vertices@.len() == n,
                self.branches@.len() == 0,
                self.available_colours@.len() == 0,
                forall|r: int| 0 <= r < n ==> (#[trigger] self.vertices@[r]).fresh_at(
                    r,
                    parents_from(parent_map@.take(k as int), r, n as int),
                ),
                forall|r: int| 0 <= r < n ==> (#[trigger] self.vertices@[r]).children@ == children_from(
                    parent_map@.take(k as int),
                    r,
                    n as int,
                ),
                forall|r: int| 0 <= r < n ==> (#[trigger] self.vertices@[r]).is_committed && !self.vertices@[r].is_current,
            decreases parent_map@.len() - k,
        {
            let idx = parent_map[k].0;
            let parents = &parent_map[k].1;
            proof {
                assert(parent_map@.take(k + 1).drop_last() == parent_map@.take(k as int));
            }
            if idx < n {
                let mut j: usize = 0;
                while j < parents.len()
                    invariant
                        idx < n,
                        j <= parents@.len(),
                        self.vertices@.len() == n,
                        self.branches@.len() == 0,
                        self.available_colours@.len() == 0,
                        forall|r: int| 0 <= r < n && r != idx ==> (#[trigger] self.vertices@[r]).fresh_at(
                            r,
                            parents_from(parent_map@.take(k as int), r, n as int),
                        ),
                        forall|r: int| 0 <= r < n ==> (#[trigger] self.vertices@[r]).is_committed && !self.vertices@[r].is_current,
                        forall|r: int| 0 <= r < n ==> (#[trigger] self.vertices@[r]).children@ == children_from(
                            parent_map@.take(k as int),
                            r,
                            n as int,
                        ) + child_marks(parents@.take(j as int), idx as int, r, n as int),
                        self.vertices@[idx as int].fresh_at(
                            idx as int,
                            parents_from(parent_map@.take(k as int), idx as int, n as int) + parents@.take(
                                j as int,
                            ).map_values(|p: i32| parent_ref(p, idx as int, n as int)),
                        ),
                    decreases parents@.len() - j,
                {
                    let p = parents[j];
                    let ghost before = parents@.take(j as int).map_values(|p: i32| parent_ref(p, idx as int, n as int));
                    if p >= 0 && (p as usize) < n && (p as usize) > idx {
                        self.vertices[idx].add_parent(ParentRef::Row(p as usize));
                        self.vertices[p as usize].add_child(idx);
                    } else {
                        self.vertices[idx].add_parent(ParentRef::Outside);
                    }
                    proof {
                        assert(parents@.take(j + 1).map_values(|p: i32| parent_ref(p, idx as int, n as int))
                            == before.push(parent_ref(p, idx as int, n as int)));
                        assert(parents@.take(j + 1).drop_last() == parents@.take(j as int));
                        assert forall|r: int| 0 <= r < n implies (#[trigger] self.vertices@[r]).children@ == children_from(
                            parent_map@.take(k as int),
                            r,
                            n as int,
                        ) + child_marks(parents@.take(j + 1), idx as int, r, n as int) by {
                            assert(parents@.take(j + 1).last() == p);
                        }
                    }
                    j = j + 1;
                }
            }
            proof {
                assert(parent_map@.take(k + 1).last() == parent_map@[k as int]);
                assert forall|r: int| 0 <= r < n implies (#[trigger] self.vertices@[r]).fresh_at(
                    r,
                    parents_from(parent_map@.take(k + 1), r, n as int),
                ) by {
                    assert(parents@.take(parents@.len() as int) == parents@);
                    if r == idx {
                    } else {
                        assert(parents_from(parent_map@.take(k + 1), r, n as int)
                            == parents_from(parent_map@.take(k as int), r, n as int));
                    }
                }
                assert forall|r: int| 0 <= r < n implies (#[trigger] self.vertices@[r]).children@ == children_from(
                    parent_map@.take(k + 1),
                    r,
                    n as int,
                ) by {
                    assert(parents@.take(parents@.len() as int) == parents@);
                    if idx >= n {
                        assert(children_from(parent_map@.take(k + 1), r, n as int)
                            =~= children_from(parent_map@.take(k as int), r, n as int));
                    }
                }
            }
            k = k + 1;
        }
        proof {
            assert(parent_map@.take(parent_map@.len() as int) == parent_map@);
        }
        if has_uncommitted && n > 0 {
            self.vertices[0].set_not_committed();
        }
        if let Some(head_idx) = head_index {
            if head_idx < n {
                self.vertices[head_idx].set_current();
            }
        }
        let ghost built = *self;
        proof {
            assert forall|r: int| 0 <= r < n implies {
                &&& (#[trigger] self.vertices@[r]).on_branch is None
                &&& self.vertices@[r].next_parent == 0
                &&& self.vertices@[r].connections@.len() == 0
            } by {
                assert(self.vertices@[r].fresh_at(r, parents_from(parent_map@, r, n as int)));
            }
            assert forall|r: int| 0 <= r < n implies vertex_ok(#[trigger] self.vertices@[r], r, n as int, 0) by {
                assert(self.vertices@[r].fresh_at(r, parents_from(parent_map@, r, n as int)));
                lemma_parents_from_in_window(parent_map@, r, n as int);
            }
            assert forall|r: int| 0 <= r < n implies row_from_input(
                #[trigger] built.vertices@[r],
                r,
                parent_map@,
                n as int,
                head_index,
                has_uncommitted,
            ) by {
                assert(self.vertices@[r].fresh_at(r, parents_from(parent_map@, r, n as int)));
            }
        }
        proof {
            let m = initial(n, parent_map@, head_index, has_uncommitted);
            assert forall|r: int| 0 <= r < n implies #[trigger] built.model().vertices[r] == m.vertices[r] by {
                assert(built.vertices@[r].fresh_at(r, parents_from(parent_map@, r, n as int)));
                assert(row_from_input(built.vertices@[r], r, parent_map@, n as int, head_index, has_uncommitted));
                assert(built.model().vertices[r] == built.vertices@[r].model());
                assert(built.vertices@[r].connections@ =~= Seq::<UnavailablePoint>::empty());
            }
            assert(built.model().vertices =~= m.vertices);
            assert(built.model().branches =~= m.branches);
            assert(built.model().colours =~= m.colours);
        }
        let mut i: usize = 0;
        while i < self.vertices.len()
            invariant
                self.wf(),
                self.vertices@.len() == n,
                self.grows_from(&built),
                forall|r: int| 0 <= r < n ==> row_from_input(
                    #[trigger] built.vertices@[r],
                    r,
                    parent_map@,
                    n as int,
                    head_index,
                    has_uncommitted,
                ),
                forall|r: int| 0 <= r < i ==> (#[trigger] self.vertices@[r]).pending() == 0,
                built.untouched(),
                linear_rows(built.vertices@) && n > 0 ==> (i == 0 && *self == built) || (self.single_lane()
                    && self.resolved()),
                scan(self.model(), i as int) == layout(n, parent_map@, head_index, has_uncommitted),
            decreases n - i, self.vertices@[i as int].pending(),
        {
            proof {
                assert(self.model().vertices[i as int] == self.vertices@[i as int].model());
                assert(vertex_ok(self.vertices@[i as int], i as int, n as int, self.branches@.len() as int));
            }
            if self.vertices[i].get_next_parent().is_some() || self.vertices[i].is_not_on_branch() {
                let ghost before = *self;
                self.determine_path(i);
                proof {
                    assert(self.model().vertices[i as int] == self.vertices@[i as int].model());
                    assert(vertex_ok(self.vertices@[i as int], i as int, n as int, self.branches@.len() as int));
                    assert(scan(before.model(), i as int) == scan(self.model(), i as int));
                    if linear_rows(built.vertices@) && n > 0 {
                        if !(i == 0 && before == built) {
                            assert(before.resolved());
                            assert((before.vertices@[i as int]).pending() == 0);
                            assert(vertex_ok(before.vertices@[i as int], i as int, n as int, before.branches@.len() as int));
                        }
                    }
                    assert forall|r: int| 0 <= r < i implies (#[trigger] self.vertices@[r]).pending() == 0 by {
                        assert(vertex_grows(before.vertices@[r], self.vertices@[r]));
                        assert(vertex_ok(self.vertices@[r], r, n as int, self.branches@.len() as int));
                    }
                    lemma_grows_trans(&built, &before, self);
                }
            } else {
                i = i + 1;
            }
        }
        proof {
            assert forall|r: int| 0 <= r < n implies row_from_input(
                #[trigger] self.vertices@[r],
                r,
                parent_map@,
                n as int,
                head_index,
                has_uncommitted,
            ) by {
                assert(vertex_grows(built.vertices@[r], self.vertices@[r]));
                assert(row_from_input(built.vertices@[r], r, parent_map@, n as int, head_index, has_uncommitted));
            }
            if n > 0 && linear_rows(self.vertices@) {
                assert forall|r: int| 0 <= r < n implies (#[trigger] built.vertices@[r]).parents@ == self.vertices@[r].parents@ by {
                    assert(vertex_grows(built.vertices@[r], self.vertices@[r]));
                }
                assert(linear_rows(built.vertices@));
                if i == 0 && *self == built {
                    assert(vertex_ok(self.vertices@[0], 0, n as int, 0));
                }
            }
        }
    }

    /// Rebuilds the graph from `commit_count` commit rows; with
    /// `has_uncommitted`, a synthetic row 0 for uncommitted changes comes
    /// first and every commit row and parent reference moves one row down.
    pub fn load(
        &mut self,
        commit_count: usize,
        parent_map: &[(usize, Vec<i32>)],
        head_index: Option<usize>,
        has_uncommitted: bool,
    )
        requires
            has_uncommitted ==> commit_count < usize::MAX,
        ensures
            !has_uncommitted ==> final(self).loaded_from(commit_count, parent_map@, head_index, false),
            has_uncommitted ==> exists|shifted: Seq<(usize, Vec<i32>)>| #[trigger]
                shifted_entries(shifted, parent_map@) && final(self).loaded_from(
                    (commit_count + 1) as usize,
                    shifted,
                    match head_index {
                        Some(h) => if h < usize::MAX {
                            Some((h + 1) as usize)
                        } else {
                            None
                        },
                        None => None,
                    },
                    true,
                ),
            final(self).vertices@.len() == commit_count + if has_uncommitted {
                1int
            } else {
                0int
            },
    {
        if !has_uncommitted {
            self.load_commits(commit_count, parent_map, head_index, false);
            return;
        }
        let mut shifted: Vec<(usize, Vec<i32>)> = Vec::new();
        shifted.push((0, Vec::new()));
        let mut k: usize = 0;
        while k < parent_map.len()
            invariant
                k <= parent_map@.len(),
                shifted@.len() == k + 1,
                shifted@[0].0 == 0,
                shifted@[0].1@.len() == 0,
                forall|m: int|
                    0 <= m < k ==> {
                        &&& (#[trigger] shifted@[m + 1]).0 == if parent_map@[m].0 < usize::MAX {
                            (parent_map@[m].0 + 1) as usize
                        } else {
                            parent_map@[m].0
                        }
                        &&& shifted@[m + 1].1@ == parent_map@[m].1@.map_values(|p: i32| shift_parent(p))
                    },
            decreases parent_map@.len() - k,
        {
            let idx = parent_map[k].0;
            let parents = &parent_map[k].1;
            let mut moved: Vec<i32> = Vec::new();
            let mut j: usize = 0;
            while j < parents.len()
                invariant
                    j <= parents@.len(),
                    moved@ == parents@.take(j as int).map_values(|p: i32| shift_parent(p)),
                decreases parents@.len() - j,
            {
                let p = parents[j];
                let q = if p < 0 {
                    -1
                } else if p < i32::MAX {
                    p + 1
                } else {
                    -1
                };
                moved.push(q);
                proof {
                    assert(parents@.take(j + 1).map_values(|p: i32| shift_parent(p))
                        =~= parents@.take(j as int).map_values(|p: i32| shift_parent(p)).push(q));
                }
                j = j + 1;
            }
            proof {
                assert(parents@.take(parents@.len() as int) == parents@);
            }
            let new_idx = if idx < usize::MAX {
                idx + 1
            } else {
                idx
            };
            shifted.push((new_idx, moved));
            k = k + 1;
        }
        let head = match head_index {
            Some(h) => if h < usize::MAX {
                Some(h + 1)
            } else {
                None
            },
            None => None,
        };
        self.load_commits(commit_count + 1, &shifted, head, true);
        proof {
            assert(shifted_entries(shifted@, parent_map@));
        }
    }

    /// The lane of row `row`; 0 outside the graph.
    pub fn get_vertex_column(&self, row: usize) -> (r: usize)
        ensures
            r == if row < self.vertices@.len() {
                self.vertices@[row as int].x
            } else {
                0
            },
    {
        if row < self.vertices.len() {
            self.vertices[row].x
        } else {
            0
        }
    }

    /// The palette index of row `row`; 0 outside the graph.
    pub fn get_vertex_colour(&self, row: usize) -> (r: usize)
        ensures
            r == colour_at(self.vertices@, self.branches@, row as int),
    {
        if row < self.vertices.len() {
            self.vertices[row].get_colour(self.branches.as_slice())
        } else {
            0
        }
    }

    /// Whether row `row` is a merge commit; false outside the graph.
    pub fn is_vertex_merge(&self, row: usize) -> (r: bool)
        ensures
            r == (row < self.vertices@.len() && self.vertices@[row as int].parents@.len() > 1),
    {
        if row < self.vertices.len() {
            self.vertices[row].is_merge()
        } else {
            false
        }
    }

    /// Whether row `row` is HEAD; false outside the graph.
    pub fn is_vertex_current(&self, row: usize) -> (r: bool)
        ensures
            r == (row < self.vertices@.len() && self.vertices@[row as int].is_current),
    {
        if row < self.vertices.len() {
            self.vertices[row].is_current
        } else {
            false
        }
    }

    /// Lays out the next segment run that starts at `start_at`: a merge stitch
    /// when the vertex is a merge on a branch whose next parent is on a
    /// branch already, a new branch otherwise.
    fn determine_path(&mut self, start_at: usize)
        requires
            old(self).wf(),
            start_at < old(self).vertices@.len(),
            old(self).vertices@[start_at as int].pending() > 0,
        ensures
            final(self).model() == determine_m(old(self).model(), start_at as int),
            final(self).wf(),
            final(self).grows_from(old(self)),
            final(self).vertices@[start_at as int].pending() < old(self).vertices@[start_at as int].pending(),
            old(self).untouched() && linear_rows(old(self).vertices@) && start_at == 0 ==> final(self).single_lane()
                && final(self).resolved(),
            old(self).merge_case(start_at as int) ==> ({
                let pid = old(self).vertices@[start_at as int].next_parent_spec()->Some_0->Row_0 as int;
                let pb = old(self).vertices@[pid].on_branch->Some_0 as int;
                &&& final(self).branches@.len() == old(self).branches@.len()
                &&& stitch_ok(
                    old(self),
                    final(self).branches@[pb].lines@,
                    start_at as int,
                    pid,
                    pb,
                    old(self).walk_origin(start_at as int),
                )
            }),
            !old(self).merge_case(start_at as int) ==> ({
                let nb = old(self).branches@.len() as int;
                &&& final(self).branches@.len() == nb + 1
                &&& walk_ok(old(self), final(self).branches@[nb].lines@, start_at as int, old(self).walk_origin(start_at as int))
            }),
    {
        proof {
            assert(vertex_ok(self.vertices@[start_at as int], start_at as int, self.vertices@.len() as int, self.branches@.len() as int));
        }
        proof {
            assert(old(self).model().vertices[start_at as int] == self.vertices@[start_at as int].model());
            if let Some(ParentRef::Row(q)) = self.vertices@[start_at as int].next_parent_spec() {
                assert(parent_in_window(self.vertices@[start_at as int].parents@[self.vertices@[start_at as int].next_parent as int], start_at as int, self.vertices@.len() as int));
                assert(old(self).model().vertices[q as int] == self.vertices@[q as int].model());
            }
        }
        let parent_id = self.vertices[start_at].get_next_parent();
        let last_point = if self.vertices[start_at].is_not_on_branch() {
            self.vertices[start_at].get_next_point()
        } else {
            self.vertices[start_at].get_point()
        };
        match parent_id {
            Some(ParentRef::Row(pid)) => {
                if self.vertices[start_at].is_merge() && !self.vertices[start_at].is_not_on_branch()
                    && !self.vertices[pid].is_not_on_branch() {
                    self.handle_merge_path(start_at, pid, last_point);
                } else {
                    self.handle_normal_path(start_at, last_point);
                }
            },
            _ => self.handle_normal_path(start_at, last_point),
        }
    }

    /// Stitches the next parent edge of the merge commit at `start_at` onto
    /// the branch of that parent, which is on a branch already, then marks the
    /// edge as drawn.
    fn handle_merge_path(&mut self, start_at: usize, parent_id: usize, last_point: Point)
        requires
            old(self).vertices@[start_at as int].on_branch is Some,
            last_point == old(self).vertices@[start_at as int].get_point_spec(),
            old(self).wf(),
            start_at < parent_id < old(self).vertices@.len(),
            old(self).vertices@[start_at as int].next_parent_spec() == Some(ParentRef::Row(parent_id)),
            old(self).vertices@[parent_id as int].on_branch is Some,
        ensures
            final(self).model() == consume_m(
                merge_walk(
                    old(self).model(),
                    start_at as int,
                    parent_id as int,
                    old(self).vertices@[parent_id as int].on_branch->Some_0,
                    start_at + 1,
                    last_point,
                    old(self).vertices@[start_at as int].is_committed,
                ),
                start_at as int,
            ),
            final(self).wf(),
            final(self).grows_from(old(self)),
            final(self).available_colours == old(self).available_colours,
            final(self).vertices@[start_at as int].next_parent == old(self).vertices@[start_at as int].next_parent + 1,
            final(self).vertices@[start_at as int] == (Vertex {
                next_parent: (old(self).vertices@[start_at as int].next_parent + 1) as usize,
                ..old(self).vertices@[start_at as int]
            }),
            ({
                let pb = old(self).vertices@[parent_id as int].on_branch->Some_0 as int;
                &&& final(self).branches@.len() == old(self).branches@.len()
                &&& forall|c: int| 0 <= c < old(self).branches@.len() && c != pb ==>
                    #[trigger] final(self).branches@[c] == old(self).branches@[c]
                &&& stitch_ok(
                    old(self),
                    final(self).branches@[pb].lines@,
                    start_at as int,
                    parent_id as int,
                    pb,
                    last_point,
                )
            }),
    {
        let parent_branch = match self.vertices[parent_id].on_branch {
            Some(b) => b,
            None => 0,
        };
        proof {
            let n = self.vertices@.len() as int;
            assert(vertex_ok(self.vertices@[parent_id as int], parent_id as int, n, self.branches@.len() as int));
        }
        let vertex_is_committed = self.vertices[start_at].is_committed;
        let target = ParentRef::Row(parent_id);
        let ghost g0 = *old(self);
        let ghost base = old(self).branches@[parent_branch as int].lines@.len() as int;
        proof {
            let n = self.vertices@.len() as int;
            assert(vertex_ok(self.vertices@[start_at as int], start_at as int, n, self.branches@.len() as int));
        }
        let ghost from = last_point;
        let mut last_point = last_point;
        let mut found_point_to_parent = false;
        let mut i: usize = start_at + 1;
        loop
            invariant_except_break
                start_at < i <= parent_id,
                !found_point_to_parent,
                self.branches@[parent_branch as int].lines@.len() == base + (i - start_at - 1),
                forall|r: int| i <= r < g0.vertices@.len() ==> #[trigger] self.vertices@[r] == g0.vertices@[r],
                forall|j: int| base <= j < self.branches@[parent_branch as int].lines@.len() ==> {
                    let p = #[trigger] self.branches@[parent_branch as int].lines@[j].p2;
                    let v = g0.vertices@[p.y as int];
                    &&& p.y == start_at + 1 + (j - base)
                    &&& forall|k: int| !#[trigger] v.reserved_for(k, target, parent_branch)
                    &&& p.x == v.next_x
                },
                forall|j: int| base <= j < self.branches@[parent_branch as int].lines@.len() ==>
                    (#[trigger] self.branches@[parent_branch as int].lines@[j]).p1 == if j == base {
                        from
                    } else {
                        self.branches@[parent_branch as int].lines@[j - 1].p2
                    } && self.branches@[parent_branch as int].lines@[j].locked_first == (
                    self.branches@[parent_branch as int].lines@[j].p1.x
                        < self.branches@[parent_branch as int].lines@[j].p2.x),
                last_point == if self.branches@[parent_branch as int].lines@.len() == base {
                    from
                } else {
                    self.branches@[parent_branch as int].lines@.last().p2
                },
                merge_walk(self.model(), start_at as int, parent_id as int, parent_branch, i as int, last_point, vertex_is_committed)
                    == merge_walk(g0.model(), start_at as int, parent_id as int, parent_branch, start_at + 1, from, vertex_is_committed),
            invariant
                self.wf(),
                self.grows_from(&g0),
                g0 == *old(self),
                g0.wf(),
                target == ParentRef::Row(parent_id),
                start_at < parent_id < g0.vertices@.len(),
                parent_branch < g0.branches@.len(),
                g0.vertices@[parent_id as int].on_branch == Some(parent_branch),
                vertex_is_committed == g0.vertices@[start_at as int].is_committed,
                self.vertices@[start_at as int] == g0.vertices@[start_at as int],
                endpoint_ok(self.vertices@, last_point, parent_branch as int),
                self.available_colours == g0.available_colours,
                self.branches@.len() == g0.branches@.len(),
                forall|c: int| 0 <= c < g0.branches@.len() && c != parent_branch ==>
                    #[trigger] self.branches@[c] == g0.branches@[c],
                forall|j: int| 0 <= j < base ==> #[trigger] self.branches@[parent_branch as int].lines@[j]
                    == g0.branches@[parent_branch as int].lines@[j],
                base == g0.branches@[parent_branch as int].lines@.len(),
            ensures
                self.model() == merge_walk(g0.model(), start_at as int, parent_id as int, parent_branch, start_at + 1, from, vertex_is_committed),
                stitch_ok(
                    &g0,
                    self.branches@[parent_branch as int].lines@,
                    start_at as int,
                    parent_id as int,
                    parent_branch as int,
                    from,
                ),
            decreases parent_id - i,
        {
            let ghost m0 = self.model();
            let found = self.vertices[i].get_point_connecting_to(target, parent_branch);
            let cur_point = match found {
                Some(p) => {
                    found_point_to_parent = true;
                    p
                },
                None => self.vertices[i].get_next_point(),
            };
            proof {
                let v = self.vertices@[i as int];
                let s = v.connections@;
                let up = UnavailablePoint { connects_to: target, on_branch: parent_branch };
                lemma_first_slot(s, target, parent_branch);
                assert(m0.vertices[i as int] == v.model());
                match found {
                    Some(p) => {
                        match first_slot(s, target, parent_branch) {
                            Some(k) => {
                                if k < p.x {
                                    assert(v.reserved_for(k, target, parent_branch));
                                }
                                if k > p.x {
                                    assert(s[p.x as int] == up);
                                }
                            },
                            None => {
                                assert(s[p.x as int] == up);
                            },
                        }
                        assert(first_slot(s, target, parent_branch) == Some(p.x as int));
                    },
                    None => {
                        match first_slot(s, target, parent_branch) {
                            Some(k) => {
                                assert(v.reserved_for(k, target, parent_branch));
                            },
                            None => {},
                        }
                    },
                }
            }
            let locked_first = !found_point_to_parent && i != parent_id && last_point.x < cur_point.x;
            let ghost row_before = self.vertices@[i as int];
            let ghost vs_before = self.vertices@;
            self.reserve(i, cur_point.x, target, parent_branch);
            proof {
                lemma_endpoint_stable(vs_before, self.vertices@, last_point, parent_branch as int);
            }
            let ghost prev = self.branches@[parent_branch as int].lines@;
            self.draw(parent_branch, last_point, cur_point, vertex_is_committed, locked_first);
            last_point = cur_point;
            proof {
                let lines = self.branches@[parent_branch as int].lines@;
                assert(row_before == g0.vertices@[i as int]);
                assert forall|j: int| 0 <= j < prev.len() implies #[trigger] lines[j] == prev[j] by {}
                assert(lines[prev.len() as int].p2 == cur_point);
            }
            if found_point_to_parent || i == parent_id {
                break;
            }
            i = i + 1;
        }
        self.consume_parent(start_at);
        proof {
            assert(g0.model().vertices[start_at as int] == g0.vertices@[start_at as int].model());
        }
    }

    /// Starts a new branch at `start_at` and walks it down the rows, following
    /// the first parent edge not yet drawn of each vertex it reaches, until it
    /// merges into a vertex that is on a branch already, reaches a vertex with
    /// no edge left, or leaves the window.
    #[verifier::rlimit(100)]
    #[verifier::spinoff_prover]
    fn handle_normal_path(&mut self, start_at: usize, last_point: Point)
        requires
            old(self).wf(),
            start_at < old(self).vertices@.len(),
            old(self).vertices@[start_at as int].pending() > 0,
            last_point == if old(self).vertices@[start_at as int].on_branch is None {
                old(self).vertices@[start_at as int].get_next_point_spec()
            } else {
                old(self).vertices@[start_at as int].get_point_spec()
            },
        ensures
            final(self).model() == normal_path_m(old(self).model(), start_at as int, last_point),
            final(self).wf(),
            final(self).grows_from(old(self)),
            final(self).vertices@[start_at as int].pending() < old(self).vertices@[start_at as int].pending(),
            final(self).branches@.len() == old(self).branches@.len() + 1,
            ({
                let nb = old(self).branches@.len() as int;
                let nc = old(self).available_colours@.len() as int;
                let br = final(self).branches@[nb];
                &&& forall|c: int| 0 <= c < nb ==> #[trigger] final(self).branches@[c].end == old(self).branches@[c].end
                    && final(self).branches@[c].colour == old(self).branches@[c].colour
                &&& br.colour <= nc
                &&& forall|k: int| 0 <= k < br.colour ==> !(start_at > #[trigger] old(self).available_colours@[k])
                &&& br.colour < nc ==> start_at > old(self).available_colours@[br.colour as int]
                &&& forall|c: int| 0 <= c < nb && #[trigger] old(self).branches@[c].colour == br.colour ==>
                    old(self).branches@[c].end < start_at
                &&& start_at < br.end <= old(self).vertices@.len()
                &&& final(self).available_colours@[br.colour as int] == br.end
                &&& walk_ok(old(self), br.lines@, start_at as int, last_point)
                &&& start_at + br.lines@.len() <= br.end <= start_at + 1 + br.lines@.len()
            }),
            old(self).untouched() && linear_rows(old(self).vertices@) && start_at == 0 ==> final(self).single_lane()
                && final(self).resolved(),
    {
        let ghost lin = old(self).untouched() && linear_rows(old(self).vertices@) && start_at == 0;
        let ghost orig_on = old(self).vertices@[start_at as int].on_branch is Some;
        let ghost np0 = old(self).vertices@[start_at as int].next_parent;
        let ghost nb0 = old(self).branches@.len() as int;
        let colour = self.get_available_colour(start_at);
        proof {
            assert forall|c: int| 0 <= c < nb0 && #[trigger] old(self).branches@[c].colour == colour implies
                old(self).branches@[c].end < start_at by {
                assert(branch_ok(old(self).branches@[c], c, old(self).vertices@, old(self).available_colours@));
            }
        }
        let branch_idx = self.push_branch(colour, start_at);
        let vertex_id = self.vertices[start_at].id;
        self.reserve(start_at, last_point.x, ParentRef::Row(vertex_id), branch_idx);
        self.claim(start_at, branch_idx, last_point.x);
        let ghost colours1 = self.available_colours@;
        let n = self.vertices.len();
        let ghost from = last_point;
        let ghost m2 = self.model();
        proof {
            assert(vertex_id == start_at);
            assert(vertex_ok(self.vertices@[start_at as int], start_at as int, n as int, self.branches@.len() as int));
            assert(endpoint_ok(self.vertices@, from, branch_idx as int));
        }
        proof {
            if lin {
                assert forall|r: int| 0 <= r < n implies vertex_grows(old(self).vertices@[r], #[trigger] self.vertices@[r]) by {}
                assert forall|r: int| 1 <= r < n implies {
                    &&& (#[trigger] self.vertices@[r]).on_branch is None
                    &&& self.vertices@[r].next_parent == 0
                    &&& self.vertices@[r].next_x == 0
                } by {
                    assert(vertex_ok(old(self).vertices@[r], r, n as int, nb0));
                }
            }
        }
        let mut vertex_idx: usize = start_at;
        let mut i: usize = start_at + 1;
        let mut last_point = last_point;
        while i < n
            invariant_except_break
                vertex_idx < i,
                normal_walk(self.model(), branch_idx, vertex_idx as int, i as int, last_point) == normal_walk(
                    m2,
                    branch_idx,
                    start_at as int,
                    start_at + 1,
                    from,
                ),
                self.branches@[branch_idx as int].lines@.len() == i - start_at - 1,
                last_point == if i == start_at + 1 {
                    from
                } else {
                    self.branches@[branch_idx as int].lines@.last().p2
                },
                forall|r: int| i <= r < n ==> #[trigger] self.vertices@[r] == old(self).vertices@[r],
            invariant
                i - start_at - 1 <= self.branches@[branch_idx as int].lines@.len() <= i - start_at,
                walk_ok(old(self), self.branches@[branch_idx as int].lines@, start_at as int, from),
                endpoint_ok(self.vertices@, last_point, branch_idx as int),
                self.wf(),
                self.grows_from(old(self)),
                old(self).wf(),
                n == self.vertices@.len(),
                start_at <= vertex_idx <= i <= n,
                vertex_idx < n,
                start_at < i,
                vertex_idx == start_at ==> self.vertices@[start_at as int].next_parent == np0,
                branch_idx == nb0,
                self.branches@.len() == nb0 + 1,
                self.branches@[branch_idx as int].colour == colour,
                self.branches@[branch_idx as int].end == 0,
                forall|c: int| 0 <= c < nb0 ==> #[trigger] self.branches@[c].end == old(self).branches@[c].end
                    && self.branches@[c].colour == old(self).branches@[c].colour,
                self.available_colours@ == colours1,
                colour < colours1.len(),
                colours1[colour as int] < i,
                self.vertices@[start_at as int].on_branch is Some,
                match self.vertices@[vertex_idx as int].next_parent_spec() {
                    Some(ParentRef::Row(p)) => i <= p,
                    _ => true,
                },
                orig_on && vertex_idx == start_at ==> self.vertices@[start_at as int].next_parent == np0
                    && self.vertices@[start_at as int].next_parent_spec() is Some,
                vertex_idx != start_at ==> self.vertices@[start_at as int].next_parent > np0,
                lin ==> old(self).untouched() && linear_rows(old(self).vertices@) && start_at == 0,
                lin ==> colour == 0 && nb0 == 0,
                lin ==> vertex_idx + 1 == i,
                lin ==> forall|j: int| 0 <= j < self.branches@[branch_idx as int].lines@.len()
                    ==> (#[trigger] self.branches@[branch_idx as int].lines@[j]).p2.x == 0,
                lin ==> forall|r: int| 0 <= r < i ==> {
                    &&& (#[trigger] self.vertices@[r]).on_branch == Some(0usize)
                    &&& self.vertices@[r].x == 0
                    &&& self.vertices@[r].next_parent == if r < vertex_idx { 1usize } else { 0usize }
                },
                lin ==> forall|r: int| i <= r < n ==> {
                    &&& (#[trigger] self.vertices@[r]).on_branch is None
                    &&& self.vertices@[r].next_parent == 0
                    &&& self.vertices@[r].next_x == 0
                },
            ensures
                (self.model(), i as int, vertex_idx as int) == normal_walk(m2, branch_idx, start_at as int, start_at + 1, from),
                orig_on && vertex_idx == start_at ==> i == n,
                lin ==> i == n,
                lin ==> self.branches@[branch_idx as int].lines@.len() + 1 == n,
            decreases n - i,
        {
            let ghost m0 = self.model();
            let parent_id = self.vertices[vertex_idx].get_next_parent();
            proof {
                assert(m0.vertices[vertex_idx as int] == self.vertices@[vertex_idx as int].model());
                assert(m0.vertices[i as int] == self.vertices@[i as int].model());
            }
            let pid = match parent_id {
                Some(p) => p,
                None => break,
            };
            proof {
                assert(vertex_ok(self.vertices@[vertex_idx as int], vertex_idx as int, n as int, self.branches@.len() as int));
                assert(vertex_ok(self.vertices@[i as int], i as int, n as int, self.branches@.len() as int));
            }
            let reaches_parent = match pid {
                ParentRef::Row(p) => p == i,
                ParentRef::Outside => false,
            };
            let cur_point = if reaches_parent && !self.vertices[i].is_not_on_branch() {
                self.vertices[i].get_point()
            } else {
                self.vertices[i].get_next_point()
            };
            let vertex_is_committed = self.vertices[vertex_idx].is_committed;
            let locked_first = last_point.x < cur_point.x;
            let ghost vs_before = self.vertices@;
            assert(cur_point.x == old(self).vertices@[i as int].next_x || (old(self).vertices@[i as int].on_branch is Some
                && cur_point.x == old(self).vertices@[i as int].x));
            self.reserve(i, cur_point.x, pid, branch_idx);
            proof {
                lemma_endpoint_stable(vs_before, self.vertices@, last_point, branch_idx as int);
            }
            let ghost drawn = self.branches@[branch_idx as int].lines@;
            self.draw(branch_idx, last_point, cur_point, vertex_is_committed, locked_first);
            proof {
                let lines = self.branches@[branch_idx as int].lines@;
                assert forall|j: int| 0 <= j < drawn.len() implies #[trigger] lines[j] == drawn[j] by {}
                assert(walk_ok(old(self), lines, start_at as int, from));
            }
            last_point = cur_point;
            if reaches_parent {
                self.consume_parent(vertex_idx);
                let parent_on_branch = !self.vertices[i].is_not_on_branch();
                self.claim(i, branch_idx, cur_point.x);
                vertex_idx = i;
                proof {
                    assert(vertex_ok(self.vertices@[i as int], i as int, n as int, self.branches@.len() as int));
                }
                let next_parent = self.vertices[vertex_idx].get_next_parent();
                if next_parent.is_none() || parent_on_branch {
                    break;
                }
            }
            i = i + 1;
        }
        proof {
            assert(vertex_ok(self.vertices@[vertex_idx as int], vertex_idx as int, n as int, self.branches@.len() as int));
        }
        if i == n {
            if let Some(ParentRef::Outside) = self.vertices[vertex_idx].get_next_parent() {
                self.consume_parent(vertex_idx);
            }
        }
        self.close_branch(branch_idx, i);
        proof {
            if lin {
                let lines = self.branches@[0].lines@;
                assert forall|k: int| 0 <= k < lines.len() implies #[trigger] lines[k] == (Line {
                    p1: Point { x: 0, y: k as usize },
                    p2: Point { x: 0, y: (k + 1) as usize },
                    locked_first: false,
                }) by {
                    if k > 0 {
                        assert(lines[k - 1].p2.x == 0 && lines[k - 1].p2.y == k);
                    }
                }
            }
        }
    }

    /// The lowest colour slot whose latest occupant ended above `start_at`,
    /// or a new slot when there is none.
    pub fn get_available_colour(&mut self, start_at: usize) -> (r: usize)
        requires
            old(self).wf(),
        ensures
            r == first_free(old(self).available_colours@, start_at),
            final(self).model() == alloc_m(old(self).model(), start_at),
            final(self).wf(),
            final(self).vertices == old(self).vertices,
            final(self).branches == old(self).branches,
            r <= old(self).available_colours@.len(),
            forall|k: int| 0 <= k < r ==> !(start_at > #[trigger] old(self).available_colours@[k]),
            r < old(self).available_colours@.len() ==> start_at > old(self).available_colours@[r as int]
                && final(self).available_colours@ == old(self).available_colours@,
            r == old(self).available_colours@.len() ==> final(self).available_colours@
                == old(self).available_colours@.push(0),
    {
        let mut i: usize = 0;
        while i < self.available_colours.len()
            invariant
                i <= self.available_colours@.len(),
                *self == *old(self),
                old(self).wf(),
                forall|k: int| 0 <= k < i ==> !(start_at > #[trigger] self.available_colours@[k]),
            decreases self.available_colours@.len() - i,
        {
            if start_at > self.available_colours[i] {
                proof {
                    lemma_first_free(self.available_colours@, start_at);
                }
                return i;
            }
            i = i + 1;
        }
        proof {
            lemma_first_free(self.available_colours@, start_at);
        }
        self.available_colours.push(0);
        proof {
            let n = self.vertices@.len() as int;
            assert forall|b: int| 0 <= b < self.branches@.len() implies branch_ok(
                #[trigger] self.branches@[b],
                b,
                self.vertices@,
                self.available_colours@,
            ) by {
                assert(branch_ok(old(self).branches@[b], b, old(self).vertices@, old(self).available_colours@));
            }
        }
        proof {
            assert(self.model().vertices =~= alloc_m(old(self).model(), start_at).vertices);
            assert(self.model().branches =~= alloc_m(old(self).model(), start_at).branches);
        }
        self.available_colours.len() - 1
    }

}

} // verus!
