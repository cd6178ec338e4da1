use vstd::prelude::*;

use crate::builder::{linear_rows, parent_ref, parents_from, row_from_input, GraphBuilder};
use crate::bookkeeping::{branch_ok, segment_ok, vertex_ok};
use crate::branch::Branch;
use crate::geometry::bucket_text;
use crate::model::branch_models;
use crate::point::{ParentRef, Point};

verus! {

/// A point `p` of branch `b` sits in a slot of its row reserved for `b` or
/// for the commit of that row.
pub open spec fn well_placed(g: &GraphBuilder, p: Point, b: int) -> bool {
    &&& p.y < g.vertices@.len()
    &&& p.x < g.vertices@[p.y as int].connections@.len()
    &&& g.vertices@[p.y as int].connections@[p.x as int].on_branch == b
        || g.vertices@[p.y as int].connections@[p.x as int].connects_to == ParentRef::Row(p.y)
}

/// Both ends of every segment of a well-formed graph sit in slots of their
/// rows reserved for the segment's own branch or for the commit of that row.
pub proof fn lemma_segment_ends_in_reserved_slot(g: &GraphBuilder, b: int, j: int)
    requires
        g.wf(),
        0 <= b < g.branches@.len(),
        0 <= j < g.branches@[b].lines@.len(),
    ensures
        well_placed(g, g.branches@[b].lines@[j].p1, b),
        well_placed(g, g.branches@[b].lines@[j].p2, b),
{
    assert(branch_ok(g.branches@[b], b, g.vertices@, g.available_colours@));
    assert(segment_ok(g.vertices@, g.branches@[b].lines@[j], b));
}

/// Two different branches never put segment ends at the same lane of the
/// same row unless that slot is the reservation of the row's own commit:
/// the branches meet there because one leaves or merges into the commit.
pub proof fn lemma_shared_point_is_commit(
    g: &GraphBuilder,
    b1: int,
    j1: int,
    b2: int,
    j2: int,
    p: Point,
)
    requires
        g.wf(),
        0 <= b1 < g.branches@.len(),
        0 <= b2 < g.branches@.len(),
        b1 != b2,
        0 <= j1 < g.branches@[b1].lines@.len(),
        0 <= j2 < g.branches@[b2].lines@.len(),
        p == g.branches@[b1].lines@[j1].p1 || p == g.branches@[b1].lines@[j1].p2,
        p == g.branches@[b2].lines@[j2].p1 || p == g.branches@[b2].lines@[j2].p2,
    ensures
        g.vertices@[p.y as int].connections@[p.x as int].connects_to == ParentRef::Row(p.y),
{
    lemma_segment_ends_in_reserved_slot(g, b1, j1);
    lemma_segment_ends_in_reserved_slot(g, b2, j2);
}

/// Colour reuse: of two branches of one colour in a well-formed graph, the
/// earlier one ends before the later one starts, so no two live branches
/// share a colour.
pub proof fn lemma_colour_reused_after_end(g: &GraphBuilder, a: int, b: int)
    requires
        g.wf(),
        0 <= a < b < g.branches@.len(),
        g.branches@[a].colour == g.branches@[b].colour,
    ensures
        g.branches@[a].end < g.branches@[b].start,
{
}

/// Loading depends on the input alone: two graphs loaded from the same input
/// hold the same vertices, branches and palette, whatever either held before
/// the load, and so draw the same paths in every row.
pub proof fn lemma_reload_depends_only_on_input(
    a: &GraphBuilder,
    b: &GraphBuilder,
    commit_count: usize,
    parent_map: Seq<(usize, Vec<i32>)>,
    head_index: Option<usize>,
    has_uncommitted: bool,
)
    requires
        a.loaded_from(commit_count, parent_map, head_index, has_uncommitted),
        b.loaded_from(commit_count, parent_map, head_index, has_uncommitted),
    ensures
        a.model() == b.model(),
        forall|k: nat, row: usize| #[trigger] bucket_text(a.branches@, k, row) == bucket_text(b.branches@, k, row),
{
    assert forall|k: nat, row: usize| #[trigger] bucket_text(a.branches@, k, row) == bucket_text(b.branches@, k, row) by {
        lemma_bucket_text_by_model(a.branches@, b.branches@, k, row);
    }
}

/// What a row draws depends only on the branches' colours and segments.
pub proof fn lemma_bucket_text_by_model(x: Seq<Branch>, y: Seq<Branch>, k: nat, row: usize)
    requires
        branch_models(x) == branch_models(y),
    ensures
        bucket_text(x, k, row) == bucket_text(y, k, row),
    decreases x.len(),
{
    assert(x.len() == branch_models(x).len());
    assert(y.len() == branch_models(y).len());
    if x.len() > 0 {
        assert(branch_models(x.drop_last()) =~= branch_models(y.drop_last())) by {
            assert forall|i: int| 0 <= i < x.len() - 1 implies x[i].model() == y[i].model() by {
                assert(branch_models(x)[i] == branch_models(y)[i]);
                assert(branch_models(x)[i] == x[i].model());
                assert(branch_models(y)[i] == y[i].model());
            }
        }
        lemma_bucket_text_by_model(x.drop_last(), y.drop_last(), k, row);
        assert(branch_models(x)[x.len() - 1] == branch_models(y)[x.len() - 1]);
        assert(branch_models(x)[x.len() - 1] == x.last().model());
        assert(branch_models(y)[x.len() - 1] == y.last().model());
        assert(x.last().lines@ == y.last().lines@);
    }
}

/// The input of a linear history of `n` rows: one entry per row, in row
/// order, where row `i`'s only parent is row `i + 1` and the last row's is
/// the null marker.
pub open spec fn linear_input(parent_map: Seq<(usize, Vec<i32>)>, n: int) -> bool {
    &&& n <= i32::MAX
    &&& parent_map.len() == n
    &&& forall|i: int|
        0 <= i < n ==> (#[trigger] parent_map[i]).0 == i && parent_map[i].1@ == seq![
            if i + 1 < n {
                (i + 1) as i32
            } else {
                -1i32
            },
        ]
}

/// The parent edges that a linear input gives row `r` from its first `k`
/// entries.
proof fn lemma_linear_parents(parent_map: Seq<(usize, Vec<i32>)>, n: int, k: int, r: int)
    requires
        linear_input(parent_map, n),
        0 <= k <= n,
        0 <= r < n,
    ensures
        parents_from(parent_map.take(k), r, n) == if r < k {
            seq![
                if r + 1 < n {
                    ParentRef::Row((r + 1) as usize)
                } else {
                    ParentRef::Outside
                },
            ]
        } else {
            Seq::<ParentRef>::empty()
        },
    decreases k,
{
    if k > 0 {
        lemma_linear_parents(parent_map, n, k - 1, r);
        let s = parent_map.take(k);
        assert(s.drop_last() == parent_map.take(k - 1));
        assert(s.last() == parent_map[k - 1]);
        if s.last().0 == r {
            let ps = s.last().1@;
            assert(ps.map_values(|p: i32| parent_ref(p, r, n)) =~= seq![parent_ref(ps[0], r, n)]);
        }
        assert(parents_from(s, r, n) =~= if r < k {
            seq![
                if r + 1 < n {
                    ParentRef::Row((r + 1) as usize)
                } else {
                    ParentRef::Outside
                },
            ]
        } else {
            Seq::<ParentRef>::empty()
        });
    }
}

/// Linear history: when row `i`'s only parent is row `i + 1` and the last
/// row's is outside the window, the loaded graph has a single branch, of
/// colour 0, through every row at lane 0, ending below the last row.
pub proof fn lemma_linear_history(
    g: &GraphBuilder,
    n: usize,
    parent_map: Seq<(usize, Vec<i32>)>,
    head_index: Option<usize>,
    has_uncommitted: bool,
)
    requires
        n > 0,
        linear_input(parent_map, n as int),
        g.loaded_from(n, parent_map, head_index, has_uncommitted),
    ensures
        g.single_lane(),
{
    assert(parent_map.take(n as int) == parent_map);
    assert forall|r: int| 0 <= r < n implies (#[trigger] g.vertices@[r]).parents@ == if r + 1 < n {
        seq![ParentRef::Row((r + 1) as usize)]
    } else {
        seq![ParentRef::Outside]
    } by {
        lemma_linear_parents(parent_map, n as int, n as int, r);
        assert(row_from_input(g.vertices@[r], r, parent_map, n as int, head_index, has_uncommitted));
    }
    assert(linear_rows(g.vertices@));
}

} // verus!
