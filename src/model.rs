use vstd::prelude::*;

use crate::branch::{next_uncommitted, Branch};
use crate::builder::{children_from, parents_from, GraphBuilder};
use crate::point::{Line, ParentRef, Point, UnavailablePoint};
use crate::vertex::Vertex;

verus! {

// The layout as a function of its input: plain models of the graph's parts,
// one spec function for each change of state, and the traversal built from
// them. The executable builder is proved to compute exactly this.

/// What a vertex holds.
pub struct VertexModel {
    pub id: usize,
    pub x: usize,
    pub children: Seq<usize>,
    pub parents: Seq<ParentRef>,
    pub next_parent: usize,
    pub on_branch: Option<usize>,
    pub is_committed: bool,
    pub is_current: bool,
    pub next_x: usize,
    pub connections: Seq<UnavailablePoint>,
}

/// What a branch holds.
pub struct BranchModel {
    pub colour: usize,
    pub start: usize,
    pub end: usize,
    pub lines: Seq<Line>,
    pub num_uncommitted: usize,
}

/// What a graph holds: its vertices, its branches and its palette markers.
pub struct GraphModel {
    pub vertices: Seq<VertexModel>,
    pub branches: Seq<BranchModel>,
    pub colours: Seq<usize>,
}

impl Vertex {
    pub open spec fn model(&self) -> VertexModel {
        VertexModel {
            id: self.id,
            x: self.x,
            children: self.children@,
            parents: self.parents@,
            next_parent: self.next_parent,
            on_branch: self.on_branch,
            is_committed: self.is_committed,
            is_current: self.is_current,
            next_x: self.next_x,
            connections: self.connections@,
        }
    }
}

impl Branch {
    pub open spec fn model(&self) -> BranchModel {
        BranchModel {
            colour: self.colour,
            start: self.start,
            end: self.end,
            lines: self.lines@,
            num_uncommitted: self.num_uncommitted,
        }
    }
}

/// The models of a sequence of branches.
pub open spec fn branch_models(s: Seq<Branch>) -> Seq<BranchModel> {
    s.map_values(|b: Branch| b.model())
}

impl GraphBuilder {
    pub open spec fn model(&self) -> GraphModel {
        GraphModel {
            vertices: self.vertices@.map_values(|v: Vertex| v.model()),
            branches: branch_models(self.branches@),
            colours: self.available_colours@,
        }
    }
}

pub open spec fn next_parent_of(v: VertexModel) -> Option<ParentRef> {
    if v.next_parent < v.parents.len() {
        Some(v.parents[v.next_parent as int])
    } else {
        None
    }
}

/// Work left at a vertex: one for joining a branch, one for each parent
/// edge not yet drawn.
pub open spec fn pending_of(v: VertexModel) -> nat {
    (if v.next_parent <= v.parents.len() {
        (v.parents.len() - v.next_parent) as nat
    } else {
        0nat
    }) + if v.on_branch is None {
        1nat
    } else {
        0nat
    }
}

/// The lowest lane of `s` reserved toward `t` on branch `b`.
pub open spec fn first_slot(s: Seq<UnavailablePoint>, t: ParentRef, b: usize) -> Option<int>
    decreases s.len(),
{
    if s.len() == 0 {
        None
    } else if s[0] == (UnavailablePoint { connects_to: t, on_branch: b }) {
        Some(0)
    } else {
        match first_slot(s.drop_first(), t, b) {
            Some(k) => Some(k + 1),
            None => None,
        }
    }
}

/// The lowest colour slot whose marker is below `start`, or the number of
/// slots when there is none.
pub open spec fn first_free(colours: Seq<usize>, start: usize) -> int
    decreases colours.len(),
{
    if colours.len() == 0 {
        0
    } else {
        let k = first_free(colours.drop_last(), start);
        if k < colours.len() - 1 {
            k
        } else if start > colours.last() {
            colours.len() - 1
        } else {
            colours.len() as int
        }
    }
}

/// Lane `x` of row `row` reserved toward `t` on branch `b`, when it is the
/// row's lowest free lane.
pub open spec fn reserve_m(g: GraphModel, row: int, x: usize, t: ParentRef, b: usize) -> GraphModel {
    let v = g.vertices[row];
    if x == v.next_x {
        GraphModel {
            vertices: g.vertices.update(
                row,
                VertexModel {
                    next_x: (x + 1) as usize,
                    connections: v.connections.push(UnavailablePoint { connects_to: t, on_branch: b }),
                    ..v
                },
            ),
            ..g
        }
    } else {
        g
    }
}

/// The segment `p1`-`p2` appended to branch `b`.
pub open spec fn draw_m(
    g: GraphModel,
    b: int,
    p1: Point,
    p2: Point,
    is_committed: bool,
    locked_first: bool,
) -> GraphModel {
    let br = g.branches[b];
    GraphModel {
        branches: g.branches.update(
            b,
            BranchModel {
                lines: br.lines.push(Line { p1, p2, locked_first }),
                num_uncommitted: next_uncommitted(br.num_uncommitted, p2, is_committed) as usize,
                ..br
            },
        ),
        ..g
    }
}

/// Row `row` put on branch `b` at lane `x`, unless it is on a branch already.
pub open spec fn claim_m(g: GraphModel, row: int, b: usize, x: usize) -> GraphModel {
    let v = g.vertices[row];
    if v.on_branch is None {
        GraphModel { vertices: g.vertices.update(row, VertexModel { on_branch: Some(b), x, ..v }), ..g }
    } else {
        g
    }
}

/// The next parent edge of row `row` drawn.
pub open spec fn consume_m(g: GraphModel, row: int) -> GraphModel {
    let v = g.vertices[row];
    GraphModel {
        vertices: g.vertices.update(row, VertexModel { next_parent: (v.next_parent + 1) as usize, ..v }),
        ..g
    }
}

/// The palette after picking a colour for a branch starting at `start`.
pub open spec fn alloc_m(g: GraphModel, start: usize) -> GraphModel {
    if first_free(g.colours, start) == g.colours.len() {
        GraphModel { colours: g.colours.push(0), ..g }
    } else {
        g
    }
}

/// A new empty branch of colour `c` starting at row `start`.
pub open spec fn open_m(g: GraphModel, c: usize, start: usize) -> GraphModel {
    GraphModel {
        branches: g.branches.push(
            BranchModel { colour: c, start, end: 0, lines: Seq::empty(), num_uncommitted: 0 },
        ),
        ..g
    }
}

/// Branch `b` and its colour slot ending at row `end`.
pub open spec fn close_m(g: GraphModel, b: int, end: usize) -> GraphModel {
    let br = g.branches[b];
    GraphModel {
        branches: g.branches.update(b, BranchModel { end, ..br }),
        colours: g.colours.update(br.colour as int, end),
        ..g
    }
}

/// The merge stitch from row `i` on toward parent row `pid` on its branch
/// `pb`, the last segment having ended at `last`.
pub open spec fn merge_walk(
    g: GraphModel,
    start: int,
    pid: int,
    pb: usize,
    i: int,
    last: Point,
    committed: bool,
) -> GraphModel
    decreases pid - i,
{
    if !(start < i <= pid && pid < g.vertices.len()) {
        g
    } else {
        let target = ParentRef::Row(pid as usize);
        let found = first_slot(g.vertices[i].connections, target, pb);
        let cur = match found {
            Some(k) => Point { x: k as usize, y: i as usize },
            None => Point { x: g.vertices[i].next_x, y: i as usize },
        };
        let locked_first = found is None && i != pid && last.x < cur.x;
        let g2 = draw_m(reserve_m(g, i, cur.x, target, pb), pb as int, last, cur, committed, locked_first);
        if found is Some || i == pid {
            g2
        } else {
            merge_walk(g2, start, pid, pb, i + 1, cur, committed)
        }
    }
}

/// The walk of branch `b` from row `i` on, following the next parent edge of
/// row `vidx`, the last segment having ended at `last`. It gives the state,
/// the row where the walk stopped, and the last row it reached.
pub open spec fn normal_walk(g: GraphModel, b: usize, vidx: int, i: int, last: Point) -> (
    GraphModel,
    int,
    int,
)
    decreases g.vertices.len() - i,
{
    if !(0 <= vidx < i < g.vertices.len()) {
        (g, i, vidx)
    } else {
        match next_parent_of(g.vertices[vidx]) {
            None => (g, i, vidx),
            Some(pid) => {
                let vi = g.vertices[i];
                let reaches = pid == ParentRef::Row(i as usize);
                let cur = if reaches && vi.on_branch is Some {
                    Point { x: vi.x, y: i as usize }
                } else {
                    Point { x: vi.next_x, y: i as usize }
                };
                let committed = g.vertices[vidx].is_committed;
                let g2 = draw_m(reserve_m(g, i, cur.x, pid, b), b as int, last, cur, committed, last.x < cur.x);
                if reaches {
                    let g3 = claim_m(consume_m(g2, vidx), i, b, cur.x);
                    if next_parent_of(g3.vertices[i]) is None || vi.on_branch is Some {
                        (g3, i, i)
                    } else {
                        normal_walk(g3, b, i, i + 1, cur)
                    }
                } else {
                    normal_walk(g2, b, vidx, i + 1, cur)
                }
            },
        }
    }
}

/// A new branch started at row `start`, leaving from point `from`.
pub open spec fn normal_path_m(g: GraphModel, start: int, from: Point) -> GraphModel {
    let c = first_free(g.colours, start as usize) as usize;
    let g1 = open_m(alloc_m(g, start as usize), c, start as usize);
    let b = g.branches.len() as usize;
    let g2 = claim_m(reserve_m(g1, start, from.x, ParentRef::Row(start as usize), b), start, b, from.x);
    let walked = normal_walk(g2, b, start, start + 1, from);
    let g3 = walked.0;
    let i = walked.1;
    let vidx = walked.2;
    let g4 = if i == g.vertices.len() && next_parent_of(g3.vertices[vidx]) == Some(ParentRef::Outside) {
        consume_m(g3, vidx)
    } else {
        g3
    };
    close_m(g4, b as int, i as usize)
}

/// Where a walk from vertex `v` leaves from: its own point, or its row's
/// lowest free lane when it is on no branch yet.
pub open spec fn origin_of(v: VertexModel) -> Point {
    if v.on_branch is None {
        Point { x: v.next_x, y: v.id }
    } else {
        Point { x: v.x, y: v.id }
    }
}

/// Row `start` is a merge on a branch whose next parent edge leads to a row
/// of the window that is on a branch already.
pub open spec fn merge_case_m(g: GraphModel, start: int) -> bool {
    let v = g.vertices[start];
    &&& v.on_branch is Some
    &&& v.parents.len() > 1
    &&& next_parent_of(v) matches Some(ParentRef::Row(q))
    &&& q < g.vertices.len()
    &&& g.vertices[q as int].on_branch is Some
}

/// One step of the layout at row `start`: a merge stitch or a new branch.
pub open spec fn determine_m(g: GraphModel, start: int) -> GraphModel {
    let v = g.vertices[start];
    if merge_case_m(g, start) {
        let pid = next_parent_of(v)->Some_0->Row_0 as int;
        let pb = g.vertices[pid].on_branch->Some_0;
        consume_m(merge_walk(g, start, pid, pb, start + 1, origin_of(v), v.is_committed), start)
    } else {
        normal_path_m(g, start, origin_of(v))
    }
}

/// The rows from `i` on, each stepped until it is resolved. (Every step
/// lowers the work left at its row; the test only keeps the definition
/// visibly finite.)
pub open spec fn scan(g: GraphModel, i: int) -> GraphModel
    decreases g.vertices.len() - i, pending_of(g.vertices[i]),
{
    if !(0 <= i < g.vertices.len()) {
        g
    } else if pending_of(g.vertices[i]) > 0 {
        let g2 = determine_m(g, i);
        if g2.vertices.len() == g.vertices.len() && pending_of(g2.vertices[i]) < pending_of(g.vertices[i]) {
            scan(g2, i)
        } else {
            g2
        }
    } else {
        scan(g, i + 1)
    }
}

/// The rows of the input before any layout.
pub open spec fn initial(
    commit_count: usize,
    parent_map: Seq<(usize, Vec<i32>)>,
    head_index: Option<usize>,
    has_uncommitted: bool,
) -> GraphModel {
    GraphModel {
        vertices: Seq::new(
            commit_count as nat,
            |r: int|
                VertexModel {
                    id: r as usize,
                    x: 0,
                    children: children_from(parent_map, r, commit_count as int),
                    parents: parents_from(parent_map, r, commit_count as int),
                    next_parent: 0,
                    on_branch: None,
                    is_committed: !(has_uncommitted && r == 0),
                    is_current: head_index == Some(r as usize),
                    next_x: 0,
                    connections: Seq::empty(),
                },
        ),
        branches: Seq::empty(),
        colours: Seq::empty(),
    }
}

/// The whole layout of the input.
pub open spec fn layout(
    commit_count: usize,
    parent_map: Seq<(usize, Vec<i32>)>,
    head_index: Option<usize>,
    has_uncommitted: bool,
) -> GraphModel {
    scan(initial(commit_count, parent_map, head_index, has_uncommitted), 0)
}

/// `first_slot` is the lowest reserved lane, and there is none when it
/// gives nothing.
pub proof fn lemma_first_slot(s: Seq<UnavailablePoint>, t: ParentRef, b: usize)
    ensures
        match first_slot(s, t, b) {
            Some(k) => 0 <= k < s.len() && s[k] == (UnavailablePoint { connects_to: t, on_branch: b })
                && forall|j: int| 0 <= j < k ==> s[j] != (UnavailablePoint { connects_to: t, on_branch: b }),
            None => forall|j: int| 0 <= j < s.len() ==> s[j] != (UnavailablePoint { connects_to: t, on_branch: b }),
        },
    decreases s.len(),
{
    if s.len() > 0 {
        lemma_first_slot(s.drop_first(), t, b);
        assert forall|j: int| 1 <= j < s.len() implies s[j] == s.drop_first()[j - 1] by {}
    }
}

/// `first_free` is the lowest slot whose marker is below `start`.
pub proof fn lemma_first_free(colours: Seq<usize>, start: usize)
    ensures
        0 <= first_free(colours, start) <= colours.len(),
        first_free(colours, start) < colours.len() ==> start > colours[first_free(colours, start)],
        forall|k: int| 0 <= k < first_free(colours, start) ==> !(start > #[trigger] colours[k]),
    decreases colours.len(),
{
    if colours.len() > 0 {
        lemma_first_free(colours.drop_last(), start);
        assert forall|k: int| 0 <= k < colours.len() - 1 implies colours[k] == colours.drop_last()[k] by {}
    }
}

} // verus!
