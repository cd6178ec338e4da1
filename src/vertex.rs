use vstd::prelude::*;

use crate::branch::Branch;
use crate::point::{ParentRef, Point, UnavailablePoint};

verus! {

/// One commit's state in the graph: its edges, its lane, the lanes of its row
/// that are already reserved, and a cursor over its parents.
pub struct Vertex {
    /// The row of the commit.
    pub id: usize,
    /// The lane of the commit, once it is on a branch.
    pub x: usize,
    pub children: Vec<usize>,
    pub parents: Vec<ParentRef>,
    /// Index of the first parent edge not yet drawn.
    pub next_parent: usize,
    pub on_branch: Option<usize>,
    pub is_committed: bool,
    pub is_current: bool,
    /// The lowest lane of this row that no segment has reserved yet.
    pub next_x: usize,
    /// Reservations of this row, indexed by lane.
    pub connections: Vec<UnavailablePoint>,
}

impl Vertex {
    /// Reservations grow contiguously and the parent cursor stays in range.
    pub open spec fn inv(&self) -> bool {
        &&& self.connections@.len() == self.next_x
        &&& self.next_parent <= self.parents@.len()
    }

    /// Work left before this vertex is fully resolved: one for joining a
    /// branch, one for each parent edge not yet drawn.
    pub open spec fn pending(&self) -> nat {
        (self.parents@.len() - self.next_parent) as nat + if self.on_branch is None {
            1nat
        } else {
            0nat
        }
    }

    /// A vertex of row `r` with the parent edges `parents`, before any layout.
    pub open spec fn fresh_at(&self, r: int, parents: Seq<ParentRef>) -> bool {
        &&& self.id == r
        &&& self.x == 0
        &&& self.parents@ == parents
        &&& self.next_parent == 0
        &&& self.on_branch is None
        &&& self.next_x == 0
        &&& self.connections@.len() == 0
    }

    pub open spec fn get_point_spec(&self) -> Point {
        Point { x: self.x, y: self.id }
    }

    pub open spec fn get_next_point_spec(&self) -> Point {
        Point { x: self.next_x, y: self.id }
    }

    pub open spec fn next_parent_spec(&self) -> Option<ParentRef> {
        if self.next_parent < self.parents@.len() {
            Some(self.parents@[self.next_parent as int])
        } else {
            None
        }
    }

    /// The reservation of lane `k` connects to `target` on branch `b`.
    pub open spec fn reserved_for(&self, k: int, target: ParentRef, b: usize) -> bool {
        0 <= k < self.connections@.len() && self.connections@[k] == (UnavailablePoint {
            connects_to: target,
            on_branch: b,
        })
    }

    pub fn new(id: usize) -> (r: Self)
        ensures
            r.id == id,
            r.x == 0,
            r.children@ == Seq::<usize>::empty(),
            r.parents@ == Seq::<ParentRef>::empty(),
            r.next_parent == 0,
            r.on_branch is None,
            r.is_committed,
            !r.is_current,
            r.next_x == 0,
            r.connections@ == Seq::<UnavailablePoint>::empty(),
            r.inv(),
    {
        Vertex {
            id,
            x: 0,
            children: Vec::new(),
            parents: Vec::new(),
            next_parent: 0,
            on_branch: None,
            is_committed: true,
            is_current: false,
            next_x: 0,
            connections: Vec::new(),
        }
    }

    pub fn add_child(&mut self, child_id: usize)
        ensures
            final(self).children@ == old(self).children@.push(child_id),
            *final(self) == (Vertex { children: final(self).children, ..*old(self) }),
    {
        self.children.push(child_id);
    }

    pub fn add_parent(&mut self, parent_id: ParentRef)
        requires
            old(self).inv(),
        ensures
            final(self).inv(),
            final(self).parents@ == old(self).parents@.push(parent_id),
            *final(self) == (Vertex { parents: final(self).parents, ..*old(self) }),
    {
        self.parents.push(parent_id);
    }

    pub fn has_parents(&self) -> (r: bool)
        ensures
            r == (self.parents@.len() > 0),
    {
        self.parents.len() > 0
    }

    /// The next parent edge not yet drawn.
    pub fn get_next_parent(&self) -> (r: Option<ParentRef>)
        ensures
            r == self.next_parent_spec(),
    {
        if self.next_parent < self.parents.len() {
            Some(self.parents[self.next_parent])
        } else {
            None
        }
    }

    /// Marks the next parent edge as drawn.
    pub fn register_parent_processed(&mut self)
        requires
            old(self).inv(),
            old(self).next_parent < old(self).parents@.len(),
        ensures
            final(self).inv(),
            final(self).next_parent == old(self).next_parent + 1,
            *final(self) == (Vertex { next_parent: (old(self).next_parent + 1) as usize, ..*old(self) }),
    {
        assert(self.next_parent < self.parents.len());
        self.next_parent = self.next_parent + 1;
    }

    pub fn is_merge(&self) -> (r: bool)
        ensures
            r == (self.parents@.len() > 1),
    {
        self.parents.len() > 1
    }

    /// Puts the vertex on branch `branch_idx` at lane `x`, unless it is on a
    /// branch already.
    pub fn add_to_branch(&mut self, branch_idx: usize, x: usize)
        ensures
            old(self).on_branch is None ==> *final(self) == (Vertex {
                on_branch: Some(branch_idx),
                x,
                ..*old(self)
            }),
            old(self).on_branch is Some ==> *final(self) == *old(self),
    {
        if self.on_branch.is_none() {
            self.on_branch = Some(branch_idx);
            self.x = x;
        }
    }

    pub fn is_not_on_branch(&self) -> (r: bool)
        ensures
            r == (self.on_branch is None),
    {
        self.on_branch.is_none()
    }

    pub fn is_on_this_branch(&self, branch_idx: usize) -> (r: bool)
        ensures
            r == (self.on_branch == Some(branch_idx)),
    {
        match self.on_branch {
            Some(b) => b == branch_idx,
            None => false,
        }
    }

    /// The commit's own point.
    pub fn get_point(&self) -> (r: Point)
        ensures
            r == (Point { x: self.x, y: self.id }),
    {
        Point { x: self.x, y: self.id }
    }

    /// Where a new segment would land on this row.
    pub fn get_next_point(&self) -> (r: Point)
        ensures
            r == (Point { x: self.next_x, y: self.id }),
    {
        Point { x: self.next_x, y: self.id }
    }

    /// The lowest lane of this row reserved toward `vertex_id` on `on_branch`.
    pub fn get_point_connecting_to(&self, vertex_id: ParentRef, on_branch: usize) -> (r: Option<
        Point,
    >)
        ensures
            match r {
                Some(p) => {
                    &&& p.y == self.id
                    &&& self.reserved_for(p.x as int, vertex_id, on_branch)
                    &&& forall|k: int|
                        0 <= k < p.x ==> !#[trigger] self.reserved_for(k, vertex_id, on_branch)
                },
                None => forall|k: int| !#[trigger] self.reserved_for(k, vertex_id, on_branch),
            },
    {
        let mut i: usize = 0;
        while i < self.connections.len()
            invariant
                i <= self.connections@.len(),
                forall|k: int| 0 <= k < i ==> !#[trigger] self.reserved_for(k, vertex_id, on_branch),
            decreases self.connections@.len() - i,
        {
            let conn = self.connections[i];
            if conn.connects_to == vertex_id && conn.on_branch == on_branch {
                return Some(Point { x: i, y: self.id });
            }
            i = i + 1;
        }
        None
    }

    /// Reserves lane `x` of this row toward `connects_to` on `on_branch`, if
    /// `x` is the lowest lane still free; otherwise the call changes nothing.
    pub fn register_unavailable_point(&mut self, x: usize, connects_to: ParentRef, on_branch: usize)
        requires
            old(self).inv(),
        ensures
            final(self).inv(),
            x == old(self).next_x ==> *final(self) == (Vertex {
                next_x: (x + 1) as usize,
                connections: final(self).connections,
                ..*old(self)
            }) && final(self).connections@ == old(self).connections@.push(
                UnavailablePoint { connects_to, on_branch },
            ),
            x != old(self).next_x ==> *final(self) == *old(self),
    {
        if x == self.next_x {
            self.connections.push(UnavailablePoint { connects_to, on_branch });
            self.next_x = self.connections.len();
        }
    }

    /// The colour of the branch this vertex is on; 0 when it is on none.
    pub fn get_colour(&self, branches: &[Branch]) -> (r: usize)
        ensures
            r == match self.on_branch {
                Some(b) => if b < branches@.len() {
                    branches@[b as int].colour
                } else {
                    0
                },
                None => 0,
            },
    {
        match self.on_branch {
            Some(b) => if b < branches.len() {
                branches[b].get_colour()
            } else {
                0
            },
            None => 0,
        }
    }

    pub fn set_not_committed(&mut self)
        ensures
            *final(self) == (Vertex { is_committed: false, ..*old(self) }),
    {
        self.is_committed = false;
    }

    pub fn set_current(&mut self)
        ensures
            *final(self) == (Vertex { is_current: true, ..*old(self) }),
    {
        self.is_current = true;
    }
}

} // verus!
