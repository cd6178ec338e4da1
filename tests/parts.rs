use commit_graph::branch::Branch;
use commit_graph::point::{ParentRef, Point, UnavailablePoint};
use commit_graph::vertex::Vertex;

#[test]
fn uncommitted_lines_are_counted() {
    let mut b = Branch::new(3);
    assert_eq!(b.get_colour(), 3);
    b.add_line(Point { x: 0, y: 0 }, Point { x: 0, y: 1 }, false, false);
    b.add_line(Point { x: 0, y: 1 }, Point { x: 0, y: 2 }, false, false);
    assert_eq!(b.num_uncommitted, 2);
    b.add_line(Point { x: 0, y: 2 }, Point { x: 1, y: 3 }, true, true);
    assert_eq!(b.num_uncommitted, 2);
    b.add_line(Point { x: 1, y: 3 }, Point { x: 0, y: 1 }, true, false);
    assert_eq!(b.num_uncommitted, 1);
    assert_eq!(b.lines.len(), 4);
    b.set_end(7);
    assert_eq!(b.end, 7);
}

#[test]
fn reservations_grow_one_lane_at_a_time() {
    let mut v = Vertex::new(4);
    v.register_unavailable_point(1, ParentRef::Row(6), 0);
    assert_eq!(v.next_x, 0);
    assert!(v.connections.is_empty());
    v.register_unavailable_point(0, ParentRef::Row(6), 2);
    v.register_unavailable_point(1, ParentRef::Outside, 3);
    v.register_unavailable_point(2, ParentRef::Row(6), 2);
    assert_eq!(v.next_x, 3);
    assert_eq!(v.get_next_point(), Point { x: 3, y: 4 });
    assert_eq!(v.connections[1], UnavailablePoint { connects_to: ParentRef::Outside, on_branch: 3 });
    assert_eq!(v.get_point_connecting_to(ParentRef::Row(6), 2), Some(Point { x: 0, y: 4 }));
    assert_eq!(v.get_point_connecting_to(ParentRef::Outside, 3), Some(Point { x: 1, y: 4 }));
    assert_eq!(v.get_point_connecting_to(ParentRef::Row(6), 3), None);
}

#[test]
fn branch_membership_is_set_once() {
    let mut v = Vertex::new(2);
    assert!(v.is_not_on_branch());
    v.add_to_branch(5, 3);
    assert!(v.is_on_this_branch(5));
    v.add_to_branch(6, 1);
    assert!(v.is_on_this_branch(5));
    assert!(!v.is_on_this_branch(6));
    assert_eq!(v.get_point(), Point { x: 3, y: 2 });
}

#[test]
fn parents_are_visited_in_order() {
    let mut v = Vertex::new(0);
    assert!(!v.has_parents());
    assert_eq!(v.get_next_parent(), None);
    v.add_parent(ParentRef::Row(3));
    v.add_parent(ParentRef::Outside);
    v.add_child(9);
    assert!(v.has_parents());
    assert!(v.is_merge());
    assert_eq!(v.get_next_parent(), Some(ParentRef::Row(3)));
    v.register_parent_processed();
    assert_eq!(v.get_next_parent(), Some(ParentRef::Outside));
    v.register_parent_processed();
    assert_eq!(v.get_next_parent(), None);
    assert_eq!(v.children, vec![9]);
}

#[test]
fn vertex_colour_follows_its_branch() {
    let branches = vec![Branch::new(4), Branch::new(11)];
    let mut v = Vertex::new(0);
    assert_eq!(v.get_colour(&branches), 0);
    v.add_to_branch(1, 0);
    assert_eq!(v.get_colour(&branches), 11);
    let mut w = Vertex::new(1);
    w.add_to_branch(7, 0);
    assert_eq!(w.get_colour(&branches), 0);
    v.set_not_committed();
    v.set_current();
    assert!(!v.is_committed);
    assert!(v.is_current);
}
