use commit_graph::builder::GraphBuilder;
use commit_graph::point::{Line, ParentRef, Point};

fn pt(x: usize, y: usize) -> Point {
    Point { x, y }
}

fn seg(x1: usize, y1: usize, x2: usize, y2: usize, locked_first: bool) -> Line {
    Line { p1: pt(x1, y1), p2: pt(x2, y2), locked_first }
}

fn linear(n: usize) -> Vec<(usize, Vec<i32>)> {
    let mut map = Vec::new();
    for i in 0..n {
        if i + 1 < n {
            map.push((i, vec![(i + 1) as i32]));
        } else {
            map.push((i, vec![-1]));
        }
    }
    map
}

fn scenario_b() -> Vec<(usize, Vec<i32>)> {
    vec![(0, vec![1, 2]), (1, vec![3]), (2, vec![3]), (3, vec![-1])]
}

#[test]
fn linear_history_of_five_rows() {
    let mut g = GraphBuilder::new();
    g.load_commits(5, &linear(5), None, false);
    assert_eq!(g.vertices.len(), 5);
    assert_eq!(g.branches.len(), 1);
    assert_eq!(g.branches[0].end, 5);
    assert_eq!(g.branches[0].colour, 0);
    for row in 0..5 {
        assert_eq!(g.get_vertex_column(row), 0);
        assert_eq!(g.get_vertex_colour(row), 0);
        assert!(!g.is_vertex_merge(row));
    }
    assert_eq!(
        g.branches[0].lines,
        vec![
            seg(0, 0, 0, 1, false),
            seg(0, 1, 0, 2, false),
            seg(0, 2, 0, 3, false),
            seg(0, 3, 0, 4, false),
        ]
    );
}

#[test]
fn linear_history_of_many_sizes() {
    for n in 1..40 {
        let mut g = GraphBuilder::new();
        g.load_commits(n, &linear(n), None, false);
        assert_eq!(g.vertices.len(), n);
        assert_eq!(g.branches.len(), 1);
        assert_eq!(g.branches[0].end, n);
        for row in 0..n {
            assert_eq!(g.get_vertex_column(row), 0);
            assert_eq!(g.get_vertex_colour(row), 0);
        }
    }
}

#[test]
fn empty_input_has_no_rows() {
    let mut g = GraphBuilder::new();
    g.load_commits(0, &[], None, false);
    assert_eq!(g.vertices.len(), 0);
    assert_eq!(g.branches.len(), 0);
    let (paths, node) = g.generate_svg_paths(0);
    assert_eq!(paths.len(), 8);
    assert!(paths.iter().all(|p| p.is_empty()));
    assert_eq!(node, "");
}

#[test]
fn merge_with_both_parents_in_window() {
    let mut g = GraphBuilder::new();
    g.load_commits(4, &scenario_b(), None, false);
    assert_eq!(g.branches.len(), 2);
    assert_eq!(g.branches[0].colour, 0);
    assert_eq!(g.branches[0].end, 4);
    assert_eq!(
        g.branches[0].lines,
        vec![seg(0, 0, 0, 1, false), seg(0, 1, 0, 2, false), seg(0, 2, 0, 3, false)]
    );
    assert_eq!(g.branches[1].colour, 1);
    assert_eq!(g.branches[1].end, 3);
    assert_eq!(
        g.branches[1].lines,
        vec![seg(0, 0, 1, 1, true), seg(1, 1, 1, 2, false), seg(1, 2, 0, 3, false)]
    );
    assert_eq!(g.vertices[2].on_branch, Some(1));
    assert_eq!(g.get_vertex_column(0), 0);
    assert_eq!(g.get_vertex_column(1), 0);
    assert_eq!(g.get_vertex_column(2), 1);
    assert_eq!(g.get_vertex_column(3), 0);
    assert_eq!(g.get_vertex_colour(2), 1);
    assert_eq!(g.get_vertex_colour(3), 0);
    assert!(g.is_vertex_merge(0));
    assert!(!g.is_vertex_merge(1));
    // The two branches share a point only at the commit of row 3.
    assert_eq!(g.branches[0].lines[2].p2, g.branches[1].lines[2].p2);
    assert_eq!(g.vertices[3].connections[0].on_branch, 0);
}

#[test]
fn merge_stitch_stops_at_reservation_above_parent() {
    let map = vec![(0, vec![3]), (1, vec![2, 3]), (2, vec![3]), (3, vec![-1])];
    let mut g = GraphBuilder::new();
    g.load_commits(4, &map, None, false);
    assert_eq!(g.branches.len(), 2);
    assert_eq!(
        g.branches[0].lines,
        vec![
            seg(0, 0, 0, 1, false),
            seg(0, 1, 0, 2, false),
            seg(0, 2, 0, 3, false),
            seg(1, 1, 0, 2, false),
        ]
    );
    assert_eq!(g.branches[1].lines, vec![seg(1, 1, 1, 2, false), seg(1, 2, 0, 3, false)]);
    assert_eq!(g.branches[0].end, 4);
    assert_eq!(g.branches[1].end, 3);
    assert_eq!(g.get_vertex_column(1), 1);
    assert_eq!(g.get_vertex_column(2), 1);
}

#[test]
fn merge_stitch_reaching_parent_row() {
    let map = vec![(0, vec![2]), (1, vec![3, 2]), (2, vec![3]), (3, vec![-1])];
    let mut g = GraphBuilder::new();
    g.load_commits(4, &map, None, false);
    assert_eq!(g.branches.len(), 2);
    assert_eq!(g.branches[0].lines.len(), 4);
    assert_eq!(g.branches[0].lines[3], seg(1, 1, 0, 2, false));
    assert_eq!(g.branches[1].lines, vec![seg(1, 1, 1, 2, false), seg(1, 2, 0, 3, false)]);
    for row in 0..4 {
        assert_eq!(g.vertices[row].next_parent, g.vertices[row].parents.len());
    }
}

#[test]
fn colour_is_reused_after_its_branch_ends() {
    let map = vec![(0, vec![1, 2]), (1, vec![3]), (2, vec![3]), (3, vec![-1]), (4, vec![-1])];
    let mut g = GraphBuilder::new();
    g.load_commits(5, &map, None, false);
    assert_eq!(g.branches.len(), 3);
    assert_eq!(g.branches[0].end, 5);
    assert_eq!(g.branches[1].end, 3);
    assert_eq!(g.branches[2].colour, 1);
    assert_eq!(g.branches[1].start, 0);
    assert_eq!(g.branches[2].start, 4);
    assert!(g.branches[1].end < g.branches[2].start);
    assert_eq!(g.get_vertex_colour(4), 1);
    assert_eq!(g.get_vertex_column(4), 1);
    assert_eq!(g.available_colours, vec![5, 5]);
}

#[test]
fn colour_is_not_reused_while_its_branch_is_live() {
    let mut g = GraphBuilder::new();
    g.available_colours = vec![4, 2];
    assert_eq!(g.get_available_colour(2), 2);
    assert_eq!(g.available_colours, vec![4, 2, 0]);
    assert_eq!(g.get_available_colour(3), 1);
    assert_eq!(g.get_available_colour(5), 0);
}

#[test]
fn reload_depends_only_on_second_input() {
    let mut fresh = GraphBuilder::new();
    fresh.load_commits(5, &linear(5), Some(2), false);
    let mut reused = GraphBuilder::new();
    reused.load_commits(4, &scenario_b(), Some(0), true);
    reused.load_commits(5, &linear(5), Some(2), false);
    assert_eq!(reused.vertices.len(), fresh.vertices.len());
    assert_eq!(reused.branches.len(), fresh.branches.len());
    assert_eq!(reused.available_colours, fresh.available_colours);
    for b in 0..fresh.branches.len() {
        assert_eq!(reused.branches[b].lines, fresh.branches[b].lines);
        assert_eq!(reused.branches[b].end, fresh.branches[b].end);
        assert_eq!(reused.branches[b].colour, fresh.branches[b].colour);
    }
    for row in 0..6 {
        assert_eq!(reused.get_vertex_column(row), fresh.get_vertex_column(row));
        assert_eq!(reused.get_vertex_colour(row), fresh.get_vertex_colour(row));
        assert_eq!(reused.is_vertex_merge(row), fresh.is_vertex_merge(row));
        assert_eq!(reused.is_vertex_current(row), fresh.is_vertex_current(row));
        assert_eq!(reused.generate_svg_paths(row), fresh.generate_svg_paths(row));
    }
}

#[test]
fn uncommitted_row_shifts_every_row() {
    let map = vec![(0, vec![1]), (1, vec![-1])];
    let mut g = GraphBuilder::new();
    g.load(2, &map, Some(0), true);
    assert_eq!(g.vertices.len(), 3);
    assert!(!g.vertices[0].is_committed);
    assert!(g.vertices[1].is_committed);
    assert!(g.is_vertex_current(1));
    assert!(!g.is_vertex_current(0));
    assert_eq!(g.vertices[0].parents.len(), 0);
    assert_eq!(g.vertices[1].parents, vec![ParentRef::Row(2)]);
    assert_eq!(g.vertices[2].parents, vec![ParentRef::Outside]);
    assert_eq!(g.get_vertex_colour(0), 0);
    assert_eq!(g.get_vertex_colour(1), 1);
    assert_eq!(g.get_vertex_colour(2), 1);
    for row in 0..3 {
        assert_eq!(g.get_vertex_column(row), 0);
    }
}

#[test]
fn load_without_uncommitted_row_keeps_rows() {
    let mut g = GraphBuilder::new();
    g.load(5, &linear(5), Some(0), false);
    assert_eq!(g.vertices.len(), 5);
    assert!(g.is_vertex_current(0));
    assert_eq!(g.branches.len(), 1);
}

#[test]
fn malformed_parents_are_outside_the_window() {
    let map = vec![(0, vec![7, 0, -3]), (1, vec![0]), (9, vec![1])];
    let mut g = GraphBuilder::new();
    g.load_commits(2, &map, Some(5), false);
    assert_eq!(
        g.vertices[0].parents,
        vec![ParentRef::Outside, ParentRef::Outside, ParentRef::Outside]
    );
    assert_eq!(g.vertices[1].parents, vec![ParentRef::Outside]);
    assert!(!g.is_vertex_current(0));
    assert!(!g.is_vertex_current(1));
    for row in 0..2 {
        assert_eq!(g.vertices[row].next_parent, g.vertices[row].parents.len());
        assert!(g.vertices[row].on_branch.is_some());
    }
}

#[test]
fn queries_outside_the_graph_give_defaults() {
    let mut g = GraphBuilder::new();
    g.load_commits(3, &linear(3), Some(1), false);
    assert_eq!(g.get_vertex_column(3), 0);
    assert_eq!(g.get_vertex_colour(10), 0);
    assert!(!g.is_vertex_merge(3));
    assert!(!g.is_vertex_current(3));
    assert!(g.is_vertex_current(1));
}

#[test]
fn segments_end_in_slots_reserved_for_them() {
    let inputs = vec![
        (5, linear(5)),
        (4, scenario_b()),
        (4, vec![(0, vec![3]), (1, vec![2, 3]), (2, vec![3]), (3, vec![-1])]),
        (5, vec![(0, vec![1, 2]), (1, vec![3]), (2, vec![3]), (3, vec![-1]), (4, vec![-1])]),
        (6, vec![(0, vec![2, 1]), (1, vec![4, 3]), (2, vec![4]), (3, vec![5]), (4, vec![5]), (5, vec![-1])]),
    ];
    for (n, map) in inputs {
        let mut g = GraphBuilder::new();
        g.load_commits(n, &map, None, false);
        for (b, branch) in g.branches.iter().enumerate() {
            for line in &branch.lines {
                let slot = g.vertices[line.p2.y].connections[line.p2.x];
                assert!(slot.on_branch == b || slot.connects_to == ParentRef::Row(line.p2.y));
            }
        }
        for row in 0..n {
            let v = &g.vertices[row];
            assert_eq!(v.next_parent, v.parents.len());
            let b = v.on_branch.unwrap();
            assert_eq!(v.connections[v.x].on_branch, b);
            assert_eq!(v.connections[v.x].connects_to, ParentRef::Row(row));
        }
    }
}

#[test]
fn every_loaded_row_has_geometry() {
    let mut g = GraphBuilder::new();
    g.load(0, &[], None, true);
    assert_eq!(g.vertices.len(), 1);
    assert!(!g.vertices[0].is_committed);
    assert_eq!(g.branches.len(), 1);
    assert_eq!(g.branches[0].end, 1);
    g.load(0, &[], None, false);
    assert_eq!(g.vertices.len(), 0);
    let map = vec![(0, vec![1, 2]), (1, vec![3]), (2, vec![3]), (3, vec![-1])];
    g.load(4, &map, Some(0), true);
    assert_eq!(g.vertices.len(), 5);
    for row in 0..5 {
        let (paths, node) = g.generate_svg_paths(row);
        assert_eq!(paths.len(), 8);
        assert!(node.starts_with("M "));
        assert!(g.vertices[row].on_branch.is_some());
        assert_eq!(g.vertices[row].next_parent, g.vertices[row].parents.len());
    }
    assert!(g.is_vertex_merge(1));
    assert!(g.is_vertex_current(1));
}
