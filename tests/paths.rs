use commit_graph::branch::Branch;
use commit_graph::builder::GraphBuilder;
use commit_graph::svg::push_decimal;
use commit_graph::point::Point;

fn linear(n: usize) -> Vec<(usize, Vec<i32>)> {
    let mut map = Vec::new();
    for i in 0..n {
        if i + 1 < n {
            map.push((i, vec![(i + 1) as i32]));
        } else {
            map.push((i, vec![-1]));
        }
    }
    map
}

const NODE_AT_LANE_0: &str = "M 7 14 m -4 0 a 4 4 0 1 0 8 0 a 4 4 0 1 0 -8 0 ";

#[test]
fn straight_strokes_of_linear_history() {
    let mut g = GraphBuilder::new();
    g.load_commits(5, &linear(5), None, false);
    let (paths, node) = g.generate_svg_paths(0);
    assert_eq!(paths[0], "M 7 14 L 7 28 ");
    assert_eq!(node, NODE_AT_LANE_0);
    let (paths, _) = g.generate_svg_paths(2);
    assert_eq!(paths[0], "M 7 0 L 7 14 M 7 14 L 7 28 ");
    for k in 1..8 {
        assert_eq!(paths[k], "");
    }
    let (paths, node) = g.generate_svg_paths(4);
    assert_eq!(paths[0], "M 7 0 L 7 14 ");
    assert_eq!(node, NODE_AT_LANE_0);
    let (paths, node) = g.generate_svg_paths(5);
    assert_eq!(paths[0], "");
    assert_eq!(node, "");
}

#[test]
fn curves_of_a_merge() {
    let map = vec![(0, vec![1, 2]), (1, vec![3]), (2, vec![3]), (3, vec![-1])];
    let mut g = GraphBuilder::new();
    g.load_commits(4, &map, None, false);
    let (paths, _) = g.generate_svg_paths(0);
    assert_eq!(paths[0], "M 7 14 L 7 28 ");
    assert_eq!(paths[1], "M 7 14 C 7 28 23 28 23 28 ");
    let (paths, _) = g.generate_svg_paths(1);
    assert_eq!(paths[1], "M 23 0 L 23 14 M 23 14 L 23 28 ");
    let (paths, node) = g.generate_svg_paths(2);
    assert_eq!(paths[1], "M 23 0 L 23 14 M 23 14 L 23 28 ");
    assert_eq!(node, "M 23 14 m -4 0 a 4 4 0 1 0 8 0 a 4 4 0 1 0 -8 0 ");
    let (paths, _) = g.generate_svg_paths(3);
    assert_eq!(paths[0], "M 7 0 L 7 14 ");
    assert_eq!(paths[1], "M 23 0 C 23 0 7 0 7 14 ");
}

#[test]
fn colours_fold_into_eight_buckets() {
    let mut g = GraphBuilder::new();
    g.load_commits(2, &linear(2), None, false);
    let mut b = Branch::new(9);
    b.add_line(Point { x: 1, y: 0 }, Point { x: 1, y: 1 }, true, false);
    g.branches.push(b);
    let (paths, _) = g.generate_svg_paths(0);
    assert_eq!(paths[0], "M 7 14 L 7 28 ");
    assert_eq!(paths[1], "M 23 14 L 23 28 ");
}

#[test]
fn decimal_digits() {
    let mut s = String::from("x=");
    push_decimal(&mut s, 0);
    assert_eq!(s, "x=0");
    let mut s = String::new();
    push_decimal(&mut s, 1207);
    assert_eq!(s, "1207");
    let mut s = String::new();
    push_decimal(&mut s, u128::MAX);
    assert_eq!(s, u128::MAX.to_string());
}

#[test]
fn long_cross_lane_segment_passes_straight_through() {
    let mut g = GraphBuilder::new();
    g.load_commits(4, &linear(4), None, false);
    let mut b = Branch::new(2);
    b.add_line(Point { x: 0, y: 0 }, Point { x: 1, y: 3 }, true, true);
    let mut c = Branch::new(3);
    c.add_line(Point { x: 2, y: 0 }, Point { x: 0, y: 3 }, true, false);
    g.branches.push(b);
    g.branches.push(c);
    let (paths, _) = g.generate_svg_paths(1);
    assert_eq!(paths[2], "M 23 0 L 23 28 ");
    assert_eq!(paths[3], "M 39 0 L 39 28 ");
    let (paths, _) = g.generate_svg_paths(0);
    assert_eq!(paths[2], "M 7 14 C 7 28 23 28 23 28 ");
    assert_eq!(paths[3], "M 39 14 L 39 28 ");
    let (paths, _) = g.generate_svg_paths(3);
    assert_eq!(paths[2], "M 23 0 L 23 14 ");
    assert_eq!(paths[3], "M 39 0 C 39 0 7 0 7 14 ");
}
