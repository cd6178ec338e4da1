use commit_graph::recent::{add_recent_repo, remove_recent_repo, reorder_recent_repos};

fn list(items: &[&str]) -> Vec<String> {
    items.iter().map(|s| s.to_string()).collect()
}

#[test]
fn added_repo_goes_to_the_front_once() {
    let r = add_recent_repo(list(&["/a", "/b", "/c"]), "/b");
    assert_eq!(r, list(&["/b", "/a", "/c"]));
    let r = add_recent_repo(list(&[]), "/x");
    assert_eq!(r, list(&["/x"]));
    let r = add_recent_repo(list(&["/x", "/y", "/x"]), "/x");
    assert_eq!(r, list(&["/x", "/y"]));
}

#[test]
fn recent_list_keeps_ten_entries() {
    let many: Vec<String> = (0..12).map(|i| format!("/r{}", i)).collect();
    let r = add_recent_repo(many, "/new");
    assert_eq!(r.len(), 10);
    assert_eq!(r[0], "/new");
    assert_eq!(r[9], "/r8");
}

#[test]
fn removing_an_entry() {
    assert_eq!(remove_recent_repo(list(&["/a", "/b", "/c"]), 1), list(&["/a", "/c"]));
    assert_eq!(remove_recent_repo(list(&["/a"]), 3), list(&["/a"]));
}

#[test]
fn reordering_entries() {
    let l = list(&["/a", "/b", "/c", "/d"]);
    assert_eq!(reorder_recent_repos(l.clone(), 0, 2), list(&["/b", "/a", "/c", "/d"]));
    assert_eq!(reorder_recent_repos(l.clone(), 0, 4), list(&["/b", "/c", "/d", "/a"]));
    assert_eq!(reorder_recent_repos(l.clone(), 3, 1), list(&["/a", "/d", "/b", "/c"]));
    assert_eq!(reorder_recent_repos(l.clone(), 2, 2), l);
    assert_eq!(reorder_recent_repos(l.clone(), 4, 0), l);
    assert_eq!(reorder_recent_repos(l.clone(), 1, 5), l);
}
