use crabwalker::tree::FsNode;
use crabwalker::tree::render_tree;
use crabwalker::tree::collect_tree;

fn cv(s: &str) -> Vec<char> {
    s.chars().collect()
}

fn cs(v: &Vec<char>) -> String {
    v.iter().collect()
}

fn lines_of(v: &Vec<Vec<char>>) -> Vec<String> {
    v.iter().map(cs).collect()
}

fn file(name: &str) -> FsNode {
    FsNode { name: cv(name), is_dir: false, children: Vec::new() }
}

fn dir(name: &str, children: Vec<FsNode>) -> FsNode {
    FsNode { name: cv(name), is_dir: true, children }
}

#[test]
fn depth_zero_renders_nothing_in_both_modes() {
    let root = dir("root", vec![file("a"), dir("b", vec![file("c")])]);
    assert_eq!(render_tree(&root, 0, 10, false).len(), 0);
    assert_eq!(collect_tree(&root, &cv("/root"), 0, false).len(), 0);
}

#[test]
fn depth_one_renders_root_only() {
    let root = dir("root", vec![file("a"), file("b")]);
    assert_eq!(lines_of(&render_tree(&root, 1, 10, false)), vec!["└─ 📁 root"]);
    assert_eq!(lines_of(&collect_tree(&root, &cv("/root"), 1, false)), vec!["/root"]);
}

#[test]
fn visual_renders_connectors_and_markers() {
    let root = dir("root", vec![file("a"), dir("sub", vec![file("c")]), file("z")]);
    let lines = lines_of(&render_tree(&root, 3, 10, false));
    assert_eq!(
        lines,
        vec![
            "└─ 📁 root",
            "   ├─ 📄 a",
            "   ├─ 📁 sub",
            "   │  └─ 📄 c",
            "   └─ 📄 z",
        ]
    );
}

#[test]
fn pipe_collects_all_paths_and_ignores_entry_cap() {
    let root = dir("root", vec![file("a"), dir("sub", vec![file("c")]), file("z")]);
    let expected = vec!["/root", "/root/a", "/root/sub", "/root/sub/c", "/root/z"];
    assert_eq!(lines_of(&collect_tree(&root, &cv("/root"), 3, false)), expected);
}

#[test]
fn pipe_depth_bounds_the_collection() {
    let root = dir("root", vec![dir("sub", vec![file("c")])]);
    let expected = vec!["/root", "/root/sub"];
    assert_eq!(lines_of(&collect_tree(&root, &cv("/root"), 2, false)), expected);
}

#[test]
fn hidden_entries_are_skipped_in_both_modes() {
    let root = dir("root", vec![file(".hidden"), file("a"), dir(".git", vec![file("cfg")])]);
    assert_eq!(
        lines_of(&render_tree(&root, 3, 10, false)),
        vec!["└─ 📁 root", "   └─ 📄 a"]
    );
    assert_eq!(
        lines_of(&collect_tree(&root, &cv("/root"), 3, false)),
        vec!["/root", "/root/a"]
    );
    assert_eq!(
        lines_of(&collect_tree(&root, &cv("/root"), 3, true)),
        vec!["/root", "/root/.hidden", "/root/a", "/root/.git", "/root/.git/cfg"]
    );
}

#[test]
fn hidden_entries_do_not_count_toward_the_cap() {
    let root = dir("root", vec![file(".h1"), file("a"), file("b"), file("c")]);
    let shown = lines_of(&render_tree(&root, 2, 3, false));
    assert_eq!(
        shown,
        vec!["└─ 📁 root", "   ├─ 📄 a", "   ├─ 📄 b", "   └─ 📄 c"]
    );
    let with_hidden = lines_of(&render_tree(&root, 2, 3, true));
    assert_eq!(
        with_hidden,
        vec!["└─ 📁 root", "   ├─ 📄 .h1", "   ├─ 📄 a", "   ├─ 📄 b", "   └─ …"]
    );
}

#[test]
fn fifteen_children_cap_ten_shows_elision_marker_last() {
    let mut children = Vec::new();
    for i in 0..15 {
        children.push(file(&format!("f{:02}", i)));
    }
    let root = dir("root", children);
    let lines = lines_of(&render_tree(&root, 2, 10, false));
    assert_eq!(lines.len(), 12);
    assert_eq!(lines[0], "└─ 📁 root");
    for i in 0..10 {
        assert_eq!(lines[1 + i], format!("   ├─ 📄 f{:02}", i));
    }
    assert_eq!(lines[11], "   └─ …");
}

#[test]
fn elision_marker_is_suppressed_at_the_deepest_level() {
    let mut grandchildren = Vec::new();
    for i in 0..15 {
        grandchildren.push(file(&format!("g{}", i)));
    }
    let root = dir("root", vec![dir("sub", grandchildren)]);
    let lines = lines_of(&render_tree(&root, 2, 10, false));
    assert_eq!(lines, vec!["└─ 📁 root", "   └─ 📁 sub"]);
}

#[test]
fn tenth_child_keeps_mid_connector_when_truncated() {
    let mut children = Vec::new();
    for i in 0..11 {
        children.push(file(&format!("f{:02}", i)));
    }
    let root = dir("root", children);
    let lines = lines_of(&render_tree(&root, 2, 10, false));
    assert_eq!(lines[10], "   ├─ 📄 f09");
    assert_eq!(lines[11], "   └─ …");
}

#[test]
fn file_root_renders_without_children() {
    let root = file("plain.txt");
    assert_eq!(lines_of(&render_tree(&root, 5, 10, false)), vec!["└─ 📄 plain.txt"]);
    assert_eq!(
        lines_of(&collect_tree(&root, &cv("/plain.txt"), 5, false)),
        vec!["/plain.txt"]
    );
}
