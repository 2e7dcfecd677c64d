use spoiler::app::TorrentFile;
use spoiler::tree::{flatten, is_torrent_file, make_tree, FsNode, StatefulTree, TreeNode};

fn file_entry(name: &str) -> FsNode {
    FsNode { name: name.to_string(), is_dir: false, readable: true, children: Vec::new() }
}

fn dir_entry(name: &str, children: Vec<FsNode>) -> FsNode {
    FsNode { name: name.to_string(), is_dir: true, readable: true, children }
}

fn manifest_file(components: &[&str]) -> TorrentFile {
    TorrentFile {
        path: components.iter().map(|c| c.to_string()).collect(),
        size: 100,
        priority: 0,
        done: false,
    }
}

fn names(nodes: &[TreeNode]) -> Vec<String> {
    nodes.iter().map(|n| n.name.clone()).collect()
}

/// The listing of a download directory that also holds entries of other
/// jobs: `a/b.txt` and `c.txt` belong to the manifest, `d.txt` and `e/` do
/// not.
fn shared_listing() -> Vec<FsNode> {
    vec![
        file_entry("d.txt"),
        dir_entry("e", vec![file_entry("x.txt")]),
        dir_entry("a", vec![file_entry("b.txt")]),
        file_entry("c.txt"),
    ]
}

fn two_file_manifest() -> Vec<TorrentFile> {
    vec![manifest_file(&["a", "b.txt"]), manifest_file(&["c.txt"])]
}

#[test]
fn tree_membership_keeps_only_the_jobs_entries() {
    let tree = make_tree(&shared_listing(), &two_file_manifest(), &Vec::new());
    // Directories come first, then files, each in name order; the
    // unrelated `d.txt` and `e` are excluded.
    assert_eq!(names(&tree), vec!["a", "c.txt"]);
    assert_eq!(tree[0].path, vec!["a".to_string()]);
    assert!(tree[0].is_dir);
    assert_eq!(names(&tree[0].children), vec!["b.txt"]);
    assert_eq!(tree[0].children[0].path, vec!["a".to_string(), "b.txt".to_string()]);
    assert!(!tree[1].is_dir);
    assert!(tree[1].children.is_empty());
}

#[test]
fn an_ancestor_directory_of_a_manifest_path_is_expanded() {
    let listing = vec![dir_entry("a", vec![dir_entry("deep", vec![file_entry("f.bin")])])];
    let manifest = vec![manifest_file(&["a", "deep", "f.bin"])];
    let tree = make_tree(&listing, &manifest, &Vec::new());
    assert_eq!(names(&tree), vec!["a"]);
    assert_eq!(names(&tree[0].children), vec!["deep"]);
    assert_eq!(names(&tree[0].children[0].children), vec!["f.bin"]);
}

#[test]
fn an_unreadable_directory_degrades_to_a_leaf() {
    let listing = vec![FsNode {
        name: "a".to_string(),
        is_dir: true,
        readable: false,
        children: Vec::new(),
    }];
    let manifest = vec![manifest_file(&["a", "b.txt"])];
    let tree = make_tree(&listing, &manifest, &Vec::new());
    assert_eq!(names(&tree), vec!["a"]);
    assert!(!tree[0].is_dir);
    assert!(tree[0].children.is_empty());
}

#[test]
fn directories_come_first_in_name_order() {
    let listing = vec![
        file_entry("zz"),
        dir_entry("b", Vec::new()),
        file_entry("aa"),
        dir_entry("a", Vec::new()),
    ];
    let manifest = vec![
        manifest_file(&["zz"]),
        manifest_file(&["b"]),
        manifest_file(&["aa"]),
        manifest_file(&["a"]),
    ];
    let tree = make_tree(&listing, &manifest, &Vec::new());
    assert_eq!(names(&tree), vec!["a", "b", "aa", "zz"]);
}

#[test]
fn collapse_state_survives_a_rebuild() {
    let mut tree = StatefulTree::new();
    tree.rebuild(make_tree(&shared_listing(), &two_file_manifest(), &Vec::new()));
    // Only top-level rows are visible while nothing is expanded.
    let visible = flatten(&tree.items, &tree.opened);
    assert_eq!(visible.len(), 2);
    // Select `a` and expand it: its child becomes visible.
    tree.next_file();
    assert_eq!(tree.selected, Some(vec!["a".to_string()]));
    tree.toggle_collapse();
    let visible = flatten(&tree.items, &tree.opened);
    assert_eq!(visible.len(), 3);
    assert_eq!(visible[1], vec!["a".to_string(), "b.txt".to_string()]);
    // Rebuild from identical inputs: `a` is still expanded, found by its
    // path identifier.
    tree.rebuild(make_tree(&shared_listing(), &two_file_manifest(), &Vec::new()));
    let visible = flatten(&tree.items, &tree.opened);
    assert_eq!(visible.len(), 3);
    assert_eq!(visible[1], vec!["a".to_string(), "b.txt".to_string()]);
    // Collapsing again hides the child.
    tree.next_file();
    assert_eq!(tree.selected, Some(vec!["a".to_string()]));
    tree.toggle_collapse();
    let visible = flatten(&tree.items, &tree.opened);
    assert_eq!(visible.len(), 2);
}

#[test]
fn tree_selection_moves_over_visible_rows_and_clamps() {
    let mut tree = StatefulTree::new();
    tree.rebuild(make_tree(&shared_listing(), &two_file_manifest(), &Vec::new()));
    tree.next_file();
    assert_eq!(tree.selected, Some(vec!["a".to_string()]));
    tree.next_file();
    assert_eq!(tree.selected, Some(vec!["c.txt".to_string()]));
    // At the last row the selection stays.
    tree.next_file();
    assert_eq!(tree.selected, Some(vec!["c.txt".to_string()]));
    tree.previous_file();
    assert_eq!(tree.selected, Some(vec!["a".to_string()]));
    tree.previous_file();
    assert_eq!(tree.selected, Some(vec!["a".to_string()]));
}

#[test]
fn tree_navigation_on_an_empty_tree_is_a_no_op() {
    let mut tree = StatefulTree::new();
    tree.next_file();
    assert_eq!(tree.selected, None);
    tree.previous_file();
    assert_eq!(tree.selected, None);
    tree.toggle_collapse();
    assert!(tree.opened.is_empty());
}

#[test]
fn path_splitting_drops_empty_segments() {
    assert_eq!(spoiler::tree::split_path("a/b.txt"), vec!["a", "b.txt"]);
    assert_eq!(spoiler::tree::split_path("c.txt"), vec!["c.txt"]);
    assert_eq!(spoiler::tree::split_path("/a//b/"), vec!["a", "b"]);
    assert_eq!(spoiler::tree::split_path(""), Vec::<String>::new());
    assert_eq!(spoiler::tree::split_path("///"), Vec::<String>::new());
}

#[test]
fn torrent_file_extension_filter() {
    assert!(is_torrent_file(&"one.torrent".to_string()));
    assert!(is_torrent_file(&"a.torrent".to_string()));
    // A name that is only the extension has no stem and is not a candidate.
    assert!(!is_torrent_file(&".torrent".to_string()));
    assert!(!is_torrent_file(&"one.torren".to_string()));
    assert!(!is_torrent_file(&"one.torrentx".to_string()));
    assert!(!is_torrent_file(&"txt".to_string()));
    assert!(!is_torrent_file(&"".to_string()));
}
