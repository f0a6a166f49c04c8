use acpd::map::{get_map, last_segment_of, text_less, FileSummary, MapNode, MapQuery};

fn files(v: &[(&str, usize)]) -> Vec<FileSummary> {
    v.iter()
        .map(|(p, n)| FileSummary {
            path: p.to_string(),
            exports: *n,
        })
        .collect()
}

fn sample() -> Vec<FileSummary> {
    files(&[
        ("src/main.rs", 2),
        ("src/api/mod.rs", 0),
        ("src/api/primer.rs", 5),
        ("README.md", 0),
    ])
}

fn kids(n: &MapNode) -> Vec<(&str, &str)> {
    n.children
        .as_ref()
        .unwrap()
        .iter()
        .map(|c| (c.name.as_str(), c.node_type))
        .collect()
}

#[test]
fn tree_with_default_depth() {
    let r = get_map(&sample(), &MapQuery { depth: None });
    assert_eq!(r.total_files, 4);
    assert_eq!(r.total_dirs, 3);
    assert_eq!(r.tree.name, ".");
    assert_eq!(r.tree.node_type, "directory");
    assert_eq!(kids(&r.tree), vec![("README.md", "file"), ("src", "directory")]);
    let src = &r.tree.children.as_ref().unwrap()[1];
    assert_eq!(kids(src), vec![("api", "directory"), ("main.rs", "file")]);
    assert_eq!(src.children.as_ref().unwrap()[1].symbols, Some(2));
    let api = &src.children.as_ref().unwrap()[0];
    assert_eq!(kids(api), vec![("mod.rs", "file"), ("primer.rs", "file")]);
    assert_eq!(api.children.as_ref().unwrap()[1].symbols, Some(5));
}

#[test]
fn tree_cut_at_depth() {
    let r = get_map(&sample(), &MapQuery { depth: Some(1) });
    let src = &r.tree.children.as_ref().unwrap()[1];
    assert_eq!(src.node_type, "directory");
    assert!(src.children.is_none());
    let r = get_map(&sample(), &MapQuery { depth: Some(0) });
    assert!(r.tree.children.is_none());
    assert_eq!(r.total_dirs, 3);
}

#[test]
fn empty_snapshot_has_unknown_root() {
    let r = get_map(&Vec::new(), &MapQuery { depth: None });
    assert_eq!(r.tree.node_type, "unknown");
    assert_eq!(r.total_files, 0);
    assert_eq!(r.total_dirs, 0);
}

#[test]
fn file_shadows_directory_of_same_path() {
    let r = get_map(&files(&[("a", 1), ("a/b", 2)]), &MapQuery { depth: None });
    assert_eq!(kids(&r.tree), vec![("a", "file")]);
    assert_eq!(r.tree.children.as_ref().unwrap()[0].symbols, Some(1));
    assert_eq!(r.total_dirs, 2);
}

#[test]
fn string_order_and_names() {
    let a = "README.md".to_string();
    let b = "src".to_string();
    assert!(text_less(&a, &b));
    assert!(!text_less(&b, &a));
    assert!(!text_less(&a, &a));
    assert!(text_less(&"ab".to_string(), &"abc".to_string()));
    assert_eq!(last_segment_of(&"src/api/mod.rs".to_string()), "mod.rs");
    assert_eq!(last_segment_of(&"top".to_string()), "top");
}
