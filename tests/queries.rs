use acpd::queries::{
    apply_limit, eq_ignore_case, graph_response, locate_file, lock_level, normalize_path,
    text_contains, text_ends_with,
    ExpandedVariable, FileQuery, HealthResponse, SymbolQuery,
};

fn strings(v: &[&str]) -> Vec<String> {
    v.iter().map(|s| s.to_string()).collect()
}

#[test]
fn case_insensitive_comparison() {
    assert!(eq_ignore_case("TypeScript", "typescript"));
    assert!(eq_ignore_case("RUST", "Rust"));
    assert!(!eq_ignore_case("Rust", "Python"));
}

#[test]
fn substring_search() {
    assert!(text_contains("src/auth/session.rs", "auth"));
    assert!(text_contains("abc", ""));
    assert!(text_contains("abc", "abc"));
    assert!(!text_contains("abc", "abcd"));
    assert!(!text_contains("aab", "abb"));
    assert!(text_contains("xxaab", "aab"));
}

#[test]
fn file_filters() {
    let q = FileQuery {
        language: Some("typescript".to_string()),
        domain: Some("pay".to_string()),
        layer: Some("api".to_string()),
        limit: None,
    };
    let domains = strings(&["payments", "billing"]);
    let api = "api".to_string();
    let svc = "service".to_string();
    assert!(q.matches("TypeScript", &domains, Some(&api)));
    assert!(!q.matches("Rust", &domains, Some(&api)));
    assert!(!q.matches("TypeScript", &strings(&["auth"]), Some(&api)));
    assert!(!q.matches("TypeScript", &domains, Some(&svc)));
    assert!(!q.matches("TypeScript", &domains, None));
    let open = FileQuery {
        language: None,
        domain: None,
        layer: None,
        limit: Some(2),
    };
    assert!(open.matches("Go", &Vec::new(), None));
}

#[test]
fn symbol_filters() {
    let q = SymbolQuery {
        file: Some("auth/".to_string()),
        symbol_type: Some("FUNCTION".to_string()),
        exported: Some(true),
        limit: None,
    };
    assert!(q.matches("src/auth/login.rs", "Function", true));
    assert!(!q.matches("src/auth/login.rs", "Function", false));
    assert!(!q.matches("src/db/pool.rs", "Function", true));
    assert!(!q.matches("src/auth/login.rs", "Class", true));
}

#[test]
fn limit_keeps_total() {
    let mut v = vec![1, 2, 3, 4];
    assert_eq!(apply_limit(&mut v, Some(2)), 4);
    assert_eq!(v, vec![1, 2]);
    let mut w = vec![1, 2];
    assert_eq!(apply_limit(&mut w, Some(5)), 2);
    assert_eq!(w, vec![1, 2]);
    assert_eq!(apply_limit(&mut w, None), 2);
    assert_eq!(w, vec![1, 2]);
}

#[test]
fn graph_lookup_outcomes() {
    let r = graph_response("f".to_string(), Some(strings(&["g", "h"])), true).unwrap();
    assert_eq!(r.symbol, "f");
    assert_eq!(r.relationships, strings(&["g", "h"]));
    assert_eq!(r.count, 2);
    let r = graph_response("f".to_string(), None, true).unwrap();
    assert!(r.relationships.is_empty());
    assert_eq!(r.count, 0);
    assert!(graph_response("f".to_string(), None, false).is_none());
}

#[test]
fn lock_levels() {
    let frozen = strings(&["src/a.rs"]);
    let restricted = strings(&["src/a.rs", "src/b.rs"]);
    let a = "src/a.rs".to_string();
    let b = "src/b.rs".to_string();
    let c = "src/c.rs".to_string();
    assert_eq!(lock_level(&a, &frozen, &restricted).as_deref(), Some("frozen"));
    assert_eq!(lock_level(&b, &frozen, &restricted).as_deref(), Some("restricted"));
    assert_eq!(lock_level(&c, &frozen, &restricted), None);
}

#[test]
fn leading_slashes_removed() {
    assert_eq!(normalize_path("//src/a.rs"), "src/a.rs");
    assert_eq!(normalize_path("src/a.rs"), "src/a.rs");
    assert_eq!(normalize_path("/"), "");
}

#[test]
fn small_responses() {
    let h = HealthResponse::healthy("0.3.0");
    assert_eq!(h.status, "healthy");
    assert_eq!(h.version, "0.3.0");
    let v = ExpandedVariable::from_definition(
        "SYM_AUTH".to_string(),
        "src/auth.rs:login".to_string(),
        Some("login entry".to_string()),
        None,
        Some([3, 9]),
    );
    assert_eq!(v.name, "SYM_AUTH");
    assert_eq!(v.expanded, "src/auth.rs:login");
    assert_eq!(v.lines, Some([3, 9]));
}

#[test]
fn suffix_test() {
    assert!(text_ends_with("src/auth/session.rs", "session.rs"));
    assert!(text_ends_with("abc", ""));
    assert!(!text_ends_with("rs", "a.rs"));
    assert!(!text_ends_with("src/a.rs", "b.rs"));
}

#[test]
fn file_lookup_order() {
    let paths = strings(&["lib/x/session.rs", "src/auth/session.rs", "/abs.rs", "abs.rs"]);
    assert_eq!(locate_file(&paths, &"src/auth/session.rs".to_string()), Some(1));
    assert_eq!(locate_file(&paths, &"/abs.rs".to_string()), Some(2));
    assert_eq!(locate_file(&paths, &"//src/auth/session.rs".to_string()), Some(1));
    assert_eq!(locate_file(&paths, &"session.rs".to_string()), Some(0));
    assert_eq!(locate_file(&paths, &"/auth/session.rs".to_string()), Some(1));
    assert_eq!(locate_file(&paths, &"main.rs".to_string()), None);
}
