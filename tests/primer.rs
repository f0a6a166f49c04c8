use acpd::catalog::{get_default_commands, Command, TierLevel};
use acpd::primer::{
    assemble_primer, get_primer, parse_capabilities, LockInfo, PrimerQuery, PrimerResponse,
    SymbolInfo,
};
use acpd::tier::Tier;

const BOOTSTRAP: &str = "This project uses ACP. @acp:* comments are directives for you.\nBefore editing: acp constraints <path>\nMore: acp primer --budget N";

fn query(budget: Option<u32>, capabilities: Option<&str>) -> PrimerQuery {
    PrimerQuery {
        budget,
        capabilities: capabilities.map(|s| s.to_string()),
    }
}

fn locked(name: &str, level: &str, directive: &str) -> SymbolInfo {
    SymbolInfo {
        name: name.to_string(),
        constraints: Some(LockInfo {
            level: level.to_string(),
            directive: directive.to_string(),
        }),
    }
}

fn plain(name: &str) -> SymbolInfo {
    SymbolInfo {
        name: name.to_string(),
        constraints: None,
    }
}

fn headings(r: &PrimerResponse) -> Vec<String> {
    let names: Vec<String> = get_default_commands().into_iter().map(|c| c.name).collect();
    r.content
        .lines()
        .filter(|l| names.iter().any(|n| n == l))
        .map(|l| l.to_string())
        .collect()
}

fn entry(name: &str, critical: bool, priority: u32, caps: &[&str], tokens: u32) -> Command {
    Command {
        name: name.to_string(),
        critical,
        priority,
        capabilities: caps.iter().map(|c| c.to_string()).collect(),
        minimal: TierLevel {
            tokens,
            template: format!("  about {}", name),
        },
        standard: None,
        full: None,
    }
}

#[test]
fn default_budget_standard_tier() {
    let r = get_primer(&query(Some(200), Some("")), &Vec::new());
    assert_eq!(r.tier, "standard");
    assert_eq!(r.commands_included, 8);
    assert_eq!(r.total_tokens, 150);
    assert!(r.content.starts_with(BOOTSTRAP));
    assert!(r.content.contains("acp constraints <path>\n  Returns: lock level + directive\n  Levels: frozen (refuse), restricted (ask), normal (proceed)\n  Use: Check before ANY file modification\n\nacp query file <path>"));
    assert!(!r.content.contains("Example:"));
}

#[test]
fn missing_query_uses_defaults() {
    let a = get_primer(&query(None, None), &Vec::new());
    let b = get_primer(&query(Some(200), Some("")), &Vec::new());
    assert_eq!(a.total_tokens, b.total_tokens);
    assert_eq!(a.content, b.content);
    assert_eq!(a.tier, b.tier);
}

#[test]
fn small_budget_minimal_tier() {
    let r = get_primer(&query(Some(50), Some("shell")), &Vec::new());
    assert_eq!(r.tier, "minimal");
    assert_eq!(r.commands_included, 5);
    assert_eq!(r.total_tokens, 50);
    assert_eq!(
        headings(&r),
        vec![
            "acp constraints <path>",
            "acp query file <path>",
            "acp query symbol <name>",
            "acp query domain <name>",
            "acp map [path]",
        ]
    );
}

#[test]
fn critical_entry_exceeds_budget() {
    let r = get_primer(&query(Some(10), None), &Vec::new());
    assert_eq!(r.tier, "minimal");
    assert_eq!(r.commands_included, 1);
    assert_eq!(r.total_tokens, 28);
    assert_eq!(
        r.content,
        format!("{}\n\nacp constraints <path>\n  Returns: lock level + directive", BOOTSTRAP)
    );
}

#[test]
fn zero_budget_still_has_bootstrap_and_critical() {
    let r = get_primer(&query(Some(0), None), &Vec::new());
    assert!(r.content.starts_with(BOOTSTRAP));
    assert_eq!(headings(&r), vec!["acp constraints <path>"]);
    assert_eq!(r.total_tokens, 28);
}

#[test]
fn warnings_limited_to_three() {
    let long = "Never change the session layout without a migration plan agreed by the team";
    let syms = vec![
        locked("auth::login", "frozen", long),
        plain("util::fmt"),
        locked("db::pool", "restricted", "Ask first"),
        locked("api::route", "normal", "Anything goes"),
        locked("pay::charge", "frozen", "Security critical"),
        locked("pay::refund", "restricted", "Finance must review"),
        locked("cfg::load", "frozen", "Stable interface"),
    ];
    let r = get_primer(&query(Some(1000), None), &syms);
    assert_eq!(r.tier, "full");
    assert_eq!(r.commands_included, 8);
    assert_eq!(r.total_tokens, 185 + 45);
    let excerpt: String = long.chars().take(50).collect();
    assert_eq!(excerpt.chars().count(), 50);
    let expected = format!(
        "Project Warnings\n  - auth::login: frozen ({})\n  - db::pool: restricted (Ask first)\n  - pay::charge: frozen (Security critical)",
        excerpt
    );
    assert!(r.content.ends_with(&expected));
    assert!(!r.content.contains("pay::refund"));
    assert!(!r.content.contains("api::route"));
}

#[test]
fn no_warnings_without_headroom() {
    let syms = vec![locked("auth::login", "frozen", "Do not touch")];
    let r = get_primer(&query(Some(180), None), &syms);
    assert_eq!(r.total_tokens, 150);
    assert!(!r.content.contains("Project Warnings"));
    let r = get_primer(&query(Some(181), None), &syms);
    assert_eq!(r.total_tokens, 165);
    assert!(r.content.ends_with("  - auth::login: frozen (Do not touch)"));
}

#[test]
fn unknown_capability_keeps_universal_entries() {
    let cat = vec![
        entry("first", true, 1, &[], 8),
        entry("second", false, 2, &["shell"], 5),
        entry("third", false, 3, &["shell", "ide"], 5),
    ];
    let caps = vec!["mcp".to_string()];
    let r = assemble_primer(&cat, 200, &caps, &Vec::new());
    assert_eq!(r.commands_included, 1);
    assert_eq!(r.total_tokens, 28);
    assert!(r.content.ends_with("first\n  about first"));
    let r = get_primer(&query(Some(200), Some("mcp")), &Vec::new());
    assert_eq!(r.commands_included, 0);
    assert_eq!(r.total_tokens, 20);
    assert_eq!(r.content, BOOTSTRAP);
}

#[test]
fn capability_match_on_any_tag() {
    let cat = vec![
        entry("first", true, 1, &["shell"], 8),
        entry("second", false, 2, &["mcp", "ide"], 5),
        entry("third", false, 3, &["shell"], 5),
    ];
    let caps = vec!["ide".to_string()];
    let r = assemble_primer(&cat, 200, &caps, &Vec::new());
    assert_eq!(r.commands_included, 1);
    assert!(r.content.ends_with("second\n  about second"));
}

#[test]
fn ordering_critical_then_priority_then_catalog_order() {
    let cat = vec![
        entry("low", false, 5, &[], 1),
        entry("tie_a", false, 2, &[], 1),
        entry("crit", true, 9, &[], 1),
        entry("tie_b", false, 2, &[], 1),
    ];
    let r = assemble_primer(&cat, 200, &Vec::new(), &Vec::new());
    let order: Vec<&str> = r
        .content
        .lines()
        .filter(|l| ["low", "tie_a", "crit", "tie_b"].contains(l))
        .collect();
    assert_eq!(order, vec!["crit", "tie_a", "tie_b", "low"]);
}

#[test]
fn skipped_entry_does_not_stop_packing() {
    let cat = vec![
        entry("big", false, 1, &[], 50),
        entry("small", false, 2, &[], 5),
    ];
    let r = assemble_primer(&cat, 40, &Vec::new(), &Vec::new());
    assert_eq!(r.commands_included, 1);
    assert_eq!(r.total_tokens, 25);
    assert!(r.content.ends_with("small\n  about small"));
}

#[test]
fn tier_fallback_uses_lower_text() {
    let r = get_primer(&query(Some(1000), None), &Vec::new());
    assert!(r.content.contains("acp query symbol <name>\n  Returns: signature, purpose, constraints, callers/callees\n"));
    assert!(r.content.contains("    frozen - Core auth logic; security-critical\n\n"));
}

#[test]
fn critical_entry_once_for_any_budget() {
    for budget in [0u32, 1, 19, 20, 21, 50, 99, 100, 319, 320, 5000] {
        let r = get_primer(&query(Some(budget), None), &Vec::new());
        let h = headings(&r);
        assert_eq!(
            h.iter().filter(|n| n.as_str() == "acp constraints <path>").count(),
            1
        );
        assert!(r.content.starts_with(BOOTSTRAP));
    }
}

#[test]
fn raising_budget_keeps_admitted_prefix() {
    let small = get_primer(&query(Some(110), None), &Vec::new());
    let large = get_primer(&query(Some(113), None), &Vec::new());
    assert_eq!(small.tier, large.tier);
    let hs = headings(&small);
    let hl = headings(&large);
    assert_eq!(&hs[..4], &hl[..4]);
    assert_eq!(
        hs[..4],
        [
            "acp constraints <path>",
            "acp query file <path>",
            "acp query symbol <name>",
            "acp query domain <name>",
        ]
    );
}

#[test]
fn same_inputs_same_output() {
    let syms = vec![
        locked("a", "frozen", "x"),
        locked("b", "restricted", "y"),
    ];
    let a = get_primer(&query(Some(700), Some("shell")), &syms);
    let b = get_primer(&query(Some(700), Some("shell")), &syms);
    assert_eq!(a.content, b.content);
    assert_eq!(a.total_tokens, b.total_tokens);
    assert_eq!(a.tier, b.tier);
    assert_eq!(a.commands_included, b.commands_included);
}

#[test]
fn capability_list_parsing() {
    assert_eq!(parse_capabilities(""), Vec::<String>::new());
    assert_eq!(parse_capabilities("shell"), vec!["shell"]);
    assert_eq!(parse_capabilities(" shell , mcp "), vec!["shell", "mcp"]);
    assert_eq!(parse_capabilities("shell,,mcp,"), vec!["shell", "mcp"]);
    let q = query(None, Some("ide,\tshell"));
    assert_eq!(q.capability_filter(), vec!["ide", "shell"]);
    assert_eq!(q.budget_or_default(), 200);
}

#[test]
fn tier_boundaries() {
    assert_eq!(Tier::from_budget(0), Tier::Minimal);
    assert_eq!(Tier::from_budget(79), Tier::Minimal);
    assert_eq!(Tier::from_budget(80), Tier::Standard);
    assert_eq!(Tier::from_budget(299), Tier::Standard);
    assert_eq!(Tier::from_budget(300), Tier::Full);
    assert_eq!(Tier::Minimal.as_str(), "minimal");
    assert_eq!(Tier::Standard.as_str(), "standard");
    assert_eq!(Tier::Full.as_str(), "full");
}

#[test]
fn tier_from_remaining_after_bootstrap() {
    assert_eq!(get_primer(&query(Some(99), None), &Vec::new()).tier, "minimal");
    assert_eq!(get_primer(&query(Some(100), None), &Vec::new()).tier, "standard");
    assert_eq!(get_primer(&query(Some(319), None), &Vec::new()).tier, "standard");
    assert_eq!(get_primer(&query(Some(320), None), &Vec::new()).tier, "full");
}

#[test]
fn larger_budget_can_trade_one_later_entry_for_another() {
    let small = get_primer(&query(Some(110), None), &Vec::new());
    let large = get_primer(&query(Some(113), None), &Vec::new());
    assert_eq!(small.tier, "standard");
    assert_eq!(large.tier, "standard");
    assert_eq!(small.total_tokens, 110);
    assert_eq!(large.total_tokens, 113);
    let h = headings(&small);
    assert_eq!(h[4], "acp expand <text>");
    assert_eq!(h.len(), 5);
    let h = headings(&large);
    assert_eq!(h[4], "acp map [path]");
    assert_eq!(h.len(), 5);
}
