//! Assembly of the primer: warnings from the snapshot, rendering, and the
//! engine that ties the selection to them.
use vstd::prelude::*;
use vstd::string::*;
use crate::catalog::{
    Bootstrap,
    Command,
    level_of,
    catalog_fits,
    catalog_tokens,
    awareness_text,
    workflow_text,
    expansion_text,
    BOOTSTRAP_TOKENS,
    default_catalog,
    get_default_commands,
};
use crate::select::{
    candidates,
    sort_ordered,
    pack,
    indices_below,
    lemma_candidates,
    lemma_sort_ordered,
    lemma_pack,
    filter_candidates,
    sort_candidates,
    pack_entries,
};
use crate::text::{trim, trim_str, str_views, split_on, split_str};
use crate::tier::{Tier, tier_for, tier_name};

verus! {

/// A lock placed on a symbol.
pub struct LockInfo {
    pub level: String,
    pub directive: String,
}

/// A symbol of the snapshot, with its lock if it has one.
pub struct SymbolInfo {
    pub name: String,
    pub constraints: Option<LockInfo>,
}

/// The answer of the primer engine.
pub struct PrimerResponse {
    pub total_tokens: u32,
    pub tier: String,
    pub commands_included: usize,
    pub content: String,
}

/// Tokens charged for each warning line.
pub const WARNING_TOKENS: u32 = 15;

/// Headroom that must be left after the entries for warnings to be considered.
pub const WARNING_HEADROOM: u32 = 30;

/// Most warning lines shown.
pub const MAX_WARNINGS: usize = 3;

/// Characters of the directive quoted in a warning line.
pub const DIRECTIVE_EXCERPT: usize = 50;

/// Levels that produce a warning.
pub open spec fn is_locked(level: Seq<char>) -> bool {
    level == "frozen"@ || level == "restricted"@
}

/// The first `n` characters of `s`, or all of `s` when it is shorter.
pub open spec fn first_chars(s: Seq<char>, n: int) -> Seq<char> {
    if s.len() <= n {
        s
    } else {
        s.take(n)
    }
}

/// `name: level (excerpt)`.
pub open spec fn warning_line(name: Seq<char>, level: Seq<char>, directive: Seq<char>) -> Seq<
    char,
> {
    name + ": "@ + level + " ("@ + first_chars(directive, 50) + ")"@
}

/// One line per locked symbol, in the order in which the symbols are given.
pub open spec fn warning_lines(syms: Seq<SymbolInfo>) -> Seq<Seq<char>>
    decreases syms.len(),
{
    if syms.len() == 0 {
        Seq::empty()
    } else {
        let p = warning_lines(syms.drop_last());
        let s = syms.last();
        if s.constraints is Some && is_locked(s.constraints->0.level@) {
            p.push(warning_line(s.name@, s.constraints->0.level@, s.constraints->0.directive@))
        } else {
            p
        }
    }
}

/// How many of `n` warning lines are shown when `used` of `budget` tokens are spent.
pub open spec fn warnings_shown(used: int, budget: int, n: int) -> int {
    if used + 30 < budget {
        if n < 3 {
            n
        } else {
            3
        }
    } else {
        0
    }
}

/// The bootstrap block followed by a blank line.
pub open spec fn bootstrap_text() -> Seq<char> {
    awareness_text() + "\n"@ + workflow_text() + "\n"@ + expansion_text() + "\n\n"@
}

/// An entry's heading, its text at tier `t`, and a blank line.
pub open spec fn entry_text(c: Command, t: Tier) -> Seq<char> {
    c.name@ + "\n"@ + level_of(c, t).template@ + "\n\n"@
}

pub open spec fn entries_text(cat: Seq<Command>, sel: Seq<usize>, t: Tier) -> Seq<char>
    decreases sel.len(),
{
    if sel.len() == 0 {
        Seq::empty()
    } else {
        entries_text(cat, sel.drop_last(), t) + entry_text(cat[sel.last() as int], t)
    }
}

pub open spec fn lines_text(lines: Seq<Seq<char>>) -> Seq<char>
    decreases lines.len(),
{
    if lines.len() == 0 {
        Seq::empty()
    } else {
        lines_text(lines.drop_last()) + "  - "@ + lines.last() + "\n"@
    }
}

/// The warnings section: empty when there are no lines.
pub open spec fn warnings_text(lines: Seq<Seq<char>>) -> Seq<char> {
    if lines.len() == 0 {
        Seq::empty()
    } else {
        "Project Warnings\n"@ + lines_text(lines)
    }
}

/// The global tier for a budget: the bootstrap block's weight is taken off first,
/// without going below zero.
pub open spec fn primer_tier(budget: u32) -> Tier {
    tier_for(if budget >= BOOTSTRAP_TOKENS { budget - BOOTSTRAP_TOKENS } else { 0 })
}

/// Candidates in the order in which packing considers them.
pub open spec fn primer_order(cat: Seq<Command>, caps: Seq<Seq<char>>) -> Seq<usize> {
    sort_ordered(cat, candidates(cat, caps, cat.len() as int))
}

/// Selected entries and tokens used before warnings.
pub open spec fn primer_pack(cat: Seq<Command>, budget: u32, caps: Seq<Seq<char>>) -> (
    Seq<usize>,
    int,
) {
    pack(cat, primer_order(cat, caps), budget as int, primer_tier(budget))
}

/// The warning lines that are shown.
pub open spec fn primer_warnings(
    cat: Seq<Command>,
    budget: u32,
    caps: Seq<Seq<char>>,
    syms: Seq<SymbolInfo>,
) -> Seq<Seq<char>> {
    let lines = warning_lines(syms);
    lines.take(warnings_shown(primer_pack(cat, budget, caps).1, budget as int, lines.len() as int))
}

/// The primer text before trimming.
pub open spec fn primer_raw(
    cat: Seq<Command>,
    budget: u32,
    caps: Seq<Seq<char>>,
    syms: Seq<SymbolInfo>,
) -> Seq<char> {
    bootstrap_text() + entries_text(cat, primer_pack(cat, budget, caps).0, primer_tier(budget))
        + warnings_text(primer_warnings(cat, budget, caps, syms))
}

/// Tokens used, warnings included.
pub open spec fn primer_total(
    cat: Seq<Command>,
    budget: u32,
    caps: Seq<Seq<char>>,
    syms: Seq<SymbolInfo>,
) -> int {
    primer_pack(cat, budget, caps).1 + 15 * primer_warnings(cat, budget, caps, syms).len()
}

/// What the engine answers, field by field.
pub open spec fn primer_response(
    r: PrimerResponse,
    cat: Seq<Command>,
    budget: u32,
    caps: Seq<Seq<char>>,
    syms: Seq<SymbolInfo>,
) -> bool {
    &&& r.total_tokens == primer_total(cat, budget, caps, syms)
    &&& r.tier@ == tier_name(primer_tier(budget))
    &&& r.commands_included == primer_pack(cat, budget, caps).0.len()
    &&& r.content@ == trim(primer_raw(cat, budget, caps, syms))
}

fn locked_level(level: &String) -> (r: bool)
    ensures
        r == is_locked(level@),
{
    *level == String::from_str("frozen") || *level == String::from_str("restricted")
}

fn excerpt(s: &String, n: usize) -> (r: String)
    ensures
        r@ == first_chars(s@, n as int),
{
    let len = s.as_str().unicode_len();
    let m = if len <= n { len } else { n };
    let r = String::from_str(s.as_str().substring_char(0, m));
    assert(len <= n ==> s@.subrange(0, m as int) == s@);
    r
}

/// The warning line for a locked symbol.
pub fn format_warning(name: &String, lock: &LockInfo) -> (r: String)
    ensures
        r@ == warning_line(name@, lock.level@, lock.directive@),
{
    let mut r = name.clone();
    r.append(": ");
    r.append(lock.level.as_str());
    r.append(" (");
    let ex = excerpt(&lock.directive, DIRECTIVE_EXCERPT);
    r.append(ex.as_str());
    r.append(")");
    r
}

/// One warning line per frozen or restricted symbol, in the given order.
pub fn collect_warnings(syms: &Vec<SymbolInfo>) -> (r: Vec<String>)
    ensures
        str_views(r@) == warning_lines(syms@),
{
    let mut r: Vec<String> = Vec::new();
    let mut k: usize = 0;
    while k < syms.len()
        invariant
            k <= syms@.len(),
            str_views(r@) == warning_lines(syms@.take(k as int)),
        decreases syms@.len() - k,
    {
        let ghost before = r@;
        let s = &syms[k];
        proof {
            let q = syms@.take(k + 1);
            assert(q.drop_last() == syms@.take(k as int));
            assert(q.last() == *s);
        }
        match &s.constraints {
            Some(c) => {
                if locked_level(&c.level) {
                    let line = format_warning(&s.name, c);
                    r.push(line);
                    assert(str_views(r@) == str_views(before).push(line@));
                }
            },
            None => {},
        }
        k = k + 1;
    }
    assert(syms@.take(syms@.len() as int) == syms@);
    r
}

/// Builds the primer for `catalog` under a token `budget`, keeping the entries
/// that pass the `capabilities` filter, and warns of the locked `symbols`.
/// Warnings come in the order of `symbols`.
pub fn assemble_primer(
    catalog: &Vec<Command>,
    budget: u32,
    capabilities: &Vec<String>,
    symbols: &Vec<SymbolInfo>,
) -> (r: PrimerResponse)
    requires
        catalog_fits(catalog@),
    ensures
        primer_response(r, catalog@, budget, str_views(capabilities@), symbols@),
{
    let ghost cat = catalog@;
    let ghost caps = str_views(capabilities@);
    let bootstrap = Bootstrap::default();
    let entry_count = catalog.len();
    assert(cat.len() == entry_count);
    let filtered = filter_candidates(catalog, capabilities);
    proof {
        lemma_candidates(cat, caps, cat.len() as int);
        assert(cat.take(cat.len() as int) == cat);
    }
    let order = sort_candidates(catalog, &filtered);
    proof {
        lemma_sort_ordered(cat, filtered@);
    }
    let remaining = budget.saturating_sub(bootstrap.tokens);
    let tier = Tier::from_budget(remaining);
    let (sel, mut used) = pack_entries(catalog, &order, budget, tier);
    proof {
        lemma_pack(cat, order@, budget as int, tier);
    }
    let ghost sel_view = sel@;
    let mut content = bootstrap.awareness.clone();
    content.append("\n");
    content.append(bootstrap.workflow.as_str());
    content.append("\n");
    content.append(bootstrap.expansion.as_str());
    content.append("\n\n");
    let mut j: usize = 0;
    while j < sel.len()
        invariant
            j <= sel@.len(),
            sel@ == sel_view,
            indices_below(order@, cat.len() as int),
            forall|y: usize| sel_view.contains(y) ==> order@.contains(y),
            cat == catalog@,
            content@ == bootstrap_text() + entries_text(cat, sel_view.take(j as int), tier),
        decreases sel@.len() - j,
    {
        let i = sel[j];
        proof {
            let q = sel_view.take(j + 1);
            assert(q.drop_last() == sel_view.take(j as int));
            assert(q.last() == i);
            assert(sel_view.contains(i));
            let m = choose|m: int| 0 <= m < order@.len() && order@[m] == i;
        }
        let cmd = &catalog[i];
        content.append(cmd.name.as_str());
        content.append("\n");
        content.append(cmd.level_for(tier).template.as_str());
        content.append("\n\n");
        j = j + 1;
    }
    assert(sel_view.take(sel_view.len() as int) == sel_view);
    let ghost lines_all = warning_lines(symbols@);
    let ghost used0 = used as int;
    let ghost shown: int = warnings_shown(used0, budget as int, lines_all.len() as int);
    let ghost before_warnings = content@;
    if used + WARNING_HEADROOM < budget {
        let lines = collect_warnings(symbols);
        if lines.len() > 0 {
            content.append("Project Warnings\n");
            let mut w: usize = 0;
            // The budget test sees the tokens charged for the line just appended.
            while w < lines.len() && w < MAX_WARNINGS && used < budget
                invariant
                    w <= 3,
                    w < 3 ==> used < budget,
                    w <= lines@.len(),
                    str_views(lines@) == lines_all,
                    used0 + 30 < budget,
                    used0 + 45 <= u32::MAX,
                    used == used0 + 15 * w,
                    content@ == before_warnings + "Project Warnings\n"@ + lines_text(
                        lines_all.take(w as int),
                    ),
                decreases lines@.len() - w,
            {
                proof {
                    let q = lines_all.take(w + 1);
                    assert(q.drop_last() == lines_all.take(w as int));
                    assert(q.last() == lines@[w as int]@);
                }
                content.append("  - ");
                content.append(lines[w].as_str());
                content.append("\n");
                used = used + WARNING_TOKENS;
                w = w + 1;
            }
            assert(w as int == shown);
            assert(content@ == before_warnings + warnings_text(lines_all.take(shown)));
        } else {
            assert(lines_all.take(0) == lines_all);
            assert(content@ == before_warnings + warnings_text(lines_all.take(shown)));
        }
    } else {
        assert(lines_all.take(0).len() == 0);
        assert(content@ == before_warnings + warnings_text(lines_all.take(shown)));
    }
    assert(sel_view == primer_pack(cat, budget, caps).0);
    assert(content@ == primer_raw(cat, budget, caps, symbols@));
    PrimerResponse {
        total_tokens: used,
        tier: String::from_str(tier.as_str()),
        commands_included: sel.len(),
        content: trim_str(content.as_str()),
    }
}

/// Query of the primer: a token budget and a comma-separated capability filter.
pub struct PrimerQuery {
    pub budget: Option<u32>,
    pub capabilities: Option<String>,
}

/// Budget used when the query gives none.
pub const DEFAULT_BUDGET: u32 = 200;

/// The trimmed pieces, without those that are empty.
pub open spec fn nonempty_trimmed(pieces: Seq<Seq<char>>) -> Seq<Seq<char>>
    decreases pieces.len(),
{
    if pieces.len() == 0 {
        Seq::empty()
    } else {
        let p = nonempty_trimmed(pieces.drop_last());
        let t = trim(pieces.last());
        if t.len() > 0 {
            p.push(t)
        } else {
            p
        }
    }
}

/// The capabilities that a comma-separated list names: each piece trimmed,
/// blank pieces left out, so that an empty list requests nothing.
pub open spec fn capability_list(s: Seq<char>) -> Seq<Seq<char>> {
    nonempty_trimmed(split_on(s, ','))
}

/// The capabilities that a comma-separated list names.
pub fn parse_capabilities(s: &str) -> (r: Vec<String>)
    ensures
        str_views(r@) == capability_list(s@),
{
    let pieces = split_str(s, ',');
    let ghost pv = str_views(pieces@);
    let mut r: Vec<String> = Vec::new();
    let mut k: usize = 0;
    while k < pieces.len()
        invariant
            k <= pieces@.len(),
            pv == str_views(pieces@),
            str_views(r@) == nonempty_trimmed(pv.take(k as int)),
        decreases pieces@.len() - k,
    {
        proof {
            let q = pv.take(k + 1);
            assert(q.drop_last() == pv.take(k as int));
            assert(q.last() == pieces@[k as int]@);
        }
        let t = trim_str(pieces[k].as_str());
        let ghost before = r@;
        if t.as_str().unicode_len() > 0 {
            r.push(t);
            assert(str_views(r@) == str_views(before).push(t@));
        }
        k = k + 1;
    }
    assert(pv.take(pv.len() as int) == pv);
    r
}

/// The budget that a query asks for, or the default one.
pub open spec fn query_budget(q: PrimerQuery) -> u32 {
    match q.budget {
        Some(b) => b,
        None => DEFAULT_BUDGET,
    }
}

/// The capabilities that a query asks for.
pub open spec fn query_capabilities(q: PrimerQuery) -> Seq<Seq<char>> {
    match q.capabilities {
        Some(s) => capability_list(s@),
        None => Seq::empty(),
    }
}

impl PrimerQuery {
    /// The budget asked for, or the default one.
    pub fn budget_or_default(&self) -> (r: u32)
        ensures
            r == query_budget(*self),
    {
        match self.budget {
            Some(b) => b,
            None => DEFAULT_BUDGET,
        }
    }

    /// The capabilities asked for; none when the query names none.
    pub fn capability_filter(&self) -> (r: Vec<String>)
        ensures
            str_views(r@) == query_capabilities(*self),
    {
        match &self.capabilities {
            Some(s) => parse_capabilities(s.as_str()),
            None => {
                let r: Vec<String> = Vec::new();
                assert(str_views(r@) == Seq::<Seq<char>>::empty());
                r
            },
        }
    }
}

/// The primer over the built-in catalog for `query`, warning of the locked
/// `symbols` in their given order.
pub fn get_primer(query: &PrimerQuery, symbols: &Vec<SymbolInfo>) -> (r: PrimerResponse)
    ensures
        exists|cat: Seq<Command>|
            default_catalog(cat) && #[trigger] primer_response(
                r,
                cat,
                query_budget(*query),
                query_capabilities(*query),
                symbols@,
            ),
{
    let catalog = get_default_commands();
    let budget = query.budget_or_default();
    let caps = query.capability_filter();
    let r = assemble_primer(&catalog, budget, &caps, symbols);
    assert(default_catalog(catalog@));
    r
}

} // verus!
