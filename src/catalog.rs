//! The static advisory catalog and the bootstrap block that precedes it.
use vstd::prelude::*;
use vstd::string::*;
use crate::tier::Tier;

verus! {

/// One rendering of an entry, with its fixed token weight.
pub struct TierLevel {
    pub tokens: u32,
    pub template: String,
}

/// An advisory entry of the catalog.
pub struct Command {
    pub name: String,
    /// Shown whatever the budget, as long as the capability filter lets it through.
    pub critical: bool,
    /// Lower comes first among entries of equal criticality.
    pub priority: u32,
    /// Capability tags; none means the entry applies under any filter.
    pub capabilities: Vec<String>,
    pub minimal: TierLevel,
    pub standard: Option<TierLevel>,
    pub full: Option<TierLevel>,
}

/// The preamble rendered before any entry.
pub struct Bootstrap {
    pub awareness: String,
    pub workflow: String,
    pub expansion: String,
    pub tokens: u32,
}

/// Token weight of the bootstrap block.
pub const BOOTSTRAP_TOKENS: u32 = 20;

pub open spec fn awareness_text() -> Seq<char> {
    "This project uses ACP. @acp:* comments are directives for you."@
}

pub open spec fn workflow_text() -> Seq<char> {
    "Before editing: acp constraints <path>"@
}

pub open spec fn expansion_text() -> Seq<char> {
    "More: acp primer --budget N"@
}

impl Default for Bootstrap {
    fn default() -> (r: Bootstrap)
        ensures
            r.awareness@ == awareness_text(),
            r.workflow@ == workflow_text(),
            r.expansion@ == expansion_text(),
            r.tokens == BOOTSTRAP_TOKENS,
    {
        Bootstrap {
            awareness: String::from_str(
                "This project uses ACP. @acp:* comments are directives for you.",
            ),
            workflow: String::from_str("Before editing: acp constraints <path>"),
            expansion: String::from_str("More: acp primer --budget N"),
            tokens: BOOTSTRAP_TOKENS,
        }
    }
}

/// The rendering of `c` at tier `t`: a missing tier falls back to the nearest
/// lower one that is present.
pub open spec fn level_of(c: Command, t: Tier) -> TierLevel {
    match t {
        Tier::Full => match c.full {
            Some(l) => l,
            None => match c.standard {
                Some(l) => l,
                None => c.minimal,
            },
        },
        Tier::Standard => match c.standard {
            Some(l) => l,
            None => c.minimal,
        },
        Tier::Minimal => c.minimal,
    }
}

/// Token weight of `c` at tier `t`.
pub open spec fn cost_of(c: Command, t: Tier) -> int {
    level_of(c, t).tokens as int
}

/// The largest weight that `c` can have at any tier.
pub open spec fn max_tokens(c: Command) -> int {
    let m = c.minimal.tokens as int;
    let s = match c.standard {
        Some(l) => l.tokens as int,
        None => 0,
    };
    let f = match c.full {
        Some(l) => l.tokens as int,
        None => 0,
    };
    if m >= s && m >= f {
        m
    } else if s >= f {
        s
    } else {
        f
    }
}

/// Sum of `max_tokens` over the catalog.
pub open spec fn catalog_tokens(cat: Seq<Command>) -> int
    decreases cat.len(),
{
    if cat.len() == 0 {
        0
    } else {
        catalog_tokens(cat.drop_last()) + max_tokens(cat.last())
    }
}

/// Room for the bootstrap block, every entry at its heaviest and three warnings
/// in a `u32` token count.
pub open spec fn catalog_fits(cat: Seq<Command>) -> bool {
    catalog_tokens(cat) + BOOTSTRAP_TOKENS + 45 <= u32::MAX
}

pub proof fn lemma_cost_le_max(c: Command, t: Tier)
    ensures
        0 <= cost_of(c, t) <= max_tokens(c),
{
}

impl Command {
    /// The rendering to use at tier `t`.
    pub fn level_for(&self, t: Tier) -> (r: &TierLevel)
        ensures
            *r == level_of(*self, t),
    {
        match t {
            Tier::Full => match &self.full {
                Some(l) => l,
                None => match &self.standard {
                    Some(l) => l,
                    None => &self.minimal,
                },
            },
            Tier::Standard => match &self.standard {
                Some(l) => l,
                None => &self.minimal,
            },
            Tier::Minimal => &self.minimal,
        }
    }
}

/// `c` has the given name, criticality, priority, weights and texts, and the
/// one capability tag `shell`.
pub open spec fn shell_entry(
    c: Command,
    name: Seq<char>,
    critical: bool,
    priority: u32,
    minimal: (u32, Seq<char>),
    standard: (u32, Seq<char>),
    full: Option<(u32, Seq<char>)>,
) -> bool {
    &&& c.name@ == name
    &&& c.critical == critical
    &&& c.priority == priority
    &&& c.capabilities@.len() == 1
    &&& c.capabilities@[0]@ == "shell"@
    &&& c.minimal.tokens == minimal.0 && c.minimal.template@ == minimal.1
    &&& c.standard is Some && c.standard->0.tokens == standard.0 && c.standard->0.template@
        == standard.1
    &&& match full {
        Some(f) => c.full is Some && c.full->0.tokens == f.0 && c.full->0.template@ == f.1,
        None => c.full is None,
    }
}

/// What the default catalog holds, entry by entry.
pub open spec fn default_catalog(cat: Seq<Command>) -> bool {
    &&& cat.len() == 8
    &&& shell_entry(
        cat[0],
        "acp constraints <path>"@,
        true,
        1,
        (8, "  Returns: lock level + directive"@),
        (25, "  Returns: lock level + directive\n  Levels: frozen (refuse), restricted (ask), normal (proceed)\n  Use: Check before ANY file modification"@),
        Some((45u32, "  Returns: lock level + directive\n  Levels: frozen (refuse), restricted (ask), normal (proceed)\n  Use: Check before ANY file modification\n  Example:\n    $ acp constraints src/auth/session.ts\n    frozen - Core auth logic; security-critical"@)),
    )
    &&& shell_entry(
        cat[1],
        "acp query file <path>"@,
        false,
        2,
        (6, "  Returns: purpose, constraints, symbols"@),
        (20, "  Returns: purpose, constraints, symbols, dependencies\n  Options: --json for machine-readable output\n  Use: Understand file context before working with it"@),
        Some((35u32, "  Returns: purpose, constraints, symbols, dependencies\n  Options: --json for machine-readable output\n  Use: Understand file context before working with it\n  Example:\n    $ acp query file src/payments/processor.ts"@)),
    )
    &&& shell_entry(
        cat[2],
        "acp query symbol <name>"@,
        false,
        3,
        (6, "  Returns: signature, purpose, constraints, callers"@),
        (18, "  Returns: signature, purpose, constraints, callers/callees\n  Options: --json for machine-readable output\n  Use: Understand function/method before modifying"@),
        None,
    )
    &&& shell_entry(
        cat[3],
        "acp query domain <name>"@,
        false,
        4,
        (5, "  Returns: domain files, cross-cutting concerns"@),
        (15, "  Returns: domain files, cross-cutting concerns\n  Options: --json for machine-readable output\n  Use: Understand architectural boundaries"@),
        None,
    )
    &&& shell_entry(
        cat[4],
        "acp map [path]"@,
        false,
        5,
        (5, "  Returns: directory tree with purposes"@),
        (15, "  Returns: directory tree with purposes and constraints\n  Options: --depth N, --inline (show todos/hacks)\n  Use: Navigate unfamiliar codebase"@),
        None,
    )
    &&& shell_entry(
        cat[5],
        "acp expand <text>"@,
        false,
        6,
        (5, "  Expands $variable references to full paths"@),
        (12, "  Expands $variable references to full paths\n  Options: --mode inline|annotated\n  Use: Resolve variable shortcuts in instructions"@),
        None,
    )
    &&& shell_entry(
        cat[6],
        "acp attempt start <id>"@,
        false,
        7,
        (5, "  Creates checkpoint for safe experimentation"@),
        (15, "  Creates checkpoint for safe experimentation\n  Related: acp attempt fail <id>, acp attempt verify <id>\n  Use: Track and revert failed approaches"@),
        None,
    )
    &&& shell_entry(
        cat[7],
        "acp primer --budget <N>"@,
        false,
        8,
        (5, "  Get more context (this command)"@),
        (10, "  Get more context within token budget\n  Options: --capabilities shell,mcp\n  Use: Request more detailed primer"@),
        None,
    )
}

fn level(tokens: u32, template: &str) -> (r: TierLevel)
    ensures
        r.tokens == tokens,
        r.template@ == template@,
{
    TierLevel { tokens, template: String::from_str(template) }
}

fn shell_entry_new(
    name: &str,
    critical: bool,
    priority: u32,
    minimal: TierLevel,
    standard: TierLevel,
    full: Option<TierLevel>,
) -> (r: Command)
    ensures
        r.name@ == name@,
        r.critical == critical,
        r.priority == priority,
        r.capabilities@.len() == 1,
        r.capabilities@[0]@ == "shell"@,
        r.minimal == minimal,
        r.standard == Some(standard),
        r.full == full,
{
    let mut capabilities: Vec<String> = Vec::new();
    capabilities.push(String::from_str("shell"));
    Command {
        name: String::from_str(name),
        critical,
        priority,
        capabilities,
        minimal,
        standard: Some(standard),
        full,
    }
}

/// The built-in catalog of advisory entries.
pub fn get_default_commands() -> (r: Vec<Command>)
    ensures
        default_catalog(r@),
        catalog_fits(r@),
{
    let mut v: Vec<Command> = Vec::new();
    v.push(
        shell_entry_new(
            "acp constraints <path>",
            true,
            1,
            level(8, "  Returns: lock level + directive"),
            level(
                25,
                "  Returns: lock level + directive\n  Levels: frozen (refuse), restricted (ask), normal (proceed)\n  Use: Check before ANY file modification",
            ),
            Some(
                level(
                    45,
                    "  Returns: lock level + directive\n  Levels: frozen (refuse), restricted (ask), normal (proceed)\n  Use: Check before ANY file modification\n  Example:\n    $ acp constraints src/auth/session.ts\n    frozen - Core auth logic; security-critical",
                ),
            ),
        ),
    );
    v.push(
        shell_entry_new(
            "acp query file <path>",
            false,
            2,
            level(6, "  Returns: purpose, constraints, symbols"),
            level(
                20,
                "  Returns: purpose, constraints, symbols, dependencies\n  Options: --json for machine-readable output\n  Use: Understand file context before working with it",
            ),
            Some(
                level(
                    35,
                    "  Returns: purpose, constraints, symbols, dependencies\n  Options: --json for machine-readable output\n  Use: Understand file context before working with it\n  Example:\n    $ acp query file src/payments/processor.ts",
                ),
            ),
        ),
    );
    v.push(
        shell_entry_new(
            "acp query symbol <name>",
            false,
            3,
            level(6, "  Returns: signature, purpose, constraints, callers"),
            level(
                18,
                "  Returns: signature, purpose, constraints, callers/callees\n  Options: --json for machine-readable output\n  Use: Understand function/method before modifying",
            ),
            None,
        ),
    );
    v.push(
        shell_entry_new(
            "acp query domain <name>",
            false,
            4,
            level(5, "  Returns: domain files, cross-cutting concerns"),
            level(
                15,
                "  Returns: domain files, cross-cutting concerns\n  Options: --json for machine-readable output\n  Use: Understand architectural boundaries",
            ),
            None,
        ),
    );
    v.push(
        shell_entry_new(
            "acp map [path]",
            false,
            5,
            level(5, "  Returns: directory tree with purposes"),
            level(
                15,
                "  Returns: directory tree with purposes and constraints\n  Options: --depth N, --inline (show todos/hacks)\n  Use: Navigate unfamiliar codebase",
            ),
            None,
        ),
    );
    v.push(
        shell_entry_new(
            "acp expand <text>",
            false,
            6,
            level(5, "  Expands $variable references to full paths"),
            level(
                12,
                "  Expands $variable references to full paths\n  Options: --mode inline|annotated\n  Use: Resolve variable shortcuts in instructions",
            ),
            None,
        ),
    );
    v.push(
        shell_entry_new(
            "acp attempt start <id>",
            false,
            7,
            level(5, "  Creates checkpoint for safe experimentation"),
            level(
                15,
                "  Creates checkpoint for safe experimentation\n  Related: acp attempt fail <id>, acp attempt verify <id>\n  Use: Track and revert failed approaches",
            ),
            None,
        ),
    );
    v.push(
        shell_entry_new(
            "acp primer --budget <N>",
            false,
            8,
            level(5, "  Get more context (this command)"),
            level(
                10,
                "  Get more context within token budget\n  Options: --capabilities shell,mcp\n  Use: Request more detailed primer",
            ),
            None,
        ),
    );
    proof {
        let s = v@;
        assert(s.drop_last().drop_last().drop_last().drop_last().drop_last().drop_last().drop_last().drop_last().len() == 0);
        reveal_with_fuel(catalog_tokens, 9);
    }
    v
}

} // verus!
