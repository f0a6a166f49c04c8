//! Decisions behind the snapshot's lookup endpoints: filters, lock levels,
//! relationship lookups and the small responses they produce.
use vstd::prelude::*;
use vstd::string::*;

verus! {

/// The callers or callees of a symbol.
pub struct GraphResponse {
    pub symbol: String,
    pub relationships: Vec<String>,
    pub count: usize,
}

/// Liveness answer of the daemon.
pub struct HealthResponse {
    pub status: String,
    pub version: String,
}

/// A variable of the project with its definition.
pub struct ExpandedVariable {
    pub name: String,
    pub expanded: String,
    pub description: Option<String>,
    pub source: Option<String>,
    pub lines: Option<[usize; 2]>,
}

/// Filters of the file listing; each one left out matches every file.
pub struct FileQuery {
    /// Language name, compared without regard to case.
    pub language: Option<String>,
    /// Text that one of the file's domains must contain.
    pub domain: Option<String>,
    /// Layer that the file must have.
    pub layer: Option<String>,
    /// Most files returned.
    pub limit: Option<usize>,
}

/// Filters of the symbol listing; each one left out matches every symbol.
pub struct SymbolQuery {
    /// Text that the symbol's file path must contain.
    pub file: Option<String>,
    /// Kind of symbol, compared without regard to case.
    pub symbol_type: Option<String>,
    /// Whether the symbol must be exported.
    pub exported: Option<bool>,
    /// Most symbols returned.
    pub limit: Option<usize>,
}

/// What `str::to_lowercase` returns for `s`.
pub uninterp spec fn lower_of(s: Seq<char>) -> Seq<char>;

/// Relies on `str::to_lowercase`: the lowercase mapping of each character,
/// which depends on the characters alone.
#[verifier::external_body]
fn lowercase(s: &str) -> (r: String)
    ensures
        r@ == lower_of(s@),
{
    s.to_lowercase()
}

/// Whether `a` and `b` are equal once both are lowercased.
pub fn eq_ignore_case(a: &str, b: &str) -> (r: bool)
    ensures
        r == (lower_of(a@) == lower_of(b@)),
{
    lowercase(a) == lowercase(b)
}

/// `needle` occurs in `hay` at some position.
pub open spec fn contains_text(hay: Seq<char>, needle: Seq<char>) -> bool {
    exists|i: int| 0 <= i <= hay.len() - needle.len() && #[trigger] hay.subrange(i, i + needle.len()) == needle
}

/// Whether `needle` occurs in `hay`.
pub fn text_contains(hay: &str, needle: &str) -> (r: bool)
    ensures
        r == contains_text(hay@, needle@),
{
    let h = crate::text::char_vec(hay);
    let n = crate::text::char_vec(needle);
    if n.len() > h.len() {
        return false;
    }
    let last = h.len() - n.len();
    let mut i: usize = 0;
    loop
        invariant
            h@ == hay@,
            n@ == needle@,
            n@.len() <= h@.len(),
            h@.len() <= usize::MAX,
            last == h@.len() - n@.len(),
            i <= last,
            forall|k: int| 0 <= k < i ==> #[trigger] hay@.subrange(k, k + needle@.len()) != needle@,
        ensures
            forall|k: int| 0 <= k <= last ==> #[trigger] hay@.subrange(k, k + needle@.len()) != needle@,
        decreases last - i,
    {
        let mut j: usize = 0;
        while j < n.len() && h[i + j] == n[j]
            invariant
                h@ == hay@,
                n@ == needle@,
                h@.len() <= usize::MAX,
                i <= last,
                last == h@.len() - n@.len(),
                j <= n@.len(),
                forall|m: int| 0 <= m < j ==> hay@[i + m] == needle@[m],
            decreases n@.len() - j,
        {
            j = j + 1;
        }
        if j == n.len() {
            assert(hay@.subrange(i as int, i + needle@.len()) == needle@);
            return true;
        }
        assert(hay@.subrange(i as int, i + needle@.len())[j as int] != needle@[j as int]);
        if i == last {
            break;
        }
        i = i + 1;
    }
    proof {
        if contains_text(hay@, needle@) {
            let k = choose|k: int| 0 <= k <= hay@.len() - needle@.len() && #[trigger] hay@.subrange(k, k + needle@.len()) == needle@;
            assert(hay@.subrange(k, k + needle@.len()) != needle@);
        }
    }
    false
}

/// `hay` ends with `suffix`.
pub open spec fn ends_with_text(hay: Seq<char>, suffix: Seq<char>) -> bool {
    suffix.len() <= hay.len() && hay.subrange(hay.len() - suffix.len(), hay.len() as int) == suffix
}

/// Whether `hay` ends with `suffix`.
pub fn text_ends_with(hay: &str, suffix: &str) -> (r: bool)
    ensures
        r == ends_with_text(hay@, suffix@),
{
    let h = crate::text::char_vec(hay);
    let s = crate::text::char_vec(suffix);
    if s.len() > h.len() {
        return false;
    }
    let off = h.len() - s.len();
    let mut j: usize = 0;
    while j < s.len()
        invariant
            h@ == hay@,
            s@ == suffix@,
            off + s@.len() == h@.len(),
            h@.len() <= usize::MAX,
            j <= s@.len(),
            forall|m: int| 0 <= m < j ==> hay@[off + m] == suffix@[m],
        decreases s@.len() - j,
    {
        if h[off + j] != s[j] {
            assert(hay@.subrange(off as int, hay@.len() as int)[j as int] != suffix@[j as int]);
            return false;
        }
        j = j + 1;
    }
    assert(hay@.subrange(off as int, hay@.len() as int) == suffix@);
    true
}

/// Whether some string of `v` contains `needle`.
pub open spec fn any_contains(v: Seq<String>, needle: Seq<char>) -> bool {
    exists|k: int| 0 <= k < v.len() && contains_text(#[trigger] v[k]@, needle)
}

fn some_contains(v: &Vec<String>, needle: &str) -> (r: bool)
    ensures
        r == any_contains(v@, needle@),
{
    let mut k: usize = 0;
    while k < v.len()
        invariant
            k <= v@.len(),
            forall|m: int| 0 <= m < k ==> !contains_text(#[trigger] v@[m]@, needle@),
        decreases v@.len() - k,
    {
        if text_contains(v[k].as_str(), needle) {
            return true;
        }
        k = k + 1;
    }
    false
}

/// The file filter, for a file of language `language`, in `domains`, at `layer`.
pub open spec fn file_query_matches(
    q: FileQuery,
    language: Seq<char>,
    domains: Seq<String>,
    layer: Option<Seq<char>>,
) -> bool {
    &&& match q.language {
        Some(l) => lower_of(language) == lower_of(l@),
        None => true,
    }
    &&& match q.domain {
        Some(d) => any_contains(domains, d@),
        None => true,
    }
    &&& match q.layer {
        Some(l) => layer == Some(l@),
        None => true,
    }
}

/// The symbol filter, for a symbol in file `file`, of kind `kind`, exported or not.
pub open spec fn symbol_query_matches(
    q: SymbolQuery,
    file: Seq<char>,
    kind: Seq<char>,
    exported: bool,
) -> bool {
    &&& match q.file {
        Some(f) => contains_text(file, f@),
        None => true,
    }
    &&& match q.symbol_type {
        Some(t) => lower_of(kind) == lower_of(t@),
        None => true,
    }
    &&& match q.exported {
        Some(e) => exported == e,
        None => true,
    }
}

/// `v` cut down to at most `limit` items, when there is a limit.
pub open spec fn limited<T>(v: Seq<T>, limit: Option<usize>) -> Seq<T> {
    match limit {
        Some(n) => if v.len() <= n { v } else { v.take(n as int) },
        None => v,
    }
}

/// Cuts `v` down to `limit` items when there is a limit, and returns how many
/// there were before.
pub fn apply_limit<T>(v: &mut Vec<T>, limit: Option<usize>) -> (total: usize)
    ensures
        total == old(v)@.len(),
        final(v)@ == limited(old(v)@, limit),
{
    let total = v.len();
    if let Some(n) = limit {
        v.truncate(n);
    }
    total
}

impl FileQuery {
    /// Whether a file of language `language`, in `domains`, at `layer`, passes
    /// every filter that is set.
    pub fn matches(&self, language: &str, domains: &Vec<String>, layer: Option<&String>) -> (r:
        bool)
        ensures
            r == file_query_matches(
                *self,
                language@,
                domains@,
                match layer {
                    Some(l) => Some(l@),
                    None => None,
                },
            ),
    {
        let lang_ok = match &self.language {
            Some(l) => eq_ignore_case(language, l.as_str()),
            None => true,
        };
        let domain_ok = match &self.domain {
            Some(d) => some_contains(domains, d.as_str()),
            None => true,
        };
        let layer_ok = match &self.layer {
            Some(l) => match layer {
                Some(fl) => *fl == *l,
                None => false,
            },
            None => true,
        };
        lang_ok && domain_ok && layer_ok
    }
}

impl SymbolQuery {
    /// Whether a symbol in `file`, of kind `kind`, exported or not, passes
    /// every filter that is set.
    pub fn matches(&self, file: &str, kind: &str, exported: bool) -> (r: bool)
        ensures
            r == symbol_query_matches(*self, file@, kind@, exported),
    {
        let file_ok = match &self.file {
            Some(f) => text_contains(file, f.as_str()),
            None => true,
        };
        let kind_ok = match &self.symbol_type {
            Some(t) => eq_ignore_case(kind, t.as_str()),
            None => true,
        };
        let exported_ok = match self.exported {
            Some(e) => exported == e,
            None => true,
        };
        file_ok && kind_ok && exported_ok
    }
}

/// The answer for `symbol` given its recorded relationships, if any, and
/// whether the symbol is known: known without relationships gives an empty
/// list, unknown gives none.
pub fn graph_response(symbol: String, edges: Option<Vec<String>>, known: bool) -> (r: Option<
    GraphResponse,
>)
    ensures
        match edges {
            Some(e) => r is Some && r->0.symbol@ == symbol@ && r->0.relationships@ == e@
                && r->0.count == e@.len(),
            None => if known {
                r is Some && r->0.symbol@ == symbol@ && r->0.relationships@.len() == 0
                    && r->0.count == 0
            } else {
                r is None
            },
        },
{
    match edges {
        Some(e) => {
            let count = e.len();
            Some(GraphResponse { symbol, relationships: e, count })
        },
        None => if known {
            Some(GraphResponse { symbol, relationships: Vec::new(), count: 0 })
        } else {
            None
        },
    }
}

/// `s` without any leading `c`.
pub open spec fn strip_leading(s: Seq<char>, c: char) -> Seq<char>
    decreases s.len(),
{
    if s.len() > 0 && s[0] == c {
        strip_leading(s.drop_first(), c)
    } else {
        s
    }
}

proof fn lemma_strip_leading_skip(s: Seq<char>, c: char, k: int)
    requires
        0 <= k <= s.len(),
        forall|j: int| 0 <= j < k ==> #[trigger] s[j] == c,
    ensures
        strip_leading(s, c) == strip_leading(s.skip(k), c),
    decreases k,
{
    if k > 0 {
        let t = s.drop_first();
        assert forall|j: int| 0 <= j < k - 1 implies #[trigger] t[j] == c by {
            assert(t[j] == s[j + 1]);
        }
        lemma_strip_leading_skip(t, c, k - 1);
        assert(t.skip(k - 1) == s.skip(k));
    } else {
        assert(s.skip(0) == s);
    }
}

/// A path as the constraint index keys it: without leading slashes.
pub fn normalize_path(path: &str) -> (r: String)
    ensures
        r@ == strip_leading(path@, '/'),
{
    let cs = crate::text::char_vec(path);
    let n = cs.len();
    let mut k: usize = 0;
    while k < n && cs[k] == '/'
        invariant
            k <= n,
            n == path@.len(),
            cs@ == path@,
            forall|j: int| 0 <= j < k ==> #[trigger] path@[j] == '/',
        decreases n - k,
    {
        k = k + 1;
    }
    proof {
        lemma_strip_leading_skip(path@, '/', k as int);
        assert(path@.subrange(k as int, n as int) == path@.skip(k as int));
    }
    String::from_str(path.substring_char(k, n))
}

/// `path` is listed in `files`.
pub open spec fn listed(files: Seq<String>, path: Seq<char>) -> bool {
    exists|k: int| 0 <= k < files.len() && #[trigger] files[k]@ == path
}

fn is_listed(files: &Vec<String>, path: &String) -> (r: bool)
    ensures
        r == listed(files@, path@),
{
    let mut k: usize = 0;
    while k < files.len()
        invariant
            k <= files@.len(),
            forall|m: int| 0 <= m < k ==> #[trigger] files@[m]@ != path@,
        decreases files@.len() - k,
    {
        if files[k] == *path {
            assert(files@[k as int]@ == path@);
            return true;
        }
        k = k + 1;
    }
    false
}

/// The lock level of `path`: `frozen` when the frozen list holds it, else
/// `restricted` when the restricted list does, else none.
pub fn lock_level(path: &String, frozen: &Vec<String>, restricted: &Vec<String>) -> (r: Option<
    String,
>)
    ensures
        listed(frozen@, path@) ==> r is Some && r->0@ == "frozen"@,
        !listed(frozen@, path@) && listed(restricted@, path@) ==> r is Some && r->0@
            == "restricted"@,
        !listed(frozen@, path@) && !listed(restricted@, path@) ==> r is None,
{
    if is_listed(frozen, path) {
        Some(String::from_str("frozen"))
    } else if is_listed(restricted, path) {
        Some(String::from_str("restricted"))
    } else {
        None
    }
}

/// `p` ends with `path` or with `bare`.
pub open spec fn suffix_match(p: Seq<char>, path: Seq<char>, bare: Seq<char>) -> bool {
    ends_with_text(p, path) || ends_with_text(p, bare)
}

/// The first index of `paths` whose path is `target`.
fn first_equal(paths: &Vec<String>, target: &String) -> (r: Option<usize>)
    ensures
        match r {
            Some(i) => i < paths@.len() && paths@[i as int]@ == target@ && forall|j: int|
                0 <= j < i ==> #[trigger] paths@[j]@ != target@,
            None => !listed(paths@, target@),
        },
{
    let mut k: usize = 0;
    while k < paths.len()
        invariant
            k <= paths@.len(),
            forall|m: int| 0 <= m < k ==> #[trigger] paths@[m]@ != target@,
        decreases paths@.len() - k,
    {
        if paths[k] == *target {
            return Some(k);
        }
        k = k + 1;
    }
    None
}

/// Which of the known `paths` a requested `path` names: the path itself, else
/// the path without leading slashes, else the first path that ends with
/// either.
pub fn locate_file(paths: &Vec<String>, path: &String) -> (r: Option<usize>)
    ensures
        ({
            let bare = strip_leading(path@, '/');
            match r {
                Some(i) => i < paths@.len() && (
                    (paths@[i as int]@ == path@ && forall|j: int| 0 <= j < i ==> #[trigger] paths@[j]@ != path@)
                    || (!listed(paths@, path@) && paths@[i as int]@ == bare
                        && forall|j: int| 0 <= j < i ==> #[trigger] paths@[j]@ != bare)
                    || (!listed(paths@, path@) && !listed(paths@, bare)
                        && suffix_match(paths@[i as int]@, path@, bare)
                        && forall|j: int| 0 <= j < i ==> !suffix_match(#[trigger] paths@[j]@, path@, bare))),
                None => !listed(paths@, path@) && !listed(paths@, bare) && forall|j: int|
                    0 <= j < paths@.len() ==> !suffix_match(#[trigger] paths@[j]@, path@, bare),
            }
        }),
{
    if let Some(i) = first_equal(paths, path) {
        return Some(i);
    }
    let bare = normalize_path(path.as_str());
    if let Some(i) = first_equal(paths, &bare) {
        return Some(i);
    }
    let mut k: usize = 0;
    while k < paths.len()
        invariant
            k <= paths@.len(),
            bare@ == strip_leading(path@, '/'),
            !listed(paths@, path@),
            !listed(paths@, bare@),
            forall|m: int| 0 <= m < k ==> !suffix_match(#[trigger] paths@[m]@, path@, bare@),
        decreases paths@.len() - k,
    {
        if text_ends_with(paths[k].as_str(), path.as_str()) || text_ends_with(paths[k].as_str(), bare.as_str()) {
            return Some(k);
        }
        k = k + 1;
    }
    None
}

impl HealthResponse {
    /// The answer of a running daemon of the given version.
    pub fn healthy(version: &str) -> (r: HealthResponse)
        ensures
            r.status@ == "healthy"@,
            r.version@ == version@,
    {
        HealthResponse { status: String::from_str("healthy"), version: String::from_str(version) }
    }
}

impl ExpandedVariable {
    /// A variable named `name` whose definition is `value`, with what is known
    /// of where it comes from.
    pub fn from_definition(
        name: String,
        value: String,
        description: Option<String>,
        source: Option<String>,
        lines: Option<[usize; 2]>,
    ) -> (r: ExpandedVariable)
        ensures
            r.name == name,
            r.expanded == value,
            r.description == description,
            r.source == source,
            r.lines == lines,
    {
        ExpandedVariable { name, expanded: value, description, source, lines }
    }
}

} // verus!
