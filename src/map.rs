//! The directory tree of the snapshot's files, down to a chosen depth.
use vstd::prelude::*;
use vstd::string::*;
use crate::text::char_vec;

verus! {

/// Lexicographic order by characters, which is the order of `str`'s `<`
/// (UTF-8 bytes compare as their code points do).
pub open spec fn text_lt(a: Seq<char>, b: Seq<char>) -> bool
    decreases a.len(),
{
    if a.len() == 0 {
        b.len() > 0
    } else if b.len() == 0 {
        false
    } else if a[0] != b[0] {
        a[0] < b[0]
    } else {
        text_lt(a.drop_first(), b.drop_first())
    }
}

pub proof fn lemma_text_lt_total(a: Seq<char>, b: Seq<char>)
    ensures
        a != b ==> (text_lt(a, b) || text_lt(b, a)),
        !(text_lt(a, b) && text_lt(b, a)),
    decreases a.len(),
{
    if a.len() > 0 && b.len() > 0 {
        lemma_text_lt_total(a.drop_first(), b.drop_first());
        if a[0] == b[0] && a != b {
            assert(a == seq![a[0]] + a.drop_first());
            assert(b == seq![b[0]] + b.drop_first());
        }
    } else if a.len() == 0 && b.len() == 0 {
        assert(a == b);
    }
}

/// Whether `a` comes strictly before `b`.
pub fn text_less(a: &String, b: &String) -> (r: bool)
    ensures
        r == text_lt(a@, b@),
{
    let x = char_vec(a.as_str());
    let y = char_vec(b.as_str());
    let mut i: usize = 0;
    assert(a@.skip(0) == a@ && b@.skip(0) == b@);
    while i < x.len() && i < y.len() && x[i] == y[i]
        invariant
            x@ == a@,
            y@ == b@,
            i <= x@.len(),
            i <= y@.len(),
            text_lt(a@, b@) == text_lt(a@.skip(i as int), b@.skip(i as int)),
        decreases x@.len() - i,
    {
        proof {
            let s = a@.skip(i as int);
            let t = b@.skip(i as int);
            assert(s.drop_first() == a@.skip(i + 1));
            assert(t.drop_first() == b@.skip(i + 1));
        }
        i = i + 1;
    }
    if i == x.len() {
        i < y.len()
    } else if i == y.len() {
        false
    } else {
        assert(a@.skip(i as int)[0] == x@[i as int] && b@.skip(i as int)[0] == y@[i as int]);
        x[i] < y[i]
    }
}

/// Each element comes strictly before the next one.
pub open spec fn strictly_sorted(s: Seq<Seq<char>>) -> bool {
    forall|k: int| 0 <= k < s.len() - 1 ==> text_lt(#[trigger] s[k], s[k + 1])
}

/// Adds `x` to the strictly sorted list `v`, unless it is there already.
pub fn insert_sorted_unique(v: &mut Vec<String>, x: String)
    requires
        strictly_sorted(crate::text::str_views(old(v)@)),
        crate::text::str_views(old(v)@).no_duplicates(),
    ensures
        strictly_sorted(crate::text::str_views(final(v)@)),
        crate::text::str_views(final(v)@).no_duplicates(),
        forall|c: Seq<char>|
            crate::text::str_views(final(v)@).contains(c) <==> (c == x@
                || crate::text::str_views(old(v)@).contains(c)),
{
    let ghost vs = crate::text::str_views(v@);
    let mut k: usize = 0;
    while k < v.len()
        invariant
            k <= v@.len(),
            vs == crate::text::str_views(v@),
            vs == crate::text::str_views(old(v)@),
            strictly_sorted(vs),
            vs.no_duplicates(),
            forall|m: int| 0 <= m < k ==> vs[m] != x@,
        decreases v@.len() - k,
    {
        if v[k] == x {
            assert(vs[k as int] == x@);
            return;
        }
        k = k + 1;
    }
    assert(!vs.contains(x@));
    let mut p: usize = 0;
    while p < v.len() && text_less(&v[p], &x)
        invariant
            p <= v@.len(),
            vs == crate::text::str_views(v@),
            vs == crate::text::str_views(old(v)@),
            strictly_sorted(vs),
            vs.no_duplicates(),
            !vs.contains(x@),
            p > 0 ==> text_lt(vs[p - 1], x@),
        decreases v@.len() - p,
    {
        p = p + 1;
    }
    let ghost xv = x@;
    v.insert(p, x);
    proof {
        let ws = crate::text::str_views(v@);
        assert(ws == vs.insert(p as int, xv));
        if p < vs.len() {
            lemma_text_lt_total(vs[p as int], xv);
        }
        assert forall|k: int| 0 <= k < ws.len() - 1 implies text_lt(#[trigger] ws[k], ws[k + 1]) by {
            if k < p - 1 {
                assert(ws[k] == vs[k] && ws[k + 1] == vs[k + 1]);
            } else if k == p - 1 {
                assert(ws[k] == vs[k] && ws[k + 1] == xv);
            } else if k == p {
                assert(ws[k] == xv && ws[k + 1] == vs[k]);
            } else {
                assert(ws[k] == vs[k - 1] && ws[k + 1] == vs[k]);
            }
        }
        assert forall|c: Seq<char>| ws.contains(c) <==> (c == xv || vs.contains(c)) by {
            if ws.contains(c) {
                let j = choose|j: int| 0 <= j < ws.len() && ws[j] == c;
                if j < p {
                    assert(vs[j] == c);
                } else if j > p {
                    assert(vs[j - 1] == c);
                }
            }
            if vs.contains(c) {
                let j = choose|j: int| 0 <= j < vs.len() && vs[j] == c;
                if j < p {
                    assert(ws[j] == c);
                } else {
                    assert(ws[j + 1] == c);
                }
            }
            if c == xv {
                assert(ws[p as int] == c);
            }
        }
        assert forall|a: int, b: int| 0 <= a < ws.len() && 0 <= b < ws.len() && a != b
            implies ws[a] != ws[b] by {
            let ia = if a < p { a } else if a == p { -1 } else { a - 1 };
            let ib = if b < p { b } else if b == p { -1 } else { b - 1 };
            if ia >= 0 && ib >= 0 {
                assert(ws[a] == vs[ia] && ws[b] == vs[ib]);
            } else if ia >= 0 {
                assert(ws[a] == vs[ia]);
            } else if ib >= 0 {
                assert(ws[b] == vs[ib]);
            }
        }
    }
}

/// A file of the snapshot: its path and how many symbols it exports.
pub struct FileSummary {
    pub path: String,
    pub exports: usize,
}

/// Query of the map: how deep to descend.
pub struct MapQuery {
    pub depth: Option<usize>,
}

/// Depth used when the query gives none.
pub const DEFAULT_MAP_DEPTH: usize = 3;

/// A node of the directory tree.
pub struct MapNode {
    pub name: String,
    /// `file`, `directory` or `unknown`.
    pub node_type: &'static str,
    pub children: Option<Vec<MapNode>>,
    pub symbols: Option<usize>,
}

/// The directory tree with the number of files and of directories.
pub struct MapResponse {
    pub tree: MapNode,
    pub total_files: usize,
    pub total_dirs: usize,
}

/// Positions of `/` in `p`, in increasing order.
pub open spec fn slash_positions(p: Seq<char>) -> Seq<int>
    decreases p.len(),
{
    if p.len() == 0 {
        Seq::empty()
    } else {
        let s = slash_positions(p.drop_last());
        if p.last() == '/' {
            s.push(p.len() - 1)
        } else {
            s
        }
    }
}

/// Number of `/`-separated segments of `p`.
pub open spec fn segment_count(p: Seq<char>) -> int {
    slash_positions(p).len() + 1int
}

/// The directory that holds level `i` of `p`: `.` for the first segment, else
/// the first `i` segments.
pub open spec fn level_dir(p: Seq<char>, i: int) -> Seq<char> {
    if i == 0 {
        "."@
    } else {
        p.take(slash_positions(p)[i - 1])
    }
}

/// The first `i + 1` segments of `p`: all of `p` at the last level.
pub open spec fn level_child(p: Seq<char>, i: int) -> Seq<char> {
    if i + 1 == segment_count(p) {
        p
    } else {
        p.take(slash_positions(p)[i])
    }
}

/// The (directory, child) pairs that a path contributes, one per segment.
pub open spec fn level_pairs(p: Seq<char>) -> Seq<(Seq<char>, Seq<char>)> {
    Seq::new(segment_count(p) as nat, |i: int| (level_dir(p, i), level_child(p, i)))
}

/// All (directory, child) pairs of the files, file after file.
pub open spec fn map_entries(files: Seq<FileSummary>) -> Seq<(Seq<char>, Seq<char>)>
    decreases files.len(),
{
    if files.len() == 0 {
        Seq::empty()
    } else {
        map_entries(files.drop_last()) + level_pairs(files.last().path@)
    }
}

/// Some pair of `e` has directory `d`.
pub open spec fn has_dir(e: Seq<(Seq<char>, Seq<char>)>, d: Seq<char>) -> bool {
    exists|j: int| 0 <= j < e.len() && (#[trigger] e[j]).0 == d
}

/// `e` holds the pair (`d`, `c`).
pub open spec fn has_pair(e: Seq<(Seq<char>, Seq<char>)>, d: Seq<char>, c: Seq<char>) -> bool {
    exists|j: int| 0 <= j < e.len() && #[trigger] e[j] == (d, c)
}

/// `d` is a directory of the map.
pub open spec fn is_map_dir(files: Seq<FileSummary>, d: Seq<char>) -> bool {
    has_dir(map_entries(files), d)
}

/// `c` is a child of the directory `d`.
pub open spec fn is_map_child(files: Seq<FileSummary>, d: Seq<char>, c: Seq<char>) -> bool {
    has_pair(map_entries(files), d, c)
}

proof fn lemma_slash_positions(p: Seq<char>)
    ensures
        forall|k: int| 0 <= k < slash_positions(p).len() ==> 0 <= #[trigger] slash_positions(p)[k] < p.len(),
        forall|k: int| 0 <= k < slash_positions(p).len() ==> p[#[trigger] slash_positions(p)[k]] == '/',
    decreases p.len(),
{
    if p.len() > 0 {
        let d = p.drop_last();
        lemma_slash_positions(d);
        let sd = slash_positions(d);
        let sp = slash_positions(p);
        assert forall|k: int| 0 <= k < sp.len() implies 0 <= #[trigger] sp[k] < p.len() && p[sp[k]] == '/' by {
            if k < sd.len() {
                assert(sp[k] == sd[k]);
                assert(d[sd[k]] == '/');
            }
        }
    }
}

/// The (directory, child) pairs of `p`, one per segment.
pub fn path_levels(p: &String) -> (r: Vec<(String, String)>)
    ensures
        r@.len() == segment_count(p@),
        forall|i: int| 0 <= i < r@.len() ==> (#[trigger] r@[i]).0@ == level_dir(p@, i) && r@[i].1@ == level_child(p@, i),
{
    let cs = char_vec(p.as_str());
    let n = cs.len();
    let mut pos: Vec<usize> = Vec::new();
    let mut k: usize = 0;
    while k < n
        invariant
            k <= n,
            n == p@.len(),
            cs@ == p@,
            pos@.len() == slash_positions(p@.take(k as int)).len(),
            forall|m: int| 0 <= m < pos@.len() ==> pos@[m] as int == #[trigger] slash_positions(p@.take(k as int))[m],
        decreases n - k,
    {
        proof {
            let q = p@.take(k + 1);
            assert(q.drop_last() == p@.take(k as int));
            assert(q.last() == cs@[k as int]);
        }
        if cs[k] == '/' {
            pos.push(k);
        }
        k = k + 1;
    }
    assert(p@.take(n as int) == p@);
    proof {
        lemma_slash_positions(p@);
    }
    let ghost sp = slash_positions(p@);
    let mut r: Vec<(String, String)> = Vec::new();
    let mut i: usize = 0;
    while i < pos.len()
        invariant
            i <= pos@.len(),
            n == p@.len(),
            sp == slash_positions(p@),
            pos@.len() == sp.len(),
            forall|m: int| 0 <= m < pos@.len() ==> pos@[m] as int == #[trigger] sp[m],
            forall|m: int| 0 <= m < sp.len() ==> 0 <= #[trigger] sp[m] < p@.len(),
            r@.len() == i,
            forall|m: int| 0 <= m < i ==> (#[trigger] r@[m]).0@ == level_dir(p@, m) && r@[m].1@ == level_child(p@, m),
        decreases pos@.len() - i,
    {
        let dir = if i == 0 {
            String::from_str(".")
        } else {
            assert(pos@[i - 1] as int == sp[i - 1]);
            String::from_str(p.as_str().substring_char(0, pos[i - 1]))
        };
        assert(pos@[i as int] as int == sp[i as int]);
        let child = String::from_str(p.as_str().substring_char(0, pos[i]));
        r.push((dir, child));
        i = i + 1;
    }
    let dir = if i == 0 {
        String::from_str(".")
    } else {
        assert(pos@[i - 1] as int == sp[i - 1]);
        String::from_str(p.as_str().substring_char(0, pos[i - 1]))
    };
    r.push((dir, p.clone()));
    r
}

/// A directory with its children.
pub struct DirRow {
    pub path: String,
    pub children: Vec<String>,
}

/// Some row of `t` is for `d`.
pub open spec fn has_row(t: Seq<DirRow>, d: Seq<char>) -> bool {
    exists|k: int| 0 <= k < t.len() && (#[trigger] t[k]).path@ == d
}

/// The children of `r` are, strictly sorted and once each, those that `e`
/// pairs with its directory.
pub open spec fn row_ok(r: DirRow, e: Seq<(Seq<char>, Seq<char>)>) -> bool {
    let cs = crate::text::str_views(r.children@);
    &&& strictly_sorted(cs)
    &&& cs.no_duplicates()
    &&& forall|c: Seq<char>| cs.contains(c) <==> has_pair(e, r.path@, c)
}

/// `t` has one row per directory of `e`, each with its children.
pub open spec fn table_ok(t: Seq<DirRow>, e: Seq<(Seq<char>, Seq<char>)>) -> bool {
    &&& forall|a: int, b: int|
        0 <= a < t.len() && 0 <= b < t.len() && a != b ==> (#[trigger] t[a]).path@ != (#[trigger] t[b]).path@
    &&& forall|d: Seq<char>| has_row(t, d) <==> has_dir(e, d)
    &&& forall|k: int| 0 <= k < t.len() ==> row_ok(#[trigger] t[k], e)
}

proof fn lemma_push_pair(e: Seq<(Seq<char>, Seq<char>)>, x: (Seq<char>, Seq<char>))
    ensures
        forall|d: Seq<char>| #[trigger] has_dir(e.push(x), d) <==> (has_dir(e, d) || x.0 == d),
        forall|d: Seq<char>, c: Seq<char>|
            #[trigger] has_pair(e.push(x), d, c) <==> (has_pair(e, d, c) || x == (d, c)),
{
    let f = e.push(x);
    assert forall|d: Seq<char>| has_dir(f, d) <==> (has_dir(e, d) || x.0 == d) by {
        if has_dir(e, d) {
            let j = choose|j: int| 0 <= j < e.len() && (#[trigger] e[j]).0 == d;
            assert(f[j] == e[j]);
        }
        if x.0 == d {
            assert(f[e.len() as int] == x);
        }
        if has_dir(f, d) {
            let j = choose|j: int| 0 <= j < f.len() && (#[trigger] f[j]).0 == d;
            if j < e.len() {
                assert(f[j] == e[j]);
            }
        }
    }
    assert forall|d: Seq<char>, c: Seq<char>| has_pair(f, d, c) <==> (has_pair(e, d, c) || x == (d, c)) by {
        if has_pair(e, d, c) {
            let j = choose|j: int| 0 <= j < e.len() && #[trigger] e[j] == (d, c);
            assert(f[j] == e[j]);
        }
        if x == (d, c) {
            assert(f[e.len() as int] == x);
        }
        if has_pair(f, d, c) {
            let j = choose|j: int| 0 <= j < f.len() && #[trigger] f[j] == (d, c);
            if j < e.len() {
                assert(f[j] == e[j]);
            }
        }
    }
}

fn find_row(t: &Vec<DirRow>, d: &String) -> (r: Option<usize>)
    ensures
        match r {
            Some(k) => k < t@.len() && t@[k as int].path@ == d@,
            None => !has_row(t@, d@),
        },
{
    let mut k: usize = 0;
    while k < t.len()
        invariant
            k <= t@.len(),
            forall|m: int| 0 <= m < k ==> (#[trigger] t@[m]).path@ != d@,
        decreases t@.len() - k,
    {
        if t[k].path == *d {
            return Some(k);
        }
        k = k + 1;
    }
    None
}

/// Records that `c` is a child of the directory `d`.
fn add_entry(t: &mut Vec<DirRow>, d: String, c: String, Ghost(e): Ghost<Seq<(Seq<char>, Seq<char>)>>)
    requires
        table_ok(old(t)@, e),
    ensures
        table_ok(final(t)@, e.push((d@, c@))),
{
    let ghost x = (d@, c@);
    let ghost e2 = e.push(x);
    proof {
        lemma_push_pair(e, x);
    }
    match find_row(t, &d) {
        Some(k) => {
            let ghost t0 = t@;
            let mut row = t.remove(k);
            assert(row == t0[k as int]);
            insert_sorted_unique(&mut row.children, c);
            t.insert(k, row);
            proof {
                let t1 = t@;
                assert(t1 == t0.update(k as int, row));
                assert forall|m: int| 0 <= m < t1.len() implies row_ok(#[trigger] t1[m], e2) by {
                    if m != k {
                        assert(t1[m] == t0[m]);
                        assert(row_ok(t0[m], e));
                        assert(t0[m].path@ != d@);
                        let cs = crate::text::str_views(t0[m].children@);
                        assert forall|cc: Seq<char>| cs.contains(cc) <==> has_pair(e2, t0[m].path@, cc) by {
                            assert(has_pair(e2, t0[m].path@, cc) <==> has_pair(e, t0[m].path@, cc));
                        }
                    } else {
                        assert(row_ok(t0[k as int], e));
                        let old_cs = crate::text::str_views(t0[k as int].children@);
                        let cs = crate::text::str_views(row.children@);
                        assert(row.path@ == d@);
                        assert forall|cc: Seq<char>| cs.contains(cc) <==> has_pair(e2, row.path@, cc) by {
                            assert(cs.contains(cc) <==> (cc == c@ || old_cs.contains(cc)));
                            lemma_push_pair(e, x);
                            assert(has_pair(e.push(x), x.0, cc) <==> (has_pair(e, x.0, cc) || x == (x.0, cc)));
                        }
                        assert(t1[m] == row);
                    }
                }
                assert forall|dd: Seq<char>| has_row(t1, dd) <==> has_dir(e2, dd) by {
                    if has_row(t1, dd) {
                        let j = choose|j: int| 0 <= j < t1.len() && (#[trigger] t1[j]).path@ == dd;
                        if j != k {
                            assert(t1[j] == t0[j]);
                        }
                        assert(has_row(t0, dd));
                    }
                    if has_row(t0, dd) {
                        let j = choose|j: int| 0 <= j < t0.len() && (#[trigger] t0[j]).path@ == dd;
                        if j != k {
                            assert(t1[j] == t0[j]);
                        } else {
                            assert(t1[j].path@ == dd);
                        }
                    }
                    if dd == d@ {
                        assert(t0[k as int].path@ == dd);
                        assert(t1[k as int].path@ == dd);
                    }
                }
                assert forall|a: int, b: int|
                    0 <= a < t1.len() && 0 <= b < t1.len() && a != b implies (#[trigger] t1[a]).path@
                    != (#[trigger] t1[b]).path@ by {
                    assert(t1[a].path@ == t0[a].path@);
                    assert(t1[b].path@ == t0[b].path@);
                }
            }
        },
        None => {
            let ghost t0 = t@;
            let mut children: Vec<String> = Vec::new();
            children.push(c);
            let row = DirRow { path: d, children };
            t.push(row);
            proof {
                let t1 = t@;
                let cs = crate::text::str_views(row.children@);
                assert(cs == seq![x.1]);
                assert forall|cc: Seq<char>| cs.contains(cc) <==> has_pair(e2, x.0, cc) by {
                    if has_pair(e, x.0, cc) {
                        let j = choose|j: int| 0 <= j < e.len() && #[trigger] e[j] == (x.0, cc);
                        assert(e[j].0 == x.0);
                        assert(has_dir(e, x.0));
                        assert(!has_row(t0, x.0));
                    }
                    if cs.contains(cc) {
                        let j = choose|j: int| 0 <= j < cs.len() && cs[j] == cc;
                    }
                    if cc == x.1 {
                        assert(cs[0] == cc);
                    }
                }
                assert(row_ok(row, e2));
                assert forall|m: int| 0 <= m < t1.len() implies row_ok(#[trigger] t1[m], e2) by {
                    if m < t0.len() {
                        assert(t1[m] == t0[m]);
                        assert(row_ok(t0[m], e));
                        assert(t0[m].path@ != d@) by {
                            if t0[m].path@ == d@ {
                                assert(has_row(t0, d@));
                            }
                        }
                    }
                }
                assert forall|dd: Seq<char>| has_row(t1, dd) <==> has_dir(e2, dd) by {
                    if has_row(t1, dd) {
                        let j = choose|j: int| 0 <= j < t1.len() && (#[trigger] t1[j]).path@ == dd;
                        if j < t0.len() {
                            assert(t1[j] == t0[j]);
                            assert(has_row(t0, dd));
                        }
                    }
                    if has_row(t0, dd) {
                        let j = choose|j: int| 0 <= j < t0.len() && (#[trigger] t0[j]).path@ == dd;
                        assert(t1[j] == t0[j]);
                    }
                    if dd == d@ {
                        assert(t1[t0.len() as int].path@ == dd);
                    }
                }
                assert forall|a: int, b: int|
                    0 <= a < t1.len() && 0 <= b < t1.len() && a != b implies (#[trigger] t1[a]).path@
                    != (#[trigger] t1[b]).path@ by {
                    if a < t0.len() && b < t0.len() {
                        assert(t1[a] == t0[a] && t1[b] == t0[b]);
                    } else if a < t0.len() {
                        assert(t1[a] == t0[a]);
                        if t0[a].path@ == d@ {
                            assert(has_row(t0, d@));
                        }
                    } else if b < t0.len() {
                        assert(t1[b] == t0[b]);
                        if t0[b].path@ == d@ {
                            assert(has_row(t0, d@));
                        }
                    }
                }
            }
        },
    }
}

/// One row per directory of the files' paths, children strictly sorted.
pub fn dir_table(files: &Vec<FileSummary>) -> (t: Vec<DirRow>)
    ensures
        table_ok(t@, map_entries(files@)),
{
    let mut t: Vec<DirRow> = Vec::new();
    let mut f: usize = 0;
    assert(files@.take(0).len() == 0);
    while f < files.len()
        invariant
            f <= files@.len(),
            table_ok(t@, map_entries(files@.take(f as int))),
        decreases files@.len() - f,
    {
        let ghost before = map_entries(files@.take(f as int));
        let ghost lp = level_pairs(files@[f as int].path@);
        let levels = path_levels(&files[f].path);
        let mut i: usize = 0;
        assert(before + lp.take(0) == before);
        while i < levels.len()
            invariant
                i <= levels@.len(),
                levels@.len() == lp.len(),
                forall|m: int| 0 <= m < levels@.len() ==> (#[trigger] levels@[m]).0@ == lp[m].0 && levels@[m].1@ == lp[m].1,
                table_ok(t@, before + lp.take(i as int)),
            decreases levels@.len() - i,
        {
            let d = levels[i].0.clone();
            let c = levels[i].1.clone();
            add_entry(&mut t, d, c, Ghost(before + lp.take(i as int)));
            assert((before + lp.take(i as int)).push(lp[i as int]) == before + lp.take(i + 1));
            i = i + 1;
        }
        proof {
            let q = files@.take(f + 1);
            assert(q.drop_last() == files@.take(f as int));
            assert(q.last() == files@[f as int]);
            assert(lp.take(lp.len() as int) == lp);
        }
        f = f + 1;
    }
    assert(files@.take(files@.len() as int) == files@);
    t
}

/// Exported symbols of the file at `path`; the last listing of a path counts.
pub open spec fn file_exports(files: Seq<FileSummary>, path: Seq<char>) -> Option<usize>
    decreases files.len(),
{
    if files.len() == 0 {
        None
    } else if files.last().path@ == path {
        Some(files.last().exports)
    } else {
        file_exports(files.drop_last(), path)
    }
}

fn find_exports(files: &Vec<FileSummary>, path: &String) -> (r: Option<usize>)
    ensures
        r == file_exports(files@, path@),
{
    let mut r: Option<usize> = None;
    let mut k: usize = 0;
    while k < files.len()
        invariant
            k <= files@.len(),
            r == file_exports(files@.take(k as int), path@),
        decreases files@.len() - k,
    {
        proof {
            let q = files@.take(k + 1);
            assert(q.drop_last() == files@.take(k as int));
            assert(q.last() == files@[k as int]);
        }
        if files[k].path == *path {
            r = Some(files[k].exports);
        }
        k = k + 1;
    }
    assert(files@.take(files@.len() as int) == files@);
    r
}

/// What follows the last `/` of `c`, or all of `c`.
pub open spec fn last_segment(c: Seq<char>) -> Seq<char>
    decreases c.len(),
{
    if c.len() == 0 {
        c
    } else if c.last() == '/' {
        Seq::empty()
    } else {
        last_segment(c.drop_last()).push(c.last())
    }
}

proof fn lemma_last_segment(c: Seq<char>, k: int)
    requires
        0 <= k <= c.len(),
        forall|j: int| k <= j < c.len() ==> #[trigger] c[j] != '/',
    ensures
        last_segment(c) == last_segment(c.take(k)) + c.subrange(k, c.len() as int),
    decreases c.len() - k,
{
    if k < c.len() {
        let d = c.drop_last();
        assert forall|j: int| k <= j < d.len() implies #[trigger] d[j] != '/' by {
            assert(d[j] == c[j]);
        }
        lemma_last_segment(d, k);
        assert(d.take(k) == c.take(k));
        assert(c.subrange(k, c.len() as int) == d.subrange(k, d.len() as int).push(c.last()));
    } else {
        assert(c.take(k) == c);
    }
}

/// The name of a child path: its last segment.
pub fn last_segment_of(c: &String) -> (r: String)
    ensures
        r@ == last_segment(c@),
{
    let cs = char_vec(c.as_str());
    let n = cs.len();
    let mut k: usize = n;
    while k > 0 && cs[k - 1] != '/'
        invariant
            k <= n,
            n == c@.len(),
            cs@ == c@,
            forall|j: int| k <= j < n ==> #[trigger] c@[j] != '/',
        decreases k,
    {
        k = k - 1;
    }
    proof {
        lemma_last_segment(c@, k as int);
        if k > 0 {
            let t = c@.take(k as int);
            assert(t.last() == '/');
            assert(last_segment(t) == Seq::<char>::empty());
        } else {
            assert(c@.take(0).len() == 0);
        }
    }
    String::from_str(c.as_str().substring_char(k, n))
}

/// `cs` lists the children of `path`, strictly sorted and once each.
pub open spec fn sorted_children(files: Seq<FileSummary>, path: Seq<char>, cs: Seq<Seq<char>>) -> bool {
    &&& strictly_sorted(cs)
    &&& cs.no_duplicates()
    &&& forall|c: Seq<char>| cs.contains(c) <==> is_map_child(files, path, c)
}

/// `n` is the node for `path`, shown as `name`, at `depth` of a tree cut at
/// `max_depth`: a file with its export count; a directory with its children in
/// order, while above the cut; or unknown.
pub open spec fn node_ok(
    n: MapNode,
    files: Seq<FileSummary>,
    name: Seq<char>,
    path: Seq<char>,
    depth: int,
    max_depth: int,
) -> bool
    decreases max_depth - depth,
{
    &&& n.name@ == name
    &&& match file_exports(files, path) {
        Some(x) => n.node_type@ == "file"@ && n.children is None && n.symbols == Some(x),
        None => if is_map_dir(files, path) {
            &&& n.node_type@ == "directory"@
            &&& n.symbols is None
            &&& if depth < max_depth {
                &&& n.children is Some
                &&& exists|cs: Seq<Seq<char>>|
                    #[trigger] sorted_children(files, path, cs) && n.children->0@.len() == cs.len()
                        && forall|k: int|
                        0 <= k < cs.len() ==> node_ok(
                            #[trigger] n.children->0@[k],
                            files,
                            last_segment(cs[k]),
                            cs[k],
                            depth + 1,
                            max_depth,
                        )
            } else {
                n.children is None
            }
        } else {
            n.node_type@ == "unknown"@ && n.children is None && n.symbols is None
        },
    }
}

fn build_node(
    name: String,
    path: &String,
    files: &Vec<FileSummary>,
    table: &Vec<DirRow>,
    depth: usize,
    max_depth: usize,
) -> (n: MapNode)
    requires
        table_ok(table@, map_entries(files@)),
        depth <= max_depth,
    ensures
        node_ok(n, files@, name@, path@, depth as int, max_depth as int),
    decreases max_depth - depth,
{
    match find_exports(files, path) {
        Some(x) => MapNode { name, node_type: "file", children: None, symbols: Some(x) },
        None => match find_row(table, path) {
            Some(k) => {
                let ghost e = map_entries(files@);
                let row = &table[k];
                let ghost cs = crate::text::str_views(row.children@);
                proof {
                    assert(row_ok(table@[k as int], e));
                    assert(has_row(table@, path@));
                }
                let children = if depth < max_depth {
                    let mut kids: Vec<MapNode> = Vec::new();
                    let mut j: usize = 0;
                    while j < row.children.len()
                        invariant
                            j <= row.children@.len(),
                            cs == crate::text::str_views(row.children@),
                            depth < max_depth,
                            table_ok(table@, map_entries(files@)),
                            kids@.len() == j,
                            forall|m: int|
                                0 <= m < j ==> node_ok(
                                    #[trigger] kids@[m],
                                    files@,
                                    last_segment(cs[m]),
                                    cs[m],
                                    depth + 1,
                                    max_depth as int,
                                ),
                        decreases row.children@.len() - j,
                    {
                        let child = &row.children[j];
                        let child_name = last_segment_of(child);
                        let node = build_node(child_name, child, files, table, depth + 1, max_depth);
                        kids.push(node);
                        j = j + 1;
                    }
                    proof {
                        assert(sorted_children(files@, path@, cs));
                    }
                    Some(kids)
                } else {
                    None
                };
                MapNode { name, node_type: "directory", children, symbols: None }
            },
            None => MapNode { name, node_type: "unknown", children: None, symbols: None },
        },
    }
}

/// Number of distinct directories of the map.
pub open spec fn dir_count(files: Seq<FileSummary>, count: int) -> bool {
    exists|ks: Seq<Seq<char>>|
        ks.no_duplicates() && ks.len() == count && forall|d: Seq<char>|
            #[trigger] ks.contains(d) <==> is_map_dir(files, d)
}

/// The map answer for the snapshot's `files`: the tree from `.` down to the
/// query's depth (three when none is given), with the file and directory counts.
pub fn get_map(files: &Vec<FileSummary>, query: &MapQuery) -> (r: MapResponse)
    ensures
        node_ok(
            r.tree,
            files@,
            "."@,
            "."@,
            0,
            match query.depth {
                Some(d) => d as int,
                None => DEFAULT_MAP_DEPTH as int,
            },
        ),
        r.total_files == files@.len(),
        dir_count(files@, r.total_dirs as int),
{
    let max_depth = match query.depth {
        Some(d) => d,
        None => DEFAULT_MAP_DEPTH,
    };
    let table = dir_table(files);
    let total_dirs = table.len();
    proof {
        let t = table@;
        let ks = Seq::new(t.len(), |k: int| t[k].path@);
        assert forall|a: int, b: int| 0 <= a < ks.len() && 0 <= b < ks.len() && a != b implies ks[a] != ks[b] by {
            assert(ks[a] == t[a].path@ && ks[b] == t[b].path@);
        }
        assert forall|d: Seq<char>| #[trigger] ks.contains(d) <==> is_map_dir(files@, d) by {
            if ks.contains(d) {
                let k = choose|k: int| 0 <= k < ks.len() && ks[k] == d;
                assert(t[k].path@ == d);
                assert(has_row(t, d));
            }
            if is_map_dir(files@, d) {
                assert(has_row(t, d));
                let k = choose|k: int| 0 <= k < t.len() && (#[trigger] t[k]).path@ == d;
                assert(ks[k] == d);
            }
        }
        assert(dir_count(files@, total_dirs as int));
    }
    let root = String::from_str(".");
    let tree = build_node(String::from_str("."), &root, files, &table, 0, max_depth);
    MapResponse { tree, total_files: files.len(), total_dirs }
}

} // verus!
