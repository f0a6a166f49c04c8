//! Choosing the entries: capability filter, ordering, and greedy packing.
use vstd::prelude::*;
use crate::catalog::{Command, cost_of, max_tokens, catalog_tokens, lemma_cost_le_max, BOOTSTRAP_TOKENS};
use crate::tier::Tier;
use crate::text::str_views;

verus! {

/// An entry passes when nothing is requested, when it carries no tag, or when
/// one of its tags is requested.
pub open spec fn passes_filter(c: Command, caps: Seq<Seq<char>>) -> bool {
    ||| caps.len() == 0
    ||| c.capabilities@.len() == 0
    ||| exists|j: int| 0 <= j < c.capabilities@.len() && caps.contains(#[trigger] c.capabilities@[j]@)
}

/// Indices of the first `n` catalog entries that pass the filter, in catalog order.
pub open spec fn candidates(cat: Seq<Command>, caps: Seq<Seq<char>>, n: int) -> Seq<usize>
    decreases n,
{
    if n <= 0 {
        Seq::empty()
    } else {
        let p = candidates(cat, caps, n - 1);
        if passes_filter(cat[n - 1], caps) {
            p.push((n - 1) as usize)
        } else {
            p
        }
    }
}

/// Entry `i` goes strictly before entry `j`: critical first, then by ascending priority.
pub open spec fn precedes(cat: Seq<Command>, i: usize, j: usize) -> bool {
    ||| (cat[i as int].critical && !cat[j as int].critical)
    ||| (cat[i as int].critical == cat[j as int].critical && cat[i as int].priority
        < cat[j as int].priority)
}

/// `x` inserted into `t` after every element that it does not strictly precede.
pub open spec fn insert_ordered(cat: Seq<Command>, x: usize, t: Seq<usize>) -> Seq<usize>
    decreases t.len(),
{
    if t.len() == 0 {
        seq![x]
    } else if precedes(cat, x, t[0]) {
        seq![x] + t
    } else {
        seq![t[0]] + insert_ordered(cat, x, t.drop_first())
    }
}

/// The stable sort of `s` by (critical first, ascending priority).
pub open spec fn sort_ordered(cat: Seq<Command>, s: Seq<usize>) -> Seq<usize>
    decreases s.len(),
{
    if s.len() == 0 {
        s
    } else {
        insert_ordered(cat, s.last(), sort_ordered(cat, s.drop_last()))
    }
}

/// Sum of `max_tokens` over the entries that `s` names.
pub open spec fn seq_tokens(cat: Seq<Command>, s: Seq<usize>) -> int
    decreases s.len(),
{
    if s.len() == 0 {
        0
    } else {
        max_tokens(cat[s[0] as int]) + seq_tokens(cat, s.drop_first())
    }
}

/// All indices of `s` are below `n`.
pub open spec fn indices_below(s: Seq<usize>, n: int) -> bool {
    forall|k: int| 0 <= k < s.len() ==> (#[trigger] s[k]) < n
}

pub proof fn lemma_seq_tokens_push(cat: Seq<Command>, s: Seq<usize>, x: usize)
    ensures
        seq_tokens(cat, s.push(x)) == seq_tokens(cat, s) + max_tokens(cat[x as int]),
    decreases s.len(),
{
    if s.len() > 0 {
        assert(s.push(x).drop_first() == s.drop_first().push(x));
        lemma_seq_tokens_push(cat, s.drop_first(), x);
    } else {
        assert(s.push(x).drop_first() == s);
    }
}

pub proof fn lemma_seq_tokens_prefix(cat: Seq<Command>, s: Seq<usize>, k: int)
    requires
        0 <= k <= s.len(),
    ensures
        0 <= seq_tokens(cat, s.take(k)) <= seq_tokens(cat, s),
    decreases s.len() - k,
{
    if k < s.len() {
        lemma_seq_tokens_prefix(cat, s, k + 1);
        assert(s.take(k + 1) == s.take(k).push(s[k]));
        lemma_seq_tokens_push(cat, s.take(k), s[k]);
        lemma_cost_le_max(cat[s[k] as int], Tier::Minimal);
        lemma_seq_tokens_nonneg(cat, s.take(k));
    } else {
        assert(s.take(k) == s);
        lemma_seq_tokens_nonneg(cat, s);
    }
}

pub proof fn lemma_seq_tokens_nonneg(cat: Seq<Command>, s: Seq<usize>)
    ensures
        seq_tokens(cat, s) >= 0,
    decreases s.len(),
{
    if s.len() > 0 {
        lemma_seq_tokens_nonneg(cat, s.drop_first());
        lemma_cost_le_max(cat[s[0] as int], Tier::Minimal);
    }
}

pub proof fn lemma_candidates(cat: Seq<Command>, caps: Seq<Seq<char>>, n: int)
    requires
        0 <= n <= cat.len(),
        cat.len() <= usize::MAX,
    ensures
        candidates(cat, caps, n).no_duplicates(),
        indices_below(candidates(cat, caps, n), n),
        forall|i: usize|
            candidates(cat, caps, n).contains(i) <==> (i < n && passes_filter(
                #[trigger] cat[i as int],
                caps,
            )),
        seq_tokens(cat, candidates(cat, caps, n)) <= catalog_tokens(cat.take(n)),
    decreases n,
{
    if n > 0 {
        lemma_candidates(cat, caps, n - 1);
        let p = candidates(cat, caps, n - 1);
        assert(cat.take(n).drop_last() == cat.take(n - 1));
        let x = (n - 1) as usize;
        assert(!p.contains(x)) by {
            if p.contains(x) {
                let k = choose|k: int| 0 <= k < p.len() && p[k] == x;
            }
        }
        if passes_filter(cat[n - 1], caps) {
            let q = p.push(x);
            lemma_seq_tokens_push(cat, p, x);
            assert forall|i: usize| q.contains(i) <==> (i == x || p.contains(i)) by {
                if i == x {
                    assert(q[p.len() as int] == x);
                }
                if p.contains(i) {
                    let k = choose|k: int| 0 <= k < p.len() && p[k] == i;
                    assert(q[k] == i);
                }
                if q.contains(i) && i != x {
                    let k = choose|k: int| 0 <= k < q.len() && q[k] == i;
                    assert(p[k] == i);
                }
            }
            assert forall|a: int, b: int| 0 <= a < q.len() && 0 <= b < q.len() && a != b
                implies q[a] != q[b] by {
                if a == p.len() {
                    assert(p.contains(q[b]));
                } else if b == p.len() {
                    assert(p.contains(q[a]));
                }
            }
        }
        assert(max_tokens(cat.take(n).last()) >= 0) by {
            lemma_cost_le_max(cat[n - 1], Tier::Minimal);
        }
    } else {
        assert(cat.take(n).len() == 0);
    }
}

pub proof fn lemma_insert_ordered(cat: Seq<Command>, x: usize, t: Seq<usize>)
    ensures
        insert_ordered(cat, x, t).len() == t.len() + 1,
        forall|y: usize| insert_ordered(cat, x, t).contains(y) <==> (y == x || t.contains(y)),
        t.no_duplicates() && !t.contains(x) ==> insert_ordered(cat, x, t).no_duplicates(),
        seq_tokens(cat, insert_ordered(cat, x, t)) == seq_tokens(cat, t) + max_tokens(
            cat[x as int],
        ),
    decreases t.len(),
{
    let r = insert_ordered(cat, x, t);
    if t.len() == 0 {
        assert(r == seq![x]);
        assert(r.drop_first().len() == 0);
        assert(r.contains(x)) by {
            assert(r[0] == x);
        }
        assert forall|y: usize| r.contains(y) <==> (y == x || t.contains(y)) by {
            if r.contains(y) {
                let k = choose|k: int| 0 <= k < r.len() && r[k] == y;
            }
        }
        assert(seq_tokens(cat, r) == max_tokens(cat[x as int]) + seq_tokens(cat, r.drop_first()));
    } else if precedes(cat, x, t[0]) {
        assert(r == seq![x] + t);
        lemma_cons_facts(x, t);
        assert(seq_tokens(cat, r) == max_tokens(cat[x as int]) + seq_tokens(cat, t));
    } else {
        let u = t.drop_first();
        lemma_insert_ordered(cat, x, u);
        let ru = insert_ordered(cat, x, u);
        assert(r == seq![t[0]] + ru);
        assert(t == seq![t[0]] + u);
        lemma_cons_facts(t[0], ru);
        lemma_cons_facts(t[0], u);
        if t.no_duplicates() && !t.contains(x) {
            assert(!u.contains(x));
            assert(!ru.contains(t[0]));
        }
        assert forall|y: usize| r.contains(y) <==> (y == x || t.contains(y)) by {
            assert(r.contains(y) <==> (y == t[0] || ru.contains(y)));
            assert(t.contains(y) <==> (y == t[0] || u.contains(y)));
        }
        assert(seq_tokens(cat, r) == max_tokens(cat[t[0] as int]) + seq_tokens(cat, ru));
        assert(seq_tokens(cat, t) == max_tokens(cat[t[0] as int]) + seq_tokens(cat, u));
    }
}

/// Membership, duplicates and weight of a sequence with one element in front.
pub proof fn lemma_cons_facts(x: usize, t: Seq<usize>)
    ensures
        forall|y: usize| (seq![x] + t).contains(y) <==> (y == x || t.contains(y)),
        (seq![x] + t).no_duplicates() <==> (t.no_duplicates() && !t.contains(x)),
        (seq![x] + t).drop_first() == t,
        (seq![x] + t)[0] == x,
{
    let r = seq![x] + t;
    assert(r.drop_first() == t);
    assert forall|y: usize| r.contains(y) <==> (y == x || t.contains(y)) by {
        if t.contains(y) {
            let k = choose|k: int| 0 <= k < t.len() && t[k] == y;
            assert(r[k + 1] == y);
        }
        if r.contains(y) && y != x {
            let k = choose|k: int| 0 <= k < r.len() && r[k] == y;
            assert(t[k - 1] == y);
        }
        if y == x {
            assert(r[0] == y);
        }
    }
    if t.no_duplicates() && !t.contains(x) {
        assert forall|a: int, b: int| 0 <= a < r.len() && 0 <= b < r.len() && a != b
            implies r[a] != r[b] by {
            if a == 0 {
                assert(r[b] == t[b - 1]);
            } else if b == 0 {
                assert(r[a] == t[a - 1]);
            } else {
                assert(r[a] == t[a - 1] && r[b] == t[b - 1]);
            }
        }
    }
    if r.no_duplicates() {
        assert forall|a: int, b: int| 0 <= a < t.len() && 0 <= b < t.len() && a != b
            implies t[a] != t[b] by {
            assert(r[a + 1] == t[a] && r[b + 1] == t[b]);
        }
        if t.contains(x) {
            let k = choose|k: int| 0 <= k < t.len() && t[k] == x;
            assert(r[k + 1] == r[0]);
        }
    }
}

pub proof fn lemma_sort_ordered(cat: Seq<Command>, s: Seq<usize>)
    ensures
        sort_ordered(cat, s).len() == s.len(),
        forall|y: usize| sort_ordered(cat, s).contains(y) <==> s.contains(y),
        s.no_duplicates() ==> sort_ordered(cat, s).no_duplicates(),
        seq_tokens(cat, sort_ordered(cat, s)) == seq_tokens(cat, s),
    decreases s.len(),
{
    if s.len() > 0 {
        let d = s.drop_last();
        let x = s.last();
        lemma_sort_ordered(cat, d);
        lemma_insert_ordered(cat, x, sort_ordered(cat, d));
        assert(s == d.push(x));
        lemma_seq_tokens_push(cat, d, x);
        assert forall|y: usize| s.contains(y) <==> (y == x || d.contains(y)) by {
            if s.contains(y) && y != x {
                let k = choose|k: int| 0 <= k < s.len() && s[k] == y;
                assert(d[k] == y);
            }
            if d.contains(y) {
                let k = choose|k: int| 0 <= k < d.len() && d[k] == y;
                assert(s[k] == y);
            }
            if y == x {
                assert(s[s.len() - 1] == y);
            }
        }
        if s.no_duplicates() {
            assert(!d.contains(x)) by {
                if d.contains(x) {
                    let k = choose|k: int| 0 <= k < d.len() && d[k] == x;
                    assert(s[k] == s[s.len() - 1]);
                }
            }
            assert(d.no_duplicates()) by {
                assert forall|a: int, b: int| 0 <= a < d.len() && 0 <= b < d.len() && a != b
                    implies d[a] != d[b] by {
                    assert(d[a] == s[a] && d[b] == s[b]);
                }
            }
        }
    }
}

/// No element of `s` strictly precedes the one before it.
pub open spec fn ordered(cat: Seq<Command>, s: Seq<usize>) -> bool {
    forall|k: int| 0 <= k < s.len() - 1 ==> !precedes(cat, s[k + 1], #[trigger] s[k])
}

pub proof fn lemma_insert_keeps_order(cat: Seq<Command>, x: usize, t: Seq<usize>)
    requires
        ordered(cat, t),
    ensures
        ordered(cat, insert_ordered(cat, x, t)),
        insert_ordered(cat, x, t)[0] == x || (t.len() > 0 && insert_ordered(cat, x, t)[0] == t[0]),
    decreases t.len(),
{
    let r = insert_ordered(cat, x, t);
    if t.len() == 0 {
        assert(r == seq![x]);
    } else if precedes(cat, x, t[0]) {
        assert(r == seq![x] + t);
        assert forall|k: int| 0 <= k < r.len() - 1 implies !precedes(cat, r[k + 1], #[trigger] r[k]) by {
            if k > 0 {
                assert(r[k] == t[k - 1] && r[k + 1] == t[k]);
            } else {
                assert(r[0] == x && r[1] == t[0]);
            }
        }
    } else {
        let u = t.drop_first();
        assert(ordered(cat, u)) by {
            assert forall|k: int| 0 <= k < u.len() - 1 implies !precedes(cat, u[k + 1], #[trigger] u[k]) by {
                assert(u[k] == t[k + 1] && u[k + 1] == t[k + 2]);
            }
        }
        lemma_insert_keeps_order(cat, x, u);
        let ru = insert_ordered(cat, x, u);
        assert(r == seq![t[0]] + ru);
        if u.len() > 0 && ru[0] == u[0] {
            assert(u[0] == t[1]);
        }
        assert forall|k: int| 0 <= k < r.len() - 1 implies !precedes(cat, r[k + 1], #[trigger] r[k]) by {
            if k > 0 {
                assert(r[k] == ru[k - 1] && r[k + 1] == ru[k]);
            } else {
                assert(r[0] == t[0] && r[1] == ru[0]);
                if ru[0] != x {
                    assert(ru[0] == t[1]);
                }
            }
        }
    }
}

pub proof fn lemma_sort_is_ordered(cat: Seq<Command>, s: Seq<usize>)
    ensures
        ordered(cat, sort_ordered(cat, s)),
    decreases s.len(),
{
    if s.len() > 0 {
        lemma_sort_is_ordered(cat, s.drop_last());
        lemma_insert_keeps_order(cat, s.last(), sort_ordered(cat, s.drop_last()));
    }
}

/// Whether `c` passes the capability filter `caps`.
pub fn passes(c: &Command, caps: &Vec<String>) -> (r: bool)
    ensures
        r == passes_filter(*c, str_views(caps@)),
{
    if caps.len() == 0 || c.capabilities.len() == 0 {
        return true;
    }
    let ghost views = str_views(caps@);
    let mut j: usize = 0;
    while j < c.capabilities.len()
        invariant
            j <= c.capabilities@.len(),
            views == str_views(caps@),
            forall|jj: int| 0 <= jj < j ==> !views.contains(#[trigger] c.capabilities@[jj]@),
        decreases c.capabilities@.len() - j,
    {
        let tag = &c.capabilities[j];
        let mut k: usize = 0;
        while k < caps.len()
            invariant
                k <= caps@.len(),
                j < c.capabilities@.len(),
                *tag == c.capabilities@[j as int],
                views == str_views(caps@),
                forall|kk: int| 0 <= kk < k ==> views[kk] != tag@,
            decreases caps@.len() - k,
        {
            if caps[k] == *tag {
                assert(views[k as int] == tag@);
                return true;
            }
            k = k + 1;
        }
        assert(!views.contains(tag@)) by {
            if views.contains(tag@) {
                let kk = choose|kk: int| 0 <= kk < views.len() && views[kk] == tag@;
            }
        }
        j = j + 1;
    }
    false
}

/// Indices of the catalog entries that pass the filter, in catalog order.
pub fn filter_candidates(cat: &Vec<Command>, caps: &Vec<String>) -> (r: Vec<usize>)
    ensures
        r@ == candidates(cat@, str_views(caps@), cat@.len() as int),
{
    let mut r: Vec<usize> = Vec::new();
    let mut i: usize = 0;
    while i < cat.len()
        invariant
            i <= cat@.len(),
            r@ == candidates(cat@, str_views(caps@), i as int),
        decreases cat@.len() - i,
    {
        if passes(&cat[i], caps) {
            r.push(i);
        }
        i = i + 1;
    }
    r
}

fn precedes_exec(cat: &Vec<Command>, i: usize, j: usize) -> (r: bool)
    requires
        i < cat@.len(),
        j < cat@.len(),
    ensures
        r == precedes(cat@, i, j),
{
    let a = &cat[i];
    let b = &cat[j];
    (a.critical && !b.critical) || (a.critical == b.critical && a.priority < b.priority)
}

fn insert_into(cat: &Vec<Command>, v: &mut Vec<usize>, x: usize)
    requires
        x < cat@.len(),
        indices_below(old(v)@, cat@.len() as int),
    ensures
        final(v)@ == insert_ordered(cat@, x, old(v)@),
        indices_below(final(v)@, cat@.len() as int),
{
    let ghost t = v@;
    let mut p: usize = 0;
    assert(t.take(0) + t.skip(0) == t);
    assert(t.take(0) + insert_ordered(cat@, x, t.skip(0)) == insert_ordered(cat@, x, t));
    while p < v.len() && !precedes_exec(cat, x, v[p])
        invariant
            v@ == t,
            p <= t.len(),
            indices_below(t, cat@.len() as int),
            x < cat@.len(),
            insert_ordered(cat@, x, t) == t.take(p as int) + insert_ordered(
                cat@,
                x,
                t.skip(p as int),
            ),
        decreases t.len() - p,
    {
        proof {
            let w = t.skip(p as int);
            assert(w[0] == t[p as int]);
            assert(w.drop_first() == t.skip(p + 1));
            assert(t.take(p + 1) == t.take(p as int) + seq![t[p as int]]);
        }
        p = p + 1;
    }
    proof {
        let w = t.skip(p as int);
        if p < t.len() {
            assert(w[0] == t[p as int]);
        } else {
            assert(w.len() == 0);
        }
    }
    v.insert(p, x);
    assert(v@ == t.take(p as int) + (seq![x] + t.skip(p as int)));
}

/// The candidates stably sorted by (critical first, ascending priority).
pub fn sort_candidates(cat: &Vec<Command>, s: &Vec<usize>) -> (r: Vec<usize>)
    requires
        indices_below(s@, cat@.len() as int),
    ensures
        r@ == sort_ordered(cat@, s@),
        ordered(cat@, r@),
        indices_below(r@, cat@.len() as int),
{
    let mut r: Vec<usize> = Vec::new();
    let mut i: usize = 0;
    while i < s.len()
        invariant
            i <= s@.len(),
            indices_below(s@, cat@.len() as int),
            indices_below(r@, cat@.len() as int),
            r@ == sort_ordered(cat@, s@.take(i as int)),
        decreases s@.len() - i,
    {
        proof {
            let q = s@.take(i + 1);
            assert(q.drop_last() == s@.take(i as int));
            assert(q.last() == s@[i as int]);
        }
        insert_into(cat, &mut r, s[i]);
        i = i + 1;
    }
    assert(s@.take(s@.len() as int) == s@);
    proof {
        lemma_sort_is_ordered(cat@, s@);
    }
    r
}

/// Greedy packing of `order` at tier `t` under `budget`, starting from the
/// bootstrap block's weight: the chosen indices and the tokens used. Each entry
/// is admitted on its own: when critical, or when it still fits.
pub open spec fn pack(cat: Seq<Command>, order: Seq<usize>, budget: int, t: Tier) -> (Seq<usize>, int)
    decreases order.len(),
{
    if order.len() == 0 {
        (Seq::empty(), BOOTSTRAP_TOKENS as int)
    } else {
        let (sel, used) = pack(cat, order.drop_last(), budget, t);
        let i = order.last();
        let c = cost_of(cat[i as int], t);
        if cat[i as int].critical || used + c <= budget {
            (sel.push(i), used + c)
        } else {
            (sel, used)
        }
    }
}

pub proof fn lemma_pack(cat: Seq<Command>, order: Seq<usize>, budget: int, t: Tier)
    ensures
        BOOTSTRAP_TOKENS <= pack(cat, order, budget, t).1 <= BOOTSTRAP_TOKENS + seq_tokens(cat, order),
        forall|y: usize| #[trigger] pack(cat, order, budget, t).0.contains(y) ==> order.contains(y),
        forall|k: int|
            0 <= k < order.len() && cat[order[k] as int].critical ==> pack(
                cat,
                order,
                budget,
                t,
            ).0.contains(#[trigger] order[k]),
        order.no_duplicates() ==> pack(cat, order, budget, t).0.no_duplicates(),
    decreases order.len(),
{
    if order.len() > 0 {
        let d = order.drop_last();
        let x = order.last();
        lemma_pack(cat, d, budget, t);
        lemma_seq_tokens_push(cat, d, x);
        assert(order == d.push(x));
        lemma_cost_le_max(cat[x as int], t);
        let (sel, used) = pack(cat, d, budget, t);
        let r = pack(cat, order, budget, t).0;
        assert forall|y: usize| r.contains(y) implies order.contains(y) by {
            let k = choose|k: int| 0 <= k < r.len() && r[k] == y;
            if k < sel.len() {
                assert(sel[k] == y);
                assert(sel.contains(y));
                let m = choose|m: int| 0 <= m < d.len() && d[m] == y;
                assert(order[m] == y);
            } else {
                assert(order[order.len() - 1] == y);
            }
        }
        assert forall|k: int| 0 <= k < order.len() && cat[order[k] as int].critical implies r.contains(
            #[trigger] order[k],
        ) by {
            if k < d.len() {
                assert(d[k] == order[k]);
                assert(sel.contains(d[k]));
                let m = choose|m: int| 0 <= m < sel.len() && sel[m] == d[k];
                assert(r[m] == order[k]);
            } else {
                assert(r[r.len() - 1] == x);
            }
        }
        if order.no_duplicates() {
            assert(d.no_duplicates()) by {
                assert forall|a: int, b: int| 0 <= a < d.len() && 0 <= b < d.len() && a != b
                    implies d[a] != d[b] by {
                    assert(d[a] == order[a] && d[b] == order[b]);
                }
            }
            if r != sel {
                assert(!sel.contains(x)) by {
                    if sel.contains(x) {
                        let m = choose|m: int| 0 <= m < d.len() && d[m] == x;
                        assert(order[m] == order[order.len() - 1]);
                    }
                }
                assert forall|a: int, b: int| 0 <= a < r.len() && 0 <= b < r.len() && a != b
                    implies r[a] != r[b] by {
                    if a == sel.len() {
                        assert(sel.contains(r[b]));
                    } else if b == sel.len() {
                        assert(sel.contains(r[a]));
                    } else {
                        assert(r[a] == sel[a] && r[b] == sel[b]);
                    }
                }
            }
        }
    }
}

/// Walks `order` and admits each entry that is critical or still fits under
/// `budget`, counting from the bootstrap block's weight.
pub fn pack_entries(cat: &Vec<Command>, order: &Vec<usize>, budget: u32, tier: Tier) -> (r: (
    Vec<usize>,
    u32,
))
    requires
        indices_below(order@, cat@.len() as int),
        BOOTSTRAP_TOKENS + seq_tokens(cat@, order@) + 45 <= u32::MAX,
    ensures
        r.0@ == pack(cat@, order@, budget as int, tier).0,
        r.1 == pack(cat@, order@, budget as int, tier).1,
{
    let mut sel: Vec<usize> = Vec::new();
    let mut used: u32 = BOOTSTRAP_TOKENS;
    let mut k: usize = 0;
    while k < order.len()
        invariant
            k <= order@.len(),
            indices_below(order@, cat@.len() as int),
            BOOTSTRAP_TOKENS + seq_tokens(cat@, order@) + 45 <= u32::MAX,
            sel@ == pack(cat@, order@.take(k as int), budget as int, tier).0,
            used == pack(cat@, order@.take(k as int), budget as int, tier).1,
        decreases order@.len() - k,
    {
        let i = order[k];
        proof {
            let q = order@.take(k + 1);
            assert(q.drop_last() == order@.take(k as int));
            assert(q.last() == i);
            assert(q == order@.take(k as int).push(i));
            lemma_pack(cat@, order@.take(k as int), budget as int, tier);
            lemma_seq_tokens_prefix(cat@, order@, k + 1);
            lemma_seq_tokens_push(cat@, order@.take(k as int), i);
            lemma_cost_le_max(cat@[i as int], tier);
        }
        let cmd = &cat[i];
        let cost = cmd.level_for(tier).tokens;
        if cmd.critical || used + cost <= budget {
            used = used + cost;
            sel.push(i);
        }
        k = k + 1;
    }
    assert(order@.take(order@.len() as int) == order@);
    (sel, used)
}

} // verus!
