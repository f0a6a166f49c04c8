//! Properties of the primer engine, proved over the spec functions that define it.
use vstd::prelude::*;
use crate::catalog::{Command, awareness_text, expansion_text, workflow_text};
use crate::primer::{
    PrimerResponse,
    SymbolInfo,
    bootstrap_text,
    primer_order,
    primer_pack,
    primer_raw,
    primer_response,
    primer_tier,
};
use crate::select::{
    candidates,
    pack,
    passes_filter,
    lemma_candidates,
    lemma_pack,
    lemma_sort_ordered,
};
use crate::text::{is_space, trim, trim_end, trim_start};

verus! {

/// The three bootstrap lines, as they open every primer.
pub open spec fn bootstrap_lines() -> Seq<char> {
    awareness_text() + "\n"@ + workflow_text() + "\n"@ + expansion_text()
}

proof fn lemma_trim_end_keeps(l: Seq<char>, s: Seq<char>)
    requires
        l.len() > 0,
        !is_space(l.last()),
        l.is_prefix_of(s),
    ensures
        l.is_prefix_of(trim_end(s)),
    decreases s.len(),
{
    if s.len() > l.len() && is_space(s.last()) {
        assert(l.is_prefix_of(s.drop_last()));
        lemma_trim_end_keeps(l, s.drop_last());
    } else if s.len() == l.len() {
        assert(s == l);
    }
}

/// Whatever the budget, the capabilities and the snapshot, the primer opens with
/// the bootstrap block.
pub proof fn lemma_bootstrap_always_present(
    cat: Seq<Command>,
    budget: u32,
    caps: Seq<Seq<char>>,
    syms: Seq<SymbolInfo>,
)
    ensures
        bootstrap_lines().is_prefix_of(trim(primer_raw(cat, budget, caps, syms))),
{
    reveal_strlit("This project uses ACP. @acp:* comments are directives for you.");
    reveal_strlit("More: acp primer --budget N");
    reveal_strlit("\n");
    reveal_strlit("\n\n");
    let raw = primer_raw(cat, budget, caps, syms);
    let l = bootstrap_lines();
    assert(bootstrap_text() == l + "\n\n"@);
    assert(l[0] == 'T');
    assert(l.last() == 'N');
    assert(l.is_prefix_of(raw)) by {
        assert forall|k: int| 0 <= k < l.len() implies raw[k] == l[k] by {
            assert(raw[k] == bootstrap_text()[k]);
        }
    }
    assert(raw[0] == 'T');
    assert(trim_start(raw) == raw);
    lemma_trim_end_keeps(l, raw);
}

/// Every critical entry that passes the capability filter is selected, and no
/// entry is selected twice, whatever the budget.
pub proof fn lemma_critical_selected_once(cat: Seq<Command>, budget: u32, caps: Seq<Seq<char>>)
    requires
        cat.len() <= usize::MAX,
    ensures
        primer_pack(cat, budget, caps).0.no_duplicates(),
        forall|i: usize|
            i < cat.len() && (#[trigger] cat[i as int]).critical && passes_filter(cat[i as int], caps)
                ==> primer_pack(cat, budget, caps).0.contains(i),
{
    let n = cat.len() as int;
    let cand = candidates(cat, caps, n);
    let order = primer_order(cat, caps);
    lemma_candidates(cat, caps, n);
    lemma_sort_ordered(cat, cand);
    lemma_pack(cat, order, budget as int, primer_tier(budget));
    assert forall|i: usize|
        i < cat.len() && (#[trigger] cat[i as int]).critical && passes_filter(cat[i as int], caps)
        implies primer_pack(cat, budget, caps).0.contains(i) by {
        assert(cand.contains(i));
        assert(order.contains(i));
        let k = choose|k: int| 0 <= k < order.len() && order[k] == i;
        assert(cat[order[k] as int].critical);
    }
}

proof fn lemma_pack_prefix(cat: Seq<Command>, order: Seq<usize>, b: int, t: crate::tier::Tier, k: int)
    requires
        0 <= k <= order.len(),
    ensures
        pack(cat, order.take(k), b, t).0.len() <= pack(cat, order, b, t).0.len(),
        pack(cat, order.take(k), b, t).0 == pack(cat, order, b, t).0.take(
            pack(cat, order.take(k), b, t).0.len() as int,
        ),
    decreases order.len(),
{
    if k == order.len() {
        assert(order.take(k) == order);
        assert(pack(cat, order, b, t).0.take(pack(cat, order, b, t).0.len() as int) == pack(
            cat,
            order,
            b,
            t,
        ).0);
    } else {
        let d = order.drop_last();
        assert(d.take(k) == order.take(k));
        lemma_pack_prefix(cat, d, b, t, k);
        let p = pack(cat, d, b, t).0;
        let q = pack(cat, order, b, t).0;
        let m = pack(cat, order.take(k), b, t).0.len() as int;
        assert(q == p || q == p.push(order.last()));
        assert(q.take(m) == p.take(m));
    }
}

proof fn lemma_pack_budget_prefix(
    cat: Seq<Command>,
    order: Seq<usize>,
    b1: int,
    b2: int,
    t: crate::tier::Tier,
    k: int,
)
    requires
        b1 <= b2,
        0 <= k <= order.len(),
        pack(cat, order.take(k), b1, t).0 == order.take(k),
    ensures
        pack(cat, order.take(k), b2, t) == pack(cat, order.take(k), b1, t),
    decreases k,
{
    if k > 0 {
        let q = order.take(k);
        assert(q.drop_last() == order.take(k - 1));
        let p1 = pack(cat, order.take(k - 1), b1, t);
        lemma_pack_prefix(cat, q, b1, t, k - 1);
        assert(q.take(k - 1) == order.take(k - 1));
        assert(p1.0.len() <= k - 1) by {
            lemma_pack_len(cat, order.take(k - 1), b1, t);
        }
        assert(p1.0.len() == k - 1);
        assert(p1.0 == order.take(k).take(k - 1));
        assert(order.take(k).take(k - 1) == order.take(k - 1));
        lemma_pack_budget_prefix(cat, order, b1, b2, t, k - 1);
    }
}

proof fn lemma_pack_len(cat: Seq<Command>, order: Seq<usize>, b: int, t: crate::tier::Tier)
    ensures
        pack(cat, order, b, t).0.len() <= order.len(),
    decreases order.len(),
{
    if order.len() > 0 {
        lemma_pack_len(cat, order.drop_last(), b, t);
    }
}

/// Packing under `budget` admits each of the first `k` candidates, taken in
/// packing order: no refusal comes before the `k`-th.
pub open spec fn admits_first(cat: Seq<Command>, caps: Seq<Seq<char>>, budget: u32, k: int) -> bool {
    let order = primer_order(cat, caps);
    0 <= k <= order.len() && pack(cat, order.take(k), budget as int, primer_tier(budget)).0
        == order.take(k)
}

/// Raising the budget while the tier stays the same keeps every entry that was
/// admitted before the first refusal: when the first `k` candidates are all
/// admitted under `b1`, they are admitted, as the first `k` selected entries,
/// under any larger `b2` of the same tier.
pub proof fn lemma_budget_keeps_admitted_prefix(
    cat: Seq<Command>,
    caps: Seq<Seq<char>>,
    b1: u32,
    b2: u32,
    k: int,
)
    requires
        b1 <= b2,
        primer_tier(b1) == primer_tier(b2),
        admits_first(cat, caps, b1, k),
    ensures
        admits_first(cat, caps, b2, k),
        primer_pack(cat, b1, caps).0.take(k) == primer_order(cat, caps).take(k),
        primer_pack(cat, b2, caps).0.take(k) == primer_order(cat, caps).take(k),
{
    let order = primer_order(cat, caps);
    let t = primer_tier(b1);
    lemma_pack_budget_prefix(cat, order, b1 as int, b2 as int, t, k);
    lemma_pack_prefix(cat, order, b1 as int, t, k);
    lemma_pack_prefix(cat, order, b2 as int, t, k);
}

/// The engine is a function of its inputs: two answers to the same catalog,
/// budget, capabilities and snapshot are identical.
pub proof fn lemma_primer_deterministic(
    r1: PrimerResponse,
    r2: PrimerResponse,
    cat: Seq<Command>,
    budget: u32,
    caps: Seq<Seq<char>>,
    syms: Seq<SymbolInfo>,
)
    requires
        primer_response(r1, cat, budget, caps, syms),
        primer_response(r2, cat, budget, caps, syms),
    ensures
        r1.total_tokens == r2.total_tokens,
        r1.tier@ == r2.tier@,
        r1.commands_included == r2.commands_included,
        r1.content@ == r2.content@,
{
}

} // verus!
