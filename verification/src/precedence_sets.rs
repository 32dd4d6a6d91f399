//! LEADING and TRAILING sets of an operator grammar, whose nonterminals are
//! the upper-case characters.
//!
//! LEADING of a nonterminal holds the terminals that can come first in what
//! it derives, looking past at most one leading nonterminal; TRAILING is the
//! same from the other end. Both are the least sets closed under their
//! rules.
use vstd::prelude::*;
use crate::text::{chars_of, char_string, uppercase, is_uppercase};
use crate::grammar::{
    GrammarView, PairSet, strs_view, grammar_view, is_key, single, row, pair_set, pair_list_ok,
    key_index, add_pair, row_items, symbols, product, within_symbols, lemma_symbols,
    lemma_pair_list_bounded, lemma_strs_push, append_all,
};

verus! {

/// The symbol at the near end of `p`: the first one for LEADING, the last
/// one for TRAILING.
pub open spec fn near_end(p: Seq<char>, from_end: bool) -> char {
    if from_end { p[p.len() - 1] } else { p[0] }
}

/// The symbol next to the near end of `p`.
pub open spec fn next_to_end(p: Seq<char>, from_end: bool) -> char {
    if from_end { p[p.len() - 2] } else { p[1] }
}

/// What production `k` of entry `h` puts into the LEADING (or TRAILING) set
/// of its nonterminal, given the sets `m`: the end symbol when it is not
/// upper case; otherwise the set of that nonterminal, and the symbol next
/// to it when there is one and it is not upper case.
pub open spec fn edge_contribution(g: GrammarView, m: PairSet, h: int, k: int, from_end: bool) -> Set<Seq<char>> {
    let p = g[h].1[k];
    if p.len() == 0 {
        Set::empty()
    } else {
        let c0 = near_end(p, from_end);
        if !uppercase(c0) {
            set![single(c0)]
        } else {
            let inner = if is_key(g, single(c0)) { row(m, single(c0)) } else { Set::empty() };
            if p.len() > 1 && !uppercase(next_to_end(p, from_end)) {
                inner.insert(single(next_to_end(p, from_end)))
            } else {
                inner
            }
        }
    }
}

/// The rule of production `k` of entry `h` holds in `m`.
pub open spec fn edge_rule_holds(g: GrammarView, m: PairSet, h: int, k: int, from_end: bool) -> bool {
    edge_contribution(g, m, h, k, from_end).subset_of(row(m, g[h].0))
}

/// `m` is closed under the rules of every production.
pub open spec fn edge_closed(g: GrammarView, m: PairSet, from_end: bool) -> bool {
    forall|h: int, k: int| 0 <= h < g.len() && 0 <= k < g[h].1.len() ==> #[trigger] edge_rule_holds(g, m, h, k, from_end)
}

/// `f` lies within every set that is closed under the rules.
pub open spec fn edge_sound(g: GrammarView, f: PairSet, from_end: bool) -> bool {
    forall|m: PairSet| #[trigger] edge_closed(g, m, from_end) ==> f.subset_of(m)
}

/// `f` holds the LEADING sets of `g`.
pub open spec fn is_leading_sets(g: GrammarView, f: PairSet) -> bool {
    edge_closed(g, f, false) && edge_sound(g, f, false)
}

/// `f` holds the TRAILING sets of `g`.
pub open spec fn is_trailing_sets(g: GrammarView, f: PairSet) -> bool {
    edge_closed(g, f, true) && edge_sound(g, f, true)
}

/// No production is a single upper-case character outside ASCII: for such
/// a production the sets look for a second symbol by byte length and fail.
pub open spec fn edges_safe(g: GrammarView) -> bool {
    forall|h: int, k: int| 0 <= h < g.len() && 0 <= k < g[h].1.len() && #[trigger] g[h].1[k].len() == 1
        && uppercase(g[h].1[k][0]) ==> (g[h].1[k][0] as u32) < 128
}

/// The items that production `k` of entry `h` puts into the set of its
/// nonterminal, given the sets `f`.
fn edge_items(g: &Vec<(String, Vec<String>)>, f: &Vec<(String, String)>, h: usize, k: usize, from_end: bool) -> (r: Vec<String>)
    requires
        h < g@.len(),
        k < grammar_view(g@)[h as int].1.len(),
    ensures
        strs_view(r@).to_set() == edge_contribution(grammar_view(g@), pair_set(f@), h as int, k as int, from_end),
{
    let ghost gv = grammar_view(g@);
    let cs = chars_of(g[h].1[k].as_str());
    let mut acc: Vec<String> = Vec::new();
    assert(strs_view(acc@).to_set() =~= Set::empty());
    if cs.len() == 0 {
        return acc;
    }
    let c0 = if from_end { cs[cs.len() - 1] } else { cs[0] };
    let s0 = char_string(c0);
    if !is_uppercase(c0) {
        let ghost a0 = acc@;
        let ghost xg = s0;
        acc.push(s0);
        proof {
            lemma_strs_push(a0, xg);
        }
        assert(strs_view(acc@).to_set() =~= edge_contribution(gv, pair_set(f@), h as int, k as int, from_end));
        return acc;
    }
    match key_index(g, s0.as_str()) {
        Some(_) => {
            let inner = row_items(f, s0.as_str());
            append_all(&mut acc, &inner);
        }
        None => {}
    }
    let ghost before = strs_view(acc@).to_set();
    if cs.len() > 1 {
        let c1 = if from_end { cs[cs.len() - 2] } else { cs[1] };
        if !is_uppercase(c1) {
            let s1 = char_string(c1);
            let ghost a0 = acc@;
            let ghost xg = s1;
            acc.push(s1);
            proof {
                lemma_strs_push(a0, xg);
            }
        }
    }
    assert(strs_view(acc@).to_set() =~= edge_contribution(gv, pair_set(f@), h as int, k as int, from_end));
    acc
}

proof fn lemma_edge_insert_sound(g: GrammarView, fc: PairSet, cur: PairSet, h: int, k: int, x: Seq<char>, from_end: bool)
    requires
        0 <= h < g.len(),
        0 <= k < g[h].1.len(),
        edge_sound(g, fc, from_end),
        edge_sound(g, cur, from_end),
        edge_contribution(g, fc, h, k, from_end).contains(x),
    ensures
        edge_sound(g, cur.insert((g[h].0, x)), from_end),
{
    assert forall|m: PairSet| #[trigger] edge_closed(g, m, from_end) implies cur.insert((g[h].0, x)).subset_of(m) by {
        assert(edge_rule_holds(g, m, h, k, from_end));
        assert(fc.subset_of(m));
        assert(edge_contribution(g, fc, h, k, from_end).subset_of(edge_contribution(g, m, h, k, from_end)));
    }
}

proof fn lemma_edge_symbols(g: GrammarView, f: PairSet, h: int, k: int, from_end: bool)
    requires
        0 <= h < g.len(),
        0 <= k < g[h].1.len(),
        within_symbols(symbols(g), f),
    ensures
        forall|x: Seq<char>| #[trigger] edge_contribution(g, f, h, k, from_end).contains(x) ==> symbols(g).contains(x),
{
    lemma_symbols(g);
    let p = g[h].1[k];
    if p.len() > 0 {
        let i0 = if from_end { p.len() - 1 } else { 0 };
        assert(symbols(g).contains(single(g[h].1[k][i0])));
        if p.len() > 1 {
            let i1 = if from_end { p.len() - 2 } else { 1 };
            assert(symbols(g).contains(single(g[h].1[k][i1])));
        }
        assert forall|x: Seq<char>| #[trigger] edge_contribution(g, f, h, k, from_end).contains(x) implies symbols(g).contains(x) by {
            let c0 = near_end(p, from_end);
            if uppercase(c0) && is_key(g, single(c0)) && row(f, single(c0)).contains(x) {
                assert(f.contains((single(c0), x)));
            }
        }
    }
}

/// Computes the LEADING sets (`from_end` false) or the TRAILING sets
/// (`from_end` true) of `g`.
fn compute_edge_sets(g: &Vec<(String, Vec<String>)>, from_end: bool) -> (r: Vec<(String, String)>)
    ensures
        pair_list_ok(r@),
        edge_closed(grammar_view(g@), pair_set(r@), from_end),
        edge_sound(grammar_view(g@), pair_set(r@), from_end),
{
    let ghost gv = grammar_view(g@);
    let ghost syms = symbols(gv);
    let mut sets: Vec<(String, String)> = Vec::new();
    proof {
        lemma_symbols(gv);
        assert(pair_set(sets@) =~= Set::empty());
    }
    loop
        invariant
            gv == grammar_view(g@),
            syms == symbols(gv),
            pair_list_ok(sets@),
            edge_sound(gv, pair_set(sets@), from_end),
            within_symbols(syms, pair_set(sets@)),
        ensures
            edge_closed(gv, pair_set(sets@), from_end),
        decreases product(syms, syms).len() - sets@.len(),
    {
        proof {
            lemma_pair_list_bounded(syms, sets@);
        }
        let ghost f0 = pair_set(sets@);
        let ghost len0 = sets@.len();
        let mut changed = false;
        let mut h: usize = 0;
        while h < g.len()
            invariant
                gv == grammar_view(g@),
                syms == symbols(gv),
                h <= gv.len(),
                pair_list_ok(sets@),
                edge_sound(gv, pair_set(sets@), from_end),
                within_symbols(syms, pair_set(sets@)),
                sets@.len() >= len0,
                changed ==> sets@.len() > len0,
                !changed ==> pair_set(sets@) == f0,
                !changed ==> forall|h2: int, k2: int| 0 <= h2 < h && 0 <= k2 < gv[h2].1.len()
                    ==> #[trigger] edge_rule_holds(gv, f0, h2, k2, from_end),
            decreases gv.len() - h,
        {
            let mut k: usize = 0;
            while k < g[h].1.len()
                invariant
                    gv == grammar_view(g@),
                    syms == symbols(gv),
                    h < gv.len(),
                    k <= gv[h as int].1.len(),
                    pair_list_ok(sets@),
                    edge_sound(gv, pair_set(sets@), from_end),
                    within_symbols(syms, pair_set(sets@)),
                    sets@.len() >= len0,
                    changed ==> sets@.len() > len0,
                    !changed ==> pair_set(sets@) == f0,
                    !changed ==> forall|h2: int, k2: int| 0 <= h2 < h && 0 <= k2 < gv[h2].1.len()
                        ==> #[trigger] edge_rule_holds(gv, f0, h2, k2, from_end),
                    !changed ==> forall|k2: int| 0 <= k2 < k ==> #[trigger] edge_rule_holds(gv, f0, h as int, k2, from_end),
                decreases gv[h as int].1.len() - k,
            {
                let items = edge_items(g, &sets, h, k, from_end);
                let ghost fc = pair_set(sets@);
                let ghost key = gv[h as int].0;
                proof {
                    lemma_edge_symbols(gv, fc, h as int, k as int, from_end);
                    lemma_symbols(gv);
                }
                let mut t: usize = 0;
                while t < items.len()
                    invariant
                        gv == grammar_view(g@),
                        syms == symbols(gv),
                        h < gv.len(),
                        k < gv[h as int].1.len(),
                        key == gv[h as int].0,
                        key == g@[h as int].0@,
                        strs_view(items@).to_set() == edge_contribution(gv, fc, h as int, k as int, from_end),
                        edge_sound(gv, fc, from_end),
                        forall|x: Seq<char>| #[trigger] edge_contribution(gv, fc, h as int, k as int, from_end).contains(x)
                            ==> syms.contains(x),
                        syms.contains(key),
                        t <= items@.len(),
                        fc.subset_of(pair_set(sets@)),
                        forall|tt: int| 0 <= tt < t ==> pair_set(sets@).contains((key, #[trigger] strs_view(items@)[tt])),
                        pair_list_ok(sets@),
                        edge_sound(gv, pair_set(sets@), from_end),
                        within_symbols(syms, pair_set(sets@)),
                        sets@.len() >= len0,
                        changed ==> sets@.len() > len0,
                        !changed ==> pair_set(sets@) == f0,
                        !changed ==> fc == f0,
                        !changed ==> forall|h2: int, k2: int| 0 <= h2 < h && 0 <= k2 < gv[h2].1.len()
                            ==> #[trigger] edge_rule_holds(gv, f0, h2, k2, from_end),
                        !changed ==> forall|k2: int| 0 <= k2 < k ==> #[trigger] edge_rule_holds(gv, f0, h as int, k2, from_end),
                    decreases items@.len() - t,
                {
                    let ghost x = strs_view(items@)[t as int];
                    let ghost cur = pair_set(sets@);
                    proof {
                        assert(strs_view(items@).to_set().contains(x));
                        lemma_edge_insert_sound(gv, fc, cur, h as int, k as int, x, from_end);
                    }
                    let added = add_pair(&mut sets, g[h].0.as_str(), items[t].as_str());
                    if added {
                        changed = true;
                    }
                    t = t + 1;
                }
                proof {
                    assert forall|x: Seq<char>| edge_contribution(gv, fc, h as int, k as int, from_end).contains(x)
                        implies row(pair_set(sets@), key).contains(x) by {
                        assert(strs_view(items@).to_set().contains(x));
                        let tt = choose|tt: int| 0 <= tt < strs_view(items@).len() && strs_view(items@)[tt] == x;
                        assert(pair_set(sets@).contains((key, strs_view(items@)[tt])));
                    }
                    if !changed {
                        assert(edge_rule_holds(gv, f0, h as int, k as int, from_end));
                    }
                }
                k = k + 1;
            }
            h = h + 1;
        }
        proof {
            lemma_pair_list_bounded(syms, sets@);
        }
        if !changed {
            assert(edge_closed(gv, f0, from_end));
            break;
        }
    }
    sets
}

/// An operator grammar with its LEADING and TRAILING sets as lists of
/// (nonterminal, terminal) pairs.
pub struct OperatorPrecedenceSets {
    pub grammar: Vec<(String, Vec<String>)>,
    pub leading: Vec<(String, String)>,
    pub trailing: Vec<(String, String)>,
}

impl OperatorPrecedenceSets {
    /// Takes a grammar and computes its LEADING, then its TRAILING sets.
    pub fn new(grammar: Vec<(String, Vec<String>)>) -> (r: Self)
        requires
            edges_safe(grammar_view(grammar@)),
        ensures
            r.grammar == grammar,
            pair_list_ok(r.leading@),
            pair_list_ok(r.trailing@),
            is_leading_sets(grammar_view(grammar@), pair_set(r.leading@)),
            is_trailing_sets(grammar_view(grammar@), pair_set(r.trailing@)),
    {
        let mut ops = OperatorPrecedenceSets { grammar, leading: Vec::new(), trailing: Vec::new() };
        ops.compute_leading();
        ops.compute_trailing();
        ops
    }

    /// `new` on the grammars for which it is defined, `None` on those with a
    /// production that is a single upper-case character outside ASCII.
    pub fn checked_new(grammar: Vec<(String, Vec<String>)>) -> (r: Option<Self>)
        ensures
            r is Some <==> edges_safe(grammar_view(grammar@)),
            r matches Some(ops) ==> {
                &&& ops.grammar == grammar
                &&& pair_list_ok(ops.leading@)
                &&& pair_list_ok(ops.trailing@)
                &&& is_leading_sets(grammar_view(grammar@), pair_set(ops.leading@))
                &&& is_trailing_sets(grammar_view(grammar@), pair_set(ops.trailing@))
            },
    {
        if is_edges_safe(&grammar) {
            Some(OperatorPrecedenceSets::new(grammar))
        } else {
            None
        }
    }

    /// Computes the LEADING sets into `leading`.
    pub fn compute_leading(&mut self)
        requires
            edges_safe(grammar_view(old(self).grammar@)),
        ensures
            final(self).grammar == old(self).grammar,
            final(self).trailing == old(self).trailing,
            pair_list_ok(final(self).leading@),
            is_leading_sets(grammar_view(final(self).grammar@), pair_set(final(self).leading@)),
    {
        self.leading = compute_edge_sets(&self.grammar, false);
    }

    /// Computes the TRAILING sets into `trailing`.
    pub fn compute_trailing(&mut self)
        requires
            edges_safe(grammar_view(old(self).grammar@)),
        ensures
            final(self).grammar == old(self).grammar,
            final(self).leading == old(self).leading,
            pair_list_ok(final(self).trailing@),
            is_trailing_sets(grammar_view(final(self).grammar@), pair_set(final(self).trailing@)),
    {
        self.trailing = compute_edge_sets(&self.grammar, true);
    }
}

/// Whether no production of `g` is a single upper-case character outside
/// ASCII.
pub fn is_edges_safe(g: &Vec<(String, Vec<String>)>) -> (r: bool)
    ensures
        r == edges_safe(grammar_view(g@)),
{
    let ghost gv = grammar_view(g@);
    let mut h: usize = 0;
    while h < g.len()
        invariant
            gv == grammar_view(g@),
            h <= gv.len(),
            forall|h2: int, k2: int| 0 <= h2 < h && 0 <= k2 < gv[h2].1.len() && #[trigger] gv[h2].1[k2].len() == 1
                && uppercase(gv[h2].1[k2][0]) ==> (gv[h2].1[k2][0] as u32) < 128,
        decreases gv.len() - h,
    {
        let mut k: usize = 0;
        while k < g[h].1.len()
            invariant
                gv == grammar_view(g@),
                h < gv.len(),
                k <= gv[h as int].1.len(),
                forall|h2: int, k2: int| 0 <= h2 < h && 0 <= k2 < gv[h2].1.len() && #[trigger] gv[h2].1[k2].len() == 1
                    && uppercase(gv[h2].1[k2][0]) ==> (gv[h2].1[k2][0] as u32) < 128,
                forall|k2: int| 0 <= k2 < k && #[trigger] gv[h as int].1[k2].len() == 1
                    && uppercase(gv[h as int].1[k2][0]) ==> (gv[h as int].1[k2][0] as u32) < 128,
            decreases gv[h as int].1.len() - k,
        {
            let cs = chars_of(g[h].1[k].as_str());
            if cs.len() == 1 && is_uppercase(cs[0]) && (cs[0] as u32) >= 128 {
                assert(gv[h as int].1[k as int].len() == 1);
                return false;
            }
            k = k + 1;
        }
        h = h + 1;
    }
    true
}

} // verus!

verus! {

/// How a production feeds the sets of its nonterminal: the terminal at its
/// near end (the first symbol for LEADING, the last for TRAILING) is in the
/// set of its nonterminal, and when a nonterminal of the grammar stands
/// there, that nonterminal's whole set is included.
pub proof fn law_edge_sets(g: GrammarView, f: PairSet, from_end: bool, h: int, k: int)
    requires
        if from_end { is_trailing_sets(g, f) } else { is_leading_sets(g, f) },
        0 <= h < g.len(),
        0 <= k < g[h].1.len(),
        g[h].1[k].len() > 0,
    ensures
        !uppercase(near_end(g[h].1[k], from_end)) ==> f.contains((g[h].0, single(near_end(g[h].1[k], from_end)))),
        uppercase(near_end(g[h].1[k], from_end)) && is_key(g, single(near_end(g[h].1[k], from_end)))
            ==> row(f, single(near_end(g[h].1[k], from_end))).subset_of(row(f, g[h].0)),
{
    assert(edge_rule_holds(g, f, h, k, from_end));
    let c0 = near_end(g[h].1[k], from_end);
    if !uppercase(c0) {
        assert(edge_contribution(g, f, h, k, from_end).contains(single(c0)));
    } else if is_key(g, single(c0)) {
        assert forall|x: Seq<char>| row(f, single(c0)).contains(x) implies row(f, g[h].0).contains(x) by {
            assert(edge_contribution(g, f, h, k, from_end).contains(x));
        }
    }
}

} // verus!
