//! FIRST and FOLLOW sets of a grammar whose symbols are single characters.
//!
//! FIRST of a nonterminal holds the terminals that can begin what it
//! derives, and `"ε"` when it can derive the empty string. FOLLOW of an
//! upper-case symbol holds what can come right after it, with `"$"` after
//! the start symbol. Both are the least sets closed under their rules: the
//! sets that repeated passes over the productions reach when a pass adds
//! nothing more.
use vstd::prelude::*;
use crate::text::{chars_of, char_string, str_equal, uppercase, is_uppercase, all_ascii, is_all_ascii};
use crate::grammar::{
    GrammarView, PairSet, strs_view, grammar_view, is_key, epsilon, end_marker, single, row,
    pair_set, pair_list_ok, key_index, has_pair, add_pair, row_items, symbols, product,
    within_symbols, lemma_symbols, lemma_pair_list_bounded, lemma_strs_push, append_except,
    append_all,
};

verus! {

// ---------------------------------------------------------------- FIRST

/// What the symbols of `p` from position `i` on put into FIRST, given the
/// sets `f`: the FIRST items of each nonterminal in turn, without `"ε"`,
/// for as long as the ones before can vanish; the symbol itself at the
/// first terminal; `"ε"` when every symbol can vanish.
pub open spec fn first_walk(g: GrammarView, f: PairSet, p: Seq<char>, i: int) -> Set<Seq<char>>
    decreases p.len() - i,
{
    if i >= p.len() {
        set![epsilon()]
    } else {
        let s = single(p[i]);
        if is_key(g, s) {
            let own = row(f, s).remove(epsilon());
            if f.contains((s, epsilon())) {
                own.union(first_walk(g, f, p, i + 1))
            } else {
                own
            }
        } else {
            set![s]
        }
    }
}

/// What production `p` puts into the FIRST set of its nonterminal.
pub open spec fn first_contribution(g: GrammarView, f: PairSet, p: Seq<char>) -> Set<Seq<char>> {
    if p == epsilon() {
        set![epsilon()]
    } else {
        first_walk(g, f, p, 0)
    }
}

/// The FIRST set of the nonterminal of entry `h` in `f` holds what its
/// production `k` puts into it.
pub open spec fn first_rule_holds(g: GrammarView, f: PairSet, h: int, k: int) -> bool {
    first_contribution(g, f, g[h].1[k]).subset_of(row(f, g[h].0))
}

/// `f` is closed under the FIRST rules of every production of `g`.
pub open spec fn first_closed(g: GrammarView, f: PairSet) -> bool {
    forall|h: int, k: int| 0 <= h < g.len() && 0 <= k < g[h].1.len() ==> #[trigger] first_rule_holds(g, f, h, k)
}

/// `f` lies within every set that is closed under the FIRST rules.
pub open spec fn first_sound(g: GrammarView, f: PairSet) -> bool {
    forall|m: PairSet| #[trigger] first_closed(g, m) ==> f.subset_of(m)
}

/// `f` holds the FIRST sets of `g`: the least pair set closed under the
/// FIRST rules.
pub open spec fn is_first_sets(g: GrammarView, f: PairSet) -> bool {
    first_closed(g, f) && first_sound(g, f)
}

proof fn lemma_first_walk_monotone(g: GrammarView, f: PairSet, m: PairSet, p: Seq<char>, i: int)
    requires
        f.subset_of(m),
    ensures
        first_walk(g, f, p, i).subset_of(first_walk(g, m, p, i)),
    decreases p.len() - i,
{
    if i < p.len() {
        lemma_first_walk_monotone(g, f, m, p, i + 1);
    }
}

proof fn lemma_first_walk_symbols(g: GrammarView, f: PairSet, h: int, k: int, i: int)
    requires
        0 <= h < g.len(),
        0 <= k < g[h].1.len(),
        0 <= i,
        within_symbols(symbols(g), f),
    ensures
        forall|x: Seq<char>| #[trigger] first_walk(g, f, g[h].1[k], i).contains(x) ==> symbols(g).contains(x),
    decreases g[h].1[k].len() - i,
{
    lemma_symbols(g);
    let p = g[h].1[k];
    if i < p.len() {
        lemma_first_walk_symbols(g, f, h, k, i + 1);
        let s = single(p[i]);
        assert(symbols(g).contains(single(g[h].1[k][i])));
        assert forall|x: Seq<char>| #[trigger] first_walk(g, f, p, i).contains(x) implies symbols(g).contains(x) by {
            if is_key(g, s) {
                if row(f, s).contains(x) {
                    assert(f.contains((s, x)));
                } else {
                    assert(first_walk(g, f, p, i + 1).contains(x));
                }
            } else {
                assert(x == s);
            }
        }
    }
}

/// The items that production `p` puts into FIRST, given the sets `f`.
pub(crate) fn production_first(g: &Vec<(String, Vec<String>)>, f: &Vec<(String, String)>, p: &str) -> (r: Vec<String>)
    ensures
        strs_view(r@).to_set() == first_contribution(grammar_view(g@), pair_set(f@), p@),
{
    let ghost gv = grammar_view(g@);
    let ghost fs = pair_set(f@);
    let eps_s = char_string('ε');
    let eps = eps_s.as_str();
    let mut acc: Vec<String> = Vec::new();
    if str_equal(p, eps) {
        let x = eps.to_owned();
        let ghost xg = x;
        acc.push(x);
        proof {
            lemma_strs_push(Seq::empty(), xg);
            assert(strs_view(Seq::<String>::empty()).to_set() =~= Set::empty());
            assert(strs_view(acc@).to_set() =~= set![epsilon()]);
        }
        return acc;
    }
    let cs = chars_of(p);
    let mut i: usize = 0;
    assert(strs_view(acc@).to_set() =~= Set::empty());
    loop
        invariant
            gv == grammar_view(g@),
            fs == pair_set(f@),
            p@ != epsilon(),
            eps@ == epsilon(),
            cs@ == p@,
            i <= cs@.len(),
            strs_view(acc@).to_set().union(first_walk(gv, fs, p@, i as int)) == first_walk(gv, fs, p@, 0),
        decreases cs@.len() - i,
    {
        let ghost before = strs_view(acc@).to_set();
        if i >= cs.len() {
            let x = eps.to_owned();
            let ghost a0 = acc@;
            let ghost xg = x;
            acc.push(x);
            proof {
                lemma_strs_push(a0, xg);
            }
            assert(strs_view(acc@).to_set() =~= before.union(first_walk(gv, fs, p@, i as int)));
            return acc;
        }
        let s = char_string(cs[i]);
        match key_index(g, s.as_str()) {
            None => {
                let ghost a0 = acc@;
                let ghost xg = s;
                acc.push(s);
                proof {
                    lemma_strs_push(a0, xg);
                }
                assert(strs_view(acc@).to_set() =~= before.union(first_walk(gv, fs, p@, i as int)));
                return acc;
            }
            Some(h) => {
                assert(is_key(gv, s@));
                let items = row_items(f, s.as_str());
                append_except(&mut acc, &items, eps);
                if has_pair(f, s.as_str(), eps) {
                    i = i + 1;
                    assert(strs_view(acc@).to_set().union(first_walk(gv, fs, p@, i as int))
                        =~= before.union(first_walk(gv, fs, p@, (i - 1) as int)));
                } else {
                    assert(strs_view(acc@).to_set() =~= before.union(first_walk(gv, fs, p@, i as int)));
                    return acc;
                }
            }
        }
    }
}


/// Adding an item that production `k` of entry `h` puts into FIRST, given
/// sound sets `fc`, to sound sets `cur` keeps them sound.
proof fn lemma_first_insert_sound(g: GrammarView, fc: PairSet, cur: PairSet, h: int, k: int, x: Seq<char>)
    requires
        0 <= h < g.len(),
        0 <= k < g[h].1.len(),
        first_sound(g, fc),
        first_sound(g, cur),
        first_contribution(g, fc, g[h].1[k]).contains(x),
    ensures
        first_sound(g, cur.insert((g[h].0, x))),
{
    assert forall|m: PairSet| #[trigger] first_closed(g, m) implies cur.insert((g[h].0, x)).subset_of(m) by {
        assert(first_rule_holds(g, m, h, k));
        if g[h].1[k] != epsilon() {
            lemma_first_walk_monotone(g, fc, m, g[h].1[k], 0);
        }
        assert(row(m, g[h].0).contains(x));
    }
}

// --------------------------------------------------------------- FOLLOW

/// What FOLLOW of the symbol at position `i` of production `k` of entry `h`
/// must hold, given the FIRST sets `fi` and the FOLLOW sets `m`: when the
/// next symbol is a nonterminal, its FIRST items other than `"ε"`, and the
/// FOLLOW set of the entry's nonterminal when that next symbol can vanish;
/// nothing when the next symbol is a terminal; and the FOLLOW set of the
/// entry's nonterminal at the end of the production.
pub open spec fn follow_contribution(g: GrammarView, fi: PairSet, m: PairSet, h: int, k: int, i: int) -> Set<Seq<char>> {
    let p = g[h].1[k];
    if i + 1 < p.len() {
        let next = single(p[i + 1]);
        if is_key(g, next) {
            let own = row(fi, next).remove(epsilon());
            if fi.contains((next, epsilon())) {
                own.union(row(m, g[h].0))
            } else {
                own
            }
        } else {
            Set::empty()
        }
    } else {
        row(m, g[h].0)
    }
}

/// The FOLLOW rule of position `i` of production `k` of entry `h` holds in
/// `m`; only upper-case symbols have FOLLOW sets.
pub open spec fn follow_rule_holds(g: GrammarView, fi: PairSet, m: PairSet, h: int, k: int, i: int) -> bool {
    uppercase(g[h].1[k][i]) ==> follow_contribution(g, fi, m, h, k, i).subset_of(row(m, single(g[h].1[k][i])))
}

/// `m` holds `"$"` in FOLLOW of `start` and is closed under every FOLLOW rule.
pub open spec fn follow_closed(g: GrammarView, start: Seq<char>, fi: PairSet, m: PairSet) -> bool {
    &&& m.contains((start, end_marker()))
    &&& forall|h: int, k: int, i: int| 0 <= h < g.len() && 0 <= k < g[h].1.len() && 0 <= i < g[h].1[k].len()
        ==> #[trigger] follow_rule_holds(g, fi, m, h, k, i)
}

/// `f` lies within every set that is closed under the FOLLOW rules.
pub open spec fn follow_sound(g: GrammarView, start: Seq<char>, fi: PairSet, f: PairSet) -> bool {
    forall|m: PairSet| #[trigger] follow_closed(g, start, fi, m) ==> f.subset_of(m)
}

/// `f` holds the FOLLOW sets of `g` with start symbol `start`, given the
/// FIRST sets `fi`: the least pair set closed under the FOLLOW rules.
pub open spec fn is_follow_sets(g: GrammarView, start: Seq<char>, fi: PairSet, f: PairSet) -> bool {
    follow_closed(g, start, fi, f) && follow_sound(g, start, fi, f)
}

/// No production ends with an upper-case character unless all its
/// characters are ASCII; FOLLOW reads the symbol after an upper-case one by
/// byte position, which fails on the last character otherwise.
pub open spec fn follow_safe(g: GrammarView) -> bool {
    forall|h: int, k: int| 0 <= h < g.len() && 0 <= k < g[h].1.len() && #[trigger] g[h].1[k].len() > 0
        && uppercase(g[h].1[k].last()) ==> all_ascii(g[h].1[k])
}

/// The symbols that FOLLOW can hold: those of the grammar, the items of
/// `fi`, and the start symbol.
pub open spec fn follow_symbols(g: GrammarView, start: Seq<char>, fi: Seq<(Seq<char>, Seq<char>)>) -> Seq<Seq<char>> {
    symbols(g) + fi.map_values(|p: (Seq<char>, Seq<char>)| p.1) + seq![start]
}

/// The items of FOLLOW that position `i` of production `k` of entry `h`
/// gives, with FOLLOW sets `fo` so far.
fn follow_items(
    g: &Vec<(String, Vec<String>)>,
    first: &Vec<(String, String)>,
    fo: &Vec<(String, String)>,
    h: usize,
    k: usize,
    cs: &Vec<char>,
    i: usize,
) -> (r: Vec<String>)
    requires
        h < g@.len(),
        k < grammar_view(g@)[h as int].1.len(),
        cs@ == grammar_view(g@)[h as int].1[k as int],
        i < cs@.len(),
    ensures
        strs_view(r@).to_set() == follow_contribution(grammar_view(g@), pair_set(first@), pair_set(fo@), h as int, k as int, i as int),
{
    let ghost gv = grammar_view(g@);
    let eps_s = char_string('ε');
    let eps = eps_s.as_str();
    let mut acc: Vec<String> = Vec::new();
    assert(strs_view(acc@).to_set() =~= Set::empty());
    if i < cs.len() - 1 {
        let next = char_string(cs[i + 1]);
        match key_index(g, next.as_str()) {
            None => {
                return acc;
            }
            Some(_) => {
                let own = row_items(first, next.as_str());
                append_except(&mut acc, &own, eps);
                if has_pair(first, next.as_str(), eps) {
                    let heads = row_items(fo, g[h].0.as_str());
                    append_all(&mut acc, &heads);
                }
                assert(strs_view(acc@).to_set() =~= follow_contribution(gv, pair_set(first@), pair_set(fo@), h as int, k as int, i as int));
                return acc;
            }
        }
    } else {
        let heads = row_items(fo, g[h].0.as_str());
        append_all(&mut acc, &heads);
        assert(strs_view(acc@).to_set() =~= follow_contribution(gv, pair_set(first@), pair_set(fo@), h as int, k as int, i as int));
        acc
    }
}

/// Adding an item that FOLLOW of position `i` of production `k` of entry
/// `h` must hold, given sound sets `fc`, to sound sets `cur` keeps them
/// sound.
proof fn lemma_follow_insert_sound(
    g: GrammarView,
    start: Seq<char>,
    fi: PairSet,
    fc: PairSet,
    cur: PairSet,
    h: int,
    k: int,
    i: int,
    x: Seq<char>,
)
    requires
        0 <= h < g.len(),
        0 <= k < g[h].1.len(),
        0 <= i < g[h].1[k].len(),
        uppercase(g[h].1[k][i]),
        follow_sound(g, start, fi, fc),
        follow_sound(g, start, fi, cur),
        follow_contribution(g, fi, fc, h, k, i).contains(x),
    ensures
        follow_sound(g, start, fi, cur.insert((single(g[h].1[k][i]), x))),
{
    assert forall|m: PairSet| #[trigger] follow_closed(g, start, fi, m) implies cur.insert((single(g[h].1[k][i]), x)).subset_of(m) by {
        assert(follow_rule_holds(g, fi, m, h, k, i));
        assert(fc.subset_of(m));
        assert(follow_contribution(g, fi, fc, h, k, i).subset_of(follow_contribution(g, fi, m, h, k, i)));
    }
}

/// Every FOLLOW rule at a position before (`h`, `k`, `i`) holds in `m`.
pub open spec fn follow_done(g: GrammarView, fi: PairSet, m: PairSet, h: int, k: int, i: int) -> bool {
    forall|h2: int, k2: int, i2: int|
        0 <= h2 < g.len() && 0 <= k2 < g[h2].1.len() && 0 <= i2 < g[h2].1[k2].len()
            && (h2 < h || (h2 == h && (k2 < k || (k2 == k && i2 < i))))
            ==> #[trigger] follow_rule_holds(g, fi, m, h2, k2, i2)
}

proof fn lemma_follow_symbols(g: GrammarView, start: Seq<char>, fi: Seq<(Seq<char>, Seq<char>)>)
    ensures
        forall|x: Seq<char>| #[trigger] symbols(g).contains(x) ==> follow_symbols(g, start, fi).contains(x),
        forall|p: (Seq<char>, Seq<char>)| #[trigger] fi.contains(p) ==> follow_symbols(g, start, fi).contains(p.1),
        follow_symbols(g, start, fi).contains(start),
{
    let a = symbols(g);
    let b = fi.map_values(|p: (Seq<char>, Seq<char>)| p.1);
    let all = a + b + seq![start];
    assert forall|x: Seq<char>| #[trigger] a.contains(x) implies all.contains(x) by {
        let j = choose|j: int| 0 <= j < a.len() && a[j] == x;
        assert(all[j] == x);
    }
    assert forall|p: (Seq<char>, Seq<char>)| #[trigger] fi.contains(p) implies all.contains(p.1) by {
        let j = choose|j: int| 0 <= j < fi.len() && fi[j] == p;
        assert(all[a.len() + j] == p.1);
    }
    assert(all[(a.len() + b.len()) as int] == start);
}

/// A grammar, its start symbol, and its FIRST and FOLLOW sets as lists of
/// (symbol, item) pairs.
pub struct FirstFollow {
    pub grammar: Vec<(String, Vec<String>)>,
    pub start: String,
    pub first: Vec<(String, String)>,
    pub follow: Vec<(String, String)>,
}

impl FirstFollow {
    /// Computes the FIRST sets of the grammar into `first`.
    pub fn compute_first(&mut self)
        ensures
            final(self).grammar == old(self).grammar,
            final(self).start == old(self).start,
            final(self).follow == old(self).follow,
            pair_list_ok(final(self).first@),
            is_first_sets(grammar_view(final(self).grammar@), pair_set(final(self).first@)),
            within_symbols(symbols(grammar_view(final(self).grammar@)), pair_set(final(self).first@)),
    {
        let ghost gv = grammar_view(self.grammar@);
        let ghost syms = symbols(gv);
        let mut first: Vec<(String, String)> = Vec::new();
        proof {
            lemma_symbols(gv);
            assert(pair_set(first@) =~= Set::empty());
        }
        loop
            invariant
                gv == grammar_view(self.grammar@),
                syms == symbols(gv),
                pair_list_ok(first@),
                first_sound(gv, pair_set(first@)),
                within_symbols(syms, pair_set(first@)),
            ensures
                first_closed(gv, pair_set(first@)),
            decreases product(syms, syms).len() - first@.len(),
        {
            proof {
                lemma_pair_list_bounded(syms, first@);
            }
            let ghost f0 = pair_set(first@);
            let ghost len0 = first@.len();
            let mut changed = false;
            let mut h: usize = 0;
            while h < self.grammar.len()
                invariant
                    gv == grammar_view(self.grammar@),
                    syms == symbols(gv),
                    h <= gv.len(),
                    pair_list_ok(first@),
                    first_sound(gv, pair_set(first@)),
                    within_symbols(syms, pair_set(first@)),
                    first@.len() >= len0,
                    changed ==> first@.len() > len0,
                    !changed ==> pair_set(first@) == f0,
                    !changed ==> forall|h2: int, k2: int| 0 <= h2 < h && 0 <= k2 < gv[h2].1.len()
                        ==> #[trigger] first_rule_holds(gv, f0, h2, k2),
                decreases gv.len() - h,
            {
                let mut k: usize = 0;
                while k < self.grammar[h].1.len()
                    invariant
                        gv == grammar_view(self.grammar@),
                        syms == symbols(gv),
                        h < gv.len(),
                        k <= gv[h as int].1.len(),
                        pair_list_ok(first@),
                        first_sound(gv, pair_set(first@)),
                        within_symbols(syms, pair_set(first@)),
                        first@.len() >= len0,
                        changed ==> first@.len() > len0,
                        !changed ==> pair_set(first@) == f0,
                        !changed ==> forall|h2: int, k2: int| 0 <= h2 < h && 0 <= k2 < gv[h2].1.len()
                            ==> #[trigger] first_rule_holds(gv, f0, h2, k2),
                        !changed ==> forall|k2: int| 0 <= k2 < k ==> #[trigger] first_rule_holds(gv, f0, h as int, k2),
                    decreases gv[h as int].1.len() - k,
                {
                    let items = production_first(&self.grammar, &first, self.grammar[h].1[k].as_str());
                    let ghost fc = pair_set(first@);
                    let ghost key = gv[h as int].0;
                    proof {
                        lemma_first_walk_symbols(gv, fc, h as int, k as int, 0);
                        lemma_symbols(gv);
                    }
                    let mut t: usize = 0;
                    while t < items.len()
                        invariant
                            gv == grammar_view(self.grammar@),
                            syms == symbols(gv),
                            h < gv.len(),
                            k < gv[h as int].1.len(),
                            key == gv[h as int].0,
                            key == self.grammar@[h as int].0@,
                            strs_view(items@).to_set() == first_contribution(gv, fc, gv[h as int].1[k as int]),
                            first_sound(gv, fc),
                            forall|x: Seq<char>| #[trigger] first_contribution(gv, fc, gv[h as int].1[k as int]).contains(x)
                                ==> syms.contains(x),
                            syms.contains(key),
                            t <= items@.len(),
                            fc.subset_of(pair_set(first@)),
                            forall|tt: int| 0 <= tt < t ==> pair_set(first@).contains((key, #[trigger] strs_view(items@)[tt])),
                            pair_list_ok(first@),
                            first_sound(gv, pair_set(first@)),
                            within_symbols(syms, pair_set(first@)),
                            first@.len() >= len0,
                            changed ==> first@.len() > len0,
                            !changed ==> pair_set(first@) == f0,
                            !changed ==> fc == f0,
                            !changed ==> forall|h2: int, k2: int| 0 <= h2 < h && 0 <= k2 < gv[h2].1.len()
                                ==> #[trigger] first_rule_holds(gv, f0, h2, k2),
                            !changed ==> forall|k2: int| 0 <= k2 < k ==> #[trigger] first_rule_holds(gv, f0, h as int, k2),
                        decreases items@.len() - t,
                    {
                        let ghost x = strs_view(items@)[t as int];
                        let ghost cur = pair_set(first@);
                        proof {
                            assert(strs_view(items@).to_set().contains(x));
                            lemma_first_insert_sound(gv, fc, cur, h as int, k as int, x);
                        }
                        let added = add_pair(&mut first, self.grammar[h].0.as_str(), items[t].as_str());
                        if added {
                            changed = true;
                        }
                        t = t + 1;
                    }
                    proof {
                        assert forall|x: Seq<char>| first_contribution(gv, fc, gv[h as int].1[k as int]).contains(x)
                            implies row(pair_set(first@), key).contains(x) by {
                            assert(strs_view(items@).to_set().contains(x));
                            let tt = choose|tt: int| 0 <= tt < strs_view(items@).len() && strs_view(items@)[tt] == x;
                            assert(pair_set(first@).contains((key, strs_view(items@)[tt])));
                        }
                        if !changed {
                            assert(first_rule_holds(gv, f0, h as int, k as int));
                        }
                    }
                    k = k + 1;
                }
                h = h + 1;
            }
            proof {
                lemma_pair_list_bounded(syms, first@);
            }
            if !changed {
                assert(first_closed(gv, f0));
                break;
            }
        }
        self.first = first;
    }

    /// Computes the FOLLOW sets of the grammar into `follow`, from the FIRST
    /// sets in `first`.
    pub fn compute_follow(&mut self)
        requires
            old(self).grammar@.len() > 0,
            follow_safe(grammar_view(old(self).grammar@)),
        ensures
            final(self).grammar == old(self).grammar,
            final(self).start == old(self).start,
            final(self).first == old(self).first,
            pair_list_ok(final(self).follow@),
            is_follow_sets(grammar_view(final(self).grammar@), final(self).start@, pair_set(final(self).first@),
                pair_set(final(self).follow@)),
    {
        let ghost gv = grammar_view(self.grammar@);
        let ghost st = self.start@;
        let ghost fi = pair_set(self.first@);
        let ghost syms = follow_symbols(gv, st, crate::grammar::pairs_view(self.first@));
        let dollar = char_string('$');
        let mut follow: Vec<(String, String)> = Vec::new();
        proof {
            assert(pair_set(follow@) =~= Set::empty());
        }
        add_pair(&mut follow, self.start.as_str(), dollar.as_str());
        proof {
            lemma_symbols(gv);
            lemma_follow_symbols(gv, st, crate::grammar::pairs_view(self.first@));
            assert(pair_set(follow@) =~= set![(st, end_marker())]);
        }
        loop
            invariant
                gv == grammar_view(self.grammar@),
                st == self.start@,
                fi == pair_set(self.first@),
                syms == follow_symbols(gv, st, crate::grammar::pairs_view(self.first@)),
                pair_list_ok(follow@),
                pair_set(follow@).contains((st, end_marker())),
                follow_sound(gv, st, fi, pair_set(follow@)),
                within_symbols(syms, pair_set(follow@)),
            ensures
                follow_done(gv, fi, pair_set(follow@), gv.len() as int, 0, 0),
                pair_set(follow@).contains((st, end_marker())),
            decreases product(syms, syms).len() - follow@.len(),
        {
            proof {
                lemma_pair_list_bounded(syms, follow@);
            }
            let ghost f0 = pair_set(follow@);
            let ghost len0 = follow@.len();
            let mut changed = false;
            let mut h: usize = 0;
            while h < self.grammar.len()
                invariant
                    gv == grammar_view(self.grammar@),
                    st == self.start@,
                    fi == pair_set(self.first@),
                    syms == follow_symbols(gv, st, crate::grammar::pairs_view(self.first@)),
                    h <= gv.len(),
                    pair_list_ok(follow@),
                    f0.contains((st, end_marker())),
                    f0.subset_of(pair_set(follow@)),
                    follow_sound(gv, st, fi, pair_set(follow@)),
                    within_symbols(syms, pair_set(follow@)),
                    follow@.len() >= len0,
                    changed ==> follow@.len() > len0,
                    !changed ==> pair_set(follow@) == f0,
                    !changed ==> follow_done(gv, fi, f0, h as int, 0, 0),
                decreases gv.len() - h,
            {
                let mut k: usize = 0;
                while k < self.grammar[h].1.len()
                    invariant
                        gv == grammar_view(self.grammar@),
                        st == self.start@,
                        fi == pair_set(self.first@),
                        syms == follow_symbols(gv, st, crate::grammar::pairs_view(self.first@)),
                        h < gv.len(),
                        k <= gv[h as int].1.len(),
                        pair_list_ok(follow@),
                        f0.contains((st, end_marker())),
                        f0.subset_of(pair_set(follow@)),
                        follow_sound(gv, st, fi, pair_set(follow@)),
                        within_symbols(syms, pair_set(follow@)),
                        follow@.len() >= len0,
                        changed ==> follow@.len() > len0,
                        !changed ==> pair_set(follow@) == f0,
                        !changed ==> follow_done(gv, fi, f0, h as int, k as int, 0),
                    decreases gv[h as int].1.len() - k,
                {
                    let cs = chars_of(self.grammar[h].1[k].as_str());
                    let mut i: usize = 0;
                    while i < cs.len()
                        invariant
                            gv == grammar_view(self.grammar@),
                            st == self.start@,
                            fi == pair_set(self.first@),
                            syms == follow_symbols(gv, st, crate::grammar::pairs_view(self.first@)),
                            h < gv.len(),
                            k < gv[h as int].1.len(),
                            cs@ == gv[h as int].1[k as int],
                            i <= cs@.len(),
                            pair_list_ok(follow@),
                            f0.contains((st, end_marker())),
                            f0.subset_of(pair_set(follow@)),
                            follow_sound(gv, st, fi, pair_set(follow@)),
                            within_symbols(syms, pair_set(follow@)),
                            follow@.len() >= len0,
                            changed ==> follow@.len() > len0,
                            !changed ==> pair_set(follow@) == f0,
                            !changed ==> follow_done(gv, fi, f0, h as int, k as int, i as int),
                        decreases cs@.len() - i,
                    {
                        if is_uppercase(cs[i]) {
                            let items = follow_items(&self.grammar, &self.first, &follow, h, k, &cs, i);
                            let target = char_string(cs[i]);
                            let ghost fc = pair_set(follow@);
                            let ghost x_sym = single(cs@[i as int]);
                            proof {
                                lemma_symbols(gv);
                                lemma_follow_symbols(gv, st, crate::grammar::pairs_view(self.first@));
                                assert(symbols(gv).contains(single(gv[h as int].1[k as int][i as int])));
                                assert forall|x: Seq<char>| #[trigger] follow_contribution(gv, fi, fc, h as int, k as int, i as int).contains(x)
                                    implies syms.contains(x) by {
                                    if row(fc, gv[h as int].0).contains(x) {
                                        assert(fc.contains((gv[h as int].0, x)));
                                    } else {
                                        let next = single(gv[h as int].1[k as int][i + 1]);
                                        assert(fi.contains((next, x)));
                                        let j = choose|j: int| 0 <= j < crate::grammar::pairs_view(self.first@).len()
                                            && crate::grammar::pairs_view(self.first@)[j] == (next, x);
                                        assert(crate::grammar::pairs_view(self.first@).contains((next, x)));
                                    }
                                }
                            }
                            let mut t: usize = 0;
                            while t < items.len()
                                invariant
                                    gv == grammar_view(self.grammar@),
                                    st == self.start@,
                                    fi == pair_set(self.first@),
                                    syms == follow_symbols(gv, st, crate::grammar::pairs_view(self.first@)),
                                    h < gv.len(),
                                    k < gv[h as int].1.len(),
                                    cs@ == gv[h as int].1[k as int],
                                    i < cs@.len(),
                                    uppercase(cs@[i as int]),
                                    target@ == x_sym,
                                    x_sym == single(cs@[i as int]),
                                    syms.contains(x_sym),
                                    strs_view(items@).to_set() == follow_contribution(gv, fi, fc, h as int, k as int, i as int),
                                    forall|x: Seq<char>| #[trigger] follow_contribution(gv, fi, fc, h as int, k as int, i as int).contains(x)
                                        ==> syms.contains(x),
                                    follow_sound(gv, st, fi, fc),
                                    t <= items@.len(),
                                    fc.subset_of(pair_set(follow@)),
                                    forall|tt: int| 0 <= tt < t ==> pair_set(follow@).contains((x_sym, #[trigger] strs_view(items@)[tt])),
                                    pair_list_ok(follow@),
                                    f0.contains((st, end_marker())),
                                    f0.subset_of(pair_set(follow@)),
                                    follow_sound(gv, st, fi, pair_set(follow@)),
                                    within_symbols(syms, pair_set(follow@)),
                                    follow@.len() >= len0,
                                    changed ==> follow@.len() > len0,
                                    !changed ==> pair_set(follow@) == f0,
                                    !changed ==> fc == f0,
                                    !changed ==> follow_done(gv, fi, f0, h as int, k as int, i as int),
                                decreases items@.len() - t,
                            {
                                let ghost x = strs_view(items@)[t as int];
                                let ghost cur = pair_set(follow@);
                                proof {
                                    assert(strs_view(items@).to_set().contains(x));
                                    lemma_follow_insert_sound(gv, st, fi, fc, cur, h as int, k as int, i as int, x);
                                }
                                let added = add_pair(&mut follow, target.as_str(), items[t].as_str());
                                if added {
                                    changed = true;
                                }
                                t = t + 1;
                            }
                            proof {
                                assert forall|x: Seq<char>| follow_contribution(gv, fi, fc, h as int, k as int, i as int).contains(x)
                                    implies row(pair_set(follow@), x_sym).contains(x) by {
                                    assert(strs_view(items@).to_set().contains(x));
                                    let tt = choose|tt: int| 0 <= tt < strs_view(items@).len() && strs_view(items@)[tt] == x;
                                    assert(pair_set(follow@).contains((x_sym, strs_view(items@)[tt])));
                                }
                                if !changed {
                                    assert(follow_rule_holds(gv, fi, f0, h as int, k as int, i as int));
                                }
                            }
                        } else {
                            assert(follow_rule_holds(gv, fi, f0, h as int, k as int, i as int));
                        }
                        i = i + 1;
                    }
                    k = k + 1;
                }
                h = h + 1;
            }
            proof {
                lemma_pair_list_bounded(syms, follow@);
            }
            if !changed {
                break;
            }
        }
        proof {
            assert(follow_closed(gv, st, fi, pair_set(follow@)));
        }
        self.follow = follow;
    }

    /// Takes a grammar and its start symbol and computes its FIRST sets,
    /// then its FOLLOW sets.
    pub fn new(grammar: Vec<(String, Vec<String>)>, start_symbol: String) -> (r: Self)
        requires
            grammar@.len() > 0,
            follow_safe(grammar_view(grammar@)),
        ensures
            r.grammar == grammar,
            r.start == start_symbol,
            pair_list_ok(r.first@),
            pair_list_ok(r.follow@),
            is_first_sets(grammar_view(grammar@), pair_set(r.first@)),
            is_follow_sets(grammar_view(grammar@), start_symbol@, pair_set(r.first@), pair_set(r.follow@)),
    {
        let mut ff = FirstFollow { grammar, start: start_symbol, first: Vec::new(), follow: Vec::new() };
        ff.compute_first();
        ff.compute_follow();
        ff
    }

    /// `new` on the grammars for which it is defined, `None` on the others:
    /// an empty grammar, or one with a production that ends with an
    /// upper-case character and holds a character outside ASCII.
    pub fn checked_new(grammar: Vec<(String, Vec<String>)>, start_symbol: String) -> (r: Option<Self>)
        ensures
            r is Some <==> (grammar@.len() > 0 && follow_safe(grammar_view(grammar@))),
            r matches Some(ff) ==> {
                &&& ff.grammar == grammar
                &&& ff.start == start_symbol
                &&& pair_list_ok(ff.first@)
                &&& pair_list_ok(ff.follow@)
                &&& is_first_sets(grammar_view(grammar@), pair_set(ff.first@))
                &&& is_follow_sets(grammar_view(grammar@), start_symbol@, pair_set(ff.first@), pair_set(ff.follow@))
            },
    {
        if grammar.len() > 0 && is_follow_safe(&grammar) {
            Some(FirstFollow::new(grammar, start_symbol))
        } else {
            None
        }
    }
}

/// The FIRST sets as a map: every nonterminal of the grammar has a set,
/// empty or not.
pub open spec fn first_map(g: GrammarView, f: PairSet) -> Map<Seq<char>, Set<Seq<char>>> {
    Map::new(|k: Seq<char>| is_key(g, k), |k: Seq<char>| row(f, k))
}

/// The FOLLOW sets as a map: the start symbol has a set, and so has every
/// symbol whose set holds an item.
pub open spec fn follow_map(start: Seq<char>, f: PairSet) -> Map<Seq<char>, Set<Seq<char>>> {
    Map::new(|k: Seq<char>| k == start || exists|x: Seq<char>| #[trigger] f.contains((k, x)), |k: Seq<char>| row(f, k))
}

impl FirstFollow {
    /// The FIRST set of `nt`: `None` when `nt` is not a nonterminal of the
    /// grammar, its items otherwise (none for an empty set).
    pub fn first_set(&self, nt: &str) -> (r: Option<Vec<String>>)
        ensures
            r is Some <==> first_map(grammar_view(self.grammar@), pair_set(self.first@)).dom().contains(nt@),
            r matches Some(v) ==> strs_view(v@).to_set() == first_map(grammar_view(self.grammar@), pair_set(self.first@))[nt@],
    {
        match key_index(&self.grammar, nt) {
            Some(_) => Some(row_items(&self.first, nt)),
            None => None,
        }
    }

    /// The FOLLOW set of `nt`: `None` when `nt` has none (it is not the
    /// start symbol and nothing follows it), its items otherwise.
    pub fn follow_set(&self, nt: &str) -> (r: Option<Vec<String>>)
        ensures
            r is Some <==> follow_map(self.start@, pair_set(self.follow@)).dom().contains(nt@),
            r matches Some(v) ==> strs_view(v@).to_set() == follow_map(self.start@, pair_set(self.follow@))[nt@],
    {
        let items = row_items(&self.follow, nt);
        if str_equal(self.start.as_str(), nt) || items.len() > 0 {
            proof {
                if items@.len() > 0 {
                    assert(strs_view(items@).to_set().contains(strs_view(items@)[0]));
                }
            }
            Some(items)
        } else {
            proof {
                assert forall|x: Seq<char>| !pair_set(self.follow@).contains((nt@, x)) by {
                    if pair_set(self.follow@).contains((nt@, x)) {
                        assert(row(pair_set(self.follow@), nt@).contains(x));
                        assert(strs_view(items@).to_set().contains(x));
                    }
                }
            }
            None
        }
    }
}

/// Whether no production of `g` ends with an upper-case character while
/// holding a character outside ASCII.
pub fn is_follow_safe(g: &Vec<(String, Vec<String>)>) -> (r: bool)
    ensures
        r == follow_safe(grammar_view(g@)),
{
    let ghost gv = grammar_view(g@);
    let mut h: usize = 0;
    while h < g.len()
        invariant
            gv == grammar_view(g@),
            h <= gv.len(),
            forall|h2: int, k2: int| 0 <= h2 < h && 0 <= k2 < gv[h2].1.len() && #[trigger] gv[h2].1[k2].len() > 0
                && uppercase(gv[h2].1[k2].last()) ==> all_ascii(gv[h2].1[k2]),
        decreases gv.len() - h,
    {
        let mut k: usize = 0;
        while k < g[h].1.len()
            invariant
                gv == grammar_view(g@),
                h < gv.len(),
                k <= gv[h as int].1.len(),
                forall|h2: int, k2: int| 0 <= h2 < h && 0 <= k2 < gv[h2].1.len() && #[trigger] gv[h2].1[k2].len() > 0
                    && uppercase(gv[h2].1[k2].last()) ==> all_ascii(gv[h2].1[k2]),
                forall|k2: int| 0 <= k2 < k && #[trigger] gv[h as int].1[k2].len() > 0
                    && uppercase(gv[h as int].1[k2].last()) ==> all_ascii(gv[h as int].1[k2]),
            decreases gv[h as int].1.len() - k,
        {
            let cs = chars_of(g[h].1[k].as_str());
            if cs.len() > 0 && is_uppercase(cs[cs.len() - 1]) && !is_all_ascii(&cs) {
                assert(gv[h as int].1[k as int].len() > 0);
                return false;
            }
            k = k + 1;
        }
        h = h + 1;
    }
    true
}

} // verus!

verus! {

/// A nonterminal with an ε-production has `"ε"` in its FIRST set.
pub proof fn law_epsilon_production_in_first(g: GrammarView, f: PairSet, h: int, k: int)
    requires
        is_first_sets(g, f),
        0 <= h < g.len(),
        0 <= k < g[h].1.len(),
        g[h].1[k] == epsilon(),
    ensures
        f.contains((g[h].0, epsilon())),
{
    assert(first_rule_holds(g, f, h, k));
    assert(first_contribution(g, f, g[h].1[k]).contains(epsilon()));
}

/// A production that begins with a terminal puts that terminal in the FIRST
/// set of its nonterminal.
pub proof fn law_leading_terminal_in_first(g: GrammarView, f: PairSet, h: int, k: int)
    requires
        is_first_sets(g, f),
        0 <= h < g.len(),
        0 <= k < g[h].1.len(),
        g[h].1[k] != epsilon(),
        g[h].1[k].len() > 0,
        !is_key(g, single(g[h].1[k][0])),
    ensures
        f.contains((g[h].0, single(g[h].1[k][0]))),
{
    assert(first_rule_holds(g, f, h, k));
    assert(first_contribution(g, f, g[h].1[k]).contains(single(g[h].1[k][0])));
}

/// FOLLOW of the start symbol holds the end marker `"$"`.
pub proof fn law_end_marker_follows_start(g: GrammarView, start: Seq<char>, fi: PairSet, fo: PairSet)
    requires
        is_follow_sets(g, start, fi, fo),
    ensures
        fo.contains((start, end_marker())),
{
}

} // verus!
