//! The table of a predictive (LL(1)) parser: for each nonterminal and each
//! lookahead terminal, the production to expand.
//!
//! Production `α` of `A` is entered under every terminal of FIRST(`α`), and
//! under every terminal of FOLLOW(`A`) when `α` can derive the empty string.
//! Where two productions of `A` claim the same terminal, the later one is
//! kept.
use vstd::prelude::*;
use crate::text::{char_string, str_equal};
use crate::grammar::{
    GrammarView, PairSet, strs_view, grammar_view, distinct_keys, is_key, epsilon, end_marker, row,
    pair_set, pair_list_ok, row_items, add_pair, append_except, append_all,
};
use crate::first_follow::{first_contribution, production_first};

verus! {

/// A parse table as (nonterminal, terminal, production) triples.
pub open spec fn table_view(v: Seq<(String, String, String)>) -> Seq<(Seq<char>, Seq<char>, Seq<char>)> {
    v.map_values(|e: (String, String, String)| (e.0@, e.1@, e.2@))
}

/// No (nonterminal, terminal) cell appears twice.
pub open spec fn table_cells_unique(t: Seq<(Seq<char>, Seq<char>, Seq<char>)>) -> bool {
    forall|i: int, j: int| 0 <= i < j < t.len() ==> (t[i].0, t[i].1) != (t[j].0, t[j].1)
}

/// The production in cell (`a`, `b`) of the table, if any.
pub open spec fn table_get(t: Seq<(Seq<char>, Seq<char>, Seq<char>)>, a: Seq<char>, b: Seq<char>) -> Option<Seq<char>> {
    if exists|i: int| 0 <= i < t.len() && t[i].0 == a && t[i].1 == b {
        Some(t[choose|i: int| 0 <= i < t.len() && t[i].0 == a && t[i].1 == b].2)
    } else {
        None
    }
}

/// The terminals under which production `k` of entry `h` is entered:
/// FIRST of the production without `"ε"`, and FOLLOW of the nonterminal
/// when that FIRST holds `"ε"`.
pub open spec fn select_set(g: GrammarView, fi: PairSet, fo: PairSet, h: int, k: int) -> Set<Seq<char>> {
    let fa = first_contribution(g, fi, g[h].1[k]);
    fa.remove(epsilon()).union(if fa.contains(epsilon()) { row(fo, g[h].0) } else { Set::empty() })
}

/// The production in the cell of entry `h` and terminal `b` once the first
/// `n` productions of the entry are entered: the last of them that selects `b`.
pub open spec fn table_entry(g: GrammarView, fi: PairSet, fo: PairSet, h: int, b: Seq<char>, n: int) -> Option<Seq<char>>
    decreases n,
{
    if n <= 0 {
        None
    } else if select_set(g, fi, fo, h, n - 1).contains(b) {
        Some(g[h].1[n - 1])
    } else {
        table_entry(g, fi, fo, h, b, n - 1)
    }
}

/// `t` is the parse table of `g` with FIRST sets `fi` and FOLLOW sets `fo`.
pub open spec fn is_parse_table(g: GrammarView, fi: PairSet, fo: PairSet, t: Seq<(Seq<char>, Seq<char>, Seq<char>)>) -> bool {
    &&& forall|h: int, b: Seq<char>| 0 <= h < g.len() ==> #[trigger] table_get(t, g[h].0, b) == table_entry(g, fi, fo, h, b, g[h].1.len() as int)
    &&& forall|a: Seq<char>, b: Seq<char>| !is_key(g, a) ==> #[trigger] table_get(t, a, b) is None
}

/// Puts production `c` in cell (`a`, `b`), replacing what was there.
fn table_set(t: &mut Vec<(String, String, String)>, a: &str, b: &str, c: &String)
    requires
        table_cells_unique(table_view(old(t)@)),
    ensures
        table_cells_unique(table_view(final(t)@)),
        forall|x: Seq<char>, y: Seq<char>| #[trigger] table_get(table_view(final(t)@), x, y)
            == if x == a@ && y == b@ { Some(c@) } else { table_get(table_view(old(t)@), x, y) },
{
    let ghost tv0 = table_view(t@);
    let mut i: usize = 0;
    while i < t.len()
        invariant
            tv0 == table_view(t@),
            tv0 == table_view(old(t)@),
            table_cells_unique(tv0),
            i <= t@.len(),
            forall|j: int| 0 <= j < i ==> !(tv0[j].0 == a@ && tv0[j].1 == b@),
        decreases t@.len() - i,
    {
        if str_equal(t[i].0.as_str(), a) && str_equal(t[i].1.as_str(), b) {
            assert(tv0[i as int].0 == a@ && tv0[i as int].1 == b@);
            t.set(i, (a.to_owned(), b.to_owned(), c.clone()));
            let ghost tv = table_view(t@);
            assert(tv =~= tv0.update(i as int, (a@, b@, c@)));
            assert forall|x: Seq<char>, y: Seq<char>| #[trigger] table_get(tv, x, y)
                == if x == a@ && y == b@ { Some(c@) } else { table_get(tv0, x, y) } by {
                if x == a@ && y == b@ {
                    assert(tv[i as int].0 == x && tv[i as int].1 == y);
                    let w = choose|w: int| 0 <= w < tv.len() && tv[w].0 == x && tv[w].1 == y;
                    if w != i {
                        assert(tv0[w] == tv[w]);
                        if w < i {
                            assert((tv0[w].0, tv0[w].1) != (tv0[i as int].0, tv0[i as int].1));
                        } else {
                            assert((tv0[i as int].0, tv0[i as int].1) != (tv0[w].0, tv0[w].1));
                        }
                    }
                } else {
                    if exists|w: int| 0 <= w < tv.len() && tv[w].0 == x && tv[w].1 == y {
                        let w = choose|w: int| 0 <= w < tv.len() && tv[w].0 == x && tv[w].1 == y;
                        assert(tv0[w].0 == x && tv0[w].1 == y);
                        let w0 = choose|w: int| 0 <= w < tv0.len() && tv0[w].0 == x && tv0[w].1 == y;
                        assert(w0 == w);
                    }
                    if exists|w: int| 0 <= w < tv0.len() && tv0[w].0 == x && tv0[w].1 == y {
                        let w0 = choose|w: int| 0 <= w < tv0.len() && tv0[w].0 == x && tv0[w].1 == y;
                        assert(tv[w0].0 == x && tv[w0].1 == y);
                    }
                }
            }
            return;
        }
        i = i + 1;
    }
    t.push((a.to_owned(), b.to_owned(), c.clone()));
    let ghost tv = table_view(t@);
    assert(tv =~= tv0.push((a@, b@, c@)));
    assert forall|x: Seq<char>, y: Seq<char>| #[trigger] table_get(tv, x, y)
        == if x == a@ && y == b@ { Some(c@) } else { table_get(tv0, x, y) } by {
        if x == a@ && y == b@ {
            assert(tv[tv0.len() as int].0 == x && tv[tv0.len() as int].1 == y);
            let w = choose|w: int| 0 <= w < tv.len() && tv[w].0 == x && tv[w].1 == y;
            assert(w == tv0.len());
        } else {
            if exists|w: int| 0 <= w < tv.len() && tv[w].0 == x && tv[w].1 == y {
                let w = choose|w: int| 0 <= w < tv.len() && tv[w].0 == x && tv[w].1 == y;
                assert(tv0[w].0 == x && tv0[w].1 == y);
                let w0 = choose|w: int| 0 <= w < tv0.len() && tv0[w].0 == x && tv0[w].1 == y;
                assert(w0 == w);
            }
            if exists|w: int| 0 <= w < tv0.len() && tv0[w].0 == x && tv0[w].1 == y {
                let w0 = choose|w: int| 0 <= w < tv0.len() && tv0[w].0 == x && tv0[w].1 == y;
                assert(tv[w0].0 == x && tv[w0].1 == y);
            }
        }
    }
}

/// Whether `x` is one of the strings of `v`.
fn strs_contains(v: &Vec<String>, x: &str) -> (r: bool)
    ensures
        r == strs_view(v@).contains(x@),
{
    let mut i: usize = 0;
    while i < v.len()
        invariant
            i <= v@.len(),
            forall|j: int| 0 <= j < i ==> strs_view(v@)[j] != x@,
        decreases v@.len() - i,
    {
        if str_equal(v[i].as_str(), x) {
            assert(strs_view(v@)[i as int] == x@);
            return true;
        }
        i = i + 1;
    }
    false
}

/// The FIRST and FOLLOW sets that a predictive parser starts from: every
/// FIRST set empty, and FOLLOW holding `"$"` for the start symbol.
pub struct FirstFollow {
    pub first: Vec<(String, String)>,
    pub follow: Vec<(String, String)>,
}

impl FirstFollow {
    /// The sets for `grammar` with start symbol `start`: no FIRST items, and
    /// `"$"` in FOLLOW of `start`.
    pub fn new(grammar: &Vec<(String, Vec<String>)>, start: String) -> (r: FirstFollow)
        ensures
            pair_list_ok(r.first@),
            pair_list_ok(r.follow@),
            pair_set(r.first@) == Set::<(Seq<char>, Seq<char>)>::empty(),
            pair_set(r.follow@) == set![(start@, end_marker())],
    {
        let first: Vec<(String, String)> = Vec::new();
        let mut follow: Vec<(String, String)> = Vec::new();
        assert(pair_set(first@) =~= Set::empty());
        assert(pair_set(follow@) =~= Set::empty());
        let dollar = char_string('$');
        add_pair(&mut follow, start.as_str(), dollar.as_str());
        assert(pair_set(follow@) =~= set![(start@, end_marker())]);
        FirstFollow { first, follow }
    }
}

/// A grammar, the FIRST and FOLLOW sets it started from, and its parse table.
pub struct PredictiveParser {
    pub grammar: Vec<(String, Vec<String>)>,
    pub ff: FirstFollow,
    pub table: Vec<(String, String, String)>,
}

impl PredictiveParser {
    /// Builds the parser of `grammar` with start symbol `start_symbol`.
    pub fn new(grammar: Vec<(String, Vec<String>)>, start_symbol: String) -> (r: Self)
        requires
            distinct_keys(grammar_view(grammar@)),
        ensures
            r.grammar == grammar,
            pair_set(r.ff.first@) == Set::<(Seq<char>, Seq<char>)>::empty(),
            pair_set(r.ff.follow@) == set![(start_symbol@, end_marker())],
            table_cells_unique(table_view(r.table@)),
            is_parse_table(grammar_view(grammar@), pair_set(r.ff.first@), pair_set(r.ff.follow@), table_view(r.table@)),
    {
        let ff = FirstFollow::new(&grammar, start_symbol);
        let mut parser = PredictiveParser { grammar, ff, table: Vec::new() };
        parser.build_table();
        parser
    }

    /// The FIRST set of the string of symbols `string`.
    pub fn get_first_of_string(&self, string: &str) -> (r: Vec<String>)
        ensures
            strs_view(r@).to_set() == first_contribution(grammar_view(self.grammar@), pair_set(self.ff.first@), string@),
    {
        production_first(&self.grammar, &self.ff.first, string)
    }

    /// The terminals under which production `k` of entry `h` is entered.
    fn selected_terminals(&self, h: usize, k: usize) -> (r: Vec<String>)
        requires
            h < self.grammar@.len(),
            k < grammar_view(self.grammar@)[h as int].1.len(),
        ensures
            strs_view(r@).to_set() == select_set(grammar_view(self.grammar@), pair_set(self.ff.first@),
                pair_set(self.ff.follow@), h as int, k as int),
    {
        let eps_s = char_string('ε');
        let fa = self.get_first_of_string(self.grammar[h].1[k].as_str());
        let mut sel: Vec<String> = Vec::new();
        assert(strs_view(sel@).to_set() =~= Set::empty());
        append_except(&mut sel, &fa, eps_s.as_str());
        if strs_contains(&fa, eps_s.as_str()) {
            let fol = row_items(&self.ff.follow, self.grammar[h].0.as_str());
            append_all(&mut sel, &fol);
        }
        assert(strs_view(sel@).to_set() =~= select_set(grammar_view(self.grammar@), pair_set(self.ff.first@),
            pair_set(self.ff.follow@), h as int, k as int));
        sel
    }

    /// Fills the parse table, one nonterminal at a time.
    pub fn build_table(&mut self)
        requires
            distinct_keys(grammar_view(old(self).grammar@)),
        ensures
            final(self).grammar == old(self).grammar,
            final(self).ff == old(self).ff,
            table_cells_unique(table_view(final(self).table@)),
            is_parse_table(grammar_view(final(self).grammar@), pair_set(final(self).ff.first@),
                pair_set(final(self).ff.follow@), table_view(final(self).table@)),
    {
        let ghost gv = grammar_view(self.grammar@);
        let ghost fi = pair_set(self.ff.first@);
        let ghost fo = pair_set(self.ff.follow@);
        let mut table: Vec<(String, String, String)> = Vec::new();
        let mut h: usize = 0;
        while h < self.grammar.len()
            invariant
                gv == grammar_view(self.grammar@),
                fi == pair_set(self.ff.first@),
                fo == pair_set(self.ff.follow@),
                distinct_keys(gv),
                h <= gv.len(),
                table_cells_unique(table_view(table@)),
                forall|h2: int, b: Seq<char>| 0 <= h2 < h ==>
                    #[trigger] table_get(table_view(table@), gv[h2].0, b) == table_entry(gv, fi, fo, h2, b, gv[h2].1.len() as int),
                forall|a: Seq<char>, b: Seq<char>| (forall|h2: int| 0 <= h2 < h ==> gv[h2].0 != a)
                    ==> #[trigger] table_get(table_view(table@), a, b) is None,
            decreases gv.len() - h,
        {
            let mut k: usize = 0;
            while k < self.grammar[h].1.len()
                invariant
                    gv == grammar_view(self.grammar@),
                    fi == pair_set(self.ff.first@),
                    fo == pair_set(self.ff.follow@),
                    distinct_keys(gv),
                    h < gv.len(),
                    k <= gv[h as int].1.len(),
                    table_cells_unique(table_view(table@)),
                    forall|h2: int, b: Seq<char>| 0 <= h2 < h ==>
                        #[trigger] table_get(table_view(table@), gv[h2].0, b) == table_entry(gv, fi, fo, h2, b, gv[h2].1.len() as int),
                    forall|b: Seq<char>| #[trigger] table_get(table_view(table@), gv[h as int].0, b)
                        == table_entry(gv, fi, fo, h as int, b, k as int),
                    forall|a: Seq<char>, b: Seq<char>| (forall|h2: int| 0 <= h2 <= h ==> gv[h2].0 != a)
                        ==> #[trigger] table_get(table_view(table@), a, b) is None,
                decreases gv[h as int].1.len() - k,
            {
                let sel = self.selected_terminals(h, k);
                let ghost prod = gv[h as int].1[k as int];
                let mut t: usize = 0;
                while t < sel.len()
                    invariant
                        gv == grammar_view(self.grammar@),
                        fi == pair_set(self.ff.first@),
                        fo == pair_set(self.ff.follow@),
                        distinct_keys(gv),
                        h < gv.len(),
                        k < gv[h as int].1.len(),
                        prod == gv[h as int].1[k as int],
                        prod == self.grammar@[h as int].1@[k as int]@,
                        strs_view(sel@).to_set() == select_set(gv, fi, fo, h as int, k as int),
                        t <= sel@.len(),
                        table_cells_unique(table_view(table@)),
                        forall|h2: int, b: Seq<char>| 0 <= h2 < h ==>
                            #[trigger] table_get(table_view(table@), gv[h2].0, b) == table_entry(gv, fi, fo, h2, b, gv[h2].1.len() as int),
                        forall|b: Seq<char>| #[trigger] table_get(table_view(table@), gv[h as int].0, b)
                            == if strs_view(sel@).take(t as int).contains(b) { Some(prod) } else { table_entry(gv, fi, fo, h as int, b, k as int) },
                        forall|a: Seq<char>, b: Seq<char>| (forall|h2: int| 0 <= h2 <= h ==> gv[h2].0 != a)
                            ==> #[trigger] table_get(table_view(table@), a, b) is None,
                    decreases sel@.len() - t,
                {
                    let ghost before = table_view(table@);
                    table_set(&mut table, self.grammar[h].0.as_str(), sel[t].as_str(), &self.grammar[h].1[k]);
                    proof {
                        let st = strs_view(sel@);
                        assert forall|b: Seq<char>| st.take(t + 1).contains(b) <==> (st.take(t as int).contains(b) || b == st[t as int]) by {
                            if st.take(t + 1).contains(b) {
                                let w = choose|w: int| 0 <= w < t + 1 && #[trigger] st.take(t + 1)[w] == b;
                                if w < t {
                                    assert(st.take(t as int)[w] == b);
                                }
                            }
                            if st.take(t as int).contains(b) {
                                let w = choose|w: int| 0 <= w < t && #[trigger] st.take(t as int)[w] == b;
                                assert(st.take(t + 1)[w] == b);
                            }
                            if b == st[t as int] {
                                assert(st.take(t + 1)[t as int] == b);
                            }
                        }
                        assert forall|h2: int, b: Seq<char>| 0 <= h2 < h implies
                            #[trigger] table_get(table_view(table@), gv[h2].0, b) == table_entry(gv, fi, fo, h2, b, gv[h2].1.len() as int) by {
                            assert(gv[h2].0 != gv[h as int].0);
                            assert(table_get(before, gv[h2].0, b) == table_entry(gv, fi, fo, h2, b, gv[h2].1.len() as int));
                        }
                        assert forall|a: Seq<char>, b: Seq<char>| (forall|h2: int| 0 <= h2 <= h ==> gv[h2].0 != a)
                            implies #[trigger] table_get(table_view(table@), a, b) is None by {
                            assert(gv[h as int].0 != a);
                            assert(table_get(before, a, b) is None);
                        }
                    }
                    t = t + 1;
                }
                proof {
                    let st = strs_view(sel@);
                    assert(st.take(t as int) =~= st);
                    assert forall|b: Seq<char>| #[trigger] table_get(table_view(table@), gv[h as int].0, b)
                        == table_entry(gv, fi, fo, h as int, b, k + 1) by {
                        if st.contains(b) {
                            assert(st.to_set().contains(b));
                        } else {
                            assert(!st.to_set().contains(b));
                        }
                    }
                }
                k = k + 1;
            }
            proof {
                assert forall|a: Seq<char>, b: Seq<char>| (forall|h2: int| 0 <= h2 < h + 1 ==> gv[h2].0 != a)
                    implies #[trigger] table_get(table_view(table@), a, b) is None by {
                    assert forall|h2: int| 0 <= h2 <= h implies gv[h2].0 != a by {
                        assert(0 <= h2 < h + 1);
                    }
                }
            }
            h = h + 1;
        }
        proof {
            assert forall|a: Seq<char>, b: Seq<char>| !is_key(gv, a) implies #[trigger] table_get(table_view(table@), a, b) is None by {
                assert forall|h2: int| 0 <= h2 < h implies gv[h2].0 != a by {
                    if gv[h2].0 == a {
                        assert(is_key(gv, a));
                    }
                }
            }
        }
        self.table = table;
    }
}

} // verus!

verus! {

proof fn lemma_table_entry_is_production(g: GrammarView, fi: PairSet, fo: PairSet, h: int, b: Seq<char>, n: int)
    requires
        0 <= h < g.len(),
        n <= g[h].1.len(),
    ensures
        table_entry(g, fi, fo, h, b, n) matches Some(p) ==> g[h].1.contains(p),
    decreases n,
{
    if n > 0 {
        lemma_table_entry_is_production(g, fi, fo, h, b, n - 1);
        if select_set(g, fi, fo, h, n - 1).contains(b) {
            assert(g[h].1[n - 1] == g[h].1[n - 1]);
        }
    }
}

/// Every cell of the parse table holds a production of its own nonterminal.
pub proof fn law_table_cells_are_productions(g: GrammarView, fi: PairSet, fo: PairSet, t: Seq<(Seq<char>, Seq<char>, Seq<char>)>, h: int, b: Seq<char>)
    requires
        is_parse_table(g, fi, fo, t),
        0 <= h < g.len(),
    ensures
        table_get(t, g[h].0, b) matches Some(p) ==> g[h].1.contains(p),
{
    assert(table_get(t, g[h].0, b) == table_entry(g, fi, fo, h, b, g[h].1.len() as int));
    lemma_table_entry_is_production(g, fi, fo, h, b, g[h].1.len() as int);
}

} // verus!
