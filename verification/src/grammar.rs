//! Context-free grammars as the grammar tools take them, and sets of
//! (symbol, item) pairs, the shape of FIRST, FOLLOW, LEADING and TRAILING.
//!
//! A grammar maps each nonterminal to its productions. Each production is a
//! string whose characters are its symbols; the production `"ε"` derives the
//! empty string. Nonterminals are kept in a list of entries with distinct
//! names, in the order in which they are walked.
use vstd::prelude::*;
use crate::text::{chars_of, str_equal};

verus! {

/// A grammar as mathematical values: (nonterminal, productions) entries.
pub type GrammarView = Seq<(Seq<char>, Seq<Seq<char>>)>;

/// A set of (symbol, item) pairs.
pub type PairSet = Set<(Seq<char>, Seq<char>)>;

/// The views of a list of strings.
pub open spec fn strs_view(v: Seq<String>) -> Seq<Seq<char>> {
    v.map_values(|s: String| s@)
}

/// The view of a grammar held as entries of strings.
pub open spec fn grammar_view(g: Seq<(String, Vec<String>)>) -> GrammarView {
    g.map_values(|e: (String, Vec<String>)| (e.0@, strs_view(e.1@)))
}

/// No two entries name the same nonterminal, as in a map.
pub open spec fn distinct_keys(g: GrammarView) -> bool {
    forall|i: int, j: int| 0 <= i < j < g.len() ==> g[i].0 != g[j].0
}

/// Whether `s` names a nonterminal of `g`.
pub open spec fn is_key(g: GrammarView, s: Seq<char>) -> bool {
    exists|h: int| 0 <= h < g.len() && #[trigger] g[h].0 == s
}

/// The position of an entry named `s`, when there is one.
pub open spec fn key_position(g: GrammarView, s: Seq<char>) -> int {
    choose|h: int| 0 <= h < g.len() && #[trigger] g[h].0 == s
}

/// The productions of the nonterminal `s`, or none when it is not one.
pub open spec fn productions_of(g: GrammarView, s: Seq<char>) -> Seq<Seq<char>> {
    if is_key(g, s) {
        g[key_position(g, s)].1
    } else {
        Seq::empty()
    }
}

/// The string `"ε"`, which stands for the empty string.
pub open spec fn epsilon() -> Seq<char> {
    seq!['ε']
}

/// The string `"$"`, the end-of-input marker.
pub open spec fn end_marker() -> Seq<char> {
    seq!['$']
}

/// The one-character string of `c`.
pub open spec fn single(c: char) -> Seq<char> {
    seq![c]
}

/// The items paired with `k` in `s`.
pub open spec fn row(s: PairSet, k: Seq<char>) -> Set<Seq<char>> {
    Set::new(|x: Seq<char>| s.contains((k, x)))
}

/// The pairs of a list of string pairs.
pub open spec fn pairs_view(v: Seq<(String, String)>) -> Seq<(Seq<char>, Seq<char>)> {
    v.map_values(|p: (String, String)| (p.0@, p.1@))
}

/// The set of pairs held in a list of string pairs.
pub open spec fn pair_set(v: Seq<(String, String)>) -> PairSet {
    pairs_view(v).to_set()
}

/// A list of pairs that holds no pair twice.
pub open spec fn pair_list_ok(v: Seq<(String, String)>) -> bool {
    pairs_view(v).no_duplicates()
}

/// The position of the entry of `g` named `k`, if any.
pub fn key_index(g: &Vec<(String, Vec<String>)>, k: &str) -> (r: Option<usize>)
    ensures
        match r {
            Some(h) => h < g@.len() && grammar_view(g@)[h as int].0 == k@,
            None => !is_key(grammar_view(g@), k@),
        },
{
    let ghost gv = grammar_view(g@);
    let mut h: usize = 0;
    while h < g.len()
        invariant
            gv == grammar_view(g@),
            h <= g@.len(),
            forall|j: int| 0 <= j < h ==> gv[j].0 != k@,
        decreases g@.len() - h,
    {
        if str_equal(g[h].0.as_str(), k) {
            return Some(h);
        }
        h = h + 1;
    }
    None
}

/// Whether the pair `(k, x)` is in the list.
pub fn has_pair(v: &Vec<(String, String)>, k: &str, x: &str) -> (r: bool)
    ensures
        r == pair_set(v@).contains((k@, x@)),
{
    let ghost pv = pairs_view(v@);
    let mut i: usize = 0;
    while i < v.len()
        invariant
            pv == pairs_view(v@),
            i <= v@.len(),
            forall|j: int| 0 <= j < i ==> pv[j] != (k@, x@),
        decreases v@.len() - i,
    {
        if str_equal(v[i].0.as_str(), k) && str_equal(v[i].1.as_str(), x) {
            assert(pv[i as int] == (k@, x@));
            return true;
        }
        i = i + 1;
    }
    assert(!pv.contains((k@, x@)));
    false
}

/// Adds the pair `(k, x)` to the list unless it is there, and tells
/// whether it was added.
pub fn add_pair(v: &mut Vec<(String, String)>, k: &str, x: &str) -> (added: bool)
    requires
        pair_list_ok(old(v)@),
    ensures
        pair_list_ok(final(v)@),
        pair_set(final(v)@) == pair_set(old(v)@).insert((k@, x@)),
        added == !pair_set(old(v)@).contains((k@, x@)),
        final(v)@.len() == old(v)@.len() + (if added { 1int } else { 0int }),
{
    if has_pair(v, k, x) {
        assert(pair_set(v@).insert((k@, x@)) =~= pair_set(v@));
        false
    } else {
        let ghost before = pairs_view(v@);
        v.push((k.to_owned(), x.to_owned()));
        assert(pairs_view(v@) =~= before.push((k@, x@)));
        assert(pair_set(v@) =~= before.to_set().insert((k@, x@))) by {
            assert forall|p| #[trigger] pairs_view(v@).contains(p) <==> before.to_set().insert((k@, x@)).contains(p) by {
                if pairs_view(v@).contains(p) {
                    let j = choose|j: int| 0 <= j < pairs_view(v@).len() && pairs_view(v@)[j] == p;
                    if j < before.len() {
                        assert(before[j] == p);
                    }
                }
                if before.contains(p) {
                    let j = choose|j: int| 0 <= j < before.len() && before[j] == p;
                    assert(pairs_view(v@)[j] == p);
                }
                if p == (k@, x@) {
                    assert(pairs_view(v@)[before.len() as int] == p);
                }
            }
        }
        true
    }
}

/// The items paired with `k` in the list, in list order.
pub fn row_items(v: &Vec<(String, String)>, k: &str) -> (r: Vec<String>)
    ensures
        strs_view(r@).to_set() == row(pair_set(v@), k@),
{
    let ghost pv = pairs_view(v@);
    let mut r: Vec<String> = Vec::new();
    let mut i: usize = 0;
    while i < v.len()
        invariant
            pv == pairs_view(v@),
            i <= v@.len(),
            forall|x: Seq<char>| #[trigger] strs_view(r@).contains(x) <==>
                exists|j: int| 0 <= j < i && pv[j] == (k@, x),
        decreases v@.len() - i,
    {
        if str_equal(v[i].0.as_str(), k) {
            let ghost old_r = strs_view(r@);
            r.push(v[i].1.clone());
            assert(strs_view(r@) =~= old_r.push(v@[i as int].1@));
            assert forall|x: Seq<char>| #[trigger] strs_view(r@).contains(x) <==>
                exists|j: int| 0 <= j < i + 1 && pv[j] == (k@, x) by {
                if strs_view(r@).contains(x) && !old_r.contains(x) {
                    assert(strs_view(r@)[old_r.len() as int] == x);
                    assert(pv[i as int] == (k@, x));
                }
                if exists|j: int| 0 <= j < i + 1 && pv[j] == (k@, x) {
                    let j = choose|j: int| 0 <= j < i + 1 && pv[j] == (k@, x);
                    if j == i {
                        assert(strs_view(r@)[old_r.len() as int] == x);
                    } else {
                        assert(old_r.contains(x));
                        let m = choose|m: int| 0 <= m < old_r.len() && old_r[m] == x;
                        assert(strs_view(r@)[m] == x);
                    }
                }
                if old_r.contains(x) {
                    let m = choose|m: int| 0 <= m < old_r.len() && old_r[m] == x;
                    assert(strs_view(r@)[m] == x);
                }
            }
        } else {
            assert forall|x: Seq<char>| #[trigger] strs_view(r@).contains(x) <==>
                exists|j: int| 0 <= j < i + 1 && pv[j] == (k@, x) by {
                if exists|j: int| 0 <= j < i + 1 && pv[j] == (k@, x) {
                    let j = choose|j: int| 0 <= j < i + 1 && pv[j] == (k@, x);
                    assert(j != i);
                }
            }
        }
        i = i + 1;
    }
    assert(strs_view(r@).to_set() =~= row(pair_set(v@), k@)) by {
        assert forall|x: Seq<char>| strs_view(r@).to_set().contains(x) <==> row(pair_set(v@), k@).contains(x) by {
            if pv.contains((k@, x)) {
                let j = choose|j: int| 0 <= j < pv.len() && pv[j] == (k@, x);
                assert(exists|j: int| 0 <= j < v@.len() && pv[j] == (k@, x));
            }
        }
    }
    r
}

// The symbols that a grammar can put into a pair set, and a finite list of
// every pair made of them; pair lists that hold no pair twice and draw
// their pairs from it are no longer than it, which bounds the fixpoint
// iterations of the grammar tools.

/// The symbols of the productions `ps`, one string per character.
pub open spec fn production_symbols(ps: Seq<Seq<char>>) -> Seq<Seq<char>>
    decreases ps.len(),
{
    if ps.len() == 0 {
        Seq::empty()
    } else {
        production_symbols(ps.drop_last()) + ps.last().map_values(|c: char| single(c))
    }
}

/// Every symbol of `g`: its nonterminals, the characters of its
/// productions, `"ε"` and `"$"`.
pub open spec fn symbols(g: GrammarView) -> Seq<Seq<char>>
    decreases g.len(),
{
    if g.len() == 0 {
        seq![epsilon(), end_marker()]
    } else {
        symbols(g.drop_last()) + seq![g.last().0] + production_symbols(g.last().1)
    }
}

/// Every pair of an element of `a` with an element of `b`.
pub open spec fn product(a: Seq<Seq<char>>, b: Seq<Seq<char>>) -> Seq<(Seq<char>, Seq<char>)>
    decreases a.len(),
{
    if a.len() == 0 {
        Seq::empty()
    } else {
        product(a.drop_last(), b) + b.map_values(|y: Seq<char>| (a.last(), y))
    }
}

/// Every pair in `s` is made of elements of `syms`.
pub open spec fn within_symbols(syms: Seq<Seq<char>>, s: PairSet) -> bool {
    forall|p: (Seq<char>, Seq<char>)| #[trigger] s.contains(p) ==>
        syms.contains(p.0) && syms.contains(p.1)
}

proof fn lemma_production_symbols(ps: Seq<Seq<char>>, p: int, i: int)
    requires
        0 <= p < ps.len(),
        0 <= i < ps[p].len(),
    ensures
        production_symbols(ps).contains(single(ps[p][i])),
    decreases ps.len(),
{
    let rest = production_symbols(ps.drop_last());
    let last = ps.last().map_values(|c: char| single(c));
    if p == ps.len() - 1 {
        assert((rest + last)[rest.len() + i] == single(ps[p][i]));
    } else {
        lemma_production_symbols(ps.drop_last(), p, i);
        let k = choose|k: int| 0 <= k < rest.len() && rest[k] == single(ps[p][i]);
        assert((rest + last)[k] == single(ps[p][i]));
    }
}

/// The symbols of `g` include `"ε"`, `"$"`, every nonterminal and every
/// character of every production.
pub proof fn lemma_symbols(g: GrammarView)
    ensures
        symbols(g).contains(epsilon()),
        symbols(g).contains(end_marker()),
        forall|h: int| 0 <= h < g.len() ==> symbols(g).contains(#[trigger] g[h].0),
        forall|h: int, p: int, i: int|
            0 <= h < g.len() && 0 <= p < g[h].1.len() && 0 <= i < g[h].1[p].len()
                ==> symbols(g).contains(single(#[trigger] g[h].1[p][i])),
    decreases g.len(),
{
    if g.len() == 0 {
        assert(symbols(g)[0] == epsilon());
        assert(symbols(g)[1] == end_marker());
    } else {
        let g0 = g.drop_last();
        lemma_symbols(g0);
        let a = symbols(g0);
        let b = seq![g.last().0];
        let c = production_symbols(g.last().1);
        let all = a + b + c;
        assert(symbols(g) == all);
        assert forall|s: Seq<char>| a.contains(s) implies all.contains(s) by {
            let k = choose|k: int| 0 <= k < a.len() && a[k] == s;
            assert(all[k] == s);
        }
        assert forall|s: Seq<char>| c.contains(s) implies all.contains(s) by {
            let k = choose|k: int| 0 <= k < c.len() && c[k] == s;
            assert(all[a.len() + 1 + k] == s);
        }
        assert(all[a.len() as int] == g.last().0);
        assert forall|h: int| 0 <= h < g.len() implies all.contains(#[trigger] g[h].0) by {
            if h < g.len() - 1 {
                assert(g0[h] == g[h]);
            }
        }
        assert forall|h: int, p: int, i: int|
            0 <= h < g.len() && 0 <= p < g[h].1.len() && 0 <= i < g[h].1[p].len()
            implies all.contains(single(#[trigger] g[h].1[p][i])) by {
            if h < g.len() - 1 {
                assert(g0[h] == g[h]);
                assert(a.contains(single(g0[h].1[p][i])));
            } else {
                lemma_production_symbols(g.last().1, p, i);
            }
        }
    }
}

proof fn lemma_product_contains(a: Seq<Seq<char>>, b: Seq<Seq<char>>, x: Seq<char>, y: Seq<char>)
    requires
        a.contains(x),
        b.contains(y),
    ensures
        product(a, b).contains((x, y)),
    decreases a.len(),
{
    let rest = product(a.drop_last(), b);
    let last = b.map_values(|z: Seq<char>| (a.last(), z));
    let j = choose|j: int| 0 <= j < b.len() && b[j] == y;
    if a.last() == x {
        assert((rest + last)[rest.len() + j] == (x, y));
    } else {
        let i = choose|i: int| 0 <= i < a.len() && a[i] == x;
        assert(a.drop_last()[i] == x);
        lemma_product_contains(a.drop_last(), b, x, y);
        let k = choose|k: int| 0 <= k < rest.len() && rest[k] == (x, y);
        assert((rest + last)[k] == (x, y));
    }
}

/// A list of distinct pairs made of elements of `syms` is no longer than
/// the list of all such pairs.
pub proof fn lemma_pair_list_bounded(syms: Seq<Seq<char>>, v: Seq<(String, String)>)
    requires
        pair_list_ok(v),
        within_symbols(syms, pair_set(v)),
    ensures
        v.len() <= product(syms, syms).len(),
{
    let u = product(syms, syms);
    let pv = pairs_view(v);
    assert forall|p: (Seq<char>, Seq<char>)| pv.to_set().contains(p) implies u.to_set().contains(p) by {
        lemma_product_contains(syms, syms, p.0, p.1);
    }
    pv.unique_seq_to_set();
    u.lemma_cardinality_of_set();
    vstd::set_lib::lemma_len_subset(pv.to_set(), u.to_set());
}

} // verus!

verus! {

/// Pushing a string onto a list adds its view to the set of views.
pub proof fn lemma_strs_push(v: Seq<String>, x: String)
    ensures
        strs_view(v.push(x)).to_set() == strs_view(v).to_set().insert(x@),
{
    let a = strs_view(v);
    let b = strs_view(v.push(x));
    assert(b =~= a.push(x@));
    assert forall|y: Seq<char>| b.to_set().contains(y) <==> a.to_set().insert(x@).contains(y) by {
        if b.contains(y) {
            let j = choose|j: int| 0 <= j < b.len() && b[j] == y;
            if j < a.len() {
                assert(a[j] == y);
            }
        }
        if a.contains(y) {
            let j = choose|j: int| 0 <= j < a.len() && a[j] == y;
            assert(b[j] == y);
        }
        if y == x@ {
            assert(b[a.len() as int] == y);
        }
    }
    assert(b.to_set() =~= a.to_set().insert(x@));
}

} // verus!

verus! {

/// Appends to `acc` every string of `items` other than `skip`.
pub fn append_except(acc: &mut Vec<String>, items: &Vec<String>, skip: &str)
    ensures
        strs_view(final(acc)@).to_set() == strs_view(old(acc)@).to_set().union(
            strs_view(items@).to_set().remove(skip@),
        ),
{
    let ghost before = strs_view(acc@).to_set();
    let mut j: usize = 0;
    while j < items.len()
        invariant
            j <= items@.len(),
            strs_view(acc@).to_set() == before.union(strs_view(items@).take(j as int).to_set().remove(skip@)),
        decreases items@.len() - j,
    {
        proof {
            lemma_take_to_set(strs_view(items@), j as int);
        }
        if !str_equal(items[j].as_str(), skip) {
            let ghost a0 = acc@;
            acc.push(items[j].clone());
            proof {
                lemma_strs_push(a0, items@[j as int]);
            }
        }
        j = j + 1;
        assert(strs_view(acc@).to_set() =~= before.union(strs_view(items@).take(j as int).to_set().remove(skip@)));
    }
    assert(strs_view(items@).take(j as int) =~= strs_view(items@));
}

/// Appends every string of `items` to `acc`.
pub fn append_all(acc: &mut Vec<String>, items: &Vec<String>)
    ensures
        strs_view(final(acc)@).to_set() == strs_view(old(acc)@).to_set().union(strs_view(items@).to_set()),
{
    let ghost before = strs_view(acc@).to_set();
    let mut j: usize = 0;
    while j < items.len()
        invariant
            j <= items@.len(),
            strs_view(acc@).to_set() == before.union(strs_view(items@).take(j as int).to_set()),
        decreases items@.len() - j,
    {
        proof {
            lemma_take_to_set(strs_view(items@), j as int);
        }
        let ghost a0 = acc@;
        acc.push(items[j].clone());
        proof {
            lemma_strs_push(a0, items@[j as int]);
        }
        j = j + 1;
        assert(strs_view(acc@).to_set() =~= before.union(strs_view(items@).take(j as int).to_set()));
    }
    assert(strs_view(items@).take(j as int) =~= strs_view(items@));
}

/// The first `j + 1` elements hold those of the first `j` and element `j`.
pub proof fn lemma_take_to_set(s: Seq<Seq<char>>, j: int)
    requires
        0 <= j < s.len(),
    ensures
        s.take(j + 1).to_set() == s.take(j).to_set().insert(s[j]),
{
    assert(s.take(j + 1) =~= s.take(j).push(s[j]));
    assert forall|y: Seq<char>| s.take(j + 1).to_set().contains(y) <==> s.take(j).to_set().insert(s[j]).contains(y) by {
        if s.take(j + 1).contains(y) {
            let t = choose|t: int| 0 <= t < j + 1 && #[trigger] s.take(j + 1)[t] == y;
            if t < j {
                assert(s.take(j)[t] == y);
            }
        }
        if s.take(j).contains(y) {
            let t = choose|t: int| 0 <= t < j && #[trigger] s.take(j)[t] == y;
            assert(s.take(j + 1)[t] == y);
        }
        if y == s[j] {
            assert(s.take(j + 1)[j] == y);
        }
    }
    assert(s.take(j + 1).to_set() =~= s.take(j).to_set().insert(s[j]));
}

} // verus!

verus! {

/// A list without repeats whose elements all occur in `u` is no longer
/// than `u`.
pub proof fn lemma_no_dup_bounded<A>(v: Seq<A>, u: Seq<A>)
    requires
        v.no_duplicates(),
        forall|x: A| #[trigger] v.contains(x) ==> u.contains(x),
    ensures
        v.len() <= u.len(),
{
    assert(v.to_set().subset_of(u.to_set()));
    v.unique_seq_to_set();
    u.lemma_cardinality_of_set();
    vstd::set_lib::lemma_len_subset(v.to_set(), u.to_set());
}

/// With distinct names, the productions of the nonterminal of entry `h` are
/// that entry's.
pub proof fn lemma_productions_of(g: GrammarView, h: int)
    requires
        distinct_keys(g),
        0 <= h < g.len(),
    ensures
        is_key(g, g[h].0),
        productions_of(g, g[h].0) == g[h].1,
{
    assert(is_key(g, g[h].0));
    let c = key_position(g, g[h].0);
    if c != h {
        if c < h {
            assert(g[c].0 != g[h].0);
        } else {
            assert(g[h].0 != g[c].0);
        }
    }
}

} // verus!

verus! {

/// Pushing an element adds it to the set of a sequence's elements.
pub proof fn lemma_push_to_set<A>(s: Seq<A>, x: A)
    ensures
        s.push(x).to_set() == s.to_set().insert(x),
{
    assert forall|y: A| s.push(x).to_set().contains(y) <==> s.to_set().insert(x).contains(y) by {
        if s.push(x).contains(y) {
            let j = choose|j: int| 0 <= j < s.push(x).len() && s.push(x)[j] == y;
            if j < s.len() {
                assert(s[j] == y);
            }
        }
        if s.contains(y) {
            let j = choose|j: int| 0 <= j < s.len() && s[j] == y;
            assert(s.push(x)[j] == y);
        }
        if y == x {
            assert(s.push(x)[s.len() as int] == y);
        }
    }
    assert(s.push(x).to_set() =~= s.to_set().insert(x));
}

} // verus!
