//! Two rewritings of a grammar: removal of immediate left recursion, and
//! left factoring on the first symbol.
//!
//! Both build a new grammar entry by entry, in the order of the old one.
//! Adding a production to a nonterminal appends it to that nonterminal's
//! list, creating the entry at the end when there is none yet.
use vstd::prelude::*;
use crate::text::{chars_of, char_string, string_of_range, str_equal, push_char, push_str};
use crate::grammar::{GrammarView, strs_view, grammar_view, distinct_keys, is_key, key_position, epsilon, key_index};

verus! {

/// `st` with production `p` added to nonterminal `k`.
pub open spec fn push_prod(st: GrammarView, k: Seq<char>, p: Seq<char>) -> GrammarView {
    if is_key(st, k) {
        st.update(key_position(st, k), (k, st[key_position(st, k)].1.push(p)))
    } else {
        st.push((k, seq![p]))
    }
}

/// `st` with the productions of `k` set to `ps`.
pub open spec fn set_prods(st: GrammarView, k: Seq<char>, ps: Seq<Seq<char>>) -> GrammarView {
    if is_key(st, k) {
        st.update(key_position(st, k), (k, ps))
    } else {
        st.push((k, ps))
    }
}

proof fn lemma_key_position(st: GrammarView, h: int)
    requires
        distinct_keys(st),
        0 <= h < st.len(),
    ensures
        is_key(st, st[h].0),
        key_position(st, st[h].0) == h,
{
    assert(is_key(st, st[h].0));
    let c = key_position(st, st[h].0);
    if c != h {
        if c < h {
            assert(st[c].0 != st[h].0);
        } else {
            assert(st[h].0 != st[c].0);
        }
    }
}

/// A copy of a list of strings.
fn copy_strs(v: &Vec<String>) -> (r: Vec<String>)
    ensures
        r@ == v@,
{
    let mut r: Vec<String> = Vec::new();
    let mut i: usize = 0;
    while i < v.len()
        invariant
            i <= v@.len(),
            r@ == v@.take(i as int),
        decreases v@.len() - i,
    {
        r.push(v[i].clone());
        i = i + 1;
        assert(r@ =~= v@.take(i as int));
    }
    assert(v@.take(i as int) =~= v@);
    r
}

/// Adds production `p` to nonterminal `k`.
fn add_production(st: &mut Vec<(String, Vec<String>)>, k: &str, p: String)
    requires
        distinct_keys(grammar_view(old(st)@)),
    ensures
        distinct_keys(grammar_view(final(st)@)),
        grammar_view(final(st)@) == push_prod(grammar_view(old(st)@), k@, p@),
{
    let ghost g0 = grammar_view(st@);
    match key_index(st, k) {
        Some(h) => {
            proof {
                lemma_key_position(g0, h as int);
            }
            let mut ps = copy_strs(&st[h].1);
            let ghost pv = p@;
            ps.push(p);
            let key = st[h].0.clone();
            st.set(h, (key, ps));
            assert(strs_view(st@[h as int].1@) =~= g0[h as int].1.push(pv));
            assert(grammar_view(st@) =~= push_prod(g0, k@, pv));
        }
        None => {
            let ghost pv = p@;
            let ps: Vec<String> = vec![p];
            assert(strs_view(ps@) =~= seq![pv]);
            st.push((k.to_owned(), ps));
            assert(grammar_view(st@) =~= push_prod(g0, k@, pv));
        }
    }
}

/// Sets the productions of nonterminal `k` to `ps`.
fn set_productions(st: &mut Vec<(String, Vec<String>)>, k: &str, ps: Vec<String>)
    requires
        distinct_keys(grammar_view(old(st)@)),
    ensures
        distinct_keys(grammar_view(final(st)@)),
        grammar_view(final(st)@) == set_prods(grammar_view(old(st)@), k@, strs_view(ps@)),
{
    let ghost g0 = grammar_view(st@);
    let ghost pv = strs_view(ps@);
    match key_index(st, k) {
        Some(h) => {
            proof {
                lemma_key_position(g0, h as int);
            }
            st.set(h, (k.to_owned(), ps));
            assert(grammar_view(st@) =~= set_prods(g0, k@, pv));
        }
        None => {
            st.push((k.to_owned(), ps));
            assert(grammar_view(st@) =~= set_prods(g0, k@, pv));
        }
    }
}

// ------------------------------------------------ left recursion

/// `s` with a quote appended: the name of the new nonterminal.
pub open spec fn primed(s: Seq<char>) -> Seq<char> {
    s.push('\'')
}

/// Adds `β A'` to `A` for each production `β` of `prods` that does not
/// begin with `A`.
pub open spec fn add_betas(st: GrammarView, nt: Seq<char>, prods: Seq<Seq<char>>) -> GrammarView
    decreases prods.len(),
{
    if prods.len() == 0 {
        st
    } else {
        let st1 = add_betas(st, nt, prods.drop_last());
        let p = prods.last();
        if nt.is_prefix_of(p) { st1 } else { push_prod(st1, nt, p + primed(nt)) }
    }
}

/// Adds `α A'` to `A'` for each production `A α` of `prods`.
pub open spec fn add_alphas(st: GrammarView, nt: Seq<char>, prods: Seq<Seq<char>>) -> GrammarView
    decreases prods.len(),
{
    if prods.len() == 0 {
        st
    } else {
        let st1 = add_alphas(st, nt, prods.drop_last());
        let p = prods.last();
        if nt.is_prefix_of(p) { push_prod(st1, primed(nt), p.subrange(nt.len() as int, p.len() as int) + primed(nt)) } else { st1 }
    }
}

/// Whether some production of `prods` begins with `nt`.
pub open spec fn has_left_recursion(nt: Seq<char>, prods: Seq<Seq<char>>) -> bool {
    exists|k: int| 0 <= k < prods.len() && nt.is_prefix_of(#[trigger] prods[k])
}

/// The new grammar after the entry `nt -> prods`: unchanged productions when
/// none begins with `nt`; otherwise `A -> β A'` for each other production
/// `β`, then `A' -> α A'` for each `A α`, then `A' -> ε`.
pub open spec fn eliminate_entry(st: GrammarView, nt: Seq<char>, prods: Seq<Seq<char>>) -> GrammarView {
    if !has_left_recursion(nt, prods) {
        set_prods(st, nt, prods)
    } else {
        push_prod(add_alphas(add_betas(st, nt, prods), nt, prods), primed(nt), epsilon())
    }
}

/// The new grammar after the first `n` entries of `g`.
pub open spec fn eliminated(g: GrammarView, n: int) -> GrammarView
    decreases n,
{
    if n <= 0 {
        Seq::empty()
    } else {
        eliminate_entry(eliminated(g, n - 1), g[n - 1].0, g[n - 1].1)
    }
}

/// Whether `p` begins with `nt`.
fn starts_with(p: &Vec<char>, nt: &Vec<char>) -> (r: bool)
    ensures
        r == nt@.is_prefix_of(p@),
{
    if nt.len() > p.len() {
        return false;
    }
    let mut i: usize = 0;
    while i < nt.len()
        invariant
            nt@.len() <= p@.len(),
            i <= nt@.len(),
            forall|j: int| 0 <= j < i ==> nt@[j] == p@[j],
        decreases nt@.len() - i,
    {
        if nt[i] != p[i] {
            return false;
        }
        i = i + 1;
    }
    assert(nt@ =~= p@.subrange(0, nt@.len() as int));
    true
}

/// Removes immediate left recursion from every entry of `g`.
pub fn eliminate_left_recursion_of(g: &Vec<(String, Vec<String>)>) -> (r: Vec<(String, Vec<String>)>)
    ensures
        distinct_keys(grammar_view(r@)),
        grammar_view(r@) == eliminated(grammar_view(g@), g@.len() as int),
{
    let ghost gv = grammar_view(g@);
    let mut out: Vec<(String, Vec<String>)> = Vec::new();
    assert(grammar_view(out@) =~= eliminated(gv, 0));
    let mut h: usize = 0;
    while h < g.len()
        invariant
            gv == grammar_view(g@),
            h <= gv.len(),
            distinct_keys(grammar_view(out@)),
            grammar_view(out@) == eliminated(gv, h as int),
        decreases gv.len() - h,
    {
        let ntc = chars_of(g[h].0.as_str());
        let prods = &g[h].1;
        let ghost nt = gv[h as int].0;
        let ghost pv = gv[h as int].1;
        let mut prime = g[h].0.clone();
        push_char(&mut prime, '\'');
        let mut any = false;
        let mut k: usize = 0;
        while k < prods.len()
            invariant
                gv == grammar_view(g@),
                h < gv.len(),
                prods@ == g@[h as int].1@,
                nt == gv[h as int].0,
                pv == gv[h as int].1,
                ntc@ == nt,
                k <= pv.len(),
                any == exists|k2: int| 0 <= k2 < k && nt.is_prefix_of(#[trigger] pv[k2]),
            decreases pv.len() - k,
        {
            let pc = chars_of(prods[k].as_str());
            assert(pc@ == pv[k as int]);
            if starts_with(&pc, &ntc) {
                any = true;
            }
            proof {
                if nt.is_prefix_of(pv[k as int]) {
                    assert(exists|k2: int| 0 <= k2 < k + 1 && nt.is_prefix_of(#[trigger] pv[k2]));
                }
                if exists|k2: int| 0 <= k2 < k + 1 && nt.is_prefix_of(#[trigger] pv[k2]) {
                    let k2 = choose|k2: int| 0 <= k2 < k + 1 && nt.is_prefix_of(#[trigger] pv[k2]);
                    if k2 < k {
                        assert(exists|k3: int| 0 <= k3 < k && nt.is_prefix_of(#[trigger] pv[k3]));
                    }
                }
            }
            k = k + 1;
        }
        let ghost base = grammar_view(out@);
        if !any {
            let copy = copy_strs(prods);
            set_productions(&mut out, g[h].0.as_str(), copy);
            assert(strs_view(copy@) == pv);
        } else {
            let mut k: usize = 0;
            while k < prods.len()
                invariant
                    gv == grammar_view(g@),
                    h < gv.len(),
                    prods@ == g@[h as int].1@,
                    nt == gv[h as int].0,
                    pv == gv[h as int].1,
                    ntc@ == nt,
                    prime@ == primed(nt),
                    k <= pv.len(),
                    distinct_keys(grammar_view(out@)),
                    grammar_view(out@) == add_betas(base, nt, pv.take(k as int)),
                decreases pv.len() - k,
            {
                let pc = chars_of(prods[k].as_str());
                assert(pv.take(k + 1).drop_last() =~= pv.take(k as int));
                if !starts_with(&pc, &ntc) {
                    let mut np = prods[k].clone();
                    push_str(&mut np, prime.as_str());
                    add_production(&mut out, g[h].0.as_str(), np);
                }
                k = k + 1;
            }
            assert(pv.take(k as int) =~= pv);
            let ghost mid = grammar_view(out@);
            let mut k: usize = 0;
            while k < prods.len()
                invariant
                    gv == grammar_view(g@),
                    h < gv.len(),
                    prods@ == g@[h as int].1@,
                    nt == gv[h as int].0,
                    pv == gv[h as int].1,
                    ntc@ == nt,
                    prime@ == primed(nt),
                    k <= pv.len(),
                    distinct_keys(grammar_view(out@)),
                    grammar_view(out@) == add_alphas(mid, nt, pv.take(k as int)),
                decreases pv.len() - k,
            {
                let pc = chars_of(prods[k].as_str());
                assert(pv.take(k + 1).drop_last() =~= pv.take(k as int));
                if starts_with(&pc, &ntc) {
                    let rest = string_of_range(&pc, ntc.len(), pc.len());
                    let mut np = rest;
                    push_str(&mut np, prime.as_str());
                    add_production(&mut out, prime.as_str(), np);
                }
                k = k + 1;
            }
            assert(pv.take(k as int) =~= pv);
            let eps = char_string('ε');
            add_production(&mut out, prime.as_str(), eps);
        }
        h = h + 1;
    }
    out
}

// ---------------------------------------------------- left factoring

/// The symbol on which production `p` is grouped: `'ε'` for the empty
/// production, its first character otherwise.
pub open spec fn prefix_char(p: Seq<char>) -> char {
    if p == epsilon() { 'ε' } else { p[0] }
}

/// Productions grouped by their first symbol, groups in order of first
/// appearance.
pub type Groups = Seq<(char, Seq<Seq<char>>)>;

/// The position of a group of `c` in `gr`, when there is one.
pub open spec fn group_position(gr: Groups, c: char) -> int {
    choose|i: int| 0 <= i < gr.len() && #[trigger] gr[i].0 == c
}

/// `gr` with production `p` added to the group of `c`.
pub open spec fn add_to_group(gr: Groups, c: char, p: Seq<char>) -> Groups {
    if exists|i: int| 0 <= i < gr.len() && #[trigger] gr[i].0 == c {
        let i = group_position(gr, c);
        gr.update(i, (c, gr[i].1.push(p)))
    } else {
        gr.push((c, seq![p]))
    }
}

/// The productions `prods` grouped by first symbol.
pub open spec fn grouped(prods: Seq<Seq<char>>) -> Groups
    decreases prods.len(),
{
    if prods.len() == 0 {
        Seq::empty()
    } else {
        add_to_group(grouped(prods.drop_last()), prefix_char(prods.last()), prods.last())
    }
}

/// What is left of production `p` after its first symbol: `"ε"` when
/// nothing is.
pub open spec fn remainder(p: Seq<char>) -> Seq<char> {
    if p.len() > 1 { p.subrange(1, p.len() as int) } else { epsilon() }
}

/// `s` with two quotes appended: the name of the factored-out nonterminal.
pub open spec fn double_primed(s: Seq<char>) -> Seq<char> {
    s.push('\'').push('\'')
}

/// `st` with each production of `ps`, in order, added to `k`.
pub open spec fn push_all(st: GrammarView, k: Seq<char>, ps: Seq<Seq<char>>) -> GrammarView
    decreases ps.len(),
{
    if ps.len() == 0 { st } else { push_prod(push_all(st, k, ps.drop_last()), k, ps.last()) }
}

/// `st` with the remainder of each production of `ps`, in order, added to `k`.
pub open spec fn push_remainders(st: GrammarView, k: Seq<char>, ps: Seq<Seq<char>>) -> GrammarView
    decreases ps.len(),
{
    if ps.len() == 0 { st } else { push_prod(push_remainders(st, k, ps.drop_last()), k, remainder(ps.last())) }
}

/// The new grammar after the first `n` groups of the entry `nt`: a group of
/// several productions becomes `A -> c A''` with the remainders under
/// `A''`; a group of one is kept.
pub open spec fn factor_groups(st: GrammarView, nt: Seq<char>, gr: Groups, n: int) -> GrammarView
    decreases n,
{
    if n <= 0 {
        st
    } else {
        let prev = factor_groups(st, nt, gr, n - 1);
        let c = gr[n - 1].0;
        let ps = gr[n - 1].1;
        if ps.len() > 1 {
            push_remainders(push_prod(prev, nt, seq![c] + double_primed(nt)), double_primed(nt), ps)
        } else {
            push_all(prev, nt, ps)
        }
    }
}

/// The left-factored grammar after the first `n` entries of `g`.
pub open spec fn factored(g: GrammarView, n: int) -> GrammarView
    decreases n,
{
    if n <= 0 {
        Seq::empty()
    } else {
        let gr = grouped(g[n - 1].1);
        factor_groups(factored(g, n - 1), g[n - 1].0, gr, gr.len() as int)
    }
}

/// Left factoring is defined on `g`: no production is empty, and every
/// group of several productions begins with an ASCII character, whose
/// remainder starts one byte in.
pub open spec fn factor_safe(g: GrammarView) -> bool {
    forall|h: int| 0 <= h < g.len() ==> prods_factor_safe(#[trigger] g[h].1)
}

/// Left factoring is defined on the productions `prods` of one entry.
pub open spec fn prods_factor_safe(prods: Seq<Seq<char>>) -> bool {
    &&& forall|k: int| 0 <= k < prods.len() ==> #[trigger] prods[k].len() > 0
    &&& forall|i: int| 0 <= i < grouped(prods).len() && #[trigger] grouped(prods)[i].1.len() > 1
        ==> (grouped(prods)[i].0 as u32) < 128
}

/// No two groups have the same first symbol.
proof fn lemma_grouped_distinct(prods: Seq<Seq<char>>)
    ensures
        forall|i: int, j: int| 0 <= i < j < grouped(prods).len() ==> grouped(prods)[i].0 != grouped(prods)[j].0,
    decreases prods.len(),
{
    if prods.len() > 0 {
        lemma_grouped_distinct(prods.drop_last());
        let gr = grouped(prods.drop_last());
        let c = prefix_char(prods.last());
        if exists|i: int| 0 <= i < gr.len() && #[trigger] gr[i].0 == c {
            let i = group_position(gr, c);
            let r = gr.update(i, (c, gr[i].1.push(prods.last())));
            assert(grouped(prods) == r);
            assert forall|a: int, b: int| 0 <= a < b < r.len() implies r[a].0 != r[b].0 by {
                assert(r[a].0 == gr[a].0 && r[b].0 == gr[b].0);
            }
        } else {
            let r = gr.push((c, seq![prods.last()]));
            assert(grouped(prods) == r);
            assert forall|a: int, b: int| 0 <= a < b < r.len() implies r[a].0 != r[b].0 by {
                if b == gr.len() {
                    assert(gr[a].0 != c);
                } else {
                    assert(r[a].0 == gr[a].0 && r[b].0 == gr[b].0);
                }
            }
        }
    }
}

/// The groups of productions by first symbol, for productions `prods`.
fn group_productions(prods: &Vec<String>) -> (r: Vec<(char, Vec<String>)>)
    requires
        forall|k: int| 0 <= k < prods@.len() ==> (#[trigger] prods@[k])@.len() > 0,
    ensures
        r@.map_values(|e: (char, Vec<String>)| (e.0, strs_view(e.1@))) == grouped(strs_view(prods@)),
{
    let eps = char_string('ε');
    let ghost pv = strs_view(prods@);
    let mut gr: Vec<(char, Vec<String>)> = Vec::new();
    let mut k: usize = 0;
    assert(gr@.map_values(|e: (char, Vec<String>)| (e.0, strs_view(e.1@))) =~= grouped(pv.take(0)));
    while k < prods.len()
        invariant
            pv == strs_view(prods@),
            eps@ == epsilon(),
            k <= pv.len(),
            forall|k2: int| 0 <= k2 < prods@.len() ==> (#[trigger] prods@[k2])@.len() > 0,
            gr@.map_values(|e: (char, Vec<String>)| (e.0, strs_view(e.1@))) == grouped(pv.take(k as int)),
        decreases pv.len() - k,
    {
        let ghost gv0 = gr@.map_values(|e: (char, Vec<String>)| (e.0, strs_view(e.1@)));
        assert(pv.take(k + 1).drop_last() =~= pv.take(k as int));
        assert(pv.take(k + 1).last() == pv[k as int]);
        let pc = chars_of(prods[k].as_str());
        assert(pc@.len() > 0);
        let c = if str_equal(prods[k].as_str(), eps.as_str()) { 'ε' } else { pc[0] };
        assert(c == prefix_char(pv[k as int]));
        let mut i: usize = 0;
        let mut found = false;
        while i < gr.len()
            invariant
                gv0 == gr@.map_values(|e: (char, Vec<String>)| (e.0, strs_view(e.1@))),
                i <= gr@.len(),
                forall|j: int| 0 <= j < i ==> gv0[j].0 != c,
            ensures
                i <= gr@.len(),
                i < gr@.len() ==> gv0[i as int].0 == c,
                forall|j: int| 0 <= j < i ==> gv0[j].0 != c,
            decreases gr@.len() - i,
        {
            if gr[i].0 == c {
                break;
            }
            i = i + 1;
        }
        if i < gr.len() {
            assert(gv0[i as int].0 == c);
            let ghost ci = group_position(gv0, c);
            let mut members = copy_strs(&gr[i].1);
            members.push(prods[k].clone());
            assert(strs_view(members@) =~= gv0[i as int].1.push(pv[k as int]));
            gr.set(i, (c, members));
            proof {
                lemma_grouped_distinct(pv.take(k as int));
                if ci != i {
                    if ci < i {
                        assert(gv0[ci].0 != gv0[i as int].0);
                    } else {
                        assert(gv0[i as int].0 != gv0[ci].0);
                    }
                }
            }
            assert(gr@.map_values(|e: (char, Vec<String>)| (e.0, strs_view(e.1@))) =~= add_to_group(gv0, c, pv[k as int]));
        } else {
            let members: Vec<String> = vec![prods[k].clone()];
            assert(strs_view(members@) =~= seq![pv[k as int]]);
            gr.push((c, members));
            assert(gr@.map_values(|e: (char, Vec<String>)| (e.0, strs_view(e.1@))) =~= add_to_group(gv0, c, pv[k as int]));
        }
        k = k + 1;
    }
    assert(pv.take(k as int) =~= pv);
    gr
}

/// Left-factors every entry of `g` on the first symbol.
pub fn left_factor_of(g: &Vec<(String, Vec<String>)>) -> (r: Vec<(String, Vec<String>)>)
    requires
        factor_safe(grammar_view(g@)),
    ensures
        distinct_keys(grammar_view(r@)),
        grammar_view(r@) == factored(grammar_view(g@), g@.len() as int),
{
    let ghost gv = grammar_view(g@);
    let mut out: Vec<(String, Vec<String>)> = Vec::new();
    assert(grammar_view(out@) =~= factored(gv, 0));
    let mut h: usize = 0;
    while h < g.len()
        invariant
            gv == grammar_view(g@),
            factor_safe(gv),
            h <= gv.len(),
            distinct_keys(grammar_view(out@)),
            grammar_view(out@) == factored(gv, h as int),
        decreases gv.len() - h,
    {
        assert(prods_factor_safe(gv[h as int].1));
        assert forall|k: int| 0 <= k < g@[h as int].1@.len() implies (#[trigger] g@[h as int].1@[k])@.len() > 0 by {
            assert(gv[h as int].1[k].len() > 0);
        }
        let groups = group_productions(&g[h].1);
        let ghost nt = gv[h as int].0;
        let ghost gr = grouped(gv[h as int].1);
        assert(strs_view(g@[h as int].1@) == gv[h as int].1);
        let mut prime2 = g[h].0.clone();
        push_char(&mut prime2, '\'');
        push_char(&mut prime2, '\'');
        let eps = char_string('ε');
        let ghost base = grammar_view(out@);
        let mut i: usize = 0;
        while i < groups.len()
            invariant
                gv == grammar_view(g@),
                factor_safe(gv),
                h < gv.len(),
                nt == gv[h as int].0,
                nt == g@[h as int].0@,
                gr == grouped(gv[h as int].1),
                groups@.map_values(|e: (char, Vec<String>)| (e.0, strs_view(e.1@))) == gr,
                prime2@ == double_primed(nt),
                eps@ == epsilon(),
                i <= gr.len(),
                distinct_keys(grammar_view(out@)),
                grammar_view(out@) == factor_groups(base, nt, gr, i as int),
                base == factored(gv, h as int),
            decreases gr.len() - i,
        {
            let c = groups[i].0;
            let members = &groups[i].1;
            let ghost ms = gr[i as int].1;
            assert(strs_view(members@) == ms);
            if members.len() > 1 {
                let mut head = char_string(c);
                push_str(&mut head, prime2.as_str());
                add_production(&mut out, g[h].0.as_str(), head);
                let ghost mid = grammar_view(out@);
                let mut j: usize = 0;
                while j < members.len()
                    invariant
                        strs_view(members@) == ms,
                        j <= ms.len(),
                        prime2@ == double_primed(nt),
                        eps@ == epsilon(),
                        distinct_keys(grammar_view(out@)),
                        grammar_view(out@) == push_remainders(mid, double_primed(nt), ms.take(j as int)),
                    decreases ms.len() - j,
                {
                    assert(ms.take(j + 1).drop_last() =~= ms.take(j as int));
                    let pc = chars_of(members[j].as_str());
                    let rem = if pc.len() > 1 { string_of_range(&pc, 1, pc.len()) } else { eps.clone() };
                    add_production(&mut out, prime2.as_str(), rem);
                    j = j + 1;
                }
                assert(ms.take(j as int) =~= ms);
            } else {
                let ghost mid = grammar_view(out@);
                let mut j: usize = 0;
                while j < members.len()
                    invariant
                        strs_view(members@) == ms,
                        j <= ms.len(),
                        nt == g@[h as int].0@,
                        h < g@.len(),
                        distinct_keys(grammar_view(out@)),
                        grammar_view(out@) == push_all(mid, nt, ms.take(j as int)),
                    decreases ms.len() - j,
                {
                    assert(ms.take(j + 1).drop_last() =~= ms.take(j as int));
                    add_production(&mut out, g[h].0.as_str(), members[j].clone());
                    j = j + 1;
                }
                assert(ms.take(j as int) =~= ms);
            }
            i = i + 1;
        }
        h = h + 1;
    }
    out
}

/// A grammar and the rewritings applied to it.
pub struct GrammarTransformer {
    pub grammar: Vec<(String, Vec<String>)>,
}

impl GrammarTransformer {
    /// Holds `grammar`.
    pub fn new(grammar: Vec<(String, Vec<String>)>) -> (r: Self)
        ensures
            r.grammar == grammar,
    {
        GrammarTransformer { grammar }
    }

    /// Replaces the grammar by one without immediate left recursion.
    pub fn eliminate_left_recursion(&mut self)
        ensures
            grammar_view(final(self).grammar@) == eliminated(grammar_view(old(self).grammar@), old(self).grammar@.len() as int),
            distinct_keys(grammar_view(final(self).grammar@)),
    {
        self.grammar = eliminate_left_recursion_of(&self.grammar);
    }

    /// Replaces the grammar by its left-factored form.
    pub fn left_factor(&mut self)
        requires
            factor_safe(grammar_view(old(self).grammar@)),
        ensures
            grammar_view(final(self).grammar@) == factored(grammar_view(old(self).grammar@), old(self).grammar@.len() as int),
            distinct_keys(grammar_view(final(self).grammar@)),
    {
        self.grammar = left_factor_of(&self.grammar);
    }
}

} // verus!

verus! {

/// No production of a one-character nonterminal of `st` begins with that
/// nonterminal.
pub open spec fn no_left_recursion(st: GrammarView) -> bool {
    forall|i: int, j: int| 0 <= i < st.len() && st[i].0.len() == 1 && 0 <= j < st[i].1.len()
        ==> !st[i].0.is_prefix_of(#[trigger] st[i].1[j])
}

/// Adding a production that does not begin with a one-character
/// nonterminal keeps `no_left_recursion`.
proof fn lemma_push_prod_no_lr(st: GrammarView, k: Seq<char>, p: Seq<char>)
    requires
        no_left_recursion(st),
        k.len() == 1 ==> !k.is_prefix_of(p),
    ensures
        no_left_recursion(push_prod(st, k, p)),
{
    let r = push_prod(st, k, p);
    if is_key(st, k) {
        let i0 = key_position(st, k);
        assert forall|i: int, j: int| 0 <= i < r.len() && r[i].0.len() == 1 && 0 <= j < r[i].1.len()
            implies !r[i].0.is_prefix_of(#[trigger] r[i].1[j]) by {
            if i == i0 && j == st[i0].1.len() {
                assert(r[i].1[j] == p);
            } else if i == i0 {
                assert(r[i].1[j] == st[i0].1[j]);
            }
        }
    } else {
        assert forall|i: int, j: int| 0 <= i < r.len() && r[i].0.len() == 1 && 0 <= j < r[i].1.len()
            implies !r[i].0.is_prefix_of(#[trigger] r[i].1[j]) by {
            if i < st.len() {
                assert(r[i] == st[i]);
            }
        }
    }
}

/// Setting the productions of a nonterminal to ones that do not begin with
/// it keeps `no_left_recursion`.
proof fn lemma_set_prods_no_lr(st: GrammarView, k: Seq<char>, ps: Seq<Seq<char>>)
    requires
        no_left_recursion(st),
        forall|j: int| 0 <= j < ps.len() ==> !k.is_prefix_of(#[trigger] ps[j]),
    ensures
        no_left_recursion(set_prods(st, k, ps)),
{
    let r = set_prods(st, k, ps);
    assert forall|i: int, j: int| 0 <= i < r.len() && r[i].0.len() == 1 && 0 <= j < r[i].1.len()
        implies !r[i].0.is_prefix_of(#[trigger] r[i].1[j]) by {
        if i < st.len() && r[i] != st[i] {
            assert(r[i] == (k, ps));
        }
    }
}

/// The `β A'` productions do not begin with `A` when `A` is one character
/// and no `β` is empty.
proof fn lemma_add_betas_no_lr(st: GrammarView, nt: Seq<char>, prods: Seq<Seq<char>>)
    requires
        no_left_recursion(st),
        nt.len() == 1,
        forall|j: int| 0 <= j < prods.len() ==> (#[trigger] prods[j]).len() > 0,
    ensures
        no_left_recursion(add_betas(st, nt, prods)),
    decreases prods.len(),
{
    if prods.len() > 0 {
        let init = prods.drop_last();
        assert forall|j: int| 0 <= j < init.len() implies (#[trigger] init[j]).len() > 0 by {
            assert(init[j] == prods[j]);
        }
        lemma_add_betas_no_lr(st, nt, init);
        let p = prods.last();
        assert(p == prods[prods.len() - 1]);
        if !nt.is_prefix_of(p) {
            let q = p + primed(nt);
            assert(p[0] != nt[0]) by {
                if p[0] == nt[0] {
                    assert(nt =~= p.subrange(0, 1));
                }
            }
            assert(q[0] == p[0]);
            assert(!nt.is_prefix_of(q));
            lemma_push_prod_no_lr(add_betas(st, nt, init), nt, q);
        }
    }
}

/// The `α A'` productions go to `A'`, which has two characters when `A`
/// has one.
proof fn lemma_add_alphas_no_lr(st: GrammarView, nt: Seq<char>, prods: Seq<Seq<char>>)
    requires
        no_left_recursion(st),
        nt.len() == 1,
    ensures
        no_left_recursion(add_alphas(st, nt, prods)),
    decreases prods.len(),
{
    if prods.len() > 0 {
        lemma_add_alphas_no_lr(st, nt, prods.drop_last());
        let p = prods.last();
        if nt.is_prefix_of(p) {
            lemma_push_prod_no_lr(add_alphas(st, nt, prods.drop_last()), primed(nt),
                p.subrange(nt.len() as int, p.len() as int) + primed(nt));
        }
    }
}

/// No left recursion is left behind: in a grammar whose nonterminals are
/// single characters and which has no empty production, after the removal
/// of left recursion no production of any of those nonterminals begins with
/// it. (The new nonterminals `A'` have two characters.)
pub proof fn law_no_immediate_left_recursion(g: GrammarView, n: int)
    requires
        0 <= n <= g.len(),
        forall|h: int| 0 <= h < g.len() ==> (#[trigger] g[h]).0.len() == 1,
        forall|h: int, k: int| 0 <= h < g.len() && 0 <= k < g[h].1.len() ==> (#[trigger] g[h].1[k]).len() > 0,
    ensures
        no_left_recursion(eliminated(g, n)),
    decreases n,
{
    if n > 0 {
        law_no_immediate_left_recursion(g, n - 1);
        let st = eliminated(g, n - 1);
        let nt = g[n - 1].0;
        let prods = g[n - 1].1;
        assert(nt.len() == 1);
        if !has_left_recursion(nt, prods) {
            assert forall|j: int| 0 <= j < prods.len() implies !nt.is_prefix_of(#[trigger] prods[j]) by {
                if nt.is_prefix_of(prods[j]) {
                    assert(has_left_recursion(nt, prods));
                }
            }
            lemma_set_prods_no_lr(st, nt, prods);
        } else {
            assert forall|j: int| 0 <= j < prods.len() implies (#[trigger] prods[j]).len() > 0 by {
                assert(g[n - 1].1[j] == prods[j]);
            }
            lemma_add_betas_no_lr(st, nt, prods);
            lemma_add_alphas_no_lr(add_betas(st, nt, prods), nt, prods);
            lemma_push_prod_no_lr(add_alphas(add_betas(st, nt, prods), nt, prods), primed(nt), epsilon());
        }
    }
}

} // verus!

verus! {

/// The symbols on which productions `ps` are grouped, in order.
pub open spec fn prefix_chars(ps: Seq<Seq<char>>) -> Seq<char> {
    ps.map_values(|p: Seq<char>| prefix_char(p))
}

/// The productions of every one-character nonterminal of `st` begin with
/// pairwise different symbols.
pub open spec fn distinct_prefixes(st: GrammarView) -> bool {
    forall|i: int| 0 <= i < st.len() && (#[trigger] st[i]).0.len() == 1 ==> prefix_chars(st[i].1).no_duplicates()
}

/// `r` keeps the one-character entries of `st` where they were, keeps the
/// names of all entries of `st`, and adds no one-character entry.
pub open spec fn keeps_one_char(st: GrammarView, r: GrammarView) -> bool {
    &&& st.len() <= r.len()
    &&& forall|i: int| 0 <= i < st.len() ==> (#[trigger] r[i]).0 == st[i].0
    &&& forall|i: int| 0 <= i < st.len() && (#[trigger] st[i]).0.len() == 1 ==> r[i] == st[i]
    &&& forall|i: int| 0 <= i < r.len() && (#[trigger] r[i]).0.len() == 1 ==> i < st.len()
}

/// What adding a production does to the entries.
proof fn lemma_push_prod_shape(st: GrammarView, k: Seq<char>, p: Seq<char>)
    requires
        distinct_keys(st),
    ensures
        ({
            let r = push_prod(st, k, p);
            &&& distinct_keys(r)
            &&& st.len() <= r.len() <= st.len() + 1
            &&& forall|i: int| 0 <= i < st.len() ==> (#[trigger] r[i]).0 == st[i].0
            &&& forall|i: int| 0 <= i < st.len() && st[i].0 != k ==> #[trigger] r[i] == st[i]
            &&& forall|i: int| 0 <= i < st.len() && st[i].0 == k ==> (#[trigger] r[i]).1 == st[i].1.push(p)
            &&& r.len() == st.len() + 1 ==> !is_key(st, k) && r[st.len() as int] == (k, seq![p])
            &&& is_key(r, k)
        }),
{
    let r = push_prod(st, k, p);
    if is_key(st, k) {
        let i0 = key_position(st, k);
        assert forall|i: int| 0 <= i < st.len() && st[i].0 == k implies i == i0 by {
            if i < i0 {
                assert(st[i].0 != st[i0].0);
            } else if i > i0 {
                assert(st[i0].0 != st[i].0);
            }
        }
        assert(r[i0].0 == k);
        assert forall|a: int, b: int| 0 <= a < b < r.len() implies r[a].0 != r[b].0 by {
            assert(r[a].0 == st[a].0 && r[b].0 == st[b].0);
        }
    } else {
        assert(r[st.len() as int].0 == k);
        assert forall|a: int, b: int| 0 <= a < b < r.len() implies r[a].0 != r[b].0 by {
            if b == st.len() {
                assert(st[a].0 != k);
            } else {
                assert(r[a] == st[a] && r[b] == st[b]);
            }
        }
    }
}

/// Adding a production to a nonterminal whose name is not one character
/// keeps the one-character entries.
proof fn lemma_push_other(st: GrammarView, k: Seq<char>, p: Seq<char>)
    requires
        distinct_keys(st),
        k.len() != 1,
    ensures
        distinct_keys(push_prod(st, k, p)),
        keeps_one_char(st, push_prod(st, k, p)),
{
    lemma_push_prod_shape(st, k, p);
    let r = push_prod(st, k, p);
    assert forall|i: int| 0 <= i < r.len() && (#[trigger] r[i]).0.len() == 1 implies i < st.len() by {
        if i >= st.len() {
            assert(r[i] == (k, seq![p]));
        }
    }
}

proof fn lemma_keeps_trans(a: GrammarView, b: GrammarView, c: GrammarView)
    requires
        keeps_one_char(a, b),
        keeps_one_char(b, c),
    ensures
        keeps_one_char(a, c),
{
    assert forall|i: int| 0 <= i < a.len() implies (#[trigger] c[i]).0 == a[i].0 by {
        assert(b[i].0 == a[i].0);
    }
    assert forall|i: int| 0 <= i < a.len() && (#[trigger] a[i]).0.len() == 1 implies c[i] == a[i] by {
        assert(b[i] == a[i]);
    }
}

/// The remainders go to `A''`, which has three characters when `A` has
/// one.
proof fn lemma_push_remainders_keeps(st: GrammarView, k: Seq<char>, ps: Seq<Seq<char>>)
    requires
        distinct_keys(st),
        k.len() != 1,
    ensures
        distinct_keys(push_remainders(st, k, ps)),
        keeps_one_char(st, push_remainders(st, k, ps)),
    decreases ps.len(),
{
    if ps.len() == 0 {
        assert(keeps_one_char(st, st));
    } else {
        let prev = push_remainders(st, k, ps.drop_last());
        lemma_push_remainders_keeps(st, k, ps.drop_last());
        lemma_push_other(prev, k, remainder(ps.last()));
        lemma_keeps_trans(st, prev, push_remainders(st, k, ps));
    }
}

/// Every group is non-empty and its productions are grouped on its symbol.
proof fn lemma_grouped_members(prods: Seq<Seq<char>>)
    ensures
        forall|j: int| 0 <= j < grouped(prods).len() ==> (#[trigger] grouped(prods)[j]).1.len() > 0,
        forall|j: int, q: int| 0 <= j < grouped(prods).len() && 0 <= q < grouped(prods)[j].1.len()
            ==> prefix_char(#[trigger] grouped(prods)[j].1[q]) == grouped(prods)[j].0,
    decreases prods.len(),
{
    if prods.len() > 0 {
        lemma_grouped_members(prods.drop_last());
        let gr = grouped(prods.drop_last());
        let p = prods.last();
        let c = prefix_char(p);
        let r = grouped(prods);
        if exists|i: int| 0 <= i < gr.len() && #[trigger] gr[i].0 == c {
            let i0 = group_position(gr, c);
            assert(r == gr.update(i0, (c, gr[i0].1.push(p))));
            assert forall|j: int, q: int| 0 <= j < r.len() && 0 <= q < r[j].1.len()
                implies prefix_char(#[trigger] r[j].1[q]) == r[j].0 by {
                if j == i0 && q < gr[i0].1.len() {
                    assert(r[j].1[q] == gr[i0].1[q]);
                }
            }
        } else {
            assert(r == gr.push((c, seq![p])));
            assert forall|j: int, q: int| 0 <= j < r.len() && 0 <= q < r[j].1.len()
                implies prefix_char(#[trigger] r[j].1[q]) == r[j].0 by {
                if j < gr.len() {
                    assert(r[j] == gr[j]);
                }
            }
        }
    }
}

/// The symbols of the first `m` groups.
pub open spec fn group_chars(gr: Groups, m: int) -> Seq<char> {
    gr.take(m).map_values(|e: (char, Seq<Seq<char>>)| e.0)
}

/// After the first `m` groups of nonterminal `nt`, added to `st` where `nt`
/// had no entry: the other one-character entries are those of `st`, and the
/// productions of `nt` begin with the symbols of those groups, in order.
proof fn lemma_factor_groups(st: GrammarView, nt: Seq<char>, gr: Groups, m: int)
    requires
        distinct_keys(st),
        nt.len() == 1,
        !is_key(st, nt),
        0 <= m <= gr.len(),
        forall|j: int| 0 <= j < gr.len() ==> (#[trigger] gr[j]).1.len() > 0,
        forall|j: int, q: int| 0 <= j < gr.len() && 0 <= q < gr[j].1.len() ==> prefix_char(#[trigger] gr[j].1[q]) == gr[j].0,
    ensures
        ({
            let r = factor_groups(st, nt, gr, m);
            &&& distinct_keys(r)
            &&& st.len() <= r.len()
            &&& forall|i: int| 0 <= i < r.len() && (#[trigger] r[i]).0.len() == 1 && r[i].0 != nt ==> i < st.len() && r[i] == st[i]
            &&& forall|i: int| 0 <= i < r.len() && (#[trigger] r[i]).0 == nt ==> prefix_chars(r[i].1) == group_chars(gr, m)
            &&& is_key(r, nt) <==> m > 0
        }),
    decreases m,
{
    if m > 0 {
        lemma_factor_groups(st, nt, gr, m - 1);
        let prev = factor_groups(st, nt, gr, m - 1);
        let c = gr[m - 1].0;
        let ps = gr[m - 1].1;
        let r = factor_groups(st, nt, gr, m);
        let q = if ps.len() > 1 { seq![c] + double_primed(nt) } else { ps[0] };
        assert(prefix_char(q) == c) by {
            if ps.len() > 1 {
                assert(q.len() == 4);
                assert(q != epsilon());
                assert(q[0] == c);
            } else {
                assert(prefix_char(gr[m - 1].1[0]) == gr[m - 1].0);
            }
        }
        lemma_push_prod_shape(prev, nt, q);
        let mid = push_prod(prev, nt, q);
        assert(group_chars(gr, m) =~= group_chars(gr, m - 1).push(c));
        assert forall|i: int| 0 <= i < mid.len() && (#[trigger] mid[i]).0 == nt implies prefix_chars(mid[i].1) == group_chars(gr, m) by {
            if i < prev.len() {
                assert(prev[i].0 == nt);
                assert(prefix_chars(mid[i].1) =~= prefix_chars(prev[i].1).push(c));
            } else {
                assert(!is_key(prev, nt));
                assert(m - 1 == 0);
                assert(prefix_chars(mid[i].1) =~= seq![c]);
                assert(group_chars(gr, m) =~= seq![c]);
            }
        }
        assert forall|i: int| 0 <= i < mid.len() && (#[trigger] mid[i]).0.len() == 1 && mid[i].0 != nt implies i < st.len() && mid[i] == st[i] by {
            if i < prev.len() {
                assert(mid[i] == prev[i]);
            } else {
                assert(mid[i].0 == nt);
            }
        }
        if ps.len() > 1 {
            lemma_push_remainders_keeps(mid, double_primed(nt), ps);
            assert(r == push_remainders(mid, double_primed(nt), ps));
            assert forall|i: int| 0 <= i < r.len() && (#[trigger] r[i]).0.len() == 1 implies i < mid.len() && r[i] == mid[i] by {}
            assert(is_key(r, nt)) by {
                let h = choose|h: int| 0 <= h < mid.len() && #[trigger] mid[h].0 == nt;
                assert(r[h] == mid[h]);
            }
        } else {
            assert(ps.drop_last().len() == 0);
            assert(push_all(prev, nt, ps.drop_last()) == prev);
            assert(ps.last() == ps[0]);
            assert(r == mid);
        }
    }
}

/// Left factoring leaves each nonterminal with productions that begin with
/// pairwise different symbols: for a grammar whose nonterminals are single
/// characters, with one entry each, on which factoring is defined, every
/// one-character nonterminal of the factored grammar is one of the
/// grammar's, and no two of its productions begin with the same symbol.
pub proof fn law_factored_prefixes_distinct(g: GrammarView, n: int)
    requires
        0 <= n <= g.len(),
        distinct_keys(g),
        forall|h: int| 0 <= h < g.len() ==> (#[trigger] g[h]).0.len() == 1,
        factor_safe(g),
    ensures
        distinct_keys(factored(g, n)),
        distinct_prefixes(factored(g, n)),
        forall|i: int| 0 <= i < factored(g, n).len() && (#[trigger] factored(g, n)[i]).0.len() == 1
            ==> exists|h: int| 0 <= h < n && factored(g, n)[i].0 == g[h].0,
    decreases n,
{
    if n > 0 {
        law_factored_prefixes_distinct(g, n - 1);
        let st = factored(g, n - 1);
        let nt = g[n - 1].0;
        let gr = grouped(g[n - 1].1);
        assert(nt.len() == 1);
        assert(!is_key(st, nt)) by {
            if is_key(st, nt) {
                let i = choose|i: int| 0 <= i < st.len() && #[trigger] st[i].0 == nt;
                let h = choose|h: int| 0 <= h < n - 1 && st[i].0 == g[h].0;
                assert(g[h].0 != g[n - 1].0);
            }
        }
        lemma_grouped_members(g[n - 1].1);
        lemma_grouped_distinct(g[n - 1].1);
        lemma_factor_groups(st, nt, gr, gr.len() as int);
        let r = factored(g, n);
        assert(r == factor_groups(st, nt, gr, gr.len() as int));
        assert(group_chars(gr, gr.len() as int).no_duplicates()) by {
            assert forall|a: int, b: int| 0 <= a < b < group_chars(gr, gr.len() as int).len()
                implies group_chars(gr, gr.len() as int)[a] != group_chars(gr, gr.len() as int)[b] by {
                assert(group_chars(gr, gr.len() as int)[a] == gr[a].0);
                assert(group_chars(gr, gr.len() as int)[b] == gr[b].0);
            }
        }
        assert forall|i: int| 0 <= i < r.len() && (#[trigger] r[i]).0.len() == 1 implies prefix_chars(r[i].1).no_duplicates() by {
            if r[i].0 != nt {
                assert(r[i] == st[i]);
            }
        }
        assert forall|i: int| 0 <= i < r.len() && (#[trigger] r[i]).0.len() == 1
            implies exists|h: int| 0 <= h < n && r[i].0 == g[h].0 by {
            if r[i].0 != nt {
                assert(r[i] == st[i]);
                let h = choose|h: int| 0 <= h < n - 1 && st[i].0 == g[h].0;
                assert(0 <= h < n && r[i].0 == g[h].0);
            } else {
                assert(r[i].0 == g[n - 1].0);
            }
        }
    }
}

} // verus!
