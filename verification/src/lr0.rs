//! LR(0) items of a grammar whose nonterminals are upper-case characters:
//! the closure of a set of items, and the goto on a symbol.
use vstd::prelude::*;
use crate::text::{chars_of, char_string, str_equal, uppercase, is_uppercase};
use crate::grammar::{
    GrammarView, strs_view, grammar_view, distinct_keys, is_key, productions_of, single, key_index,
    lemma_productions_of, lemma_no_dup_bounded,
};

verus! {

/// An LR(0) item: a production `lhs -> rhs` with a dot before the symbol at
/// position `dot_pos` of `rhs`.
pub struct Item {
    pub lhs: String,
    pub rhs: String,
    pub dot_pos: usize,
}

/// An item as mathematical values.
pub type ItemView = (Seq<char>, Seq<char>, nat);

impl View for Item {
    type V = ItemView;

    open spec fn view(&self) -> ItemView {
        (self.lhs@, self.rhs@, self.dot_pos as nat)
    }
}

/// The views of a list of items.
pub open spec fn items_view(v: Seq<Item>) -> Seq<ItemView> {
    v.map_values(|it: Item| it@)
}

/// The set of items in a list.
pub open spec fn item_set(v: Seq<Item>) -> Set<ItemView> {
    items_view(v).to_set()
}

/// The items that the closure adds for item `it`: when the symbol after the
/// dot is an upper-case nonterminal, an item with the dot at the start of
/// each of its productions.
pub open spec fn expansions(g: GrammarView, it: ItemView) -> Set<ItemView> {
    if it.2 < it.1.len() && uppercase(it.1[it.2 as int]) && is_key(g, single(it.1[it.2 as int])) {
        let s = single(it.1[it.2 as int]);
        Set::new(|x: ItemView| x.0 == s && x.2 == 0 && productions_of(g, s).contains(x.1))
    } else {
        Set::empty()
    }
}

/// `s` holds the expansions of each of its items.
pub open spec fn closure_closed(g: GrammarView, s: Set<ItemView>) -> bool {
    forall|it: ItemView| #[trigger] s.contains(it) ==> expansions(g, it).subset_of(s)
}

/// `s` lies within every closed set that holds `init`.
pub open spec fn closure_sound(g: GrammarView, init: Set<ItemView>, s: Set<ItemView>) -> bool {
    forall|m: Set<ItemView>| init.subset_of(m) && #[trigger] closure_closed(g, m) ==> s.subset_of(m)
}

/// `s` is the closure of `init`: the least closed set that holds it.
pub open spec fn is_closure(g: GrammarView, init: Set<ItemView>, s: Set<ItemView>) -> bool {
    init.subset_of(s) && closure_closed(g, s) && closure_sound(g, init, s)
}

/// Item `x` is item `it` with the dot moved over the symbol `sym`.
pub open spec fn advances(it: ItemView, sym: Seq<char>, x: ItemView) -> bool {
    it.2 < it.1.len() && single(it.1[it.2 as int]) == sym && x == (it.0, it.1, (it.2 + 1) as nat)
}

/// The items of `s` with the dot moved over `sym`, where `sym` follows it.
pub open spec fn moved_items(s: Set<ItemView>, sym: Seq<char>) -> Set<ItemView> {
    Set::new(|x: ItemView| exists|it: ItemView| s.contains(it) && #[trigger] advances(it, sym, x))
}

/// Every item with the dot at the start of a production of `g`.
pub open spec fn start_items(g: GrammarView) -> Seq<ItemView>
    decreases g.len(),
{
    if g.len() == 0 {
        Seq::empty()
    } else {
        start_items(g.drop_last()) + g.last().1.map_values(|p: Seq<char>| (g.last().0, p, 0nat))
    }
}

proof fn lemma_start_items(g: GrammarView, h: int, k: int)
    requires
        0 <= h < g.len(),
        0 <= k < g[h].1.len(),
    ensures
        start_items(g).contains((g[h].0, g[h].1[k], 0nat)),
    decreases g.len(),
{
    let rest = start_items(g.drop_last());
    let last = g.last().1.map_values(|p: Seq<char>| (g.last().0, p, 0nat));
    if h == g.len() - 1 {
        assert((rest + last)[rest.len() + k] == (g[h].0, g[h].1[k], 0nat));
    } else {
        assert(g.drop_last()[h] == g[h]);
        lemma_start_items(g.drop_last(), h, k);
        let j = choose|j: int| 0 <= j < rest.len() && rest[j] == (g[h].0, g[h].1[k], 0nat);
        assert((rest + last)[j] == (g[h].0, g[h].1[k], 0nat));
    }
}

/// Every expansion of an item is a start item of the grammar.
proof fn lemma_expansions_start_items(g: GrammarView, it: ItemView)
    ensures
        forall|x: ItemView| #[trigger] expansions(g, it).contains(x) ==> start_items(g).contains(x),
{
    assert forall|x: ItemView| #[trigger] expansions(g, it).contains(x) implies start_items(g).contains(x) by {
        if it.2 < it.1.len() && uppercase(it.1[it.2 as int]) && is_key(g, single(it.1[it.2 as int])) {
            let s = single(it.1[it.2 as int]);
            assert(is_key(g, s));
            let h = crate::grammar::key_position(g, s);
            assert(0 <= h < g.len() && g[h].0 == s);
            assert(productions_of(g, s) == g[h].1);
            assert(productions_of(g, s).contains(x.1));
            let k = choose|k: int| 0 <= k < g[h].1.len() && g[h].1[k] == x.1;
            lemma_start_items(g, h, k);
            assert(x == (g[h].0, g[h].1[k], 0nat));
        }
    }
}

/// Whether the list holds an item equal to (`lhs`, `rhs`, `dot`).
fn has_item(v: &Vec<Item>, lhs: &str, rhs: &str, dot: usize) -> (r: bool)
    ensures
        r == items_view(v@).contains((lhs@, rhs@, dot as nat)),
{
    let ghost iv = items_view(v@);
    let mut i: usize = 0;
    while i < v.len()
        invariant
            iv == items_view(v@),
            i <= v@.len(),
            forall|j: int| 0 <= j < i ==> iv[j] != (lhs@, rhs@, dot as nat),
        decreases v@.len() - i,
    {
        if v[i].dot_pos == dot && str_equal(v[i].lhs.as_str(), lhs) && str_equal(v[i].rhs.as_str(), rhs) {
            assert(iv[i as int] == (lhs@, rhs@, dot as nat));
            return true;
        }
        i = i + 1;
    }
    false
}

/// Adds `it` to the list unless an equal item is there; tells whether it
/// was added.
fn add_item(v: &mut Vec<Item>, it: Item) -> (added: bool)
    requires
        items_view(old(v)@).no_duplicates(),
    ensures
        items_view(final(v)@).no_duplicates(),
        item_set(final(v)@) == item_set(old(v)@).insert(it@),
        items_view(final(v)@) == if added { items_view(old(v)@).push(it@) } else { items_view(old(v)@) },
        added == !items_view(old(v)@).contains(it@),
{
    if has_item(v, it.lhs.as_str(), it.rhs.as_str(), it.dot_pos) {
        assert(item_set(v@).insert(it@) =~= item_set(v@));
        false
    } else {
        let ghost before = items_view(v@);
        let ghost itv = it@;
        v.push(it);
        assert(items_view(v@) =~= before.push(itv));
        assert(item_set(v@) =~= before.to_set().insert(itv)) by {
            assert forall|x: ItemView| items_view(v@).contains(x) <==> before.to_set().insert(itv).contains(x) by {
                if items_view(v@).contains(x) {
                    let j = choose|j: int| 0 <= j < items_view(v@).len() && items_view(v@)[j] == x;
                    if j < before.len() {
                        assert(before[j] == x);
                    }
                }
                if before.contains(x) {
                    let j = choose|j: int| 0 <= j < before.len() && before[j] == x;
                    assert(items_view(v@)[j] == x);
                }
                if x == itv {
                    assert(items_view(v@)[before.len() as int] == x);
                }
            }
        }
        true
    }
}

/// An LR(0) automaton's grammar, augmented with a new start symbol.
pub struct LR0 {
    pub grammar: Vec<(String, Vec<String>)>,
    pub start: String,
}

/// `g` with the productions of `k` set to `ps`: the entry replaced where
/// there is one, appended otherwise.
pub open spec fn with_entry(g: GrammarView, k: Seq<char>, ps: Seq<Seq<char>>) -> GrammarView {
    if is_key(g, k) {
        g.update(choose|h: int| 0 <= h < g.len() && #[trigger] g[h].0 == k, (k, ps))
    } else {
        g.push((k, ps))
    }
}

impl LR0 {
    /// Augments `grammar` with the production `S' -> S` for the start
    /// symbol `S` and makes `S'` the start symbol.
    pub fn new(grammar: Vec<(String, Vec<String>)>, start_symbol: String) -> (r: Self)
        requires
            distinct_keys(grammar_view(grammar@)),
        ensures
            r.start@ == start_symbol@.push('\''),
            grammar_view(r.grammar@) == with_entry(grammar_view(grammar@), start_symbol@.push('\''), seq![start_symbol@]),
            distinct_keys(grammar_view(r.grammar@)),
    {
        let mut grammar = grammar;
        let ghost gv0 = grammar_view(grammar@);
        let mut augmented = start_symbol.clone();
        crate::text::push_char(&mut augmented, '\'');
        let prods: Vec<String> = vec![start_symbol];
        let ghost entry = (augmented@, strs_view(prods@));
        assert(strs_view(prods@) =~= seq![start_symbol@]);
        match key_index(&grammar, augmented.as_str()) {
            Some(h) => {
                grammar.set(h, (augmented.clone(), prods));
                proof {
                    let c = choose|c: int| 0 <= c < gv0.len() && #[trigger] gv0[c].0 == augmented@;
                    if c != h {
                        if c < h {
                            assert(gv0[c].0 != gv0[h as int].0);
                        } else {
                            assert(gv0[h as int].0 != gv0[c].0);
                        }
                    }
                    assert(grammar_view(grammar@) =~= gv0.update(h as int, entry));
                }
            }
            None => {
                grammar.push((augmented.clone(), prods));
                assert(grammar_view(grammar@) =~= gv0.push(entry));
            }
        }
        LR0 { grammar, start: augmented }
    }

    /// The closure of the item set `items`.
    pub fn closure(&self, items: Vec<Item>) -> (r: Vec<Item>)
        requires
            distinct_keys(grammar_view(self.grammar@)),
            items_view(items@).no_duplicates(),
        ensures
            items_view(r@).no_duplicates(),
            is_closure(grammar_view(self.grammar@), item_set(items@), item_set(r@)),
    {
        let ghost gv = grammar_view(self.grammar@);
        let ghost init = item_set(items@);
        let ghost init_seq = items_view(items@);
        let ghost u = init_seq + start_items(gv);
        let mut set = items;
        proof {
            assert forall|x: ItemView| #[trigger] items_view(set@).contains(x) implies u.contains(x) by {
                let j = choose|j: int| 0 <= j < items_view(set@).len() && items_view(set@)[j] == x;
                assert(u[j] == x);
            }
        }
        loop
            invariant
                gv == grammar_view(self.grammar@),
                distinct_keys(gv),
                items_view(set@).no_duplicates(),
                init.subset_of(item_set(set@)),
                closure_sound(gv, init, item_set(set@)),
                forall|x: ItemView| #[trigger] items_view(set@).contains(x) ==> u.contains(x),
                u == init_seq + start_items(gv),
            ensures
                closure_closed(gv, item_set(set@)),
            decreases u.len() - set@.len(),
        {
            proof {
                lemma_no_dup_bounded(items_view(set@), u);
            }
            let ghost f0 = item_set(set@);
            let ghost s0 = items_view(set@);
            let mut changed = false;
            let mut i: usize = 0;
            while i < set.len()
                invariant
                    gv == grammar_view(self.grammar@),
                    distinct_keys(gv),
                    items_view(set@).no_duplicates(),
                    init.subset_of(item_set(set@)),
                    closure_sound(gv, init, item_set(set@)),
                    forall|x: ItemView| #[trigger] items_view(set@).contains(x) ==> u.contains(x),
                    i <= set@.len(),
                    set@.len() >= s0.len(),
                    changed ==> set@.len() > s0.len(),
                    !changed ==> items_view(set@) == s0,
                    !changed ==> forall|j: int| 0 <= j < i ==> expansions(gv, #[trigger] s0[j]).subset_of(f0),
                    f0 == s0.to_set(),
                    u == init_seq + start_items(gv),
                decreases u.len() - i,
            {
                proof {
                    lemma_no_dup_bounded(items_view(set@), u);
                }
                let ghost cur_it = items_view(set@)[i as int];
                let ghost ch0 = changed;
                let cs = chars_of(set[i].rhs.as_str());
                let d = set[i].dot_pos;
                if d < cs.len() && is_uppercase(cs[d]) {
                    let s = char_string(cs[d]);
                    match key_index(&self.grammar, s.as_str()) {
                        Some(h) => {
                            proof {
                                lemma_productions_of(gv, h as int);
                                lemma_expansions_start_items(gv, cur_it);
                            }
                            let ghost set_before = item_set(set@);
                            let mut k: usize = 0;
                            while k < self.grammar[h].1.len()
                                invariant
                                    gv == grammar_view(self.grammar@),
                                    distinct_keys(gv),
                                    h < gv.len(),
                                    gv[h as int].0 == s@,
                                    s@ == single(cur_it.1[cur_it.2 as int]),
                                    cur_it.2 < cur_it.1.len(),
                                    uppercase(cur_it.1[cur_it.2 as int]),
                                    is_key(gv, s@),
                                    productions_of(gv, s@) == gv[h as int].1,
                                    set_before.contains(cur_it),
                                    closure_sound(gv, init, set_before),
                                    set_before.subset_of(item_set(set@)),
                                    k <= gv[h as int].1.len(),
                                    forall|k2: int| 0 <= k2 < k ==> item_set(set@).contains((s@, #[trigger] gv[h as int].1[k2], 0nat)),
                                    forall|x: ItemView| #[trigger] expansions(gv, cur_it).contains(x) ==> start_items(gv).contains(x),
                                    items_view(set@).no_duplicates(),
                                    init.subset_of(item_set(set@)),
                                    closure_sound(gv, init, item_set(set@)),
                                    forall|x: ItemView| #[trigger] items_view(set@).contains(x) ==> u.contains(x),
                                    i < set@.len(),
                                    set@.len() >= s0.len(),
                                    changed ==> set@.len() > s0.len(),
                                    !changed ==> items_view(set@) == s0,
                                    !changed ==> set_before == f0,
                                    !changed ==> forall|j: int| 0 <= j < i ==> expansions(gv, #[trigger] s0[j]).subset_of(f0),
                                    f0 == s0.to_set(),
                                    u == init_seq + start_items(gv),
                                    ch0 ==> changed,
                                    !ch0 ==> cur_it == s0[i as int],
                                decreases gv[h as int].1.len() - k,
                            {
                                let new_item = Item { lhs: s.clone(), rhs: self.grammar[h].1[k].clone(), dot_pos: 0 };
                                let ghost nv = new_item@;
                                proof {
                                    assert(productions_of(gv, s@)[k as int] == nv.1);
                                    assert(expansions(gv, cur_it).contains(nv));
                                    assert(u.contains(nv)) by {
                                        let j = choose|j: int| 0 <= j < start_items(gv).len() && start_items(gv)[j] == nv;
                                        assert(u[init_seq.len() + j] == nv);
                                    }
                                    assert forall|m: Set<ItemView>| init.subset_of(m) && #[trigger] closure_closed(gv, m)
                                        implies item_set(set@).insert(nv).subset_of(m) by {
                                        assert(set_before.subset_of(m));
                                        assert(m.contains(cur_it));
                                    }
                                }
                                let ghost sv0 = items_view(set@);
                                let added = add_item(&mut set, new_item);
                                if added {
                                    changed = true;
                                }
                                proof {
                                    assert(items_view(set@).len() >= sv0.len());
                                    assert forall|x: ItemView| #[trigger] items_view(set@).contains(x) implies u.contains(x) by {
                                        if added && x == nv {
                                        } else {
                                            let j = choose|j: int| 0 <= j < items_view(set@).len() && items_view(set@)[j] == x;
                                            if j < sv0.len() {
                                                assert(sv0[j] == x);
                                                assert(sv0.contains(x));
                                            } else {
                                                assert(x == nv);
                                            }
                                        }
                                    }
                                }
                                k = k + 1;
                            }
                            proof {
                                if !changed {
                                    assert forall|x: ItemView| #[trigger] expansions(gv, cur_it).contains(x) implies f0.contains(x) by {
                                        let k2 = choose|k2: int| 0 <= k2 < gv[h as int].1.len() && gv[h as int].1[k2] == x.1;
                                        assert(item_set(set@).contains((s@, gv[h as int].1[k2], 0nat)));
                                    }
                                }
                            }
                        }
                        None => {
                            assert(expansions(gv, cur_it) =~= Set::empty());
                        }
                    }
                } else {
                    assert(expansions(gv, cur_it) =~= Set::empty());
                }
                proof {
                    if !changed {
                        assert(cur_it == s0[i as int]);
                        assert(expansions(gv, s0[i as int]).subset_of(f0));
                    }
                }
                i = i + 1;
            }
            proof {
                lemma_no_dup_bounded(items_view(set@), u);
            }
            if !changed {
                assert forall|it: ItemView| #[trigger] f0.contains(it) implies expansions(gv, it).subset_of(f0) by {
                    let j = choose|j: int| 0 <= j < s0.len() && s0[j] == it;
                    assert(expansions(gv, s0[j]).subset_of(f0));
                }
                break;
            }
        }
        set
    }

    /// The closure of the items of `items` with the dot moved over `symbol`.
    pub fn goto(&self, items: &Vec<Item>, symbol: &str) -> (r: Vec<Item>)
        requires
            distinct_keys(grammar_view(self.grammar@)),
        ensures
            items_view(r@).no_duplicates(),
            is_closure(grammar_view(self.grammar@), moved_items(item_set(items@), symbol@), item_set(r@)),
    {
        let ghost iv = items_view(items@);
        let mut moved: Vec<Item> = Vec::new();
        let mut i: usize = 0;
        while i < items.len()
            invariant
                iv == items_view(items@),
                i <= iv.len(),
                items_view(moved@).no_duplicates(),
                forall|x: ItemView| #[trigger] item_set(moved@).contains(x) <==>
                    exists|j: int| 0 <= j < i && advances(iv[j], symbol@, x),
            decreases iv.len() - i,
        {
            let cs = chars_of(items[i].rhs.as_str());
            let d = items[i].dot_pos;
            let ghost before = item_set(moved@);
            if d < cs.len() && str_equal(char_string(cs[d]).as_str(), symbol) {
                let it = Item { lhs: items[i].lhs.clone(), rhs: items[i].rhs.clone(), dot_pos: d + 1 };
                let ghost itv = it@;
                add_item(&mut moved, it);
                assert(advances(iv[i as int], symbol@, itv));
                assert forall|x: ItemView| #[trigger] item_set(moved@).contains(x) <==>
                    exists|j: int| 0 <= j < i + 1 && advances(iv[j], symbol@, x) by {
                    if exists|j: int| 0 <= j < i + 1 && advances(iv[j], symbol@, x) {
                        let j = choose|j: int| 0 <= j < i + 1 && advances(iv[j], symbol@, x);
                        if j < i {
                            assert(before.contains(x));
                        }
                    }
                    if before.contains(x) {
                        let j = choose|j: int| 0 <= j < i && advances(iv[j], symbol@, x);
                        assert(0 <= j < i + 1 && advances(iv[j], symbol@, x));
                    }
                }
            } else {
                assert forall|x: ItemView| #[trigger] item_set(moved@).contains(x) <==>
                    exists|j: int| 0 <= j < i + 1 && advances(iv[j], symbol@, x) by {
                    if exists|j: int| 0 <= j < i + 1 && advances(iv[j], symbol@, x) {
                        let j = choose|j: int| 0 <= j < i + 1 && advances(iv[j], symbol@, x);
                        if j == i {
                            assert(!advances(iv[i as int], symbol@, x));
                        }
                    }
                    if before.contains(x) {
                        let j = choose|j: int| 0 <= j < i && advances(iv[j], symbol@, x);
                        assert(0 <= j < i + 1 && advances(iv[j], symbol@, x));
                    }
                }
            }
            i = i + 1;
        }
        assert(item_set(moved@) =~= moved_items(item_set(items@), symbol@)) by {
            assert forall|x: ItemView| item_set(moved@).contains(x) <==> moved_items(item_set(items@), symbol@).contains(x) by {
                if item_set(moved@).contains(x) {
                    let j = choose|j: int| 0 <= j < i && advances(iv[j], symbol@, x);
                    assert(iv.contains(iv[j]));
                    assert(item_set(items@).contains(iv[j]));
                }
                if moved_items(item_set(items@), symbol@).contains(x) {
                    let it = choose|it: ItemView| item_set(items@).contains(it) && #[trigger] advances(it, symbol@, x);
                    let j = choose|j: int| 0 <= j < iv.len() && iv[j] == it;
                    assert(advances(iv[j], symbol@, x));
                }
            }
        }
        self.closure(moved)
    }
}

} // verus!

verus! {

/// The closure is idempotent: the closure of a closure is itself.
pub proof fn law_closure_idempotent(g: GrammarView, init: Set<ItemView>, s: Set<ItemView>)
    requires
        is_closure(g, init, s),
    ensures
        is_closure(g, s, s),
{
}

/// The closure of a set holds the closure of each of its subsets.
pub proof fn law_closure_monotone(g: GrammarView, a: Set<ItemView>, b: Set<ItemView>, ca: Set<ItemView>, cb: Set<ItemView>)
    requires
        a.subset_of(b),
        is_closure(g, a, ca),
        is_closure(g, b, cb),
    ensures
        ca.subset_of(cb),
{
    assert(a.subset_of(cb));
    assert(closure_closed(g, cb));
}


/// The closure adds nothing but expansions: every item of the closure of
/// `init` that is not in `init` is an item with the dot at the start of a
/// production of an upper-case nonterminal that stands after the dot of
/// another item of the closure.
pub proof fn law_closure_adds_only_expansions(g: GrammarView, init: Set<ItemView>, s: Set<ItemView>)
    requires
        is_closure(g, init, s),
    ensures
        forall|x: ItemView| #[trigger] s.contains(x) ==> init.contains(x)
            || exists|y: ItemView| s.contains(y) && #[trigger] expansions(g, y).contains(x),
        forall|x: ItemView| s.contains(x) && !init.contains(x) ==> x.2 == 0 && #[trigger] productions_of(g, x.0).contains(x.1),
{
    let m = Set::new(|x: ItemView| init.contains(x) || exists|y: ItemView| s.contains(y) && #[trigger] expansions(g, y).contains(x));
    assert forall|it: ItemView| #[trigger] m.contains(it) implies expansions(g, it).subset_of(m) by {
        assert(s.contains(it)) by {
            if !init.contains(it) {
                let y = choose|y: ItemView| s.contains(y) && #[trigger] expansions(g, y).contains(it);
                assert(expansions(g, y).subset_of(s));
            }
        }
        assert forall|x: ItemView| expansions(g, it).contains(x) implies m.contains(x) by {
            assert(s.contains(it) && expansions(g, it).contains(x));
        }
    }
    assert(closure_closed(g, m));
    assert(init.subset_of(m));
    assert(s.subset_of(m));
    assert forall|x: ItemView| s.contains(x) && !init.contains(x) implies x.2 == 0 && #[trigger] productions_of(g, x.0).contains(x.1) by {
        assert(m.contains(x));
        let y = choose|y: ItemView| s.contains(y) && #[trigger] expansions(g, y).contains(x);
    }
}

} // verus!
