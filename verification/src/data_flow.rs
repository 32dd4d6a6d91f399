//! Reaching definitions over the basic blocks of a flow graph.
//!
//! Each block has the definitions it generates and those it kills, and the
//! ids of its predecessors. IN of a block is the union of OUT of its
//! predecessors; OUT is GEN together with IN less KILL. Passes over the
//! blocks recompute IN and OUT until a pass changes no OUT; from OUT = GEN
//! this reaches the least solution of these equations.
use vstd::prelude::*;

verus! {

/// A basic block as mathematical values: id, GEN, KILL, predecessors.
pub struct BlockView {
    pub id: int,
    pub gen: Set<i32>,
    pub kill: Set<i32>,
    pub preds: Seq<int>,
}

/// The position of the first block with id `id`, from position `k` on.
pub open spec fn block_index(bs: Seq<BlockView>, id: int, k: int) -> Option<int>
    decreases bs.len() - k,
{
    if k < 0 || k >= bs.len() {
        None
    } else if bs[k].id == id {
        Some(k)
    } else {
        block_index(bs, id, k + 1)
    }
}

/// The union of OUT of the first `k` predecessors in `preds`.
pub open spec fn preds_union(bs: Seq<BlockView>, outs: Seq<Set<i32>>, preds: Seq<int>, k: int) -> Set<i32>
    decreases k,
{
    if k <= 0 {
        Set::empty()
    } else {
        let prev = preds_union(bs, outs, preds, k - 1);
        match block_index(bs, preds[k - 1], 0) {
            Some(j) => prev.union(outs[j]),
            None => prev,
        }
    }
}

/// IN of block `i` given the OUT sets `outs`.
pub open spec fn in_of(bs: Seq<BlockView>, outs: Seq<Set<i32>>, i: int) -> Set<i32> {
    preds_union(bs, outs, bs[i].preds, bs[i].preds.len() as int)
}

/// OUT of block `i` given the OUT sets `outs`: GEN, and IN less KILL.
pub open spec fn out_of(bs: Seq<BlockView>, outs: Seq<Set<i32>>, i: int) -> Set<i32> {
    bs[i].gen.union(in_of(bs, outs, i).difference(bs[i].kill))
}

/// `outs` solves the equations.
pub open spec fn is_solution(bs: Seq<BlockView>, outs: Seq<Set<i32>>) -> bool {
    outs.len() == bs.len() && forall|i: int| 0 <= i < bs.len() ==> #[trigger] outs[i] == out_of(bs, outs, i)
}

/// Each OUT set of `outs` lies within that of every solution.
pub open spec fn below_solutions(bs: Seq<BlockView>, outs: Seq<Set<i32>>) -> bool {
    forall|m: Seq<Set<i32>>| #[trigger] is_solution(bs, m) ==>
        forall|i: int| 0 <= i < bs.len() ==> (#[trigger] outs[i]).subset_of(m[i])
}

/// Each OUT set of `outs` lies within what the equations give from `outs`.
pub open spec fn below_step(bs: Seq<BlockView>, outs: Seq<Set<i32>>) -> bool {
    forall|i: int| 0 <= i < bs.len() ==> (#[trigger] outs[i]).subset_of(out_of(bs, outs, i))
}

proof fn lemma_preds_union_monotone(bs: Seq<BlockView>, a: Seq<Set<i32>>, b: Seq<Set<i32>>, preds: Seq<int>, k: int)
    requires
        a.len() == bs.len(),
        b.len() == bs.len(),
        forall|i: int| 0 <= i < bs.len() ==> (#[trigger] a[i]).subset_of(b[i]),
    ensures
        preds_union(bs, a, preds, k).subset_of(preds_union(bs, b, preds, k)),
    decreases k,
{
    if k > 0 {
        lemma_preds_union_monotone(bs, a, b, preds, k - 1);
        match block_index(bs, preds[k - 1], 0) {
            Some(j) => {
                lemma_block_index(bs, preds[k - 1], 0);
                assert(a[j].subset_of(b[j]));
            },
            None => {},
        }
    }
}

proof fn lemma_block_index(bs: Seq<BlockView>, id: int, k: int)
    requires
        0 <= k,
    ensures
        match block_index(bs, id, k) {
            Some(j) => k <= j < bs.len() && bs[j].id == id,
            None => true,
        },
    decreases bs.len() - k,
{
    if k < bs.len() && bs[k].id != id {
        lemma_block_index(bs, id, k + 1);
    }
}

/// OUT given by the equations grows with the OUT sets it is computed from.
proof fn lemma_out_of_monotone(bs: Seq<BlockView>, a: Seq<Set<i32>>, b: Seq<Set<i32>>, i: int)
    requires
        a.len() == bs.len(),
        b.len() == bs.len(),
        0 <= i < bs.len(),
        forall|j: int| 0 <= j < bs.len() ==> (#[trigger] a[j]).subset_of(b[j]),
    ensures
        out_of(bs, a, i).subset_of(out_of(bs, b, i)),
{
    lemma_preds_union_monotone(bs, a, b, bs[i].preds, bs[i].preds.len() as int);
}

/// A basic block with its IN and OUT sets, each set a list of
/// definition numbers without repeats.
pub struct BasicBlock {
    pub id: i32,
    pub gen: Vec<i32>,
    pub kill: Vec<i32>,
    pub preds: Vec<i32>,
    pub in_set: Vec<i32>,
    pub out_set: Vec<i32>,
}

impl BasicBlock {
    /// The block as mathematical values.
    pub open spec fn view_block(&self) -> BlockView {
        BlockView {
            id: self.id as int,
            gen: self.gen@.to_set(),
            kill: self.kill@.to_set(),
            preds: self.preds@.map_values(|p: i32| p as int),
        }
    }

    /// A block with the given GEN and KILL sets and predecessors, IN empty
    /// and OUT equal to GEN.
    pub fn new(id: i32, gen: Vec<i32>, kill: Vec<i32>, preds: Vec<i32>) -> (r: Self)
        requires
            gen@.no_duplicates(),
        ensures
            r.id == id,
            r.gen == gen,
            r.kill == kill,
            r.preds == preds,
            r.in_set@.len() == 0,
            r.out_set@ == gen@,
    {
        let out_set = copy_ints(&gen);
        BasicBlock { id, gen, kill, preds, in_set: Vec::new(), out_set }
    }
}

/// A copy of a list of numbers.
fn copy_ints(v: &Vec<i32>) -> (r: Vec<i32>)
    ensures
        r@ == v@,
{
    let mut r: Vec<i32> = Vec::new();
    let mut i: usize = 0;
    while i < v.len()
        invariant
            i <= v@.len(),
            r@ == v@.take(i as int),
        decreases v@.len() - i,
    {
        r.push(v[i]);
        i = i + 1;
        assert(r@ =~= v@.take(i as int));
    }
    assert(v@.take(i as int) =~= v@);
    r
}

/// The blocks as mathematical values.
pub open spec fn blocks_view(bs: Seq<BasicBlock>) -> Seq<BlockView> {
    bs.map_values(|b: BasicBlock| b.view_block())
}

/// The OUT sets of the blocks.
pub open spec fn outs_view(bs: Seq<BasicBlock>) -> Seq<Set<i32>> {
    bs.map_values(|b: BasicBlock| b.out_set@.to_set())
}

/// The IN sets of the blocks.
pub open spec fn ins_view(bs: Seq<BasicBlock>) -> Seq<Set<i32>> {
    bs.map_values(|b: BasicBlock| b.in_set@.to_set())
}

/// The blocks are ready for the analysis: their OUT sets hold no repeats,
/// lie within every solution and within what one step of the equations
/// gives. Blocks as `new` makes them (OUT = GEN) are ready, and so are
/// blocks after an analysis.
pub open spec fn analysis_ready(bs: Seq<BasicBlock>) -> bool {
    &&& forall|i: int| 0 <= i < bs.len() ==> (#[trigger] bs[i]).out_set@.no_duplicates()
    &&& below_solutions(blocks_view(bs), outs_view(bs))
    &&& below_step(blocks_view(bs), outs_view(bs))
}

/// The analysis of a list of blocks.
pub struct ReachingDefinitions {
    pub blocks: Vec<BasicBlock>,
}

/// Whether `x` is in the list.
fn contains_int(v: &Vec<i32>, x: i32) -> (r: bool)
    ensures
        r == v@.contains(x),
{
    let mut i: usize = 0;
    while i < v.len()
        invariant
            i <= v@.len(),
            forall|j: int| 0 <= j < i ==> v@[j] != x,
        decreases v@.len() - i,
    {
        if v[i] == x {
            return true;
        }
        i = i + 1;
    }
    false
}

/// Adds `x` to `acc` unless it is there.
fn add_int(acc: &mut Vec<i32>, x: i32)
    requires
        old(acc)@.no_duplicates(),
    ensures
        final(acc)@.no_duplicates(),
        final(acc)@.to_set() == old(acc)@.to_set().insert(x),
        forall|y: i32| #[trigger] final(acc)@.contains(y) <==> (old(acc)@.contains(y) || y == x),
{
    if !contains_int(acc, x) {
        let ghost a0 = acc@;
        acc.push(x);
        assert forall|y: i32| #[trigger] acc@.contains(y) <==> (a0.contains(y) || y == x) by {
            if acc@.contains(y) {
                let j = choose|j: int| 0 <= j < acc@.len() && acc@[j] == y;
                if j < a0.len() {
                    assert(a0[j] == y);
                }
            }
            if a0.contains(y) {
                let j = choose|j: int| 0 <= j < a0.len() && a0[j] == y;
                assert(acc@[j] == y);
            }
            if y == x {
                assert(acc@[a0.len() as int] == y);
            }
        }
    }
    assert(acc@.to_set() =~= old(acc)@.to_set().insert(x));
}

/// Adds every element of `xs` to `acc`, keeping no repeats.
fn add_ints(acc: &mut Vec<i32>, xs: &Vec<i32>)
    requires
        old(acc)@.no_duplicates(),
    ensures
        final(acc)@.no_duplicates(),
        final(acc)@.to_set() == old(acc)@.to_set().union(xs@.to_set()),
{
    let ghost a0 = acc@.to_set();
    let mut i: usize = 0;
    while i < xs.len()
        invariant
            i <= xs@.len(),
            acc@.no_duplicates(),
            acc@.to_set() == a0.union(xs@.take(i as int).to_set()),
        decreases xs@.len() - i,
    {
        add_int(acc, xs[i]);
        i = i + 1;
        assert(xs@.take(i as int).to_set() =~= xs@.take(i - 1).to_set().insert(xs@[i - 1])) by {
            assert(xs@.take(i as int) =~= xs@.take(i - 1).push(xs@[i - 1]));
            assert forall|y: i32| xs@.take(i as int).contains(y) <==> (xs@.take(i - 1).contains(y) || y == xs@[i - 1]) by {
                if xs@.take(i as int).contains(y) {
                    let j = choose|j: int| 0 <= j < i && #[trigger] xs@.take(i as int)[j] == y;
                    if j < i - 1 {
                        assert(xs@.take(i - 1)[j] == y);
                    }
                }
                if xs@.take(i - 1).contains(y) {
                    let j = choose|j: int| 0 <= j < i - 1 && #[trigger] xs@.take(i - 1)[j] == y;
                    assert(xs@.take(i as int)[j] == y);
                }
                if y == xs@[i - 1] {
                    assert(xs@.take(i as int)[i - 1] == y);
                }
            }
        }
        assert(acc@.to_set() =~= a0.union(xs@.take(i as int).to_set()));
    }
    assert(xs@.take(i as int) =~= xs@);
}

/// Whether every element of `a` is in `b`.
fn subset_ints(a: &Vec<i32>, b: &Vec<i32>) -> (r: bool)
    ensures
        r == a@.to_set().subset_of(b@.to_set()),
{
    let mut i: usize = 0;
    while i < a.len()
        invariant
            i <= a@.len(),
            forall|j: int| 0 <= j < i ==> b@.contains(#[trigger] a@[j]),
        decreases a@.len() - i,
    {
        if !contains_int(b, a[i]) {
            assert(a@.to_set().contains(a@[i as int]));
            return false;
        }
        i = i + 1;
    }
    assert forall|y: i32| a@.to_set().contains(y) implies b@.to_set().contains(y) by {
        let j = choose|j: int| 0 <= j < a@.len() && a@[j] == y;
        assert(b@.contains(a@[j]));
    }
    true
}

/// The total size of the OUT sets of the first `k` blocks.
pub open spec fn out_total(bs: Seq<BasicBlock>, k: int) -> int
    decreases k,
{
    if k <= 0 { 0 } else { out_total(bs, k - 1) + bs[k - 1].out_set@.len() }
}

/// Every element of a GEN or OUT set of the blocks.
pub open spec fn all_defs(bs: Seq<BasicBlock>) -> Seq<i32>
    decreases bs.len(),
{
    if bs.len() == 0 { Seq::empty() } else { all_defs(bs.drop_last()) + bs.last().gen@ + bs.last().out_set@ }
}

proof fn lemma_all_defs(bs: Seq<BasicBlock>, i: int)
    requires
        0 <= i < bs.len(),
    ensures
        forall|x: i32| bs[i].gen@.contains(x) ==> #[trigger] all_defs(bs).contains(x),
        forall|x: i32| bs[i].out_set@.contains(x) ==> #[trigger] all_defs(bs).contains(x),
    decreases bs.len(),
{
    let a = all_defs(bs.drop_last());
    let g = bs.last().gen@;
    let o = bs.last().out_set@;
    assert(all_defs(bs) == a + g + o);
    if i < bs.len() - 1 {
        lemma_all_defs(bs.drop_last(), i);
        assert(bs.drop_last()[i] == bs[i]);
        assert forall|x: i32| bs[i].gen@.contains(x) implies #[trigger] all_defs(bs).contains(x) by {
            assert(a.contains(x));
            let j = choose|j: int| 0 <= j < a.len() && a[j] == x;
            assert((a + g + o)[j] == x);
        }
        assert forall|x: i32| bs[i].out_set@.contains(x) implies #[trigger] all_defs(bs).contains(x) by {
            assert(a.contains(x));
            let j = choose|j: int| 0 <= j < a.len() && a[j] == x;
            assert((a + g + o)[j] == x);
        }
    } else {
        assert forall|x: i32| bs[i].gen@.contains(x) implies #[trigger] all_defs(bs).contains(x) by {
            let j = choose|j: int| 0 <= j < g.len() && g[j] == x;
            assert((a + g + o)[a.len() + j] == x);
        }
        assert forall|x: i32| bs[i].out_set@.contains(x) implies #[trigger] all_defs(bs).contains(x) by {
            let j = choose|j: int| 0 <= j < o.len() && o[j] == x;
            assert((a + g + o)[a.len() + g.len() + j] == x);
        }
    }
}

proof fn lemma_out_total_bound(bs: Seq<BasicBlock>, u: Seq<i32>, k: int)
    requires
        0 <= k <= bs.len(),
        forall|i: int| 0 <= i < bs.len() ==> (#[trigger] bs[i]).out_set@.no_duplicates(),
        forall|i: int, x: i32| 0 <= i < bs.len() && #[trigger] bs[i].out_set@.contains(x) ==> u.contains(x),
    ensures
        0 <= out_total(bs, k) <= k * u.len(),
    decreases k,
{
    if k > 0 {
        lemma_out_total_bound(bs, u, k - 1);
        let o = bs[k - 1].out_set@;
        assert forall|x: i32| #[trigger] o.contains(x) implies u.contains(x) by {
            assert(bs[k - 1].out_set@.contains(x));
        }
        crate::grammar::lemma_no_dup_bounded(o, u);
        assert((k - 1) * u.len() + u.len() == k * u.len()) by (nonlinear_arith);
    }
}

/// A strictly larger set from a list without repeats has a longer list.
proof fn lemma_strict_growth(a: Seq<i32>, b: Seq<i32>)
    requires
        a.no_duplicates(),
        b.no_duplicates(),
        a.to_set().subset_of(b.to_set()),
        a.to_set() != b.to_set(),
    ensures
        a.len() < b.len(),
{
    let x = choose|x: i32| b.to_set().contains(x) && !a.to_set().contains(x);
    assert(exists|x: i32| b.to_set().contains(x) && !a.to_set().contains(x)) by {
        if !(exists|x: i32| b.to_set().contains(x) && !a.to_set().contains(x)) {
            assert(a.to_set() =~= b.to_set());
        }
    }
    a.unique_seq_to_set();
    b.unique_seq_to_set();
    vstd::set_lib::lemma_len_subset(a.to_set(), b.to_set().remove(x));
}

proof fn lemma_out_total_update(old: Seq<BasicBlock>, new: Seq<BasicBlock>, i: int, k: int)
    requires
        old.len() == new.len(),
        0 <= i < old.len(),
        0 <= k <= old.len(),
        forall|j: int| 0 <= j < old.len() && j != i ==> new[j] == old[j],
    ensures
        out_total(new, k) == out_total(old, k) + (if i < k { new[i].out_set@.len() - old[i].out_set@.len() } else { 0 }),
    decreases k,
{
    if k > 0 {
        lemma_out_total_update(old, new, i, k - 1);
    }
}

proof fn lemma_preds_union_within(bs: Seq<BlockView>, outs: Seq<Set<i32>>, preds: Seq<int>, k: int, u: Seq<i32>)
    requires
        outs.len() == bs.len(),
        forall|j: int, x: i32| 0 <= j < outs.len() && #[trigger] outs[j].contains(x) ==> u.contains(x),
    ensures
        forall|x: i32| #[trigger] preds_union(bs, outs, preds, k).contains(x) ==> u.contains(x),
    decreases k,
{
    if k > 0 {
        lemma_preds_union_within(bs, outs, preds, k - 1, u);
        lemma_block_index(bs, preds[k - 1], 0);
        assert forall|x: i32| #[trigger] preds_union(bs, outs, preds, k).contains(x) implies u.contains(x) by {
            if preds_union(bs, outs, preds, k - 1).contains(x) {
            } else {
                let j = block_index(bs, preds[k - 1], 0).unwrap();
                assert(outs[j].contains(x));
            }
        }
    }
}

/// Replacing block `i` by one with the same id, GEN, KILL and predecessors
/// and with OUT as the equations give it from the current OUT sets keeps
/// the blocks ready and within `u`, and makes the OUT sets no smaller.
proof fn lemma_update_step(old: Seq<BasicBlock>, new: Seq<BasicBlock>, i: int, u: Seq<i32>)
    requires
        0 <= i < old.len(),
        new.len() == old.len(),
        forall|j: int| 0 <= j < old.len() && j != i ==> new[j] == old[j],
        new[i].view_block() == old[i].view_block(),
        new[i].out_set@.no_duplicates(),
        new[i].out_set@.to_set() == out_of(blocks_view(old), outs_view(old), i),
        new[i].out_set@.to_set() == old[i].out_set@.to_set() ==> new[i].out_set@ == old[i].out_set@,
        analysis_ready(old),
        forall|j: int, x: i32| 0 <= j < old.len() && #[trigger] old[j].out_set@.contains(x) ==> u.contains(x),
        forall|j: int, x: i32| 0 <= j < old.len() && #[trigger] old[j].gen@.contains(x) ==> u.contains(x),
    ensures
        blocks_view(new) == blocks_view(old),
        analysis_ready(new),
        forall|j: int, x: i32| 0 <= j < new.len() && #[trigger] new[j].out_set@.contains(x) ==> u.contains(x),
        forall|j: int, x: i32| 0 <= j < new.len() && #[trigger] new[j].gen@.contains(x) ==> u.contains(x),
        out_total(new, new.len() as int) >= out_total(old, old.len() as int),
        new[i].out_set@.to_set() != old[i].out_set@.to_set() ==> out_total(new, new.len() as int) > out_total(old, old.len() as int),
        new[i].out_set@.to_set() == old[i].out_set@.to_set() ==> outs_view(new) == outs_view(old),
        forall|j: int| 0 <= j < old.len() && j != i ==> #[trigger] ins_view(new)[j] == ins_view(old)[j],
{
    let bv = blocks_view(old);
    let cur = outs_view(old);
    let nxt = outs_view(new);
    assert(blocks_view(new) =~= bv);
    assert(cur[i].subset_of(out_of(bv, cur, i)));
    assert forall|j: int| 0 <= j < old.len() implies (#[trigger] cur[j]).subset_of(nxt[j]) by {
        if j == i {
            assert(nxt[i] == out_of(bv, cur, i));
        }
    }
    // OUT sets stay within every solution.
    assert forall|m: Seq<Set<i32>>| #[trigger] is_solution(bv, m) implies
        forall|j: int| 0 <= j < bv.len() ==> (#[trigger] nxt[j]).subset_of(m[j]) by {
        assert forall|j: int| 0 <= j < bv.len() implies (#[trigger] nxt[j]).subset_of(m[j]) by {
            assert(cur[j].subset_of(m[j]));
            if j == i {
                assert forall|jj: int| 0 <= jj < bv.len() implies (#[trigger] cur[jj]).subset_of(m[jj]) by {
                    assert(cur[jj].subset_of(m[jj]));
                }
                lemma_out_of_monotone(bv, cur, m, i);
                assert(m[i] == out_of(bv, m, i));
            }
        }
    }
    // OUT sets stay within one step of the equations.
    assert forall|j: int| 0 <= j < bv.len() implies (#[trigger] nxt[j]).subset_of(out_of(bv, nxt, j)) by {
        lemma_out_of_monotone(bv, cur, nxt, j);
        if j != i {
            assert(cur[j].subset_of(out_of(bv, cur, j)));
        }
    }
    assert forall|j: int| 0 <= j < new.len() implies (#[trigger] new[j]).out_set@.no_duplicates() by {
        if j != i {
            assert(old[j].out_set@.no_duplicates());
        }
    }
    // Everything stays within `u`.
    lemma_preds_union_within(bv, cur, bv[i].preds, bv[i].preds.len() as int, u);
    assert forall|j: int, x: i32| 0 <= j < cur.len() && #[trigger] cur[j].contains(x) implies u.contains(x) by {
        assert(old[j].out_set@.contains(x));
    }
    lemma_preds_union_within(bv, cur, bv[i].preds, bv[i].preds.len() as int, u);
    assert forall|j: int, x: i32| 0 <= j < new.len() && #[trigger] new[j].out_set@.contains(x) implies u.contains(x) by {
        if j == i {
            assert(new[i].out_set@.to_set().contains(x));
            if old[i].gen@.to_set().contains(x) {
                assert(old[i].gen@.contains(x));
            }
        } else {
            assert(old[j].out_set@.contains(x));
        }
    }
    assert forall|j: int, x: i32| 0 <= j < new.len() && #[trigger] new[j].gen@.contains(x) implies u.contains(x) by {
        if j == i {
            assert(new[i].gen@.to_set() == old[i].gen@.to_set());
            assert(new[i].gen@.to_set().contains(x));
            assert(old[i].gen@.contains(x));
        } else {
            assert(old[j].gen@.contains(x));
        }
    }
    // The total size of the OUT sets.
    lemma_out_total_update(old, new, i, old.len() as int);
    old[i].out_set@.unique_seq_to_set();
    new[i].out_set@.unique_seq_to_set();
    assert(old[i].out_set@.to_set().subset_of(new[i].out_set@.to_set()));
    vstd::set_lib::lemma_len_subset(old[i].out_set@.to_set(), new[i].out_set@.to_set());
    if new[i].out_set@.to_set() != old[i].out_set@.to_set() {
        lemma_strict_growth(old[i].out_set@, new[i].out_set@);
    } else {
        assert(nxt =~= cur);
    }
}

/// Blocks whose OUT sets are their GEN sets, as `BasicBlock::new` makes
/// them, are ready for the analysis.
pub proof fn lemma_fresh_blocks_ready(bs: Seq<BasicBlock>)
    requires
        forall|i: int| 0 <= i < bs.len() ==> (#[trigger] bs[i]).out_set@ == bs[i].gen@ && bs[i].gen@.no_duplicates(),
    ensures
        analysis_ready(bs),
{
    let bv = blocks_view(bs);
    let ov = outs_view(bs);
    assert forall|m: Seq<Set<i32>>| #[trigger] is_solution(bv, m) implies
        forall|i: int| 0 <= i < bv.len() ==> (#[trigger] ov[i]).subset_of(m[i]) by {
        assert forall|i: int| 0 <= i < bv.len() implies (#[trigger] ov[i]).subset_of(m[i]) by {
            assert(m[i] == out_of(bv, m, i));
            assert(bs[i].out_set@ == bs[i].gen@);
        }
    }
    assert forall|i: int| 0 <= i < bv.len() implies (#[trigger] ov[i]).subset_of(out_of(bv, ov, i)) by {
        assert(bs[i].out_set@ == bs[i].gen@);
    }
}

impl ReachingDefinitions {
    /// Holds `blocks`.
    pub fn new(blocks: Vec<BasicBlock>) -> (r: Self)
        ensures
            r.blocks == blocks,
    {
        ReachingDefinitions { blocks }
    }

    /// The position of the first block with id `id`.
    fn find_block(&self, id: i32) -> (r: Option<usize>)
        ensures
            match r {
                Some(j) => block_index(blocks_view(self.blocks@), id as int, 0) == Some(j as int) && j < self.blocks@.len(),
                None => block_index(blocks_view(self.blocks@), id as int, 0) is None,
            },
    {
        let ghost bv = blocks_view(self.blocks@);
        let mut k: usize = 0;
        while k < self.blocks.len()
            invariant
                bv == blocks_view(self.blocks@),
                k <= bv.len(),
                block_index(bv, id as int, 0) == block_index(bv, id as int, k as int),
            decreases bv.len() - k,
        {
            if self.blocks[k].id == id {
                return Some(k);
            }
            k = k + 1;
        }
        None
    }

    /// IN of block `i` from the current OUT sets.
    fn compute_in(&self, i: usize) -> (r: Vec<i32>)
        requires
            i < self.blocks@.len(),
        ensures
            r@.no_duplicates(),
            r@.to_set() == in_of(blocks_view(self.blocks@), outs_view(self.blocks@), i as int),
    {
        let ghost bv = blocks_view(self.blocks@);
        let ghost ov = outs_view(self.blocks@);
        let preds = &self.blocks[i].preds;
        let ghost pv = bv[i as int].preds;
        let mut acc: Vec<i32> = Vec::new();
        assert(acc@.to_set() =~= Set::<i32>::empty());
        let mut k: usize = 0;
        while k < preds.len()
            invariant
                bv == blocks_view(self.blocks@),
                ov == outs_view(self.blocks@),
                i < bv.len(),
                pv == bv[i as int].preds,
                preds@.map_values(|p: i32| p as int) == pv,
                k <= pv.len(),
                acc@.no_duplicates(),
                acc@.to_set() == preds_union(bv, ov, pv, k as int),
            decreases pv.len() - k,
        {
            match self.find_block(preds[k]) {
                Some(j) => {
                    add_ints(&mut acc, &self.blocks[j].out_set);
                }
                None => {}
            }
            k = k + 1;
        }
        acc
    }

    /// Runs passes over the blocks until a pass changes no OUT set.
    pub fn analyze(&mut self)
        requires
            analysis_ready(old(self).blocks@),
        ensures
            blocks_view(final(self).blocks@) == blocks_view(old(self).blocks@),
            analysis_ready(final(self).blocks@),
            is_solution(blocks_view(final(self).blocks@), outs_view(final(self).blocks@)),
            forall|i: int| 0 <= i < final(self).blocks@.len() ==>
                #[trigger] ins_view(final(self).blocks@)[i] == in_of(blocks_view(final(self).blocks@), outs_view(final(self).blocks@), i),
    {
        let ghost bv = blocks_view(self.blocks@);
        let ghost u = all_defs(self.blocks@);
        let ghost n = self.blocks@.len();
        proof {
            assert forall|i: int, x: i32| 0 <= i < n && #[trigger] self.blocks@[i].out_set@.contains(x) implies u.contains(x) by {
                lemma_all_defs(self.blocks@, i);
            }
            assert forall|i: int, x: i32| 0 <= i < n && #[trigger] self.blocks@[i].gen@.contains(x) implies u.contains(x) by {
                lemma_all_defs(self.blocks@, i);
            }
        }
        loop
            invariant
                bv == blocks_view(self.blocks@),
                n == self.blocks@.len(),
                analysis_ready(self.blocks@),
                forall|i: int, x: i32| 0 <= i < n && #[trigger] self.blocks@[i].out_set@.contains(x) ==> u.contains(x),
                forall|i: int, x: i32| 0 <= i < n && #[trigger] self.blocks@[i].gen@.contains(x) ==> u.contains(x),
            ensures
                is_solution(bv, outs_view(self.blocks@)),
                forall|i: int| 0 <= i < n ==>
                    #[trigger] ins_view(self.blocks@)[i] == in_of(bv, outs_view(self.blocks@), i),
            decreases n * u.len() - out_total(self.blocks@, n as int),
        {
            proof {
                lemma_out_total_bound(self.blocks@, u, n as int);
            }
            let ghost o0 = outs_view(self.blocks@);
            let ghost t0 = out_total(self.blocks@, n as int);
            let mut changed = false;
            let mut i: usize = 0;
            while i < self.blocks.len()
                invariant
                    bv == blocks_view(self.blocks@),
                    n == self.blocks@.len(),
                    i <= n,
                    analysis_ready(self.blocks@),
                    forall|j: int, x: i32| 0 <= j < n && #[trigger] self.blocks@[j].out_set@.contains(x) ==> u.contains(x),
                    forall|j: int, x: i32| 0 <= j < n && #[trigger] self.blocks@[j].gen@.contains(x) ==> u.contains(x),
                    out_total(self.blocks@, n as int) >= t0,
                    changed ==> out_total(self.blocks@, n as int) > t0,
                    !changed ==> outs_view(self.blocks@) == o0,
                    !changed ==> forall|j: int| 0 <= j < i ==> #[trigger] o0[j] == out_of(bv, o0, j),
                    !changed ==> forall|j: int| 0 <= j < i ==> #[trigger] ins_view(self.blocks@)[j] == in_of(bv, o0, j),
                decreases n - i,
            {
                let ghost cur = outs_view(self.blocks@);
                let new_in = self.compute_in(i);
                let mut new_out: Vec<i32> = Vec::new();
                assert(new_out@.to_set() =~= Set::<i32>::empty());
                add_ints(&mut new_out, &self.blocks[i].gen);
                let mut k: usize = 0;
                while k < new_in.len()
                    invariant
                        bv == blocks_view(self.blocks@),
                        i < n,
                        n == self.blocks@.len(),
                        k <= new_in@.len(),
                        new_out@.no_duplicates(),
                        new_out@.to_set() == bv[i as int].gen.union(
                            new_in@.take(k as int).to_set().difference(bv[i as int].kill)),
                    decreases new_in@.len() - k,
                {
                    let x = new_in[k];
                    let ghost before = new_out@.to_set();
                    if !contains_int(&self.blocks[i].kill, x) {
                        add_int(&mut new_out, x);
                    }
                    k = k + 1;
                    assert(new_in@.take(k as int) =~= new_in@.take(k - 1).push(x));
                    proof {
                        crate::grammar::lemma_push_to_set(new_in@.take(k - 1), x);
                        assert(self.blocks@[i as int].kill@.contains(x) == bv[i as int].kill.contains(x));
                    }
                    assert(new_out@.to_set() =~= bv[i as int].gen.union(
                        new_in@.take(k as int).to_set().difference(bv[i as int].kill)));
                }
                assert(new_in@.take(k as int) =~= new_in@);
                assert(new_out@.to_set() == out_of(bv, cur, i as int));
                let same = subset_ints(&new_out, &self.blocks[i].out_set) && subset_ints(&self.blocks[i].out_set, &new_out);
                assert(same == (new_out@.to_set() == self.blocks@[i as int].out_set@.to_set())) by {
                    if new_out@.to_set().subset_of(self.blocks@[i as int].out_set@.to_set())
                        && self.blocks@[i as int].out_set@.to_set().subset_of(new_out@.to_set()) {
                        assert(new_out@.to_set() =~= self.blocks@[i as int].out_set@.to_set());
                    }
                }
                let b = &self.blocks[i];
                let nb = if same {
                    BasicBlock { id: b.id, gen: copy_ints(&b.gen), kill: copy_ints(&b.kill), preds: copy_ints(&b.preds), in_set: new_in, out_set: copy_ints(&b.out_set) }
                } else {
                    BasicBlock { id: b.id, gen: copy_ints(&b.gen), kill: copy_ints(&b.kill), preds: copy_ints(&b.preds), in_set: new_in, out_set: new_out }
                };
                let ghost old_blocks = self.blocks@;
                self.blocks.set(i, nb);
                proof {
                    lemma_update_step(old_blocks, self.blocks@, i as int, u);
                }
                if !same {
                    changed = true;
                }
                i = i + 1;
            }
            proof {
                lemma_out_total_bound(self.blocks@, u, n as int);
            }
            if !changed {
                break;
            }
        }
    }
}

} // verus!

verus! {

/// The reaching definitions are unique: two solutions that each lie within
/// every solution have the same OUT sets.
pub proof fn law_least_solution_unique(bs: Seq<BlockView>, a: Seq<Set<i32>>, b: Seq<Set<i32>>)
    requires
        is_solution(bs, a),
        below_solutions(bs, a),
        is_solution(bs, b),
        below_solutions(bs, b),
    ensures
        a == b,
{
    assert forall|i: int| 0 <= i < bs.len() implies a[i] == b[i] by {
        assert(a[i].subset_of(b[i]));
        assert(b[i].subset_of(a[i]));
        assert(a[i] =~= b[i]);
    }
    assert(a =~= b);
}

} // verus!
