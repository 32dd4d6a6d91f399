//! Expression trees written out in postfix and in prefix notation.
use vstd::prelude::*;
use crate::text::{chars_of, push_str, string_of_range, trim, trim_chars, is_white_space, lemma_trim_keeps_start, lemma_trim_keeps_end};

verus! {

/// A node of an expression tree: an operator over up to two subtrees, or
/// a leaf name.
pub struct ExprTree {
    pub op: String,
    pub left: Option<Box<ExprTree>>,
    pub right: Option<Box<ExprTree>>,
}

impl ExprTree {
    /// A node `op` over `left` and `right`.
    pub fn new(op: &str, left: Option<Box<ExprTree>>, right: Option<Box<ExprTree>>) -> (r: Self)
        ensures
            r.op@ == op@,
            r.left == left,
            r.right == right,
    {
        ExprTree { op: String::from_str(op), left, right }
    }

    /// A leaf `op`.
    pub fn new_leaf(op: &str) -> (r: Self)
        ensures
            r.op@ == op@,
            r.left is None,
            r.right is None,
    {
        ExprTree { op: String::from_str(op), left: None, right: None }
    }
}

/// The postfix text of a tree: a leaf is its name; a node is the postfix
/// texts of its subtrees and its operator, separated by blanks and trimmed.
pub open spec fn postfix(node: Option<Box<ExprTree>>) -> Seq<char>
    decreases node,
{
    match node {
        None => Seq::empty(),
        Some(n) => if n.left is None && n.right is None {
            n.op@
        } else {
            trim(postfix(n.left) + " "@ + postfix(n.right) + " "@ + n.op@)
        },
    }
}

/// The prefix text of a tree: a leaf is its name; a node is its operator
/// and the prefix texts of its subtrees, separated by blanks and trimmed.
pub open spec fn prefix(node: Option<Box<ExprTree>>) -> Seq<char>
    decreases node,
{
    match node {
        None => Seq::empty(),
        Some(n) => if n.left is None && n.right is None {
            n.op@
        } else {
            trim(n.op@ + " "@ + prefix(n.left) + " "@ + prefix(n.right))
        },
    }
}

/// `s` trimmed, as a string.
fn trimmed(s: &String) -> (r: String)
    ensures
        r@ == trim(s@),
{
    let cs = chars_of(s.as_str());
    let t = trim_chars(&cs);
    let r = string_of_range(&t, 0, t.len());
    assert(t@.subrange(0, t@.len() as int) =~= t@);
    r
}

/// Converts expression trees to postfix and prefix text.
pub struct IntermediateCodeConvertor;

impl IntermediateCodeConvertor {
    /// The postfix text of `node`.
    pub fn to_postfix(node: &Option<Box<ExprTree>>) -> (r: String)
        ensures
            r@ == postfix(*node),
        decreases node,
    {
        match node {
            None => String::new(),
            Some(n) => {
                if n.left.is_none() && n.right.is_none() {
                    n.op.clone()
                } else {
                    let left_str = Self::to_postfix(&n.left);
                    let right_str = Self::to_postfix(&n.right);
                    let mut s = left_str;
                    push_str(&mut s, " ");
                    push_str(&mut s, right_str.as_str());
                    push_str(&mut s, " ");
                    push_str(&mut s, n.op.as_str());
                    trimmed(&s)
                }
            }
        }
    }

    /// The prefix text of `node`.
    pub fn to_prefix(node: &Option<Box<ExprTree>>) -> (r: String)
        ensures
            r@ == prefix(*node),
        decreases node,
    {
        match node {
            None => String::new(),
            Some(n) => {
                if n.left.is_none() && n.right.is_none() {
                    n.op.clone()
                } else {
                    let left_str = Self::to_prefix(&n.left);
                    let right_str = Self::to_prefix(&n.right);
                    let mut s = n.op.clone();
                    push_str(&mut s, " ");
                    push_str(&mut s, left_str.as_str());
                    push_str(&mut s, " ");
                    push_str(&mut s, right_str.as_str());
                    trimmed(&s)
                }
            }
        }
    }
}

/// A word: not empty and without white space.
pub open spec fn word(w: Seq<char>) -> bool {
    w.len() > 0 && forall|k: int| 0 <= k < w.len() ==> !is_white_space(#[trigger] w[k])
}

/// Every operator and name in the tree is a word.
pub open spec fn well_named(node: Option<Box<ExprTree>>) -> bool
    decreases node,
{
    match node {
        None => true,
        Some(n) => word(n.op@) && well_named(n.left) && well_named(n.right),
    }
}

/// The prefix text of a tree begins with its root's operator.
proof fn lemma_prefix_starts(node: Option<Box<ExprTree>>)
    requires
        well_named(node),
        node is Some,
    ensures
        node.unwrap().op@.is_prefix_of(prefix(node)),
{
    let n = node.unwrap();
    let op = n.op@;
    if !(n.left is None && n.right is None) {
        let full = op + " "@ + prefix(n.left) + " "@ + prefix(n.right);
        assert(full[0] == op[0]);
        assert(full[op.len() - 1] == op[op.len() - 1]);
        lemma_trim_keeps_start(full, op.len() - 1);
        assert(op =~= trim(full).subrange(0, op.len() as int));
    }
}

/// The postfix text of a tree ends with its root's operator.
proof fn lemma_postfix_ends(node: Option<Box<ExprTree>>)
    requires
        well_named(node),
        node is Some,
    ensures
        node.unwrap().op@.is_suffix_of(postfix(node)),
{
    let n = node.unwrap();
    let op = n.op@;
    if !(n.left is None && n.right is None) {
        let full = postfix(n.left) + " "@ + postfix(n.right) + " "@ + op;
        let k = full.len() - op.len();
        assert(full[full.len() - 1] == op[op.len() - 1]);
        assert(full[k] == op[0]);
        lemma_trim_keeps_end(full, k);
        let t = trim(full);
        assert forall|i: int| 0 <= i < op.len() implies op[i] == t[t.len() - op.len() + i] by {
            assert(t[t.len() - 1 - (op.len() - 1 - i)] == full[full.len() - 1 - (op.len() - 1 - i)]);
        }
        assert(op =~= t.subrange(t.len() - op.len(), t.len() as int));
    }
}

/// Prefix notation writes every operator before its operands: the prefix
/// text of a node with subtrees begins with its operator and a blank, and
/// then, when it has a left subtree, with that subtree's own operator (its
/// name for a leaf).
pub proof fn law_prefix_operator_first(node: Option<Box<ExprTree>>)
    requires
        well_named(node),
        node matches Some(n) && !(n.left is None && n.right is None),
    ensures
        (node.unwrap().op@ + " "@).is_prefix_of(prefix(node)),
        node.unwrap().left matches Some(l) ==> (node.unwrap().op@ + " "@ + l.op@).is_prefix_of(prefix(node)),
{
    reveal_strlit(" ");
    let n = node.unwrap();
    let op = n.op@;
    let pl = prefix(n.left);
    let pr = prefix(n.right);
    let a = op + " "@;
    let b = a + pl;
    let c = b + " "@;
    let full = c + pr;
    assert(full == op + " "@ + prefix(n.left) + " "@ + prefix(n.right));
    assert(prefix(node) == trim(full));
    assert(full[0] == op[0]);
    match n.left {
        Some(l) => {
            lemma_prefix_starts(n.left);
            let lop = l.op@;
            assert(well_named(n.left));
            assert(word(lop));
            assert(!is_white_space(lop[lop.len() - 1]));
            assert(lop.len() <= pl.len());
            assert(pl.subrange(0, lop.len() as int)[lop.len() - 1] == pl[lop.len() - 1]);
            let k: int = (op.len() + lop.len()) as int;
            assert(full[k] == c[k]);
            assert(c[k] == b[k]);
            assert(b[k] == pl[lop.len() - 1]);
            assert(!is_white_space(full[k]));
            lemma_trim_keeps_start(full, k);
            assert forall|i: int| 0 <= i < lop.len() implies pl[i] == lop[i] by {
                assert(pl.subrange(0, lop.len() as int)[i] == pl[i]);
            }
            assert(a + lop =~= trim(full).subrange(0, k + 1));
            assert(a =~= trim(full).subrange(0, op.len() + 1 as int));
        },
        None => {
            lemma_prefix_starts(n.right);
            let r = n.right.unwrap();
            assert(well_named(n.right));
            assert(word(r.op@));
            assert(!is_white_space(r.op@[0]));
            let k: int = (op.len() + 2) as int;
            assert(pl.len() == 0);
            assert(pr.subrange(0, r.op@.len() as int)[0] == pr[0]);
            assert(full[k] == pr[0]);
            lemma_trim_keeps_start(full, k);
            assert(a =~= trim(full).subrange(0, op.len() + 1 as int));
        },
    }
}

/// The blank and operator at the end of a postfix text, and before them
/// the operator of the right subtree when there is one.
proof fn lemma_postfix_tail(full: Seq<char>, want: Seq<char>, k: int)
    requires
        0 <= k < full.len(),
        full.len() - k >= want.len(),
        !is_white_space(full[full.len() - 1]),
        !is_white_space(full[k]),
        want =~= full.subrange(full.len() - want.len(), full.len() as int),
    ensures
        want.is_suffix_of(trim(full)),
{
    lemma_trim_keeps_end(full, k);
    let t = trim(full);
    assert forall|i: int| 0 <= i < want.len() implies want[i] == t[t.len() - want.len() + i] by {
        assert(t[t.len() - 1 - (want.len() - 1 - i)] == full[full.len() - 1 - (want.len() - 1 - i)]);
    }
    assert(want =~= t.subrange(t.len() - want.len(), t.len() as int));
}

/// Postfix notation writes every operator after its operands: the postfix
/// text of a node with subtrees ends with a blank and its operator, and
/// before that, when it has a right subtree, with that subtree's own
/// operator (its name for a leaf).
pub proof fn law_postfix_operator_last(node: Option<Box<ExprTree>>)
    requires
        well_named(node),
        node matches Some(n) && !(n.left is None && n.right is None),
    ensures
        (" "@ + node.unwrap().op@).is_suffix_of(postfix(node)),
        node.unwrap().right matches Some(r) ==> (r.op@ + " "@ + node.unwrap().op@).is_suffix_of(postfix(node)),
{
    reveal_strlit(" ");
    let n = node.unwrap();
    let op = n.op@;
    let pl = postfix(n.left);
    let pr = postfix(n.right);
    let a = pl + " "@;
    let b = a + pr;
    let c = b + " "@;
    let full = c + op;
    assert(full == postfix(n.left) + " "@ + postfix(n.right) + " "@ + op);
    assert(postfix(node) == trim(full));
    assert(full[full.len() - 1] == op[op.len() - 1]);
    let tail = " "@ + op;
    assert(tail =~= full.subrange(full.len() - tail.len(), full.len() as int));
    match n.right {
        Some(r) => {
            lemma_postfix_ends(n.right);
            let rop = r.op@;
            assert(well_named(n.right));
            assert(word(rop));
            assert(!is_white_space(rop[0]));
            assert(rop.len() <= pr.len());
            let want = rop + " "@ + op;
            let k: int = (full.len() - op.len() - 1 - rop.len()) as int;
            assert forall|i: int| 0 <= i < rop.len() implies pr[pr.len() - rop.len() + i] == rop[i] by {
                assert(pr.subrange(pr.len() - rop.len(), pr.len() as int)[i] == pr[pr.len() - rop.len() + i]);
            }
            assert(full[k] == b[k]);
            assert(b[k] == pr[pr.len() - rop.len()]);
            assert(want =~= full.subrange(full.len() - want.len(), full.len() as int));
            lemma_postfix_tail(full, want, k);
            lemma_postfix_tail(full, tail, k);
        },
        None => {
            lemma_postfix_ends(n.left);
            let l = n.left.unwrap();
            assert(well_named(n.left));
            assert(word(l.op@));
            assert(!is_white_space(l.op@[l.op@.len() - 1]));
            assert(pr.len() == 0);
            let k: int = pl.len() - 1;
            assert(pl.subrange(pl.len() - l.op@.len(), pl.len() as int)[l.op@.len() - 1] == pl[pl.len() - 1]);
            assert(full[k] == pl[pl.len() - 1]);
            lemma_postfix_tail(full, tail, k);
        },
    }
}

} // verus!
