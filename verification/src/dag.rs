//! A directed acyclic graph of expression nodes that shares common
//! subexpressions: a node is recorded under its signature
//! `op_left_right` and under its operator, and a node with a known
//! signature is reused.
use vstd::prelude::*;
use crate::text::{str_equal, push_str};

verus! {

/// An expression node: a value (an operator or a leaf name) and up to two
/// children.
pub struct DAGNode {
    pub value: String,
    pub left: Option<Box<DAGNode>>,
    pub right: Option<Box<DAGNode>>,
}

/// A node as mathematical values.
pub struct DagView {
    pub value: Seq<char>,
    pub left: Option<Box<DagView>>,
    pub right: Option<Box<DagView>>,
}

/// The view of a node.
pub open spec fn dag_view(n: DAGNode) -> DagView
    decreases n,
{
    DagView {
        value: n.value@,
        left: match n.left {
            Some(b) => Some(Box::new(dag_view(*b))),
            None => None,
        },
        right: match n.right {
            Some(b) => Some(Box::new(dag_view(*b))),
            None => None,
        },
    }
}

/// A leaf named `v`.
pub open spec fn leaf(v: Seq<char>) -> DagView {
    DagView { value: v, left: None, right: None }
}

/// The node recorded under key `k`, from position `i` on.
pub open spec fn map_get(m: Seq<(Seq<char>, DagView)>, k: Seq<char>, i: int) -> Option<DagView>
    decreases m.len() - i,
{
    if i < 0 || i >= m.len() {
        None
    } else if m[i].0 == k {
        Some(m[i].1)
    } else {
        map_get(m, k, i + 1)
    }
}

/// `m` with `v` recorded under `k`, replacing what was there.
pub open spec fn map_insert(m: Seq<(Seq<char>, DagView)>, k: Seq<char>, v: DagView) -> Seq<(Seq<char>, DagView)> {
    if exists|i: int| 0 <= i < m.len() && #[trigger] m[i].0 == k {
        m.update(choose|i: int| 0 <= i < m.len() && #[trigger] m[i].0 == k, (k, v))
    } else {
        m.push((k, v))
    }
}

/// The signature of a node: `op_left_right`, with `-` for no right child.
pub open spec fn signature(op: Seq<char>, l: Seq<char>, r: Option<Seq<char>>) -> Seq<char> {
    op + "_"@ + l + "_"@ + match r { Some(x) => x, None => "-"@ }
}

/// The map and the node after adding `op` over `l` and `r`: the node of the
/// same signature when there is one; otherwise a new node whose children
/// are the recorded nodes of those names, or leaves, recorded under its
/// signature and under its operator.
pub open spec fn add_node_spec(m: Seq<(Seq<char>, DagView)>, op: Seq<char>, l: Seq<char>, r: Option<Seq<char>>)
    -> (Seq<(Seq<char>, DagView)>, DagView)
{
    let sig = signature(op, l, r);
    match map_get(m, sig, 0) {
        Some(n) => (m, n),
        None => {
            let ln = match map_get(m, l, 0) { Some(n) => n, None => leaf(l) };
            let rn = match r {
                Some(x) => Some(Box::new(match map_get(m, x, 0) { Some(n) => n, None => leaf(x) })),
                None => None,
            };
            let nn = DagView { value: op, left: Some(Box::new(ln)), right: rn };
            (map_insert(map_insert(m, sig, nn), op, nn), nn)
        },
    }
}

/// No key twice.
pub open spec fn keys_distinct(m: Seq<(Seq<char>, DagView)>) -> bool {
    forall|i: int, j: int| 0 <= i < j < m.len() ==> m[i].0 != m[j].0
}

impl DAGNode {
    /// A node with value `value` and the given children.
    pub fn new(value: &str, left: Option<Box<DAGNode>>, right: Option<Box<DAGNode>>) -> (r: Self)
        ensures
            r.value@ == value@,
            r.left == left,
            r.right == right,
    {
        DAGNode { value: String::from_str(value), left, right }
    }

    /// A copy of the node and its children.
    pub fn copy(&self) -> (r: DAGNode)
        ensures
            dag_view(r) == dag_view(*self),
        decreases self,
    {
        let left = match &self.left {
            Some(b) => Some(Box::new((&**b).copy())),
            None => None,
        };
        let right = match &self.right {
            Some(b) => Some(Box::new((&**b).copy())),
            None => None,
        };
        DAGNode { value: self.value.clone(), left, right }
    }
}

/// The recorded nodes by key.
pub struct DAGBuilder {
    pub node_map: Vec<(String, DAGNode)>,
}

/// The recorded nodes as mathematical values.
pub open spec fn map_view(v: Seq<(String, DAGNode)>) -> Seq<(Seq<char>, DagView)> {
    v.map_values(|e: (String, DAGNode)| (e.0@, dag_view(e.1)))
}

impl DAGBuilder {
    /// No nodes recorded.
    pub fn new() -> (r: Self)
        ensures
            r.node_map@.len() == 0,
    {
        DAGBuilder { node_map: Vec::new() }
    }

    /// A copy of the node recorded under `k`, if any.
    fn get(&self, k: &str) -> (r: Option<DAGNode>)
        ensures
            match r {
                Some(n) => map_get(map_view(self.node_map@), k@, 0) == Some(dag_view(n)),
                None => map_get(map_view(self.node_map@), k@, 0) is None,
            },
    {
        let ghost mv = map_view(self.node_map@);
        let mut i: usize = 0;
        while i < self.node_map.len()
            invariant
                mv == map_view(self.node_map@),
                i <= mv.len(),
                map_get(mv, k@, 0) == map_get(mv, k@, i as int),
            decreases mv.len() - i,
        {
            if str_equal(self.node_map[i].0.as_str(), k) {
                return Some(self.node_map[i].1.copy());
            }
            i = i + 1;
        }
        None
    }

    /// Records `n` under `k`, replacing what was there.
    fn put(&mut self, k: &str, n: DAGNode)
        requires
            keys_distinct(map_view(old(self).node_map@)),
        ensures
            keys_distinct(map_view(final(self).node_map@)),
            map_view(final(self).node_map@) == map_insert(map_view(old(self).node_map@), k@, dag_view(n)),
    {
        let ghost mv = map_view(self.node_map@);
        let ghost nv = dag_view(n);
        let mut i: usize = 0;
        while i < self.node_map.len()
            invariant
                mv == map_view(self.node_map@),
                mv == map_view(old(self).node_map@),
                keys_distinct(mv),
                nv == dag_view(n),
                i <= mv.len(),
                forall|j: int| 0 <= j < i ==> mv[j].0 != k@,
            decreases mv.len() - i,
        {
            if str_equal(self.node_map[i].0.as_str(), k) {
                let key = String::from_str(k);
                let ghost entry = (key, n);
                let ghost nm0 = self.node_map@;
                self.node_map.set(i, (key, n));
                assert(self.node_map@ == nm0.update(i as int, entry));
                assert(entry.1 == n);
                assert(dag_view(entry.1) == nv);
                assert(map_view(self.node_map@)[i as int] == (entry.0@, dag_view(entry.1)));
                proof {
                    assert(mv[i as int].0 == k@);
                    let c = choose|c: int| 0 <= c < mv.len() && #[trigger] mv[c].0 == k@;
                    if c != i {
                        if c < i {
                            assert(mv[c].0 != k@);
                        } else {
                            assert(mv[i as int].0 != mv[c].0);
                        }
                    }
                    assert(map_view(self.node_map@) =~= mv.update(i as int, (k@, nv)));
                }
                return;
            }
            i = i + 1;
        }
        self.node_map.push((String::from_str(k), n));
        assert(map_view(self.node_map@) =~= mv.push((k@, nv)));
    }

    /// Adds the node `op` over `left_val` and `right_val`, reusing the node
    /// of the same signature when there is one, and gives it.
    pub fn add_node(&mut self, op: &str, left_val: &str, right_val: Option<&str>) -> (r: DAGNode)
        requires
            keys_distinct(map_view(old(self).node_map@)),
        ensures
            keys_distinct(map_view(final(self).node_map@)),
            (map_view(final(self).node_map@), dag_view(r)) == add_node_spec(map_view(old(self).node_map@), op@,
                left_val@, match right_val { Some(x) => Some(x@), None => None }),
    {
        let mut sig = String::from_str(op);
        push_str(&mut sig, "_");
        push_str(&mut sig, left_val);
        push_str(&mut sig, "_");
        match right_val {
            Some(x) => push_str(&mut sig, x),
            None => push_str(&mut sig, "-"),
        }
        let ghost rv_opt = match right_val { Some(x) => Some(x@), None => None::<Seq<char>> };
        let ghost m0 = map_view(self.node_map@);
        assert(sig@ == signature(op@, left_val@, rv_opt));
        match self.get(sig.as_str()) {
            Some(n) => {
                return n;
            }
            None => {}
        }
        let left_node = match self.get(left_val) {
            Some(n) => n,
            None => DAGNode::new(left_val, None, None),
        };
        assert(dag_view(left_node) == match map_get(m0, left_val@, 0) { Some(n) => n, None => leaf(left_val@) });
        let right_node = match right_val {
            Some(rv) => match self.get(rv) {
                Some(n) => Some(n),
                None => Some(DAGNode::new(rv, None, None)),
            },
            None => None,
        };
        assert(match right_node {
            Some(n) => rv_opt matches Some(x) && dag_view(n) == match map_get(m0, x, 0) { Some(n) => n, None => leaf(x) },
            None => rv_opt is None,
        });
        let new_node = DAGNode::new(op, Some(Box::new(left_node)), match right_node {
            Some(n) => Some(Box::new(n)),
            None => None,
        });
        let ghost nn = dag_view(new_node);
        proof {
            let spec_r = add_node_spec(m0, op@, left_val@, rv_opt);
            assert(nn == spec_r.1);
        }
        let first = new_node.copy();
        self.put(sig.as_str(), first);
        let second = new_node.copy();
        let key = new_node.value.clone();
        self.put(key.as_str(), second);
        new_node
    }
}

} // verus!

verus! {

proof fn lemma_map_get(m: Seq<(Seq<char>, DagView)>, k: Seq<char>, i: int)
    requires
        0 <= i,
    ensures
        match map_get(m, k, i) {
            Some(v) => exists|j: int| i <= j < m.len() && #[trigger] m[j].0 == k && m[j].1 == v,
            None => forall|j: int| i <= j < m.len() ==> #[trigger] m[j].0 != k,
        },
    decreases m.len() - i,
{
    if i < m.len() && m[i].0 != k {
        lemma_map_get(m, k, i + 1);
    }
}

/// With distinct keys, the node recorded at position `j` is what its key finds.
proof fn lemma_map_get_at(m: Seq<(Seq<char>, DagView)>, j: int)
    requires
        keys_distinct(m),
        0 <= j < m.len(),
    ensures
        map_get(m, m[j].0, 0) == Some(m[j].1),
{
    lemma_map_get(m, m[j].0, 0);
    match map_get(m, m[j].0, 0) {
        Some(v) => {
            let w = choose|w: int| 0 <= w < m.len() && #[trigger] m[w].0 == m[j].0 && m[w].1 == v;
            if w != j {
                if w < j {
                    assert(m[w].0 != m[j].0);
                } else {
                    assert(m[j].0 != m[w].0);
                }
            }
        },
        None => {},
    }
}

/// Recording under a key keeps the keys distinct, finds the new node under
/// that key, and keeps what other keys find.
proof fn lemma_map_insert(m: Seq<(Seq<char>, DagView)>, k: Seq<char>, v: DagView)
    requires
        keys_distinct(m),
    ensures
        keys_distinct(map_insert(m, k, v)),
        map_get(map_insert(m, k, v), k, 0) == Some(v),
        forall|k2: Seq<char>| k2 != k ==> #[trigger] map_get(map_insert(m, k, v), k2, 0) == map_get(m, k2, 0),
{
    let m2 = map_insert(m, k, v);
    if exists|i: int| 0 <= i < m.len() && #[trigger] m[i].0 == k {
        let c = choose|i: int| 0 <= i < m.len() && #[trigger] m[i].0 == k;
        assert(m2 == m.update(c, (k, v)));
        assert forall|a: int, b: int| 0 <= a < b < m2.len() implies m2[a].0 != m2[b].0 by {
            assert(m2[a].0 == m[a].0 && m2[b].0 == m[b].0);
        }
        lemma_map_get_at(m2, c);
        assert forall|k2: Seq<char>| k2 != k implies #[trigger] map_get(m2, k2, 0) == map_get(m, k2, 0) by {
            lemma_map_get(m, k2, 0);
            lemma_map_get(m2, k2, 0);
            match map_get(m, k2, 0) {
                Some(x) => {
                    let j = choose|j: int| 0 <= j < m.len() && #[trigger] m[j].0 == k2 && m[j].1 == x;
                    assert(m2[j] == m[j]);
                    lemma_map_get_at(m2, j);
                },
                None => {
                    if map_get(m2, k2, 0) is Some {
                        let j = choose|j: int| 0 <= j < m2.len() && #[trigger] m2[j].0 == k2 && m2[j].1 == map_get(m2, k2, 0).unwrap();
                        assert(m[j].0 == k2);
                    }
                },
            }
        }
    } else {
        assert(m2 == m.push((k, v)));
        assert forall|a: int, b: int| 0 <= a < b < m2.len() implies m2[a].0 != m2[b].0 by {
            if b == m.len() {
                assert(m[a].0 != k);
            }
        }
        lemma_map_get_at(m2, m.len() as int);
        assert forall|k2: Seq<char>| k2 != k implies #[trigger] map_get(m2, k2, 0) == map_get(m, k2, 0) by {
            lemma_map_get(m, k2, 0);
            lemma_map_get(m2, k2, 0);
            match map_get(m, k2, 0) {
                Some(x) => {
                    let j = choose|j: int| 0 <= j < m.len() && #[trigger] m[j].0 == k2 && m[j].1 == x;
                    assert(m2[j] == m[j]);
                    lemma_map_get_at(m2, j);
                },
                None => {
                    if map_get(m2, k2, 0) is Some {
                        let j = choose|j: int| 0 <= j < m2.len() && #[trigger] m2[j].0 == k2 && m2[j].1 == map_get(m2, k2, 0).unwrap();
                        assert(j < m.len());
                        assert(m[j].0 == k2);
                    }
                },
            }
        }
    }
}

/// Common subexpressions are shared: adding the same node again finds it
/// and changes nothing.
pub proof fn law_same_node_reused(m: Seq<(Seq<char>, DagView)>, op: Seq<char>, l: Seq<char>, r: Option<Seq<char>>)
    requires
        keys_distinct(m),
    ensures
        ({
            let (m1, n1) = add_node_spec(m, op, l, r);
            add_node_spec(m1, op, l, r) == (m1, n1)
        }),
{
    let sig = signature(op, l, r);
    match map_get(m, sig, 0) {
        Some(n) => {},
        None => {
            let (m1, n1) = add_node_spec(m, op, l, r);
            let ma = map_insert(m, sig, n1);
            lemma_map_insert(m, sig, n1);
            lemma_map_insert(ma, op, n1);
            reveal_strlit("_");
            assert(sig.len() > op.len());
            assert(sig != op);
            assert(map_get(m1, sig, 0) == map_get(ma, sig, 0));
        },
    }
}

/// A new node's children are the nodes recorded under its operands'
/// names, a leaf only for a name with no node: a node that is not yet
/// recorded is made with the operator as its value, its left child the node
/// recorded under `l` (or the leaf `l`), and its right child the node
/// recorded under `r` (or the leaf `r`), when there is a right operand.
pub proof fn law_children_are_recorded_nodes(m: Seq<(Seq<char>, DagView)>, op: Seq<char>, l: Seq<char>, r: Option<Seq<char>>)
    requires
        map_get(m, signature(op, l, r), 0) is None,
    ensures
        ({
            let n = add_node_spec(m, op, l, r).1;
            &&& n.value == op
            &&& map_get(m, l, 0) matches Some(ln) ==> n.left == Some(Box::new(ln))
            &&& map_get(m, l, 0) is None ==> n.left == Some(Box::new(leaf(l)))
            &&& r is None ==> n.right is None
            &&& r matches Some(x) ==> (map_get(m, x, 0) matches Some(rn) ==> n.right == Some(Box::new(rn)))
            &&& r matches Some(x) ==> (map_get(m, x, 0) is None ==> n.right == Some(Box::new(leaf(x))))
        }),
{
}

/// Subexpressions are shared: after a new node for `op1` is added, a node
/// added next with `op1` as its left operand has that node, with its
/// children, as its left child (and likewise on the right).
pub proof fn law_shared_subexpression(
    m: Seq<(Seq<char>, DagView)>,
    op1: Seq<char>, a: Seq<char>, b: Option<Seq<char>>,
    op2: Seq<char>, r2: Option<Seq<char>>,
)
    requires
        keys_distinct(m),
        map_get(m, signature(op1, a, b), 0) is None,
    ensures
        ({
            let (m1, n1) = add_node_spec(m, op1, a, b);
            map_get(m1, signature(op2, op1, r2), 0) is None
                ==> add_node_spec(m1, op2, op1, r2).1.left == Some(Box::new(n1))
        }),
{
    let sig = signature(op1, a, b);
    let (m1, n1) = add_node_spec(m, op1, a, b);
    let ma = map_insert(m, sig, n1);
    lemma_map_insert(m, sig, n1);
    lemma_map_insert(ma, op1, n1);
    assert(map_get(m1, op1, 0) == Some(n1));
}

} // verus!
