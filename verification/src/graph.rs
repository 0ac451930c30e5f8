//! The expression graph: syntax nodes interned by a deterministic structural
//! hash, so that structurally identical sub-expressions collapse to one node
//! (a DAG).  Insertion order is kept for display indices, and a ghost record
//! of every intern call supports the operator-counting law.
use vstd::prelude::*;
use std::collections::HashMap;
use crate::hashing::{fnv_fold, fnv_step, FNV_OFFSET, FNV_PRIME};
use crate::token::TokenType;

verus! {

broadcast use vstd::std_specs::hash::group_hash_axioms;

/// A syntax node: for a leaf, `left` is the hash of the interned symbol and
/// `right` is unused; for an internal node, `left` and `right` are the hashes
/// of the operand nodes.
#[derive(Clone, Copy, Debug, PartialEq, Eq, Structural)]
pub struct Node {
    pub op: TokenType,
    pub is_leaf: bool,
    pub left: u64,
    pub right: u64,
}

/// A fixed code for each token kind, fed to the structural hash.
pub open spec fn kind_code(t: TokenType) -> u64 {
    match t {
        TokenType::Number => 0,
        TokenType::Id => 1,
        TokenType::Plus => 2,
        TokenType::Minus => 3,
        TokenType::Asterisk => 4,
        TokenType::Slash => 5,
        TokenType::OpenParenthesis => 6,
        TokenType::ClosingParenthesis => 7,
        TokenType::Unknown => 8,
        TokenType::EOF => 9,
    }
}

/// The deterministic structural hash of a node: FNV-1a over its operator code,
/// leaf flag, and operand identities.
pub open spec fn node_hash(n: Node) -> u64 {
    fnv_fold(
        FNV_OFFSET,
        seq![kind_code(n.op), if n.is_leaf { 1u64 } else { 0u64 }, n.left, n.right],
    )
}

/// The mathematical model of one graph entry.
#[verifier::ext_equal]
pub ghost struct SNodeIdx {
    pub node: Node,
    pub index: int,
}

/// The mathematical model of the expression graph: the interning map, the
/// hashes in first-insertion order, and every node ever handed to `add`.
#[verifier::ext_equal]
pub ghost struct SGr {
    pub table: Map<u64, SNodeIdx>,
    pub order: Seq<u64>,
    pub adds: Seq<Node>,
}

/// The empty graph model.
pub open spec fn gr_empty() -> SGr {
    SGr { table: Map::empty(), order: Seq::empty(), adds: Seq::empty() }
}

/// The graph model after interning one node: a node whose structural hash is
/// already present changes nothing but the record of calls; otherwise the node
/// is recorded under the next insertion index.
pub open spec fn gr_after(g: SGr, n: Node) -> SGr {
    let h = node_hash(n);
    if g.table.contains_key(h) {
        SGr { adds: g.adds.push(n), ..g }
    } else {
        SGr {
            table: g.table.insert(h, SNodeIdx { node: n, index: g.order.len() as int }),
            order: g.order.push(h),
            adds: g.adds.push(n),
        }
    }
}

#[derive(Debug, Clone, Copy)]
pub struct NodeWithIndex {
    pub node: Node,
    pub index: usize,
}

impl View for NodeWithIndex {
    type V = SNodeIdx;

    open spec fn view(&self) -> SNodeIdx {
        SNodeIdx { node: self.node, index: self.index as int }
    }
}

impl NodeWithIndex {
    pub fn new(node: Node, index: usize) -> (r: Self)
        ensures
            r@ == (SNodeIdx { node, index: index as int }),
    {
        NodeWithIndex { index, node }
    }
}

pub struct Graph {
    pub table: HashMap<u64, NodeWithIndex>,
    pub stack: Vec<u64>,
    pub adds: Ghost<Seq<Node>>,
}

impl View for Graph {
    type V = SGr;

    open spec fn view(&self) -> SGr {
        SGr {
            table: Map::new(|h: u64| self.table@.contains_key(h), |h: u64| self.table@[h]@),
            order: self.stack@,
            adds: self.adds@,
        }
    }
}

/// Computes the structural hash of a node.
pub fn hash_node(n: &Node) -> (r: u64)
    ensures
        r == node_hash(*n),
{
    let code: u64 = match n.op {
        TokenType::Number => 0,
        TokenType::Id => 1,
        TokenType::Plus => 2,
        TokenType::Minus => 3,
        TokenType::Asterisk => 4,
        TokenType::Slash => 5,
        TokenType::OpenParenthesis => 6,
        TokenType::ClosingParenthesis => 7,
        TokenType::Unknown => 8,
        TokenType::EOF => 9,
    };
    let flag: u64 = if n.is_leaf {
        1
    } else {
        0
    };
    let h0 = FNV_OFFSET;
    let h1 = (h0 ^ code).wrapping_mul(FNV_PRIME);
    let h2 = (h1 ^ flag).wrapping_mul(FNV_PRIME);
    let h3 = (h2 ^ n.left).wrapping_mul(FNV_PRIME);
    let h4 = (h3 ^ n.right).wrapping_mul(FNV_PRIME);
    proof {
        assert(code == kind_code(n.op));
        let s = seq![kind_code(n.op), flag, n.left, n.right];
        let s1 = seq![flag, n.left, n.right];
        let s2 = seq![n.left, n.right];
        let s3 = seq![n.right];
        assert(s.skip(1) =~= s1);
        assert(s1.skip(1) =~= s2);
        assert(s2.skip(1) =~= s3);
        assert(s3.skip(1) =~= Seq::<u64>::empty());
        assert(s[0] == kind_code(n.op) && s1[0] == flag && s2[0] == n.left && s3[0] == n.right);
        assert(fnv_fold(FNV_OFFSET, s) == fnv_fold(fnv_step(FNV_OFFSET, kind_code(n.op)), s1));
        assert(fnv_fold(h1, s1) == fnv_fold(fnv_step(h1, flag), s2));
        assert(fnv_fold(h2, s2) == fnv_fold(fnv_step(h2, n.left), s3));
        assert(fnv_fold(h3, s3) == fnv_fold(fnv_step(h3, n.right), Seq::<u64>::empty()));
        assert(fnv_fold(h4, Seq::<u64>::empty()) == h4);
    }
    h4
}

impl Graph {
    /// The order sequence lists exactly the interned hashes, without
    /// duplicates, each entry records its own position in that order, and each
    /// entry sits under the structural hash of its own node.
    pub open spec fn wf(self) -> bool {
        &&& self@.order.no_duplicates()
        &&& (forall|i: int|
            0 <= i < self@.order.len() ==> #[trigger] self@.table.contains_key(self@.order[i])
                && self@.table[self@.order[i]].index == i)
        &&& (forall|h: u64| self@.table.contains_key(h) ==> #[trigger] self@.order.contains(h))
        &&& (forall|h: u64| #[trigger] self@.table.contains_key(h) ==> node_hash(
            self@.table[h].node,
        ) == h)
    }

    pub fn new() -> (r: Self)
        ensures
            r@ == gr_empty(),
            r.wf(),
    {
        let r = Graph { table: HashMap::new(), stack: Vec::new(), adds: Ghost(Seq::empty()) };
        proof {
            assert(r@ =~~= gr_empty());
        }
        r
    }

    /// Interns a node by its structural hash and returns that hash; two
    /// structurally identical nodes collapse to one entry.
    pub fn add(&mut self, node: Node) -> (h: u64)
        requires
            old(self).wf(),
        ensures
            final(self).wf(),
            h == node_hash(node),
            final(self)@ == gr_after(old(self)@, node),
    {
        let hash = hash_node(&node);
        self.adds = Ghost(self.adds@.push(node));
        if self.table.get(&hash).is_none() {
            let node_with_index = NodeWithIndex::new(node, self.stack.len());
            self.table.insert(hash, node_with_index);
            self.stack.push(hash);
            proof {
                let osv = old(self)@;
                let n = osv.order.len() as int;
                assert(!osv.table.contains_key(hash));
                assert forall|i: int| 0 <= i < n implies osv.order[i] != hash by {
                    assert(osv.table.contains_key(osv.order[i]));
                }
                assert(self@ =~~= gr_after(osv, node));
                assert forall|i: int, j: int|
                    0 <= i < self@.order.len() && 0 <= j < self@.order.len() && i
                        != j implies self@.order[i] != self@.order[j] by {
                    if i < n && j < n {
                        assert(osv.order[i] != osv.order[j]);
                    }
                }
                assert(self@.order.no_duplicates());
                assert forall|i: int| 0 <= i < self@.order.len() implies #[trigger] self@
                    .table
                    .contains_key(self@.order[i]) && self@.table[self@.order[i]].index == i by {
                    if i < n {
                        assert(osv.table.contains_key(osv.order[i]));
                        assert(osv.order[i] != hash);
                    } else {
                        assert(self@.order[i] == hash);
                    }
                }
                assert forall|h2: u64| self@.table.contains_key(h2) implies #[trigger] self@
                    .order
                    .contains(h2) by {
                    if h2 == hash {
                        assert(self@.order[n] == hash);
                    } else {
                        assert(osv.table.contains_key(h2));
                        assert(osv.order.contains(h2));
                        let i = choose|i: int| 0 <= i < n && osv.order[i] == h2;
                        assert(self@.order[i] == h2);
                    }
                }
            }
        } else {
            proof {
                assert(self@ =~~= gr_after(old(self)@, node));
            }
        }
        hash
    }

    /// Pure read of an interned entry by its hash.
    pub fn get(&self, hash: &u64) -> (r: Option<&NodeWithIndex>)
        ensures
            match r {
                Some(e) => self@.table.contains_key(*hash) && e@ == self@.table[*hash],
                None => !self@.table.contains_key(*hash),
            },
    {
        self.table.get(hash)
    }

    /// A deep copy whose model is the same.
    pub fn duplicate(&self) -> (r: Self)
        ensures
            r@ == self@,
            self.wf() ==> r.wf(),
    {
        let r = Graph {
            table: self.table.clone(),
            stack: self.stack.clone(),
            adds: Ghost(self.adds@),
        };
        proof {
            assert(r@.table =~~= self@.table);
            assert(r@.order =~= self@.order);
            assert(r@ =~~= self@);
        }
        r
    }
}

} // verus!
