//! The parse tree: an n-ary tree of labels that mirrors every grammar
//! production, kept purely for display.
use vstd::prelude::*;

verus! {

broadcast use vstd::std_specs::vec::group_vec_axioms, vstd::seq::group_seq_axioms;

/// The mathematical model of a parse-tree node.
#[verifier::ext_equal]
pub ghost struct STree {
    pub root: Seq<char>,
    pub items: Seq<STree>,
}

#[derive(Debug)]
pub struct TreeItem {
    pub root: String,
    pub items: Vec<TreeItem>,
}

/// The models of a sequence of parse-tree nodes, in order.
pub open spec fn trees_view(ts: Seq<TreeItem>) -> Seq<STree>
    decreases ts,
{
    if ts.len() == 0 {
        Seq::empty()
    } else {
        seq![ts[0]@] + trees_view(ts.subrange(1, ts.len() as int))
    }
}

impl View for TreeItem {
    type V = STree;

    open spec fn view(&self) -> STree
        decreases self,
    {
        STree { root: self.root@, items: trees_view(self.items@) }
    }
}

/// A sequence of nodes models elementwise.
pub broadcast proof fn lemma_trees_view(ts: Seq<TreeItem>)
    ensures
        (#[trigger] trees_view(ts)).len() == ts.len(),
        forall|i: int| 0 <= i < ts.len() ==> trees_view(ts)[i] == #[trigger] ts[i]@,
    decreases ts.len(),
{
    reveal_with_fuel(trees_view, 2);
    if ts.len() > 0 {
        lemma_trees_view(ts.subrange(1, ts.len() as int));
        assert forall|i: int| 0 <= i < ts.len() implies trees_view(ts)[i] == #[trigger] ts[i]@ by {
            if i > 0 {
                assert(trees_view(ts)[i] == trees_view(ts.subrange(1, ts.len() as int))[i - 1]);
                assert(ts.subrange(1, ts.len() as int)[i - 1] == ts[i]);
            }
        }
    }
}

/// The model of a leaf node with the given label.
pub open spec fn leaf(root: Seq<char>) -> STree {
    STree { root, items: Seq::empty() }
}

impl Clone for TreeItem {
    fn clone(&self) -> (r: Self)
        ensures
            r@ == self@,
        decreases self,
    {
        let mut items: Vec<TreeItem> = Vec::new();
        let mut i: usize = 0;
        while i < self.items.len()
            invariant
                i <= self.items.len(),
                items@.len() == i as int,
                forall|j: int| 0 <= j < i as int ==> #[trigger] items@[j]@ == self.items@[j]@,
            decreases self.items.len() - i,
        {
            let item = (&self.items[i]).clone();
            items.push(item);
            i = i + 1;
        }
        let r = TreeItem { root: self.root.clone(), items };
        proof {
            lemma_trees_view(r.items@);
            lemma_trees_view(self.items@);
            assert(r@.items == trees_view(r.items@));
            assert(self@.items == trees_view(self.items@));
            assert(r@.root == self@.root);
            assert(r@.items.len() == self@.items.len());
            assert forall|j: int| 0 <= j < r@.items.len() implies r@.items[j] == self@.items[j] by {
                assert(trees_view(r.items@)[j] == r.items@[j]@);
                assert(trees_view(self.items@)[j] == self.items@[j]@);
                assert(r.items@[j]@ == self.items@[j]@);
            }
            assert(r@.items =~= self@.items);
            assert(r@ == self@);
        }
        r
    }
}

impl TreeItem {
    pub fn new(root: &str) -> (r: Self)
        ensures
            r@ == leaf(root@),
    {
        let r = TreeItem { root: String::from_str(root), items: Vec::new() };
        proof {
            lemma_trees_view(r.items@);
            assert(r@.root == root@);
            assert(r@.items =~= Seq::<STree>::empty());
            assert(r@ == leaf(root@));
        }
        r
    }
}

impl TreeItem {
    /// A node with one child.
    pub fn branch1(root: String, a: TreeItem) -> (r: Self)
        ensures
            r@ == (STree { root: root@, items: seq![a@] }),
    {
        let mut items: Vec<TreeItem> = Vec::new();
        items.push(a);
        let r = TreeItem { root, items };
        proof {
            lemma_trees_view(r.items@);
            assert(trees_view(r.items@)[0] == r.items@[0]@);
            assert(r@.items =~= seq![a@]);
            assert(r@ == (STree { root: root@, items: seq![a@] }));
        }
        r
    }

    /// A node with two children.
    pub fn branch2(root: String, a: TreeItem, b: TreeItem) -> (r: Self)
        ensures
            r@ == (STree { root: root@, items: seq![a@, b@] }),
    {
        let ghost va = a@;
        let ghost vb = b@;
        let mut items: Vec<TreeItem> = Vec::new();
        items.push(a);
        items.push(b);
        let r = TreeItem { root, items };
        proof {
            lemma_trees_view(r.items@);
            assert(trees_view(r.items@)[0] == r.items@[0]@);
            assert(trees_view(r.items@)[1] == r.items@[1]@);
            assert(r@.items =~= seq![va, vb]);
            assert(r@ == (STree { root: root@, items: seq![va, vb] }));
        }
        r
    }

    /// A node with three children.
    pub fn branch3(root: String, a: TreeItem, b: TreeItem, c: TreeItem) -> (r: Self)
        ensures
            r@ == (STree { root: root@, items: seq![a@, b@, c@] }),
    {
        let ghost va = a@;
        let ghost vb = b@;
        let ghost vc = c@;
        let mut items: Vec<TreeItem> = Vec::new();
        items.push(a);
        items.push(b);
        items.push(c);
        let r = TreeItem { root, items };
        proof {
            lemma_trees_view(r.items@);
            assert(trees_view(r.items@)[0] == r.items@[0]@);
            assert(trees_view(r.items@)[1] == r.items@[1]@);
            assert(trees_view(r.items@)[2] == r.items@[2]@);
            assert(r@.items =~= seq![va, vb, vc]);
            assert(r@ == (STree { root: root@, items: seq![va, vb, vc] }));
        }
        r
    }

    /// Appends one more child.
    pub fn add_item(&mut self, c: TreeItem)
        ensures
            final(self)@ == (STree {
                root: old(self)@.root,
                items: old(self)@.items.push(c@),
            }),
    {
        let ghost vc = c@;
        self.items.push(c);
        proof {
            lemma_trees_view(self.items@);
            lemma_trees_view(old(self).items@);
            assert forall|j: int| 0 <= j < self@.items.len() implies self@.items[j] == old(
                self,
            )@.items.push(vc)[j] by {
                assert(trees_view(self.items@)[j] == self.items@[j]@);
                if j < old(self).items@.len() {
                    assert(self.items@[j] == old(self).items@[j]);
                    assert(trees_view(old(self).items@)[j] == old(self).items@[j]@);
                } else {
                    assert(self.items@[j] == c);
                }
            }
            assert(self@.items =~= old(self)@.items.push(vc));
            assert(self@ == (STree { root: old(self)@.root, items: old(self)@.items.push(vc) }));
        }
    }
}

} // verus!
