//! The symbol table: interns number and identifier tokens by the deterministic
//! hash of their lexeme, keeping first-insertion order for display indices.
use vstd::prelude::*;
use std::collections::HashMap;
use crate::hashing::lexeme_hash;
use crate::token::{STok, Token};

verus! {

broadcast use vstd::std_specs::hash::group_hash_axioms;

/// The mathematical model of one symbol table entry.
#[verifier::ext_equal]
pub ghost struct STokIdx {
    pub token: STok,
    pub index: int,
}

/// The mathematical model of the symbol table: the interning map and the
/// hashes in first-insertion order.
#[verifier::ext_equal]
pub ghost struct SSym {
    pub table: Map<u64, STokIdx>,
    pub order: Seq<u64>,
}

/// The empty symbol table model.
pub open spec fn sym_empty() -> SSym {
    SSym { table: Map::empty(), order: Seq::empty() }
}

/// The symbol table model after interning one token: a token whose lexeme
/// hash is already present changes nothing; otherwise the token is recorded
/// under the next insertion index and its hash is appended to the order.
pub open spec fn sym_after(s: SSym, t: STok) -> SSym {
    let h = lexeme_hash(t.lexeme);
    if s.table.contains_key(h) {
        s
    } else {
        SSym {
            table: s.table.insert(h, STokIdx { token: t, index: s.order.len() as int }),
            order: s.order.push(h),
        }
    }
}

#[derive(Debug)]
pub struct TokenWithIndex {
    pub token: Token,
    pub index: usize,
}

impl Clone for TokenWithIndex {
    fn clone(&self) -> (r: Self)
        ensures
            r@ == self@,
    {
        TokenWithIndex { token: self.token.clone(), index: self.index }
    }
}

impl View for TokenWithIndex {
    type V = STokIdx;

    open spec fn view(&self) -> STokIdx {
        STokIdx { token: self.token@, index: self.index as int }
    }
}

impl TokenWithIndex {
    pub fn new(token: Token, index: usize) -> (r: Self)
        ensures
            r@ == (STokIdx { token: token@, index: index as int }),
    {
        TokenWithIndex { token, index }
    }
}

#[derive(Debug)]
pub struct SymbolsTable {
    pub table: HashMap<u64, TokenWithIndex>,
    pub stack: Vec<u64>,
}

impl View for SymbolsTable {
    type V = SSym;

    open spec fn view(&self) -> SSym {
        SSym {
            table: Map::new(
                |h: u64| self.table@.contains_key(h),
                |h: u64| self.table@[h]@,
            ),
            order: self.stack@,
        }
    }
}

impl SymbolsTable {
    /// The order sequence lists exactly the interned hashes, without
    /// duplicates, each entry records its own position in that order, and each
    /// entry sits under the hash of its own lexeme.
    pub open spec fn wf(self) -> bool {
        &&& self@.order.no_duplicates()
        &&& (forall|i: int|
            0 <= i < self@.order.len() ==> #[trigger] self@.table.contains_key(self@.order[i])
                && self@.table[self@.order[i]].index == i)
        &&& (forall|h: u64| self@.table.contains_key(h) ==> #[trigger] self@.order.contains(h))
        &&& (forall|h: u64| #[trigger] self@.table.contains_key(h) ==> lexeme_hash(
            self@.table[h].token.lexeme,
        ) == h)
    }

    pub fn new() -> (r: Self)
        ensures
            r@ == sym_empty(),
            r.wf(),
    {
        let r = SymbolsTable { table: HashMap::new(), stack: Vec::new() };
        proof {
            assert(r@ =~~= sym_empty());
        }
        r
    }

    /// Interns a token by the deterministic hash of its lexeme and returns
    /// that hash; idempotent on tokens whose lexeme was already interned.
    pub fn add(&mut self, token: &Token) -> (h: u64)
        requires
            old(self).wf(),
        ensures
            final(self).wf(),
            h == lexeme_hash(token@.lexeme),
            final(self)@ == sym_after(old(self)@, token@),
    {
        let hash = token.get_default_hash();
        if self.table.get(&hash).is_none() {
            let token_with_index = TokenWithIndex::new(token.clone(), self.stack.len());
            self.table.insert(hash, token_with_index);
            self.stack.push(hash);
            proof {
                let osv = old(self)@;
                let n = osv.order.len() as int;
                assert(!osv.table.contains_key(hash));
                assert forall|i: int| 0 <= i < n implies osv.order[i] != hash by {
                    assert(osv.table.contains_key(osv.order[i]));
                }
                assert(self@ =~~= sym_after(osv, token@));
                assert forall|i: int, j: int|
                    0 <= i < self@.order.len() && 0 <= j < self@.order.len() && i
                        != j implies self@.order[i] != self@.order[j] by {
                    if i < n && j < n {
                        assert(osv.order[i] != osv.order[j]);
                    }
                }
                assert(self@.order.no_duplicates());
                assert forall|i: int| 0 <= i < self@.order.len() implies #[trigger] self@
                    .table
                    .contains_key(self@.order[i]) && self@.table[self@.order[i]].index == i by {
                    if i < n {
                        assert(osv.table.contains_key(osv.order[i]));
                        assert(osv.order[i] != hash);
                    } else {
                        assert(self@.order[i] == hash);
                    }
                }
                assert forall|h2: u64| self@.table.contains_key(h2) implies #[trigger] self@
                    .order
                    .contains(h2) by {
                    if h2 == hash {
                        assert(self@.order[n] == hash);
                    } else {
                        assert(osv.table.contains_key(h2));
                        assert(osv.order.contains(h2));
                        let i = choose|i: int| 0 <= i < n && osv.order[i] == h2;
                        assert(self@.order[i] == h2);
                    }
                }
            }
        } else {
            proof {
                assert(self@ =~~= sym_after(old(self)@, token@));
            }
        }
        hash
    }

    /// Pure read of an interned entry by its hash.
    pub fn get(&self, hash: &u64) -> (r: Option<&TokenWithIndex>)
        ensures
            match r {
                Some(e) => self@.table.contains_key(*hash) && e@ == self@.table[*hash],
                None => !self@.table.contains_key(*hash),
            },
    {
        self.table.get(hash)
    }

    /// A deep copy whose model is the same.
    pub fn duplicate(&self) -> (r: Self)
        ensures
            r@ == self@,
    {
        let r = SymbolsTable { table: self.table.clone(), stack: self.stack.clone() };
        proof {
            assert(r@ =~~= self@);
        }
        r
    }
}

} // verus!
