//! The deterministic 64-bit hash (FNV-1a) that keys the symbol table and the
//! expression graph.
use vstd::prelude::*;

verus! {

pub const FNV_OFFSET: u64 = 0xcbf2_9ce4_8422_2325;

pub const FNV_PRIME: u64 = 0x0000_0100_0000_01b3;

/// One round of the 64-bit FNV-1a mixing function.
pub open spec fn fnv_step(h: u64, v: u64) -> u64 {
    (h ^ v).wrapping_mul(FNV_PRIME)
}

/// Left fold of the mixing round over a sequence of words.
pub open spec fn fnv_fold(h: u64, s: Seq<u64>) -> u64
    decreases s.len(),
{
    if s.len() == 0 {
        h
    } else {
        fnv_fold(fnv_step(h, s[0]), s.skip(1))
    }
}

pub open spec fn chars_as_words(s: Seq<char>) -> Seq<u64> {
    s.map(|_i: int, c: char| c as u64)
}

/// The hash that interns a lexeme: FNV-1a over its characters.
pub open spec fn lexeme_hash(s: Seq<char>) -> u64 {
    fnv_fold(FNV_OFFSET, chars_as_words(s))
}

pub proof fn lemma_fnv_fold_push(h: u64, s: Seq<u64>, v: u64)
    ensures
        fnv_fold(h, s.push(v)) == fnv_step(fnv_fold(h, s), v),
    decreases s.len(),
{
    if s.len() == 0 {
        assert(s.push(v)[0] == v);
        assert(s.push(v).skip(1) =~= Seq::<u64>::empty());
        assert(fnv_fold(h, s.push(v)) == fnv_fold(fnv_step(h, v), Seq::<u64>::empty()));
    } else {
        assert(s.push(v)[0] == s[0]);
        assert(s.push(v).skip(1) =~= s.skip(1).push(v));
        lemma_fnv_fold_push(fnv_step(h, s[0]), s.skip(1), v);
    }
}

/// FNV-1a over the characters of a string.
pub fn hash_str(s: &str) -> (r: u64)
    ensures
        r == lexeme_hash(s@),
{
    let n = s.unicode_len();
    let mut h = FNV_OFFSET;
    let mut i: usize = 0;
    while i < n
        invariant
            i <= n,
            n == s@.len(),
            h == fnv_fold(FNV_OFFSET, chars_as_words(s@.take(i as int))),
        decreases n - i,
    {
        let c = s.get_char(i);
        proof {
            assert(chars_as_words(s@.take(i + 1 as int)) =~= chars_as_words(
                s@.take(i as int),
            ).push(c as u64));
            lemma_fnv_fold_push(FNV_OFFSET, chars_as_words(s@.take(i as int)), c as u64);
        }
        h = (h ^ (c as u64)).wrapping_mul(FNV_PRIME);
        i = i + 1;
    }
    proof {
        assert(s@.take(n as int) =~= s@);
    }
    h
}

} // verus!
