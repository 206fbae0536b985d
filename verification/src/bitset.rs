use vstd::arithmetic::div_mod::{lemma_fundamental_div_mod, lemma_mod_bound};
use vstd::prelude::*;

verus! {

/// Whether bit `k` of the word `w` is one.
pub open spec fn word_bit(w: u64, k: u64) -> bool
    recommends
        k < 64,
{
    w & (1u64 << k) != 0
}

/// A fixed array of 4096 bits packed into 64 machine words. Its view is the
/// sequence of the 4096 bits.
pub struct Bits4096 {
    words: Vec<u64>,
}

impl View for Bits4096 {
    type V = Seq<bool>;

    closed spec fn view(&self) -> Seq<bool> {
        Seq::new(4096, |i: int| word_bit(self.words@[i / 64], (i % 64) as u64))
    }
}

proof fn lemma_word_index(i: int)
    requires
        0 <= i < 4096,
    ensures
        0 <= i / 64 < 64,
        0 <= i % 64 < 64,
        i == 64 * (i / 64) + i % 64,
{
    lemma_fundamental_div_mod(i, 64);
    lemma_mod_bound(i, 64);
}

impl Bits4096 {
    pub closed spec fn wf(self) -> bool {
        self.words@.len() == 64
    }

    /// A bitset with every bit clear.
    pub fn empty() -> (r: Bits4096)
        ensures
            r.wf(),
            r@.len() == 4096,
            forall|i: int| 0 <= i < 4096 ==> !r@[i],
    {
        let mut words: Vec<u64> = Vec::new();
        let mut n: usize = 0;
        while n < 64
            invariant
                words@.len() == n as int,
                n <= 64,
                forall|j: int| 0 <= j < n ==> words@[j] == 0u64,
            decreases 64 - n,
        {
            words.push(0u64);
            n = n + 1;
        }
        let r = Bits4096 { words };
        proof {
            assert forall|i: int| 0 <= i < 4096 implies !r@[i] by {
                lemma_word_index(i);
                let k: u64 = (i % 64) as u64;
                assert(0u64 & (1u64 << k) == 0) by (bit_vector);
            }
        }
        r
    }

    /// Read bit `i`.
    pub fn get_bit(&self, i: usize) -> (r: bool)
        requires
            self.wf(),
            i < 4096,
        ensures
            r == self@[i as int],
    {
        proof {
            lemma_word_index(i as int);
        }
        let w: u64 = self.words[i / 64];
        let k: u64 = (i % 64) as u64;
        (w & (1u64 << k)) != 0
    }

    /// Set bit `i` to one, leaving every other bit as it was.
    pub fn set_bit(&mut self, i: usize)
        requires
            old(self).wf(),
            i < 4096,
        ensures
            final(self).wf(),
            final(self)@ == old(self)@.update(i as int, true),
    {
        proof {
            lemma_word_index(i as int);
        }
        let idx: usize = i / 64;
        let k: u64 = (i % 64) as u64;
        let w: u64 = self.words[idx];
        let nw: u64 = w | (1u64 << k);
        self.words.set(idx, nw);
        proof {
            assert forall|j: int| 0 <= j < 4096 implies self@[j] == old(self)@.update(
                i as int,
                true,
            )[j] by {
                lemma_word_index(j);
                let jk: u64 = (j % 64) as u64;
                if j / 64 == i as int / 64 {
                    if j == i as int {
                        assert((w | (1u64 << k)) & (1u64 << jk) != 0) by (bit_vector)
                            requires
                                jk == k,
                                k < 64,
                        ;
                    } else {
                        assert(jk != k) by {
                            lemma_word_index(i as int);
                        }
                        assert(((w | (1u64 << k)) & (1u64 << jk) != 0) == (w & (1u64 << jk)
                            != 0)) by (bit_vector)
                            requires
                                k < 64,
                                jk < 64,
                                jk != k,
                        ;
                    }
                }
            }
            assert(self@ =~= old(self)@.update(i as int, true));
        }
    }
}

} // verus!
