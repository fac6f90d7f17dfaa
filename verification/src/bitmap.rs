//! A dense bit array stored in 64-bit words, with word-level lemmas
//! shared by the trimmers' flat bitmaps.

use vstd::prelude::*;

verus! {

/// Whether bit `j` of the word is set.
pub open spec fn word_bit(w: u64, j: u64) -> bool
    recommends
        j < 64,
{
    ((w >> j) & 1) == 1
}

/// Setting one bit of a word changes that bit alone.
pub proof fn lemma_word_bit_or(w: u64, j: u64, k: u64)
    requires
        j < 64,
        k < 64,
    ensures
        word_bit(w | (1u64 << j), k) == (k == j || word_bit(w, k)),
{
    assert((((w | (1u64 << j)) >> k) & 1 == 1) == (k == j || ((w >> k) & 1 == 1))) by (bit_vector)
        requires
            j < 64,
            k < 64,
    ;
}

/// Clearing one bit of a word changes that bit alone.
pub proof fn lemma_word_bit_clear(w: u64, j: u64, k: u64)
    requires
        j < 64,
        k < 64,
    ensures
        word_bit(w & !(1u64 << j), k) == (k != j && word_bit(w, k)),
{
    assert((((w & !(1u64 << j)) >> k) & 1 == 1) == (k != j && ((w >> k) & 1 == 1))) by (bit_vector)
        requires
            j < 64,
            k < 64,
    ;
}

/// Masking a word to its low `j` bits keeps exactly the bits below `j`.
pub proof fn lemma_word_bit_mask(w: u64, j: u64, k: u64)
    requires
        0 < j < 64,
        k < 64,
    ensures
        word_bit(w & (((1u64 << j) - 1) as u64), k) == (k < j && word_bit(w, k)),
{
    assert((((w & (((1u64 << j) - 1) as u64)) >> k) & 1 == 1) == (k < j && ((w >> k) & 1 == 1)))
        by (bit_vector)
        requires
            0 < j < 64,
            k < 64,
    ;
}

/// The zero word has no bit set; the all-ones word has every bit set.
pub proof fn lemma_word_bit_const(k: u64)
    requires
        k < 64,
    ensures
        !word_bit(0u64, k),
        word_bit(0xffffffffffffffffu64, k),
{
    assert(((0u64 >> k) & 1) == 0 && ((0xffffffffffffffffu64 >> k) & 1) == 1) by (bit_vector)
        requires
            k < 64,
    ;
}

/// Number of set bits in a bit sequence.
pub open spec fn spec_count(s: Seq<bool>) -> nat
    decreases s.len(),
{
    if s.len() == 0 {
        0
    } else {
        spec_count(s.drop_last()) + (if s.last() {
            1nat
        } else {
            0nat
        })
    }
}

/// The count of set bits never exceeds the length.
pub proof fn lemma_count_le_len(s: Seq<bool>)
    ensures
        spec_count(s) <= s.len(),
    decreases s.len(),
{
    if s.len() > 0 {
        lemma_count_le_len(s.drop_last());
    }
}

/// A pointwise-smaller bit sequence has a count no larger.
pub proof fn lemma_count_le_mono(s: Seq<bool>, t: Seq<bool>)
    requires
        s.len() == t.len(),
        forall|i: int| 0 <= i < s.len() && #[trigger] s[i] ==> t[i],
    ensures
        spec_count(s) <= spec_count(t),
    decreases s.len(),
{
    if s.len() > 0 {
        lemma_count_le_mono(s.drop_last(), t.drop_last());
        assert(s.last() ==> t.last());
    }
}

/// A pointwise-smaller bit sequence with the same count is the same
/// sequence.
pub proof fn lemma_count_eq_subset(s: Seq<bool>, t: Seq<bool>)
    requires
        s.len() == t.len(),
        forall|i: int| 0 <= i < s.len() && #[trigger] s[i] ==> t[i],
        spec_count(s) == spec_count(t),
    ensures
        s =~= t,
    decreases s.len(),
{
    if s.len() > 0 {
        lemma_count_le_mono(s.drop_last(), t.drop_last());
        assert(s.last() ==> t.last());
        if s.last() != t.last() {
            assert(spec_count(t) == spec_count(t.drop_last()) + 1);
            assert(false);
        }
        lemma_count_eq_subset(s.drop_last(), t.drop_last());
        assert forall|i: int| 0 <= i < s.len() implies s[i] == t[i] by {
            if i < s.len() - 1 {
                assert(s.drop_last()[i] == t.drop_last()[i]);
            }
        }
    }
}

/// The bit sequence of a bitmap is exactly as long as its size.
pub broadcast proof fn lemma_bits_len(b: Bitmap)
    ensures
        (#[trigger] b.bits()).len() == b.spec_size() as nat,
{
}

/// A bitmap of `size` bits packed into 64-bit words.
pub struct Bitmap {
    buffer: Vec<u64>,
    size: u64,
}

impl Bitmap {
    /// The bits held, in index order.
    pub closed spec fn bits(&self) -> Seq<bool> {
        Seq::new(self.size as nat, |i: int| word_bit(self.buffer@[i / 64], (i % 64) as u64))
    }

    /// The number of bits.
    pub closed spec fn spec_size(&self) -> u64 {
        self.size
    }

    /// The buffer is exactly large enough for the bits, and the padding
    /// bits of the last word, past `size`, are all zero.
    pub closed spec fn well_formed(&self) -> bool {
        &&& self.buffer@.len() == ((self.size + 63) / 64) as int
        &&& forall|i: int|
            self.size as int <= i < 64 * self.buffer@.len() ==> !word_bit(
                #[trigger] self.buffer@[i / 64],
                (i % 64) as u64,
            )
    }

    /// Create a new bitmap with the specified size, all bits clear.
    pub fn new(size: u64) -> (r: Self)
        requires
            size + 63 < 0x10000000000000000,
            (size + 63) / 64 <= usize::MAX,
        ensures
            r.well_formed(),
            r.spec_size() == size,
            r.bits() =~= Seq::new(size as nat, |i: int| false),
    {
        let buffer_size: u64 = (size + 63) / 64;
        let mut buffer: Vec<u64> = Vec::new();
        let mut i: u64 = 0;
        while i < buffer_size
            invariant
                i <= buffer_size,
                buffer.len() == i,
                forall|j: int| 0 <= j < i ==> buffer@[j] == 0u64,
            decreases buffer_size - i,
        {
            buffer.push(0u64);
            i += 1;
        }
        let r = Self { buffer, size };
        proof {
            assert forall|i: int|
                0 <= i < 64 * r.buffer@.len() implies !word_bit(
                #[trigger] r.buffer@[i / 64],
                (i % 64) as u64,
            ) by {
                lemma_word_bit_const((i % 64) as u64);
            }
        }
        r
    }

    /// Set a bit; indices past the end are ignored.
    pub fn set_bit(&mut self, index: u64)
        requires
            old(self).well_formed(),
        ensures
            final(self).well_formed(),
            final(self).spec_size() == old(self).spec_size(),
            index < old(self).spec_size() ==> final(self).bits() =~= old(self).bits().update(
                index as int,
                true,
            ),
            index >= old(self).spec_size() ==> final(self).bits() =~= old(self).bits(),
    {
        if index < self.size {
            let word_index_u: u64 = index / 64;
            assert(word_index_u < (self.size + 63) / 64) by (nonlinear_arith)
                requires
                    index < self.size,
                    word_index_u == index / 64,
            ;
            let word_index: usize = word_index_u as usize;
            let bit_index: u64 = index % 64;
            let w = self.buffer[word_index];
            self.buffer.set(word_index, w | (1u64 << bit_index));
            proof {
                assert forall|i: int|
                    0 <= i < 64 * self.buffer@.len() implies word_bit(
                    #[trigger] self.buffer@[i / 64],
                    (i % 64) as u64,
                ) == (i == index as int || word_bit(
                    old(self).buffer@[i / 64],
                    (i % 64) as u64,
                )) by {
                    if i / 64 == index as int / 64 {
                        lemma_word_bit_or(
                            old(self).buffer@[i / 64],
                            (index % 64) as u64,
                            (i % 64) as u64,
                        );
                    }
                }
            }
        }
    }

    /// Clear a bit; indices past the end are ignored.
    pub fn clear_bit(&mut self, index: u64)
        requires
            old(self).well_formed(),
        ensures
            final(self).well_formed(),
            final(self).spec_size() == old(self).spec_size(),
            index < old(self).spec_size() ==> final(self).bits() =~= old(self).bits().update(
                index as int,
                false,
            ),
            index >= old(self).spec_size() ==> final(self).bits() =~= old(self).bits(),
    {
        if index < self.size {
            let word_index_u: u64 = index / 64;
            assert(word_index_u < (self.size + 63) / 64) by (nonlinear_arith)
                requires
                    index < self.size,
                    word_index_u == index / 64,
            ;
            let word_index: usize = word_index_u as usize;
            let bit_index: u64 = index % 64;
            let w = self.buffer[word_index];
            self.buffer.set(word_index, w & !(1u64 << bit_index));
            proof {
                assert forall|i: int|
                    0 <= i < 64 * self.buffer@.len() implies word_bit(
                    #[trigger] self.buffer@[i / 64],
                    (i % 64) as u64,
                ) == (i != index as int && word_bit(
                    old(self).buffer@[i / 64],
                    (i % 64) as u64,
                )) by {
                    if i / 64 == index as int / 64 {
                        lemma_word_bit_clear(
                            old(self).buffer@[i / 64],
                            (index % 64) as u64,
                            (i % 64) as u64,
                        );
                    }
                }
            }
        }
    }

    /// Check whether a bit is set; indices past the end read as clear.
    pub fn is_bit_set(&self, index: u64) -> (r: bool)
        requires
            self.well_formed(),
        ensures
            r == (index < self.spec_size() && self.bits()[index as int]),
    {
        if index < self.size {
            let word_index_u: u64 = index / 64;
            assert(word_index_u < (self.size + 63) / 64) by (nonlinear_arith)
                requires
                    index < self.size,
                    word_index_u == index / 64,
            ;
            let blen = self.buffer.len();
            assert(word_index_u < blen as u64);
            let word_index: usize = word_index_u as usize;
            let bit_index: u64 = index % 64;
            ((self.buffer[word_index] >> bit_index) & 1) == 1
        } else {
            false
        }
    }

    /// Set all bits.
    pub fn set_all_bits(&mut self)
        requires
            old(self).well_formed(),
        ensures
            final(self).well_formed(),
            final(self).spec_size() == old(self).spec_size(),
            final(self).bits() =~= Seq::new(old(self).spec_size() as nat, |i: int| true),
    {
        let n = self.buffer.len();
        let mut i: usize = 0;
        while i < n
            invariant
                i <= n,
                n == self.buffer.len(),
                self.size == old(self).size,
                forall|j: int| 0 <= j < i ==> self.buffer@[j] == 0xffffffffffffffffu64,
            decreases n - i,
        {
            self.buffer.set(i, 0xffffffffffffffffu64);
            i += 1;
        }
        let tail: u64 = self.size % 64;
        if tail != 0 {
            assert(1u64 << tail >= 1) by (bit_vector)
                requires
                    tail < 64,
            ;
            let last = self.buffer.len() - 1;
            let w = self.buffer[last];
            self.buffer.set(last, w & ((1u64 << tail) - 1));
            proof {
                assert((self.size + 63) / 64 == self.size / 64 + 1);
                assert forall|i: int|
                    0 <= i < 64 * self.buffer@.len() implies word_bit(
                    #[trigger] self.buffer@[i / 64],
                    (i % 64) as u64,
                ) == (i < self.size as int) by {
                    lemma_word_bit_const((i % 64) as u64);
                    if i / 64 == last as int {
                        lemma_word_bit_mask(0xffffffffffffffffu64, tail, (i % 64) as u64);
                    }
                }
            }
        } else {
            proof {
                assert((self.size + 63) / 64 == self.size / 64);
                assert forall|i: int| 0 <= i < self.size as int implies self.bits()[i] by {
                    lemma_word_bit_const((i % 64) as u64);
                }
            }
        }
    }

    /// Clear all bits.
    pub fn clear_all_bits(&mut self)
        requires
            old(self).well_formed(),
        ensures
            final(self).well_formed(),
            final(self).spec_size() == old(self).spec_size(),
            final(self).bits() =~= Seq::new(old(self).spec_size() as nat, |i: int| false),
    {
        let n = self.buffer.len();
        let mut i: usize = 0;
        while i < n
            invariant
                i <= n,
                n == self.buffer.len(),
                self.size == old(self).size,
                forall|j: int| 0 <= j < i ==> self.buffer@[j] == 0u64,
            decreases n - i,
        {
            self.buffer.set(i, 0u64);
            i += 1;
        }
        proof {
            assert forall|i: int|
                0 <= i < 64 * self.buffer@.len() implies !word_bit(
                #[trigger] self.buffer@[i / 64],
                (i % 64) as u64,
            ) by {
                lemma_word_bit_const((i % 64) as u64);
            }
        }
    }

    /// Get the underlying buffer of words.
    pub fn buffer(&self) -> (r: &Vec<u64>)
        requires
            self.well_formed(),
        ensures
            r@.len() == ((self.spec_size() + 63) / 64) as int,
            forall|i: int|
                0 <= i < self.spec_size() as int ==> self.bits()[i] == word_bit(
                    r@[i / 64],
                    (i % 64) as u64,
                ),
            forall|i: int|
                self.spec_size() as int <= i < 64 * r@.len() ==> !word_bit(
                    #[trigger] r@[i / 64],
                    (i % 64) as u64,
                ),
    {
        &self.buffer
    }

    /// Get the size of the bitmap.
    pub fn size(&self) -> (r: u64)
        ensures
            r == self.spec_size(),
    {
        self.size
    }

    /// Count the number of set bits.
    pub fn count_set_bits(&self) -> (r: u64)
        requires
            self.well_formed(),
        ensures
            r == spec_count(self.bits()),
    {
        let mut count: u64 = 0;
        let mut i: u64 = 0;
        while i < self.size
            invariant
                self.well_formed(),
                i <= self.size,
                count == spec_count(self.bits().take(i as int)),
            decreases self.size - i,
        {
            proof {
                lemma_count_le_len(self.bits().take(i as int));
                assert(self.bits().take(i + 1).drop_last() =~= self.bits().take(i as int));
            }
            if self.is_bit_set(i) {
                count += 1;
            }
            i += 1;
        }
        proof {
            assert(self.bits().take(self.size as int) =~= self.bits());
        }
        count
    }
}

impl Default for Bitmap {
    /// An empty bitmap.
    fn default() -> (r: Self)
        ensures
            r.well_formed(),
            r.spec_size() == 0,
    {
        Self::new(0)
    }
}

} // verus!
