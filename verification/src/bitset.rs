//! A fixed-capacity set of small integers, packed one bit per member.

use vstd::prelude::*;

verus! {

/// Whether bit `bit` of `word` is one.
pub open spec fn bit_is_set(word: u64, bit: u64) -> bool {
    (word >> bit) & 1 == 1
}

/// How many 64-bit words it takes to hold `capacity` bits.
pub open spec fn words_for(capacity: nat) -> nat {
    (capacity + 63) / 64
}

/// No bit of the zero word is one.
proof fn lemma_zero_word_is_empty(bit: u64)
    by (bit_vector)
    requires
        bit < 64,
    ensures
        !bit_is_set(0, bit),
{
}

/// Or-ing a word with the mask of `target` sets that bit and keeps the others.
proof fn lemma_or_mask_sets_one_bit(word: u64, target: u64, bit: u64)
    by (bit_vector)
    requires
        target < 64,
        bit < 64,
    ensures
        bit_is_set(word | (1u64 << target), bit) == (bit == target || bit_is_set(word, bit)),
{
}

/// And-ing a word with the inverted mask of `target` clears that bit and
/// keeps the others.
proof fn lemma_and_not_mask_clears_one_bit(word: u64, target: u64, bit: u64)
    by (bit_vector)
    requires
        target < 64,
        bit < 64,
    ensures
        bit_is_set(word & !(1u64 << target), bit) == (bit != target && bit_is_set(word, bit)),
{
}

/// And-ing a word with the mask of `target` is nonzero exactly when that bit
/// is one.
proof fn lemma_mask_tests_one_bit(word: u64, target: u64)
    by (bit_vector)
    requires
        target < 64,
    ensures
        (word & (1u64 << target) != 0) == bit_is_set(word, target),
{
}

/// A set of integers below a capacity fixed at creation, stored as an array of
/// 64-bit words in which bit `i % 64` of word `i / 64` records whether `i` is a
/// member.
pub struct BitSet {
    words: Vec<u64>,
    capacity: u32,
}

impl View for BitSet {
    type V = Set<int>;

    /// The members of the set.
    closed spec fn view(&self) -> Set<int> {
        Set::new(
            |i: int|
                0 <= i < self.capacity && bit_is_set(self.words@[i / 64], (i % 64) as u64),
        )
    }
}

impl BitSet {
    #[verifier::type_invariant]
    spec fn well_formed(self) -> bool {
        self.words@.len() == words_for(self.capacity as nat)
    }

    /// The exclusive upper bound on members, fixed when the set was created.
    pub closed spec fn bound(&self) -> nat {
        self.capacity as nat
    }

    /// Every member lies below the bound, and the bound fits in 32 bits.
    pub proof fn lemma_members_below_bound(&self)
        ensures
            forall|i: int| self@.contains(i) ==> 0 <= i < self.bound(),
            self.bound() <= u32::MAX,
    {
    }

    /// Creates an empty set able to hold the integers below `capacity`.
    pub fn with_capacity(capacity: u32) -> (set: Self)
        ensures
            set.bound() == capacity,
            set@ == Set::<int>::empty(),
    {
        let spill: u32 = if capacity % 64 == 0 { 0 } else { 1 };
        let count: usize = (capacity / 64 + spill) as usize;
        let mut words: Vec<u64> = Vec::with_capacity(count);
        let mut filled: usize = 0;
        while filled < count
            invariant
                filled <= count,
                words@.len() == filled,
                forall|j: int| 0 <= j < filled ==> words@[j] == 0,
            decreases count - filled,
        {
            words.push(0);
            filled = filled + 1;
        }
        let set = BitSet { words, capacity };
        proof {
            assert forall|i: int| !set@.contains(i) by {
                if 0 <= i < capacity {
                    lemma_zero_word_is_empty((i % 64) as u64);
                }
            }
        }
        set
    }

    /// The exclusive upper bound on members.
    pub fn capacity(&self) -> (capacity: u32)
        ensures
            capacity == self.bound(),
    {
        self.capacity
    }

    /// Whether `id` is a member. Integers at or above the bound never are.
    pub fn contains(&self, id: u32) -> (present: bool)
        ensures
            present == self@.contains(id as int),
    {
        proof {
            use_type_invariant(self);
        }
        if id >= self.capacity {
            return false;
        }
        let word = self.words[(id / 64) as usize];
        let bit: u64 = (id % 64) as u64;
        (word >> bit) & 1 == 1
    }

    /// Inserts `id`, and reports whether it was a member already.
    pub fn add(&mut self, id: u32) -> (was_present: bool)
        requires
            id < old(self).bound(),
        ensures
            final(self).bound() == old(self).bound(),
            final(self)@ == old(self)@.insert(id as int),
            was_present == old(self)@.contains(id as int),
        no_unwind
    {
        proof {
            use_type_invariant(&*self);
        }
        let slot: usize = (id / 64) as usize;
        let bit: u64 = (id % 64) as u64;
        let word = self.words[slot];
        let mask: u64 = 1u64 << bit;
        self.words[slot] = word | mask;
        proof {
            lemma_mask_tests_one_bit(word, bit);
            assert forall|i: int| self@.contains(i) == old(self)@.insert(id as int).contains(i) by {
                if 0 <= i < self.capacity && i / 64 == slot {
                    lemma_or_mask_sets_one_bit(word, bit, (i % 64) as u64);
                }
            }
        }
        word & mask != 0
    }

    /// Removes `id`, and reports whether it was a member.
    pub fn remove(&mut self, id: u32) -> (was_present: bool)
        requires
            id < old(self).bound(),
        ensures
            final(self).bound() == old(self).bound(),
            final(self)@ == old(self)@.remove(id as int),
            was_present == old(self)@.contains(id as int),
        no_unwind
    {
        proof {
            use_type_invariant(&*self);
        }
        let slot: usize = (id / 64) as usize;
        let bit: u64 = (id % 64) as u64;
        let word = self.words[slot];
        let mask: u64 = 1u64 << bit;
        self.words[slot] = word & !mask;
        proof {
            lemma_mask_tests_one_bit(word, bit);
            assert forall|i: int| self@.contains(i) == old(self)@.remove(id as int).contains(i) by {
                if 0 <= i < self.capacity && i / 64 == slot {
                    lemma_and_not_mask_clears_one_bit(word, bit, (i % 64) as u64);
                }
            }
        }
        word & mask != 0
    }

    /// Removes every member. The storage is kept.
    pub fn clear(&mut self)
        ensures
            final(self).bound() == old(self).bound(),
            final(self)@ == Set::<int>::empty(),
        no_unwind
    {
        proof {
            use_type_invariant(&*self);
        }
        let count = self.words.len();
        let mut done: usize = 0;
        while done < count
            invariant
                done <= count,
                count == self.words@.len(),
                self.capacity == old(self).capacity,
                self.words@.len() == words_for(self.capacity as nat),
                forall|j: int| 0 <= j < done ==> self.words@[j] == 0,
            decreases count - done,
        {
            self.words[done] = 0;
            done = done + 1;
        }
        proof {
            assert forall|i: int| !self@.contains(i) by {
                if 0 <= i < self.capacity {
                    lemma_zero_word_is_empty((i % 64) as u64);
                }
            }
        }
    }
}

} // verus!
