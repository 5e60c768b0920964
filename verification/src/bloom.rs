//! Bloom filter over `(device, inode)` pairs, used while scanning to count a
//! hard-linked file only once.
//!
//! The filter is a fixed 4 MiB bit array probed at nine positions per key.
//! A key reported as "already seen" may be a false positive; a key that was
//! inserted is never reported as fresh again.
use std::collections::hash_map::DefaultHasher;
use std::hash::Hasher;
use vstd::bytes::{spec_u32_to_le_bytes, spec_u64_to_le_bytes};
use vstd::prelude::*;
use vstd::set_lib::{lemma_int_range, lemma_len_subset, set_int_range};
use vstd::std_specs::hash::DefaultHasherAdditionalSpecFns;

verus! {

/// Number of 64-bit words in the bit array (4 MiB).
pub const BLOOM_WORDS: usize = 524288;

/// Number of bits in the bit array.
pub const BLOOM_BITS: usize = 33554432;

/// Number of probe positions per key.
pub const BLOOM_PROBES: usize = 9;

/// Bit `k` of word `w`.
pub open spec fn word_bit(w: u64, k: u64) -> bool {
    (w >> k) & 1u64 == 1u64
}

/// The byte strings written to the hasher for probe `i` of a key.
pub open spec fn probe_input(device: u64, inode: u64, i: u32) -> Seq<Seq<u8>> {
    seq![spec_u64_to_le_bytes(device), spec_u64_to_le_bytes(inode), spec_u32_to_le_bytes(i)]
}

/// Bit position of probe `i` of key `(device, inode)`.
pub open spec fn probe_position(device: u64, inode: u64, i: u32) -> int {
    (DefaultHasher::spec_finish(probe_input(device, inode, i)) as int) % (BLOOM_BITS as int)
}

proof fn lemma_set_bit(w: u64, k: u64, j: u64)
    requires
        k < 64,
        j < 64,
    ensures
        word_bit(w | (1u64 << k), j) == (j == k || word_bit(w, j)),
        (w & (1u64 << k) == 0u64) == !word_bit(w, k),
{
    assert(((w | (1u64 << k)) >> j) & 1u64 == 1u64 <==> (j == k || (w >> j) & 1u64 == 1u64))
        by (bit_vector)
        requires
            k < 64,
            j < 64,
    ;
    assert((w & (1u64 << k) == 0u64) <==> !((w >> k) & 1u64 == 1u64)) by (bit_vector)
        requires
            k < 64,
    ;
}

proof fn lemma_zero_word(j: u64)
    requires
        j < 64,
    ensures
        !word_bit(0u64, j),
{
    assert(!((0u64 >> j) & 1u64 == 1u64)) by (bit_vector);
}

/// Set of `(device, inode)` pairs seen so far, as a Bloom filter.
pub struct SeenInodes {
    bits: Vec<u64>,
    bit_count: usize,
    count: usize,
}

impl SeenInodes {
    /// Whether bit `b` of the filter is set.
    pub closed spec fn bit(self, b: int) -> bool {
        word_bit(self.bits@[b / 64], (b % 64) as u64)
    }

    /// All set bits.
    pub closed spec fn set_bits(self) -> Set<int> {
        Set::new(|b: int| 0 <= b < BLOOM_BITS as int && self.bit(b))
    }

    /// The filter reports `key` as already seen: all its probe bits are set.
    pub open spec fn has_seen(self, key: (u64, u64)) -> bool {
        forall|i: int| 0 <= i < BLOOM_PROBES as int ==> #[trigger] self.bit(probe_position(key.0, key.1, i as u32))
    }

    /// Number of keys that were reported fresh on insertion.
    pub closed spec fn spec_len(self) -> nat {
        self.count as nat
    }

    /// Well-formedness: sizes fixed, and every fresh key set at least one new bit.
    pub closed spec fn wf(self) -> bool {
        &&& self.bits@.len() == BLOOM_WORDS
        &&& self.bit_count == BLOOM_BITS
        &&& self.count <= self.set_bits().len()
    }

    proof fn lemma_set_bits_finite(self)
        requires
            self.bits@.len() == BLOOM_WORDS,
        ensures
            self.set_bits().finite(),
            self.set_bits().len() <= BLOOM_BITS,
    {
        lemma_int_range(0, BLOOM_BITS as int);
        lemma_len_subset(self.set_bits(), set_int_range(0, BLOOM_BITS as int));
    }

    /// An empty filter.
    pub fn new() -> (s: Self)
        ensures
            s.wf(),
            s.spec_len() == 0,
            forall|b: int| 0 <= b < BLOOM_BITS ==> !s.bit(b),
    {
        let bits: Vec<u64> = vec![0u64; BLOOM_WORDS];
        let s = SeenInodes { bits, bit_count: BLOOM_BITS, count: 0 };
        proof {
            assert forall|b: int| 0 <= b < BLOOM_BITS implies !s.bit(b) by {
                lemma_zero_word((b % 64) as u64);
            }
            s.lemma_set_bits_finite();
        }
        s
    }

    /// Bit position of probe `i` of `(device, inode)`.
    fn probe(&self, device: u64, inode: u64, i: u32) -> (p: usize)
        requires
            self.bit_count == BLOOM_BITS,
        ensures
            p as int == probe_position(device, inode, i),
            p < BLOOM_BITS,
    {
        let mut h = DefaultHasher::new();
        let d = vstd::bytes::u64_to_le_bytes(device);
        let n = vstd::bytes::u64_to_le_bytes(inode);
        let k = vstd::bytes::u32_to_le_bytes(i);
        h.write(d.as_slice());
        h.write(n.as_slice());
        h.write(k.as_slice());
        let f = h.finish();
        assert(h@ =~= probe_input(device, inode, i));
        (f % (self.bit_count as u64)) as usize
    }

    /// The nine probe positions of `(device, inode)`.
    fn positions(&self, device: u64, inode: u64) -> (pos: Vec<usize>)
        requires
            self.bit_count == BLOOM_BITS,
        ensures
            pos@.len() == BLOOM_PROBES,
            forall|i: int| 0 <= i < BLOOM_PROBES ==> #[trigger] pos@[i] as int == probe_position(device, inode, i as u32),
    {
        let mut pos: Vec<usize> = Vec::new();
        let mut i: u32 = 0;
        while i < 9
            invariant
                self.bit_count == BLOOM_BITS,
                i <= 9,
                pos@.len() == i,
                forall|j: int| 0 <= j < i ==> #[trigger] pos@[j] as int == probe_position(device, inode, j as u32),
            decreases 9 - i,
        {
            let p = self.probe(device, inode, i);
            pos.push(p);
            i = i + 1;
        }
        pos
    }

    /// Records `key`. Returns `true` when the key was not seen before (it is
    /// now recorded), `false` when all its probe bits were already set (a
    /// true duplicate or a false positive).
    pub fn insert(&mut self, key: (u64, u64)) -> (fresh: bool)
        requires
            old(self).wf(),
        ensures
            final(self).wf(),
            fresh == !old(self).has_seen(key),
            final(self).has_seen(key),
            forall|k: (u64, u64)| old(self).has_seen(k) ==> #[trigger] final(self).has_seen(k),
            final(self).spec_len() == old(self).spec_len() + (if fresh { 1nat } else { 0nat }),
    {
        let (device, inode) = key;
        let positions = self.positions(device, inode);
        let mut already_set = true;
        let mut i: usize = 0;
        let ghost mut newly: int = -1;
        while i < 9
            invariant
                0 <= i <= 9,
                positions@.len() == BLOOM_PROBES,
                forall|j: int| 0 <= j < BLOOM_PROBES ==> #[trigger] positions@[j] as int == probe_position(device, inode, j as u32),
                self.bits@.len() == BLOOM_WORDS,
                self.bit_count == BLOOM_BITS,
                self.count == old(self).count,
                forall|b: int| 0 <= b < BLOOM_BITS ==> old(self).bit(b) ==> #[trigger] self.bit(b),
                forall|j: int| 0 <= j < i ==> self.bit(#[trigger] positions@[j] as int),
                already_set == (forall|j: int| 0 <= j < i ==> old(self).bit(#[trigger] positions@[j] as int)),
                !already_set ==> (0 <= newly < BLOOM_BITS && !old(self).bit(newly) && self.bit(newly)),
                already_set ==> self.bits@ == old(self).bits@,
            decreases 9 - i,
        {
            let bit = positions[i];
            let idx = bit / 64;
            let k = (bit % 64) as u64;
            let mask = 1u64 << k;
            let w = self.bits[idx];
            proof {
                lemma_set_bit(w, k, k);
                assert(self.bit(bit as int) == word_bit(w, k));
            }
            if w & mask == 0 {
                let ghost before = *self;
                proof {
                    if already_set {
                        newly = bit as int;
                    }
                }
                already_set = false;
                self.bits.set(idx, w | mask);
                proof {
                    assert forall|b: int| 0 <= b < BLOOM_BITS implies #[trigger] self.bit(b) == (before.bit(b) || b == bit as int) by {
                        if b / 64 == idx as int {
                            lemma_set_bit(w, k, (b % 64) as u64);
                        }
                    }
                }
            }
            i = i + 1;
        }
        proof {
            assert forall|k2: (u64, u64)| old(self).has_seen(k2) implies #[trigger] self.has_seen(k2) by {
                assert forall|j: int| 0 <= j < BLOOM_PROBES as int implies #[trigger] self.bit(probe_position(k2.0, k2.1, j as u32)) by {
                    let p = probe_position(k2.0, k2.1, j as u32);
                    assert(0 <= p < BLOOM_BITS);
                    assert(old(self).bit(p));
                }
            }
            assert forall|j: int| 0 <= j < BLOOM_PROBES as int implies #[trigger] self.bit(probe_position(device, inode, j as u32)) by {
                assert(positions@[j] as int == probe_position(device, inode, j as u32));
            }
            assert(already_set == old(self).has_seen(key)) by {
                if already_set {
                    assert forall|j: int| 0 <= j < BLOOM_PROBES as int implies #[trigger] old(self).bit(probe_position(device, inode, j as u32)) by {
                        assert(positions@[j] as int == probe_position(device, inode, j as u32));
                    }
                } else {
                    let j = choose|j: int| 0 <= j < 9 && !old(self).bit(#[trigger] positions@[j] as int);
                    assert(positions@[j] as int == probe_position(device, inode, j as u32));
                }
            }
            assert(old(self).set_bits().subset_of(self.set_bits()));
            self.lemma_set_bits_finite();
            old(self).lemma_set_bits_finite();
            if !already_set {
                assert(old(self).set_bits().insert(newly).subset_of(self.set_bits()));
                lemma_len_subset(old(self).set_bits().insert(newly), self.set_bits());
            } else {
                lemma_len_subset(old(self).set_bits(), self.set_bits());
            }
        }
        let ghost grown = *self;
        if !already_set {
            self.count = self.count + 1;
        }
        proof {
            assert(forall|b: int| #[trigger] self.bit(b) == grown.bit(b));
            assert(self.set_bits() =~= grown.set_bits());
        }
        !already_set
    }

    /// Number of keys that were fresh when inserted.
    pub fn len(&self) -> (n: usize)
        ensures
            n == self.spec_len(),
    {
        self.count
    }

    /// No key was ever fresh.
    pub fn is_empty(&self) -> (b: bool)
        ensures
            b == (self.spec_len() == 0),
    {
        self.count == 0
    }
}

} // verus!
