//! A plain bit array stored as a vector of 32-bit words, with the handful of
//! operations the spatial bitset needs: test, set, clear, and-not and a
//! population count.  The mathematical model is the set of indices of set
//! bits.

use vstd::prelude::*;

verus! {

/// Whether bit `i` of word `w` is set (meaningful for `i < 32`).
pub open spec fn word_bit(w: u32, i: u32) -> bool {
    (w >> i) & 1u32 == 1u32
}

/// Whether bit index `z` is set in the bit array `s`: bit `z % 32` of word
/// `z / 32`.  Indices beyond the array are clear.
pub open spec fn bit_at(s: Seq<u32>, z: int) -> bool {
    0 <= z && z / 32 < s.len() && word_bit(s[z / 32], (z % 32) as u32)
}

/// The set of bit indices below `z` that are set in `s`.
pub open spec fn bits_below(s: Seq<u32>, z: int) -> Set<int> {
    Set::new(|i: int| 0 <= i < z && bit_at(s, i))
}

/// The set of all bit indices that are set in `s`.
pub open spec fn bit_indices(s: Seq<u32>) -> Set<int> {
    Set::new(|i: int| bit_at(s, i))
}

/// Setting bit `k` of a word sets exactly that bit.
pub proof fn lemma_word_bit_or(w: u32, k: u32, j: u32)
    by (bit_vector)
    requires
        k < 32,
        j < 32,
    ensures
        word_bit(w | (1u32 << k), j) == (j == k || word_bit(w, j)),
        word_bit(w, k) ==> w | (1u32 << k) == w,
{
}

/// Clearing bit `k` of a word clears exactly that bit.
pub proof fn lemma_word_bit_clear(w: u32, k: u32, j: u32)
    by (bit_vector)
    requires
        k < 32,
        j < 32,
    ensures
        word_bit(w & !(1u32 << k), j) == (j != k && word_bit(w, j)),
        !word_bit(w, k) ==> w & !(1u32 << k) == w,
{
}

/// And-not on words is the pointwise difference of their bits.
pub proof fn lemma_word_bit_andnot(a: u32, b: u32, j: u32)
    by (bit_vector)
    requires
        j < 32,
    ensures
        word_bit(a & !b, j) == (word_bit(a, j) && !word_bit(b, j)),
        !word_bit(0u32, j),
{
}

/// Extending the index bound by one adds at most the one new index.
pub proof fn lemma_bits_below_step(s: Seq<u32>, z: int)
    requires
        0 <= z,
    ensures
        bits_below(s, z + 1) == if bit_at(s, z) {
            bits_below(s, z).insert(z)
        } else {
            bits_below(s, z)
        },
{
    if bit_at(s, z) {
        assert(bits_below(s, z + 1) =~= bits_below(s, z).insert(z));
    } else {
        assert(bits_below(s, z + 1) =~= bits_below(s, z));
    }
}

/// A bounded prefix of the index set is finite and no larger than the bound.
pub proof fn lemma_bits_below_finite(s: Seq<u32>, z: int)
    requires
        0 <= z,
    ensures
        bits_below(s, z).finite(),
        bits_below(s, z).len() <= z,
    decreases z,
{
    if z == 0 {
        assert(bits_below(s, 0) =~= Set::empty());
    } else {
        lemma_bits_below_finite(s, z - 1);
        lemma_bits_below_step(s, z - 1);
    }
}

/// Every set bit of `s` lies below `32 * s.len()`, so the full index set is
/// the prefix up to that bound.
pub proof fn lemma_bit_indices_is_bits_below(s: Seq<u32>)
    ensures
        bit_indices(s) == bits_below(s, 32 * s.len() as int),
        bit_indices(s).finite(),
        bit_indices(s).len() <= 32 * s.len() as int,
{
    assert forall|z: int| bit_at(s, z) implies 0 <= z < 32 * s.len() as int by {
        assert(z / 32 < s.len());
        assert(z == 32 * (z / 32) + z % 32);
    }
    assert(bit_indices(s) =~= bits_below(s, 32 * s.len() as int));
    lemma_bits_below_finite(s, 32 * s.len() as int);
}

/// A vector of `n` all-zero words: the empty bit array.
pub fn zero_words(n: usize) -> (r: Vec<u32>)
    ensures
        r@.len() == n,
        forall|z: int| !bit_at(r@, z),
{
    let mut r: Vec<u32> = Vec::new();
    let mut i: usize = 0;
    while i < n
        invariant
            i <= n,
            r@.len() == i,
            forall|k: int| 0 <= k < i ==> r@[k] == 0u32,
        decreases n - i,
    {
        r.push(0u32);
        i = i + 1;
    }
    proof {
        assert forall|z: int| !bit_at(r@, z) by {
            if 0 <= z && z / 32 < r@.len() {
                lemma_word_bit_andnot(0u32, 0u32, (z % 32) as u32);
            }
        }
    }
    r
}

/// Whether bit `z` of the array is set.
pub fn bit_test(words: &Vec<u32>, z: usize) -> (r: bool)
    requires
        z / 32 < words@.len(),
    ensures
        r == bit_at(words@, z as int),
{
    let w = words[z / 32];
    (w >> ((z % 32) as u32)) & 1 == 1
}

/// Set bit `z` of the array.
pub fn bit_set(words: &mut Vec<u32>, z: usize)
    requires
        z / 32 < old(words)@.len(),
    ensures
        final(words)@.len() == old(words)@.len(),
        forall|z2: int| bit_at(final(words)@, z2) == (z2 == z as int || bit_at(old(words)@, z2)),
        bit_at(old(words)@, z as int) ==> final(words)@ == old(words)@,
{
    let i = z / 32;
    let w = words[i];
    words.set(i, w | (1u32 << ((z % 32) as u32)));
    proof {
        let s0 = old(words)@;
        let s1 = words@;
        assert forall|z2: int| bit_at(s1, z2) == (z2 == z as int || bit_at(s0, z2)) by {
            if 0 <= z2 && z2 / 32 < s1.len() {
                if z2 / 32 == i as int {
                    lemma_word_bit_or(s0[i as int], (z % 32) as u32, (z2 % 32) as u32);
                    assert(z2 == 32 * (z2 / 32) + z2 % 32);
                    assert(z as int == 32 * (z as int / 32) + z as int % 32);
                }
            }
        }
        if bit_at(s0, z as int) {
            lemma_word_bit_or(s0[i as int], (z % 32) as u32, (z % 32) as u32);
            assert(s1 =~= s0);
        }
    }
}

/// Clear bit `z` of the array.
pub fn bit_reset(words: &mut Vec<u32>, z: usize)
    requires
        z / 32 < old(words)@.len(),
    ensures
        final(words)@.len() == old(words)@.len(),
        forall|z2: int| bit_at(final(words)@, z2) == (z2 != z as int && bit_at(old(words)@, z2)),
        !bit_at(old(words)@, z as int) ==> final(words)@ == old(words)@,
{
    let i = z / 32;
    let w = words[i];
    words.set(i, w & !(1u32 << ((z % 32) as u32)));
    proof {
        let s0 = old(words)@;
        let s1 = words@;
        assert forall|z2: int| bit_at(s1, z2) == (z2 != z as int && bit_at(s0, z2)) by {
            if 0 <= z2 && z2 / 32 < s1.len() {
                if z2 / 32 == i as int {
                    lemma_word_bit_clear(s0[i as int], (z % 32) as u32, (z2 % 32) as u32);
                    assert(z2 == 32 * (z2 / 32) + z2 % 32);
                    assert(z as int == 32 * (z as int / 32) + z as int % 32);
                }
            }
        }
        if !bit_at(s0, z as int) {
            lemma_word_bit_clear(s0[i as int], (z % 32) as u32, (z % 32) as u32);
            assert(s1 =~= s0);
        }
    }
}

/// The pointwise difference `a & !b`, over `a`'s words; missing words of `b`
/// count as zero.
pub fn bit_andnot(a: &Vec<u32>, b: &Vec<u32>) -> (r: Vec<u32>)
    ensures
        r@.len() == a@.len(),
        forall|z: int| bit_at(r@, z) == (bit_at(a@, z) && !bit_at(b@, z)),
{
    let n = a.len();
    let mut r: Vec<u32> = Vec::new();
    let mut i: usize = 0;
    while i < n
        invariant
            i <= n,
            n == a@.len(),
            r@.len() == i,
            forall|k: int| 0 <= k < i ==> r@[k] == a@[k] & !(if k < b@.len() {
                b@[k]
            } else {
                0u32
            }),
        decreases n - i,
    {
        let bw = if i < b.len() {
            b[i]
        } else {
            0
        };
        r.push(a[i] & !bw);
        i = i + 1;
    }
    proof {
        assert forall|z: int| bit_at(r@, z) == (bit_at(a@, z) && !bit_at(b@, z)) by {
            if 0 <= z && z / 32 < r@.len() {
                let k = z / 32;
                let j = (z % 32) as u32;
                if k < b@.len() {
                    lemma_word_bit_andnot(a@[k], b@[k], j);
                } else {
                    lemma_word_bit_andnot(a@[k], 0u32, j);
                }
            }
        }
    }
    r
}

/// The number of set bits among the first `wlimit` words.
pub fn count_bits(words: &Vec<u32>, wlimit: usize) -> (r: usize)
    requires
        wlimit <= words@.len(),
        words@.len() <= usize::MAX / 32,
    ensures
        r == bits_below(words@, 32 * wlimit as int).len(),
{
    let mut c: usize = 0;
    let mut i: usize = 0;
    proof {
        assert(bits_below(words@, 0) =~= Set::empty());
    }
    while i < wlimit
        invariant
            i <= wlimit,
            wlimit <= words@.len(),
            words@.len() <= usize::MAX / 32,
            c == bits_below(words@, 32 * i as int).len(),
            c <= 32 * i,
        decreases wlimit - i,
    {
        let w = words[i];
        let mut j: u32 = 0;
        while j < 32
            invariant
                j <= 32,
                i < wlimit,
                wlimit <= words@.len(),
                words@.len() <= usize::MAX / 32,
                w == words@[i as int],
                c == bits_below(words@, 32 * i as int + j as int).len(),
                c <= 32 * i + j,
            decreases 32 - j,
        {
            proof {
                let z: int = 32 * i as int + j as int;
                lemma_bits_below_finite(words@, z);
                lemma_bits_below_step(words@, z);
                assert(z / 32 == i as int && z % 32 == j as int) by (nonlinear_arith)
                    requires
                        z == 32 * i as int + j as int,
                        0 <= i as int,
                        0 <= j < 32,
                ;
            }
            if (w >> j) & 1 == 1 {
                c = c + 1;
            }
            j = j + 1;
        }
        i = i + 1;
    }
    c
}

} // verus!
