//! Bit-level primitives over a fixed-size array of 64-bit words, used by the
//! default tick-array bitmap and by each side of the bitmap extension.
//! Word and bit position are explicit: word = index / 64, bit = index % 64.

use vstd::prelude::*;

verus! {

/// Whether bit `i` of the word sequence is set.
pub open spec fn bit_at(words: Seq<u64>, i: int) -> bool
    recommends
        0 <= i < words.len() * 64,
{
    (words[i / 64] >> ((i % 64) as u64)) & 1 == 1
}

/// The word sequence with bit `i` toggled.
pub open spec fn flip_at(words: Seq<u64>, i: int) -> Seq<u64>
    recommends
        0 <= i < words.len() * 64,
{
    words.update(i / 64, words[i / 64] ^ (1u64 << ((i % 64) as u64)))
}

/// Toggling one bit of a word flips exactly that bit of the word.
proof fn lemma_word_xor_bit(w: u64, k: u64, j: u64)
    by (bit_vector)
    requires
        k < 64,
        j < 64,
    ensures
        j != k ==> ((w ^ (1u64 << k)) >> j) & 1 == (w >> j) & 1,
        ((w ^ (1u64 << k)) >> k) & 1 == (if (w >> k) & 1 == 1 { 0u64 } else { 1u64 }),
        (w ^ (1u64 << k)) ^ (1u64 << k) == w,
{
}

/// Flipping a bit toggles it and leaves every other bit unchanged.
pub proof fn lemma_flip_at(words: Seq<u64>, i: int)
    requires
        0 <= i < words.len() * 64,
    ensures
        flip_at(words, i).len() == words.len(),
        bit_at(flip_at(words, i), i) == !bit_at(words, i),
        forall|j: int|
            0 <= j < words.len() * 64 && j != i ==> bit_at(flip_at(words, i), j) == bit_at(
                words,
                j,
            ),
{
    let f = flip_at(words, i);
    let wi = i / 64;
    let ki = (i % 64) as u64;
    assert(0 <= wi < words.len() && ki < 64) by (nonlinear_arith)
        requires 0 <= i < words.len() * 64 && wi == i / 64 && ki == (i % 64) as u64;
    lemma_word_xor_bit(words[wi], ki, ki);
    assert forall|j: int| 0 <= j < words.len() * 64 && j != i implies bit_at(f, j) == bit_at(
        words,
        j,
    ) by {
        let wj = j / 64;
        let kj = (j % 64) as u64;
        assert(0 <= wj < words.len() && kj < 64) by (nonlinear_arith)
            requires 0 <= j < words.len() * 64 && wj == j / 64 && kj == (j % 64) as u64;
        if wj == wi {
            assert(kj != ki) by (nonlinear_arith)
                requires j / 64 == i / 64 && j != i && j % 64 == kj && i % 64 == ki
                    && 0 <= i && 0 <= j;
            lemma_word_xor_bit(words[wi], ki, kj);
        }
    }
}

/// Flipping the same bit twice restores the original words: each pair of
/// flips cancels, so idempotent pairs leave the bitmap unchanged.
pub proof fn lemma_flip_at_twice(words: Seq<u64>, i: int)
    requires
        0 <= i < words.len() * 64,
    ensures
        flip_at(flip_at(words, i), i) == words,
{
    let wi = i / 64;
    let ki = (i % 64) as u64;
    assert(0 <= wi < words.len() && ki < 64) by (nonlinear_arith)
        requires 0 <= i < words.len() * 64 && wi == i / 64 && ki == (i % 64) as u64;
    lemma_word_xor_bit(words[wi], ki, ki);
    assert(flip_at(flip_at(words, i), i) =~= words);
}

/// Read bit `i` of the word array.
pub fn test_bit(words: &Vec<u64>, i: usize) -> (r: bool)
    requires
        i < words@.len() * 64,
    ensures
        r == bit_at(words@, i as int),
{
    proof {
        assert(0 <= (i as int) / 64 < words@.len() && (i as int) % 64 < 64) by (nonlinear_arith)
            requires 0 <= (i as int) && (i as int) < words@.len() * 64;
        assert(i / 64 == (i as int) / 64 && (i % 64) as u64 == ((i as int) % 64) as u64);
    }
    let w: u64 = words[i / 64];
    (w >> ((i % 64) as u64)) & 1 == 1
}

/// Toggle bit `i` of the word array.
pub fn flip_bit(words: &mut Vec<u64>, i: usize)
    requires
        i < old(words)@.len() * 64,
    ensures
        final(words)@ == flip_at(old(words)@, i as int),
        final(words)@.len() == old(words)@.len(),
        bit_at(final(words)@, i as int) == !bit_at(old(words)@, i as int),
        forall|j: int|
            0 <= j < old(words)@.len() * 64 && j != i ==> bit_at(final(words)@, j) == bit_at(
                old(words)@,
                j,
            ),
{
    proof {
        assert(0 <= (i as int) / 64 < words@.len() && (i as int) % 64 < 64) by (nonlinear_arith)
            requires 0 <= (i as int) && (i as int) < words@.len() * 64;
        assert(i / 64 == (i as int) / 64 && (i % 64) as u64 == ((i as int) % 64) as u64);
    }
    let w: u64 = words[i / 64];
    let nw: u64 = w ^ (1u64 << ((i % 64) as u64));
    words.set(i / 64, nw);
    proof {
        lemma_flip_at(old(words)@, i as int);
    }
}

} // verus!
