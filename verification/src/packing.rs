//! Cell states packed into 32-bit words, least significant bit first.

use vstd::prelude::*;

verus! {

/// Bit `k` of `w`, counted from the least significant bit.
pub open spec fn word_bit(w: u32, k: u32) -> bool {
    w & (1u32 << k) != 0
}

/// `w` with bit `k` switched on or off.
pub open spec fn word_with_bit(w: u32, k: u32, on: bool) -> u32 {
    if on {
        w | (1u32 << k)
    } else {
        w & !(1u32 << k)
    }
}

/// `w` with bit `k` inverted.
pub open spec fn word_flip_bit(w: u32, k: u32) -> u32 {
    w ^ (1u32 << k)
}

/// The number of words that hold `n` cells.
pub open spec fn block_count(n: nat) -> nat {
    n / 32 + if n % 32 > 0 { 1nat } else { 0nat }
}

/// The state that `words` holds at position `i`: bit `i % 32` of word `i / 32`.
pub open spec fn cell_of(words: Seq<u32>, i: int) -> bool {
    word_bit(words[i / 32], (i % 32) as u32)
}

/// The first `n` cell states that `words` holds.
pub open spec fn unpack(words: Seq<u32>, n: nat) -> Seq<bool> {
    Seq::new(n, |i: int| cell_of(words, i))
}

/// `words` is the packed form of `bits`: it has just enough words, position
/// `i` holds `bits[i]`, and the positions past the last cell hold zero.
pub open spec fn is_packed(words: Seq<u32>, bits: Seq<bool>) -> bool {
    &&& words.len() == block_count(bits.len())
    &&& forall|i: int|
        0 <= i < 32 * words.len() ==> #[trigger] cell_of(words, i) == (i < bits.len() && bits[i])
}

/// Switching bit `k` gives that bit the new state and leaves the others.
pub proof fn lemma_word_with_bit(w: u32, k: u32, on: bool, j: u32)
    requires
        k < 32,
        j < 32,
    ensures
        word_bit(word_with_bit(w, k, on), j) == (if j == k {
            on
        } else {
            word_bit(w, j)
        }),
{
    assert(word_bit(w | (1u32 << k), j) == (j == k || word_bit(w, j))) by (bit_vector)
        requires
            k < 32,
            j < 32,
    ;
    assert(word_bit(w & !(1u32 << k), j) == (j != k && word_bit(w, j))) by (bit_vector)
        requires
            k < 32,
            j < 32,
    ;
}

/// Inverting bit `k` inverts that bit and leaves the others.
pub proof fn lemma_word_flip_bit(w: u32, k: u32, j: u32)
    requires
        k < 32,
        j < 32,
    ensures
        word_bit(word_flip_bit(w, k), j) == (if j == k {
            !word_bit(w, j)
        } else {
            word_bit(w, j)
        }),
{
    assert(word_bit(w ^ (1u32 << k), j) == (if j == k {
        !word_bit(w, j)
    } else {
        word_bit(w, j)
    })) by (bit_vector)
        requires
            k < 32,
            j < 32,
    ;
}

/// No bit of the zero word is set.
pub proof fn lemma_zero_word(j: u32)
    ensures
        !word_bit(0u32, j),
{
    assert(!word_bit(0u32, j)) by (bit_vector);
}

/// Two words that agree in every bit from `k` up agree when shifted down by `k`.
proof fn lemma_shifted_words_equal(a: u32, b: u32, k: u32)
    requires
        k < 32,
        forall|j: u32| k <= j < 32 ==> word_bit(a, j) == word_bit(b, j),
    ensures
        a >> k == b >> k,
    decreases 32 - k,
{
    assert(word_bit(a, k) == word_bit(b, k));
    if k == 31 {
        assert(a >> 31u32 == b >> 31u32) by (bit_vector)
            requires
                word_bit(a, 31u32) == word_bit(b, 31u32),
        ;
    } else {
        let up = (k + 1) as u32;
        lemma_shifted_words_equal(a, b, up);
        assert(a >> k == b >> k) by (bit_vector)
            requires
                k < 31,
                up == k + 1,
                a >> up == b >> up,
                word_bit(a, k) == word_bit(b, k),
        ;
    }
}

/// A word is known by its bits.
pub proof fn lemma_word_by_bits(a: u32, b: u32)
    requires
        forall|j: u32| j < 32 ==> word_bit(a, j) == word_bit(b, j),
    ensures
        a == b,
{
    lemma_shifted_words_equal(a, b, 0);
    assert(a >> 0u32 == a && b >> 0u32 == b) by (bit_vector);
}

/// Cell states have one packed form.
pub proof fn lemma_packed_form_is_unique(first: Seq<u32>, second: Seq<u32>, bits: Seq<bool>)
    requires
        is_packed(first, bits),
        is_packed(second, bits),
    ensures
        first == second,
{
    assert forall|w: int| 0 <= w < first.len() implies first[w] == second[w] by {
        assert forall|j: u32| j < 32 implies word_bit(first[w], j) == word_bit(second[w], j) by {
            let i = 32 * w + j;
            assert(i / 32 == w && i % 32 == j);
            assert(cell_of(first, i) == cell_of(second, i));
        }
        lemma_word_by_bits(first[w], second[w]);
    }
    assert(first =~= second);
}

/// Unpacking the packed form gives the cell states back.
pub proof fn lemma_unpack_packed(words: Seq<u32>, bits: Seq<bool>)
    requires
        is_packed(words, bits),
    ensures
        unpack(words, bits.len()) == bits,
{
    assert forall|i: int| 0 <= i < bits.len() implies cell_of(words, i) == bits[i] by {
        assert(cell_of(words, i) == (i < bits.len() && bits[i]));
    }
    assert(unpack(words, bits.len()) =~= bits);
}

/// Zero words are the packed form of dead cells.
pub proof fn lemma_zero_words(n: nat)
    ensures
        is_packed(Seq::new(block_count(n), |j: int| 0u32), Seq::new(n, |i: int| false)),
        unpack(Seq::new(block_count(n), |j: int| 0u32), n) == Seq::new(n, |i: int| false),
{
    let words = Seq::new(block_count(n), |j: int| 0u32);
    assert forall|i: int| 0 <= i < 32 * words.len() implies !#[trigger] cell_of(words, i) by {
        lemma_zero_word((i % 32) as u32);
    }
    assert(unpack(words, n) =~= Seq::new(n, |i: int| false));
}

/// Switching the cell at position `i` changes that position and no other.
pub proof fn lemma_set_cell(words: Seq<u32>, i: int, on: bool)
    requires
        0 <= i < 32 * words.len(),
    ensures
        forall|j: int|
            0 <= j < 32 * words.len() ==> #[trigger] cell_of(
                words.update(i / 32, word_with_bit(words[i / 32], (i % 32) as u32, on)),
                j,
            ) == (if j == i {
                on
            } else {
                cell_of(words, j)
            }),
{
    let after = words.update(i / 32, word_with_bit(words[i / 32], (i % 32) as u32, on));
    assert forall|j: int| 0 <= j < 32 * words.len() implies #[trigger] cell_of(after, j) == (if j
        == i {
        on
    } else {
        cell_of(words, j)
    }) by {
        if j / 32 == i / 32 {
            lemma_word_with_bit(words[i / 32], (i % 32) as u32, on, (j % 32) as u32);
        }
    }
}

/// Inverting the cell at position `i` changes that position and no other.
pub proof fn lemma_toggle_cell(words: Seq<u32>, i: int)
    requires
        0 <= i < 32 * words.len(),
    ensures
        forall|j: int|
            0 <= j < 32 * words.len() ==> #[trigger] cell_of(
                words.update(i / 32, word_flip_bit(words[i / 32], (i % 32) as u32)),
                j,
            ) == (if j == i {
                !cell_of(words, j)
            } else {
                cell_of(words, j)
            }),
{
    let after = words.update(i / 32, word_flip_bit(words[i / 32], (i % 32) as u32));
    assert forall|j: int| 0 <= j < 32 * words.len() implies #[trigger] cell_of(after, j) == (if j
        == i {
        !cell_of(words, j)
    } else {
        cell_of(words, j)
    }) by {
        if j / 32 == i / 32 {
            lemma_word_flip_bit(words[i / 32], (i % 32) as u32, (j % 32) as u32);
        }
    }
}

} // verus!
