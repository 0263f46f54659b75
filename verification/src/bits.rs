//! Bit-level facts about `u64` words and the 192-pin masks built from them.

use vstd::prelude::*;

verus! {

/// True when bit `j` of `w` is set.
pub open spec fn word_bit(w: u64, j: u64) -> bool {
    (w >> j) & 1 == 1
}

/// Setting bit `k` sets exactly that bit.
pub proof fn lemma_bit_or(x: u64, k: u64, j: u64)
    requires
        k < 64,
        j < 64,
    ensures
        word_bit(x | (1u64 << k), j) == (j == k || word_bit(x, j)),
{
    assert(((x | (1u64 << k)) >> j) & 1 == 1 <==> (j == k || (x >> j) & 1 == 1)) by (bit_vector)
        requires
            k < 64,
            j < 64,
    ;
}

/// Clearing bit `k` clears exactly that bit.
pub proof fn lemma_bit_and_not(x: u64, k: u64, j: u64)
    requires
        k < 64,
        j < 64,
    ensures
        word_bit(x & !(1u64 << k), j) == (j != k && word_bit(x, j)),
{
    assert(((x & !(1u64 << k)) >> j) & 1 == 1 <==> (j != k && (x >> j) & 1 == 1)) by (bit_vector)
        requires
            k < 64,
            j < 64,
    ;
}

/// A bit of a conjunction of words.
pub proof fn lemma_bit_and(x: u64, y: u64, j: u64)
    requires
        j < 64,
    ensures
        word_bit(x & y, j) == (word_bit(x, j) && word_bit(y, j)),
{
    assert(((x & y) >> j) & 1 == 1 <==> ((x >> j) & 1 == 1 && (y >> j) & 1 == 1)) by (bit_vector)
        requires
            j < 64,
    ;
}

proof fn lemma_shift_step(a: u64, b: u64, n: u64)
    requires
        1 <= n <= 64,
        a >> n == b >> n,
        ((a >> ((n - 1) as u64)) & 1) == ((b >> ((n - 1) as u64)) & 1),
    ensures
        a >> ((n - 1) as u64) == b >> ((n - 1) as u64),
{
    let m = (n - 1) as u64;
    assert(a >> m == b >> m) by (bit_vector)
        requires
            m < 64,
            n == m + 1,
            a >> n == b >> n,
            ((a >> m) & 1) == ((b >> m) & 1),
    ;
}

proof fn lemma_bits_ext_from(a: u64, b: u64, n: u64)
    requires
        n <= 64,
        a >> n == b >> n,
        forall|j: u64| j < 64 ==> #[trigger] word_bit(a, j) == word_bit(b, j),
    ensures
        a >> 0u64 == b >> 0u64,
    decreases n,
{
    if n > 0 {
        let m = (n - 1) as u64;
        assert(word_bit(a, m) == word_bit(b, m));
        assert((a >> m) & 1 == 1 || (a >> m) & 1 == 0) by (bit_vector);
        assert((b >> m) & 1 == 1 || (b >> m) & 1 == 0) by (bit_vector);
        lemma_shift_step(a, b, n);
        lemma_bits_ext_from(a, b, m);
    }
}

/// Two words that agree on every bit are equal.
pub proof fn lemma_bits_ext(a: u64, b: u64)
    requires
        forall|j: u64| j < 64 ==> #[trigger] word_bit(a, j) == word_bit(b, j),
    ensures
        a == b,
{
    assert(a >> 64u64 == 0 && b >> 64u64 == 0) by (bit_vector);
    lemma_bits_ext_from(a, b, 64);
    assert(a >> 0u64 == a && b >> 0u64 == b) by (bit_vector);
}

/// `m` is contained in `g` exactly when every bit of `m` is a bit of `g`.
pub proof fn lemma_word_subset(g: u64, m: u64)
    ensures
        (g & m == m) <==> (forall|j: u64| j < 64 ==> #[trigger] word_bit(m, j) ==> word_bit(g, j)),
{
    if g & m == m {
        assert forall|j: u64| j < 64 && #[trigger] word_bit(m, j) implies word_bit(g, j) by {
            lemma_bit_and(g, m, j);
        }
    }
    if forall|j: u64| j < 64 ==> #[trigger] word_bit(m, j) ==> word_bit(g, j) {
        assert forall|j: u64| j < 64 implies #[trigger] word_bit(g & m, j) == word_bit(m, j) by {
            lemma_bit_and(g, m, j);
        }
        lemma_bits_ext(g & m, m);
    }
}

/// Pin `pin` (0..192) is in `mask` when bit `pin % 64` of word `pin / 64` is set.
pub open spec fn mask_has(mask: [u64; 3], pin: int) -> bool {
    0 <= pin < 192 && word_bit(mask@[pin / 64], (pin % 64) as u64)
}

/// The set of pins held in a three-word mask.
pub open spec fn pins_of(mask: [u64; 3]) -> Set<int> {
    Set::new(|pin: int| mask_has(mask, pin))
}

/// Word-level containment of three-word masks.
pub open spec fn words_cover(g: [u64; 3], m: [u64; 3]) -> bool {
    &&& g@[0] & m@[0] == m@[0]
    &&& g@[1] & m@[1] == m@[1]
    &&& g@[2] & m@[2] == m@[2]
}

/// Word-level containment is containment of the pin sets.
pub proof fn lemma_words_cover(g: [u64; 3], m: [u64; 3])
    ensures
        words_cover(g, m) <==> pins_of(m).subset_of(pins_of(g)),
{
    lemma_word_subset(g@[0], m@[0]);
    lemma_word_subset(g@[1], m@[1]);
    lemma_word_subset(g@[2], m@[2]);
    if words_cover(g, m) {
        assert forall|pin: int| pins_of(m).contains(pin) implies pins_of(g).contains(pin) by {
            let w = pin / 64;
            let j = (pin % 64) as u64;
            assert(word_bit(m@[w], j));
            if w == 0 {
            } else if w == 1 {
            } else {
                assert(w == 2);
            }
        }
    }
    if pins_of(m).subset_of(pins_of(g)) {
        assert forall|w: int, j: u64| 0 <= w < 3 && j < 64 && #[trigger] word_bit(m@[w], j)
            implies word_bit(g@[w], j) by {
            let pin = 64 * w + j;
            assert(pin / 64 == w);
            assert(pin % 64 == j);
            assert(pins_of(m).contains(pin));
        }
        assert forall|j: u64| j < 64 && #[trigger] word_bit(m@[0], j) implies word_bit(g@[0], j) by {
        }
        assert forall|j: u64| j < 64 && #[trigger] word_bit(m@[1], j) implies word_bit(g@[1], j) by {
        }
        assert forall|j: u64| j < 64 && #[trigger] word_bit(m@[2], j) implies word_bit(g@[2], j) by {
        }
    }
}

/// Setting bit `pin % 64` of word `pin / 64` adds `pin` to the pin set.
pub proof fn lemma_mask_insert(before: [u64; 3], after: [u64; 3], pin: int)
    requires
        0 <= pin < 192,
        after@ == before@.update(pin / 64, before@[pin / 64] | (1u64 << ((pin % 64) as u64))),
    ensures
        pins_of(after) == pins_of(before).insert(pin),
{
    assert forall|p: int| #[trigger] pins_of(after).contains(p) == pins_of(before).insert(pin).contains(p) by {
        if 0 <= p < 192 {
            if p / 64 == pin / 64 {
                lemma_bit_or(before@[pin / 64], (pin % 64) as u64, (p % 64) as u64);
            }
        }
    }
    assert(pins_of(after) =~= pins_of(before).insert(pin));
}

/// Clearing bit `pin % 64` of word `pin / 64` removes `pin` from the pin set.
pub proof fn lemma_mask_remove(before: [u64; 3], after: [u64; 3], pin: int)
    requires
        0 <= pin < 192,
        after@ == before@.update(pin / 64, before@[pin / 64] & !(1u64 << ((pin % 64) as u64))),
    ensures
        pins_of(after) == pins_of(before).remove(pin),
{
    assert forall|p: int| #[trigger] pins_of(after).contains(p) == pins_of(before).remove(pin).contains(p) by {
        if 0 <= p < 192 {
            if p / 64 == pin / 64 {
                lemma_bit_and_not(before@[pin / 64], (pin % 64) as u64, (p % 64) as u64);
            }
        }
    }
    assert(pins_of(after) =~= pins_of(before).remove(pin));
}

} // verus!
