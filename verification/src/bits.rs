//! Single bits of a 32-bit register word.
//!
//! A GPIO or timer register is a `u32` in which bit `i` stands for pin or
//! channel `i`. [`has_bit`] reads one bit; the lemmas say what each bitwise
//! operator does to every bit, so that code built from `|`, `&`, `^`, `<<`
//! and `>>` can be specified pin by pin.
use vstd::prelude::*;

verus! {

/// Whether bit `i` of `word` is set (bit 0 is the least significant).
pub open spec fn has_bit(word: u32, i: u32) -> bool {
    (word >> i) & 1 == 1
}

/// The word with only bit `i` set.
pub open spec fn bit(i: u32) -> u32 {
    1u32 << i
}

/// Whether every bit of `part` is also set in `whole`.
pub open spec fn subset_of(part: u32, whole: u32) -> bool {
    part & !whole == 0
}

/// No bit is set in zero.
pub proof fn lemma_zero_has_no_bit(i: u32)
    requires
        i < 32,
    ensures
        !has_bit(0, i),
{
    assert((0u32 >> i) & 1 == 0) by (bit_vector);
}

/// `1 << p` has bit `p` and no other.
pub proof fn lemma_bit_single(p: u32, i: u32)
    requires
        p < 32,
        i < 32,
    ensures
        has_bit(bit(p), i) == (i == p),
{
    assert(((1u32 << p) >> i) & 1 == 1 <==> i == p) by (bit_vector)
        requires
            p < 32,
            i < 32,
    ;
}

/// A bit is set in `a | b` exactly when it is set in `a` or in `b`.
pub proof fn lemma_bit_or(a: u32, b: u32, i: u32)
    requires
        i < 32,
    ensures
        has_bit(a | b, i) == (has_bit(a, i) || has_bit(b, i)),
{
    assert(((a | b) >> i) & 1 == 1 <==> ((a >> i) & 1 == 1 || (b >> i) & 1 == 1))
        by (bit_vector);
}

/// A bit is set in `a & b` exactly when it is set in both.
pub proof fn lemma_bit_and(a: u32, b: u32, i: u32)
    requires
        i < 32,
    ensures
        has_bit(a & b, i) == (has_bit(a, i) && has_bit(b, i)),
{
    assert(((a & b) >> i) & 1 == 1 <==> ((a >> i) & 1 == 1 && (b >> i) & 1 == 1))
        by (bit_vector);
}

/// A bit is set in `a ^ b` exactly when it is set in one of them only.
pub proof fn lemma_bit_xor(a: u32, b: u32, i: u32)
    requires
        i < 32,
    ensures
        has_bit(a ^ b, i) == (has_bit(a, i) != has_bit(b, i)),
{
    assert(((a ^ b) >> i) & 1 == 1 <==> (((a >> i) & 1 == 1) != ((b >> i) & 1 == 1)))
        by (bit_vector);
}

/// A bit is set in `!a` exactly when it is clear in `a`.
pub proof fn lemma_bit_not(a: u32, i: u32)
    requires
        i < 32,
    ensures
        has_bit(!a, i) == !has_bit(a, i),
{
    assert(((!a) >> i) & 1 == 1 <==> !((a >> i) & 1 == 1)) by (bit_vector)
        requires
            i < 32,
    ;
}

/// Bit `i` of `a >> n` is bit `i + n` of `a`, where there is one.
pub proof fn lemma_bit_shr(a: u32, n: u32, i: u32)
    requires
        n < 32,
        i < 32,
    ensures
        has_bit(a >> n, i) == (i + n < 32 && has_bit(a, (i + n) as u32)),
{
    if i + n < 32 {
        let j: u32 = (i + n) as u32;
        assert(((a >> n) >> i) & 1 == 1 <==> (a >> j) & 1 == 1) by (bit_vector)
            requires
                n < 32,
                i < 32,
                j == i + n,
                j < 32,
        ;
    } else {
        assert(((a >> n) >> i) & 1 == 0) by (bit_vector)
            requires
                n < 32,
                i < 32,
                i + n >= 32,
        ;
    }
}

/// Bit `i` of `a << n` is bit `i - n` of `a`, where there is one.
pub proof fn lemma_bit_shl(a: u32, n: u32, i: u32)
    requires
        n < 32,
        i < 32,
    ensures
        has_bit(a << n, i) == (i >= n && has_bit(a, (i - n) as u32)),
{
    if i >= n {
        let j: u32 = (i - n) as u32;
        assert(((a << n) >> i) & 1 == 1 <==> (a >> j) & 1 == 1) by (bit_vector)
            requires
                n < 32,
                i < 32,
                i >= n,
                j == i - n,
        ;
    } else {
        assert(((a << n) >> i) & 1 == 0) by (bit_vector)
            requires
                n < 32,
                i < 32,
                i < n,
        ;
    }
}

/// `x & 1` is bit 0 of `x`, as a word.
pub proof fn lemma_low_bit(x: u32)
    ensures
        x & 1 == (if has_bit(x, 0) { 1u32 } else { 0u32 }),
{
    assert(x & 1 == (if (x >> 0u32) & 1 == 1 { 1u32 } else { 0u32 })) by (bit_vector);
}

/// `part` is a subset of `whole` exactly when each of its bits is set there.
pub proof fn lemma_subset_bits(part: u32, whole: u32)
    ensures
        subset_of(part, whole) <==> (forall|i: u32| i < 32 && has_bit(part, i) ==> has_bit(whole, i)),
{
    if subset_of(part, whole) {
        assert forall|i: u32| i < 32 && has_bit(part, i) implies has_bit(whole, i) by {
            assert((part >> i) & 1 == 1 ==> (whole >> i) & 1 == 1) by (bit_vector)
                requires
                    part & !whole == 0,
                    i < 32,
            ;
        }
    } else {
        let x: u32 = part & !whole;
        let i = lemma_some_bit(x);
        lemma_bit_and(part, !whole, i);
        lemma_bit_not(whole, i);
    }
}

/// A word other than zero has a bit set.
pub proof fn lemma_some_bit(x: u32) -> (i: u32)
    requires
        x != 0,
    ensures
        i < 32,
        has_bit(x, i),
{
    lemma_some_bit_below(x, 32)
}

proof fn lemma_some_bit_below(x: u32, hi: u32) -> (i: u32)
    requires
        x != 0,
        hi <= 32,
        hi < 32 ==> x >> hi == 0,
    ensures
        i < hi,
        has_bit(x, i),
    decreases hi,
{
    assert(hi != 0) by (bit_vector)
        requires
            x != 0,
            hi <= 32,
            hi < 32 ==> x >> hi == 0,
    ;
    let top: u32 = (hi - 1) as u32;
    if has_bit(x, top) {
        top
    } else {
        assert(x >> top == 0) by (bit_vector)
            requires
                top < 32,
                hi == top + 1,
                hi < 32 ==> x >> hi == 0,
                (x >> top) & 1 != 1,
        ;
        lemma_some_bit_below(x, top)
    }
}

/// Two words with the same bits are the same word.
pub proof fn lemma_same_bits(a: u32, b: u32)
    requires
        forall|i: u32| i < 32 ==> has_bit(a, i) == has_bit(b, i),
    ensures
        a == b,
{
    if a != b {
        let x: u32 = a ^ b;
        assert(x != 0) by (bit_vector)
            requires
                x == a ^ b,
                a != b,
        ;
        let i = lemma_some_bit(x);
        lemma_bit_xor(a, b, i);
    }
}

} // verus!
