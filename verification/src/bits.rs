//! Bit sequences and their little-endian integer values.
//!
//! Messages are ordered sequences of bits, least-significant-bit first. The
//! codec reasons about them through `le_value`, the integer a sequence stands
//! for, and `bits_of`, the low bits of an integer.

use vstd::prelude::*;

verus! {

/// The integer value of a bit sequence read least-significant-bit first.
pub open spec fn le_value(bits: Seq<bool>) -> nat
    decreases bits.len(),
{
    if bits.len() == 0 {
        0
    } else {
        (if bits[0] {
            1nat
        } else {
            0nat
        }) + 2 * le_value(bits.drop_first())
    }
}

/// The low `n` bits of `v`, least-significant-bit first.
pub open spec fn bits_of(v: nat, n: nat) -> Seq<bool>
    decreases n,
{
    if n == 0 {
        Seq::empty()
    } else {
        seq![v % 2 == 1].add(bits_of(v / 2, (n - 1) as nat))
    }
}

/// The integer value of a byte sequence read least-significant-byte first.
pub open spec fn le_bytes_value(bytes: Seq<u8>) -> nat
    decreases bytes.len(),
{
    if bytes.len() == 0 {
        0
    } else {
        (bytes[0] as nat) + 256 * le_bytes_value(bytes.drop_first())
    }
}

/// A run of `n` `false` bits.
pub open spec fn falses(n: nat) -> Seq<bool> {
    Seq::new(n, |i: int| false)
}

/// The low bits of an integer are a sequence of the requested length.
pub proof fn lemma_bits_of_len(v: nat, n: nat)
    ensures
        bits_of(v, n).len() == n,
    decreases n,
{
    if n > 0 {
        lemma_bits_of_len(v / 2, (n - 1) as nat);
    }
}

/// Zero decomposes into a run of `false` bits.
pub proof fn lemma_bits_of_zero(n: nat)
    ensures
        bits_of(0, n) =~= falses(n),
    decreases n,
{
    if n > 0 {
        lemma_bits_of_zero((n - 1) as nat);
    }
}

/// Taking no more bits than a sequence holds recovers its prefix.
pub proof fn lemma_bits_of_le_value_prefix(b: Seq<bool>, n: nat)
    requires
        n <= b.len(),
    ensures
        bits_of(le_value(b), n) =~= b.take(n as int),
    decreases n,
{
    lemma_bits_of_len(le_value(b), n);
    if n > 0 {
        let v = le_value(b);
        let rest = b.drop_first();
        assert(v == (if b[0] { 1nat } else { 0nat }) + 2 * le_value(rest));
        assert(v % 2 == (if b[0] { 1nat } else { 0nat }));
        assert(v / 2 == le_value(rest));
        lemma_bits_of_le_value_prefix(rest, (n - 1) as nat);
        assert(rest.take(n - 1) =~= b.take(n as int).drop_first());
    }
}

/// Taking more bits than a sequence holds recovers it, padded with `false`.
pub proof fn lemma_bits_of_le_value_padded(b: Seq<bool>, n: nat)
    requires
        n >= b.len(),
    ensures
        bits_of(le_value(b), n) =~= b.add(falses((n - b.len()) as nat)),
    decreases n,
{
    lemma_bits_of_len(le_value(b), n);
    if b.len() == 0 {
        lemma_bits_of_zero(n);
    } else {
        let v = le_value(b);
        let rest = b.drop_first();
        assert(v % 2 == (if b[0] { 1nat } else { 0nat }));
        assert(v / 2 == le_value(rest));
        lemma_bits_of_le_value_padded(rest, (n - 1) as nat);
    }
}

/// A sequence of given length is recovered exactly from its value.
pub proof fn lemma_bits_of_le_value_exact(b: Seq<bool>)
    ensures
        bits_of(le_value(b), b.len()) =~= b,
{
    lemma_bits_of_le_value_padded(b, b.len());
    assert(b.add(falses(0)) =~= b);
}

} // verus!
