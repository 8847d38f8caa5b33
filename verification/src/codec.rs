//! The message codec: a bitstring is packed, together with a terminator
//! marker, into field-element values, and recovered from them.
//!
//! Encoding appends one `true` terminator bit, partitions the result into
//! chunks of at most `CAPACITY` bits, and packs each chunk little-endian-first
//! into one element. Decoding decomposes every element into exactly
//! `CAPACITY` bits, strips the trailing `false` padding and the terminator,
//! and demands that what remains is byte-aligned.

use vstd::prelude::*;

use crate::bits::bits_of;
use crate::bits::falses;
use crate::bits::le_value;
use crate::bits::lemma_bits_of_le_value_exact;
use crate::bits::lemma_bits_of_le_value_padded;
use crate::field::CAPACITY;

verus! {

/// The one fatal condition of the scheme: the elements handed to decoding
/// were not produced by a matching encoding, or the scheme parameters differ
/// between the two sides.
#[derive(Clone, Copy, Debug, PartialEq, Eq)]
pub struct MalformedEncoding;

/// Packs a bit sequence into element values, `CAPACITY` bits at a time,
/// least-significant-bit first; the final chunk may be shorter.
pub open spec fn pack_spec(bits: Seq<bool>) -> Seq<nat>
    decreases bits.len(),
{
    if bits.len() <= CAPACITY {
        seq![le_value(bits)]
    } else {
        seq![le_value(bits.take(CAPACITY as int))].add(pack_spec(bits.skip(CAPACITY as int)))
    }
}

/// The element values that encoding a message produces: the message bits with
/// the terminator bit appended, packed.
pub open spec fn encode_spec(message: Seq<bool>) -> Seq<nat> {
    pack_spec(message.push(true))
}

/// The low `CAPACITY` bits of every element value, concatenated in element
/// order.
pub open spec fn unpack_spec(values: Seq<nat>) -> Seq<bool>
    decreases values.len(),
{
    if values.len() == 0 {
        Seq::empty()
    } else {
        bits_of(values[0], CAPACITY as nat).add(unpack_spec(values.drop_first()))
    }
}

/// Drops every trailing `false` bit; what remains is empty or ends in `true`.
pub open spec fn strip_trailing_falses(bits: Seq<bool>) -> Seq<bool>
    decreases bits.len(),
{
    if bits.len() == 0 {
        bits
    } else if bits.last() {
        bits
    } else {
        strip_trailing_falses(bits.drop_last())
    }
}

/// What decoding a sequence of element values yields: the message bits that
/// remain after stripping the trailing padding and the terminator, or nothing
/// where no terminator is found or the remainder is not byte-aligned.
pub open spec fn decode_spec(values: Seq<nat>) -> Option<Seq<bool>> {
    let stripped = strip_trailing_falses(unpack_spec(values));
    if stripped.len() == 0 {
        None
    } else if (stripped.len() - 1) % 8 == 0 {
        Some(stripped.drop_last())
    } else {
        None
    }
}

/// Packing a nonempty bit sequence yields one element for each `CAPACITY`
/// bits begun: the count is the quotient rounded up, and never zero.
pub proof fn lemma_pack_spec_len(bits: Seq<bool>)
    requires
        bits.len() > 0,
    ensures
        pack_spec(bits).len() == (bits.len() + CAPACITY - 1) / (CAPACITY as int),
        pack_spec(bits).len() >= 1,
    decreases bits.len(),
{
    if bits.len() <= CAPACITY {
        assert((bits.len() + CAPACITY - 1) / (CAPACITY as int) == 1);
    } else {
        let rest = bits.skip(CAPACITY as int);
        lemma_pack_spec_len(rest);
        vstd::arithmetic::div_mod::lemma_div_plus_one((bits.len() - CAPACITY - 1) as int, CAPACITY as int);
    }
}

/// Unpacking what packing produced recovers the packed bits, followed by the
/// `false` padding that fills the final element.
pub proof fn lemma_unpack_pack(bits: Seq<bool>)
    requires
        bits.len() > 0,
    ensures
        pack_spec(bits).len() * CAPACITY >= bits.len(),
        unpack_spec(pack_spec(bits)) =~= bits.add(
            falses((pack_spec(bits).len() * CAPACITY - bits.len()) as nat),
        ),
    decreases bits.len(),
{
    if bits.len() <= CAPACITY {
        let packed = pack_spec(bits);
        assert(packed =~= seq![le_value(bits)]);
        assert(packed.drop_first() =~= Seq::<nat>::empty());
        assert(unpack_spec(packed) == bits_of(packed[0], CAPACITY as nat).add(
            unpack_spec(packed.drop_first()),
        ));
        assert(unpack_spec(Seq::<nat>::empty()) =~= Seq::<bool>::empty());
        lemma_bits_of_le_value_padded(bits, CAPACITY as nat);
        assert(unpack_spec(packed) =~= bits_of(le_value(bits), CAPACITY as nat));
    } else {
        let head = bits.take(CAPACITY as int);
        let rest = bits.skip(CAPACITY as int);
        let packed = pack_spec(bits);
        assert(packed.drop_first() =~= pack_spec(rest));
        lemma_bits_of_le_value_exact(head);
        lemma_unpack_pack(rest);
        assert(head.add(rest) =~= bits);
    }
}

/// Trailing `false` bits do not change what stripping yields.
pub proof fn lemma_strip_falses(bits: Seq<bool>, n: nat)
    ensures
        strip_trailing_falses(bits.add(falses(n))) =~= strip_trailing_falses(bits),
    decreases n,
{
    if n > 0 {
        let longer = bits.add(falses(n));
        assert(!longer.last());
        assert(longer.drop_last() =~= bits.add(falses((n - 1) as nat)));
        lemma_strip_falses(bits, (n - 1) as nat);
    } else {
        assert(bits.add(falses(0)) =~= bits);
    }
}

/// The round-trip law of the codec: decoding what encoding produced recovers
/// every byte-aligned message exactly.
pub proof fn lemma_decode_encode_roundtrip(message: Seq<bool>)
    requires
        message.len() % 8 == 0,
    ensures
        decode_spec(encode_spec(message)) == Some(message),
{
    let padded = message.push(true);
    lemma_unpack_pack(padded);
    let pad = (pack_spec(padded).len() * CAPACITY - padded.len()) as nat;
    lemma_strip_falses(padded, pad);
    assert(padded.last());
    assert(strip_trailing_falses(unpack_spec(encode_spec(message))) =~= padded);
    assert(padded.drop_last() =~= message);
}

} // verus!
