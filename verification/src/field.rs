//! The prime-field alphabet of the scheme, and the trusted boundary to the
//! outside crates that implement its arithmetic.
//!
//! The field is the scalar field of BLS12-377 (the base field of the
//! Edwards BLS12 curve). A field element is modelled by its canonical
//! representative, a natural number below the modulus.

use vstd::prelude::*;

use crate::bits::le_bytes_value;
use crate::bits::le_value;

use snarkvm_fields::PrimeField;
use snarkvm_utilities::FromBits;
use snarkvm_utilities::ToBits;

verus! {

/// The number of message bits that can be packed into one field element while
/// guaranteeing unique decoding: one less than the modulus bit width.
pub const CAPACITY: usize = 252;

/// The bit width of the field modulus.
pub const MODULUS_BITS: usize = 253;

/// The field modulus: the order of the scalar field of BLS12-377.
pub open spec fn modulus() -> nat {
    8444461749428370424248824938781546531375899335154063827935233455917409239041nat
}

/// One element of the prime field: the atomic plaintext and ciphertext symbol.
/// It holds a field element of the outside crate, which Verus does not look
/// into; the library reasons about it only through `field_value`.
#[verifier::external_body]
pub struct FieldElement {
    inner: snarkvm_fields::Fp256<snarkvm_curves::edwards_bls12::FqParameters>,
}

/// The value that a field element of the outside crate stands for: its
/// canonical representative, a natural number below the modulus.
pub uninterp spec fn field_value(f: FieldElement) -> nat;

impl View for FieldElement {
    type V = nat;

    open spec fn view(&self) -> nat {
        field_value(*self)
    }
}

/// The values that a sequence of field elements stands for, in order.
pub open spec fn values_of(s: Seq<FieldElement>) -> Seq<nat> {
    s.map_values(|f: FieldElement| f@)
}

impl FieldElement {
    /// Every element the library hands out holds a canonical representative.
    #[verifier::type_invariant]
    pub(crate) open spec fn canonical(self) -> bool {
        field_value(self) < modulus()
    }
}

impl Clone for FieldElement {
    /// Relies on `Fp256` being `Copy`: a clone is the same field element.
    #[verifier::external_body]
    fn clone(&self) -> (r: Self)
        ensures
            field_value(r) == field_value(*self),
    {
        FieldElement { inner: self.inner }
    }
}

/// Relies on `Fp256`'s `Add` impl: addition of canonical field elements,
/// reduced into the canonical range.
#[verifier::external_body]
pub(crate) fn field_add(a: &FieldElement, b: &FieldElement) -> (r: FieldElement)
    requires
        a@ < modulus(),
        b@ < modulus(),
    ensures
        field_value(r) == (field_value(*a) + field_value(*b)) % modulus(),
{
    FieldElement { inner: a.inner + b.inner }
}

/// Relies on `Fp256`'s `Sub` impl: subtraction of canonical field elements,
/// the exact inverse of addition by the same element.
#[verifier::external_body]
pub(crate) fn field_sub(a: &FieldElement, b: &FieldElement) -> (r: FieldElement)
    requires
        a@ < modulus(),
        b@ < modulus(),
    ensures
        field_value(r) == (field_value(*a) + modulus() - field_value(*b)) % (modulus() as int),
{
    FieldElement { inner: a.inner - b.inner }
}

/// Relies on `BigInteger256::from_bits_le` and `Fp256::from_bigint`: a
/// little-endian bit sequence of at most `CAPACITY` bits packs into the field
/// element whose canonical representative is the value of those bits (the
/// value stays below two to the `CAPACITY`, hence below the modulus).
#[verifier::external_body]
pub(crate) fn field_from_bits_le(bits: &Vec<bool>) -> (r: FieldElement)
    requires
        bits@.len() <= CAPACITY,
    ensures
        field_value(r) == le_value(bits@),
{
    let big = <snarkvm_utilities::biginteger::BigInteger256 as FromBits>::from_bits_le(bits).unwrap();
    FieldElement { inner: snarkvm_fields::Fp256::from_bigint(big).unwrap() }
}

/// Relies on `Fp256`'s `ToBits` impl: the little-endian bits of the canonical
/// representative, exactly `MODULUS_BITS` of them.
#[verifier::external_body]
pub(crate) fn field_to_bits_le(f: &FieldElement) -> (r: Vec<bool>)
    ensures
        r@.len() == MODULUS_BITS,
        le_value(r@) == field_value(*f),
{
    f.inner.to_bits_le()
}

/// Relies on `PrimeField::from_bytes_le_mod_order`: the little-endian byte
/// value, reduced modulo the field order.
#[verifier::external_body]
pub(crate) fn field_from_bytes_le_mod_order(bytes: &Vec<u8>) -> (r: FieldElement)
    ensures
        field_value(r) == le_bytes_value(bytes@) % modulus(),
{
    FieldElement {
        inner:
            <snarkvm_fields::Fp256<
                snarkvm_curves::edwards_bls12::FqParameters,
            > as PrimeField>::from_bytes_le_mod_order(bytes),
    }
}

/// The outputs of the rate-4 Poseidon hash over this field, seeded with a
/// domain tag and a key and squeezed to the requested count: a deterministic
/// function of those three values alone.
pub uninterp spec fn poseidon4_outputs(domain: nat, key: nat, count: nat) -> Seq<nat>;

/// Relies on `Poseidon::evaluate_many` (rate 4) of the outside algorithms
/// crate: deterministic in the absorbed elements and the requested count, and
/// every output is a canonical field element, so reducing it modulo the field
/// order leaves it unchanged.
#[verifier::external_body]
pub(crate) fn poseidon4_hash_many(domain: &FieldElement, key: &FieldElement, count: usize) -> (r:
    Vec<FieldElement>)
    ensures
        r@.len() == count,
        forall|i: int|
            0 <= i < count ==> field_value(r@[i]) == poseidon4_outputs(
                field_value(*domain),
                field_value(*key),
                count as nat,
            )[i] % modulus(),
{
    let poseidon = snarkvm_algorithms::crypto_hash::Poseidon::<
        snarkvm_curves::edwards_bls12::Fq,
        4,
    >::setup();
    let outputs = poseidon.evaluate_many(&[domain.inner, key.inner], count);
    outputs.into_iter().map(|inner| FieldElement { inner }).collect()
}

/// The affine coordinates of the generator point that hash-to-curve derives
/// from a setup message: a deterministic function of the message alone.
pub uninterp spec fn generator_coords(message: Seq<char>) -> Seq<nat>;

/// Relies on `Blake2Xs::hash_to_curve` over the Edwards BLS12 curve:
/// deterministic in the message; the result is the derived generator point,
/// handed out as its affine coordinates. The outside function aborts only if
/// none of its bounded number of attempts finds a point, an event with
/// probability about two to the minus 128.
#[verifier::external_body]
pub(crate) fn hash_to_curve_xy(message: &str) -> (r: (FieldElement, FieldElement))
    ensures
        field_value(r.0) == generator_coords(message@)[0],
        field_value(r.1) == generator_coords(message@)[1],
{
    let (g, _, _) = snarkvm_console_algorithms::Blake2Xs::hash_to_curve::<
        snarkvm_curves::edwards_bls12::EdwardsAffine,
    >(message);
    (FieldElement { inner: g.x }, FieldElement { inner: g.y })
}

impl FieldElement {
    /// Packs a little-endian bit sequence of at most `CAPACITY` bits into one
    /// field element; the element's value is the value of the bits.
    pub fn from_bits_le(bits: &Vec<bool>) -> (r: FieldElement)
        requires
            bits@.len() <= CAPACITY,
        ensures
            r@ == le_value(bits@),
    {
        field_from_bits_le(bits)
    }

    /// The little-endian bits of the element's value: exactly `MODULUS_BITS`
    /// bits whose value is the element's canonical representative.
    pub fn to_bits_le(&self) -> (r: Vec<bool>)
        ensures
            r@.len() == MODULUS_BITS,
            le_value(r@) == self@,
    {
        field_to_bits_le(self)
    }
}

} // verus!
