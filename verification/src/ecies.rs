//! The scheme instance: immutable domain parameters fixed at setup, and the
//! encode, decode, encrypt and decrypt operations over them.

use vstd::prelude::*;

use crate::bits::le_bytes_value;
use crate::bits::le_value;
use crate::bits::lemma_bits_of_le_value_prefix;
use crate::cipher::decrypt_spec;
use crate::cipher::encrypt_spec;
use crate::cipher::keystream;
use crate::codec::decode_spec;
use crate::codec::encode_spec;
use crate::codec::lemma_pack_spec_len;
use crate::codec::pack_spec;
use crate::codec::strip_trailing_falses;
use crate::codec::unpack_spec;
use crate::codec::MalformedEncoding;
use crate::field::field_add;
use crate::field::field_from_bytes_le_mod_order;
use crate::field::field_sub;
use crate::field::field_to_bits_le;
use crate::field::generator_coords;
use crate::field::hash_to_curve_xy;
use crate::field::modulus;
use crate::field::poseidon4_hash_many;
use crate::field::values_of;
use crate::field::FieldElement;
use crate::field::CAPACITY;

verus! {

/// The fixed ASCII tag whose byte-to-field reduction is the key-commitment
/// domain separator.
pub open spec fn key_commitment_tag_bytes() -> Seq<u8> {
    seq![
        65u8, 108u8, 101u8, 111u8, 83u8, 121u8, 109u8, 109u8, 101u8, 116u8, 114u8, 105u8, 99u8,
        75u8, 101u8, 121u8, 67u8, 111u8, 109u8, 109u8, 105u8, 116u8, 109u8, 101u8, 110u8, 116u8,
        48u8,
    ]
}

/// The fixed ASCII tag whose byte-to-field reduction is the encryption domain
/// separator.
pub open spec fn encryption_tag_bytes() -> Seq<u8> {
    seq![
        65u8, 108u8, 101u8, 111u8, 83u8, 121u8, 109u8, 109u8, 101u8, 116u8, 114u8, 105u8, 99u8,
        69u8, 110u8, 99u8, 114u8, 121u8, 112u8, 116u8, 105u8, 111u8, 110u8, 48u8,
    ]
}

/// The two domain-separation constants are distinct field elements, so a
/// keystream derived under one tag is never derived under the other.
#[verifier::rlimit(100)]
pub proof fn lemma_domain_tags_distinct()
    ensures
        le_bytes_value(key_commitment_tag_bytes()) % modulus() != le_bytes_value(
            encryption_tag_bytes(),
        ) % modulus(),
{
    reveal_with_fuel(le_bytes_value, 30);
    let kc = le_bytes_value(key_commitment_tag_bytes());
    let enc = le_bytes_value(encryption_tag_bytes());
    assert(kc == 19933152469175882659146348593214650457776474695665539873413360705nat);
    assert(enc == 1187534166381405136191308758137566032926460981470575291457nat);
    vstd::arithmetic::div_mod::lemma_small_mod(kc, modulus());
    vstd::arithmetic::div_mod::lemma_small_mod(enc, modulus());
}

/// The public parameters of one scheme instance: the generator point derived
/// from the setup message, and the two domain-separation constants, as the
/// values they stand for.
pub struct DomainParameters {
    pub generator_x: nat,
    pub generator_y: nat,
    pub symmetric_key_commitment_domain: nat,
    pub symmetric_encryption_domain: nat,
}

/// A symmetric encryption scheme over the prime field, keyed by a single
/// field element, whose keystream is derived from the Poseidon hash.
pub struct ECIESPoseidonEncryption {
    generator_x: FieldElement,
    generator_y: FieldElement,
    symmetric_key_commitment_domain: FieldElement,
    symmetric_encryption_domain: FieldElement,
}

impl View for ECIESPoseidonEncryption {
    type V = DomainParameters;

    closed spec fn view(&self) -> DomainParameters {
        DomainParameters {
            generator_x: self.generator_x@,
            generator_y: self.generator_y@,
            symmetric_key_commitment_domain: self.symmetric_key_commitment_domain@,
            symmetric_encryption_domain: self.symmetric_encryption_domain@,
        }
    }
}

impl ECIESPoseidonEncryption {
    /// Fixes the public parameters: the generator point is derived from the
    /// setup message by hash-to-curve, and the two domain-separation
    /// constants are the fixed ASCII tags reduced to field elements, so the
    /// result is the same on every call with the same message.
    pub fn setup(message: &str) -> (r: Self)
        ensures
            r@.generator_x == generator_coords(message@)[0],
            r@.generator_y == generator_coords(message@)[1],
            r@.symmetric_key_commitment_domain == le_bytes_value(key_commitment_tag_bytes())
                % modulus(),
            r@.symmetric_encryption_domain == le_bytes_value(encryption_tag_bytes()) % modulus(),
    {
        let (generator_x, generator_y) = hash_to_curve_xy(message);
        let kc_bytes: Vec<u8> = vec![
            65u8, 108u8, 101u8, 111u8, 83u8, 121u8, 109u8, 109u8, 101u8, 116u8, 114u8, 105u8,
            99u8, 75u8, 101u8, 121u8, 67u8, 111u8, 109u8, 109u8, 105u8, 116u8, 109u8, 101u8,
            110u8, 116u8, 48u8,
        ];
        let enc_bytes: Vec<u8> = vec![
            65u8, 108u8, 101u8, 111u8, 83u8, 121u8, 109u8, 109u8, 101u8, 116u8, 114u8, 105u8,
            99u8, 69u8, 110u8, 99u8, 114u8, 121u8, 112u8, 116u8, 105u8, 111u8, 110u8, 48u8,
        ];
        proof {
            assert(kc_bytes@ =~= key_commitment_tag_bytes());
            assert(enc_bytes@ =~= encryption_tag_bytes());
        }
        let symmetric_key_commitment_domain = field_from_bytes_le_mod_order(&kc_bytes);
        let symmetric_encryption_domain = field_from_bytes_le_mod_order(&enc_bytes);
        ECIESPoseidonEncryption {
            generator_x,
            generator_y,
            symmetric_key_commitment_domain,
            symmetric_encryption_domain,
        }
    }

    /// The affine coordinates of this instance's generator point.
    pub fn generator(&self) -> (r: (FieldElement, FieldElement))
        ensures
            r.0@ == self@.generator_x,
            r.1@ == self@.generator_y,
    {
        (self.generator_x.clone(), self.generator_y.clone())
    }

    /// The key-commitment domain separator of this instance.
    pub fn symmetric_key_commitment_domain(&self) -> (r: FieldElement)
        ensures
            r@ == self@.symmetric_key_commitment_domain,
    {
        self.symmetric_key_commitment_domain.clone()
    }

    /// The encryption domain separator of this instance.
    pub fn symmetric_encryption_domain(&self) -> (r: FieldElement)
        ensures
            r@ == self@.symmetric_encryption_domain,
    {
        self.symmetric_encryption_domain.clone()
    }

    /// Encodes a bitstring into field elements: the terminator bit is
    /// appended and the bits are packed `CAPACITY` at a time, so the result
    /// holds one element for each `CAPACITY` bits begun and is never empty.
    pub fn encode_message(&self, message: &Vec<bool>) -> (r: Vec<FieldElement>)
        ensures
            values_of(r@) == encode_spec(message@),
            r@.len() == (message@.len() + CAPACITY) / (CAPACITY as int),
            r@.len() >= 1,
    {
        let mut padded: Vec<bool> = Vec::new();
        let mut i: usize = 0;
        while i < message.len()
            invariant
                i <= message@.len(),
                padded@ =~= message@.take(i as int),
            decreases message@.len() - i,
        {
            padded.push(message[i]);
            i += 1;
        }
        padded.push(true);
        proof {
            assert(message@.take(message@.len() as int) =~= message@);
            assert(padded@ =~= message@.push(true));
        }
        let ghost whole = padded@;
        let mut out: Vec<FieldElement> = Vec::new();
        let mut start: usize = 0;
        proof {
            assert(values_of(out@) =~= Seq::<nat>::empty());
            assert(whole.skip(0) =~= whole);
            assert(Seq::<nat>::empty() + pack_spec(whole) =~= pack_spec(whole));
        }
        while start < padded.len()
            invariant
                padded@ == whole,
                whole.len() >= 1,
                start <= whole.len(),
                start < whole.len() ==> pack_spec(whole) =~= values_of(out@) + pack_spec(
                    whole.skip(start as int),
                ),
                start == whole.len() ==> pack_spec(whole) =~= values_of(out@),
            decreases whole.len() - start,
        {
            let remaining = padded.len() - start;
            let end = if remaining > CAPACITY {
                start + CAPACITY
            } else {
                padded.len()
            };
            let mut chunk: Vec<bool> = Vec::new();
            let mut j: usize = start;
            while j < end
                invariant
                    padded@ == whole,
                    start <= j <= end,
                    end <= whole.len(),
                    chunk@ =~= whole.subrange(start as int, j as int),
                decreases end - j,
            {
                chunk.push(padded[j]);
                j += 1;
            }
            let ghost out_before = out@;
            let element = FieldElement::from_bits_le(&chunk);
            out.push(element);
            proof {
                let suffix = whole.skip(start as int);
                assert(values_of(out@) =~= values_of(out_before).push(element@));
                if remaining > CAPACITY {
                    assert(suffix.take(CAPACITY as int) =~= whole.subrange(
                        start as int,
                        end as int,
                    ));
                    assert(suffix.skip(CAPACITY as int) =~= whole.skip(end as int));
                    assert(pack_spec(suffix) == seq![le_value(suffix.take(CAPACITY as int))].add(
                        pack_spec(suffix.skip(CAPACITY as int)),
                    ));
                    assert(pack_spec(whole) =~= values_of(out@) + pack_spec(
                        whole.skip(end as int),
                    ));
                } else {
                    assert(suffix =~= whole.subrange(start as int, end as int));
                    assert(pack_spec(suffix) =~= seq![le_value(suffix)]);
                    assert(pack_spec(whole) =~= values_of(out@));
                }
            }
            start = end;
        }
        proof {
            lemma_pack_spec_len(whole);
        }
        out
    }

    /// Decodes field elements back into the bitstring they encode: every
    /// element is decomposed into its `CAPACITY` data bits, the trailing
    /// padding and the terminator are stripped, and the remainder is the
    /// message if and only if it is byte-aligned; otherwise the encoding is
    /// malformed.
    pub fn decode_message(&self, encoded: &Vec<FieldElement>) -> (r: Result<
        Vec<bool>,
        MalformedEncoding,
    >)
        ensures
            match r {
                Ok(bits) => decode_spec(values_of(encoded@)) == Some(bits@),
                Err(_) => decode_spec(values_of(encoded@)) is None,
            },
    {
        let ghost vals = values_of(encoded@);
        let mut bits: Vec<bool> = Vec::new();
        let mut i: usize = 0;
        while i < encoded.len()
            invariant
                i <= encoded@.len(),
                vals == values_of(encoded@),
                bits@ =~= unpack_spec(vals.take(i as int)),
            decreases encoded@.len() - i,
        {
            let element_bits = field_to_bits_le(&encoded[i]);
            let ghost before = bits@;
            let mut j: usize = 0;
            while j < CAPACITY
                invariant
                    j <= CAPACITY,
                    element_bits@.len() == crate::field::MODULUS_BITS,
                    bits@ =~= before + element_bits@.take(j as int),
                decreases CAPACITY - j,
            {
                bits.push(element_bits[j]);
                j += 1;
            }
            proof {
                lemma_bits_of_le_value_prefix(element_bits@, CAPACITY as nat);
                lemma_unpack_spec_take_one_more(vals, i as int);
            }
            i += 1;
        }
        proof {
            assert(vals.take(encoded@.len() as int) =~= vals);
        }
        let total = bits.len();
        let mut end: usize = total;
        proof {
            assert(bits@.take(total as int) =~= bits@);
        }
        while end > 0 && !bits[end - 1]
            invariant
                end <= bits@.len(),
                bits@.len() == total,
                bits@ =~= unpack_spec(vals),
                strip_trailing_falses(unpack_spec(vals)) =~= strip_trailing_falses(
                    bits@.take(end as int),
                ),
            decreases end,
        {
            proof {
                assert(bits@.take(end as int).drop_last() =~= bits@.take(end - 1));
            }
            end = end - 1;
        }
        if end == 0 {
            proof {
                assert(strip_trailing_falses(unpack_spec(vals)).len() == 0);
            }
            return Err(MalformedEncoding);
        }
        proof {
            assert(bits@.take(end as int).last());
            assert(strip_trailing_falses(unpack_spec(vals)) =~= bits@.take(end as int));
        }
        let body_len = end - 1;
        if body_len % 8 != 0 {
            return Err(MalformedEncoding);
        }
        let mut message: Vec<bool> = Vec::new();
        let mut k: usize = 0;
        while k < body_len
            invariant
                k <= body_len,
                body_len < bits@.len(),
                message@ =~= bits@.take(k as int),
            decreases body_len - k,
        {
            message.push(bits[k]);
            k += 1;
        }
        proof {
            assert(bits@.take(end as int).drop_last() =~= bits@.take(body_len as int));
        }
        Ok(message)
    }

    /// Encrypts a message of field elements: the keystream derived from the
    /// encryption domain separator and the symmetric key is added to the
    /// message element-wise, so the ciphertext has exactly the message's
    /// length and is the same on every call with the same key and message.
    pub fn encrypt(&self, symmetric_key: FieldElement, message: &Vec<FieldElement>) -> (r: Vec<
        FieldElement,
    >)
        ensures
            r@.len() == message@.len(),
            values_of(r@) == encrypt_spec(
                self@.symmetric_encryption_domain,
                symmetric_key@,
                values_of(message@),
            ),
    {
        let randomizers = poseidon4_hash_many(
            &self.symmetric_encryption_domain,
            &symmetric_key,
            message.len(),
        );
        let ghost domain = self@.symmetric_encryption_domain;
        let ghost n = message@.len();
        let mut out: Vec<FieldElement> = Vec::new();
        let mut i: usize = 0;
        while i < message.len()
            invariant
                i <= n,
                n == message@.len(),
                randomizers@.len() == n,
                domain == self@.symmetric_encryption_domain,
                forall|j: int|
                    0 <= j < n ==> randomizers@[j]@ == keystream(domain, symmetric_key@, n)[j],
                out@.len() == i,
                forall|j: int|
                    0 <= j < i ==> out@[j]@ == encrypt_spec(
                        domain,
                        symmetric_key@,
                        values_of(message@),
                    )[j],
            decreases n - i,
        {
            let m = &message[i];
            let k = &randomizers[i];
            proof {
                use_type_invariant(&*m);
                use_type_invariant(&*k);
            }
            let c = field_add(m, k);
            out.push(c);
            i += 1;
        }
        proof {
            assert(values_of(out@) =~= encrypt_spec(domain, symmetric_key@, values_of(message@)));
        }
        out
    }

    /// Decrypts a ciphertext of field elements: the identical keystream is
    /// derived again and subtracted element-wise, so the plaintext has
    /// exactly the ciphertext's length.
    pub fn decrypt(&self, symmetric_key: FieldElement, ciphertext: &Vec<FieldElement>) -> (r: Vec<
        FieldElement,
    >)
        ensures
            r@.len() == ciphertext@.len(),
            values_of(r@) == decrypt_spec(
                self@.symmetric_encryption_domain,
                symmetric_key@,
                values_of(ciphertext@),
            ),
    {
        let randomizers = poseidon4_hash_many(
            &self.symmetric_encryption_domain,
            &symmetric_key,
            ciphertext.len(),
        );
        let ghost domain = self@.symmetric_encryption_domain;
        let ghost n = ciphertext@.len();
        let mut out: Vec<FieldElement> = Vec::new();
        let mut i: usize = 0;
        while i < ciphertext.len()
            invariant
                i <= n,
                n == ciphertext@.len(),
                randomizers@.len() == n,
                domain == self@.symmetric_encryption_domain,
                forall|j: int|
                    0 <= j < n ==> randomizers@[j]@ == keystream(domain, symmetric_key@, n)[j],
                out@.len() == i,
                forall|j: int|
                    0 <= j < i ==> out@[j]@ == decrypt_spec(
                        domain,
                        symmetric_key@,
                        values_of(ciphertext@),
                    )[j],
            decreases n - i,
        {
            let c = &ciphertext[i];
            let k = &randomizers[i];
            proof {
                use_type_invariant(&*c);
                use_type_invariant(&*k);
            }
            let p = field_sub(c, k);
            out.push(p);
            i += 1;
        }
        proof {
            assert(values_of(out@) =~= decrypt_spec(domain, symmetric_key@, values_of(ciphertext@)));
        }
        out
    }
}

/// Unpacking one more element appends that element's data bits.
proof fn lemma_unpack_spec_take_one_more(vals: Seq<nat>, i: int)
    requires
        0 <= i < vals.len(),
    ensures
        unpack_spec(vals.take(i + 1)) =~= unpack_spec(vals.take(i)) + crate::bits::bits_of(
            vals[i],
            CAPACITY as nat,
        ),
    decreases i,
{
    if i == 0 {
        assert(vals.take(1).drop_first() =~= Seq::<nat>::empty());
        assert(vals.take(0) =~= Seq::<nat>::empty());
    } else {
        let shorter = vals.drop_first();
        lemma_unpack_spec_take_one_more(shorter, i - 1);
        assert(vals.take(i + 1).drop_first() =~= shorter.take(i));
        assert(vals.take(i).drop_first() =~= shorter.take(i - 1));
        assert(unpack_spec(vals.take(i + 1)) == crate::bits::bits_of(
            vals.take(i + 1)[0],
            CAPACITY as nat,
        ).add(unpack_spec(vals.take(i + 1).drop_first())));
        assert(unpack_spec(vals.take(i)) == crate::bits::bits_of(
            vals.take(i)[0],
            CAPACITY as nat,
        ).add(unpack_spec(vals.take(i).drop_first())));
        assert(shorter.take(i)[i - 1] == vals[i]);
    }
}

} // verus!
