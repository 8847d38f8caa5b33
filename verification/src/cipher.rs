//! The stream cipher: a keystream of field elements is derived from a domain
//! tag and a symmetric key, then combined with the message element-wise by
//! field addition, and removed again by field subtraction.

use vstd::prelude::*;

use crate::field::modulus;
use crate::field::poseidon4_outputs;
use vstd::arithmetic::div_mod::lemma_mod_bound;
use vstd::arithmetic::div_mod::lemma_mod_multiples_vanish;
use vstd::arithmetic::div_mod::lemma_small_mod;

verus! {

/// The keystream that a domain tag and a key derive: the Poseidon outputs for
/// that seed pair, each a canonical field value.
pub open spec fn keystream(domain: nat, key: nat, count: nat) -> Seq<nat> {
    Seq::new(count, |i: int| poseidon4_outputs(domain, key, count)[i] % modulus())
}

/// Ciphertext values: each message value plus its keystream value, in the
/// field.
pub open spec fn encrypt_spec(domain: nat, key: nat, message: Seq<nat>) -> Seq<nat> {
    Seq::new(
        message.len(),
        |i: int| (message[i] + keystream(domain, key, message.len())[i]) % modulus(),
    )
}

/// Plaintext values: each ciphertext value minus its keystream value, in the
/// field.
pub open spec fn decrypt_spec(domain: nat, key: nat, ciphertext: Seq<nat>) -> Seq<nat> {
    Seq::new(
        ciphertext.len(),
        |i: int|
            (((ciphertext[i] + modulus() - keystream(domain, key, ciphertext.len())[i]) as int) % (
            modulus() as int)) as nat,
    )
}

/// Adding a canonical field value and subtracting it again changes nothing:
/// field subtraction is the true inverse of field addition.
proof fn lemma_field_add_sub_cancel(m: nat, k: nat)
    requires
        m < modulus(),
        k < modulus(),
    ensures
        ((((m + k) % modulus()) + modulus() - k) as int) % (modulus() as int) == m,
{
    let p = modulus();
    let s = m + k;
    if s < p {
        lemma_small_mod(s, p);
        lemma_mod_multiples_vanish(1, m as int, p as int);
        lemma_small_mod(m, p);
    } else {
        lemma_mod_multiples_vanish(-1, s as int, p as int);
        assert((p as int) * -1 + s == s - p);
        lemma_small_mod((s - p) as nat, p);
        lemma_small_mod(m, p);
    }
}

/// The core correctness law of the cipher: decrypting with the key that
/// encrypted recovers every message of canonical field values exactly,
/// whatever the keystream turned out to be.
pub proof fn lemma_decrypt_encrypt_roundtrip(domain: nat, key: nat, message: Seq<nat>)
    requires
        forall|i: int| 0 <= i < message.len() ==> message[i] < modulus(),
    ensures
        decrypt_spec(domain, key, encrypt_spec(domain, key, message)) =~= message,
{
    let n = message.len();
    let ciphertext = encrypt_spec(domain, key, message);
    let recovered = decrypt_spec(domain, key, ciphertext);
    assert forall|i: int| 0 <= i < n implies recovered[i] == message[i] by {
        let ks = keystream(domain, key, n)[i];
        lemma_mod_bound(poseidon4_outputs(domain, key, n)[i] as int, modulus() as int);
        lemma_field_add_sub_cancel(message[i], ks);
    }
}

/// The cipher is length-preserving in both directions.
pub proof fn lemma_cipher_preserves_length(domain: nat, key: nat, values: Seq<nat>)
    ensures
        encrypt_spec(domain, key, values).len() == values.len(),
        decrypt_spec(domain, key, values).len() == values.len(),
{
}

} // verus!
