use ecies_poseidon::ECIESPoseidonEncryption;
use ecies_poseidon::FieldElement;

/// The bits of a byte, least-significant-bit first.
fn byte_bits(byte: u8) -> Vec<bool> {
    (0..8).map(|i| (byte >> i) & 1 == 1).collect()
}

/// The bits of a byte string, least-significant-bit first within each byte.
fn bytes_to_bits(bytes: &[u8]) -> Vec<bool> {
    bytes.iter().flat_map(|&b| byte_bits(b)).collect()
}

fn element_bits(e: &FieldElement) -> Vec<bool> {
    e.to_bits_le()
}

fn elements_bits(v: &[FieldElement]) -> Vec<Vec<bool>> {
    v.iter().map(element_bits).collect()
}

#[test]
fn test_encode() {}

#[test]
fn test_encode_example_byte() {
    let scheme = ECIESPoseidonEncryption::setup("aleo.encryption.test");
    // The byte 0b00000101, little-endian.
    let message = vec![true, false, true, false, false, false, false, false];
    let encoded = scheme.encode_message(&message);
    assert_eq!(encoded.len(), 1);
    // One element packing the message bits with the terminator appended.
    let expected = FieldElement::from_bits_le(&vec![
        true, false, true, false, false, false, false, false, true,
    ]);
    assert_eq!(element_bits(&encoded[0]), element_bits(&expected));
    let decoded = scheme.decode_message(&encoded).unwrap();
    assert_eq!(decoded, message);
}

#[test]
fn test_encode_empty_message() {
    let scheme = ECIESPoseidonEncryption::setup("aleo.encryption.test");
    let message: Vec<bool> = Vec::new();
    let encoded = scheme.encode_message(&message);
    assert_eq!(encoded.len(), 1);
    let decoded = scheme.decode_message(&encoded).unwrap();
    assert!(decoded.is_empty());
}

#[test]
fn test_encode_roundtrip_many_elements() {
    let scheme = ECIESPoseidonEncryption::setup("aleo.encryption.test");
    // 70 bytes: 560 bits, so 561 bits with the terminator, needing 3 elements.
    let bytes: Vec<u8> = (0..70u8).map(|i| i.wrapping_mul(37).wrapping_add(11)).collect();
    let message = bytes_to_bits(&bytes);
    let encoded = scheme.encode_message(&message);
    assert_eq!(encoded.len(), 3);
    let decoded = scheme.decode_message(&encoded).unwrap();
    assert_eq!(decoded, message);
}

#[test]
fn test_decode_empty_sequence_fails() {
    let scheme = ECIESPoseidonEncryption::setup("aleo.encryption.test");
    let encoded: Vec<FieldElement> = Vec::new();
    assert!(scheme.decode_message(&encoded).is_err());
}

#[test]
fn test_decode_all_zero_fails() {
    let scheme = ECIESPoseidonEncryption::setup("aleo.encryption.test");
    // A zero element decodes to all-false bits: no terminator is found.
    let zero = FieldElement::from_bits_le(&vec![false]);
    assert!(scheme.decode_message(&vec![zero]).is_err());
}

#[test]
fn test_decode_misaligned_fails() {
    let scheme = ECIESPoseidonEncryption::setup("aleo.encryption.test");
    // Eight true bits: after stripping the terminator, seven bits remain,
    // which is not a whole number of bytes.
    let element = FieldElement::from_bits_le(&vec![true; 8]);
    assert!(scheme.decode_message(&vec![element]).is_err());
}

#[test]
fn test_encrypt_decrypt_roundtrip() {
    let scheme = ECIESPoseidonEncryption::setup("aleo.encryption.test");
    let key = FieldElement::from_bits_le(&bytes_to_bits(b"a symmetric key"));
    let message_bits = bytes_to_bits(b"attack at dawn!!");
    let message = scheme.encode_message(&message_bits);
    let ciphertext = scheme.encrypt(key.clone(), &message);
    assert_eq!(ciphertext.len(), message.len());
    // The keystream is not the identity: the ciphertext differs.
    assert_ne!(elements_bits(&ciphertext), elements_bits(&message));
    let recovered = scheme.decrypt(key, &ciphertext);
    assert_eq!(recovered.len(), ciphertext.len());
    assert_eq!(elements_bits(&recovered), elements_bits(&message));
    let decoded = scheme.decode_message(&recovered).unwrap();
    assert_eq!(decoded, message_bits);
}

#[test]
fn test_encrypt_deterministic() {
    let scheme = ECIESPoseidonEncryption::setup("aleo.encryption.test");
    let key1 = FieldElement::from_bits_le(&bytes_to_bits(b"one key"));
    let key2 = FieldElement::from_bits_le(&bytes_to_bits(b"one key"));
    let message = scheme.encode_message(&bytes_to_bits(b"same message"));
    let c1 = scheme.encrypt(key1, &message);
    let c2 = scheme.encrypt(key2, &message);
    assert_eq!(elements_bits(&c1), elements_bits(&c2));
}

#[test]
fn test_setup_deterministic() {
    let a = ECIESPoseidonEncryption::setup("aleo.encryption.test");
    let b = ECIESPoseidonEncryption::setup("aleo.encryption.test");
    let (ax, ay) = a.generator();
    let (bx, by) = b.generator();
    assert_eq!(element_bits(&ax), element_bits(&bx));
    assert_eq!(element_bits(&ay), element_bits(&by));
    assert_eq!(
        element_bits(&a.symmetric_key_commitment_domain()),
        element_bits(&b.symmetric_key_commitment_domain()),
    );
    assert_eq!(
        element_bits(&a.symmetric_encryption_domain()),
        element_bits(&b.symmetric_encryption_domain()),
    );
}

#[test]
fn test_setup_messages_differ() {
    let a = ECIESPoseidonEncryption::setup("aleo.encryption.test");
    let b = ECIESPoseidonEncryption::setup("another domain");
    let (ax, _) = a.generator();
    let (bx, _) = b.generator();
    assert_ne!(element_bits(&ax), element_bits(&bx));
}

#[test]
fn test_domain_separators_are_the_reduced_tags() {
    let scheme = ECIESPoseidonEncryption::setup("aleo.encryption.test");
    // Both tags are shorter than the field capacity, so their reductions are
    // exactly their little-endian byte values.
    let kc = FieldElement::from_bits_le(&bytes_to_bits(b"AleoSymmetricKeyCommitment0"));
    let enc = FieldElement::from_bits_le(&bytes_to_bits(b"AleoSymmetricEncryption0"));
    assert_eq!(
        element_bits(&scheme.symmetric_key_commitment_domain()),
        element_bits(&kc),
    );
    assert_eq!(
        element_bits(&scheme.symmetric_encryption_domain()),
        element_bits(&enc),
    );
    // The two domain separators are distinct.
    assert_ne!(element_bits(&kc), element_bits(&enc));
}

#[test]
fn test_encrypt_preserves_length_empty() {
    let scheme = ECIESPoseidonEncryption::setup("aleo.encryption.test");
    let key = FieldElement::from_bits_le(&vec![true]);
    let message: Vec<FieldElement> = Vec::new();
    let ciphertext = scheme.encrypt(key.clone(), &message);
    assert!(ciphertext.is_empty());
    let recovered = scheme.decrypt(key, &ciphertext);
    assert!(recovered.is_empty());
}
