//! An ECIES-style symmetric stream cipher over a prime field.
//!
//! A message is a sequence of bits. The codec packs the bits, together with a
//! terminator marker, into field elements; the cipher combines packed messages
//! with a Poseidon-derived keystream by field addition, and reverses the
//! combination by field subtraction.

pub mod bits;
pub mod cipher;
pub mod codec;
pub mod ecies;
pub mod field;

pub use codec::MalformedEncoding;
pub use ecies::ECIESPoseidonEncryption;
pub use field::FieldElement;
pub use field::CAPACITY;
