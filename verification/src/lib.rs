//! Envelope and searchable symmetric encryption for stored records.
//!
//! A [`store::StoreKey`] bundles seven independent 256-bit keys and offers,
//! on top of a single AEAD cipher (ChaCha20Poly1305) and HMAC-SHA-256:
//!
//! * deterministic, searchable encryption of record categories, names and
//!   tags, with the nonce derived from the plaintext by HMAC;
//! * randomized encryption of record values under a fresh per-value key,
//!   itself wrapped under the bundle's value key (envelope encryption);
//! * a lossless, field-tagged textual serialization of the bundle.
//!
//! Contracts are stated over byte sequences: a ciphertext is always
//! `nonce || encrypted payload || tag`, and decryption accepts exactly the
//! ciphertexts that encryption produces.

pub mod enc;
pub mod error;
pub mod serial;
pub mod store;
pub mod types;
