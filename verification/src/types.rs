//! Keys, records and tags handled by the store key.

use vstd::prelude::*;
use vstd::slice::slice_to_vec;

verus! {

/// Bytes in a cipher or MAC key (256-bit keys).
pub const KEY_BYTES: usize = 32;

/// Bytes in an AEAD nonce (ChaCha20Poly1305).
pub const NONCE_SIZE: usize = 12;

/// Bytes in an AEAD authentication tag (Poly1305).
pub const TAG_SIZE: usize = 16;

/// Length of a wrapped per-value key: nonce, key bytes and tag.
pub const ENC_KEY_SIZE: usize = NONCE_SIZE + KEY_BYTES + TAG_SIZE;

/// A fixed-length symmetric key. The only invariant is its length;
/// the bytes themselves are whatever the random source produced.
#[derive(Clone, Debug, PartialEq, Eq)]
pub struct EncKey {
    bytes: Vec<u8>,
}

/// MAC keys have the same shape as cipher keys.
pub type HmacKey = EncKey;

impl View for EncKey {
    type V = Seq<u8>;

    closed spec fn view(&self) -> Seq<u8> {
        self.bytes@
    }
}

impl EncKey {
    /// A key is well formed when it holds exactly `KEY_BYTES` bytes.
    pub open spec fn wf(&self) -> bool {
        self@.len() == KEY_BYTES
    }

    /// Build a key from exactly `KEY_BYTES` bytes.
    pub fn from_slice(data: &[u8]) -> (r: EncKey)
        requires
            data@.len() == KEY_BYTES,
        ensures
            r@ == data@,
            r.wf(),
    {
        EncKey { bytes: slice_to_vec(data) }
    }

    /// Borrow the key bytes.
    pub fn as_bytes(&self) -> (r: &[u8])
        ensures
            r@ == self@,
    {
        self.bytes.as_slice()
    }

    /// Draw a fresh key from the secure random source.
    pub fn random() -> (r: EncKey)
        ensures
            r.wf(),
    {
        EncKey { bytes: crate::enc::random_key_bytes() }
    }
}

/// A plaintext record tag. The name is always kept confidential; the value
/// is stored as cleartext for the `Plaintext` variant and encrypted for the
/// `Encrypted` variant.
#[derive(Clone, Debug, PartialEq, Eq)]
pub enum EntryTag {
    Plaintext(String, String),
    Encrypted(String, String),
}

/// An encrypted tag as exchanged with the storage layer: encrypted name
/// bytes, value bytes (raw or encrypted), and the variant discriminator.
#[derive(Clone, Debug, PartialEq, Eq)]
pub struct EncEntryTag {
    pub name: Vec<u8>,
    pub value: Vec<u8>,
    pub plaintext: bool,
}

/// A plaintext storage record.
#[derive(Clone, Debug, PartialEq, Eq)]
pub struct Entry {
    pub category: String,
    pub name: String,
    pub value: Vec<u8>,
    pub tags: Option<Vec<EntryTag>>,
}

} // verus!
