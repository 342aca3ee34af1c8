//! The AEAD primitive: randomized and deterministic (searchable) encryption
//! and the shared decryption routine.
//!
//! Every ciphertext has the layout `nonce || encrypted payload || tag`.
//! For the searchable form the nonce is the truncated HMAC-SHA-256 digest of
//! the plaintext, so equal inputs give equal ciphertexts; for the randomized
//! form the nonce is drawn fresh from the secure random source.

use vstd::prelude::*;
use crate::error::{Error, ErrorKind};
use crate::types::{EncKey, HmacKey, KEY_BYTES, NONCE_SIZE, TAG_SIZE};
use chacha20poly1305::aead::{Aead, NewAead};
use chacha20poly1305::{ChaCha20Poly1305, Key as ChaChaKey, Nonce};
use hmac::{Hmac, Mac, NewMac};
use sha2::Sha256;

verus! {

/// Ciphertext-with-tag that ChaCha20Poly1305 produces for a key, a nonce and
/// a message. The cipher is deterministic, so this is a function of the three
/// arguments alone; its value is not axiomatized here, only the trusted calls
/// below speak of it.
pub uninterp spec fn aead_cipher(key: Seq<u8>, nonce: Seq<u8>, msg: Seq<u8>) -> Seq<u8>;

/// The HMAC-SHA-256 digest of `data` under `key`: a function of the two
/// arguments alone.
pub uninterp spec fn hmac_sha256(key: Seq<u8>, data: Seq<u8>) -> Seq<u8>;

/// `c` is the encryption of `m` under `k`: `nonce || ciphertext || tag`,
/// the nonce being the 12-byte prefix that `c` itself carries.
pub open spec fn is_enc_of(k: Seq<u8>, c: Seq<u8>, m: Seq<u8>) -> bool {
    &&& c.len() == m.len() + (NONCE_SIZE + TAG_SIZE)
    &&& c == c.subrange(0, NONCE_SIZE as int) + aead_cipher(
        k,
        c.subrange(0, NONCE_SIZE as int),
        m,
    )
}

/// Additionally, the nonce is the truncated HMAC of the message under `hk`:
/// the deterministic, searchable form of encryption.
pub open spec fn is_searchable_enc_of(ek: Seq<u8>, hk: Seq<u8>, c: Seq<u8>, m: Seq<u8>) -> bool {
    &&& is_enc_of(ek, c, m)
    &&& c.subrange(0, NONCE_SIZE as int) == hmac_sha256(hk, m).subrange(0, NONCE_SIZE as int)
}

/// Longest input for which encryption is promised to succeed. The cipher
/// itself refuses only inputs beyond its block-count limit, which lies far
/// above this bound.
pub const MAX_ENC_INPUT: usize = 0xFFFF_FFFF;

/// Relies on `ChaCha20Poly1305::encrypt` (chacha20poly1305): the result is the
/// ciphertext, of the message's length, with the 16-byte tag appended; it is a
/// function of key, nonce and message alone; and the call fails only when the
/// message exceeds the cipher's block-count limit, far above `MAX_ENC_INPUT`.
#[verifier::external_body]
fn aead_encrypt(key: &[u8], nonce: &[u8], msg: &[u8]) -> (r: Option<Vec<u8>>)
    requires
        key@.len() == KEY_BYTES,
        nonce@.len() == NONCE_SIZE,
    ensures
        r matches Some(c) ==> c@ == aead_cipher(key@, nonce@, msg@) && c@.len() == msg@.len()
            + TAG_SIZE,
        msg@.len() <= MAX_ENC_INPUT ==> r is Some,
{
    let chacha = ChaCha20Poly1305::new(ChaChaKey::from_slice(key));
    chacha.encrypt(Nonce::from_slice(nonce), msg).ok()
}

/// Relies on `ChaCha20Poly1305::decrypt` (chacha20poly1305): it verifies the
/// 16-byte Poly1305 tag and then inverts the keystream, so it accepts exactly
/// the outputs of `encrypt` for the same key and nonce and returns the message
/// that produced them.
#[verifier::external_body]
fn aead_decrypt(key: &[u8], nonce: &[u8], ct: &[u8]) -> (r: Option<Vec<u8>>)
    requires
        key@.len() == KEY_BYTES,
        nonce@.len() == NONCE_SIZE,
    ensures
        r matches Some(p) ==> ct@ == aead_cipher(key@, nonce@, p@) && p@.len() + TAG_SIZE
            == ct@.len(),
        r matches Some(p) ==> forall|m: Seq<u8>| ct@ == aead_cipher(key@, nonce@, m) ==> p@ == m,
        r is None ==> forall|m: Seq<u8>| ct@ != aead_cipher(key@, nonce@, m),
{
    let chacha = ChaCha20Poly1305::new(ChaChaKey::from_slice(key));
    chacha.decrypt(Nonce::from_slice(nonce), ct).ok()
}

/// Relies on `Hmac::<Sha256>` (hmac, sha2): the digest is 32 bytes and a
/// function of key and input alone; HMAC accepts keys of any length, so
/// `new_from_slice` cannot fail.
#[verifier::external_body]
fn hmac_sha256_digest(key: &[u8], data: &[u8]) -> (r: Vec<u8>)
    ensures
        r@ == hmac_sha256(key@, data@),
        r@.len() == 32,
{
    let mut mac = Hmac::<Sha256>::new_from_slice(key).unwrap();
    mac.update(data);
    mac.finalize().into_bytes().as_slice().to_vec()
}

/// Relies on `getrandom::fill`: fills the buffer from the operating
/// system's secure random source. Nothing holds of the bytes themselves.
#[verifier::external_body]
pub(crate) fn random_key_bytes() -> (r: Vec<u8>)
    ensures
        r@.len() == KEY_BYTES,
{
    let mut buf = vec![0u8; KEY_BYTES];
    getrandom::fill(&mut buf).expect("secure random source unavailable");
    buf
}

/// Relies on `getrandom::fill`: fills the buffer from the operating
/// system's secure random source. Nothing holds of the bytes themselves.
#[verifier::external_body]
fn random_nonce_bytes() -> (r: Vec<u8>)
    ensures
        r@.len() == NONCE_SIZE,
{
    let mut buf = vec![0u8; NONCE_SIZE];
    getrandom::fill(&mut buf).expect("secure random source unavailable");
    buf
}

/// Copy `data[start..end]` into a fresh vector.
fn copy_range(data: &[u8], start: usize, end: usize) -> (r: Vec<u8>)
    requires
        start <= end <= data@.len(),
    ensures
        r@ == data@.subrange(start as int, end as int),
{
    vstd::slice::slice_to_vec(vstd::slice::slice_subrange(data, start, end))
}

/// Encrypt a value with a nonce derived by HMAC from the value itself, making
/// the result searchable: identical keys and input always give an identical
/// result.
pub fn encrypt_searchable(enc_key: &EncKey, hmac_key: &HmacKey, input: &[u8]) -> (r: Result<
    Vec<u8>,
    Error,
>)
    requires
        enc_key.wf(),
        hmac_key.wf(),
    ensures
        r matches Ok(v) ==> is_searchable_enc_of(enc_key@, hmac_key@, v@, input@),
        r matches Ok(v) ==> v@.len() == input@.len() + (NONCE_SIZE + TAG_SIZE),
        input@.len() <= MAX_ENC_INPUT ==> r is Ok,
        r matches Err(e) ==> e.kind == ErrorKind::Encryption,
{
    let digest = hmac_sha256_digest(hmac_key.as_bytes(), input);
    let nonce = copy_range(digest.as_slice(), 0, NONCE_SIZE);
    match aead_encrypt(enc_key.as_bytes(), nonce.as_slice(), input) {
        Some(mut ct) => {
            let mut out = nonce;
            let ghost nonce_view = out@;
            out.append(&mut ct);
            proof {
                assert(out@.subrange(0, NONCE_SIZE as int) =~= nonce_view);
                assert(out@ =~= out@.subrange(0, NONCE_SIZE as int) + aead_cipher(
                    enc_key@,
                    out@.subrange(0, NONCE_SIZE as int),
                    input@,
                ));
            }
            Ok(out)
        },
        None => Err(Error { kind: ErrorKind::Encryption }),
    }
}

/// Encrypt a value with a fresh random nonce. Nothing relates two calls on
/// the same input: the nonce, and with it the whole result, differs.
pub fn encrypt_non_searchable(enc_key: &EncKey, input: &[u8]) -> (r: Result<Vec<u8>, Error>)
    requires
        enc_key.wf(),
    ensures
        r matches Ok(v) ==> is_enc_of(enc_key@, v@, input@),
        r matches Ok(v) ==> v@.len() == input@.len() + (NONCE_SIZE + TAG_SIZE),
        input@.len() <= MAX_ENC_INPUT ==> r is Ok,
        r matches Err(e) ==> e.kind == ErrorKind::Encryption,
{
    let nonce = random_nonce_bytes();
    match aead_encrypt(enc_key.as_bytes(), nonce.as_slice(), input) {
        Some(mut ct) => {
            let mut out = nonce;
            let ghost nonce_view = out@;
            out.append(&mut ct);
            proof {
                assert(out@.subrange(0, NONCE_SIZE as int) =~= nonce_view);
                assert(out@ =~= out@.subrange(0, NONCE_SIZE as int) + aead_cipher(
                    enc_key@,
                    out@.subrange(0, NONCE_SIZE as int),
                    input@,
                ));
            }
            Ok(out)
        },
        None => Err(Error { kind: ErrorKind::Encryption }),
    }
}

/// Decrypt a previously encrypted value with its nonce attached. It succeeds
/// exactly on the ciphertexts that encryption produces under the same key,
/// and then returns the encrypted message; an input shorter than a nonce and
/// a tag is rejected as a length error, anything else that fails as an
/// encryption error.
pub fn decrypt(enc_key: &EncKey, input: &[u8]) -> (r: Result<Vec<u8>, Error>)
    requires
        enc_key.wf(),
    ensures
        r matches Ok(p) ==> is_enc_of(enc_key@, input@, p@),
        forall|m: Seq<u8>| is_enc_of(enc_key@, input@, m) ==> (r matches Ok(p) && p@ == m),
        input@.len() < NONCE_SIZE + TAG_SIZE ==> (r matches Err(e) && e.kind == ErrorKind::Length),
        input@.len() >= NONCE_SIZE + TAG_SIZE ==> (r matches Err(e) ==> e.kind == ErrorKind::Encryption),
{
    if input.len() < NONCE_SIZE + TAG_SIZE {
        return Err(Error { kind: ErrorKind::Length });
    }
    let nonce = copy_range(input, 0, NONCE_SIZE);
    let ct = copy_range(input, NONCE_SIZE, input.len());
    proof {
        assert(input@ =~= nonce@ + ct@);
    }
    match aead_decrypt(enc_key.as_bytes(), nonce.as_slice(), ct.as_slice()) {
        Some(p) => {
            proof {
                assert(input@.subrange(0, NONCE_SIZE as int) =~= nonce@);
                assert(is_enc_of(enc_key@, input@, p@));
                assert forall|m: Seq<u8>| is_enc_of(enc_key@, input@, m) implies p@ == m by {
                    assert(ct@ =~= aead_cipher(enc_key@, nonce@, m));
                }
            }
            Ok(p)
        },
        None => {
            proof {
                assert forall|m: Seq<u8>| !is_enc_of(enc_key@, input@, m) by {
                    if is_enc_of(enc_key@, input@, m) {
                        assert(input@.subrange(0, NONCE_SIZE as int) =~= nonce@);
                        assert(ct@ =~= aead_cipher(enc_key@, nonce@, m));
                    }
                }
            }
            Err(Error { kind: ErrorKind::Encryption })
        },
    }
}

/// Law: a ciphertext never equals the message it encrypts — it is longer by
/// a nonce and a tag.
pub proof fn lemma_ciphertext_differs(k: Seq<u8>, c: Seq<u8>, m: Seq<u8>)
    requires
        is_enc_of(k, c, m),
    ensures
        c != m,
{
    assert(c.len() != m.len());
}

/// Law: searchable encryption is deterministic — two ciphertexts of the same
/// message under the same cipher and MAC keys are equal.
pub proof fn lemma_searchable_deterministic(
    ek: Seq<u8>,
    hk: Seq<u8>,
    m: Seq<u8>,
    c1: Seq<u8>,
    c2: Seq<u8>,
)
    requires
        is_searchable_enc_of(ek, hk, c1, m),
        is_searchable_enc_of(ek, hk, c2, m),
    ensures
        c1 == c2,
{
    assert(c1 =~= c2);
}

} // verus!
