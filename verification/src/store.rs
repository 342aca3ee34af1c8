//! The store key: seven independent keys and the field-by-field encryption
//! policy for records and tags.

use vstd::prelude::*;
use vstd::utf8::{encode_utf8, valid_utf8};
use vstd::slice::slice_to_vec;
use crate::enc::{
    decrypt, encrypt_non_searchable, encrypt_searchable, is_enc_of, is_searchable_enc_of,
    MAX_ENC_INPUT,
};
use crate::error::{Error, ErrorKind};
use crate::types::{
    EncEntryTag, EncKey, EntryTag, HmacKey, ENC_KEY_SIZE, KEY_BYTES, NONCE_SIZE, TAG_SIZE,
};

verus! {

/// The mathematical content of a store key: its seven key byte strings.
pub ghost struct StoreKeyView {
    pub category_key: Seq<u8>,
    pub name_key: Seq<u8>,
    pub value_key: Seq<u8>,
    pub item_hmac_key: Seq<u8>,
    pub tag_name_key: Seq<u8>,
    pub tag_value_key: Seq<u8>,
    pub tags_hmac_key: Seq<u8>,
}

/// All seven keys hold exactly `KEY_BYTES` bytes.
pub open spec fn bundle_wf(v: StoreKeyView) -> bool {
    &&& v.category_key.len() == KEY_BYTES
    &&& v.name_key.len() == KEY_BYTES
    &&& v.value_key.len() == KEY_BYTES
    &&& v.item_hmac_key.len() == KEY_BYTES
    &&& v.tag_name_key.len() == KEY_BYTES
    &&& v.tag_value_key.len() == KEY_BYTES
    &&& v.tags_hmac_key.len() == KEY_BYTES
}

/// A store key combining the keys required to encrypt and decrypt storage
/// records. Immutable after construction; every operation is a pure function
/// of the record bytes and these keys.
#[derive(Clone, Debug, PartialEq, Eq)]
pub struct StoreKey {
    pub category_key: EncKey,
    pub name_key: EncKey,
    pub value_key: EncKey,
    pub item_hmac_key: HmacKey,
    pub tag_name_key: EncKey,
    pub tag_value_key: EncKey,
    pub tags_hmac_key: HmacKey,
}

impl View for StoreKey {
    type V = StoreKeyView;

    open spec fn view(&self) -> StoreKeyView {
        StoreKeyView {
            category_key: self.category_key@,
            name_key: self.name_key@,
            value_key: self.value_key@,
            item_hmac_key: self.item_hmac_key@,
            tag_name_key: self.tag_name_key@,
            tag_value_key: self.tag_value_key@,
            tags_hmac_key: self.tags_hmac_key@,
        }
    }
}

/// `e` is the encrypted form of the tag `t`: the name deterministically
/// encrypted under the tag-name key, the value either raw UTF-8 (plaintext
/// variant) or deterministically encrypted under the tag-value key.
pub open spec fn tag_cipher_ok(k: StoreKeyView, t: EntryTag, e: EncEntryTag) -> bool {
    match t {
        EntryTag::Plaintext(n, v) => {
            &&& e.plaintext == true
            &&& is_searchable_enc_of(k.tag_name_key, k.tags_hmac_key, e.name@, encode_utf8(n@))
            &&& e.value@ == encode_utf8(v@)
        },
        EntryTag::Encrypted(n, v) => {
            &&& e.plaintext == false
            &&& is_searchable_enc_of(k.tag_name_key, k.tags_hmac_key, e.name@, encode_utf8(n@))
            &&& is_searchable_enc_of(k.tag_value_key, k.tags_hmac_key, e.value@, encode_utf8(v@))
        },
    }
}

/// `t` is a decryption of `e`: same as `tag_cipher_ok` except that nothing
/// ties the nonces of `e` to the HMAC keys — decryption cannot see how a
/// nonce was made.
pub open spec fn tag_plain_ok(k: StoreKeyView, e: EncEntryTag, t: EntryTag) -> bool {
    match t {
        EntryTag::Plaintext(n, v) => {
            &&& e.plaintext == true
            &&& is_enc_of(k.tag_name_key, e.name@, encode_utf8(n@))
            &&& e.value@ == encode_utf8(v@)
        },
        EntryTag::Encrypted(n, v) => {
            &&& e.plaintext == false
            &&& is_enc_of(k.tag_name_key, e.name@, encode_utf8(n@))
            &&& is_enc_of(k.tag_value_key, e.value@, encode_utf8(v@))
        },
    }
}

/// Both text fields of the tag are short enough for encryption to be owed.
pub open spec fn tag_fits(t: EntryTag) -> bool {
    match t {
        EntryTag::Plaintext(n, _v) => encode_utf8(n@).len() <= MAX_ENC_INPUT,
        EntryTag::Encrypted(n, v) => encode_utf8(n@).len() <= MAX_ENC_INPUT && encode_utf8(v@).len()
            <= MAX_ENC_INPUT,
    }
}

/// `c` is an enveloped encryption of `m`: its first `ENC_KEY_SIZE` bytes wrap
/// some fresh value key `vk` under `value_key`, and the remainder encrypts
/// `m` under `vk`.
pub open spec fn is_wrapped_value_of(value_key: Seq<u8>, c: Seq<u8>, m: Seq<u8>) -> bool {
    exists|vk: Seq<u8>|
        {
            &&& #[trigger] is_enc_of(value_key, c.subrange(0, ENC_KEY_SIZE as int), vk)
            &&& is_enc_of(vk, c.subrange(ENC_KEY_SIZE as int, c.len() as int), m)
            &&& vk.len() == KEY_BYTES
        }
}

/// Some tag encrypts to exactly `e`.
pub open spec fn some_genuine_tag(k: StoreKeyView, e: EncEntryTag) -> bool {
    exists|t: EntryTag| tag_cipher_ok(k, t, e)
}

/// Every encrypted tag in the list is a genuine encryption of some tag.
pub open spec fn all_tags_genuine(k: StoreKeyView, ets: Seq<EncEntryTag>) -> bool {
    forall|i: int| 0 <= i < ets.len() ==> some_genuine_tag(k, #[trigger] ets[i])
}

/// Two tags carry the same variant and the same text.
pub open spec fn tag_views_match(a: EntryTag, b: EntryTag) -> bool {
    match (a, b) {
        (EntryTag::Plaintext(n1, v1), EntryTag::Plaintext(n2, v2)) => n1@ == n2@ && v1@ == v2@,
        (EntryTag::Encrypted(n1, v1), EntryTag::Encrypted(n2, v2)) => n1@ == n2@ && v1@ == v2@,
        _ => false,
    }
}

impl StoreKey {
    /// All seven keys are well formed.
    pub open spec fn wf(&self) -> bool {
        bundle_wf(self@)
    }

    /// Generate a fresh store key: seven keys drawn independently from the
    /// secure random source.
    pub fn new() -> (r: Result<StoreKey, Error>)
        ensures
            r matches Ok(k) && k.wf(),
    {
        Ok(
            StoreKey {
                category_key: EncKey::random(),
                name_key: EncKey::random(),
                value_key: EncKey::random(),
                item_hmac_key: EncKey::random(),
                tag_name_key: EncKey::random(),
                tag_value_key: EncKey::random(),
                tags_hmac_key: EncKey::random(),
            },
        )
    }

    /// Encrypt a record category: deterministic, searchable.
    pub fn encrypt_category(&self, category: &[u8]) -> (r: Result<Vec<u8>, Error>)
        requires
            self.wf(),
        ensures
            r matches Ok(v) ==> is_searchable_enc_of(
                self@.category_key,
                self@.item_hmac_key,
                v@,
                category@,
            ) && v@.len() == category@.len() + (NONCE_SIZE + TAG_SIZE),
            category@.len() <= MAX_ENC_INPUT ==> r is Ok,
            r matches Err(e) ==> e.kind == ErrorKind::Encryption,
    {
        encrypt_searchable(&self.category_key, &self.item_hmac_key, category)
    }

    /// Encrypt a record name: deterministic, searchable.
    pub fn encrypt_name(&self, name: &[u8]) -> (r: Result<Vec<u8>, Error>)
        requires
            self.wf(),
        ensures
            r matches Ok(v) ==> is_searchable_enc_of(
                self@.name_key,
                self@.item_hmac_key,
                v@,
                name@,
            ) && v@.len() == name@.len() + (NONCE_SIZE + TAG_SIZE),
            name@.len() <= MAX_ENC_INPUT ==> r is Ok,
            r matches Err(e) ==> e.kind == ErrorKind::Encryption,
    {
        encrypt_searchable(&self.name_key, &self.item_hmac_key, name)
    }

    /// Encrypt a tag name: deterministic, searchable.
    pub fn encrypt_tag_name(&self, name: &[u8]) -> (r: Result<Vec<u8>, Error>)
        requires
            self.wf(),
        ensures
            r matches Ok(v) ==> is_searchable_enc_of(
                self@.tag_name_key,
                self@.tags_hmac_key,
                v@,
                name@,
            ) && v@.len() == name@.len() + (NONCE_SIZE + TAG_SIZE),
            name@.len() <= MAX_ENC_INPUT ==> r is Ok,
            r matches Err(e) ==> e.kind == ErrorKind::Encryption,
    {
        encrypt_searchable(&self.tag_name_key, &self.tags_hmac_key, name)
    }

    /// Encrypt a tag value: deterministic, searchable.
    pub fn encrypt_tag_value(&self, value: &[u8]) -> (r: Result<Vec<u8>, Error>)
        requires
            self.wf(),
        ensures
            r matches Ok(v) ==> is_searchable_enc_of(
                self@.tag_value_key,
                self@.tags_hmac_key,
                v@,
                value@,
            ) && v@.len() == value@.len() + (NONCE_SIZE + TAG_SIZE),
            value@.len() <= MAX_ENC_INPUT ==> r is Ok,
            r matches Err(e) ==> e.kind == ErrorKind::Encryption,
    {
        encrypt_searchable(&self.tag_value_key, &self.tags_hmac_key, value)
    }

    /// Decrypt a record category.
    pub fn decrypt_category(&self, enc_category: &[u8]) -> (r: Result<Vec<u8>, Error>)
        requires
            self.wf(),
        ensures
            r matches Ok(p) ==> is_enc_of(self@.category_key, enc_category@, p@),
            forall|m: Seq<u8>|
                is_enc_of(self@.category_key, enc_category@, m) ==> (r matches Ok(p) && p@ == m),
            enc_category@.len() < NONCE_SIZE + TAG_SIZE ==> (r matches Err(e) && e.kind == ErrorKind::Length),
            enc_category@.len() >= NONCE_SIZE + TAG_SIZE ==> (r matches Err(e) ==> e.kind == ErrorKind::Encryption),
    {
        decrypt(&self.category_key, enc_category)
    }

    /// Decrypt a record name.
    pub fn decrypt_name(&self, enc_name: &[u8]) -> (r: Result<Vec<u8>, Error>)
        requires
            self.wf(),
        ensures
            r matches Ok(p) ==> is_enc_of(self@.name_key, enc_name@, p@),
            forall|m: Seq<u8>|
                is_enc_of(self@.name_key, enc_name@, m) ==> (r matches Ok(p) && p@ == m),
            enc_name@.len() < NONCE_SIZE + TAG_SIZE ==> (r matches Err(e) && e.kind == ErrorKind::Length),
            enc_name@.len() >= NONCE_SIZE + TAG_SIZE ==> (r matches Err(e) ==> e.kind == ErrorKind::Encryption),
    {
        decrypt(&self.name_key, enc_name)
    }

    /// Decrypt a tag name.
    pub fn decrypt_tag_name(&self, enc_tag_name: &[u8]) -> (r: Result<Vec<u8>, Error>)
        requires
            self.wf(),
        ensures
            r matches Ok(p) ==> is_enc_of(self@.tag_name_key, enc_tag_name@, p@),
            forall|m: Seq<u8>|
                is_enc_of(self@.tag_name_key, enc_tag_name@, m) ==> (r matches Ok(p) && p@ == m),
            enc_tag_name@.len() < NONCE_SIZE + TAG_SIZE ==> (r matches Err(e) && e.kind == ErrorKind::Length),
            enc_tag_name@.len() >= NONCE_SIZE + TAG_SIZE ==> (r matches Err(e) ==> e.kind == ErrorKind::Encryption),
    {
        decrypt(&self.tag_name_key, enc_tag_name)
    }

    /// Decrypt a tag value.
    pub fn decrypt_tag_value(&self, enc_tag_value: &[u8]) -> (r: Result<Vec<u8>, Error>)
        requires
            self.wf(),
        ensures
            r matches Ok(p) ==> is_enc_of(self@.tag_value_key, enc_tag_value@, p@),
            forall|m: Seq<u8>|
                is_enc_of(self@.tag_value_key, enc_tag_value@, m) ==> (r matches Ok(p) && p@ == m),
            enc_tag_value@.len() < NONCE_SIZE + TAG_SIZE ==> (r matches Err(e) && e.kind == ErrorKind::Length),
            enc_tag_value@.len() >= NONCE_SIZE + TAG_SIZE ==> (r matches Err(e) ==> e.kind == ErrorKind::Encryption),
    {
        decrypt(&self.tag_value_key, enc_tag_value)
    }

    /// Encrypt a record value: a fresh random value key encrypts the value,
    /// and the bundle's value key wraps the fresh key. The result is the
    /// wrapped key followed by the wrapped value.
    pub fn encrypt_value(&self, value: &[u8]) -> (r: Result<Vec<u8>, Error>)
        requires
            self.wf(),
        ensures
            r matches Ok(v) ==> v@.len() == ENC_KEY_SIZE + value@.len() + (NONCE_SIZE + TAG_SIZE),
            r matches Ok(v) ==> is_wrapped_value_of(self@.value_key, v@, value@),
            value@.len() <= MAX_ENC_INPUT ==> r is Ok,
            r matches Err(e) ==> e.kind == ErrorKind::Encryption,
    {
        let value_key = EncKey::random();
        let mut wrapped_value = match encrypt_non_searchable(&value_key, value) {
            Ok(v) => v,
            Err(e) => { return Err(e) },
        };
        let mut result = match encrypt_non_searchable(&self.value_key, value_key.as_bytes()) {
            Ok(v) => v,
            Err(e) => { return Err(e) },
        };
        let ghost wrapped_key_view = result@;
        let ghost wrapped_value_view = wrapped_value@;
        result.append(&mut wrapped_value);
        proof {
            assert(result@.subrange(0, ENC_KEY_SIZE as int) =~= wrapped_key_view);
            assert(result@.subrange(ENC_KEY_SIZE as int, result@.len() as int)
                =~= wrapped_value_view);
            assert(is_enc_of(
                self@.value_key,
                result@.subrange(0, ENC_KEY_SIZE as int),
                value_key@,
            ));
            assert(is_enc_of(
                value_key@,
                result@.subrange(ENC_KEY_SIZE as int, result@.len() as int),
                value@,
            ));
            assert(is_wrapped_value_of(self@.value_key, result@, value@));
        }
        Ok(result)
    }

    /// Decrypt a record value: split off the wrapped key, unwrap it under the
    /// bundle's value key, then decrypt the remainder under the recovered key.
    pub fn decrypt_value(&self, enc_value: &[u8]) -> (r: Result<Vec<u8>, Error>)
        requires
            self.wf(),
        ensures
            enc_value@.len() < ENC_KEY_SIZE + TAG_SIZE ==> (r matches Err(e) && e.kind == ErrorKind::Length),
            r matches Ok(p) ==> is_wrapped_value_of(self@.value_key, enc_value@, p@),
            forall|vk: Seq<u8>, m: Seq<u8>|
                enc_value@.len() >= ENC_KEY_SIZE + TAG_SIZE && #[trigger] is_enc_of(
                    self@.value_key,
                    enc_value@.subrange(0, ENC_KEY_SIZE as int),
                    vk,
                ) && #[trigger] is_enc_of(
                    vk,
                    enc_value@.subrange(ENC_KEY_SIZE as int, enc_value@.len() as int),
                    m,
                ) ==> (r matches Ok(p) && p@ == m),
            r matches Err(e) ==> e.kind == ErrorKind::Length || e.kind == ErrorKind::Encryption,
    {
        if enc_value.len() < ENC_KEY_SIZE + TAG_SIZE {
            return Err(Error { kind: ErrorKind::Length });
        }
        let key_part = vstd::slice::slice_subrange(enc_value, 0, ENC_KEY_SIZE);
        let value_part = vstd::slice::slice_subrange(enc_value, ENC_KEY_SIZE, enc_value.len());
        let key_bytes = match decrypt(&self.value_key, key_part) {
            Ok(b) => b,
            Err(e) => { return Err(e) },
        };
        let value_key = EncKey::from_slice(key_bytes.as_slice());
        match decrypt(&value_key, value_part) {
            Ok(p) => {
                proof {
                    assert(is_enc_of(self@.value_key, enc_value@.subrange(0, ENC_KEY_SIZE as int),
                        key_bytes@));
                    assert(is_enc_of(key_bytes@, enc_value@.subrange(ENC_KEY_SIZE as int,
                        enc_value@.len() as int), p@));
                    assert(is_wrapped_value_of(self@.value_key, enc_value@, p@));
                }
                Ok(p)
            },
            Err(e) => {
                proof {
                    assert forall|vk: Seq<u8>, m: Seq<u8>|
                        !(is_enc_of(self@.value_key, enc_value@.subrange(0, ENC_KEY_SIZE as int), vk)
                            && is_enc_of(vk, enc_value@.subrange(ENC_KEY_SIZE as int,
                                enc_value@.len() as int), m)) by {
                        if is_enc_of(self@.value_key, enc_value@.subrange(0, ENC_KEY_SIZE as int),
                            vk) && is_enc_of(vk, enc_value@.subrange(ENC_KEY_SIZE as int,
                            enc_value@.len() as int), m) {
                            assert(vk == key_bytes@);
                        }
                    }
                }
                Err(e)
            },
        }
    }

    /// Encrypt a record category given as text.
    pub fn encrypt_entry_category(&self, category: &str) -> (r: Result<Vec<u8>, Error>)
        requires
            self.wf(),
        ensures
            r matches Ok(v) ==> is_searchable_enc_of(
                self@.category_key,
                self@.item_hmac_key,
                v@,
                encode_utf8(category@),
            ) && v@.len() == encode_utf8(category@).len() + (NONCE_SIZE + TAG_SIZE),
            encode_utf8(category@).len() <= MAX_ENC_INPUT ==> r is Ok,
            r matches Err(e) ==> e.kind == ErrorKind::Encryption,
    {
        self.encrypt_category(category.as_bytes())
    }

    /// Encrypt a record name given as text.
    pub fn encrypt_entry_name(&self, name: &str) -> (r: Result<Vec<u8>, Error>)
        requires
            self.wf(),
        ensures
            r matches Ok(v) ==> is_searchable_enc_of(
                self@.name_key,
                self@.item_hmac_key,
                v@,
                encode_utf8(name@),
            ) && v@.len() == encode_utf8(name@).len() + (NONCE_SIZE + TAG_SIZE),
            encode_utf8(name@).len() <= MAX_ENC_INPUT ==> r is Ok,
            r matches Err(e) ==> e.kind == ErrorKind::Encryption,
    {
        self.encrypt_name(name.as_bytes())
    }

    /// Encrypt a record value (enveloped, not searchable).
    pub fn encrypt_entry_value(&self, value: &[u8]) -> (r: Result<Vec<u8>, Error>)
        requires
            self.wf(),
        ensures
            r matches Ok(v) ==> v@.len() == ENC_KEY_SIZE + value@.len() + (NONCE_SIZE + TAG_SIZE),
            r matches Ok(v) ==> is_wrapped_value_of(self@.value_key, v@, value@),
            value@.len() <= MAX_ENC_INPUT ==> r is Ok,
            r matches Err(e) ==> e.kind == ErrorKind::Encryption,
    {
        self.encrypt_value(value)
    }

    /// Decrypt a record category back to text.
    pub fn decrypt_entry_category(&self, enc_category: &[u8]) -> (r: Result<String, Error>)
        requires
            self.wf(),
        ensures
            r matches Ok(s) ==> is_enc_of(self@.category_key, enc_category@, encode_utf8(s@)),
            forall|c: Seq<char>|
                is_enc_of(self@.category_key, enc_category@, #[trigger] encode_utf8(c)) ==> (
                r matches Ok(s) && s@ == c),
            enc_category@.len() < NONCE_SIZE + TAG_SIZE ==> (r matches Err(e) && e.kind
                == ErrorKind::Length),
            r matches Err(e) ==> e.kind == ErrorKind::Length || e.kind == ErrorKind::Encryption,
    {
        let bytes = match self.decrypt_category(enc_category) {
            Ok(b) => b,
            Err(e) => { return Err(e) },
        };
        decode_utf8(bytes)
    }

    /// Decrypt a record name back to text.
    pub fn decrypt_entry_name(&self, enc_name: &[u8]) -> (r: Result<String, Error>)
        requires
            self.wf(),
        ensures
            r matches Ok(s) ==> is_enc_of(self@.name_key, enc_name@, encode_utf8(s@)),
            forall|c: Seq<char>|
                is_enc_of(self@.name_key, enc_name@, #[trigger] encode_utf8(c)) ==> (
                r matches Ok(s) && s@ == c),
            enc_name@.len() < NONCE_SIZE + TAG_SIZE ==> (r matches Err(e) && e.kind
                == ErrorKind::Length),
            r matches Err(e) ==> e.kind == ErrorKind::Length || e.kind == ErrorKind::Encryption,
    {
        let bytes = match self.decrypt_name(enc_name) {
            Ok(b) => b,
            Err(e) => { return Err(e) },
        };
        decode_utf8(bytes)
    }

    /// Decrypt a record value.
    pub fn decrypt_entry_value(&self, enc_value: &[u8]) -> (r: Result<Vec<u8>, Error>)
        requires
            self.wf(),
        ensures
            enc_value@.len() < ENC_KEY_SIZE + TAG_SIZE ==> (r matches Err(e) && e.kind
                == ErrorKind::Length),
            r matches Ok(p) ==> is_wrapped_value_of(self@.value_key, enc_value@, p@),
            forall|vk: Seq<u8>, m: Seq<u8>|
                enc_value@.len() >= ENC_KEY_SIZE + TAG_SIZE && #[trigger] is_enc_of(
                    self@.value_key,
                    enc_value@.subrange(0, ENC_KEY_SIZE as int),
                    vk,
                ) && #[trigger] is_enc_of(
                    vk,
                    enc_value@.subrange(ENC_KEY_SIZE as int, enc_value@.len() as int),
                    m,
                ) ==> (r matches Ok(p) && p@ == m),
            r matches Err(e) ==> e.kind == ErrorKind::Length || e.kind == ErrorKind::Encryption,
    {
        self.decrypt_value(enc_value)
    }

    /// Encrypt a list of tags: names always deterministically encrypted,
    /// values raw for the plaintext variant, deterministically encrypted for
    /// the encrypted variant.
    pub fn encrypt_entry_tags(&self, tags: &[EntryTag]) -> (r: Result<Vec<EncEntryTag>, Error>)
        requires
            self.wf(),
        ensures
            r matches Ok(ets) ==> ets@.len() == tags@.len() && forall|i: int|
                0 <= i < tags@.len() ==> tag_cipher_ok(self@, tags@[i], #[trigger] ets@[i]),
            (forall|i: int| 0 <= i < tags@.len() ==> #[trigger] tag_fits(tags@[i])) ==> r is Ok,
            r matches Err(e) ==> e.kind == ErrorKind::Encryption,
    {
        let mut out: Vec<EncEntryTag> = Vec::new();
        let mut idx: usize = 0;
        while idx < tags.len()
            invariant
                self.wf(),
                idx <= tags@.len(),
                out@.len() == idx,
                forall|i: int|
                    0 <= i < idx ==> tag_cipher_ok(self@, tags@[i], #[trigger] out@[i]),
            decreases tags@.len() - idx,
        {
            let tag = vstd::slice::slice_index_get(tags, idx);
            match tag {
                EntryTag::Plaintext(name, value) => {
                    let enc_name = match self.encrypt_tag_name(name.as_str().as_bytes()) {
                        Ok(v) => v,
                        Err(e) => {
                            proof {
                                assert(!tag_fits(tags@[idx as int]));
                            }
                            return Err(e);
                        },
                    };
                    out.push(
                        EncEntryTag {
                            name: enc_name,
                            value: slice_to_vec(value.as_str().as_bytes()),
                            plaintext: true,
                        },
                    );
                },
                EntryTag::Encrypted(name, value) => {
                    let enc_name = match self.encrypt_tag_name(name.as_str().as_bytes()) {
                        Ok(v) => v,
                        Err(e) => {
                            proof {
                                assert(!tag_fits(tags@[idx as int]));
                            }
                            return Err(e);
                        },
                    };
                    let enc_value = match self.encrypt_tag_value(value.as_str().as_bytes()) {
                        Ok(v) => v,
                        Err(e) => {
                            proof {
                                assert(!tag_fits(tags@[idx as int]));
                            }
                            return Err(e);
                        },
                    };
                    out.push(
                        EncEntryTag { name: enc_name, value: enc_value, plaintext: false },
                    );
                },
            }
            idx = idx + 1;
        }
        Ok(out)
    }

    /// Decrypt a list of tags. Any tag whose bytes are a genuine encryption
    /// decrypts back to exactly the text it was made from.
    pub fn decrypt_entry_tags(&self, enc_tags: &[EncEntryTag]) -> (r: Result<Vec<EntryTag>, Error>)
        requires
            self.wf(),
        ensures
            r matches Ok(ts) ==> ts@.len() == enc_tags@.len() && forall|i: int|
                0 <= i < enc_tags@.len() ==> tag_plain_ok(self@, enc_tags@[i], #[trigger] ts@[i]),
            r matches Ok(ts) ==> (forall|i: int, t: EntryTag|
                0 <= i < enc_tags@.len() && #[trigger] tag_cipher_ok(self@, t, enc_tags@[i])
                    ==> tag_views_match(ts@[i], t)),
            all_tags_genuine(self@, enc_tags@) ==> r is Ok,
            r matches Err(e) ==> e.kind == ErrorKind::Length || e.kind == ErrorKind::Encryption,
    {
        let mut out: Vec<EntryTag> = Vec::new();
        let mut idx: usize = 0;
        while idx < enc_tags.len()
            invariant
                self.wf(),
                idx <= enc_tags@.len(),
                out@.len() == idx,
                forall|i: int|
                    0 <= i < idx ==> tag_plain_ok(self@, enc_tags@[i], #[trigger] out@[i]),
                forall|i: int, t: EntryTag|
                    0 <= i < idx && #[trigger] tag_cipher_ok(self@, t, enc_tags@[i])
                        ==> tag_views_match(out@[i], t),
            decreases enc_tags@.len() - idx,
        {
            let et = vstd::slice::slice_index_get(enc_tags, idx);
            let name_bytes = match self.decrypt_tag_name(et.name.as_slice()) {
                Ok(b) => b,
                Err(e) => {
                    proof {
                        // If some tag encrypted to this element, the failed call's own
                        // contract would have forced it to succeed.
                        if exists|t: EntryTag| tag_cipher_ok(self@, t, enc_tags@[idx as int]) {
                            let t = choose|t: EntryTag|
                                tag_cipher_ok(self@, t, enc_tags@[idx as int]);
                            assert(false);
                        }
                        assert(!some_genuine_tag(self@, enc_tags@[idx as int]));
                    }
                    return Err(e);
                },
            };
            let name = match decode_utf8(name_bytes) {
                Ok(s) => s,
                Err(e) => {
                    proof {
                        // If some tag encrypted to this element, the failed call's own
                        // contract would have forced it to succeed.
                        if exists|t: EntryTag| tag_cipher_ok(self@, t, enc_tags@[idx as int]) {
                            let t = choose|t: EntryTag|
                                tag_cipher_ok(self@, t, enc_tags@[idx as int]);
                            assert(false);
                        }
                        assert(!some_genuine_tag(self@, enc_tags@[idx as int]));
                    }
                    return Err(e);
                },
            };
            if et.plaintext {
                let value = match decode_utf8(slice_to_vec(et.value.as_slice())) {
                    Ok(s) => s,
                    Err(e) => {
                        proof {
                            // If some tag encrypted to this element, the failed call's own
                            // contract would have forced it to succeed.
                            if exists|t: EntryTag| tag_cipher_ok(self@, t, enc_tags@[idx as int]) {
                                let t = choose|t: EntryTag|
                                    tag_cipher_ok(self@, t, enc_tags@[idx as int]);
                                assert(false);
                            }
                            assert(!some_genuine_tag(self@, enc_tags@[idx as int]));
                        }
                        return Err(e);
                    },
                };
                out.push(EntryTag::Plaintext(name, value));
            } else {
                let value_bytes = match self.decrypt_tag_value(et.value.as_slice()) {
                    Ok(b) => b,
                    Err(e) => {
                        proof {
                            // If some tag encrypted to this element, the failed call's own
                            // contract would have forced it to succeed.
                            if exists|t: EntryTag| tag_cipher_ok(self@, t, enc_tags@[idx as int]) {
                                let t = choose|t: EntryTag|
                                    tag_cipher_ok(self@, t, enc_tags@[idx as int]);
                                assert(false);
                            }
                            assert(!some_genuine_tag(self@, enc_tags@[idx as int]));
                        }
                        return Err(e);
                    },
                };
                let value = match decode_utf8(value_bytes) {
                    Ok(s) => s,
                    Err(e) => {
                        proof {
                            // If some tag encrypted to this element, the failed call's own
                            // contract would have forced it to succeed.
                            if exists|t: EntryTag| tag_cipher_ok(self@, t, enc_tags@[idx as int]) {
                                let t = choose|t: EntryTag|
                                    tag_cipher_ok(self@, t, enc_tags@[idx as int]);
                                assert(false);
                            }
                            assert(!some_genuine_tag(self@, enc_tags@[idx as int]));
                        }
                        return Err(e);
                    },
                };
                out.push(EntryTag::Encrypted(name, value));
            }
            proof {
                assert forall|t: EntryTag| #[trigger] tag_cipher_ok(
                    self@,
                    t,
                    enc_tags@[idx as int],
                ) implies tag_views_match(out@[idx as int], t) by {}
            }
            idx = idx + 1;
        }
        Ok(out)
    }
}

/// Relies on `String::from_utf8` (std): it succeeds exactly on valid UTF-8
/// input — of which ASCII is a subset — and returns the string whose
/// encoding is that input.
#[verifier::external_body]
pub(crate) fn string_from_utf8(value: Vec<u8>) -> (r: Option<String>)
    ensures
        r matches Some(s) ==> encode_utf8(s@) == value@,
        r is None ==> !valid_utf8(value@),
        (forall|i: int| 0 <= i < value@.len() ==> value@[i] < 128) ==> r is Some,
{
    String::from_utf8(value).ok()
}

/// Decode bytes that are expected to hold UTF-8 text. A failure is surfaced
/// as the same class as an authentication failure: both mean a corrupted or
/// foreign-key record.
pub fn decode_utf8(value: Vec<u8>) -> (r: Result<String, Error>)
    ensures
        r matches Ok(s) ==> encode_utf8(s@) == value@,
        forall|c: Seq<char>| value@ == #[trigger] encode_utf8(c) ==> (r matches Ok(s) && s@ == c),
        r matches Err(e) ==> e.kind == ErrorKind::Encryption,
{
    let ghost v = value@;
    match string_from_utf8(value) {
        Some(s) => {
            proof {
                assert forall|c: Seq<char>| v == #[trigger] encode_utf8(c) implies s@ == c by {
                    vstd::utf8::encode_utf8_decode_utf8(c);
                    vstd::utf8::encode_utf8_decode_utf8(s@);
                }
            }
            Ok(s)
        },
        None => {
            proof {
                assert forall|c: Seq<char>| v != #[trigger] encode_utf8(c) by {
                    if v == encode_utf8(c) {
                        vstd::utf8::encode_utf8_valid_utf8(c);
                    }
                }
            }
            Err(Error { kind: ErrorKind::Encryption })
        },
    }
}

} // verus!
