use storekey::enc::{decrypt, encrypt_non_searchable, encrypt_searchable};
use storekey::error::ErrorKind;
use storekey::store::{decode_utf8, StoreKey};
use storekey::types::{EncKey, EncEntryTag, Entry, EntryTag, ENC_KEY_SIZE, NONCE_SIZE, TAG_SIZE};

#[test]
fn store_key_round_trip() {
    let key = StoreKey::new().unwrap();
    let test_record = Entry {
        category: "category".to_string(),
        name: "name".to_string(),
        value: b"value".to_vec(),
        tags: Some(vec![
            EntryTag::Plaintext("plain".to_string(), "tag".to_string()),
            EntryTag::Encrypted("enctag".to_string(), "envtagval".to_string()),
        ]),
    };
    let enc_category = key.encrypt_entry_category(&test_record.category).unwrap();
    let enc_name = key.encrypt_entry_name(&test_record.name).unwrap();
    let enc_value = key.encrypt_entry_value(&test_record.value).unwrap();
    let enc_tags = key
        .encrypt_entry_tags(test_record.tags.as_ref().unwrap())
        .unwrap();
    assert_ne!(enc_category.as_slice(), test_record.category.as_bytes());
    assert_ne!(enc_name.as_slice(), test_record.name.as_bytes());
    assert_ne!(enc_value.as_slice(), test_record.value.as_slice());

    let cmp_record = Entry {
        category: key.decrypt_entry_category(&enc_category).unwrap(),
        name: key.decrypt_entry_name(&enc_name).unwrap(),
        value: key.decrypt_entry_value(&enc_value).unwrap(),
        tags: Some(key.decrypt_entry_tags(&enc_tags).unwrap()),
    };
    assert_eq!(test_record, cmp_record);
}

#[test]
fn store_key_non_searchable() {
    let input = b"hello";
    let key = EncKey::random();
    let enc = encrypt_non_searchable(&key, input).unwrap();
    assert_eq!(enc.len(), input.len() + NONCE_SIZE + TAG_SIZE);
    let dec = decrypt(&key, enc.as_slice()).unwrap();
    assert_eq!(dec.as_slice(), input);
}

#[test]
fn store_key_searchable() {
    let input = b"hello";
    let key = EncKey::random();
    let hmac_key = EncKey::random();
    let enc = encrypt_searchable(&key, &hmac_key, input).unwrap();
    assert_eq!(enc.len(), input.len() + NONCE_SIZE + TAG_SIZE);
    let dec = decrypt(&key, enc.as_slice()).unwrap();
    assert_eq!(dec.as_slice(), input);
}

#[test]
fn store_key_serde() {
    let key = StoreKey::new().unwrap();
    let key_json = key.to_string().unwrap();
    let key_cmp = StoreKey::from_slice(key_json.as_bytes()).unwrap();
    assert_eq!(key, key_cmp);
}

#[test]
fn searchable_is_deterministic() {
    let key = EncKey::random();
    let hmac_key = EncKey::random();
    let enc1 = encrypt_searchable(&key, &hmac_key, b"same input").unwrap();
    let enc2 = encrypt_searchable(&key, &hmac_key, b"same input").unwrap();
    assert_eq!(enc1, enc2);
    let enc3 = encrypt_searchable(&key, &hmac_key, b"other input").unwrap();
    assert_ne!(enc1, enc3);
}

#[test]
fn searchable_nonce_is_derived() {
    // If the HMAC step handed its input back unchanged, the nonce prefix
    // would repeat the first bytes of the plaintext.
    let key = EncKey::random();
    let hmac_key = EncKey::random();
    let input = [7u8; 32];
    let enc = encrypt_searchable(&key, &hmac_key, &input).unwrap();
    assert_ne!(&enc[..NONCE_SIZE], &input[..NONCE_SIZE]);
}

#[test]
fn non_searchable_is_randomized() {
    let key = EncKey::random();
    let enc1 = encrypt_non_searchable(&key, b"same input").unwrap();
    let enc2 = encrypt_non_searchable(&key, b"same input").unwrap();
    assert_ne!(enc1, enc2);
}

#[test]
fn wrapped_value_length() {
    let key = StoreKey::new().unwrap();
    let value = b"some stored value";
    let enc = key.encrypt_value(value).unwrap();
    assert_eq!(enc.len(), ENC_KEY_SIZE + value.len() + NONCE_SIZE + TAG_SIZE);
    let dec = key.decrypt_value(&enc).unwrap();
    assert_eq!(dec.as_slice(), value);
}

#[test]
fn truncated_input_gives_length_error() {
    let key = EncKey::random();
    let short = vec![0u8; NONCE_SIZE + TAG_SIZE - 1];
    let err = decrypt(&key, &short).unwrap_err();
    assert_eq!(err.kind, ErrorKind::Length);

    let bundle = StoreKey::new().unwrap();
    let short_value = vec![0u8; ENC_KEY_SIZE + TAG_SIZE - 1];
    let err = bundle.decrypt_value(&short_value).unwrap_err();
    assert_eq!(err.kind, ErrorKind::Length);
}

#[test]
fn wrong_key_gives_encryption_error() {
    let key = EncKey::random();
    let other = EncKey::random();
    let enc = encrypt_non_searchable(&key, b"secret").unwrap();
    let err = decrypt(&other, enc.as_slice()).unwrap_err();
    assert_eq!(err.kind, ErrorKind::Encryption);
}

#[test]
fn tampered_input_gives_encryption_error() {
    let key = EncKey::random();
    let mut enc = encrypt_non_searchable(&key, b"secret").unwrap();
    let last = enc.len() - 1;
    enc[last] ^= 1;
    let err = decrypt(&key, enc.as_slice()).unwrap_err();
    assert_eq!(err.kind, ErrorKind::Encryption);
}

#[test]
fn invalid_utf8_gives_encryption_error() {
    let err = decode_utf8(vec![0xff, 0xfe, 0xfd]).unwrap_err();
    assert_eq!(err.kind, ErrorKind::Encryption);
    assert_eq!(decode_utf8(b"plain text".to_vec()).unwrap(), "plain text");
}

#[test]
fn bundle_text_exact_form() {
    let zero_key = || EncKey::from_slice(&[0u8; 32]);
    let key = StoreKey {
        category_key: zero_key(),
        name_key: zero_key(),
        value_key: zero_key(),
        item_hmac_key: zero_key(),
        tag_name_key: zero_key(),
        tag_value_key: zero_key(),
        tags_hmac_key: zero_key(),
    };
    let z = "0".repeat(64);
    let expected = format!(
        "{{\"category_key\":\"{z}\",\"name_key\":\"{z}\",\"value_key\":\"{z}\",\
         \"item_hmac_key\":\"{z}\",\"tag_name_key\":\"{z}\",\"tag_value_key\":\"{z}\",\
         \"tags_hmac_key\":\"{z}\"}}"
    );
    assert_eq!(key.to_string().unwrap(), expected);
    let parsed = StoreKey::from_slice(expected.as_bytes()).unwrap();
    assert_eq!(parsed, key);
}

#[test]
fn malformed_bundle_text_gives_format_error() {
    let err = StoreKey::from_slice(b"not a bundle").unwrap_err();
    assert_eq!(err.kind, ErrorKind::Format);

    let key = StoreKey::new().unwrap();
    let text = key.to_string().unwrap();
    // Corrupt one hexadecimal digit into a non-hexadecimal byte.
    let mut bytes = text.into_bytes();
    bytes[20] = b'z';
    let err = StoreKey::from_slice(&bytes).unwrap_err();
    assert_eq!(err.kind, ErrorKind::Format);

    // Truncated text is refused by length alone.
    let err = StoreKey::from_slice(&bytes[..bytes.len() - 1]).unwrap_err();
    assert_eq!(err.kind, ErrorKind::Format);
}

#[test]
fn tag_decryption_rejects_foreign_bytes() {
    let key = StoreKey::new().unwrap();
    let bad = vec![EncEntryTag {
        name: vec![1, 2, 3],
        value: b"x".to_vec(),
        plaintext: true,
    }];
    let err = key.decrypt_entry_tags(&bad).unwrap_err();
    assert_eq!(err.kind, ErrorKind::Length);

    let mut tags = key
        .encrypt_entry_tags(&[EntryTag::Encrypted("n".to_string(), "v".to_string())])
        .unwrap();
    tags[0].value[0] ^= 1;
    let err = key.decrypt_entry_tags(&tags).unwrap_err();
    assert_eq!(err.kind, ErrorKind::Encryption);
}

#[test]
fn empty_input_round_trip() {
    let key = EncKey::random();
    let enc = encrypt_non_searchable(&key, b"").unwrap();
    assert_eq!(enc.len(), NONCE_SIZE + TAG_SIZE);
    let dec = decrypt(&key, enc.as_slice()).unwrap();
    assert!(dec.is_empty());

    let bundle = StoreKey::new().unwrap();
    let enc = bundle.encrypt_entry_category("").unwrap();
    assert_eq!(bundle.decrypt_entry_category(&enc).unwrap(), "");
}
