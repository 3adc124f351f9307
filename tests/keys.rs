use payment_codes::keys::{composite_address, string_dictionary_item_key, string_to_key_bytes, to_dictionary_item_key, u32_dictionary_item_key};

#[test]
fn string_key_is_deterministic() {
    let k = String::from("ali");
    let a = string_dictionary_item_key(&k);
    let b = string_dictionary_item_key(&k.clone());
    assert_eq!(a, b);
    assert_eq!(a, "b54aed90d4f37beef344122710039abba1814d306ed1426cbe81485332730537");
    assert_eq!(a.len(), 64);
}

#[test]
fn distinct_keys_differ() {
    let a = string_dictionary_item_key(&String::from("ali"));
    let b = string_dictionary_item_key(&String::from("bob"));
    let c = u32_dictionary_item_key(7);
    assert_ne!(a, b);
    assert_ne!(a, c);
}

#[test]
fn empty_string_and_zero_share_canonical_bytes() {
    // both serialise to four zero bytes
    assert_eq!(string_to_key_bytes(&String::new()), vec![0, 0, 0, 0]);
    let expected = "11da6d1f761ddf9bdb4c9d6e5303ebd41f61858d0a5647a1a7bfe089bf921be9";
    assert_eq!(string_dictionary_item_key(&String::new()), expected);
    assert_eq!(u32_dictionary_item_key(0), expected);
    assert_eq!(to_dictionary_item_key(&vec![0, 0, 0, 0]), expected);
}

#[test]
fn string_key_bytes_are_length_prefixed() {
    assert_eq!(string_to_key_bytes(&String::from("ab")), vec![2, 0, 0, 0, 97, 98]);
}

#[test]
fn u32_key_value() {
    assert_eq!(u32_dictionary_item_key(7), "5b8f29db76cf4e676e4fc9b17040312debedafcd5637fb3c7badd2cddce6a445");
}

#[test]
fn composite_address_value() {
    let seed = String::from("uref-000102030405060708090a0b0c0d0e0f101112131415161718191a1b1c1d1e1f-007");
    assert_eq!(
        composite_address(&seed, 7),
        Some(String::from("dictionary-e40bdc77daea4779f42a2c8d8d99c6e55ac741428e761d87c2d3779c2dd01f66"))
    );
    assert_eq!(composite_address(&String::from("hash-00"), 7), None);
}
