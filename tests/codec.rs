use payment_codes::codec::{decode_event, encode_event, DecodeError, Event, Identity, IdentityKind};
use payment_codes::reader::{assert_is_empty, bytes_to_address, decode_identity, hello, identity_to_string, parse_full_event_bytes, seed_to_string};

fn sample_event() -> Event {
    Event::MasterPaymentCodeSet {
        key: String::from("ali"),
        address: Identity { kind: IdentityKind::Account, hash: vec![7u8; 32] },
        code: vec![9u8; 32],
    }
}

fn block(b: &[u8]) -> Vec<u8> {
    let mut out = (b.len() as u32).to_le_bytes().to_vec();
    out.extend_from_slice(b);
    out
}

#[test]
fn event_round_trip() {
    let e = sample_event();
    let bytes = encode_event(&e);
    let mut expected = block(b"MasterPaymentCodeSet");
    expected.extend(block(b"ali"));
    expected.push(0);
    expected.extend(vec![7u8; 32]);
    expected.extend(vec![0u8; 31]);
    expected.extend(vec![9u8; 32]);
    assert_eq!(bytes, expected);
    assert_eq!(decode_event(&bytes), Ok(e));
}

#[test]
fn contract_event_round_trip() {
    let e = Event::MasterPaymentCodeSet {
        key: String::from("zażółć"),
        address: Identity { kind: IdentityKind::Contract, hash: (0u8..32).collect() },
        code: (100u8..132).collect(),
    };
    assert_eq!(decode_event(&encode_event(&e)), Ok(e));
}

#[test]
fn extra_byte_is_trailing() {
    let mut bytes = encode_event(&sample_event());
    bytes.push(0);
    assert_eq!(decode_event(&bytes), Err(DecodeError::TrailingBytes));
}

#[test]
fn truncated_code_is_underflow() {
    let mut bytes = encode_event(&sample_event());
    bytes.pop();
    assert_eq!(decode_event(&bytes), Err(DecodeError::Underflow));
    assert_eq!(decode_event(&[1, 0]), Err(DecodeError::Underflow));
    assert_eq!(decode_event(&[]), Err(DecodeError::Underflow));
    assert_eq!(decode_event(&[5, 0, 0, 0, 1]), Err(DecodeError::Underflow));
}

#[test]
fn unknown_tag_is_refused() {
    let mut bytes = block(b"SomethingElse");
    bytes.extend(block(b"ali"));
    assert_eq!(decode_event(&bytes), Err(DecodeError::UnknownEventTag));
}

#[test]
fn invalid_utf8_key_is_unsupported() {
    let mut bytes = block(b"MasterPaymentCodeSet");
    bytes.extend(block(&[0xff, 0xfe]));
    assert_eq!(decode_event(&bytes), Err(DecodeError::UnsupportedValueKind));
}

#[test]
fn unknown_identity_kind_is_refused() {
    let mut bytes = encode_event(&sample_event());
    let at = 4 + 20 + 4 + 3;
    bytes[at] = 2;
    assert_eq!(decode_event(&bytes), Err(DecodeError::UnsupportedValueKind));
}

#[test]
fn account_identity_text() {
    let bytes = hex::decode("4500000040000000003b4ffcfb21411ced5fc1560c3f6ffed86f4885e5ea05cde49d90962a48a14d950000000000000000000000000000000000000000000000000000000000000015").unwrap();
    assert_eq!(
        bytes_to_address(&bytes),
        Ok(String::from("account-hash-3b4ffcfb21411ced5fc1560c3f6ffed86f4885e5ea05cde49d90962a48a14d95"))
    );
}

fn wrapped_identity(tag: u8, hash: &[u8], ty: &[u8]) -> Vec<u8> {
    let mut payload = vec![tag];
    payload.extend_from_slice(hash);
    payload.extend(vec![0u8; 31]);
    let mut value = block(&payload);
    value.extend_from_slice(ty);
    block(&value)
}

#[test]
fn contract_identity_text() {
    let bytes = wrapped_identity(1, &[0xab; 32], &[21]);
    let id = decode_identity(&bytes).unwrap();
    assert_eq!(id, Identity { kind: IdentityKind::Contract, hash: vec![0xab; 32] });
    let text = identity_to_string(&id);
    assert_eq!(text, format!("contract-package-wasm{}", "ab".repeat(32)));
    assert_eq!(bytes_to_address(&bytes), Ok(text));
}

#[test]
fn identity_errors() {
    assert_eq!(bytes_to_address(&wrapped_identity(3, &[1; 32], &[21])), Err(DecodeError::UnsupportedValueKind));
    assert_eq!(bytes_to_address(&wrapped_identity(0, &[1; 32], &[11])), Err(DecodeError::UnsupportedValueKind));
    assert_eq!(bytes_to_address(&wrapped_identity(0, &[1; 32], &[21, 0])), Err(DecodeError::TrailingBytes));
    assert_eq!(bytes_to_address(&wrapped_identity(0, &[1; 32], &[])), Err(DecodeError::Underflow));
    let mut extra = wrapped_identity(0, &[1; 32], &[21]);
    extra.push(0);
    assert_eq!(bytes_to_address(&extra), Err(DecodeError::TrailingBytes));
    assert_eq!(bytes_to_address(&wrapped_identity(0, &[1; 31], &[21])), Err(DecodeError::Underflow));
}

#[test]
fn full_event_record() {
    let e = sample_event();
    let mut bytes = block(&block(&encode_event(&e)));
    bytes.extend_from_slice(&[14, 3]);
    let seed: Vec<u8> = (0u8..32).collect();
    bytes.extend(block(&seed));
    bytes.extend(block(b"item"));
    let rec = parse_full_event_bytes(&bytes).unwrap();
    assert_eq!(rec.seed, seed);
    assert_eq!(rec.event, e);
    assert_eq!(
        seed_to_string(&rec),
        "uref-000102030405060708090a0b0c0d0e0f101112131415161718191a1b1c1d1e1f-007"
    );
    let mut longer = bytes.clone();
    longer.push(1);
    assert_eq!(parse_full_event_bytes(&longer), Err(DecodeError::TrailingBytes));
    let mut wrong_type = bytes.clone();
    let at = bytes.len() - (4 + 32) - (4 + 4) - 2;
    wrong_type[at] = 10;
    assert_eq!(parse_full_event_bytes(&wrong_type), Err(DecodeError::UnsupportedValueKind));
}

#[test]
fn probe_and_empty_check() {
    assert_eq!(hello(), 12);
    assert_eq!(assert_is_empty(&[]), Ok(()));
    assert_eq!(assert_is_empty(&[0]), Err(DecodeError::TrailingBytes));
}
