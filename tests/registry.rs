use payment_codes::encoding::as_u8_slice;
use payment_codes::error::Error;
use payment_codes::registry::{MasterPaymentCode, PersonalPaymentCodeSignallingPost};

fn b(s: &str) -> Vec<u8> {
    s.as_bytes().to_vec()
}

#[test]
fn mailbox_scenario() {
    let mut r = MasterPaymentCode::new();
    assert_eq!(r.open_mailbox(b("code-A")), Ok(()));
    assert_eq!(r.bind_user(String::from("ali"), b("code-A")), Ok(()));
    assert_eq!(r.bind_user(String::from("ali"), b("code-B")), Err(Error::NameAlreadyExists));
    assert_eq!(r.post(&b("code-A"), b("msg1")), Ok(0));
    assert_eq!(r.post(&b("code-A"), b("msg2")), Ok(1));
    assert_eq!(r.list_mailbox(&b("code-A")), Ok(vec![0, 1]));
    let before = r.signal_count();
    assert_eq!(r.post(&b("code-Z"), b("msg3")), Err(Error::PaymentCodeDoesntExist));
    assert_eq!(r.signal_count(), before);
    assert_eq!(r.signal_count(), 2);
    assert_eq!(r.get_signal(1), Some(b("msg2")));
    assert_eq!(r.get_signal(2), None);
}

#[test]
fn register_two_names_then_repeat() {
    let mut r = MasterPaymentCode::new();
    assert_eq!(r.bind_user(String::from("n1"), b("c1")), Ok(()));
    assert_eq!(r.bind_user(String::from("n2"), b("c2")), Ok(()));
    assert_eq!(r.bind_user(String::from("n1"), b("c3")), Err(Error::NameAlreadyExists));
    assert_eq!(r.payment_code_of(&String::from("n1")), Some(b("c1")));
    assert_eq!(r.payment_code_of(&String::from("n2")), Some(b("c2")));
    assert!(!r.has_mailbox(&b("c3")));
    assert_eq!(r.payment_code_of(&String::from("n3")), None);
}

#[test]
fn bind_user_opens_mailbox_once() {
    let mut r = MasterPaymentCode::new();
    assert_eq!(r.bind_user(String::from("a"), b("shared")), Ok(()));
    assert_eq!(r.post(&b("shared"), b("s0")), Ok(0));
    // a second name on the same code keeps the mailbox and its signals
    assert_eq!(r.bind_user(String::from("b"), b("shared")), Ok(()));
    assert_eq!(r.list_mailbox(&b("shared")), Ok(vec![0]));
}

#[test]
fn open_mailbox_twice_is_refused() {
    let mut r = MasterPaymentCode::new();
    assert_eq!(r.open_mailbox(b("c1")), Ok(()));
    assert_eq!(r.open_mailbox(b("c1")), Err(Error::PaymentCodeAlreadyExists));
    assert_eq!(r.list_mailbox(&b("c1")), Ok(vec![]));
}

#[test]
fn posts_take_consecutive_indices() {
    let mut r = MasterPaymentCode::new();
    r.open_mailbox(b("x")).unwrap();
    r.open_mailbox(b("y")).unwrap();
    let order = ["x", "y", "x", "x", "y"];
    for (i, code) in order.iter().enumerate() {
        assert_eq!(r.post(&b(code), vec![i as u8]), Ok(i as u32));
    }
    assert_eq!(r.list_mailbox(&b("x")), Ok(vec![0, 2, 3]));
    assert_eq!(r.list_mailbox(&b("y")), Ok(vec![1, 4]));
    assert_eq!(r.list_mailbox(&b("z")), Err(Error::PaymentCodeDoesntExist));
    assert_eq!(
        r.signalling_post(3),
        Some(PersonalPaymentCodeSignallingPost { signal: vec![3] })
    );
    assert_eq!(r.signalling_post(5), None);
}

#[test]
fn text_api_decodes_base58() {
    let mut r = MasterPaymentCode::new();
    let code = bs58::encode(b"alice-code").into_string();
    assert_eq!(r.set_user(String::from("alice"), code.clone()), Ok(()));
    assert_eq!(r.payment_code_of(&String::from("alice")), Some(b("alice-code")));
    assert_eq!(r.set_pcode(code.clone()), Err(Error::PaymentCodeAlreadyExists));
    let signal = bs58::encode(b"secret").into_string();
    assert_eq!(r.set_signal(code.clone(), signal.clone()), Ok(0));
    assert_eq!(r.set_signal(code.clone(), signal), Ok(1));
    assert_eq!(r.get_signal(0), Some(b("secret")));
    let expected = bs58::encode(vec![0u8, 0, 0, 0, 1, 0, 0, 0]).into_string();
    assert_eq!(r.get_codes(code), Ok(expected));
}

#[test]
fn text_api_errors() {
    let mut r = MasterPaymentCode::new();
    // '0', 'O', 'I' and 'l' are not base58 digits
    assert_eq!(r.set_pcode(String::from("0OIl")), Err(Error::IncorrectPaymentCodeLength));
    assert_eq!(r.set_user(String::from("a"), String::from("0")), Err(Error::IncorrectPaymentCodeLength));
    assert_eq!(r.payment_code_of(&String::from("a")), None);
    let code = bs58::encode(b"box").into_string();
    assert_eq!(r.set_signal(code.clone(), String::from("abc")), Err(Error::PaymentCodeDoesntExist));
    assert_eq!(r.get_codes(code.clone()), Err(Error::PaymentCodeDoesntExist));
    assert_eq!(r.set_pcode(code.clone()), Ok(()));
    assert_eq!(r.set_signal(code.clone(), String::from("l")), Err(Error::IncorrectPaymentSignalLength));
    assert_eq!(r.set_signal(String::from("I"), String::from("abc")), Err(Error::IncorrectPaymentCodeLength));
    assert_eq!(r.get_codes(String::from("O")), Err(Error::IncorrectPaymentCodeLength));
    assert_eq!(r.signal_count(), 0);
    assert_eq!(r.get_codes(code), Ok(String::new()));
    r.set_user(String::from("b"), bs58::encode(b"q").into_string()).unwrap();
    assert_eq!(r.set_user(String::from("b"), String::from("0")), Err(Error::NameAlreadyExists));
}

#[test]
fn error_codes_are_stable() {
    assert_eq!(Error::NameAlreadyExists.code(), 1);
    assert_eq!(Error::PaymentCodeAlreadyExists.code(), 2);
    assert_eq!(Error::PaymentCodeDoesntExist.code(), 3);
    assert_eq!(Error::IncorrectPaymentCodeLength.code(), 4);
    assert_eq!(Error::IncorrectPaymentSignalLength.code(), 5);
    assert_eq!(Error::SignalIndexExhausted.code(), 6);
}

#[test]
fn indices_pack_little_endian() {
    assert_eq!(as_u8_slice(&[1, 0x0403_0201, 0xffff_ffff]), vec![1, 0, 0, 0, 1, 2, 3, 4, 255, 255, 255, 255]);
    assert_eq!(as_u8_slice(&[]), Vec::<u8>::new());
}

#[test]
fn posts_are_announced_until_drained() {
    let mut r = MasterPaymentCode::new();
    r.open_mailbox(b("m")).unwrap();
    assert_eq!(r.drain_events(), vec![]);
    r.post(&b("m"), b("first")).unwrap();
    assert_eq!(r.post(&b("none"), b("lost")), Err(Error::PaymentCodeDoesntExist));
    r.post(&b("m"), b("second")).unwrap();
    assert_eq!(
        r.drain_events(),
        vec![
            PersonalPaymentCodeSignallingPost { signal: b("first") },
            PersonalPaymentCodeSignallingPost { signal: b("second") },
        ]
    );
    assert_eq!(r.drain_events(), vec![]);
    assert_eq!(r.signal_count(), 2);
}
