use lu_packets::common::{utf16_units, LuStr33, LuWStr33};
use lu_packets::login::{ClientMessage, LoginResponse};

#[test]
fn invalid_username_password_bytes() {
    let b = LoginResponse::InvalidUsernamePassword.to_bytes();
    assert_eq!(b.len(), 500);
    assert_eq!(b[0], 6);
    assert!(b[1..496].iter().all(|x| *x == 0));
    assert_eq!(&b[496..], &[4, 0, 0, 0]);
}

#[test]
fn custom_message_bytes() {
    let b = LoginResponse::CustomMessage("hi".to_string()).to_bytes();
    assert_eq!(b.len(), 1 + 493 + 2 + 4 + 4);
    assert_eq!(b[0], 5);
    assert_eq!(&b[494..496], &[2, 0]);
    assert_eq!(&b[496..500], &[0x68, 0, 0x69, 0]);
    assert_eq!(&b[500..], &[4, 0, 0, 0]);
}

#[test]
fn custom_message_outside_basic_plane() {
    let b = LoginResponse::CustomMessage("\u{1F600}".to_string()).to_bytes();
    assert_eq!(&b[494..496], &[2, 0]);
    assert_eq!(&b[496..500], &[0x3d, 0xd8, 0x00, 0xde]);
    assert_eq!(utf16_units("\u{e9}a"), vec![0xe9, 0x61]);
}

#[test]
fn success_bytes() {
    let key = LuWStr33::from_str("key").unwrap();
    let addr = LuStr33::new(b"127.0.0.1").unwrap();
    let b = LoginResponse::Success { session_key: key, redirect_address: (addr, 2002) }.to_bytes();
    assert_eq!(b.len(), 1 + 264 + 6 + 66 + 33 + 33 + 2 + 91 + 4);
    assert_eq!(b[0], 1);
    assert_eq!(&b[265..271], &[1, 0, 10, 0, 64, 0]);
    assert_eq!(&b[271..277], &[b'k', 0, b'e', 0, b'y', 0]);
    assert!(b[277..337].iter().all(|x| *x == 0));
    assert_eq!(&b[337..346], b"127.0.0.1");
    assert!(b[346..403].iter().all(|x| *x == 0));
    assert_eq!(&b[403..405], &[0xd2, 0x07]);
    assert_eq!(&b[496..], &[4, 0, 0, 0]);
}

#[test]
fn client_message_header() {
    let m = ClientMessage::from(LoginResponse::InvalidUsernamePassword);
    let b = m.to_bytes();
    assert_eq!(b.len(), 505);
    assert_eq!(&b[0..6], &[0, 0, 0, 0, 0, 6]);
}

#[test]
fn fixed_strings_reject_long_text() {
    assert!(LuStr33::new(&[b'a'; 34]).is_none());
    assert!(LuStr33::new(&[b'a'; 33]).is_some());
    assert!(LuWStr33::from_units(&vec![1u16; 34]).is_none());
    assert!(LuWStr33::from_str(&"x".repeat(33)).is_some());
}
