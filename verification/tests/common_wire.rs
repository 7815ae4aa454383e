use tuic::common::hello::{ClientHello, HelloError, ServerHello, MAX_HANDSHAKE_DATA, NONCE_SIZE};
use tuic::common::ipv4::Ipv4Address;

fn nonce() -> Vec<u8> {
    (0u8..16).collect()
}

const TOPSECRET_DIGEST: [u8; 32] = [
    189, 162, 45, 137, 131, 25, 232, 45, 109, 165, 187, 109, 71, 206, 231, 134, 71, 154, 154, 82,
    26, 143, 52, 241, 168, 154, 39, 120, 221, 155, 119, 75,
];

#[test]
fn constants_match_protocol() {
    assert_eq!(NONCE_SIZE, 16);
    assert_eq!(MAX_HANDSHAKE_DATA, 512);
}

#[test]
fn session_secret_is_sha256_of_secret_then_nonce() {
    let hello = ClientHello::from_secret("alice".to_string(), "topsecret", &nonce());
    assert_eq!(hello.user, "alice");
    assert_eq!(hello.session_secret, TOPSECRET_DIGEST.to_vec());
}

#[test]
fn verify_accepts_same_secret_and_nonce() {
    let hello = ClientHello::from_secret("alice".to_string(), "topsecret", &nonce());
    assert!(hello.verify("topsecret", &nonce()));
}

#[test]
fn verify_rejects_other_secret_or_nonce() {
    let hello = ClientHello::from_secret("alice".to_string(), "topsecret", &nonce());
    assert!(!hello.verify("wrong", &nonce()));
    let mut other = nonce();
    other[0] = 99;
    assert!(!hello.verify("topsecret", &other));
}

#[test]
fn client_hello_wire_form() {
    let hello = ClientHello { user: "bob".to_string(), session_secret: vec![1, 2, 3] };
    assert_eq!(hello.into_bytes(), b"bob:\x01\x02\x03".to_vec());
}

#[test]
fn client_hello_roundtrip() {
    let hello = ClientHello::from_secret("alice".to_string(), "topsecret", &nonce());
    let bytes = hello.into_bytes();
    let back = ClientHello::from_vec(bytes).unwrap();
    assert_eq!(back.user, "alice");
    assert_eq!(back.session_secret, TOPSECRET_DIGEST.to_vec());
}

#[test]
fn client_hello_roundtrip_non_ascii_user() {
    let hello = ClientHello { user: "żółw".to_string(), session_secret: vec![b':', 7] };
    let back = ClientHello::from_vec(hello.into_bytes()).unwrap();
    assert_eq!(back.user, "żółw");
    assert_eq!(back.session_secret, vec![b':', 7]);
}

#[test]
fn client_hello_user_with_colon_is_cut_at_first_colon() {
    let hello = ClientHello { user: "a:b".to_string(), session_secret: vec![9] };
    let back = ClientHello::from_vec(hello.into_bytes()).unwrap();
    assert_eq!(back.user, "a");
    assert_eq!(back.session_secret, vec![b'b', b':', 9]);
}

#[test]
fn client_hello_empty_user_and_secret() {
    let back = ClientHello::from_vec(b":".to_vec()).unwrap();
    assert_eq!(back.user, "");
    assert!(back.session_secret.is_empty());
}

#[test]
fn client_hello_invalid_utf8_user() {
    let res = ClientHello::from_vec(vec![0xff, b':', 1, 2]);
    assert!(matches!(
        res,
        Err(HelloError::InvalidUtf8 { valid_up_to: 0, error_len: Some(1) })
    ));
    let res = ClientHello::from_vec(vec![b'a', b'b', 0xe2, 0x28, 0xa1, b':', 1]);
    assert!(matches!(
        res,
        Err(HelloError::InvalidUtf8 { valid_up_to: 2, error_len: Some(1) })
    ));
}

#[test]
fn client_hello_user_ending_inside_a_character() {
    let res = ClientHello::from_vec(vec![b'a', 0xc3, b':', 5]);
    assert!(matches!(
        res,
        Err(HelloError::InvalidUtf8 { valid_up_to: 1, error_len: None })
    ));
}

#[test]
fn server_hello_wire_form() {
    let hello = ServerHello { addr: Ipv4Address::from_octets(10, 0, 0, 2), prefix: 24 };
    assert_eq!(hello.into_bytes(), vec![10, 0, 0, 2, 24]);
}

#[test]
fn server_hello_roundtrip() {
    let hello = ServerHello { addr: Ipv4Address::from_octets(192, 168, 200, 17), prefix: 20 };
    let back = ServerHello::from_bytes(hello.into_bytes());
    assert_eq!(back, hello);
}

#[test]
fn server_hello_ignores_trailing_bytes() {
    let back = ServerHello::from_bytes(vec![1, 2, 3, 4, 5, 6, 7]);
    assert_eq!(back.addr.octets(), [1, 2, 3, 4]);
    assert_eq!(back.prefix, 5);
}

#[test]
fn ipv4_octets_and_value() {
    let a = Ipv4Address::from_octets(192, 168, 1, 7);
    assert_eq!(a.value, 0xC0A8_0107);
    assert_eq!(a.octets(), [192, 168, 1, 7]);
    assert_eq!(Ipv4Address { value: u32::MAX }.octets(), [255, 255, 255, 255]);
    assert_eq!(Ipv4Address::from_octets(0, 0, 0, 0).value, 0);
}
