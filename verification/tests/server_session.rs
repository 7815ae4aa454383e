use tuic::common::hello::{ClientHello, ServerHello};
use tuic::common::ipv4::Ipv4Address;
use tuic::server::backoff::{
    BackoffDecision, ErrorBackoff, ERROR_BACKOFF_BASE_MS, MAX_CONSECUTIVE_ERRORS,
};
use tuic::server::config::{QuicConfig, TunConfig, VpnConfig};
use tuic::server::handshake::{answer_client_hello, HandshakeError};
use tuic::server::route::{destination_of, nat_ruleset, source_match, src_dst_ipv4};
use tuic::server::users::UserTable;

fn users() -> UserTable {
    let mut t = UserTable::new();
    t.insert("alice".to_string(), "wonderland".to_string());
    t.insert("bob".to_string(), "builder".to_string());
    t
}

fn nonce() -> Vec<u8> {
    vec![7u8; 16]
}

fn ipv4_packet(src: [u8; 4], dst: [u8; 4]) -> Vec<u8> {
    let mut p = vec![0x45, 0, 0, 20, 0, 0, 0, 0, 64, 253, 0, 0];
    p.extend_from_slice(&src);
    p.extend_from_slice(&dst);
    p
}

#[test]
fn user_table_lookup_and_replace() {
    let mut t = users();
    assert_eq!(t.get(&"alice".to_string()), Some(&"wonderland".to_string()));
    assert_eq!(t.get(&"carol".to_string()), None);
    t.insert("alice".to_string(), "looking-glass".to_string());
    assert_eq!(t.get(&"alice".to_string()), Some(&"looking-glass".to_string()));
    assert_eq!(t.get(&"bob".to_string()), Some(&"builder".to_string()));
}

#[test]
fn config_auth() {
    let config = VpnConfig {
        tun: TunConfig {
            name: None,
            subnet: "10.0.0.0/24".to_string(),
            mtu: 1150,
            setup_nat: false,
        },
        quic: QuicConfig {
            server_name: "vpn.example".to_string(),
            endpoint_address: "0.0.0.0:443".parse().unwrap(),
            receive_buffer_size_kb: 10240,
            send_buffer_size_kb: 10240,
            server_cert: "cert.der".to_string(),
            server_key: "key.der".to_string(),
        },
        users: users(),
    };
    assert!(config.auth("alice", "wonderland".to_string()));
    assert!(!config.auth("alice", "builder".to_string()));
    assert!(!config.auth("carol", "wonderland".to_string()));
}

#[test]
fn handshake_accepts_shared_secret() {
    let hello = ClientHello::from_secret("alice".to_string(), "wonderland", &nonce()).into_bytes();
    let ip = Ipv4Address::from_octets(10, 0, 0, 2);
    let accepted = answer_client_hello(&users(), &nonce(), hello, ip, 24).unwrap();
    assert_eq!(accepted.user, "alice");
    assert_eq!(accepted.reply, vec![10, 0, 0, 2, 24]);
    let reply = ServerHello::from_bytes(accepted.reply);
    assert_eq!(reply, ServerHello { addr: ip, prefix: 24 });
}

#[test]
fn handshake_refuses_unknown_user() {
    let hello = ClientHello::from_secret("mallory".to_string(), "x", &nonce()).into_bytes();
    let res = answer_client_hello(&users(), &nonce(), hello, Ipv4Address { value: 1 }, 24);
    assert!(matches!(res, Err(HandshakeError::UnknownClient)));
}

#[test]
fn handshake_refuses_wrong_secret_and_stale_nonce() {
    let hello = ClientHello::from_secret("bob".to_string(), "wonderland", &nonce()).into_bytes();
    let res = answer_client_hello(&users(), &nonce(), hello, Ipv4Address { value: 1 }, 24);
    match res {
        Err(HandshakeError::AuthenticationFailed { user }) => assert_eq!(user, "bob"),
        _ => panic!("expected an authentication failure"),
    }
    let hello = ClientHello::from_secret("bob".to_string(), "builder", &[1u8; 16]).into_bytes();
    let res = answer_client_hello(&users(), &nonce(), hello, Ipv4Address { value: 1 }, 24);
    assert!(matches!(res, Err(HandshakeError::AuthenticationFailed { .. })));
}

#[test]
fn handshake_refuses_invalid_utf8_name() {
    let res = answer_client_hello(&users(), &nonce(), vec![0xc3, b':', 0], Ipv4Address { value: 1 }, 24);
    assert!(matches!(
        res,
        Err(HandshakeError::InvalidUtf8 { valid_up_to: 0, error_len: None })
    ));
}

#[test]
fn handshake_refuses_replayed_hello_with_colon_in_name() {
    let mut t = users();
    t.insert("a".to_string(), "x".to_string());
    t.insert("a:b".to_string(), "y".to_string());
    let old_nonce = vec![1u8; 16];
    let hello = ClientHello::from_secret("a:b".to_string(), "y", &old_nonce).into_bytes();
    let res = answer_client_hello(&t, &nonce(), hello, Ipv4Address { value: 1 }, 24);
    match res {
        Err(HandshakeError::AuthenticationFailed { user }) => assert_eq!(user, "a"),
        _ => panic!("expected an authentication failure"),
    }
}

#[test]
fn backoff_schedule() {
    assert_eq!(MAX_CONSECUTIVE_ERRORS, 5);
    assert_eq!(ERROR_BACKOFF_BASE_MS, 100);
    let mut b = ErrorBackoff::new();
    for k in 1..=5u64 {
        assert_eq!(b.record_failure(), BackoffDecision::RetryAfterMs(100 * k));
    }
    assert_eq!(b.record_failure(), BackoffDecision::GiveUp);
    assert_eq!(b.record_failure(), BackoffDecision::GiveUp);
}

#[test]
fn user_pairs_list_each_user_once() {
    let mut t = users();
    t.insert("alice".to_string(), "again".to_string());
    let mut pairs = t.pairs();
    pairs.sort();
    assert_eq!(
        pairs,
        vec![
            ("alice".to_string(), "again".to_string()),
            ("bob".to_string(), "builder".to_string()),
        ]
    );
}

#[test]
fn backoff_success_resets() {
    let mut b = ErrorBackoff::new();
    b.record_failure();
    b.record_failure();
    b.record_success();
    assert_eq!(b.consecutive_errors, 0);
    assert_eq!(b.record_failure(), BackoffDecision::RetryAfterMs(100));
}

#[test]
fn ipv4_packet_addresses() {
    let p = ipv4_packet([10, 0, 0, 2], [1, 1, 1, 1]);
    let (src, dst) = src_dst_ipv4(&p).unwrap();
    assert_eq!(src, Ipv4Address::from_octets(10, 0, 0, 2));
    assert_eq!(dst, Ipv4Address::from_octets(1, 1, 1, 1));
    assert_eq!(destination_of(&p), Some(Ipv4Address::from_octets(1, 1, 1, 1)));
}

#[test]
fn non_ipv4_packets_have_no_addresses() {
    assert_eq!(src_dst_ipv4(&[]), None);
    assert_eq!(src_dst_ipv4(&[0x45, 0, 0]), None);
    let mut v6 = vec![0x60, 0, 0, 0, 0, 0, 59, 64];
    v6.extend_from_slice(&[0u8; 32]);
    assert_eq!(src_dst_ipv4(&v6), None);
    assert_eq!(destination_of(&v6), None);
}

#[test]
fn packets_of_other_versions_have_no_addresses() {
    let mut p = ipv4_packet([10, 0, 0, 2], [1, 1, 1, 1]);
    p[0] = 0x55;
    assert_eq!(src_dst_ipv4(&p), None);
    p[0] = 0x65;
    assert_eq!(src_dst_ipv4(&p), None);
}

#[test]
fn source_must_be_the_session_address() {
    let me = Ipv4Address::from_octets(10, 0, 0, 2);
    assert!(source_match(me, &ipv4_packet([10, 0, 0, 2], [8, 8, 8, 8])));
    assert!(!source_match(me, &ipv4_packet([10, 0, 0, 3], [8, 8, 8, 8])));
    assert!(!source_match(me, &[1, 2, 3]));
}

#[test]
fn nat_rules_text() {
    let rules = nat_ruleset("10.0.0.0/24", "eth0");
    let expected = "\ntable ip vpn_nat\nflush table ip vpn_nat\n\ntable ip vpn_nat {\n    chain postrouting {\n        type nat hook postrouting priority 100;\n        ip saddr 10.0.0.0/24 oifname \"eth0\" masquerade\n    }\n}\n";
    assert_eq!(rules, expected);
}
