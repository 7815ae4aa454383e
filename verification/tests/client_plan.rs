use tuic::client::config::UserConfig;
use tuic::client::route::{cleanup_vpn_routes, setup_vpn_routes};
use tuic::client::tunnel::hello_message;
use tuic::common::hello::ClientHello;

fn words(v: &[&str]) -> Vec<String> {
    v.iter().map(|s| s.to_string()).collect()
}

#[test]
fn setup_routes_commands() {
    let setup = setup_vpn_routes("203.0.113.5", "utun4", "192.168.1.1");
    assert_eq!(
        setup.commands,
        vec![
            words(&["add", "-host", "203.0.113.5", "192.168.1.1"]),
            words(&["add", "-net", "0.0.0.0/1", "-interface", "utun4"]),
            words(&["add", "-net", "128.0.0.0/1", "-interface", "utun4"]),
        ]
    );
}

#[test]
fn cleanup_routes_commands() {
    assert_eq!(
        cleanup_vpn_routes("203.0.113.5", "utun4"),
        vec![
            words(&["delete", "-host", "203.0.113.5"]),
            words(&["delete", "-net", "0.0.0.0/1", "-interface", "utun4"]),
            words(&["delete", "-net", "128.0.0.0/1", "-interface", "utun4"]),
        ]
    );
}

#[test]
fn guard_cleans_up_what_setup_added() {
    let setup = setup_vpn_routes("203.0.113.5", "utun4", "192.168.1.1");
    let cleanup = setup.guard.cleanup_commands();
    assert_eq!(cleanup, cleanup_vpn_routes("203.0.113.5", "utun4"));
    for (added, removed) in setup.commands.iter().zip(cleanup.iter()) {
        assert_eq!(added[0], "add");
        assert_eq!(removed[0], "delete");
        assert_eq!(&added[1..removed.len()], &removed[1..]);
    }
}

#[test]
fn client_hello_message() {
    let user = UserConfig { name: "alice".to_string(), secret: "topsecret".to_string() };
    let nonce = [3u8; 16];
    let expected = ClientHello::from_secret("alice".to_string(), "topsecret", &nonce).into_bytes();
    let bytes = hello_message(&user, &nonce);
    assert_eq!(bytes, expected);
    assert_eq!(&bytes[..6], b"alice:");
    assert_eq!(bytes.len(), 6 + 32);
}
