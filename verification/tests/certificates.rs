use tuic::client::quic::{add_server_cert, native_root_store, TrustError};
use tuic::server::quic::{prepare_certificate, CertSource};

fn self_signed() -> Vec<u8> {
    match prepare_certificate(false, false, "localhost".to_string()).unwrap() {
        CertSource::Generated { cert, key } => {
            assert!(!key.is_empty());
            cert
        }
        CertSource::Load => panic!("expected a generated certificate"),
    }
}

#[test]
fn existing_files_are_loaded() {
    assert!(matches!(
        prepare_certificate(true, true, "localhost".to_string()),
        Ok(CertSource::Load)
    ));
}

#[test]
fn a_missing_file_means_generation() {
    for (c, k) in [(true, false), (false, true), (false, false)] {
        match prepare_certificate(c, k, "vpn.example".to_string()).unwrap() {
            CertSource::Generated { cert, key } => {
                assert_eq!(cert[0], 0x30);
                assert_eq!(key[0], 0x30);
            }
            CertSource::Load => panic!("expected a generated certificate"),
        }
    }
}

#[test]
fn no_native_certificates_gives_an_empty_store() {
    let store = native_root_store(false, 3, vec![vec![1, 2, 3]]).unwrap();
    assert!(store.is_empty());
}

#[test]
fn native_certificate_errors_fail() {
    assert!(matches!(
        native_root_store(true, 1, vec![self_signed()]),
        Err(TrustError::NativeCertErrors)
    ));
}

#[test]
fn unreadable_native_certificates_are_skipped() {
    let store = native_root_store(true, 0, vec![vec![0xde, 0xad], self_signed(), vec![]]).unwrap();
    assert_eq!(store.len(), 1);
}

#[test]
fn server_certificate_is_added_or_refused() {
    let mut store = native_root_store(false, 0, vec![]).unwrap();
    assert!(matches!(
        add_server_cert(&mut store, vec![1, 2, 3]),
        Err(TrustError::BadServerCert(_))
    ));
    assert_eq!(store.len(), 0);
    add_server_cert(&mut store, self_signed()).unwrap();
    assert_eq!(store.len(), 1);
}
