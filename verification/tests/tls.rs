use rsintercept::tls::{
    alpn_protocols, gathered, load_certs, load_private_key, open_failure, KeyFormat,
};

const CERTS: &str = "-----BEGIN CERTIFICATE-----\nAQID\n-----END CERTIFICATE-----\n\
    -----BEGIN PUBLIC KEY-----\nBAUG\n-----END PUBLIC KEY-----\n\
    -----BEGIN CERTIFICATE-----\nBwgJ\n-----END CERTIFICATE-----\n";

fn key_section(kind: &str) -> String {
    format!("-----BEGIN {}-----\nAQID\n-----END {}-----\n", kind, kind)
}

#[test]
fn certificates_are_read_in_order() {
    assert_eq!(load_certs(CERTS.as_bytes()).unwrap(), vec![vec![1, 2, 3], vec![7, 8, 9]]);
    assert!(load_certs(b"").unwrap().is_empty());
    assert!(load_certs(b"no sections").unwrap().is_empty());
}

#[test]
fn a_section_without_an_end_is_an_error() {
    let error = load_certs(b"-----BEGIN CERTIFICATE-----\nAQID\n").unwrap_err();
    assert_eq!(error.message, "section end \"CERTIFICATE\" missing");
    match load_private_key(b"-----BEGIN CERTIFICATE-----\nAQID\n") {
        Ok(_) => panic!("read"),
        Err(error) => {
            assert_eq!(error.message, "section end \"CERTIFICATE\" missing")
        }
    }
}

#[test]
fn the_first_error_takes_the_place_of_all_certificates() {
    let text = format!(
        "{}-----BEGIN CERT\n{}-----BEGIN CERTIFICATE-----\nAQID\n",
        CERTS, CERTS
    );
    let error = load_certs(text.as_bytes()).unwrap_err();
    assert_eq!(error.message, "illegal section start: \"-----BEGIN CERT\\n\"");
}

#[test]
fn lists_are_gathered_up_to_the_first_error() {
    assert!(gathered(vec![]).unwrap().is_empty());
    assert_eq!(gathered(vec![Ok(vec![1]), Ok(vec![])]).unwrap(), vec![vec![1], vec![]]);
    let error = gathered(vec![
        Ok(vec![1]),
        Err("first".to_string()),
        Ok(vec![2]),
        Err("second".to_string()),
    ])
    .unwrap_err();
    assert_eq!(error.message, "first");
}

#[test]
fn the_first_private_key_is_read() {
    for (kind, format) in [
        ("RSA PRIVATE KEY", KeyFormat::Pkcs1),
        ("EC PRIVATE KEY", KeyFormat::Sec1),
        ("PRIVATE KEY", KeyFormat::Pkcs8),
    ] {
        let text = format!("{}{}", CERTS, key_section(kind));
        match load_private_key(text.as_bytes()) {
            Ok(Some(key)) => {
                assert_eq!(key.format, format);
                assert_eq!(key.der, vec![1, 2, 3]);
            }
            _ => panic!("not read"),
        }
    }
}

#[test]
fn a_file_may_hold_no_private_key() {
    assert!(matches!(load_private_key(CERTS.as_bytes()), Ok(None)));
}

#[test]
fn a_file_that_cannot_be_opened_is_named() {
    assert_eq!(open_failure("cert.pem", "not found"), "failed to open cert.pem: not found");
}

#[test]
fn two_protocols_are_offered() {
    assert_eq!(alpn_protocols(), vec![b"http/1.1".to_vec(), b"http/1.0".to_vec()]);
}
