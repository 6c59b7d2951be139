use hdfs_connection::error::{HdfsError, IoErrorKind};
use hdfs_connection::tls::{
    certificate, host, load_certs, load_private_key, private_key, server_name, tls_server_name,
    PemItem, PrivateKey, PrivateKeyError,
};

fn section(label: &str, body: &str) -> String {
    format!("-----BEGIN {label}-----\n{body}\n-----END {label}-----\n")
}

#[test]
fn the_certificates_of_a_file_come_in_order() {
    let pem = section("CERTIFICATE", "AQID") + &section("X509 CRL", "CQ==") + "a comment\n"
        + &section("CERTIFICATE", "BAUGBw==");
    assert_eq!(load_certs(pem.as_bytes()).unwrap(), vec![vec![1, 2, 3], vec![4, 5, 6, 7]]);
}

#[test]
fn a_file_without_sections_has_no_certificates() {
    assert!(load_certs(b"").unwrap().is_empty());
    assert!(load_certs(b"nothing here").unwrap().is_empty());
}

#[test]
fn a_malformed_section_fails_the_certificates() {
    for pem in [
        section("CERTIFICATE", "AQID") + "-----BEGIN CERTIFICATE-----\nAQID\n",
        section("CERTIFICATE", "AQ!D"),
        "-----BEGIN CERTIFICATE---\n".to_string(),
    ] {
        assert!(matches!(
            load_certs(pem.as_bytes()),
            Err(HdfsError::IOError(IoErrorKind::Other))
        ));
    }
}

#[test]
fn the_first_private_key_is_taken() {
    let certificate = section("CERTIFICATE", "AQID");
    let pkcs1 = section("RSA PRIVATE KEY", "Cw==");
    let pkcs8 = section("PRIVATE KEY", "DA==");
    let sec1 = section("EC PRIVATE KEY", "DQ==");
    let first = certificate.clone() + &pkcs1 + &pkcs8 + &sec1;
    assert!(matches!(load_private_key(first.as_bytes()), Ok(PrivateKey::Pkcs1(k)) if k == [11]));
    let second = certificate.clone() + &pkcs8 + &pkcs1;
    assert!(matches!(load_private_key(second.as_bytes()), Ok(PrivateKey::Pkcs8(k)) if k == [12]));
    let third = certificate + &sec1 + "-----BEGIN";
    assert!(matches!(load_private_key(third.as_bytes()), Ok(PrivateKey::Sec1(k)) if k == [13]));
}

#[test]
fn what_follows_the_private_key_is_not_looked_at() {
    let pem = section("PRIVATE KEY", "DA==") + "-----BEGIN CERTIFICATE-----\n";
    assert!(load_private_key(pem.as_bytes()).is_ok());
    assert!(load_certs(pem.as_bytes()).is_err());
}

#[test]
fn a_file_without_a_private_key() {
    let encrypted = section("CERTIFICATE", "AQID") + &section("ENCRYPTED PRIVATE KEY", "DA==");
    for pem in [String::new(), encrypted, section("PUBLIC KEY", "AQID")] {
        assert!(matches!(
            load_private_key(pem.as_bytes()),
            Err(PrivateKeyError::Missing)
        ));
        assert!(load_certs(pem.as_bytes()).is_ok());
    }
}

#[test]
fn a_malformed_section_before_the_private_key() {
    let pem = section("CERTIFICATE", "AQ!D") + &section("PRIVATE KEY", "DA==");
    assert!(matches!(
        load_private_key(pem.as_bytes()),
        Err(PrivateKeyError::Malformed)
    ));
}

#[test]
fn which_sections_are_private_keys() {
    let key = private_key(PemItem::Pkcs1Key(vec![1]));
    assert!(matches!(key, Some(PrivateKey::Pkcs1(k)) if k == [1]));
    let key = private_key(PemItem::Pkcs8Key(vec![2]));
    assert!(matches!(key, Some(PrivateKey::Pkcs8(k)) if k == [2]));
    let key = private_key(PemItem::Sec1Key(vec![3]));
    assert!(matches!(key, Some(PrivateKey::Sec1(k)) if k == [3]));
    assert!(private_key(PemItem::Certificate(vec![4])).is_none());
    assert!(private_key(PemItem::Other).is_none());
}

#[test]
fn the_server_name_of_an_address_is_that_of_its_host() {
    for (addr, name) in [
        ("namenode.example.com:8020", "namenode.example.com"),
        ("10.0.0.1:8020", "10.0.0.1"),
        ("[0:0:0:0:0:0:0:1]:8020", "::1"),
        ("namenode.example.com", "namenode.example.com"),
        ("10.0.0.1", "10.0.0.1"),
    ] {
        assert_eq!(server_name(addr).unwrap(), name);
        assert_eq!(tls_server_name(true, addr).unwrap(), name);
    }
}

#[test]
fn a_host_that_is_no_server_name() {
    for addr in ["", ":8020", "a b:8020", "a b", "-:1", "[]:8020", "name:8020:1"] {
        assert!(matches!(server_name(addr), Err(HdfsError::TLSDNSInvalidError)));
        assert!(matches!(tls_server_name(true, addr), Err(HdfsError::TLSDNSInvalidError)));
    }
}

#[test]
fn a_refused_configuration_comes_first() {
    for addr in ["namenode.example.com:8020", "a b"] {
        assert!(matches!(tls_server_name(false, addr), Err(HdfsError::TLSClientConfigError)));
    }
}

#[test]
fn the_host_of_an_address() {
    for (addr, expected) in [
        ("namenode:8020", "namenode"),
        ("namenode", "namenode"),
        ("[::1]:8020", "::1"),
        ("::1:8020", "::1"),
        ("[x", "[x"),
        ("[:1", "["),
        ("n\u{e4}me:1", "n\u{e4}me"),
        (":", ""),
        ("", ""),
    ] {
        assert_eq!(host(addr), expected);
    }
}

#[test]
fn which_sections_are_certificates() {
    assert_eq!(certificate(PemItem::Certificate(vec![4])), Some(vec![4]));
    assert_eq!(certificate(PemItem::Pkcs8Key(vec![2])), None);
    assert_eq!(certificate(PemItem::Other), None);
}
