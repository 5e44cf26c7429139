use rustls::pki_types::ServerName;
use dog::tls::{tls_client, tls_server_name, TlsSetupError};

#[test]
fn server_name_accepts_dns_name() {
    assert!(tls_server_name("dns.example.com").is_ok());
}

#[test]
fn server_name_accepts_ip_address() {
    assert!(tls_server_name("1.1.1.1").is_ok());
    assert!(tls_server_name("2606:4700:4700::1111").is_ok());
}

#[test]
fn server_name_refuses_invalid_text() {
    assert!(matches!(tls_server_name(""), Err(TlsSetupError::InvalidName(_))));
    assert!(matches!(tls_server_name("bad name!"), Err(TlsSetupError::InvalidName(_))));
}

#[test]
fn client_connection_for_valid_name() {
    assert!(tls_client("cloudflare-dns.com").is_ok());
}

#[test]
fn client_connection_refuses_invalid_name() {
    assert!(matches!(tls_client("not a domain"), Err(TlsSetupError::InvalidName(_))));
}

#[test]
fn server_name_is_the_domain_read() {
    for d in ["dns.example.com", "cloudflare-dns.com", "9.9.9.9", "::1"] {
        let expected = ServerName::try_from(d).unwrap().to_owned();
        assert_eq!(tls_server_name(d).unwrap(), expected);
    }
    assert_ne!(tls_server_name("a.example").unwrap(), tls_server_name("b.example").unwrap());
}
