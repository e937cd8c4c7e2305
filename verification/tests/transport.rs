use wg_subscriber::transport::{build_transport, ca_certificates, TransportChoice};

#[test]
fn transport_follows_the_settings() {
    let file = || Some("/etc/ca.pem".to_string());
    assert!(matches!(build_transport(None, file()), TransportChoice::Tcp));
    assert!(matches!(build_transport(Some("no"), None), TransportChoice::Tcp));
    assert!(matches!(build_transport(Some("1"), None), TransportChoice::TlsNative));
    match build_transport(Some("true"), file()) {
        TransportChoice::TlsFile(path) => assert_eq!(path, "/etc/ca.pem"),
        _ => panic!(),
    }
}

#[test]
fn certificates_are_read() {
    let pem = "text\n-----BEGIN CERTIFICATE-----\nAQID\n-----END CERTIFICATE-----\n\
               -----BEGIN CERTIFICATE-----\nBAUG\nBw==\n-----END CERTIFICATE-----\n";
    assert_eq!(ca_certificates(pem), Some(vec![vec![1, 2, 3], vec![4, 5, 6, 7]]));
    assert_eq!(ca_certificates(""), Some(vec![]));
    assert_eq!(ca_certificates("-----BEGIN CERTIFICATE-----\nAQID\n"), None);
    assert_eq!(
        ca_certificates("-----BEGIN CERTIFICATE-----\n!\n-----END CERTIFICATE-----\n"),
        None
    );
}
