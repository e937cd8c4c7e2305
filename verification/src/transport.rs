//! How the connection to the broker is secured.
use vstd::prelude::*;

use crate::config::{flag, is_on};
use crate::foreign::{pem_certificates, pem_certs};

verus! {

/// The transport to the broker: plain, or secured with the certificates of a
/// file, or with those of the system.
pub enum TransportChoice {
    Tcp,
    TlsFile(String),
    TlsNative,
}

/// The transport, by whether it is to be secured and by the file with the
/// certificates to trust, where one is set.
pub fn build_transport(tls: Option<&str>, ca: Option<String>) -> (choice: TransportChoice)
    ensures
        match choice {
            TransportChoice::Tcp => !is_on(tls.deep_view()),
            TransportChoice::TlsFile(path) => is_on(tls.deep_view()) && ca == Some(path),
            TransportChoice::TlsNative => is_on(tls.deep_view()) && ca is None,
        },
{
    if !flag(tls) {
        return TransportChoice::Tcp;
    }
    match ca {
        Some(path) => TransportChoice::TlsFile(path),
        None => TransportChoice::TlsNative,
    }
}

/// The certificates in the text of a file, or nothing where the text is broken.
pub fn ca_certificates(pem: &str) -> (certs: Option<Vec<Vec<u8>>>)
    ensures
        certs.deep_view() == pem_certificates(pem@),
{
    pem_certs(pem)
}

} // verus!
