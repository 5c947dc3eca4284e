//! Which TLS credentials a listener uses.

use crate::config::{StreamSettings};
use crate::text::same_text;
use vstd::prelude::*;
use vstd::string::*;

verus! {

/// Where the credentials of a listener come from.
#[derive(Debug, PartialEq, Eq)]
pub enum Credentials {
    /// The files of a certificate and its key.
    Files(String, String),
    /// A certificate that is made for the occasion, for these names.
    SelfSigned(Vec<String>),
}

/// Whether the credentials are those of two files, if both are given, and otherwise a fresh
/// certificate for this machine.
pub open spec fn credentials_from(
    certificate: Option<String>,
    key: Option<String>,
    c: Credentials,
) -> bool {
    match (certificate, key) {
        (Some(certificate), Some(key)) => c == Credentials::Files(certificate, key),
        _ => c matches Credentials::SelfSigned(names) && names@.len() == 2 && names@[0]@
            == "localhost"@ && names@[1]@ == "127.0.0.1"@,
    }
}

/// The certificate file of a listener.
pub open spec fn certificate_file(s: Option<StreamSettings>) -> Option<String> {
    match s {
        Some(s) => match s.tls_settings {
            Some(t) => t.certificate_file,
            None => None,
        },
        None => None,
    }
}

/// The key file of a listener.
pub open spec fn key_file(s: Option<StreamSettings>) -> Option<String> {
    match s {
        Some(s) => match s.tls_settings {
            Some(t) => t.key_file,
            None => None,
        },
        None => None,
    }
}

/// Whether a listener asks for TLS.
pub open spec fn wants_tls(s: Option<StreamSettings>) -> bool {
    s matches Some(s) && s.security@ == "tls"@
}

/// The credentials of two files, if both are given, and otherwise a fresh certificate for this
/// machine.
pub fn credentials(certificate: &Option<String>, key: &Option<String>) -> (r: Credentials)
    ensures
        credentials_from(*certificate, *key, r),
{
    match (certificate, key) {
        (Some(certificate), Some(key)) => Credentials::Files(certificate.clone(), key.clone()),
        _ => {
            let mut names: Vec<String> = Vec::new();
            names.push("localhost".to_string());
            names.push("127.0.0.1".to_string());
            Credentials::SelfSigned(names)
        },
    }
}

/// The credentials of a listener.
pub fn listener_credentials(settings: &Option<StreamSettings>) -> (r: Credentials)
    ensures
        credentials_from(certificate_file(*settings), key_file(*settings), r),
{
    match settings {
        Some(s) => match &s.tls_settings {
            Some(t) => credentials(&t.certificate_file, &t.key_file),
            None => credentials(&None, &None),
        },
        None => credentials(&None, &None),
    }
}

/// The credentials of a listener that asks for TLS.
pub fn tls_credentials(settings: &Option<StreamSettings>) -> (r: Option<Credentials>)
    ensures
        r is Some == wants_tls(*settings),
        r matches Some(c) ==> credentials_from(
            certificate_file(*settings),
            key_file(*settings),
            c,
        ),
{
    let wanted: bool = match settings {
        Some(s) => same_text(s.security.as_str(), "tls"),
        None => false,
    };
    if wanted {
        Some(listener_credentials(settings))
    } else {
        None
    }
}

/// A listener has TLS exactly if its settings say `tls`; it uses its own files only if both are
/// given, and else a fresh certificate for this machine.
pub proof fn law_listener_credentials(s: StreamSettings, c: Credentials)
    ensures
        wants_tls(Some(s)) <==> s.security@ == "tls"@,
        !wants_tls(None),
        ({
            let used = credentials_from(certificate_file(Some(s)), key_file(Some(s)), c);
            let fresh = c matches Credentials::SelfSigned(names) && names@.len() == 2 && names@[0]@
                == "localhost"@ && names@[1]@ == "127.0.0.1"@;
            match s.tls_settings {
                Some(t) => match (t.certificate_file, t.key_file) {
                    (Some(f), Some(k)) => used <==> c == Credentials::Files(f, k),
                    _ => used <==> fresh,
                },
                None => used <==> fresh,
            }
        }),
        credentials_from(certificate_file(None), key_file(None), c) <==> (c
            matches Credentials::SelfSigned(names) && names@.len() == 2 && names@[0]@
            == "localhost"@ && names@[1]@ == "127.0.0.1"@),
{
}

} // verus!
