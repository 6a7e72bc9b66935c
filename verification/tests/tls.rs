use rcgen::{date_time_ymd, BasicConstraints, CertificateParams, DnType, IsCa, Issuer, KeyPair};
use rustls::CertificateError;
use wavekat_sip::stack::tls::{
    cert_failure, pin_accepts, presented_name, refused_certificate, sha256, TlsFailure,
};
use wavekat_sip::tls_error::{to_hex, CertFailure};

/// A failure of rustls as the library takes it.
fn failure(err: &rustls::Error) -> TlsFailure {
    match err {
        rustls::Error::InvalidCertificate(c) => match c {
            CertificateError::Expired => TlsFailure::Expired,
            CertificateError::NotValidYet => TlsFailure::NotValidYet,
            CertificateError::NotValidForNameContext { presented, .. } => {
                TlsFailure::NotValidForName { presented: presented.clone() }
            }
            CertificateError::UnknownIssuer => TlsFailure::UnknownIssuer,
            CertificateError::BadEncoding => TlsFailure::BadEncoding,
            CertificateError::Revoked => TlsFailure::Revoked,
            CertificateError::BadSignature => TlsFailure::BadSignature,
            CertificateError::ApplicationVerificationFailure => {
                TlsFailure::ApplicationVerificationFailure
            }
            other => TlsFailure::OtherCertificate(other.to_string()),
        },
        other => TlsFailure::Other(other.to_string()),
    }
}

/// A self-signed CA, and a leaf it signs for `names`.
fn chain(names: &[&str]) -> (Vec<u8>, Vec<u8>, Vec<u8>) {
    let mut ca_params = CertificateParams::new(Vec::new()).expect("ca params");
    ca_params.is_ca = IsCa::Ca(BasicConstraints::Unconstrained);
    ca_params
        .distinguished_name
        .push(DnType::CommonName, "wavekat test ca");
    let ca_key = KeyPair::generate().expect("ca key");
    let ca_cert = ca_params.self_signed(&ca_key).expect("ca cert");
    let issuer = Issuer::from_params(&ca_params, &ca_key);

    let owned: Vec<String> = names.iter().map(|s| s.to_string()).collect();
    let leaf_params = CertificateParams::new(owned).expect("leaf params");
    let leaf_key = KeyPair::generate().expect("leaf key");
    let leaf = leaf_params
        .signed_by(&leaf_key, &issuer)
        .expect("leaf cert");

    (
        ca_cert.der().to_vec(),
        leaf.der().to_vec(),
        leaf_key.serialize_der(),
    )
}

/// A self-signed leaf with an explicit validity window, for the
/// expired / not-yet-valid cases.
fn self_signed_valid(name: &str, from: (i32, u8, u8), to: (i32, u8, u8)) -> (Vec<u8>, Vec<u8>) {
    let mut params = CertificateParams::new(vec![name.to_string()]).expect("params");
    params.not_before = date_time_ymd(from.0, from.1, from.2);
    params.not_after = date_time_ymd(to.0, to.1, to.2);
    let key = KeyPair::generate().expect("key");
    let cert = params.self_signed(&key).expect("cert");
    (cert.der().to_vec(), key.serialize_der())
}

#[test]
fn fingerprints_the_leaf_der() {
    let (_ca, leaf, _key) = chain(&["sip.example.com"]);
    let a = sha256(&leaf);
    let b = sha256(&leaf);
    assert_eq!(a, b, "the digest is stable");
    assert_ne!(a, [0u8; 32]);
}

#[test]
fn maps_expiry_to_its_own_failure() {
    let err = rustls::Error::InvalidCertificate(rustls::CertificateError::Expired);
    assert_eq!(cert_failure(&failure(&err)), CertFailure::Expired);
}

#[test]
fn maps_not_yet_valid_to_its_own_failure() {
    let err = rustls::Error::InvalidCertificate(rustls::CertificateError::NotValidYet);
    assert_eq!(cert_failure(&failure(&err)), CertFailure::NotYetValid);
}

#[test]
fn maps_unknown_issuer_to_its_own_failure() {
    let err = rustls::Error::InvalidCertificate(rustls::CertificateError::UnknownIssuer);
    assert_eq!(cert_failure(&failure(&err)), CertFailure::UnknownIssuer);
}

#[test]
fn maps_bad_encoding_to_malformed() {
    let err = rustls::Error::InvalidCertificate(rustls::CertificateError::BadEncoding);
    assert_eq!(cert_failure(&failure(&err)), CertFailure::Malformed);
}

#[test]
fn name_mismatch_carries_the_presented_names() {
    let err =
        rustls::Error::InvalidCertificate(rustls::CertificateError::NotValidForNameContext {
            expected: rustls::pki_types::ServerName::try_from("sip.example.com")
                .expect("name")
                .to_owned(),
            // The shape webpki really produces (its `GeneralName` Debug).
            presented: vec![
                "DnsName(\"edge-3.example.net\")".to_string(),
                "IpAddress(192.0.2.7)".to_string(),
            ],
        });
    assert_eq!(
        cert_failure(&failure(&err)),
        CertFailure::NameMismatch {
            presented: vec!["edge-3.example.net".to_string(), "192.0.2.7".to_string()]
        }
    );
}

#[test]
fn presented_names_are_unwrapped_to_the_bare_name() {
    assert_eq!(
        presented_name("DnsName(\"sip.example.com\")"),
        "sip.example.com"
    );
    assert_eq!(
        presented_name("DnsName(\"*.example.com\")"),
        "*.example.com"
    );
    assert_eq!(presented_name("IpAddress(192.0.2.1)"), "192.0.2.1");
    assert_eq!(presented_name("IpAddress(2001:db8::1)"), "2001:db8::1");
    assert_eq!(
        presented_name("UniformResourceIdentifier(\"sip:pbx.example.com\")"),
        "sip:pbx.example.com"
    );
}

#[test]
fn presented_names_that_are_not_names_are_left_alone() {
    // Nothing to unwrap, and nothing safe to guess.
    assert_eq!(presented_name("DirectoryName"), "DirectoryName");
    assert_eq!(presented_name("Unsupported(0x88)"), "Unsupported(0x88)");
    // Already bare (a future webpki, or a test double).
    assert_eq!(presented_name("sip.example.com"), "sip.example.com");
}

#[test]
fn maps_revoked_to_its_own_failure() {
    let err = rustls::Error::InvalidCertificate(rustls::CertificateError::Revoked);
    assert_eq!(cert_failure(&failure(&err)), CertFailure::Revoked);
}

#[test]
fn maps_bad_signature_to_its_own_failure() {
    let err = rustls::Error::InvalidCertificate(rustls::CertificateError::BadSignature);
    assert_eq!(cert_failure(&failure(&err)), CertFailure::BadSignature);
}

/// An unmapped `CertificateError` is still reported as a certificate
/// problem — distinguishable from the non-certificate catch-all below by
/// the `"certificate: "` prefix on the message, per `CertFailure::Other`'s
/// doc.
#[test]
fn an_unmapped_certificate_error_is_still_reported_as_a_certificate_problem() {
    let err =
        rustls::Error::InvalidCertificate(rustls::CertificateError::UnhandledCriticalExtension);
    match cert_failure(&failure(&err)) {
        CertFailure::Other(msg) => assert!(msg.starts_with("certificate: "), "{msg}"),
        other => panic!("expected Other, got {other:?}"),
    }
}

#[test]
fn pin_mismatch_has_its_own_failure() {
    let err = rustls::Error::InvalidCertificate(
        rustls::CertificateError::ApplicationVerificationFailure,
    );
    assert_eq!(cert_failure(&failure(&err)), CertFailure::PinMismatch);
}

#[test]
fn a_non_certificate_failure_is_not_reported_as_one() {
    let err = rustls::Error::NoCertificatesPresented;
    assert!(matches!(cert_failure(&failure(&err)), CertFailure::Other(_)));
}

#[test]
fn a_pinned_verifier_accepts_only_its_own_fingerprint() {
    let (_ca, leaf, _key) = chain(&["sip.example.com"]);
    assert!(pin_accepts(&sha256(&leaf), &leaf));
    assert!(!pin_accepts(&[0u8; 32], &leaf));
}

/// Pinning trusts one certificate, not a chain: an expired self-signed cert
/// whose fingerprint matches is still the certificate the operator pinned.
#[test]
fn a_pinned_verifier_ignores_chain_and_expiry() {
    let (leaf, _key) = self_signed_valid("pbx.local", (2020, 1, 1), (2021, 1, 1));
    assert!(pin_accepts(&sha256(&leaf), &leaf));
}

#[test]
fn the_digest_of_nothing() {
    assert_eq!(
        to_hex(&sha256(b"")),
        "e3b0c44298fc1c149afbf4c8996fb92427ae41e4649b934ca495991b7852b855"
    );
}

#[test]
fn a_refused_certificate_carries_what_was_seen() {
    let err = TlsFailure::ApplicationVerificationFailure;
    let refused = refused_certificate(Some(&err), Some([3; 32])).expect("a verdict");
    assert_eq!(refused.sha256, [3; 32]);
    assert_eq!(refused.reason, CertFailure::PinMismatch);
    assert!(refused_certificate(Some(&err), None).is_none());
    assert!(refused_certificate(None, Some([3; 32])).is_none());
    let other = TlsFailure::Other("closed".to_string());
    assert!(refused_certificate(Some(&other), Some([3; 32])).is_none());
}
