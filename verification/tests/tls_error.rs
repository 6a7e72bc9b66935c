use wavekat_sip::tls_error::{
    untrusted_certificate, CertFailure, ErrorLink, UntrustedCertificate,
};

fn untrusted() -> UntrustedCertificate {
    UntrustedCertificate {
        sha256: [0xab; 32],
        reason: CertFailure::UnknownIssuer,
    }
}

#[test]
fn fingerprint_is_lowercase_hex_of_the_full_digest() {
    let hex = untrusted().fingerprint_hex();
    assert_eq!(hex.len(), 64);
    assert!(hex.starts_with("abab"));
}

#[test]
fn display_carries_the_reason_and_the_fingerprint() {
    let s = untrusted().to_text();
    assert!(s.contains("trusted issuer"), "{s}");
    assert!(s.contains("sha256:abab"), "{s}");
}

#[test]
fn name_mismatch_lists_what_was_presented() {
    let f = CertFailure::NameMismatch {
        presented: vec!["edge-3.example.net".to_string()],
    };
    assert!(f.to_text().contains("edge-3.example.net"));
}

#[test]
fn found_through_an_io_error_wrapper() {
    let chain = [ErrorLink::IoUntrusted(untrusted())];
    let found = untrusted_certificate(&chain).expect("found");
    assert_eq!(found.reason, CertFailure::UnknownIssuer);
}

#[test]
fn absent_from_an_unrelated_error() {
    let chain = [ErrorLink::Other];
    assert!(untrusted_certificate(&chain).is_none());
}

#[test]
fn the_first_certificate_in_the_chain_is_found() {
    let outer = UntrustedCertificate {
        sha256: [1; 32],
        reason: CertFailure::Expired,
    };
    let chain = [
        ErrorLink::Other,
        ErrorLink::Untrusted(outer),
        ErrorLink::IoUntrusted(untrusted()),
    ];
    let found = untrusted_certificate(&chain).expect("found");
    assert_eq!(found.sha256, [1; 32]);
    assert_eq!(found.reason, CertFailure::Expired);
}

#[test]
fn every_failure_reads_differently() {
    let texts = [
        CertFailure::UnknownIssuer.to_text(),
        CertFailure::Expired.to_text(),
        CertFailure::NotYetValid.to_text(),
        CertFailure::NameMismatch { presented: Vec::new() }.to_text(),
        CertFailure::PinMismatch.to_text(),
        CertFailure::Malformed.to_text(),
        CertFailure::Revoked.to_text(),
        CertFailure::BadSignature.to_text(),
    ];
    for i in 0..texts.len() {
        for j in 0..i {
            assert_ne!(texts[i], texts[j]);
        }
    }
}
