//! What is reported about a certificate that was refused: the fingerprint that could be pinned,
//! and the reason the chain failed.

use crate::account::{digest_of, hex_bytes};
use crate::text::{hex_char, hex_digit, hex_digit_char, lemma_hex_char, strings};
use vstd::prelude::*;
use vstd::string::*;
use vstd::utf8::*;

verus! {

/// Why a server's certificate was refused.
#[derive(Debug, Clone, PartialEq, Eq)]
#[non_exhaustive]
pub enum CertFailure {
    /// The certificate's validity period has ended.
    Expired,
    /// The certificate's validity period has not begun.
    NotYetValid,
    /// The certificate is valid, but for other names than the account's SIP domain.
    NameMismatch {
        /// The names the certificate did present.
        presented: Vec<String>,
    },
    /// The chain did not reach a trusted root.
    UnknownIssuer,
    /// The issuer has revoked the certificate.
    Revoked,
    /// The certificate's signature does not verify against its issuer's key.
    BadSignature,
    /// The leaf is not the certificate that the policy pins.
    PinMismatch,
    /// The certificate could not be parsed.
    Malformed,
    /// A TLS failure without a variant of its own.
    Other(String),
}

/// The texts `p` with `, ` between neighbours.
pub open spec fn comma_list(p: Seq<Seq<char>>) -> Seq<char>
    decreases p.len(),
{
    if p.len() == 0 {
        Seq::empty()
    } else if p.len() == 1 {
        p[0]
    } else {
        comma_list(p.drop_last()) + ", "@ + p.last()
    }
}

impl CertFailure {
    /// The failure in words.
    pub open spec fn text(self) -> Seq<char> {
        match self {
            CertFailure::Expired => "certificate has expired"@,
            CertFailure::NotYetValid => "certificate is not yet valid"@,
            CertFailure::NameMismatch { presented } => if presented@.len() == 0 {
                "certificate is not valid for this SIP domain"@
            } else {
                "certificate is not valid for this SIP domain"@ + " (presented: "@ + comma_list(
                    strings(presented@),
                ) + ")"@
            },
            CertFailure::UnknownIssuer => "certificate is not signed by a trusted issuer"@,
            CertFailure::Revoked => "certificate has been revoked"@,
            CertFailure::BadSignature => "certificate signature does not verify"@,
            CertFailure::PinMismatch => "certificate does not match the pinned fingerprint"@,
            CertFailure::Malformed => "certificate could not be parsed"@,
            CertFailure::Other(msg) => "TLS failure: "@ + msg@,
        }
    }

    /// The failure in words.
    pub fn to_text(&self) -> (res: String)
        ensures
            res@ == self.text(),
    {
        match self {
            CertFailure::Expired => String::from_str("certificate has expired"),
            CertFailure::NotYetValid => String::from_str("certificate is not yet valid"),
            CertFailure::NameMismatch { presented } => {
                let mut out = String::from_str("certificate is not valid for this SIP domain");
                if presented.len() > 0 {
                    out.append(" (presented: ");
                    push_comma_list(&mut out, presented);
                    out.append(")");
                    assert(out@ == self.text());
                }
                out
            },
            CertFailure::UnknownIssuer => String::from_str(
                "certificate is not signed by a trusted issuer",
            ),
            CertFailure::Revoked => String::from_str("certificate has been revoked"),
            CertFailure::BadSignature => String::from_str("certificate signature does not verify"),
            CertFailure::PinMismatch => String::from_str(
                "certificate does not match the pinned fingerprint",
            ),
            CertFailure::Malformed => String::from_str("certificate could not be parsed"),
            CertFailure::Other(msg) => {
                let mut out = String::from_str("TLS failure: ");
                out.append(msg.as_str());
                out
            },
        }
    }
}

fn push_comma_list(out: &mut String, p: &Vec<String>)
    ensures
        final(out)@ == old(out)@ + comma_list(strings(p@)),
{
    let mut i: usize = 0;
    let ghost all = strings(p@);
    assert(all.take(0) == Seq::<Seq<char>>::empty());
    assert(old(out)@ + Seq::<char>::empty() == old(out)@);
    while i < p.len()
        invariant
            i <= p@.len(),
            all == strings(p@),
            out@ == old(out)@ + comma_list(all.take(i as int)),
        decreases p.len() - i,
    {
        if i > 0 {
            out.append(", ");
        }
        out.append(p[i].as_str());
        proof {
            let next = all.take(i as int + 1);
            assert(next.drop_last() == all.take(i as int));
            assert(next.last() == p@[i as int]@);
            assert(out@ == old(out)@ + comma_list(next));
        }
        i += 1;
    }
    assert(all.take(i as int) == all);
}

/// A certificate that was refused. The fingerprint is the SHA-256 of the leaf's DER encoding,
/// the value that a pinned policy takes.
#[derive(Debug, Clone, PartialEq, Eq)]
pub struct UntrustedCertificate {
    /// SHA-256 of the leaf certificate's DER encoding.
    pub sha256: [u8; 32],
    /// Why it was refused.
    pub reason: CertFailure,
}

/// Bytes as pairs of lower-case hexadecimal digits.
pub open spec fn hex_text(b: Seq<u8>) -> Seq<char>
    decreases b.len(),
{
    if b.len() == 0 {
        Seq::empty()
    } else {
        hex_text(b.drop_last()) + seq![
            hex_char((b.last() / 16) as nat),
            hex_char((b.last() % 16) as nat),
        ]
    }
}

/// Bytes as pairs of lower-case hexadecimal digits.
pub fn to_hex(b: &[u8]) -> (res: String)
    ensures
        res@ == hex_text(b@),
{
    let mut out = String::new();
    let mut i: usize = 0;
    assert(b@.take(0) == Seq::<u8>::empty());
    while i < b.len()
        invariant
            i <= b@.len(),
            out@ == hex_text(b@.take(i as int)),
        decreases b.len() - i,
    {
        out.push(hex_digit_char(b[i] / 16));
        out.push(hex_digit_char(b[i] % 16));
        proof {
            let next = b@.take(i as int + 1);
            assert(next.drop_last() == b@.take(i as int));
            assert(out@ == hex_text(next));
        }
        i += 1;
    }
    assert(b@.take(b@.len() as int) == b@);
    out
}

impl UntrustedCertificate {
    /// The refusal in words: the reason and the fingerprint.
    pub open spec fn text(self) -> Seq<char> {
        self.reason.text() + " (sha256:"@ + hex_text(self.sha256@) + ")"@
    }

    /// The fingerprint as lower-case hex, the form a user is shown and compares.
    pub fn fingerprint_hex(&self) -> (res: String)
        ensures
            res@ == hex_text(self.sha256@),
    {
        to_hex(self.sha256.as_slice())
    }

    /// The refusal in words: the reason and the fingerprint.
    pub fn to_text(&self) -> (res: String)
        ensures
            res@ == self.text(),
    {
        let mut out = self.reason.to_text();
        out.append(" (sha256:");
        out.append(self.fingerprint_hex().as_str());
        out.append(")");
        out
    }
}

proof fn lemma_hex_text(b: Seq<u8>)
    ensures
        hex_text(b).len() == 2 * b.len(),
        forall|i: int| 0 <= i < hex_text(b).len() ==> hex_digit(#[trigger] hex_text(b)[i]) is Some,
        hex_bytes(hex_text(b)) == Some(b),
    decreases b.len(),
{
    if b.len() > 0 {
        let n = b.last();
        lemma_hex_text(b.drop_last());
        lemma_hex_char((n / 16) as nat);
        lemma_hex_char((n % 16) as nat);
        let t = hex_text(b.drop_last());
        let x = hex_char((n / 16) as nat);
        let y = hex_char((n % 16) as nat);
        crate::account::lemma_hex_bytes_push(t, x, y);
        assert(t + seq![x, y] == t.push(x).push(y));
        assert(b.drop_last().push(n) == b);
    } else {
        assert(b == Seq::<u8>::empty());
    }
}

/// A fingerprint that was shown can be pinned as it stands: reading its hexadecimal text gives
/// the same digest.
pub proof fn fingerprint_can_be_pinned(sha256: Seq<u8>)
    requires
        sha256.len() == 32,
    ensures
        digest_of(hex_text(sha256)) == Ok::<Seq<u8>, Seq<char>>(sha256),
{
    lemma_hex_text(sha256);
    crate::account::lemma_hex_is_ascii(hex_text(sha256));
}

/// One error of a chain of errors, each the source of the one before it.
#[derive(Debug, Clone, PartialEq, Eq)]
pub enum ErrorLink {
    /// A refused certificate.
    Untrusted(UntrustedCertificate),
    /// An I/O error that carries a refused certificate.
    IoUntrusted(UntrustedCertificate),
    /// Any other error.
    Other,
}

impl ErrorLink {
    /// The refused certificate that the error is or carries.
    pub open spec fn certificate(self) -> Option<UntrustedCertificate> {
        match self {
            ErrorLink::Untrusted(u) => Some(u),
            ErrorLink::IoUntrusted(u) => Some(u),
            ErrorLink::Other => None,
        }
    }
}

/// The first refused certificate in a chain of errors.
pub open spec fn first_certificate(chain: Seq<ErrorLink>) -> Option<UntrustedCertificate>
    decreases chain.len(),
{
    if chain.len() == 0 {
        None
    } else if chain[0].certificate() is Some {
        chain[0].certificate()
    } else {
        first_certificate(chain.skip(1))
    }
}

/// Finds a refused certificate inside a chain of errors, outermost first.
pub fn untrusted_certificate(chain: &[ErrorLink]) -> (res: Option<&UntrustedCertificate>)
    ensures
        match res {
            Some(u) => first_certificate(chain@) == Some(*u),
            None => first_certificate(chain@) is None,
        },
{
    let mut i: usize = 0;
    assert(chain@.skip(0) =~= chain@);
    while i < chain.len()
        invariant
            i <= chain@.len(),
            first_certificate(chain@.skip(i as int)) == first_certificate(chain@),
        decreases chain.len() - i,
    {
        assert(chain@.skip(i as int).skip(1) =~= chain@.skip(i as int + 1));
        match &chain[i] {
            ErrorLink::Untrusted(u) => return Some(u),
            ErrorLink::IoUntrusted(u) => return Some(u),
            ErrorLink::Other => {},
        }
        i += 1;
    }
    None
}

/// The certificate that is reported is that of the outermost error that is or carries one.
pub proof fn outermost_certificate_is_found(
    chain: Seq<ErrorLink>,
    i: int,
    certificate: UntrustedCertificate,
)
    requires
        0 <= i < chain.len(),
        forall|j: int| 0 <= j < i ==> #[trigger] chain[j] is Other,
        chain[i] == ErrorLink::Untrusted(certificate) || chain[i] == ErrorLink::IoUntrusted(
            certificate,
        ),
    ensures
        first_certificate(chain) == Some(certificate),
    decreases i,
{
    if i > 0 {
        assert(chain[0] is Other);
        outermost_certificate_is_found(chain.skip(1), i - 1, certificate);
    }
}

/// Without a refused certificate in the chain none is reported.
pub proof fn other_errors_report_no_certificate(chain: Seq<ErrorLink>)
    requires
        forall|j: int| 0 <= j < chain.len() ==> #[trigger] chain[j] is Other,
    ensures
        first_certificate(chain) is None,
    decreases chain.len(),
{
    if chain.len() > 0 {
        assert(chain[0] is Other);
        other_errors_report_no_certificate(chain.skip(1));
    }
}

/// A refusal in words ends with the fingerprint that could be pinned, after the reason.
pub proof fn refusals_show_the_fingerprint(refusal: UntrustedCertificate)
    ensures
        refusal.reason.text().is_prefix_of(refusal.text()),
        (" (sha256:"@ + hex_text(refusal.sha256@) + ")"@).is_suffix_of(refusal.text()),
        refusal.text().len() == refusal.reason.text().len() + 74,
        digest_of(hex_text(refusal.sha256@)) == Ok::<Seq<u8>, Seq<char>>(refusal.sha256@),
{
    reveal_strlit(" (sha256:");
    reveal_strlit(")");
    fingerprint_can_be_pinned(refusal.sha256@);
    lemma_hex_text(refusal.sha256@);
    let t = refusal.text();
    let head = refusal.reason.text();
    let tail = " (sha256:"@ + hex_text(refusal.sha256@) + ")"@;
    assert(t =~= head + tail);
    assert(head.is_prefix_of(head + tail));
    assert(tail.is_suffix_of(head + tail));
}

/// A fingerprint is shown in lower case, two digits to the byte, the higher one first.
pub proof fn fingerprints_are_lower_case(b: Seq<u8>, i: int)
    requires
        0 <= i < b.len(),
    ensures
        hex_text(b).len() == 2 * b.len(),
        hex_text(b)[2 * i] == "0123456789abcdef"@[(b[i] / 16) as int],
        hex_text(b)[2 * i + 1] == "0123456789abcdef"@[(b[i] % 16) as int],
    decreases b.len(),
{
    reveal_strlit("0123456789abcdef");
    lemma_hex_text(b);
    lemma_hex_text(b.drop_last());
    if i < b.len() - 1 {
        fingerprints_are_lower_case(b.drop_last(), i);
    }
}

/// The names of two lists are those of the first, a comma and a blank, and those of the second.
pub proof fn lists_are_told_in_order(a: Seq<Seq<char>>, b: Seq<Seq<char>>, name: Seq<char>)
    requires
        a.len() > 0,
        b.len() > 0,
    ensures
        comma_list(a + b) == comma_list(a) + ", "@ + comma_list(b),
        comma_list(seq![name]) == name,
    decreases b.len(),
{
    let all = a + b;
    let init = b.drop_last();
    assert(all.drop_last() =~= a + init);
    assert(all.last() == b.last());
    if b.len() == 1 {
        assert(a + init =~= a);
        assert(comma_list(b) == b.last());
    } else {
        lists_are_told_in_order(a, init, name);
        assert(comma_list(all) =~= comma_list(a) + ", "@ + comma_list(b));
    }
}

/// What a user reads of a refused certificate: whether it is too old or too new, whom it is for, who
/// vouches for it, whether it was withdrawn, and whether it is the one that was pinned.
pub proof fn failures_are_told_in_words(failure: CertFailure)
    ensures
        failure is Expired ==> failure.text() == "certificate has expired"@,
        failure is NotYetValid ==> failure.text() == "certificate is not yet valid"@,
        failure is UnknownIssuer ==> failure.text()
            == "certificate is not signed by a trusted issuer"@,
        failure is Revoked ==> failure.text() == "certificate has been revoked"@,
        failure is BadSignature ==> failure.text() == "certificate signature does not verify"@,
        failure is PinMismatch ==> failure.text()
            == "certificate does not match the pinned fingerprint"@,
        failure is Malformed ==> failure.text() == "certificate could not be parsed"@,
        failure matches CertFailure::Other(msg) ==> failure.text() == "TLS failure: "@ + msg@,
        failure matches CertFailure::NameMismatch { presented } ==> {
            let head = "certificate is not valid for this SIP domain"@;
            &&& head.is_prefix_of(failure.text())
            &&& presented@.len() == 0 ==> failure.text() == head
            &&& presented@.len() > 0 ==> failure.text() == head + (" (presented: "@ + comma_list(
                strings(presented@),
            ) + ")"@)
        },
{
    let head = "certificate is not valid for this SIP domain"@;
    if let CertFailure::NameMismatch { presented } = failure {
        let tail = " (presented: "@ + comma_list(strings(presented@)) + ")"@;
        assert(head.is_prefix_of(head + tail));
        assert(head.is_prefix_of(head));
        if presented@.len() > 0 {
            assert(failure.text() =~= head + tail);
        }
    }
}

} // verus!
