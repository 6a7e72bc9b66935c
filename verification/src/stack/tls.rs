//! TLS: the fingerprint of a certificate, the decision of a pinned policy, and what a failed
//! handshake means.

use crate::text::{chars_of, copy_of, has_prefix, starts_with, string_of, strings};
use crate::tls_error::{CertFailure, UntrustedCertificate};
use sha2::Digest;
use vstd::prelude::*;
use vstd::string::*;

verus! {

/// What `sha2::Sha256::digest` gives for bytes.
pub uninterp spec fn sha256_of(bytes: Seq<u8>) -> Seq<u8>;

/// Calls `sha2::Sha256::digest`: the SHA-256 of the bytes, a function of the bytes alone.
#[verifier::external_body]
fn digest(bytes: &[u8]) -> (res: [u8; 32])
    ensures
        res@ == sha256_of(bytes@),
{
    sha2::Sha256::digest(bytes).into()
}

/// SHA-256 of a certificate's DER encoding, the fingerprint that can be pinned.
pub fn sha256(der: &[u8]) -> (res: [u8; 32])
    ensures
        res@ == sha256_of(der@),
{
    digest(der)
}

/// Whether two digests are the same.
pub fn same_digest(a: &[u8; 32], b: &[u8; 32]) -> (res: bool)
    ensures
        res == (a@ == b@),
{
    let mut i: usize = 0;
    while i < 32
        invariant
            i <= 32,
            forall|j: int| 0 <= j < i ==> a@[j] == b@[j],
        decreases 32 - i,
    {
        if a[i] != b[i] {
            return false;
        }
        i += 1;
    }
    assert(a@ =~= b@);
    true
}

/// Whether a pinned policy accepts the certificate: its fingerprint is the pinned one. Chain,
/// expiry and name do not matter; the fingerprint is the identity.
pub fn pin_accepts(pin: &[u8; 32], der: &[u8]) -> (res: bool)
    ensures
        res == (sha256_of(der@) == pin@),
{
    same_digest(&sha256(der), pin)
}

/// Why a TLS handshake failed.
#[derive(Debug, Clone, PartialEq, Eq)]
pub enum TlsFailure {
    /// The certificate has expired.
    Expired,
    /// The certificate is not valid yet.
    NotValidYet,
    /// The certificate is for other names; the names it presents, as the verifier writes them.
    NotValidForName {
        /// The names.
        presented: Vec<String>,
    },
    /// The issuer is not trusted.
    UnknownIssuer,
    /// The certificate cannot be parsed.
    BadEncoding,
    /// The certificate was revoked.
    Revoked,
    /// The signature of the certificate does not verify.
    BadSignature,
    /// The application refused the certificate: it is not the pinned one.
    ApplicationVerificationFailure,
    /// Another problem with the certificate, in words.
    OtherCertificate(String),
    /// A failure that is not about the certificate, in words.
    Other(String),
}

/// `s` without the prefix `p`, if it starts with it.
pub open spec fn stripped_prefix(s: Seq<char>, p: Seq<char>) -> Option<Seq<char>> {
    if starts_with(s, p) {
        Some(s.skip(p.len() as int))
    } else {
        None
    }
}

/// `s` without its last character, if that is `c`.
pub open spec fn stripped_last(s: Seq<char>, c: char) -> Option<Seq<char>> {
    if s.len() > 0 && s.last() == c {
        Some(s.drop_last())
    } else {
        None
    }
}

/// What stands in the parentheses of `kind(..)`.
pub open spec fn inside(raw: Seq<char>, kind: Seq<char>) -> Option<Seq<char>> {
    match stripped_prefix(raw, kind + "("@) {
        Some(r) => stripped_last(r, ')'),
        None => None,
    }
}

/// `s` without the quotation marks around it, if it has both.
pub open spec fn unquoted(s: Seq<char>) -> Seq<char> {
    match stripped_prefix(s, "\""@) {
        Some(r) => match stripped_last(r, '"') {
            Some(t) => t,
            None => s,
        },
        None => s,
    }
}

/// A presented name as the bare name: what stands in `DnsName(..)`, `IpAddress(..)` or
/// `UniformResourceIdentifier(..)`, without quotation marks. Anything else is left as it is.
pub open spec fn bare_name(raw: Seq<char>) -> Seq<char> {
    match inside(raw, "DnsName"@) {
        Some(n) => unquoted(n),
        None => match inside(raw, "IpAddress"@) {
            Some(n) => unquoted(n),
            None => match inside(raw, "UniformResourceIdentifier"@) {
                Some(n) => unquoted(n),
                None => raw,
            },
        },
    }
}

fn strip_kind(raw: &[char], kind: &str) -> (res: Option<Vec<char>>)
    ensures
        match res {
            Some(n) => inside(raw@, kind@) == Some(n@),
            None => inside(raw@, kind@) is None,
        },
{
    let mut prefix = String::from_str(kind);
    prefix.append("(");
    if !has_prefix(raw, prefix.as_str()) {
        return None;
    }
    let from: usize = chars_of(prefix.as_str()).len();
    assert(raw@.len() >= from);
    let rest = vstd::slice::slice_subrange(raw, from, raw.len());
    assert(rest@ =~= raw@.skip(prefix@.len() as int));
    if rest.len() > 0 && rest[rest.len() - 1] == ')' {
        let inner = vstd::slice::slice_subrange(rest, 0, rest.len() - 1);
        assert(inner@ =~= rest@.drop_last());
        Some(copy_of(inner))
    } else {
        None
    }
}

fn unquote(s: &[char]) -> (res: String)
    ensures
        res@ == unquoted(s@),
{
    proof {
        reveal_strlit("\"");
    }
    if has_prefix(s, "\"") {
        let rest = vstd::slice::slice_subrange(s, 1, s.len());
        assert(rest@ =~= s@.skip("\""@.len() as int));
        if rest.len() > 0 && rest[rest.len() - 1] == '"' {
            let inner = vstd::slice::slice_subrange(rest, 0, rest.len() - 1);
            assert(inner@ =~= rest@.drop_last());
            return string_of(inner);
        }
    }
    string_of(s)
}

/// A presented name as the bare name.
pub fn presented_name(raw: &str) -> (res: String)
    ensures
        res@ == bare_name(raw@),
{
    let s = chars_of(raw);
    if let Some(n) = strip_kind(&s, "DnsName") {
        return unquote(&n);
    }
    if let Some(n) = strip_kind(&s, "IpAddress") {
        return unquote(&n);
    }
    if let Some(n) = strip_kind(&s, "UniformResourceIdentifier") {
        return unquote(&n);
    }
    String::from_str(raw)
}

/// A refused certificate, its texts as characters.
pub enum CertFailureView {
    Expired,
    NotYetValid,
    NameMismatch { presented: Seq<Seq<char>> },
    UnknownIssuer,
    Revoked,
    BadSignature,
    PinMismatch,
    Malformed,
    Other(Seq<char>),
}

impl View for CertFailure {
    type V = CertFailureView;

    open spec fn view(&self) -> CertFailureView {
        match self {
            CertFailure::Expired => CertFailureView::Expired,
            CertFailure::NotYetValid => CertFailureView::NotYetValid,
            CertFailure::NameMismatch { presented } => CertFailureView::NameMismatch {
                presented: strings(presented@),
            },
            CertFailure::UnknownIssuer => CertFailureView::UnknownIssuer,
            CertFailure::Revoked => CertFailureView::Revoked,
            CertFailure::BadSignature => CertFailureView::BadSignature,
            CertFailure::PinMismatch => CertFailureView::PinMismatch,
            CertFailure::Malformed => CertFailureView::Malformed,
            CertFailure::Other(msg) => CertFailureView::Other(msg@),
        }
    }
}

/// The names as bare names.
pub open spec fn bare_names(names: Seq<Seq<char>>) -> Seq<Seq<char>> {
    names.map_values(|n: Seq<char>| bare_name(n))
}

/// What is told about a failed handshake.
pub open spec fn failure_of(err: TlsFailure) -> CertFailureView {
    match err {
        TlsFailure::Expired => CertFailureView::Expired,
        TlsFailure::NotValidYet => CertFailureView::NotYetValid,
        TlsFailure::NotValidForName { presented } => CertFailureView::NameMismatch {
            presented: bare_names(strings(presented@)),
        },
        TlsFailure::UnknownIssuer => CertFailureView::UnknownIssuer,
        TlsFailure::BadEncoding => CertFailureView::Malformed,
        TlsFailure::Revoked => CertFailureView::Revoked,
        TlsFailure::BadSignature => CertFailureView::BadSignature,
        TlsFailure::ApplicationVerificationFailure => CertFailureView::PinMismatch,
        TlsFailure::OtherCertificate(msg) => CertFailureView::Other("certificate: "@ + msg@),
        TlsFailure::Other(msg) => CertFailureView::Other(msg@),
    }
}

fn presented_names(names: &Vec<String>) -> (res: Vec<String>)
    ensures
        strings(res@) == bare_names(strings(names@)),
{
    let mut out: Vec<String> = Vec::new();
    let mut i: usize = 0;
    while i < names.len()
        invariant
            i <= names@.len(),
            strings(out@) == bare_names(strings(names@)).take(i as int),
        decreases names.len() - i,
    {
        let ghost before = strings(out@);
        let n = presented_name(names[i].as_str());
        out.push(n);
        assert(strings(out@) =~= before.push(n@));
        i += 1;
        assert(strings(out@) =~= bare_names(strings(names@)).take(i as int));
    }
    assert(bare_names(strings(names@)).take(i as int) =~= bare_names(strings(names@)));
    out
}

/// Translates a failed handshake into what is told to the consumer.
pub fn cert_failure(err: &TlsFailure) -> (res: CertFailure)
    ensures
        res@ == failure_of(*err),
{
    match err {
        TlsFailure::Expired => CertFailure::Expired,
        TlsFailure::NotValidYet => CertFailure::NotYetValid,
        TlsFailure::NotValidForName { presented } => CertFailure::NameMismatch {
            presented: presented_names(presented),
        },
        TlsFailure::UnknownIssuer => CertFailure::UnknownIssuer,
        TlsFailure::BadEncoding => CertFailure::Malformed,
        TlsFailure::Revoked => CertFailure::Revoked,
        TlsFailure::BadSignature => CertFailure::BadSignature,
        TlsFailure::ApplicationVerificationFailure => CertFailure::PinMismatch,
        TlsFailure::OtherCertificate(msg) => {
            let mut out = String::from_str("certificate: ");
            out.append(msg.as_str());
            CertFailure::Other(out)
        },
        TlsFailure::Other(msg) => CertFailure::Other(msg.clone()),
    }
}

/// Whether the failure is a verdict on the certificate.
pub open spec fn is_certificate_failure(err: TlsFailure) -> bool {
    !(err is Other)
}

/// What is told about a failed handshake: a refused certificate, when the failure is a verdict on
/// the certificate and the certificate was seen; else nothing beyond the failure itself.
pub fn refused_certificate(err: Option<&TlsFailure>, seen: Option<[u8; 32]>) -> (res: Option<
    UntrustedCertificate,
>)
    ensures
        match (err, seen) {
            (Some(e), Some(sha256)) => if is_certificate_failure(*e) {
                res matches Some(u) && u.sha256@ == sha256@ && u.reason@ == failure_of(*e)
            } else {
                res is None
            },
            _ => res is None,
        },
{
    match (err, seen) {
        (Some(e), Some(sha256)) => match e {
            TlsFailure::Other(_) => None,
            _ => Some(UntrustedCertificate { sha256, reason: cert_failure(e) }),
        },
        _ => None,
    }
}

/// A presented name loses its kind and its quotation marks: what is shown is the name that the
/// certificate is for.
pub proof fn presented_names_are_bare(name: Seq<char>, kind: Seq<char>)
    requires
        kind == "DnsName"@ || kind == "IpAddress"@ || kind == "UniformResourceIdentifier"@,
    ensures
        bare_name(kind + "(\""@ + name + "\")"@) == name,
        name.len() > 0 && name[0] != '"' ==> bare_name(kind + "("@ + name + ")"@) == name,
{
    let quoted = "\""@ + name + "\""@;
    lemma_quoted(name, kind);
    lemma_inside(quoted, kind);
    lemma_unquoted(name);
    lemma_inside(name, kind);
}

proof fn lemma_quoted(name: Seq<char>, kind: Seq<char>)
    ensures
        kind + "(\""@ + name + "\")"@ == kind + "("@ + ("\""@ + name + "\""@) + ")"@,
{
    reveal_strlit("(");
    reveal_strlit(")");
    reveal_strlit("\"");
    reveal_strlit("(\"");
    reveal_strlit("\")");
    assert("(\""@ =~= "("@ + "\""@);
    assert("\")"@ =~= "\""@ + ")"@);
    assert(kind + "(\""@ + name + "\")"@ =~= kind + "("@ + ("\""@ + name + "\""@) + ")"@);
}

proof fn lemma_unquoted(name: Seq<char>)
    ensures
        unquoted("\""@ + name + "\""@) == name,
        name.len() > 0 && name[0] != '"' ==> unquoted(name) == name,
{
    reveal_strlit("\"");
    let quoted = "\""@ + name + "\""@;
    let rest = name + "\""@;
    assert(quoted =~= "\""@ + rest);
    crate::text::lemma_is_prefix("\""@, rest);
    assert(quoted.skip(1) =~= rest);
    assert(rest.drop_last() =~= name);
    if name.len() > 0 && name[0] != '"' {
        crate::text::lemma_not_prefix(name, "\""@, 0);
    }
}

proof fn lemma_inside(name: Seq<char>, kind: Seq<char>)
    requires
        kind == "DnsName"@ || kind == "IpAddress"@ || kind == "UniformResourceIdentifier"@,
    ensures
        bare_name(kind + "("@ + name + ")"@) == unquoted(name),
{
    reveal_strlit("DnsName");
    reveal_strlit("IpAddress");
    reveal_strlit("UniformResourceIdentifier");
    reveal_strlit("(");
    reveal_strlit(")");
    let raw = kind + "("@ + name + ")"@;
    assert(raw =~= (kind + "("@) + (name + ")"@));
    crate::text::lemma_is_prefix(kind + "("@, name + ")"@);
    assert(raw.skip((kind + "("@).len() as int) =~= name + ")"@);
    assert((name + ")"@).drop_last() =~= name);
    assert(inside(raw, kind) == Some(name));
    assert(raw[0] == kind[0]);
    if kind != "DnsName"@ {
        crate::text::lemma_not_prefix(raw, "DnsName"@ + "("@, 0);
    }
    if kind == "UniformResourceIdentifier"@ {
        crate::text::lemma_not_prefix(raw, "IpAddress"@ + "("@, 0);
    }
}

/// Any other name is shown as it is.
pub proof fn other_names_are_kept(raw: Seq<char>)
    requires
        raw.len() == 0 || raw.last() != ')',
    ensures
        bare_name(raw) == raw,
{
    reveal_strlit("DnsName");
    reveal_strlit("IpAddress");
    reveal_strlit("UniformResourceIdentifier");
    reveal_strlit("(");
    lemma_not_inside(raw, "DnsName"@);
    lemma_not_inside(raw, "IpAddress"@);
    lemma_not_inside(raw, "UniformResourceIdentifier"@);
}

proof fn lemma_not_inside(raw: Seq<char>, kind: Seq<char>)
    requires
        raw.len() == 0 || raw.last() != ')',
    ensures
        inside(raw, kind) is None,
{
    if let Some(r) = stripped_prefix(raw, kind + "("@) {
        if r.len() > 0 {
            assert(r.last() == raw.last());
        }
    }
}

/// Each verdict on a certificate is told as what it is: the dates apart from each other, the issuer
/// apart from the signature, and a certificate that the application refused as not the pinned one.
/// A failure that is no verdict keeps its words.
pub proof fn verdicts_keep_their_meaning(err: TlsFailure)
    ensures
        failure_of(err) is Expired <==> err is Expired,
        failure_of(err) is NotYetValid <==> err is NotValidYet,
        failure_of(err) is NameMismatch <==> err is NotValidForName,
        failure_of(err) is UnknownIssuer <==> err is UnknownIssuer,
        failure_of(err) is Malformed <==> err is BadEncoding,
        failure_of(err) is Revoked <==> err is Revoked,
        failure_of(err) is BadSignature <==> err is BadSignature,
        failure_of(err) is PinMismatch <==> err is ApplicationVerificationFailure,
        failure_of(err) is Other <==> err is Other || err is OtherCertificate,
        err matches TlsFailure::NotValidForName { presented } ==> (failure_of(
            err,
        ) matches CertFailureView::NameMismatch { presented: names } && names.len()
            == presented@.len() && forall|i: int|
            0 <= i < names.len() ==> #[trigger] names[i] == bare_name(presented@[i]@)),
        err matches TlsFailure::Other(msg) ==> failure_of(err) == CertFailureView::Other(msg@),
{
}

} // verus!
