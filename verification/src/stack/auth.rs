//! Digest authentication (RFC 3261, 22): reading a `401` or `407` challenge and building the
//! request that answers it. The digest itself is computed by `rsip`.

use crate::headers::{headers_via, opt_text, top_via};
use crate::message::{
    cseq_header, cseq_reads_back, cseq_text, first_value, headers_cseq, lemma_first_value_push,
    lemma_without_kind_gone, lemma_without_kind_keeps, message_cseq, replace_header, without_kind,
    Header, HeaderKind, HeaderView, Method, Request, RequestView, Response, ResponseView,
};
use crate::stack::transaction::{branch_text, gen_branch, TokenCounter};
use crate::text::{
    decimal, decimal_text, hex, hex16, lemma_hex_pair, push_hex, push_hex16, push_padded, zeros,
};
use rsip::headers::auth::{Algorithm as RsipAlgorithm, AuthQop};
use rsip::headers::{ToTypedHeader, UntypedHeader};
use vstd::prelude::*;
use vstd::string::*;

verus! {

/// The username and password a challenge is answered with.
#[derive(Debug, Clone, Copy)]
pub struct Credentials<'a> {
    /// The username.
    pub username: &'a str,
    /// The password.
    pub password: &'a str,
}

/// The hash algorithm of a digest.
#[derive(Debug, Clone, Copy, PartialEq, Eq, Structural)]
pub enum Algorithm {
    Md5,
    Md5Sess,
    Sha256,
    Sha256Sess,
    Sha512,
    Sha512Sess,
}

impl Algorithm {
    /// The algorithm as it goes on the wire.
    pub open spec fn text(self) -> Seq<char> {
        match self {
            Algorithm::Md5 => "MD5"@,
            Algorithm::Md5Sess => "MD5-sess"@,
            Algorithm::Sha256 => "SHA256"@,
            Algorithm::Sha256Sess => "SHA256-sess"@,
            Algorithm::Sha512 => "SHA512"@,
            Algorithm::Sha512Sess => "SHA512-sess"@,
        }
    }

    /// The algorithm as it goes on the wire.
    pub fn name(&self) -> (res: &'static str)
        ensures
            res@ == self.text(),
    {
        match self {
            Algorithm::Md5 => "MD5",
            Algorithm::Md5Sess => "MD5-sess",
            Algorithm::Sha256 => "SHA256",
            Algorithm::Sha256Sess => "SHA256-sess",
            Algorithm::Sha512 => "SHA512",
            Algorithm::Sha512Sess => "SHA512-sess",
        }
    }
}

/// A digest challenge.
#[derive(Debug, Clone, PartialEq, Eq)]
pub struct Challenge {
    /// The protection domain.
    pub realm: String,
    /// The nonce of the server.
    pub nonce: String,
    /// A text to send back.
    pub opaque: Option<String>,
    /// The hash algorithm, if named.
    pub algorithm: Option<Algorithm>,
    /// Whether a quality of protection is offered.
    pub qop: bool,
}

/// A digest challenge, its texts as characters.
pub struct ChallengeView {
    pub realm: Seq<char>,
    pub nonce: Seq<char>,
    pub opaque: Option<Seq<char>>,
    pub algorithm: Option<Algorithm>,
    pub qop: bool,
}

impl View for Challenge {
    type V = ChallengeView;

    open spec fn view(&self) -> ChallengeView {
        ChallengeView {
            realm: self.realm@,
            nonce: self.nonce@,
            opaque: opt_text(self.opaque),
            algorithm: self.algorithm,
            qop: self.qop,
        }
    }
}

/// What `typed` of `rsip::headers::WwwAuthenticate` reads from a value; `None` where it fails.
pub uninterp spec fn www_challenge_of(value: Seq<char>) -> Option<ChallengeView>;

/// Calls `typed` of `rsip::headers::WwwAuthenticate` and takes over the parts of the challenge.
/// The result depends on the value alone.
#[verifier::external_body]
fn read_www_challenge(value: &str) -> (res: Option<Challenge>)
    ensures
        match res {
            Some(c) => www_challenge_of(value@) == Some(c@),
            None => www_challenge_of(value@) is None,
        },
{
    let algorithm = |a| match a {
        RsipAlgorithm::Md5 => Algorithm::Md5,
        RsipAlgorithm::Md5Sess => Algorithm::Md5Sess,
        RsipAlgorithm::Sha256 => Algorithm::Sha256,
        RsipAlgorithm::Sha256Sess => Algorithm::Sha256Sess,
        RsipAlgorithm::Sha512 => Algorithm::Sha512,
        RsipAlgorithm::Sha512Sess => Algorithm::Sha512Sess,
    };
    rsip::headers::WwwAuthenticate::new(value).typed().ok().map(|c| Challenge {
        realm: c.realm, nonce: c.nonce, opaque: c.opaque,
        algorithm: c.algorithm.map(algorithm), qop: c.qop.is_some(),
    })
}

/// What `typed` of `rsip::headers::ProxyAuthenticate` reads from a value; `None` where it fails.
pub uninterp spec fn proxy_challenge_of(value: Seq<char>) -> Option<ChallengeView>;

/// Calls `typed` of `rsip::headers::ProxyAuthenticate` and takes over the parts of the
/// challenge. The result depends on the value alone.
#[verifier::external_body]
fn read_proxy_challenge(value: &str) -> (res: Option<Challenge>)
    ensures
        match res {
            Some(c) => proxy_challenge_of(value@) == Some(c@),
            None => proxy_challenge_of(value@) is None,
        },
{
    let algorithm = |a| match a {
        RsipAlgorithm::Md5 => Algorithm::Md5,
        RsipAlgorithm::Md5Sess => Algorithm::Md5Sess,
        RsipAlgorithm::Sha256 => Algorithm::Sha256,
        RsipAlgorithm::Sha256Sess => Algorithm::Sha256Sess,
        RsipAlgorithm::Sha512 => Algorithm::Sha512,
        RsipAlgorithm::Sha512Sess => Algorithm::Sha512Sess,
    };
    rsip::headers::ProxyAuthenticate::new(value).typed().ok().map(|p| Challenge {
        realm: p.0.realm, nonce: p.0.nonce, opaque: p.0.opaque,
        algorithm: p.0.algorithm.map(algorithm), qop: p.0.qop.is_some(),
    })
}

/// A quality of protection.
#[derive(Debug, Clone, Copy, PartialEq, Eq, Structural)]
pub enum Protection {
    /// The request line is protected.
    Auth,
    /// The body is protected too.
    AuthInt,
}

impl Protection {
    /// The quality of protection as it goes on the wire.
    pub open spec fn text(self) -> Seq<char> {
        match self {
            Protection::Auth => "auth"@,
            Protection::AuthInt => "auth-int"@,
        }
    }

    /// The quality of protection as it goes on the wire.
    pub fn name(&self) -> (res: &'static str)
        ensures
            res@ == self.text(),
    {
        match self {
            Protection::Auth => "auth",
            Protection::AuthInt => "auth-int",
        }
    }
}

/// The quality of protection of an answer, with its client nonce and how often the nonce of the
/// server was used with it.
#[derive(Debug, Clone, Copy)]
pub struct Qop<'a> {
    /// The quality of protection.
    pub protection: Protection,
    /// The client nonce.
    pub cnonce: &'a str,
    /// The count of uses.
    pub nc: u8,
}

/// The quality of protection of an answer, its texts as characters.
pub struct QopView {
    pub protection: Protection,
    pub cnonce: Seq<char>,
    pub nc: u8,
}

impl<'a> View for Qop<'a> {
    type V = QopView;

    open spec fn view(&self) -> QopView {
        QopView { protection: self.protection, cnonce: self.cnonce@, nc: self.nc }
    }
}

/// The parts of an optional quality of protection.
pub open spec fn opt_qop(qop: Option<Qop<'_>>) -> Option<QopView> {
    match qop {
        Some(q) => Some(q@),
        None => None,
    }
}

/// What a digest is computed from, its texts as characters.
pub struct DigestView {
    pub username: Seq<char>,
    pub password: Seq<char>,
    pub realm: Seq<char>,
    pub nonce: Seq<char>,
    pub method: Seq<char>,
    pub uri: Seq<char>,
    pub qop: Option<QopView>,
    pub algorithm: Seq<char>,
}

/// What a digest is computed from.
struct DigestInput<'a> {
    username: &'a str,
    password: &'a str,
    realm: &'a str,
    nonce: &'a str,
    method: &'a str,
    uri: &'a str,
    qop: Option<Qop<'a>>,
    algorithm: &'a str,
}

impl<'a> View for DigestInput<'a> {
    type V = DigestView;

    closed spec fn view(&self) -> DigestView {
        DigestView {
            username: self.username@,
            password: self.password@,
            realm: self.realm@,
            nonce: self.nonce@,
            method: self.method@,
            uri: self.uri@,
            qop: opt_qop(self.qop),
            algorithm: self.algorithm@,
        }
    }
}

/// What `compute` of `rsip::services::DigestGenerator` gives: the response to a challenge.
pub uninterp spec fn digest_of(input: DigestView) -> Seq<char>;

/// Calls `compute` of `rsip::services::DigestGenerator`. The URI is handed over as a host that is
/// written out as it stands; method and algorithm are handed over by names that `rsip` reads. The
/// result depends on the input alone.
#[verifier::external_body]
fn digest(d: &DigestInput<'_>) -> (res: String)
    requires
        exists|m: Method| d@.method == #[trigger] m.text(),
        exists|a: Algorithm| d@.algorithm == #[trigger] a.text(),
    ensures
        res@ == digest_of(d@),
{
    let host = rsip::HostWithPort { host: rsip::Host::Domain(d.uri.into()), port: None };
    let qop = d.qop.map(|q| match q.protection {
        Protection::Auth => AuthQop::Auth { cnonce: q.cnonce.into(), nc: q.nc },
        Protection::AuthInt => AuthQop::AuthInt { cnonce: q.cnonce.into(), nc: q.nc },
    });
    rsip::services::DigestGenerator {
        username: d.username, password: d.password, nonce: d.nonce, realm: d.realm,
        uri: &rsip::Uri { host_with_port: host, ..Default::default() },
        method: &d.method.parse().unwrap(),
        qop: qop.as_ref(),
        algorithm: d.algorithm.parse().unwrap(),
    }.compute()
}

/// Which header carries the answer.
#[derive(Debug, Clone, Copy, PartialEq, Eq, Structural)]
pub enum ChallengeKind {
    /// `401`: answered with `Authorization`.
    Www,
    /// `407`: answered with `Proxy-Authorization`.
    Proxy,
}

impl ChallengeKind {
    /// The header that carries the answer.
    pub open spec fn answer_kind(self) -> HeaderKind {
        match self {
            ChallengeKind::Www => HeaderKind::Authorization,
            ChallengeKind::Proxy => HeaderKind::ProxyAuthorization,
        }
    }
}

/// The challenge of a `401` or `407`; `None` for other responses, and where the challenge is
/// missing or cannot be read.
pub open spec fn challenge_in(r: ResponseView) -> Option<(ChallengeKind, ChallengeView)> {
    if r.status.code == 401 {
        match first_value(r.headers, HeaderKind::WwwAuthenticate) {
            Some(v) => match www_challenge_of(v) {
                Some(c) => Some((ChallengeKind::Www, c)),
                None => None,
            },
            None => None,
        }
    } else if r.status.code == 407 {
        match first_value(r.headers, HeaderKind::ProxyAuthenticate) {
            Some(v) => match proxy_challenge_of(v) {
                Some(c) => Some((ChallengeKind::Proxy, c)),
                None => None,
            },
            None => None,
        }
    } else {
        None
    }
}

/// Reads the challenge of a `401` or `407`.
pub fn extract_challenge(response: &Response) -> (res: Option<(ChallengeKind, Challenge)>)
    ensures
        match res {
            Some((k, c)) => challenge_in(response@) == Some((k, c@)),
            None => challenge_in(response@) is None,
        },
{
    match response.status_code.code {
        401 => match response.header(HeaderKind::WwwAuthenticate) {
            Some(v) => match read_www_challenge(v) {
                Some(c) => Some((ChallengeKind::Www, c)),
                None => None,
            },
            None => None,
        },
        407 => match response.header(HeaderKind::ProxyAuthenticate) {
            Some(v) => match read_proxy_challenge(v) {
                Some(c) => Some((ChallengeKind::Proxy, c)),
                None => None,
            },
            None => None,
        },
        _ => None,
    }
}

/// The algorithm of the answer: the one the challenge names, else MD5.
pub open spec fn answer_algorithm(c: ChallengeView) -> Algorithm {
    match c.algorithm {
        Some(a) => a,
        None => Algorithm::Md5,
    }
}

/// The quality of protection of the answer, when the challenge offers one: `auth`, and the count 1,
/// since each answer has a client nonce of its own.
pub open spec fn answer_qop(c: ChallengeView, cnonce: Seq<char>) -> Option<QopView> {
    if c.qop {
        Some(QopView { protection: Protection::Auth, cnonce, nc: 1 })
    } else {
        None
    }
}

/// The response digest that answers a challenge.
pub open spec fn answer_digest(
    c: ChallengeView,
    username: Seq<char>,
    password: Seq<char>,
    method: Method,
    uri: Seq<char>,
    cnonce: Seq<char>,
) -> Seq<char> {
    digest_of(
        DigestView {
            username,
            password,
            realm: c.realm,
            nonce: c.nonce,
            method: method.text(),
            uri,
            qop: answer_qop(c, cnonce),
            algorithm: answer_algorithm(c).text(),
        },
    )
}

/// A count in eight digits.
pub open spec fn count_text(nc: u8) -> Seq<char> {
    zeros((8 - decimal(nc as nat).len()) as nat) + decimal(nc as nat)
}

/// The parameters that tell the quality of protection of an answer.
pub open spec fn qop_text(qop: QopView) -> Seq<char> {
    ", qop=\""@ + qop.protection.text() + "\", nc="@ + count_text(qop.nc) + ", cnonce=\""@
        + qop.cnonce + "\""@
}

/// The value of the header that answers a challenge with the given response digest and quality of
/// protection.
pub open spec fn authorization_text(
    c: ChallengeView,
    username: Seq<char>,
    uri: Seq<char>,
    response: Seq<char>,
    qop: Option<QopView>,
) -> Seq<char> {
    "Digest username=\""@ + username + "\", realm=\""@ + c.realm + "\", nonce=\""@ + c.nonce
        + "\", uri=\""@ + uri + "\", response=\""@ + response + "\", algorithm="@
        + answer_algorithm(c).text() + match c.opaque {
        Some(o) => ", opaque=\""@ + o + "\""@,
        None => Seq::empty(),
    } + match qop {
        Some(q) => qop_text(q),
        None => Seq::empty(),
    }
}

fn push_qop(out: &mut String, qop: Qop<'_>)
    ensures
        final(out)@ == old(out)@ + qop_text(qop@),
{
    out.append(", qop=\"");
    out.append(qop.protection.name());
    out.append("\", nc=");
    let ghost head = out@;
    let count = decimal_text(qop.nc as u64);
    proof {
        reveal_with_fuel(decimal, 4);
        assert(decimal(qop.nc as nat).len() <= 3);
    }
    push_padded(out, count.as_str(), 8);
    assert(out@ =~= head + count_text(qop.nc));
    out.append(", cnonce=\"");
    out.append(qop.cnonce);
    out.append("\"");
    assert(out@ =~= old(out)@ + qop_text(qop@));
}

/// Writes the value of the header that answers a challenge with the given response digest and
/// quality of protection.
pub fn write_authorization(
    challenge: &Challenge,
    username: &str,
    uri: &str,
    response: &str,
    qop: Option<Qop<'_>>,
) -> (res: String)
    ensures
        res@ == authorization_text(challenge@, username@, uri@, response@, opt_qop(qop)),
{
    let algorithm = match challenge.algorithm {
        Some(a) => a,
        None => Algorithm::Md5,
    };
    let mut out = String::from_str("Digest username=\"");
    out.append(username);
    out.append("\", realm=\"");
    out.append(challenge.realm.as_str());
    out.append("\", nonce=\"");
    out.append(challenge.nonce.as_str());
    out.append("\", uri=\"");
    out.append(uri);
    out.append("\", response=\"");
    out.append(response);
    out.append("\", algorithm=");
    out.append(algorithm.name());
    let ghost head = out@;
    if let Some(o) = &challenge.opaque {
        out.append(", opaque=\"");
        out.append(o.as_str());
        out.append("\"");
        assert(out@ =~= head + (", opaque=\""@ + o@ + "\""@));
    } else {
        assert(out@ =~= head + Seq::<char>::empty());
    }
    let ghost more = out@;
    match qop {
        Some(q) => push_qop(&mut out, q),
        None => {
            assert(out@ =~= more + Seq::<char>::empty());
        },
    }
    out
}

/// Computes the value of the header that answers `challenge`: the digest is computed with the
/// quality of protection, client nonce and count that the header names.
pub fn build_authorization(
    challenge: &Challenge,
    creds: &Credentials<'_>,
    method: Method,
    uri: &str,
    cnonce: &str,
) -> (res: String)
    ensures
        res@ == authorization_text(
            challenge@,
            creds.username@,
            uri@,
            answer_digest(
                challenge@,
                creds.username@,
                creds.password@,
                method,
                uri@,
                cnonce@,
            ),
            answer_qop(challenge@, cnonce@),
        ),
{
    let algorithm = match challenge.algorithm {
        Some(a) => a,
        None => Algorithm::Md5,
    };
    let qop = if challenge.qop {
        Some(Qop { protection: Protection::Auth, cnonce, nc: 1 })
    } else {
        None
    };
    let input = DigestInput {
        username: creds.username,
        password: creds.password,
        realm: challenge.realm.as_str(),
        nonce: challenge.nonce.as_str(),
        method: method.name(),
        uri,
        qop,
        algorithm: algorithm.name(),
    };
    assert(input@.method == method.text());
    assert(input@.algorithm == algorithm.text());
    let response = digest(&input);
    write_authorization(challenge, creds.username, uri, response.as_str(), qop)
}

/// The request that answers a challenge with the header value `authorization`: a transaction of
/// its own, with a fresh branch and the next sequence number; `None` when the top `Via` or the
/// `CSeq` cannot be read.
pub open spec fn retry_with(
    original: RequestView,
    kind: ChallengeKind,
    authorization: Seq<char>,
    branch: Seq<char>,
) -> Option<RequestView> {
    match (top_via(original.headers), message_cseq(original.headers)) {
        (Some(via), Some((seq, method))) => {
            let h1 = without_kind(original.headers, HeaderKind::Via).push(
                HeaderView::known(HeaderKind::Via, via.with_branch(branch).text()),
            );
            let h2 = without_kind(h1, HeaderKind::CSeq).push(
                HeaderView::known(HeaderKind::CSeq, cseq_text((seq + 1) as u32, method)),
            );
            let h3 = without_kind(h2, kind.answer_kind()).push(
                HeaderView::known(kind.answer_kind(), authorization),
            );
            Some(RequestView { headers: h3, ..original })
        },
        _ => None,
    }
}

/// The request that answers the challenge of `response`.
pub open spec fn retry_of(
    original: RequestView,
    response: ResponseView,
    username: Seq<char>,
    password: Seq<char>,
    branch: Seq<char>,
    cnonce: Seq<char>,
) -> Option<RequestView> {
    match challenge_in(response) {
        Some((kind, c)) => retry_with(
            original,
            kind,
            authorization_text(
                c,
                username,
                original.uri,
                answer_digest(c, username, password, original.method, original.uri, cnonce),
                answer_qop(c, cnonce),
            ),
            branch,
        ),
        None => None,
    }
}

/// Builds the request that answers a challenge with the header value `authorization`.
pub fn answer_with(
    original: &Request,
    kind: ChallengeKind,
    authorization: &str,
    branch: &str,
) -> (res: Option<Request>)
    requires
        message_cseq(original@.headers) matches Some((seq, _)) ==> seq < u32::MAX,
    ensures
        match res {
            Some(r) => retry_with(original@, kind, authorization@, branch@) == Some(r@),
            None => retry_with(original@, kind, authorization@, branch@) is None,
        },
{
    let via = match headers_via(&original.headers) {
        Some(via) => via,
        None => return None,
    };
    let (seq, method) = match headers_cseq(&original.headers) {
        Some(c) => c,
        None => return None,
    };
    let mut retry = original.copy();
    let via_text = via.with_branch(branch).to_text();
    replace_header(&mut retry.headers, Header::new(HeaderKind::Via, via_text.as_str()));
    replace_header(&mut retry.headers, cseq_header(seq + 1, method));
    let name = match kind {
        ChallengeKind::Www => HeaderKind::Authorization,
        ChallengeKind::Proxy => HeaderKind::ProxyAuthorization,
    };
    replace_header(&mut retry.headers, Header::new(name, authorization));
    assert(retry@ =~= retry_with(original@, kind, authorization@, branch@)->0);
    Some(retry)
}

/// Builds the request that answers a `401` or `407` with the given branch and client nonce.
pub fn build_retry_with(
    original: &Request,
    response: &Response,
    creds: Credentials<'_>,
    branch: &str,
    cnonce: &str,
) -> (res: Option<Request>)
    requires
        message_cseq(original@.headers) matches Some((seq, _)) ==> seq < u32::MAX,
    ensures
        match res {
            Some(r) => retry_of(
                original@,
                response@,
                creds.username@,
                creds.password@,
                branch@,
                cnonce@,
            ) == Some(r@),
            None => retry_of(
                original@,
                response@,
                creds.username@,
                creds.password@,
                branch@,
                cnonce@,
            ) is None,
        },
{
    let (kind, challenge) = match extract_challenge(response) {
        Some(c) => c,
        None => return None,
    };
    let authorization = build_authorization(
        &challenge,
        &creds,
        original.method,
        original.uri.as_str(),
        cnonce,
    );
    answer_with(original, kind, authorization.as_str(), branch)
}

/// Builds the request that answers a `401` or `407`, or `None` if the response carries no usable
/// challenge. The retry is a transaction of its own: fresh branch, next sequence number.
pub fn build_retry(
    original: &Request,
    response: &Response,
    creds: Credentials<'_>,
    tokens: &mut TokenCounter,
) -> (res: Option<Request>)
    requires
        message_cseq(original@.headers) matches Some((seq, _)) ==> seq < u32::MAX,
    ensures
        final(tokens).made() == old(tokens).made().wrapping_add(1).wrapping_add(1),
        exists|s1: u64, s2: u64|
            retry_of(
                original@,
                response@,
                creds.username@,
                creds.password@,
                #[trigger] branch_text(old(tokens).made(), s1),
                #[trigger] cnonce_text(old(tokens).made().wrapping_add(1), s2),
            ) == match res {
                Some(r) => Some(r@),
                None => None,
            },
        (challenge_in(response@) is None || top_via(original@.headers) is None || message_cseq(
            original@.headers,
        ) is None) <==> res is None,
{
    let branch = gen_branch(tokens);
    let cnonce = gen_cnonce(tokens);
    build_retry_with(original, response, creds, branch.as_str(), cnonce.as_str())
}

/// The client nonce made from a count and a random number.
pub open spec fn cnonce_text(n: u64, seed: u64) -> Seq<char> {
    hex(n as nat) + hex16(seed)
}

/// The client nonce made from a count and a random number.
pub fn cnonce_from(n: u64, seed: u64) -> (res: String)
    ensures
        res@ == cnonce_text(n, seed),
{
    let mut out = String::new();
    push_hex(&mut out, n);
    push_hex16(&mut out, seed);
    assert(out@ =~= cnonce_text(n, seed));
    out
}

/// Makes a client nonce: a hexadecimal token, unique per count.
pub fn gen_cnonce(tokens: &mut TokenCounter) -> (res: String)
    ensures
        exists|seed: u64| res@ == cnonce_text(old(tokens).made(), seed),
        final(tokens).made() == old(tokens).made().wrapping_add(1),
{
    let (n, seed) = tokens.draw();
    let res = cnonce_from(n, seed);
    assert(res@ == cnonce_text(n, seed));
    res
}

/// Client nonces made from different counts differ, whatever the random numbers.
pub proof fn cnonces_are_unique(n1: u64, s1: u64, n2: u64, s2: u64)
    requires
        n1 != n2,
    ensures
        cnonce_text(n1, s1) != cnonce_text(n2, s2),
{
    if cnonce_text(n1, s1) == cnonce_text(n2, s2) {
        lemma_hex_pair(n1, s1, n2, s2);
    }
}

/// The answer to a challenge keeps the method, the URI and the body of the request, raises its
/// sequence number by one, and carries the answer.
pub proof fn retry_is_a_new_attempt(
    original: RequestView,
    kind: ChallengeKind,
    authorization: Seq<char>,
    branch: Seq<char>,
)
    requires
        retry_with(original, kind, authorization, branch) is Some,
        message_cseq(original.headers) matches Some((seq, _)) && seq < u32::MAX,
    ensures
        ({
            let r = retry_with(original, kind, authorization, branch)->0;
            let (seq, method) = message_cseq(original.headers)->0;
            &&& r.method == original.method
            &&& r.uri == original.uri
            &&& r.body == original.body
            &&& message_cseq(r.headers) == Some(((seq + 1) as u32, method))
            &&& first_value(r.headers, kind.answer_kind()) == Some(authorization)
            &&& first_value(r.headers, HeaderKind::Via) == Some(
                top_via(original.headers)->0.with_branch(branch).text(),
            )
        }),
{
    let (seq, method) = message_cseq(original.headers)->0;
    let via = top_via(original.headers)->0;
    let v = HeaderView::known(HeaderKind::Via, via.with_branch(branch).text());
    let c = HeaderView::known(HeaderKind::CSeq, cseq_text((seq + 1) as u32, method));
    let a = HeaderView::known(kind.answer_kind(), authorization);
    let h0 = without_kind(original.headers, HeaderKind::Via);
    let h1 = h0.push(v);
    let g1 = without_kind(h1, HeaderKind::CSeq);
    let h2 = g1.push(c);
    let g2 = without_kind(h2, kind.answer_kind());
    lemma_without_kind_gone(original.headers, HeaderKind::Via);
    lemma_first_value_push(h0, v, HeaderKind::Via);
    lemma_without_kind_keeps(h1, HeaderKind::CSeq, HeaderKind::Via);
    lemma_first_value_push(g1, c, HeaderKind::Via);
    lemma_without_kind_keeps(h2, kind.answer_kind(), HeaderKind::Via);
    lemma_first_value_push(g2, a, HeaderKind::Via);
    lemma_without_kind_gone(h1, HeaderKind::CSeq);
    lemma_first_value_push(g1, c, HeaderKind::CSeq);
    lemma_without_kind_keeps(h2, kind.answer_kind(), HeaderKind::CSeq);
    lemma_first_value_push(g2, a, HeaderKind::CSeq);
    lemma_without_kind_gone(h2, kind.answer_kind());
    lemma_first_value_push(g2, a, kind.answer_kind());
    cseq_reads_back((seq + 1) as u32, method);
}

/// The answer to a challenge proves that the password is known for the very request that is sent:
/// its `response` is the digest of the method and the URI of that request, the realm and the nonce
/// of the challenge, and the credentials. It is computed with the algorithm of the challenge, MD5
/// when it names none, and with the quality of protection and client nonce that the answer names. A
/// 401 is answered in `Authorization`, a 407 in `Proxy-Authorization`.
pub proof fn answer_proves_the_request(
    original: RequestView,
    response: ResponseView,
    username: Seq<char>,
    password: Seq<char>,
    branch: Seq<char>,
    cnonce: Seq<char>,
    challenge: ChallengeView,
)
    requires
        message_cseq(original.headers) matches Some((seq, _)) && seq < u32::MAX,
        top_via(original.headers) is Some,
        response.status.code == 401 ==> (first_value(response.headers, HeaderKind::WwwAuthenticate)
            matches Some(v) && www_challenge_of(v) == Some(challenge)),
        response.status.code == 407 ==> (first_value(
            response.headers,
            HeaderKind::ProxyAuthenticate,
        ) matches Some(v) && proxy_challenge_of(v) == Some(challenge)),
        response.status.code == 401 || response.status.code == 407,
    ensures
        ({
            let retry = retry_of(original, response, username, password, branch, cnonce)->0;
            let algorithm = match challenge.algorithm {
                Some(a) => a.text(),
                None => "MD5"@,
            };
            let proof_of = digest_of(
                DigestView {
                    username,
                    password,
                    realm: challenge.realm,
                    nonce: challenge.nonce,
                    method: retry.method.text(),
                    uri: retry.uri,
                    qop: if challenge.qop {
                        Some(QopView { protection: Protection::Auth, cnonce, nc: 1 })
                    } else {
                        None
                    },
                    algorithm,
                },
            );
            let value = "Digest username=\""@ + username + "\", realm=\""@ + challenge.realm
                + "\", nonce=\""@ + challenge.nonce + "\", uri=\""@ + retry.uri + "\", response=\""@
                + proof_of + "\", algorithm="@ + algorithm + match challenge.opaque {
                Some(o) => ", opaque=\""@ + o + "\""@,
                None => Seq::empty(),
            } + if challenge.qop {
                ", qop=\"auth\", nc=00000001, cnonce=\""@ + cnonce + "\""@
            } else {
                Seq::empty()
            };
            &&& retry_of(original, response, username, password, branch, cnonce) is Some
            &&& retry.method == original.method
            &&& retry.uri == original.uri
            &&& first_value(
                retry.headers,
                if response.status.code == 401 {
                    HeaderKind::Authorization
                } else {
                    HeaderKind::ProxyAuthorization
                },
            ) == Some(value)
        }),
{
    let (kind, c) = challenge_in(response)->0;
    let authorization = authorization_text(
        c,
        username,
        original.uri,
        answer_digest(c, username, password, original.method, original.uri, cnonce),
        answer_qop(c, cnonce),
    );
    retry_is_a_new_attempt(original, kind, authorization, branch);
    if c.qop {
        lemma_qop_text(cnonce);
    }
}

proof fn lemma_qop_text(cnonce: Seq<char>)
    ensures
        qop_text(QopView { protection: Protection::Auth, cnonce, nc: 1 })
            == ", qop=\"auth\", nc=00000001, cnonce=\""@ + cnonce + "\""@,
{
    reveal_strlit(", qop=\"");
    reveal_strlit("auth");
    reveal_strlit("\", nc=");
    reveal_strlit(", cnonce=\"");
    reveal_strlit(", qop=\"auth\", nc=00000001, cnonce=\"");
    reveal_with_fuel(decimal, 2);
    assert(decimal(1) =~= seq!['1']);
    assert(zeros(7) =~= seq!['0', '0', '0', '0', '0', '0', '0']);
    assert(count_text(1) =~= seq!['0', '0', '0', '0', '0', '0', '0', '1']);
    assert(", qop=\""@ + "auth"@ + "\", nc="@ + count_text(1) + ", cnonce=\""@
        =~= ", qop=\"auth\", nc=00000001, cnonce=\""@);
}

/// The answer to a challenge keeps every header of the request but its `Via`, its `CSeq` and an
/// earlier answer: in particular who calls whom, and in which call. The sent-by of the `Via` stays,
/// with the new branch.
pub proof fn retry_keeps_the_call(
    original: RequestView,
    kind: ChallengeKind,
    authorization: Seq<char>,
    branch: Seq<char>,
    header: HeaderKind,
)
    requires
        retry_with(original, kind, authorization, branch) is Some,
        header != HeaderKind::Via,
        header != HeaderKind::CSeq,
        header != kind.answer_kind(),
    ensures
        ({
            let r = retry_with(original, kind, authorization, branch)->0;
            let old_via = top_via(original.headers)->0;
            let new_via = old_via.with_branch(branch);
            &&& first_value(r.headers, header) == first_value(original.headers, header)
            &&& r.version == original.version
            &&& new_via.branch == Some(branch)
            &&& new_via.sent_by == old_via.sent_by
            &&& new_via.protocol == old_via.protocol
            &&& new_via.uri == old_via.uri
        }),
{
    let (seq, method) = message_cseq(original.headers)->0;
    let via = top_via(original.headers)->0;
    let v = HeaderView::known(HeaderKind::Via, via.with_branch(branch).text());
    let c = HeaderView::known(HeaderKind::CSeq, cseq_text((seq + 1) as u32, method));
    let a = HeaderView::known(kind.answer_kind(), authorization);
    let h0 = without_kind(original.headers, HeaderKind::Via);
    let h1 = h0.push(v);
    let g1 = without_kind(h1, HeaderKind::CSeq);
    let h2 = g1.push(c);
    let g2 = without_kind(h2, kind.answer_kind());
    lemma_without_kind_keeps(original.headers, HeaderKind::Via, header);
    lemma_first_value_push(h0, v, header);
    lemma_without_kind_keeps(h1, HeaderKind::CSeq, header);
    lemma_first_value_push(g1, c, header);
    lemma_without_kind_keeps(h2, kind.answer_kind(), header);
    lemma_first_value_push(g2, a, header);
}

/// The session variant of an algorithm is named after it.
pub proof fn algorithms_are_named_on_the_wire(algorithm: Algorithm)
    ensures
        match algorithm {
            Algorithm::Md5 => algorithm.text() == "MD5"@,
            Algorithm::Sha256 => algorithm.text() == "SHA256"@,
            Algorithm::Sha512 => algorithm.text() == "SHA512"@,
            Algorithm::Md5Sess => algorithm.text() == Algorithm::Md5.text() + "-sess"@,
            Algorithm::Sha256Sess => algorithm.text() == Algorithm::Sha256.text() + "-sess"@,
            Algorithm::Sha512Sess => algorithm.text() == Algorithm::Sha512.text() + "-sess"@,
        },
{
    reveal_strlit("MD5");
    reveal_strlit("MD5-sess");
    reveal_strlit("SHA256");
    reveal_strlit("SHA256-sess");
    reveal_strlit("SHA512");
    reveal_strlit("SHA512-sess");
    reveal_strlit("-sess");
    assert("MD5-sess"@ =~= "MD5"@ + "-sess"@);
    assert("SHA256-sess"@ =~= "SHA256"@ + "-sess"@);
    assert("SHA512-sess"@ =~= "SHA512"@ + "-sess"@);
}

} // verus!
