//! Runtime SIP account configuration: just what is needed to register with a SIP server.

use crate::text::{chars_of, decimal, hex_digit, parse_hex_digit, push_decimal};
use vstd::prelude::*;
use vstd::string::*;
use vstd::utf8::*;

verus! {

/// Transport protocol for SIP signalling.
#[derive(Debug, Clone, Copy, PartialEq, Eq, Structural)]
#[non_exhaustive]
pub enum Transport {
    /// SIP over UDP, the default.
    Udp,
    /// SIP over TCP.
    Tcp,
    /// SIP over TLS (RFC 3261). Defaults to port 5061 and is located via `_sips._tcp` SRV
    /// records.
    Tls,
}

impl Default for Transport {
    fn default() -> (res: Self)
        ensures
            res == Transport::Udp,
    {
        Transport::Udp
    }
}

/// How to decide whether to trust a TLS server's certificate. There is no variant that skips
/// verification.
#[derive(Debug, Clone, PartialEq, Eq)]
#[non_exhaustive]
pub enum TlsPolicy {
    /// Validate against the operating system's trust store.
    SystemRoots,
    /// Accept exactly one certificate, by SHA-256 of its DER encoding.
    Pinned {
        /// The pinned fingerprint.
        sha256: [u8; 32],
    },
}

impl Default for TlsPolicy {
    fn default() -> (res: Self)
        ensures
            res == TlsPolicy::SystemRoots,
    {
        TlsPolicy::SystemRoots
    }
}

/// The bytes that pairs of hexadecimal digits stand for; `None` when a character is no such
/// digit.
pub open spec fn hex_bytes(s: Seq<char>) -> Option<Seq<u8>>
    decreases s.len(),
{
    if s.len() == 0 {
        Some(Seq::empty())
    } else if s.len() == 1 {
        None
    } else {
        match (hex_digit(s[0]), hex_digit(s[1]), hex_bytes(s.skip(2))) {
            (Some(a), Some(b), Some(rest)) => Some(seq![(a * 16 + b) as u8] + rest),
            _ => None,
        }
    }
}

/// The digest that a text of 64 hexadecimal digits stands for, or what is wrong with the text.
pub open spec fn digest_of(s: Seq<char>) -> Result<Seq<u8>, Seq<char>> {
    let bytes = encode_utf8(s).len();
    if bytes != 64 {
        Err("expected a 64-character hex string, got "@ + decimal(bytes) + " characters"@)
    } else {
        match hex_bytes(s) {
            Some(b) => Ok(b),
            None => Err("`"@ + s + "` is not valid hex"@),
        }
    }
}

proof fn lemma_hex_bytes(s: Seq<char>)
    ensures
        hex_bytes(s) is Some ==> hex_bytes(s)->0.len() * 2 == s.len(),
        hex_bytes(s) is Some <==> s.len() % 2 == 0 && forall|i: int|
            0 <= i < s.len() ==> hex_digit(#[trigger] s[i]) is Some,
    decreases s.len(),
{
    if s.len() >= 2 {
        let t = s.skip(2);
        lemma_hex_bytes(t);
        if hex_bytes(s) is Some {
            assert forall|i: int| 0 <= i < s.len() implies hex_digit(#[trigger] s[i]) is Some by {
                if i >= 2 {
                    assert(s[i] == t[i - 2]);
                }
            }
        }
        if s.len() % 2 == 0 && forall|i: int|
            0 <= i < s.len() ==> hex_digit(#[trigger] s[i]) is Some {
            assert forall|i: int| 0 <= i < t.len() implies hex_digit(#[trigger] t[i]) is Some by {
                assert(t[i] == s[i + 2]);
            }
            assert(hex_digit(s[0]) is Some && hex_digit(s[1]) is Some);
        }
    } else if s.len() == 1 {
        assert(hex_bytes(s) is None);
    }
}

/// Appending a pair of digits appends the byte.
pub proof fn lemma_hex_bytes_push(s: Seq<char>, a: char, b: char)
    requires
        hex_bytes(s) is Some,
        hex_digit(a) is Some,
        hex_digit(b) is Some,
    ensures
        hex_bytes(s.push(a).push(b)) == Some(
            hex_bytes(s)->0.push((hex_digit(a)->0 * 16 + hex_digit(b)->0) as u8),
        ),
    decreases s.len(),
{
    let t = s.push(a).push(b);
    let byte = (hex_digit(a)->0 * 16 + hex_digit(b)->0) as u8;
    if s.len() >= 2 {
        lemma_hex_bytes_push(s.skip(2), a, b);
        assert(t.skip(2) == s.skip(2).push(a).push(b));
        let head = (hex_digit(s[0])->0 * 16 + hex_digit(s[1])->0) as u8;
        assert(seq![head] + hex_bytes(s.skip(2))->0.push(byte) == (seq![head] + hex_bytes(
            s.skip(2),
        )->0).push(byte));
    } else {
        assert(t.skip(2) == Seq::<char>::empty());
        assert(hex_bytes(t.skip(2)) == Some(Seq::<u8>::empty()));
        assert(hex_bytes(t) == Some(seq![byte] + Seq::<u8>::empty()));
        assert(seq![byte] + Seq::<u8>::empty() == Seq::<u8>::empty().push(byte));
    }
}

/// A text of hexadecimal digits takes one byte per character.
pub proof fn lemma_hex_is_ascii(s: Seq<char>)
    requires
        forall|i: int| 0 <= i < s.len() ==> hex_digit(#[trigger] s[i]) is Some,
    ensures
        encode_utf8(s).len() == s.len(),
{
    assert(is_ascii_chars(s)) by {
        assert forall|i: int| 0 <= i < s.len() implies '\0' <= #[trigger] s[i]
            <= '\u{7f}' by {
            assert(hex_digit(s[i]) is Some);
            char_u32_cast(s[i], s[i] as u32);
        }
    }
    is_ascii_chars_encode_utf8(s);
}

fn not_hex(hex: &str) -> (res: String)
    ensures
        res@ == "`"@ + hex@ + "` is not valid hex"@,
{
    let mut message = String::from_str("`");
    message.append(hex);
    message.append("` is not valid hex");
    message
}

/// Parses a text of 64 hexadecimal digits into a 32-byte digest.
pub fn parse_hex_sha256(hex: &str) -> (res: Result<[u8; 32], String>)
    ensures
        match res {
            Ok(b) => digest_of(hex@) == Ok::<Seq<u8>, Seq<char>>(b@),
            Err(e) => digest_of(hex@) == Err::<Seq<u8>, Seq<char>>(e@),
        },
{
    let length: usize = hex.as_bytes().len();
    if length != 64 {
        let mut message = String::from_str("expected a 64-character hex string, got ");
        push_decimal(&mut message, length as u64);
        message.append(" characters");
        return Err(message);
    }
    let s = chars_of(hex);
    let mut i: usize = 0;
    while i < s.len()
        invariant
            i <= s@.len(),
            s@ == hex@,
            encode_utf8(hex@).len() == 64,
            forall|j: int| 0 <= j < i ==> hex_digit(#[trigger] s@[j]) is Some,
        decreases s.len() - i,
    {
        if parse_hex_digit(s[i]).is_none() {
            proof {
                lemma_hex_bytes(s@);
            }
            return Err(not_hex(hex));
        }
        i += 1;
    }
    proof {
        lemma_hex_is_ascii(s@);
        lemma_hex_bytes(s@);
    }
    let mut out: [u8; 32] = [0; 32];
    let mut k: usize = 0;
    assert(s@.take(0) == Seq::<char>::empty());
    assert(out@.take(0) == Seq::<u8>::empty());
    while k < 32
        invariant
            k <= 32,
            s@.len() == 64,
            forall|j: int| 0 <= j < 64 ==> hex_digit(#[trigger] s@[j]) is Some,
            hex_bytes(s@.take(2 * k)) == Some(out@.take(k as int)),
        decreases 32 - k,
    {
        assert(hex_digit(s@[2 * k]) is Some && hex_digit(s@[2 * k + 1]) is Some);
        let a: u8 = match parse_hex_digit(s[2 * k]) {
            Some(d) => d,
            None => 0,
        };
        let b: u8 = match parse_hex_digit(s[2 * k + 1]) {
            Some(d) => d,
            None => 0,
        };
        let ghost before = out@;
        out[k] = a * 16 + b;
        proof {
            lemma_hex_bytes_push(s@.take(2 * k), s@[2 * k], s@[2 * k + 1]);
            assert(s@.take(2 * k).push(s@[2 * k]).push(s@[2 * k + 1]) == s@.take(2 * (k + 1)));
            assert(out@.take(k + 1) == before.take(k as int).push((a * 16 + b) as u8));
        }
        k += 1;
    }
    assert(s@.take(64) == s@);
    assert(out@.take(32) == out@);
    Ok(out)
}

impl TlsPolicy {
    /// Builds [`TlsPolicy::Pinned`] from a fingerprint of 64 hexadecimal digits, the form that
    /// [`crate::tls_error::UntrustedCertificate::fingerprint_hex`] gives. The error says what is
    /// wrong with another text.
    pub fn pinned_from_hex(hex: &str) -> (res: Result<Self, String>)
        ensures
            match res {
                Ok(policy) => policy matches TlsPolicy::Pinned { sha256 } && digest_of(hex@)
                    == Ok::<Seq<u8>, Seq<char>>(sha256@),
                Err(e) => digest_of(hex@) == Err::<Seq<u8>, Seq<char>>(e@),
            },
    {
        match parse_hex_sha256(hex) {
            Ok(sha256) => Ok(TlsPolicy::Pinned { sha256 }),
            Err(e) => Err(e),
        }
    }
}

/// Runtime SIP account. The password is held in memory while the endpoint is registered.
#[derive(Debug, Clone)]
pub struct SipAccount {
    /// Display name in From/Contact headers.
    pub display_name: String,
    /// SIP user, the part before `@` in the address of record.
    pub username: String,
    /// Plaintext password for digest authentication.
    pub password: String,
    /// SIP domain, the part after `@`.
    pub domain: String,
    /// Auth username for digest auth, if different from `username`.
    pub auth_username: Option<String>,
    /// SIP server address, defaults to `domain`.
    pub server: Option<String>,
    /// SIP port.
    pub port: Option<u16>,
    /// Transport protocol.
    pub transport: Transport,
    /// How to verify the server's certificate under [`Transport::Tls`]; ignored for UDP and TCP.
    pub tls_policy: TlsPolicy,
}

/// The text of `first`, or of `other` when there is none.
pub open spec fn text_or(first: Option<String>, other: String) -> Seq<char> {
    match first {
        Some(s) => s@,
        None => other@,
    }
}

impl SipAccount {
    /// The port of the account: the explicit one, else 5061 under TLS and 5060 otherwise.
    pub open spec fn port_number(self) -> u16 {
        match self.port {
            Some(port) => port,
            None => if self.transport == Transport::Tls {
                5061
            } else {
                5060
            },
        }
    }

    /// Auth username: falls back to `username` if not set.
    pub fn auth_username(&self) -> (res: &str)
        ensures
            res@ == text_or(self.auth_username, self.username),
    {
        match &self.auth_username {
            Some(name) => name.as_str(),
            None => self.username.as_str(),
        }
    }

    /// Server address: falls back to `domain` if not set.
    pub fn server(&self) -> (res: &str)
        ensures
            res@ == text_or(self.server, self.domain),
    {
        match &self.server {
            Some(server) => server.as_str(),
            None => self.domain.as_str(),
        }
    }

    /// SIP port: defaults to 5061 under TLS, 5060 otherwise.
    pub fn port(&self) -> (res: u16)
        ensures
            res == self.port_number(),
    {
        match self.port {
            Some(port) => port,
            None => match self.transport {
                Transport::Tls => 5061,
                Transport::Udp | Transport::Tcp => 5060,
            },
        }
    }
}

/// The port of an account is its own if it has one; else TLS has another default than UDP and TCP,
/// which share theirs.
pub proof fn tls_has_a_port_of_its_own(account: SipAccount)
    ensures
        account.port matches Some(p) ==> account.port_number() == p,
        account.port is None ==> (account.port_number() == 5061 <==> account.transport
            == Transport::Tls),
        account.port is None ==> (account.port_number() == 5060 <==> account.transport
            == Transport::Udp || account.transport == Transport::Tcp),
{
}

/// A fingerprint can be pinned exactly when it is 64 hexadecimal digits, in either case; each pair of
/// them, the higher digit first, is one of the 32 bytes.
pub proof fn only_64_digits_can_be_pinned(s: Seq<char>)
    ensures
        digest_of(s) is Ok <==> s.len() == 64 && forall|i: int|
            0 <= i < s.len() ==> hex_digit(#[trigger] s[i]) is Some,
        digest_of(s) matches Ok(b) ==> b.len() == 32 && forall|k: int|
            0 <= k < 32 ==> #[trigger] b[k] == hex_digit(s[2 * k])->0 * 16 + hex_digit(
                s[2 * k + 1],
            )->0,
        encode_utf8(s).len() != 64 ==> digest_of(s) == Err::<Seq<u8>, Seq<char>>(
            "expected a 64-character hex string, got "@ + decimal(encode_utf8(s).len())
                + " characters"@,
        ),
        encode_utf8(s).len() == 64 && !(forall|i: int|
            0 <= i < s.len() ==> hex_digit(#[trigger] s[i]) is Some) ==> digest_of(s) == Err::<
            Seq<u8>,
            Seq<char>,
        >("`"@ + s + "` is not valid hex"@),
{
    lemma_hex_bytes(s);
    if forall|i: int| 0 <= i < s.len() ==> hex_digit(#[trigger] s[i]) is Some {
        lemma_hex_is_ascii(s);
    }
    if let Ok(b) = digest_of(s) {
        lemma_hex_pairs(s);
    }
}

proof fn lemma_hex_pairs(s: Seq<char>)
    requires
        hex_bytes(s) is Some,
    ensures
        forall|k: int|
            0 <= 2 * k < s.len() ==> #[trigger] hex_bytes(s)->0[k] == hex_digit(s[2 * k])->0 * 16
                + hex_digit(s[2 * k + 1])->0,
    decreases s.len(),
{
    if s.len() >= 2 {
        let t = s.skip(2);
        lemma_hex_bytes(s);
        lemma_hex_bytes(t);
        lemma_hex_pairs(t);
        assert forall|k: int| 0 <= 2 * k < s.len() implies #[trigger] hex_bytes(s)->0[k]
            == hex_digit(s[2 * k])->0 * 16 + hex_digit(s[2 * k + 1])->0 by {
            if k > 0 {
                assert(hex_bytes(s)->0[k] == hex_bytes(t)->0[k - 1]);
                assert(t[2 * (k - 1)] == s[2 * k]);
                assert(t[2 * (k - 1) + 1] == s[2 * k + 1]);
            }
        }
    }
}

/// A name that the account sets for a purpose of its own is used for it; without one the general
/// name is.
pub proof fn own_names_win(own: String, general: String)
    ensures
        text_or(Some(own), general) == own@,
        text_or(None, general) == general@,
{
}

} // verus!
