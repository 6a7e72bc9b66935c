//! IP addresses in their text forms: dotted decimal for version 4 (four octets without leading
//! zeros), the colon-separated groups of RFC 4291 for version 6, written as RFC 5952 recommends.

use crate::text::{
    chars_of, decimal, decimal_text, hex, hex_digit, hex_value, joined,
    is_digit, is_space, lemma_decimal, lemma_find_is, lemma_hex, lemma_hex_len, lemma_joined_pieces,
    lemma_pieces_joined, lemma_unsigned_decimal, number_u8, parse_hex_digit, parse_u8, pieces,
    pieces_of, push_decimal, push_hex, same, texts,
};
use vstd::prelude::*;
use vstd::string::*;

verus! {

/// The four octets of a version 4 address, most significant first.
#[derive(Debug, Clone, Copy, PartialEq, Eq)]
pub struct Ipv4Addr(pub u8, pub u8, pub u8, pub u8);

/// The eight 16-bit groups of a version 6 address, most significant first.
#[derive(Debug, Clone, Copy, PartialEq, Eq)]
pub struct Ipv6Addr(
    pub u16,
    pub u16,
    pub u16,
    pub u16,
    pub u16,
    pub u16,
    pub u16,
    pub u16,
);

/// An IP address of either version.
#[derive(Debug, Clone, Copy, PartialEq, Eq)]
pub enum IpAddr {
    /// A version 4 address.
    V4(Ipv4Addr),
    /// A version 6 address.
    V6(Ipv6Addr),
}

/// A version 4 address and a port.
#[derive(Debug, Clone, Copy, PartialEq, Eq)]
pub struct SocketAddrV4 {
    /// The address.
    pub ip: Ipv4Addr,
    /// The port.
    pub port: u16,
}

/// A version 6 address and a port, with what else tells endpoints of version 6 apart.
#[derive(Debug, Clone, Copy, PartialEq, Eq)]
pub struct SocketAddrV6 {
    /// The address.
    pub ip: Ipv6Addr,
    /// The port.
    pub port: u16,
    /// The flow information.
    pub flowinfo: u32,
    /// The scope in which the address is meant; 0 for none.
    pub scope_id: u32,
}

/// An IP address of either version and a port.
#[derive(Debug, Clone, Copy, PartialEq, Eq)]
pub enum SocketAddr {
    /// A version 4 address and a port.
    V4(SocketAddrV4),
    /// A version 6 address and a port.
    V6(SocketAddrV6),
}

impl Ipv4Addr {
    /// The four octets as texts in decimal notation.
    pub open spec fn parts(self) -> Seq<Seq<char>> {
        seq![
            decimal(self.0 as nat),
            decimal(self.1 as nat),
            decimal(self.2 as nat),
            decimal(self.3 as nat),
        ]
    }

    /// The address in dotted decimal notation.
    pub open spec fn text(self) -> Seq<char> {
        joined(self.parts(), '.')
    }
}

/// The octet that `s` is the decimal notation of; leading zeros and signs are refused.
pub open spec fn octet_of(s: Seq<char>) -> Option<u8> {
    match number_u8(s) {
        Some(n) => if decimal(n as nat) == s {
            Some(n)
        } else {
            None
        },
        None => None,
    }
}

/// The version 4 address that `s` is the text of, if it is one.
pub open spec fn v4_of(s: Seq<char>) -> Option<Ipv4Addr> {
    let p = pieces_of(s, '.');
    if p.len() != 4 {
        None
    } else {
        match (octet_of(p[0]), octet_of(p[1]), octet_of(p[2]), octet_of(p[3])) {
            (Some(a), Some(b), Some(c), Some(d)) => Some(Ipv4Addr(a, b, c, d)),
            _ => None,
        }
    }
}

/// `v4_of` gives `a` on exactly the text of `a`.
pub proof fn lemma_v4_text(a: Ipv4Addr)
    ensures
        v4_of(a.text()) == Some(a),
        forall|i: int| 0 <= i < a.text().len() ==> (#[trigger] a.text()[i]) != ':',
{
    let p = a.parts();
    lemma_decimal(a.0 as nat);
    lemma_decimal(a.1 as nat);
    lemma_decimal(a.2 as nat);
    lemma_decimal(a.3 as nat);
    lemma_unsigned_decimal(a.0 as nat, 255);
    lemma_unsigned_decimal(a.1 as nat, 255);
    lemma_unsigned_decimal(a.2 as nat, 255);
    lemma_unsigned_decimal(a.3 as nat, 255);
    lemma_pieces_joined(p, '.');
    reveal_with_fuel(joined, 5);
    assert(p.skip(1).skip(1).skip(1) == seq![p[3]]);
}

pub proof fn lemma_v4_of(s: Seq<char>, a: Ipv4Addr)
    requires
        v4_of(s) == Some(a),
    ensures
        s == a.text(),
{
    lemma_joined_pieces(s, '.');
    assert(pieces_of(s, '.') == a.parts());
}

fn octet(s: &[char]) -> (res: Option<u8>)
    ensures
        res == octet_of(s@),
{
    match parse_u8(s) {
        Some(n) => {
            let t = decimal_text(n as u64);
            if same(&chars_of(t.as_str()), s) {
                Some(n)
            } else {
                None
            }
        },
        None => None,
    }
}

fn parse_v4(s: &[char]) -> (res: Option<Ipv4Addr>)
    ensures
        res == v4_of(s@),
{
    let p = pieces(s, '.');
    if p.len() != 4 {
        assert(texts(p@).len() == p@.len());
        return None;
    }
    assert(forall|i: int| 0 <= i < 4 ==> texts(p@)[i] == p@[i]@);
    match (octet(&p[0]), octet(&p[1]), octet(&p[2]), octet(&p[3])) {
        (Some(a), Some(b), Some(c), Some(d)) => Some(Ipv4Addr(a, b, c, d)),
        _ => None,
    }
}

impl Ipv4Addr {
    /// Appends the address in dotted decimal notation to `out`.
    pub fn push_text(self, out: &mut String)
        ensures
            final(out)@ == old(out)@ + self.text(),
    {
        push_decimal(out, self.0 as u64);
        out.push('.');
        push_decimal(out, self.1 as u64);
        out.push('.');
        push_decimal(out, self.2 as u64);
        out.push('.');
        push_decimal(out, self.3 as u64);
        proof {
            let p = self.parts();
            reveal_with_fuel(joined, 5);
            assert(p.skip(1).skip(1).skip(1) == seq![p[3]]);
            assert(out@ == old(out)@ + self.text());
        }
    }
}

impl Ipv6Addr {
    /// The eight groups in order.
    pub open spec fn groups(self) -> Seq<u16> {
        seq![self.0, self.1, self.2, self.3, self.4, self.5, self.6, self.7]
    }

    /// The address with the eight groups `g`.
    pub open spec fn of_groups(g: Seq<u16>) -> Self {
        Ipv6Addr(g[0], g[1], g[2], g[3], g[4], g[5], g[6], g[7])
    }
}

/// The group that `s` stands for: one to four hexadecimal digits.
pub open spec fn group_of(s: Seq<char>) -> Option<u16> {
    match hex_value(s) {
        Some(n) => if 1 <= s.len() <= 4 {
            Some(n as u16)
        } else {
            None
        },
        None => None,
    }
}

/// The two groups that an embedded version 4 address fills.
pub open spec fn v4_groups(a: Ipv4Addr) -> Seq<u16> {
    seq![(a.0 * 256 + a.1) as u16, (a.2 * 256 + a.3) as u16]
}

/// The groups that the pieces `p` stand for. The last piece may be a version 4 address when
/// `embedded` holds.
pub open spec fn groups_of(p: Seq<Seq<char>>, embedded: bool) -> Option<Seq<u16>>
    decreases p.len(),
{
    if p.len() == 0 {
        Some(Seq::empty())
    } else if embedded && p.len() == 1 && v4_of(p[0]) is Some {
        Some(v4_groups(v4_of(p[0])->0))
    } else {
        match (group_of(p[0]), groups_of(p.skip(1), embedded)) {
            (Some(g), Some(rest)) => Some(seq![g] + rest),
            _ => None,
        }
    }
}

/// The groups of a colon-separated text; the empty text has none.
pub open spec fn side_groups(s: Seq<char>, embedded: bool) -> Option<Seq<u16>> {
    if s.len() == 0 {
        Some(Seq::empty())
    } else {
        groups_of(pieces_of(s, ':'), embedded)
    }
}

/// Position of the first `::` in `s`, or the length of `s` when there is none.
pub open spec fn find_double(s: Seq<char>) -> nat
    decreases s.len(),
{
    if s.len() == 0 || (s.len() >= 2 && s[0] == ':' && s[1] == ':') {
        0
    } else {
        1 + find_double(s.skip(1))
    }
}

/// `n` zero groups.
pub open spec fn zeros(n: int) -> Seq<u16> {
    Seq::new(n as nat, |i: int| 0u16)
}

/// The version 6 address that `s` is a text of: eight groups, or fewer around one `::` that
/// stands for at least one zero group. A version 4 address may stand for the last two groups.
pub open spec fn v6_of(s: Seq<char>) -> Option<Ipv6Addr> {
    let i = find_double(s) as int;
    if i >= s.len() {
        match groups_of(pieces_of(s, ':'), true) {
            Some(g) => if g.len() == 8 {
                Some(Ipv6Addr::of_groups(g))
            } else {
                None
            },
            None => None,
        }
    } else {
        match (side_groups(s.take(i), false), side_groups(s.skip(i + 2), true)) {
            (Some(h), Some(t)) => if h.len() + t.len() <= 7 {
                Some(Ipv6Addr::of_groups(h + zeros(8 - h.len() - t.len()) + t))
            } else {
                None
            },
            _ => None,
        }
    }
}

/// The address that `s` is a text of, if it is one.
pub open spec fn ip_of(s: Seq<char>) -> Option<IpAddr> {
    match v4_of(s) {
        Some(a) => Some(IpAddr::V4(a)),
        None => match v6_of(s) {
            Some(a) => Some(IpAddr::V6(a)),
            None => None,
        },
    }
}

pub proof fn lemma_find_double(s: Seq<char>)
    ensures
        find_double(s) <= s.len(),
        find_double(s) < s.len() ==> find_double(s) + 2 <= s.len() && s[find_double(s) as int] == ':'
            && s[find_double(s) as int + 1] == ':',
        forall|i: int| 0 <= i < find_double(s) && i + 1 < s.len() ==> !(#[trigger] s[i] == ':' && s[i + 1]
            == ':'),
    decreases s.len(),
{
    if s.len() == 0 || (s.len() >= 2 && s[0] == ':' && s[1] == ':') {
    } else {
        let t = s.skip(1);
        lemma_find_double(t);
        assert forall|i: int| 0 <= i < find_double(s) && i + 1 < s.len() implies !(#[trigger] s[i]
            == ':' && s[i + 1] == ':') by {
            if i > 0 {
                assert(s[i] == t[i - 1]);
                assert(s[i + 1] == t[i]);
            }
        }
    }
}

pub proof fn lemma_find_double_is(s: Seq<char>, n: int)
    requires
        0 <= n <= s.len(),
        n < s.len() ==> n + 2 <= s.len() && s[n] == ':' && s[n + 1] == ':',
        forall|i: int| 0 <= i < n && i + 1 < s.len() ==> !(#[trigger] s[i] == ':' && s[i + 1] == ':'),
    ensures
        find_double(s) == n,
{
    lemma_find_double(s);
    let f = find_double(s) as int;
    if f < n {
        assert(s[f] == ':' && s[f + 1] == ':');
    } else if n < f {
        assert(s[n] == ':');
    }
}

fn position_double(s: &[char]) -> (res: usize)
    ensures
        res == find_double(s@),
        res <= s@.len(),
{
    let mut i: usize = 0;
    while i < s.len()
        invariant
            i <= s@.len(),
            forall|j: int| 0 <= j < i && j + 1 < s@.len() ==> !(#[trigger] s@[j] == ':' && s@[j + 1] == ':'),
        decreases s.len() - i,
    {
        if i + 1 < s.len() && s[i] == ':' && s[i + 1] == ':' {
            proof {
                lemma_find_double_is(s@, i as int);
            }
            return i;
        }
        i += 1;
    }
    proof {
        lemma_find_double_is(s@, i as int);
    }
    i
}

fn group(s: &[char]) -> (res: Option<u16>)
    ensures
        res == group_of(s@),
{
    if s.len() == 0 || s.len() > 4 {
        return None;
    }
    let mut acc: u32 = 0;
    let mut i: usize = 0;
    assert(s@.take(0) == Seq::<char>::empty());
    while i < s.len()
        invariant
            i <= s@.len() <= 4,
            hex_value(s@.take(i as int)) == Some(acc as nat),
            i == 0 ==> acc == 0,
            i == 1 ==> acc < 0x10,
            i == 2 ==> acc < 0x100,
            i == 3 ==> acc < 0x1000,
            i == 4 ==> acc < 0x10000,
        decreases s.len() - i,
    {
        assert(s@.take(i as int + 1).drop_last() == s@.take(i as int));
        assert(s@.take(i as int + 1).last() == s@[i as int]);
        match parse_hex_digit(s[i]) {
            Some(d) => {
                acc = acc * 16 + d as u32;
            },
            None => {
                proof {
                    lemma_bad_hex(s@, i as int);
                }
                return None;
            },
        }
        i += 1;
    }
    assert(s@.take(i as int) == s@);
    Some(acc as u16)
}

proof fn lemma_bad_hex(s: Seq<char>, i: int)
    requires
        0 <= i < s.len(),
        hex_digit(s[i]) is None,
    ensures
        hex_value(s) is None,
    decreases s.len(),
{
    if i < s.len() - 1 {
        lemma_bad_hex(s.drop_last(), i);
    }
}

fn parse_groups(p: &[Vec<char>], embedded: bool) -> (res: Option<Vec<u16>>)
    ensures
        match res {
            Some(g) => groups_of(texts(p@), embedded) == Some(g@),
            None => groups_of(texts(p@), embedded) is None,
        },
    decreases p@.len(),
{
    if p.len() == 0 {
        return Some(Vec::new());
    }
    assert(texts(p@)[0] == p@[0]@);
    assert(texts(p@).skip(1) == texts(p@.skip(1)));
    if embedded && p.len() == 1 {
        if let Some(a) = parse_v4(&p[0]) {
            let mut g: Vec<u16> = Vec::new();
            g.push(a.0 as u16 * 256 + a.1 as u16);
            g.push(a.2 as u16 * 256 + a.3 as u16);
            assert(g@ == v4_groups(a));
            return Some(g);
        }
    }
    let rest = vstd::slice::slice_subrange(p, 1, p.len());
    assert(rest@ == p@.skip(1));
    match (group(&p[0]), parse_groups(rest, embedded)) {
        (Some(first), Some(mut tail)) => {
            let ghost t = tail@;
            tail.insert(0, first);
            assert(tail@ == seq![first] + t);
            Some(tail)
        },
        _ => None,
    }
}

fn parse_side(s: &[char], embedded: bool) -> (res: Option<Vec<u16>>)
    ensures
        match res {
            Some(g) => side_groups(s@, embedded) == Some(g@),
            None => side_groups(s@, embedded) is None,
        },
{
    if s.len() == 0 {
        return Some(Vec::new());
    }
    let p = pieces(s, ':');
    parse_groups(&p, embedded)
}

fn of_groups(g: &Vec<u16>) -> (res: Ipv6Addr)
    requires
        g@.len() == 8,
    ensures
        res == Ipv6Addr::of_groups(g@),
{
    Ipv6Addr(g[0], g[1], g[2], g[3], g[4], g[5], g[6], g[7])
}

fn parse_v6(s: &[char]) -> (res: Option<Ipv6Addr>)
    ensures
        res == v6_of(s@),
{
    let i: usize = position_double(s);
    proof {
        lemma_find_double(s@);
    }
    if i == s.len() {
        let p = pieces(s, ':');
        return match parse_groups(&p, true) {
            Some(g) => if g.len() == 8 {
                Some(of_groups(&g))
            } else {
                None
            },
            None => None,
        };
    }
    let head = vstd::slice::slice_subrange(s, 0, i);
    let tail = vstd::slice::slice_subrange(s, i + 2, s.len());
    assert(head@ == s@.take(i as int));
    assert(tail@ == s@.skip(i as int + 2));
    match (parse_side(head, false), parse_side(tail, true)) {
        (Some(h), Some(t)) => {
            if h.len() > 7 || t.len() > 7 - h.len() {
                return None;
            }
            let mut g: Vec<u16> = Vec::new();
            let mut k: usize = 0;
            while k < 8
                invariant
                    k <= 8,
                    h@.len() + t@.len() <= 7,
                    g@ == (h@ + zeros(8 - h@.len() - t@.len()) + t@).take(k as int),
                decreases 8 - k,
            {
                let v: u16 = if k < h.len() {
                    h[k]
                } else if k < 8 - t.len() {
                    0
                } else {
                    t[k - (8 - t.len())]
                };
                g.push(v);
                k += 1;
            }
            assert(g@ == h@ + zeros(8 - h@.len() - t@.len()) + t@);
            Some(of_groups(&g))
        },
        _ => None,
    }
}

impl IpAddr {
    /// The address that `s` is a text of: dotted decimal, or version 6 groups.
    pub fn parse(s: &str) -> (res: Option<IpAddr>)
        ensures
            res == ip_of(s@),
    {
        parse_ip(&chars_of(s))
    }
}

/// The address that `s` is a text of.
pub fn parse_ip(s: &[char]) -> (res: Option<IpAddr>)
    ensures
        res == ip_of(s@),
{
    match parse_v4(s) {
        Some(a) => Some(IpAddr::V4(a)),
        None => match parse_v6(s) {
            Some(a) => Some(IpAddr::V6(a)),
            None => None,
        },
    }
}

/// How many zero groups stand in `g` from position `i` on, without a gap.
pub open spec fn zero_run(g: Seq<u16>, i: int) -> nat
    decreases g.len() - i,
{
    if 0 <= i < g.len() && g[i] == 0 {
        1 + zero_run(g, i + 1)
    } else {
        0
    }
}

/// Where, from position `i` on, the longest run of zero groups starts; the first of equals.
pub open spec fn longest_run(g: Seq<u16>, i: int) -> int
    decreases g.len() - i,
{
    if 0 <= i < g.len() {
        let later = longest_run(g, i + 1);
        if zero_run(g, i) >= zero_run(g, later) {
            i
        } else {
            later
        }
    } else {
        i
    }
}

/// The groups `g` in hexadecimal notation.
pub open spec fn hexes(g: Seq<u16>) -> Seq<Seq<char>> {
    g.map_values(|x: u16| hex(x as nat))
}

impl Ipv6Addr {
    /// The version 4 address inside a version 4-mapped address.
    pub open spec fn mapped(self) -> Option<Ipv4Addr> {
        if self.0 == 0 && self.1 == 0 && self.2 == 0 && self.3 == 0 && self.4 == 0 && self.5
            == 0xffff {
            Some(
                Ipv4Addr(
                    (self.6 / 256) as u8,
                    (self.6 % 256) as u8,
                    (self.7 / 256) as u8,
                    (self.7 % 256) as u8,
                ),
            )
        } else {
            None
        }
    }

    /// The address as text: a mapped address as `::ffff:` and dotted decimal; else the groups
    /// in hexadecimal, the first longest run of at least two zero groups shortened to `::`.
    pub open spec fn text(self) -> Seq<char> {
        let g = self.groups();
        let b = longest_run(g, 0);
        let n = zero_run(g, b) as int;
        match self.mapped() {
            Some(a) => "::ffff:"@ + a.text(),
            None => if n > 1 {
                joined(hexes(g.take(b)), ':') + "::"@ + joined(hexes(g.skip(b + n)), ':')
            } else {
                joined(hexes(g), ':')
            },
        }
    }
}

impl IpAddr {
    /// The address as text.
    pub open spec fn text(self) -> Seq<char> {
        match self {
            IpAddr::V4(a) => a.text(),
            IpAddr::V6(a) => a.text(),
        }
    }
}

impl SocketAddrV6 {
    /// The scope as text behind the address: a percent sign and its number, or nothing without one.
    pub open spec fn scope_text(self) -> Seq<char> {
        if self.scope_id == 0 {
            Seq::empty()
        } else {
            "%"@ + decimal(self.scope_id as nat)
        }
    }
}

impl SocketAddr {
    /// The address and port as text, a version 6 address and its scope in square brackets.
    pub open spec fn text(self) -> Seq<char> {
        match self {
            SocketAddr::V4(a) => a.ip.text() + ":"@ + decimal(a.port as nat),
            SocketAddr::V6(a) => "["@ + a.ip.text() + a.scope_text() + "]:"@ + decimal(
                a.port as nat,
            ),
        }
    }

    /// The address and the port, without flow information and scope.
    pub open spec fn plain(ip: IpAddr, port: u16) -> Self {
        match ip {
            IpAddr::V4(ip) => SocketAddr::V4(SocketAddrV4 { ip, port }),
            IpAddr::V6(ip) => SocketAddr::V6(SocketAddrV6 { ip, port, flowinfo: 0, scope_id: 0 }),
        }
    }
}

proof fn lemma_zero_run(g: Seq<u16>, i: int)
    requires
        0 <= i <= g.len(),
    ensures
        zero_run(g, i) <= g.len() - i,
        forall|j: int| i <= j < i + zero_run(g, i) ==> g[j] == 0,
    decreases g.len() - i,
{
    if i < g.len() && g[i] == 0 {
        lemma_zero_run(g, i + 1);
    }
}

proof fn lemma_longest_run(g: Seq<u16>, i: int)
    requires
        0 <= i <= g.len(),
    ensures
        i <= longest_run(g, i) <= g.len(),
    decreases g.len() - i,
{
    if i < g.len() {
        lemma_longest_run(g, i + 1);
    }
}

fn run_length(g: &[u16], i: usize) -> (res: usize)
    requires
        i <= g@.len(),
    ensures
        res == zero_run(g@, i as int),
    decreases g@.len() - i,
{
    if i < g.len() && g[i] == 0 {
        let n: usize = run_length(g, i + 1);
        proof {
            lemma_zero_run(g@, i as int + 1);
        }
        1 + n
    } else {
        0
    }
}

fn run_start(g: &[u16], i: usize) -> (res: usize)
    requires
        i <= g@.len(),
    ensures
        res == longest_run(g@, i as int),
        i <= res <= g@.len(),
    decreases g@.len() - i,
{
    if i < g.len() {
        let later: usize = run_start(g, i + 1);
        if run_length(g, i) >= run_length(g, later) {
            i
        } else {
            later
        }
    } else {
        i
    }
}

fn push_groups(out: &mut String, g: &[u16])
    ensures
        final(out)@ == old(out)@ + joined(hexes(g@), ':'),
    decreases g@.len(),
{
    if g.len() == 0 {
        assert(old(out)@ + Seq::<char>::empty() == old(out)@);
        return;
    }
    push_hex(out, g[0] as u64);
    if g.len() > 1 {
        out.push(':');
        let rest = vstd::slice::slice_subrange(g, 1, g.len());
        push_groups(out, rest);
        assert(hexes(g@).skip(1) == hexes(rest@));
        assert(out@ == old(out)@ + joined(hexes(g@), ':'));
    }
}

impl Ipv6Addr {
    /// Appends the address as text to `out`.
    pub fn push_text(self, out: &mut String)
        ensures
            final(out)@ == old(out)@ + self.text(),
    {
        let mut g: Vec<u16> = Vec::new();
        g.push(self.0);
        g.push(self.1);
        g.push(self.2);
        g.push(self.3);
        g.push(self.4);
        g.push(self.5);
        g.push(self.6);
        g.push(self.7);
        assert(g@ == self.groups());
        if self.0 == 0 && self.1 == 0 && self.2 == 0 && self.3 == 0 && self.4 == 0 && self.5
            == 0xffff {
            let a = Ipv4Addr(
                (self.6 / 256) as u8,
                (self.6 % 256) as u8,
                (self.7 / 256) as u8,
                (self.7 % 256) as u8,
            );
            out.append("::ffff:");
            a.push_text(out);
            assert(out@ == old(out)@ + ("::ffff:"@ + a.text()));
            return;
        }
        let b: usize = run_start(&g, 0);
        let n: usize = run_length(&g, b);
        proof {
            lemma_zero_run(g@, b as int);
        }
        if n > 1 {
            let head = vstd::slice::slice_subrange(&g, 0, b);
            let tail = vstd::slice::slice_subrange(&g, b + n, g.len());
            assert(head@ == g@.take(b as int));
            assert(tail@ == g@.skip(b + n));
            push_groups(out, head);
            out.append("::");
            push_groups(out, tail);
            assert(out@ == old(out)@ + self.text());
        } else {
            push_groups(out, &g);
        }
    }
}

impl IpAddr {
    /// Appends the address as text to `out`.
    pub fn push_text(self, out: &mut String)
        ensures
            final(out)@ == old(out)@ + self.text(),
    {
        match self {
            IpAddr::V4(a) => a.push_text(out),
            IpAddr::V6(a) => a.push_text(out),
        }
    }

    /// The address as text.
    pub fn to_text(self) -> (res: String)
        ensures
            res@ == self.text(),
    {
        let mut out = String::new();
        self.push_text(&mut out);
        assert(Seq::<char>::empty() + self.text() == self.text());
        out
    }
}

impl SocketAddr {
    /// An address and a port, without flow information and scope.
    pub fn new(ip: IpAddr, port: u16) -> (res: Self)
        ensures
            res == SocketAddr::plain(ip, port),
    {
        match ip {
            IpAddr::V4(ip) => SocketAddr::V4(SocketAddrV4 { ip, port }),
            IpAddr::V6(ip) => SocketAddr::V6(SocketAddrV6 { ip, port, flowinfo: 0, scope_id: 0 }),
        }
    }

    /// The IP address.
    pub open spec fn spec_ip(self) -> IpAddr {
        match self {
            SocketAddr::V4(a) => IpAddr::V4(a.ip),
            SocketAddr::V6(a) => IpAddr::V6(a.ip),
        }
    }

    /// The port.
    pub open spec fn spec_port(self) -> u16 {
        match self {
            SocketAddr::V4(a) => a.port,
            SocketAddr::V6(a) => a.port,
        }
    }

    /// The IP address.
    #[verifier::when_used_as_spec(spec_ip)]
    pub fn ip(self) -> (res: IpAddr)
        ensures
            res == self.spec_ip(),
    {
        match self {
            SocketAddr::V4(a) => IpAddr::V4(a.ip),
            SocketAddr::V6(a) => IpAddr::V6(a.ip),
        }
    }

    /// The port.
    #[verifier::when_used_as_spec(spec_port)]
    pub fn port(self) -> (res: u16)
        ensures
            res == self.spec_port(),
    {
        match self {
            SocketAddr::V4(a) => a.port,
            SocketAddr::V6(a) => a.port,
        }
    }

    /// The address and port as text, a version 6 address and its scope in square brackets.
    pub fn to_text(self) -> (res: String)
        ensures
            res@ == self.text(),
    {
        let mut out = String::new();
        match self {
            SocketAddr::V4(a) => {
                a.ip.push_text(&mut out);
                out.append(":");
            },
            SocketAddr::V6(a) => {
                out.append("[");
                a.ip.push_text(&mut out);
                if a.scope_id != 0 {
                    out.append("%");
                    push_decimal(&mut out, a.scope_id as u64);
                }
                out.append("]:");
            },
        }
        push_decimal(&mut out, self.port() as u64);
        assert(out@ == self.text());
        out
    }
}

proof fn lemma_hex_group(x: u16)
    ensures
        group_of(hex(x as nat)) == Some(x),
        v4_of(hex(x as nat)) is None,
        hex(x as nat).len() >= 1,
        forall|i: int| 0 <= i < hex(x as nat).len() ==> #[trigger] hex(x as nat)[i] != ':',
{
    let h = hex(x as nat);
    lemma_hex(x as nat);
    lemma_hex_len(x as nat);
    lemma_find_is(h, '.', h.len() as int);
    assert(pieces_of(h, '.').len() == 1);
}

proof fn lemma_groups_of_hexes(g: Seq<u16>, embedded: bool)
    ensures
        groups_of(hexes(g), embedded) == Some(g),
    decreases g.len(),
{
    if g.len() > 0 {
        lemma_hex_group(g[0]);
        lemma_groups_of_hexes(g.skip(1), embedded);
        assert(hexes(g).skip(1) == hexes(g.skip(1)));
        assert(seq![g[0]] + g.skip(1) == g);
    } else {
        assert(hexes(g) == Seq::<Seq<char>>::empty());
        assert(g == Seq::<u16>::empty());
    }
}

/// A join of hexadecimal groups splits back into them and holds no `::`, nor a colon at either
/// end.
proof fn lemma_joined_hexes(g: Seq<u16>)
    ensures
        g.len() > 0 ==> joined(hexes(g), ':').len() > 0,
        g.len() > 0 ==> joined(hexes(g), ':')[0] != ':' && joined(hexes(g), ':').last() != ':',
        g.len() > 0 ==> pieces_of(joined(hexes(g), ':'), ':') == hexes(g),
        forall|i: int|
            0 <= i && i + 1 < joined(hexes(g), ':').len() ==> !(#[trigger] joined(hexes(g), ':')[i]
                == ':' && joined(hexes(g), ':')[i + 1] == ':'),
    decreases g.len(),
{
    if g.len() > 0 {
        let t = joined(hexes(g), ':');
        let h = hex(g[0] as nat);
        lemma_hex_group(g[0]);
        assert(hexes(g)[0] == h);
        if g.len() > 1 {
            let rest = joined(hexes(g.skip(1)), ':');
            lemma_joined_hexes(g.skip(1));
            assert(hexes(g).skip(1) == hexes(g.skip(1)));
            assert(t == h.push(':') + rest);
            assert forall|i: int| 0 <= i && i + 1 < t.len() implies !(#[trigger] t[i] == ':' && t[i
                + 1] == ':') by {
                if i < h.len() {
                    assert(t[i] == h[i]);
                } else if i > h.len() {
                    assert(t[i] == rest[i - h.len() - 1]);
                    assert(t[i + 1] == rest[i - h.len()]);
                } else {
                    assert(t[i + 1] == rest[0]);
                }
            }
            assert(t.last() == rest.last());
            assert(t[0] == h[0]);
        } else {
            assert(t == h);
            assert forall|i: int| 0 <= i && i + 1 < t.len() implies !(#[trigger] t[i] == ':' && t[i
                + 1] == ':') by {
                assert(t[i] == h[i]);
            }
        }
        assert forall|i: int, j: int|
            0 <= i < hexes(g).len() && 0 <= j < hexes(g)[i].len() implies #[trigger] hexes(g)[i][j]
            != ':' by {
            lemma_hex_group(g[i]);
        }
        lemma_pieces_joined(hexes(g), ':');
    } else {
        assert(joined(hexes(g), ':') == Seq::<char>::empty());
    }
}

proof fn lemma_mapped_text(a: Ipv6Addr)
    requires
        a.mapped() is Some,
    ensures
        v6_of(a.text()) == Some(a),
{
    reveal_strlit("::ffff:");
    let m = a.mapped()->0;
    let t = a.text();
    let tail = t.skip(2);
    lemma_find_double_is(t, 0);
    lemma_v4_text(m);
    lemma_hex_group(0xffffu16);
    let f = seq!['f', 'f', 'f', 'f'];
    let p = seq![f, m.text()];
    assert(tail == f.push(':') + m.text());
    assert(p.skip(1) == seq![m.text()]);
    assert(tail == joined(p, ':')) by {
        reveal_with_fuel(joined, 2);
    }
    assert forall|i: int, j: int| 0 <= i < p.len() && 0 <= j < p[i].len() implies #[trigger] p[i][j]
        != ':' by {
        if i == 1 {
            assert(m.text()[j] != ':');
        }
    }
    lemma_pieces_joined(p, ':');
    assert(group_of(f) == Some(0xffffu16)) by {
        reveal_with_fuel(hex_value, 5);
        assert(f.drop_last().drop_last().drop_last().drop_last() == Seq::<char>::empty());
    }
    assert(groups_of(seq![m.text()], true) == Some(v4_groups(m)));
    assert(groups_of(p, true) == Some(seq![0xffffu16] + v4_groups(m)));
    assert((m.0 * 256 + m.1) as u16 == a.6);
    assert((m.2 * 256 + m.3) as u16 == a.7);
    let g = Seq::<u16>::empty() + zeros(5) + (seq![0xffffu16] + v4_groups(m));
    assert(t.take(0) == Seq::<char>::empty());
    assert(g == a.groups());
}

/// A text parts at its first `::`.
proof fn lemma_parted(h: Seq<char>, u: Seq<char>)
    requires
        h.len() > 0 ==> h.last() != ':',
        forall|i: int| 0 <= i && i + 1 < h.len() ==> !(#[trigger] h[i] == ':' && h[i + 1] == ':'),
    ensures
        ({
            let t = h + "::"@ + u;
            &&& find_double(t) == h.len()
            &&& h.len() + 2 <= t.len()
            &&& t[h.len() as int] == ':'
            &&& t.take(h.len() as int) == h
            &&& t.skip(h.len() as int + 2) == u
        }),
{
    let t = h + "::"@ + u;
    reveal_strlit("::");
    assert forall|i: int| 0 <= i < h.len() && i + 1 < t.len() implies !(#[trigger] t[i] == ':'
        && t[i + 1] == ':') by {
        assert(t[i] == h[i]);
        if i + 1 < h.len() {
            assert(t[i + 1] == h[i + 1]);
        } else {
            assert(h[i] == h.last());
        }
    }
    assert(t[h.len() as int] == ':');
    assert(t[h.len() as int + 1] == ':');
    lemma_find_double_is(t, h.len() as int);
    assert(t.take(h.len() as int) =~= h);
    assert(t.skip(h.len() as int + 2) =~= u);
}

/// A join of hexadecimal groups reads back as one side of a shortened address.
proof fn lemma_side_groups(g: Seq<u16>, embedded: bool)
    ensures
        side_groups(joined(hexes(g), ':'), embedded) == Some(g),
{
    lemma_joined_hexes(g);
    lemma_groups_of_hexes(g, embedded);
    if g.len() == 0 {
        assert(hexes(g) =~= Seq::<Seq<char>>::empty());
        assert(joined(hexes(g), ':') =~= Seq::<char>::empty());
        assert(g =~= Seq::<u16>::empty());
    }
}

/// A text with a shortened run of zero groups reads back.
proof fn lemma_shortened_text(a: Ipv6Addr, b: int, n: int)
    requires
        0 <= b,
        n > 0,
        b + n <= 8,
        forall|j: int| b <= j < b + n ==> a.groups()[j] == 0,
    ensures
        ({
            let g = a.groups();
            let t = joined(hexes(g.take(b)), ':') + "::"@ + joined(hexes(g.skip(b + n)), ':');
            v6_of(t) == Some(a) && v4_of(t) is None
        }),
{
    let g = a.groups();
    let h = joined(hexes(g.take(b)), ':');
    let u = joined(hexes(g.skip(b + n)), ':');
    let t = h + "::"@ + u;
    assert(g.take(b).len() == b);
    assert(g.skip(b + n).len() == 8 - b - n);
    assert(h.len() > 0 ==> h.last() != ':') by {
        lemma_joined_hexes(g.take(b));
        if b == 0 {
            assert(hexes(g.take(b)) =~= Seq::<Seq<char>>::empty());
        }
    }
    assert(forall|i: int|
        0 <= i && i + 1 < h.len() ==> !(#[trigger] h[i] == ':' && h[i + 1] == ':')) by {
        lemma_joined_hexes(g.take(b));
    }
    lemma_parted(h, u);
    lemma_side_groups(g.take(b), false);
    lemma_side_groups(g.skip(b + n), true);
    assert(g.take(b) + zeros(n) + g.skip(b + n) =~= g);
    assert(v6_of(t) == Some(Ipv6Addr::of_groups(g)));
    lemma_colon_is_not_v4(t, h.len() as int);
}

/// Reading the text of a version 6 address gives the address back.
pub proof fn lemma_v6_text(a: Ipv6Addr)
    ensures
        v6_of(a.text()) == Some(a),
        v4_of(a.text()) is None,
{
    let g = a.groups();
    let b = longest_run(g, 0);
    let n = zero_run(g, b) as int;
    let t = a.text();
    lemma_longest_run(g, 0);
    lemma_zero_run(g, b);
    if a.mapped() is Some {
        lemma_mapped_text(a);
        reveal_strlit("::ffff:");
        assert(t[0] == ':');
        lemma_colon_is_not_v4(t, 0);
    } else if n > 1 {
        lemma_shortened_text(a, b, n);
    } else {
        lemma_joined_hexes(g);
        lemma_groups_of_hexes(g, true);
        lemma_find_double_is(t, t.len() as int);
        lemma_joined_has_colon(hexes(g));
        let i = choose|i: int| 0 <= i < t.len() && t[i] == ':';
        lemma_colon_is_not_v4(t, i);
    }
}

proof fn lemma_joined_has_colon(p: Seq<Seq<char>>)
    requires
        p.len() >= 2,
    ensures
        exists|i: int| 0 <= i < joined(p, ':').len() && joined(p, ':')[i] == ':',
{
    assert(joined(p, ':')[p[0].len() as int] == ':');
}

proof fn lemma_colon_is_not_v4(s: Seq<char>, i: int)
    requires
        0 <= i < s.len(),
        s[i] == ':',
    ensures
        v4_of(s) is None,
{
    if let Some(a) = v4_of(s) {
        lemma_v4_of(s, a);
        lemma_v4_text(a);
    }
}

proof fn lemma_joined_no_space(p: Seq<Seq<char>>, c: char)
    requires
        !is_space(c),
        forall|i: int, j: int|
            0 <= i < p.len() && 0 <= j < p[i].len() ==> !is_space(#[trigger] p[i][j]),
    ensures
        forall|i: int| 0 <= i < joined(p, c).len() ==> !is_space(#[trigger] joined(p, c)[i]),
    decreases p.len(),
{
    let t = joined(p, c);
    if p.len() == 1 {
        assert forall|i: int| 0 <= i < t.len() implies !is_space(#[trigger] t[i]) by {
            assert(p[0][i] == t[i]);
        }
    } else if p.len() > 1 {
        let rest = p.skip(1);
        assert forall|i: int, j: int|
            0 <= i < rest.len() && 0 <= j < rest[i].len() implies !is_space(
            #[trigger] rest[i][j],
        ) by {
            assert(!is_space(p[i + 1][j]));
        }
        lemma_joined_no_space(rest, c);
        assert forall|i: int| 0 <= i < t.len() implies !is_space(#[trigger] t[i]) by {
            if i < p[0].len() {
                assert(p[0][i] == t[i]);
            } else if i > p[0].len() {
                assert(t[i] == joined(rest, c)[i - p[0].len() - 1]);
            }
        }
    }
}

proof fn lemma_hexes_no_space(g: Seq<u16>)
    ensures
        forall|i: int|
            0 <= i < joined(hexes(g), ':').len() ==> !is_space(#[trigger] joined(hexes(g), ':')[i]),
{
    assert forall|i: int, j: int|
        0 <= i < hexes(g).len() && 0 <= j < hexes(g)[i].len() implies !is_space(
        #[trigger] hexes(g)[i][j],
    ) by {
        lemma_hex(g[i] as nat);
    }
    lemma_joined_no_space(hexes(g), ':');
}

proof fn lemma_v4_is_a_word(a: Ipv4Addr)
    ensures
        a.text().len() > 0,
        forall|i: int| 0 <= i < a.text().len() ==> !is_space(#[trigger] a.text()[i]),
{
    let p = a.parts();
    lemma_decimal(a.0 as nat);
    lemma_decimal(a.1 as nat);
    lemma_decimal(a.2 as nat);
    lemma_decimal(a.3 as nat);
    assert forall|i: int, j: int| 0 <= i < p.len() && 0 <= j < p[i].len() implies !is_space(
        #[trigger] p[i][j],
    ) by {
        assert(is_digit(p[i][j]));
    }
    lemma_joined_no_space(p, '.');
}

/// The text of a version 4 address holds digits and dots alone.
pub proof fn lemma_v4_chars(a: Ipv4Addr)
    ensures
        a.text().len() > 0,
        forall|i: int|
            0 <= i < a.text().len() ==> is_digit(#[trigger] a.text()[i]) || a.text()[i] == '.',
{
    let (p0, p1) = (decimal(a.0 as nat), decimal(a.1 as nat));
    let (p2, p3) = (decimal(a.2 as nat), decimal(a.3 as nat));
    lemma_decimal(a.0 as nat);
    lemma_decimal(a.1 as nat);
    lemma_decimal(a.2 as nat);
    lemma_decimal(a.3 as nat);
    assert(a.text() =~= p0.push('.') + (p1.push('.') + (p2.push('.') + p3))) by {
        reveal_with_fuel(joined, 4);
        assert(a.parts().skip(1) =~= seq![p1, p2, p3]);
        assert(seq![p1, p2, p3].skip(1) =~= seq![p2, p3]);
        assert(seq![p2, p3].skip(1) =~= seq![p3]);
    }
}

/// The text of an address is one word.
pub proof fn lemma_ip_is_a_word(a: IpAddr)
    ensures
        a.text().len() > 0,
        forall|i: int| 0 <= i < a.text().len() ==> !is_space(#[trigger] a.text()[i]),
{
    match a {
        IpAddr::V4(v4) => {
            lemma_v4_is_a_word(v4);
        },
        IpAddr::V6(v6) => {
            let g = v6.groups();
            let b = longest_run(g, 0);
            let n = zero_run(g, b) as int;
            reveal_strlit("::ffff:");
            reveal_strlit("::");
            if let Some(m) = v6.mapped() {
                lemma_v4_is_a_word(m);
                let t = "::ffff:"@ + m.text();
                assert forall|i: int| 0 <= i < t.len() implies !is_space(#[trigger] t[i]) by {
                    if i >= 7 {
                        assert(t[i] == m.text()[i - 7]);
                    }
                }
            } else {
                lemma_hexes_no_space(g);
                lemma_hexes_no_space(g.take(b));
                lemma_hexes_no_space(g.skip(b + n));
                lemma_joined_hexes(g);
            }
        },
    }
}

/// Reading the text of an address gives the address back.
pub proof fn ip_text_reads_back(a: IpAddr)
    ensures
        ip_of(a.text()) == Some(a),
{
    match a {
        IpAddr::V4(v4) => {
            lemma_v4_text(v4);
        },
        IpAddr::V6(v6) => {
            lemma_v6_text(v6);
        },
    }
}

proof fn lemma_run_ends(g: Seq<u16>, i: int)
    requires
        0 <= i <= g.len(),
    ensures
        i + zero_run(g, i) < g.len() ==> g[i + zero_run(g, i)] != 0,
    decreases g.len() - i,
{
    if i < g.len() && g[i] == 0 {
        lemma_run_ends(g, i + 1);
    }
}

proof fn lemma_run_is_longest(g: Seq<u16>, i: int)
    requires
        0 <= i <= g.len(),
    ensures
        i <= longest_run(g, i) <= g.len(),
        forall|j: int| i <= j < longest_run(g, i) ==> #[trigger] zero_run(g, j) < zero_run(
            g,
            longest_run(g, i),
        ),
        forall|j: int| longest_run(g, i) <= j < g.len() ==> #[trigger] zero_run(g, j) <= zero_run(
            g,
            longest_run(g, i),
        ),
    decreases g.len() - i,
{
    if i < g.len() {
        lemma_run_is_longest(g, i + 1);
    }
}

/// What `::` stands for in the text of an address: a run of zero groups from its first to its last,
/// longer than every run before it and no shorter than any after it. A single zero group is written
/// out.
pub proof fn first_longest_run_is_shortened(a: Ipv6Addr)
    ensures
        ({
            let g = a.groups();
            let b = longest_run(g, 0);
            let n = zero_run(g, b) as int;
            &&& 0 <= b && b + n <= 8
            &&& forall|j: int| b <= j < b + n ==> #[trigger] g[j] == 0
            &&& b + n < 8 ==> g[b + n] != 0
            &&& forall|j: int| 0 <= j < b ==> #[trigger] zero_run(g, j) < n
            &&& forall|j: int| b <= j < 8 ==> #[trigger] zero_run(g, j) <= n
            &&& a.mapped() is None && n > 1 ==> a.text() == joined(hexes(g.take(b)), ':') + "::"@
                + joined(hexes(g.skip(b + n)), ':')
            &&& a.mapped() is None && n <= 1 ==> a.text() == joined(hexes(g), ':')
        }),
{
    let g = a.groups();
    let b = longest_run(g, 0);
    lemma_run_is_longest(g, 0);
    lemma_zero_run(g, b);
    lemma_run_ends(g, b);
}

/// A mapped address holds the four bytes of the version 4 address in its last two groups, and its
/// text shows that address.
pub proof fn mapped_addresses_show_their_bytes(a: Ipv4Addr)
    ensures
        ({
            let m = Ipv6Addr(
                0,
                0,
                0,
                0,
                0,
                0xffff,
                (a.0 * 256 + a.1) as u16,
                (a.2 * 256 + a.3) as u16,
            );
            m.mapped() == Some(a) && m.text() == "::ffff:"@ + a.text()
        }),
        a.text() == decimal(a.0 as nat) + "."@ + decimal(a.1 as nat) + "."@ + decimal(a.2 as nat)
            + "."@ + decimal(a.3 as nat),
{
    reveal_strlit(".");
    reveal_with_fuel(joined, 5);
    let p = a.parts();
    assert(p.skip(1).skip(1).skip(1) =~= seq![p[3]]);
    assert(p.skip(1).skip(1) =~= seq![p[2], p[3]]);
    assert(p.skip(1) =~= seq![p[1], p[2], p[3]]);
    assert(a.text() =~= decimal(a.0 as nat) + "."@ + decimal(a.1 as nat) + "."@ + decimal(
        a.2 as nat,
    ) + "."@ + decimal(a.3 as nat));
}

/// The text of an address and port ends with the port; before the colon stands a version 4 address
/// as it is, and a version 6 address in brackets, with its scope if it has one.
pub proof fn ports_follow_the_address(ip: IpAddr, port: u16, scope: u32, flow: u32)
    ensures
        ip is V4 ==> SocketAddr::plain(ip, port).text() == ip.text() + ":"@ + decimal(port as nat),
        ip is V6 ==> SocketAddr::plain(ip, port).text() == "["@ + ip.text() + "]:"@ + decimal(
            port as nat,
        ),
        ip matches IpAddr::V6(a) ==> (scope != 0 ==> SocketAddr::V6(
            SocketAddrV6 { ip: a, port, flowinfo: flow, scope_id: scope },
        ).text() == "["@ + ip.text() + "%"@ + decimal(scope as nat) + "]:"@ + decimal(
            port as nat,
        )),
        SocketAddr::plain(ip, port).ip() == ip,
        SocketAddr::plain(ip, port).port() == port,
{
    if let IpAddr::V6(a) = ip {
        assert("["@ + a.text() + Seq::<char>::empty() =~= "["@ + a.text());
        assert("["@ + a.text() + ("%"@ + decimal(scope as nat)) =~= "["@ + a.text() + "%"@
            + decimal(scope as nat));
    }
}

} // verus!
