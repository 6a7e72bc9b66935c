//! Call transfer: the `Refer-To` header (RFC 3515) for blind and, with `Replaces` (RFC 3891), for
//! attended transfer, and the status lines in which the transferee reports back.

use crate::headers::Uri;
use crate::message::{Header, HeaderView};
use crate::text::{
    chars_of, decode, digit_char, has_prefix, lines, lines_of, number_u16, parse_u16, starts_with,
    texts, trim, trimmed, words, words_of,
};
use vstd::prelude::*;
use vstd::string::*;
use vstd::utf8::*;

verus! {

/// The identity of the consultation dialog, as this side sees it.
#[derive(Clone, Debug, PartialEq, Eq)]
pub struct DialogTriplet {
    /// The `Call-ID`.
    pub call_id: String,
    /// The tag of this side.
    pub local_tag: String,
    /// The tag of the transfer target.
    pub remote_tag: String,
}

/// Builds the `Refer-To` header that names the target of a blind transfer.
pub fn refer_to_header(target: &Uri) -> (res: Header)
    ensures
        res@ == HeaderView::other("Refer-To"@, "<"@ + target@.text + ">"@),
{
    let mut value = String::from_str("<");
    value.append(target.text.as_str());
    value.append(">");
    Header::other("Refer-To", value.as_str())
}

/// The digit for `n` in upper-case hexadecimal, for `n` below sixteen.
pub open spec fn upper_hex(n: nat) -> char {
    if n < 10 {
        digit_char(n)
    } else {
        ((n + 55) as u32) as char
    }
}

/// Whether the byte may stand unescaped: a letter, a digit, `-`, `_`, `.` or `~`.
pub open spec fn is_unreserved(b: u8) -> bool {
    ||| 65 <= b <= 90
    ||| 97 <= b <= 122
    ||| 48 <= b <= 57
    ||| b == 45
    ||| b == 95
    ||| b == 46
    ||| b == 126
}

/// A byte as it stands, or as a percent sign and two hexadecimal digits.
pub open spec fn escaped_byte(b: u8) -> Seq<char> {
    if is_unreserved(b) {
        seq![b as char]
    } else {
        seq!['%', upper_hex((b / 16) as nat), upper_hex((b % 16) as nat)]
    }
}

/// Bytes with everything that is reserved escaped.
pub open spec fn escaped(b: Seq<u8>) -> Seq<char>
    decreases b.len(),
{
    if b.len() == 0 {
        Seq::empty()
    } else {
        escaped(b.drop_last()) + escaped_byte(b.last())
    }
}

fn upper_hex_char(n: u8) -> (res: char)
    requires
        n < 16,
    ensures
        res == upper_hex(n as nat),
{
    if n < 10 {
        (48 + n) as char
    } else {
        (55 + n) as char
    }
}

/// Percent-escapes a SIP URI header value: everything but letters, digits and `-_.~`.
pub fn escape_uri_header_value(s: &str) -> (res: String)
    ensures
        res@ == escaped(encode_utf8(s@)),
{
    let bytes = s.as_bytes();
    let mut out = String::new();
    let mut i: usize = 0;
    assert(bytes@.take(0) =~= Seq::<u8>::empty());
    while i < bytes.len()
        invariant
            i <= bytes@.len(),
            out@ == escaped(bytes@.take(i as int)),
        decreases bytes.len() - i,
    {
        let b: u8 = bytes[i];
        let ghost before = out@;
        if (65 <= b && b <= 90) || (97 <= b && b <= 122) || (48 <= b && b <= 57) || b == 45 || b
            == 95 || b == 46 || b == 126 {
            out.push(b as char);
        } else {
            out.push('%');
            out.push(upper_hex_char(b / 16));
            out.push(upper_hex_char(b % 16));
        }
        proof {
            let next = bytes@.take(i as int + 1);
            assert(next.drop_last() =~= bytes@.take(i as int));
            assert(next.last() == b);
            assert(out@ =~= before + escaped_byte(b));
        }
        i += 1;
    }
    assert(bytes@.take(i as int) =~= bytes@);
    out
}

/// The `Replaces` value from the target's point of view: its own tag, this side's remote tag, is
/// the to-tag.
pub open spec fn replaces_text(call_id: Seq<char>, local_tag: Seq<char>, remote_tag: Seq<char>) -> Seq<
    char,
> {
    call_id + ";to-tag="@ + remote_tag + ";from-tag="@ + local_tag
}

/// Builds the `Refer-To` header for an attended transfer: the target with an embedded `Replaces`
/// that names the consultation dialog.
pub fn refer_to_with_replaces(target: &Uri, replaces: &DialogTriplet) -> (res: Header)
    ensures
        res@ == HeaderView::other(
            "Refer-To"@,
            "<"@ + target@.text + "?Replaces="@ + escaped(
                encode_utf8(
                    replaces_text(replaces.call_id@, replaces.local_tag@, replaces.remote_tag@),
                ),
            ) + ">"@,
        ),
{
    let mut raw = replaces.call_id.clone();
    raw.append(";to-tag=");
    raw.append(replaces.remote_tag.as_str());
    raw.append(";from-tag=");
    raw.append(replaces.local_tag.as_str());
    let mut value = String::from_str("<");
    value.append(target.text.as_str());
    value.append("?Replaces=");
    value.append(escape_uri_header_value(raw.as_str()).as_str());
    value.append(">");
    Header::other("Refer-To", value.as_str())
}

/// The status code of a sipfrag body: the number after the version on its first line.
pub open spec fn sipfrag_status(body: Seq<u8>) -> Option<u16> {
    let all = lines_of(decode_utf8(body));
    let w = words_of(trimmed(all[0]));
    if valid_utf8(body) && all.len() > 0 && w.len() >= 2 && starts_with(w[0], "SIP/"@) {
        number_u16(w[1])
    } else {
        None
    }
}

/// Parses the SIP status code out of a `message/sipfrag` body, such as `SIP/2.0 200 OK`. `None` if
/// the body is no status line.
pub fn parse_sipfrag_status(body: &[u8]) -> (res: Option<u16>)
    ensures
        res == sipfrag_status(body@),
{
    let text = match decode(body) {
        Ok(t) => chars_of(t),
        Err(_) => return None,
    };
    let all = lines(&text);
    assert(texts(all@).len() == all@.len());
    if all.len() == 0 {
        return None;
    }
    assert(texts(all@)[0] == all@[0]@);
    let w = words(trim(&all[0]));
    assert(texts(w@).len() == w@.len());
    if w.len() < 2 {
        return None;
    }
    assert(texts(w@)[0] == w@[0]@ && texts(w@)[1] == w@[1]@);
    if !has_prefix(&w[0], "SIP/") {
        return None;
    }
    parse_u16(&w[1])
}

/// Whether a sipfrag status code is the final result of a transfer.
pub fn is_final_sipfrag(code: u16) -> (res: bool)
    ensures
        res == (code >= 200),
{
    code >= 200
}

/// An escaped text holds nothing but letters, digits, `-_.~` and percent signs, so it stands
/// safely inside a URI.
pub proof fn escaped_text_is_safe(b: Seq<u8>, i: int)
    requires
        0 <= i < escaped(b).len(),
    ensures
        escaped(b)[i] == '%' || ((escaped(b)[i] as u32) < 128 && is_unreserved(
            escaped(b)[i] as u8,
        )),
    decreases b.len(),
{
    let init = escaped(b.drop_last());
    if i < init.len() {
        escaped_text_is_safe(b.drop_last(), i);
    } else {
        let x = b.last();
        assert(escaped(b)[i] == escaped_byte(x)[i - init.len()]);
    }
}

/// In a `Replaces` value the tag of the transfer target is the to-tag and the tag of this side the
/// from-tag: the target sees the dialog from its own end.
pub proof fn replaces_is_seen_from_the_target(
    call_id: Seq<char>,
    local_tag: Seq<char>,
    remote_tag: Seq<char>,
)
    ensures
        call_id.is_prefix_of(replaces_text(call_id, local_tag, remote_tag)),
        (";from-tag="@ + local_tag).is_suffix_of(replaces_text(call_id, local_tag, remote_tag)),
        replaces_text(call_id, local_tag, remote_tag) == call_id + (";to-tag="@ + remote_tag) + (
        ";from-tag="@ + local_tag),
{
    let t = replaces_text(call_id, local_tag, remote_tag);
    assert(t =~= call_id + (";to-tag="@ + remote_tag) + (";from-tag="@ + local_tag));
    assert(call_id.is_prefix_of(t));
    assert((";from-tag="@ + local_tag).is_suffix_of(t));
}

proof fn lemma_escaped_front(b: Seq<u8>)
    requires
        b.len() > 0,
    ensures
        escaped(b) == escaped_byte(b[0]) + escaped(b.skip(1)),
    decreases b.len(),
{
    if b.len() == 1 {
        assert(b.drop_last() =~= Seq::<u8>::empty());
        assert(b.skip(1) =~= Seq::<u8>::empty());
        assert(escaped(b.drop_last()) =~= Seq::<char>::empty());
        assert(escaped(b.skip(1)) =~= Seq::<char>::empty());
        assert(escaped(b) =~= escaped_byte(b[0]) + escaped(b.skip(1)));
    } else {
        lemma_escaped_front(b.drop_last());
        assert(b.drop_last().skip(1) =~= b.skip(1).drop_last());
        assert(b.skip(1).last() == b.last());
        assert(escaped(b) =~= escaped_byte(b[0]) + escaped(b.skip(1)));
    }
}

proof fn lemma_upper_hex(x: nat, y: nat)
    requires
        x < 16,
        y < 16,
        upper_hex(x) == upper_hex(y),
    ensures
        x == y,
{
    assert(upper_hex(x) as u32 == if x < 10 {
        x + 48
    } else {
        x + 55
    });
    assert(upper_hex(y) as u32 == if y < 10 {
        y + 48
    } else {
        y + 55
    });
}

proof fn lemma_first_byte(x: u8, y: u8, s: Seq<char>, t: Seq<char>)
    requires
        escaped_byte(x) + s == escaped_byte(y) + t,
    ensures
        x == y,
        s == t,
{
    let p = escaped_byte(x) + s;
    let q = escaped_byte(y) + t;
    assert(p[0] == q[0]);
    if is_unreserved(x) {
        assert(p[0] == x as char);
        assert(x as char != '%');
        assert(is_unreserved(y));
        assert(q[0] == y as char);
        assert(x == y);
    } else {
        assert(p[0] == '%');
        if is_unreserved(y) {
            assert(q[0] == y as char);
            assert(false);
        }
        assert(p[1] == q[1] && p[2] == q[2]);
        lemma_upper_hex((x / 16) as nat, (y / 16) as nat);
        lemma_upper_hex((x % 16) as nat, (y % 16) as nat);
        assert(x == y);
    }
    let n = escaped_byte(x).len() as int;
    assert(p.skip(n) =~= s);
    assert(q.skip(n) =~= t);
}

/// Escaping loses nothing: different bytes have different escaped texts.
pub proof fn escaping_loses_nothing(a: Seq<u8>, b: Seq<u8>)
    requires
        escaped(a) == escaped(b),
    ensures
        a == b,
    decreases a.len(),
{
    if a.len() > 0 {
        lemma_escaped_front(a);
    }
    if b.len() > 0 {
        lemma_escaped_front(b);
    }
    if a.len() == 0 || b.len() == 0 {
        assert(escaped(Seq::<u8>::empty()).len() == 0);
        if a.len() == 0 {
            assert(escaped(a).len() == 0);
        }
        if b.len() == 0 {
            assert(escaped(b).len() == 0);
        }
        assert(a =~= b);
    } else {
        lemma_first_byte(a[0], b[0], escaped(a.skip(1)), escaped(b.skip(1)));
        escaping_loses_nothing(a.skip(1), b.skip(1));
        assert(a =~= seq![a[0]] + a.skip(1));
        assert(b =~= seq![b[0]] + b.skip(1));
    }
}

/// A text that needs no escape stays as it is, and one byte that needs one becomes a percent sign
/// and its two digits in hexadecimal.
pub proof fn only_reserved_bytes_are_escaped(b: Seq<u8>, x: u8)
    requires
        forall|i: int| 0 <= i < b.len() ==> is_unreserved(#[trigger] b[i]),
        !is_unreserved(x),
    ensures
        escaped(b).len() == b.len(),
        forall|i: int| 0 <= i < b.len() ==> #[trigger] escaped(b)[i] == b[i] as char,
        escaped(b.push(x)) == escaped(b) + seq![
            '%',
            upper_hex((x / 16) as nat),
            upper_hex((x % 16) as nat),
        ],
    decreases b.len(),
{
    assert(b.push(x).drop_last() =~= b);
    if b.len() > 0 {
        let init = b.drop_last();
        assert forall|i: int| 0 <= i < init.len() implies is_unreserved(#[trigger] init[i]) by {
            assert(is_unreserved(b[i]));
        }
        only_reserved_bytes_are_escaped(init, x);
        assert(is_unreserved(b[b.len() - 1]));
        assert forall|i: int| 0 <= i < b.len() implies #[trigger] escaped(b)[i] == b[i] as char by {
            if i < init.len() {
                assert(escaped(init)[i] == init[i] as char);
            }
        }
    }
}

/// The status code of a status line reads back, whatever its reason.
pub proof fn sipfrag_status_reads_back(code: u16, reason: Seq<char>)
    requires
        reason.len() > 0,
        forall|i: int| 0 <= i < reason.len() ==> !crate::text::is_space(#[trigger] reason[i]),
    ensures
        sipfrag_status(
            encode_utf8("SIP/2.0 "@ + crate::text::decimal(code as nat) + " "@ + reason),
        ) == Some(code),
{
    let d = crate::text::decimal(code as nat);
    let line = "SIP/2.0 "@ + d + " "@ + reason;
    let v = "SIP/2.0"@;
    reveal_strlit("SIP/2.0 ");
    reveal_strlit("SIP/2.0");
    reveal_strlit("SIP/");
    reveal_strlit(" ");
    crate::text::lemma_decimal(code as nat);
    crate::text::lemma_unsigned_decimal(code as nat, 65535);
    encode_utf8_valid_utf8(line);
    encode_utf8_decode_utf8(line);
    let p = seq![v, d, reason];
    assert(p.skip(1) =~= seq![d, reason]);
    assert(seq![d, reason].skip(1) =~= seq![reason]);
    reveal_with_fuel(crate::text::joined, 3);
    assert(line =~= crate::text::joined(p, ' '));
    assert forall|i: int, j: int|
        0 <= i < p.len() && 0 <= j < p[i].len() implies !crate::text::is_space(#[trigger] p[i][j]) by {
        if i == 1 {
            assert(crate::text::is_digit(d[j]));
        } else if i == 2 {
            assert(!crate::text::is_space(reason[j]));
        }
    }
    crate::text::lemma_words_joined(p);
    crate::text::lemma_trimmed(line);
    assert forall|i: int| 0 <= i < line.len() implies line[i] != '\n' by {
        if 8 <= i < 8 + d.len() {
            assert(crate::text::is_digit(d[i - 8]));
        } else if i > 8 + d.len() {
            assert(!crate::text::is_space(reason[i - 9 - d.len()]));
        }
    }
    crate::text::lemma_find_is(line, '\n', line.len() as int);
    assert(lines_of(line) =~= seq![line]);
    assert(v.subrange(0, 4) =~= "SIP/"@);
}

/// The bytes that need no escape are the letters, the digits, and the four marks of a URI.
pub proof fn letters_digits_and_marks_stay(b: u8)
    ensures
        is_unreserved(b) <==> {
            let c = b as char;
            ||| 'a' as u32 <= c as u32 <= 'z' as u32
            ||| 'A' as u32 <= c as u32 <= 'Z' as u32
            ||| '0' as u32 <= c as u32 <= '9' as u32
            ||| "-_.~"@.contains(c)
        },
{
    reveal_strlit("-_.~");
    let m = "-_.~"@;
    assert(m[0] == '-' && m[1] == '_' && m[2] == '.' && m[3] == '~');
    if m.contains(b as char) {
        let i = choose|i: int| 0 <= i < m.len() && m[i] == b as char;
        assert(i == 0 || i == 1 || i == 2 || i == 3);
    }
}

/// Escapes are written with the digits and capital letters.
pub proof fn escapes_are_in_capitals(n: nat)
    requires
        n < 16,
    ensures
        upper_hex(n) == "0123456789ABCDEF"@[n as int],
{
    reveal_strlit("0123456789ABCDEF");
}

} // verus!
