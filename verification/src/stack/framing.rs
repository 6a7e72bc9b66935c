//! Stream framing: turning a byte stream back into discrete SIP messages.
//!
//! A stream transport delivers bytes, so message boundaries are found again: read to the empty
//! line that ends the headers, take `Content-Length` from them, and wait for that many bytes of
//! body.

use crate::message::{copy_bytes, parse, parsed, MessageView, SipMessage};
use crate::text::{
    chars_of, decode, find, lowered, parse_unsigned, position, same, to_lower, trim, trimmed,
    unsigned,
};
use vstd::prelude::*;
use vstd::utf8::*;

verus! {

/// Largest header block that is buffered before the peer is taken for broken.
pub const MAX_HEADER_BYTES: usize = 65536;

/// Why a stream could not be framed. The connection has to be dropped: the next message boundary
/// cannot be found again.
#[derive(Debug, Clone, Copy, PartialEq, Eq, Structural)]
pub enum FramingError {
    /// There is no usable `Content-Length`, which a stream transport requires.
    MissingContentLength,
    /// The header block grew over [`MAX_HEADER_BYTES`] without an end.
    HeadersTooLarge,
    /// The bytes formed a complete block but did not parse as SIP.
    Malformed,
}

impl FramingError {
    /// The error in words.
    pub open spec fn text(self) -> Seq<char> {
        match self {
            FramingError::MissingContentLength =>
                "SIP message on a stream transport has no Content-Length"@,
            FramingError::HeadersTooLarge => "SIP header block exceeded 65536 bytes"@,
            FramingError::Malformed => "could not parse SIP message"@,
        }
    }

    /// The error in words.
    pub fn to_text(&self) -> (res: &'static str)
        ensures
            res@ == self.text(),
    {
        match self {
            FramingError::MissingContentLength =>
                "SIP message on a stream transport has no Content-Length",
            FramingError::HeadersTooLarge => "SIP header block exceeded 65536 bytes",
            FramingError::Malformed => "could not parse SIP message",
        }
    }
}

/// The bytes without leading empty lines, which are keepalives.
pub open spec fn without_keepalives(b: Seq<u8>) -> Seq<u8>
    decreases b.len(),
{
    if b.len() >= 2 && b[0] == 13 && b[1] == 10 {
        without_keepalives(b.skip(2))
    } else {
        b
    }
}

/// Whether an empty line starts at `i`: a line end and another one.
pub open spec fn ends_headers(b: Seq<u8>, i: int) -> bool {
    &&& 0 <= i
    &&& i + 4 <= b.len()
    &&& b[i] == 13
    &&& b[i + 1] == 10
    &&& b[i + 2] == 13
    &&& b[i + 3] == 10
}

/// The offset just past the first end of headers at or after `i`.
pub open spec fn header_end(b: Seq<u8>, i: int) -> Option<int>
    decreases b.len() - i,
{
    if i + 4 > b.len() {
        None
    } else if ends_headers(b, i) {
        Some(i + 4)
    } else {
        header_end(b, i + 1)
    }
}

/// The lines of a header block, split at every carriage return with a line feed.
pub open spec fn crlf_pieces(s: Seq<char>, from: int, i: int) -> Seq<Seq<char>>
    decreases s.len() - i,
{
    if i + 2 > s.len() {
        seq![s.subrange(from, s.len() as int)]
    } else if s[i] == '\r' && s[i + 1] == '\n' {
        seq![s.subrange(from, i)] + crlf_pieces(s, i + 2, i + 2)
    } else {
        crlf_pieces(s, from, i + 1)
    }
}

/// Whether the line is a `Content-Length` header, in its long or compact form.
pub open spec fn is_length_line(line: Seq<char>) -> bool {
    let n = find(line, ':') as int;
    let name = lowered(trimmed(line.take(n)));
    n < line.len() && (name == "content-length"@ || name == "l"@)
}

/// The number that a `Content-Length` line gives.
pub open spec fn line_length(line: Seq<char>) -> Option<usize> {
    match unsigned(trimmed(line.skip(find(line, ':') as int + 1)), usize::MAX as nat) {
        Ok(n) => Some(n as usize),
        Err(_) => None,
    }
}

/// The length that the first `Content-Length` line gives.
pub open spec fn lines_length(lines: Seq<Seq<char>>) -> Option<usize>
    decreases lines.len(),
{
    if lines.len() == 0 {
        None
    } else if is_length_line(lines[0]) {
        line_length(lines[0])
    } else {
        lines_length(lines.skip(1))
    }
}

/// The body length that a header block declares; `None` when it is missing or cannot be read.
pub open spec fn declared_length(headers: Seq<u8>) -> Option<usize> {
    if valid_utf8(headers) {
        lines_length(crlf_pieces(decode_utf8(headers), 0, 0))
    } else {
        None
    }
}

/// What the bytes of a stream hold at their front: the bytes that are left, and a whole message
/// as bytes, nothing yet, or an error.
pub open spec fn framed(b: Seq<u8>) -> (Seq<u8>, Result<Option<Seq<u8>>, FramingError>) {
    let s = without_keepalives(b);
    match header_end(s, 0) {
        None => if s.len() > MAX_HEADER_BYTES {
            (s, Err(FramingError::HeadersTooLarge))
        } else {
            (s, Ok(None))
        },
        Some(end) => match declared_length(s.take(end)) {
            None => (s, Err(FramingError::MissingContentLength)),
            Some(n) => if s.len() < end + n {
                (s, Ok(None))
            } else {
                (s.skip(end + n), Ok(Some(s.take(end + n))))
            },
        },
    }
}

proof fn lemma_header_end(b: Seq<u8>, i: int)
    requires
        0 <= i,
    ensures
        match header_end(b, i) {
            Some(e) => i + 4 <= e <= b.len() && ends_headers(b, e - 4) && forall|j: int|
                i <= j < e - 4 ==> !ends_headers(b, j),
            None => forall|j: int| i <= j ==> !ends_headers(b, j),
        },
    decreases b.len() - i,
{
    if i + 4 <= b.len() && !ends_headers(b, i) {
        lemma_header_end(b, i + 1);
    }
}

proof fn lemma_header_end_is(b: Seq<u8>, e: int)
    requires
        4 <= e,
        ends_headers(b, e - 4),
        forall|j: int| 0 <= j < e - 4 ==> !ends_headers(b, j),
    ensures
        header_end(b, 0) == Some(e),
{
    lemma_header_end(b, 0);
    match header_end(b, 0) {
        Some(f) => {
            if f < e {
                assert(!ends_headers(b, f - 4));
            } else if e < f {
                assert(!ends_headers(b, e - 4));
            }
        },
        None => {
            assert(!ends_headers(b, e - 4));
        },
    }
}

/// Byte offset just past the empty line that ends the header block.
fn find_header_end(buf: &Vec<u8>) -> (res: Option<usize>)
    ensures
        match res {
            Some(e) => header_end(buf@, 0) == Some(e as int) && 4 <= e <= buf@.len(),
            None => header_end(buf@, 0) is None,
        },
{
    let mut i: usize = 0;
    while i < buf.len() && buf.len() - i >= 4
        invariant
            i <= buf@.len(),
            header_end(buf@, i as int) == header_end(buf@, 0),
        decreases buf.len() - i,
    {
        if buf[i] == 13 && buf[i + 1] == 10 && buf[i + 2] == 13 && buf[i + 3] == 10 {
            return Some(i + 4);
        }
        i += 1;
    }
    None
}

/// The lines of a header block.
fn split_lines(s: &Vec<char>) -> (res: Vec<Vec<char>>)
    ensures
        crate::text::texts(res@) == crlf_pieces(s@, 0, 0),
{
    let mut out: Vec<Vec<char>> = Vec::new();
    let mut from: usize = 0;
    let mut i: usize = 0;
    let ghost all = crlf_pieces(s@, 0, 0);
    assert(crate::text::texts(out@) + all =~= all);
    while i < s.len() && s.len() - i >= 2
        invariant
            from <= i <= s@.len(),
            crate::text::texts(out@) + crlf_pieces(s@, from as int, i as int) == all,
        decreases s.len() - i,
    {
        if s[i] == '\r' && s[i + 1] == '\n' {
            let line = crate::text::copy_of(vstd::slice::slice_subrange(s, from, i));
            let ghost before = crate::text::texts(out@);
            let ghost rest = crlf_pieces(s@, i as int + 2, i as int + 2);
            out.push(line);
            assert(crate::text::texts(out@) =~= before.push(line@));
            assert(line@ =~= s@.subrange(from as int, i as int));
            assert(crate::text::texts(out@) + rest =~= before + (seq![line@] + rest));
            i += 2;
            from = i;
        } else {
            i += 1;
        }
    }
    let line = crate::text::copy_of(vstd::slice::slice_subrange(s, from, s.len()));
    let ghost before = crate::text::texts(out@);
    out.push(line);
    assert(crate::text::texts(out@) =~= before.push(line@));
    assert(line@ =~= s@.subrange(from as int, s@.len() as int));
    assert(crate::text::texts(out@) =~= before + seq![line@]);
    out
}

/// The body length that a header block declares, in its long or compact form. Header names are
/// case-insensitive.
pub fn content_length(headers: &[u8]) -> (res: Option<usize>)
    ensures
        res == declared_length(headers@),
{
    let text = match decode(headers) {
        Ok(t) => chars_of(t),
        Err(_) => return None,
    };
    let lines = split_lines(&text);
    let ghost all = crate::text::texts(lines@);
    let mut i: usize = 0;
    assert(all.skip(0) =~= all);
    while i < lines.len()
        invariant
            i <= lines@.len(),
            all == crate::text::texts(lines@),
            lines_length(all.skip(i as int)) == lines_length(all),
            valid_utf8(headers@),
            all == crlf_pieces(decode_utf8(headers@), 0, 0),
        decreases lines.len() - i,
    {
        let line = &lines[i];
        assert(all.skip(i as int)[0] == line@);
        assert(all.skip(i as int).skip(1) =~= all.skip(i as int + 1));
        let n: usize = position(line, ':');
        if n < line.len() {
            let head = vstd::slice::slice_subrange(line, 0, n);
            assert(head@ =~= line@.take(n as int));
            let name = to_lower(trim(head));
            if same(&name, &chars_of("content-length")) || same(&name, &chars_of("l")) {
                let tail = vstd::slice::slice_subrange(line, n + 1, line.len());
                assert(tail@ =~= line@.skip(n as int + 1));
                return match parse_unsigned(trim(tail), usize::MAX as u64) {
                    Ok(v) => Some(v as usize),
                    Err(_) => None,
                };
            }
        }
        i += 1;
    }
    None
}

/// Accumulates stream bytes and yields whole SIP messages.
#[derive(Debug)]
pub struct Framer {
    buf: Vec<u8>,
}

impl View for Framer {
    type V = Seq<u8>;

    closed spec fn view(&self) -> Seq<u8> {
        self.buf@
    }
}

impl Framer {
    /// A framer with an empty buffer.
    pub fn new() -> (res: Self)
        ensures
            res@ == Seq::<u8>::empty(),
    {
        Framer { buf: Vec::new() }
    }

    /// Adds freshly read bytes to the buffer.
    pub fn push(&mut self, bytes: &[u8])
        ensures
            final(self)@ == old(self)@ + bytes@,
    {
        self.buf.extend_from_slice(bytes);
        assert(self.buf@ =~= old(self).buf@ + bytes@);
    }

    /// Drops the first `n` bytes.
    fn drop_front(&mut self, n: usize)
        requires
            n <= old(self)@.len(),
        ensures
            final(self)@ == old(self)@.skip(n as int),
    {
        let rest = copy_bytes(vstd::slice::slice_subrange(&self.buf, n, self.buf.len()));
        assert(rest@ =~= self.buf@.skip(n as int));
        self.buf = rest;
    }

    fn drop_keepalives(&mut self)
        ensures
            final(self)@ == without_keepalives(old(self)@),
    {
        let mut i: usize = 0;
        assert(self.buf@.skip(0) =~= self.buf@);
        while i < self.buf.len() && self.buf.len() - i >= 2 && self.buf[i] == 13 && self.buf[i + 1]
            == 10
            invariant
                i <= self.buf@.len(),
                self.buf@ == old(self)@,
                without_keepalives(self.buf@.skip(i as int)) == without_keepalives(old(self)@),
            decreases self.buf.len() - i,
        {
            assert(self.buf@.skip(i as int).skip(2) =~= self.buf@.skip(i as int + 2));
            i += 2;
        }
        let ghost rest = self.buf@.skip(i as int);
        assert(without_keepalives(rest) == rest);
        self.drop_front(i);
    }

    /// Takes the bytes of the next complete message, if they are buffered. `Ok(None)` means that
    /// more bytes are needed.
    pub fn take_frame(&mut self) -> (res: Result<Option<Vec<u8>>, FramingError>)
        ensures
            ({
                let (rest, out) = framed(old(self)@);
                &&& final(self)@ == rest
                &&& match res {
                    Ok(Some(raw)) => out == Ok::<Option<Seq<u8>>, FramingError>(Some(raw@)),
                    Ok(None) => out == Ok::<Option<Seq<u8>>, FramingError>(None),
                    Err(e) => out == Err::<Option<Seq<u8>>, FramingError>(e),
                }
            }),
    {
        self.drop_keepalives();
        let end: usize = match find_header_end(&self.buf) {
            Some(end) => end,
            None => {
                if self.buf.len() > MAX_HEADER_BYTES {
                    return Err(FramingError::HeadersTooLarge);
                }
                return Ok(None);
            },
        };
        let block = vstd::slice::slice_subrange(&self.buf, 0, end);
        assert(block@ =~= self.buf@.take(end as int));
        let body_len: usize = match content_length(block) {
            Some(n) => n,
            None => return Err(FramingError::MissingContentLength),
        };
        if self.buf.len() - end < body_len {
            return Ok(None);
        }
        let total: usize = end + body_len;
        let raw = copy_bytes(vstd::slice::slice_subrange(&self.buf, 0, total));
        assert(raw@ =~= self.buf@.take(total as int));
        self.drop_front(total);
        Ok(Some(raw))
    }

    /// Takes the next complete message, if one is buffered. `Ok(None)` means that more bytes are
    /// needed; an error means that the stream can no longer be framed.
    pub fn next_message(&mut self) -> (res: Result<Option<SipMessage>, FramingError>)
        ensures
            ({
                let (rest, out) = framed(old(self)@);
                &&& final(self)@ == rest
                &&& match out {
                    Ok(Some(raw)) => match parsed(raw) {
                        Some(m) => res matches Ok(Some(msg)) && msg@ == m,
                        None => res matches Err(e) && e == FramingError::Malformed,
                    },
                    Ok(None) => res matches Ok(None),
                    Err(e) => res matches Err(f) && f == e,
                }
            }),
    {
        match self.take_frame() {
            Ok(Some(raw)) => match parse(&raw) {
                Some(msg) => Ok(Some(msg)),
                None => Err(FramingError::Malformed),
            },
            Ok(None) => Ok(None),
            Err(e) => Err(e),
        }
    }
}

/// The messages that the bytes of a stream hold one after the other, the bytes that are left, and
/// the error at which framing stops, if it does.
pub open spec fn drained(b: Seq<u8>) -> (Seq<MessageView>, Seq<u8>, Option<FramingError>)
    decreases b.len(),
{
    let (rest, out) = framed(b);
    match out {
        Err(e) => (Seq::empty(), rest, Some(e)),
        Ok(None) => (Seq::empty(), rest, None),
        Ok(Some(raw)) => match parsed(raw) {
            None => (Seq::empty(), rest, Some(FramingError::Malformed)),
            Some(m) => if rest.len() < b.len() {
                let (more, left, err) = drained(rest);
                (seq![m] + more, left, err)
            } else {
                (Seq::empty(), rest, None)
            },
        },
    }
}

/// The messages as views.
pub open spec fn message_views(m: Seq<SipMessage>) -> Seq<MessageView> {
    m.map_values(|x: SipMessage| x@)
}

proof fn lemma_framed_shrinks(b: Seq<u8>)
    ensures
        framed(b).1 matches Ok(Some(_)) ==> framed(b).0.len() < b.len(),
{
    lemma_keepalives_shorten(b);
    lemma_header_end(without_keepalives(b), 0);
}

proof fn lemma_keepalives_shorten(b: Seq<u8>)
    ensures
        without_keepalives(b).len() <= b.len(),
    decreases b.len(),
{
    if b.len() >= 2 && b[0] == 13 && b[1] == 10 {
        lemma_keepalives_shorten(b.skip(2));
    }
}

/// What one read from a stream brings: the messages that are complete now, and the error at
/// which the connection has to be dropped, if there is one.
#[derive(Debug)]
pub struct ReadOutcome {
    /// The messages, in order.
    pub messages: Vec<SipMessage>,
    /// Why the stream can no longer be framed.
    pub error: Option<FramingError>,
}

impl Framer {
    /// Takes in freshly read bytes and gives every message that is complete now.
    pub fn on_read(&mut self, bytes: &[u8]) -> (res: ReadOutcome)
        ensures
            (message_views(res.messages@), final(self)@, res.error) == drained(
                old(self)@ + bytes@,
            ),
    {
        self.push(bytes);
        let ghost start = self@;
        let mut messages: Vec<SipMessage> = Vec::new();
        assert(message_views(messages@) + drained(start).0 =~= drained(start).0);
        loop
            invariant
                message_views(messages@) + drained(self@).0 == drained(start).0,
                drained(self@).1 == drained(start).1,
                drained(self@).2 == drained(start).2,
                start == old(self)@ + bytes@,
            decreases self@.len(),
        {
            let ghost before = self@;
            let ghost so_far = message_views(messages@);
            proof {
                lemma_framed_shrinks(before);
            }
            match self.next_message() {
                Ok(Some(msg)) => {
                    messages.push(msg);
                    assert(message_views(messages@) =~= so_far.push(msg@));
                    assert(message_views(messages@) + drained(self@).0 =~= so_far + drained(
                        before,
                    ).0);
                },
                Ok(None) => {
                    assert(so_far + drained(before).0 =~= so_far);
                    return ReadOutcome { messages, error: None };
                },
                Err(e) => {
                    assert(so_far + drained(before).0 =~= so_far);
                    return ReadOutcome { messages, error: Some(e) };
                },
            }
        }
    }
}

proof fn lemma_keepalives_extend(b: Seq<u8>, more: Seq<u8>)
    ensures
        without_keepalives(without_keepalives(b) + more) == without_keepalives(b + more),
        without_keepalives(b).len() >= 2 ==> without_keepalives(b + more) == without_keepalives(b)
            + more,
    decreases b.len(),
{
    if b.len() >= 2 && b[0] == 13 && b[1] == 10 {
        lemma_keepalives_extend(b.skip(2), more);
        assert((b + more).skip(2) =~= b.skip(2) + more);
    }
}

/// A message that is complete comes out the same when more bytes follow it, and while none is
/// complete, looking for one changes nothing for later.
pub proof fn framing_ignores_read_boundaries(b: Seq<u8>, more: Seq<u8>)
    ensures
        framed(b).1 matches Ok(Some(raw)) ==> framed(b + more) == (
            framed(b).0 + more,
            Ok::<Option<Seq<u8>>, FramingError>(Some(raw)),
        ),
        framed(b).1 == Ok::<Option<Seq<u8>>, FramingError>(None) ==> framed(framed(b).0 + more)
            == framed(b + more),
{
    lemma_keepalives_extend(b, more);
    let s = without_keepalives(b);
    if framed(b).1 matches Ok(Some(raw)) {
        let t = s + more;
        lemma_header_end(s, 0);
        let end = header_end(s, 0)->0;
        assert(ends_headers(t, end - 4));
        assert forall|j: int| 0 <= j < end - 4 implies !ends_headers(t, j) by {
            assert(!ends_headers(s, j));
        }
        lemma_header_end_is(t, end);
        assert(t.take(end) =~= s.take(end));
        let n = declared_length(s.take(end))->0;
        assert(t.take(end + n) =~= s.take(end + n));
        assert(t.skip(end + n) =~= s.skip(end + n) + more);
        assert(without_keepalives(b + more) == t);
    }
}

/// Whether no message of a stream has a header block that is over the limit before it ends. The
/// unfinished message at the end, and what follows an error, do not count.
pub open spec fn within_limits(b: Seq<u8>) -> bool
    decreases b.len(),
{
    match header_end(without_keepalives(b), 0) {
        None => true,
        Some(end) => end <= MAX_HEADER_BYTES + 1 && (framed(b).1 matches Ok(Some(raw)) && parsed(
            raw,
        ) is Some && framed(b).0.len() < b.len() ==> within_limits(framed(b).0)),
    }
}

/// The bytes of all reads.
pub open spec fn all_bytes(reads: Seq<Seq<u8>>) -> Seq<u8>
    decreases reads.len(),
{
    if reads.len() == 0 {
        Seq::empty()
    } else {
        reads[0] + all_bytes(reads.skip(1))
    }
}

/// The messages that a framer whose buffer holds `b` gives over several reads, drained after each
/// of them, up to the error at which framing stops, if it does.
pub open spec fn read_in_turn(b: Seq<u8>, reads: Seq<Seq<u8>>) -> (
    Seq<MessageView>,
    Option<FramingError>,
)
    decreases reads.len(),
{
    if reads.len() == 0 {
        (Seq::empty(), None)
    } else {
        let (messages, left, error) = drained(b + reads[0]);
        if error is Some {
            (messages, error)
        } else {
            let (more, last) = read_in_turn(left, reads.skip(1));
            (messages + more, last)
        }
    }
}

/// Draining bytes and then what follows gives what draining all of them gives, as long as no error
/// came up.
proof fn lemma_drained_on(b: Seq<u8>, more: Seq<u8>)
    requires
        drained(b).2 is None,
    ensures
        drained(b + more).0 == drained(b).0 + drained(drained(b).1 + more).0,
        drained(b + more).1 == drained(drained(b).1 + more).1,
        drained(b + more).2 == drained(drained(b).1 + more).2,
        within_limits(b + more) ==> within_limits(drained(b).1 + more),
    decreases b.len(),
{
    framing_ignores_read_boundaries(b, more);
    lemma_framed_shrinks(b);
    lemma_framed_shrinks(b + more);
    let (rest, out) = framed(b);
    match out {
        Ok(Some(raw)) => {
            let m = parsed(raw)->0;
            lemma_drained_on(rest, more);
            lemma_keepalives_extend(b, more);
            lemma_header_end(without_keepalives(b + more), 0);
            assert(drained(b + more).0 == seq![m] + drained(rest + more).0);
            assert(drained(b).0 == seq![m] + drained(rest).0);
            assert(drained(b + more).0 =~= drained(b).0 + drained(drained(b).1 + more).0);
        },
        _ => {
            lemma_framed_shrinks(rest + more);
            lemma_keepalives_extend(b, more);
            assert(drained(b).0 + drained(rest + more).0 =~= drained(rest + more).0);
        },
    }
}

/// An error stays when more bytes follow, and so do the messages before it.
proof fn lemma_error_stays(b: Seq<u8>, more: Seq<u8>)
    requires
        drained(b).2 is Some,
        within_limits(b + more),
    ensures
        drained(b + more).0 == drained(b).0,
        drained(b + more).2 == drained(b).2,
    decreases b.len(),
{
    framing_ignores_read_boundaries(b, more);
    lemma_framed_shrinks(b);
    lemma_framed_shrinks(b + more);
    lemma_keepalives_extend(b, more);
    let (rest, out) = framed(b);
    let s = without_keepalives(b);
    lemma_header_end(s, 0);
    lemma_header_end(s + more, 0);
    match out {
        Ok(Some(raw)) => {
            if parsed(raw) is Some {
                lemma_error_stays(rest, more);
            }
        },
        Ok(None) => {},
        Err(FramingError::MissingContentLength) => {
            let t = s + more;
            let end = header_end(s, 0)->0;
            assert(ends_headers(t, end - 4));
            assert forall|j: int| 0 <= j < end - 4 implies !ends_headers(t, j) by {
                assert(!ends_headers(s, j));
            }
            lemma_header_end_is(t, end);
            assert(t.take(end) =~= s.take(end));
        },
        Err(_) => {
            let t = s + more;
            if header_end(t, 0) is Some {
                let end = header_end(t, 0)->0;
                if end <= s.len() {
                    assert(ends_headers(s, end - 4));
                }
            }
        },
    }
}

proof fn lemma_read_in_turn(b: Seq<u8>, reads: Seq<Seq<u8>>)
    requires
        drained(b).0.len() == 0,
        drained(b).2 is None,
        within_limits(b + all_bytes(reads)),
    ensures
        read_in_turn(b, reads) == (
            drained(b + all_bytes(reads)).0,
            drained(b + all_bytes(reads)).2,
        ),
    decreases reads.len(),
{
    if reads.len() == 0 {
        assert(b + all_bytes(reads) =~= b);
        assert(drained(b).0 =~= Seq::<MessageView>::empty());
    } else {
        let first = b + reads[0];
        let rest = all_bytes(reads.skip(1));
        assert(b + all_bytes(reads) =~= first + rest);
        if drained(first).2 is Some {
            lemma_error_stays(first, rest);
        } else {
            let left = drained(first).1;
            lemma_drained_on(first, rest);
            lemma_drained_on(first, Seq::empty());
            assert(first + Seq::<u8>::empty() =~= first);
            assert(left + Seq::<u8>::empty() =~= left);
            assert(drained(first).0.len() == drained(first).0.len() + drained(left).0.len());
            lemma_read_in_turn(left, reads.skip(1));
        }
    }
}

/// However a stream is cut into reads, the same messages come out in the same order, and framing
/// stops at the same error or at none. The header blocks of its messages must be within the limit:
/// one that is over it may be refused or not, as its end comes with a later read or not.
pub proof fn streams_may_be_cut_anywhere(reads: Seq<Seq<u8>>)
    requires
        within_limits(all_bytes(reads)),
    ensures
        read_in_turn(Seq::empty(), reads) == (
            drained(all_bytes(reads)).0,
            drained(all_bytes(reads)).2,
        ),
{
    let none = Seq::<u8>::empty();
    assert(none + all_bytes(reads) =~= all_bytes(reads));
    assert(without_keepalives(none) == none);
    lemma_read_in_turn(none, reads);
}

/// A header block that declares the length of its body is framed together with that body,
/// whatever follows.
pub proof fn block_and_body_are_one_frame(headers: Seq<u8>, body: Seq<u8>, more: Seq<u8>)
    requires
        headers.len() >= 4,
        ends_headers(headers, headers.len() - 4),
        forall|j: int| 0 <= j < headers.len() - 4 ==> !ends_headers(headers, j),
        !(headers[0] == 13 && headers[1] == 10),
        declared_length(headers) == Some(body.len() as usize),
        body.len() <= usize::MAX,
    ensures
        framed(headers + body + more) == (
            more,
            Ok::<Option<Seq<u8>>, FramingError>(Some(headers + body)),
        ),
{
    let t = headers + body + more;
    let e = headers.len() as int;
    assert(without_keepalives(t) == t);
    assert(ends_headers(t, e - 4));
    assert forall|j: int| 0 <= j < e - 4 implies !ends_headers(t, j) by {
        assert(!ends_headers(headers, j));
    }
    lemma_header_end_is(t, e);
    assert(t.take(e) =~= headers);
    assert(t.take(e + body.len()) =~= headers + body);
    assert(t.skip(e + body.len()) =~= more);
}

/// Empty lines before a message are keepalives and change nothing.
pub proof fn keepalives_are_skipped(b: Seq<u8>)
    ensures
        framed(seq![13u8, 10u8] + b) == framed(b),
{
    assert((seq![13u8, 10u8] + b).skip(2) =~= b);
}

/// The header block ends with the first empty line.
pub proof fn headers_end_at_the_first_empty_line(b: Seq<u8>, e: int)
    ensures
        header_end(b, 0) == Some(e) <==> {
            &&& 4 <= e <= b.len()
            &&& b.subrange(e - 4, e) == seq![13u8, 10u8, 13u8, 10u8]
            &&& forall|j: int|
                0 <= j < e - 4 ==> #[trigger] b.subrange(j, j + 4) != seq![13u8, 10u8, 13u8, 10u8]
        },
{
    lemma_header_end(b, 0);
    let end = seq![13u8, 10u8, 13u8, 10u8];
    assert forall|j: int| 0 <= j && j + 4 <= b.len() implies ends_headers(b, j)
        == (#[trigger] b.subrange(j, j + 4) == end) by {
        let p = b.subrange(j, j + 4);
        assert(p[0] == b[j] && p[1] == b[j + 1] && p[2] == b[j + 2] && p[3] == b[j + 3]);
        if ends_headers(b, j) {
            assert(p =~= end);
        }
    }
    if header_end(b, 0) == Some(e) {
        assert forall|j: int| 0 <= j < e - 4 implies #[trigger] b.subrange(j, j + 4) != end by {
            assert(!ends_headers(b, j));
        }
        assert(b.subrange(e - 4, (e - 4) + 4) == end);
    }
    if 4 <= e <= b.len() && b.subrange(e - 4, e) == end && forall|j: int|
        0 <= j < e - 4 ==> #[trigger] b.subrange(j, j + 4) != end {
        assert(b.subrange(e - 4, (e - 4) + 4) == end);
        assert forall|j: int| 0 <= j < e - 4 implies !ends_headers(b, j) by {
            assert(b.subrange(j, j + 4) != end);
        }
        lemma_header_end_is(b, e);
    }
}

/// A line declares the length of the body under the full name or the compact one, whatever its case
/// and the blanks around it; the number may have blanks around it too.
pub proof fn lengths_are_declared_by_name(label: Seq<char>, n: usize)
    requires
        !label.contains(':'),
    ensures
        is_length_line(label + ": "@ + crate::text::decimal(n as nat)) <==> lowered(trimmed(label))
            == "content-length"@ || lowered(trimmed(label)) == "l"@,
        line_length(label + ": "@ + crate::text::decimal(n as nat)) == Some(n),
        line_length(label + ":"@ + crate::text::decimal(n as nat)) == Some(n),
{
    let d = crate::text::decimal(n as nat);
    reveal_strlit(": ");
    reveal_strlit(":");
    crate::text::lemma_decimal(n as nat);
    crate::text::lemma_unsigned_decimal(n as nat, usize::MAX as nat);
    assert(crate::text::is_digit(d[0]) && crate::text::is_digit(d.last()));
    crate::text::lemma_trimmed(d);
    let a = label + ": "@ + d;
    let b = label + ":"@ + d;
    let k = label.len() as int;
    assert forall|i: int| 0 <= i < k implies a[i] != ':' && b[i] != ':' by {
        assert(label.contains(label[i]));
        assert(a[i] == label[i] && b[i] == label[i]);
    }
    assert(a[k] == ':' && b[k] == ':');
    crate::text::lemma_find_is(a, ':', k);
    crate::text::lemma_find_is(b, ':', k);
    assert(a.take(k) =~= label);
    assert(b.skip(k + 1) =~= d);
    let t = a.skip(k + 1);
    assert(t[0] == ' ');
    assert(t.skip(1) =~= d);
    assert(crate::text::trim_start(t) == crate::text::trim_start(d));
}

/// The first line that declares a length counts; without any there is none.
pub proof fn first_length_counts(lines: Seq<Seq<char>>, i: int)
    requires
        0 <= i <= lines.len(),
        forall|j: int| 0 <= j < i ==> !is_length_line(#[trigger] lines[j]),
        i < lines.len() ==> is_length_line(lines[i]),
    ensures
        lines_length(lines) == if i < lines.len() {
            line_length(lines[i])
        } else {
            None
        },
    decreases i,
{
    if i > 0 {
        assert(!is_length_line(lines[0]));
        let rest = lines.skip(1);
        assert forall|j: int| 0 <= j < i - 1 implies !is_length_line(#[trigger] rest[j]) by {
            assert(rest[j] == lines[j + 1]);
        }
        first_length_counts(rest, i - 1);
    }
}

proof fn lemma_crlf_shift(head: Seq<char>, s: Seq<char>, from: int, i: int)
    requires
        0 <= from <= i,
        from <= s.len(),
    ensures
        crlf_pieces(head + s, head.len() + from, head.len() + i) == crlf_pieces(s, from, i),
    decreases s.len() - i,
{
    let t = head + s;
    let k = head.len() as int;
    if i + 2 > s.len() {
        assert(t.subrange(k + from, t.len() as int) =~= s.subrange(from, s.len() as int));
    } else if s[i] == '\r' && s[i + 1] == '\n' {
        assert(t[k + i] == '\r' && t[k + i + 1] == '\n');
        assert(t.subrange(k + from, k + i) =~= s.subrange(from, i));
        lemma_crlf_shift(head, s, i + 2, i + 2);
    } else {
        assert(t[k + i] == s[i] && t[k + i + 1] == s[i + 1]);
        lemma_crlf_shift(head, s, from, i + 1);
    }
}

proof fn lemma_crlf_run(line: Seq<char>, rest: Seq<char>, i: int)
    requires
        0 <= i <= line.len(),
        !line.contains('\r'),
    ensures
        crlf_pieces(line + "\r\n"@ + rest, 0, i) == seq![line] + crlf_pieces(rest, 0, 0),
    decreases line.len() - i,
{
    reveal_strlit("\r\n");
    let s = line + "\r\n"@ + rest;
    if i < line.len() {
        assert(line.contains(line[i]));
        assert(s[i] == line[i]);
        lemma_crlf_run(line, rest, i + 1);
    } else {
        assert(s[i] == '\r' && s[i + 1] == '\n');
        assert(s.subrange(0, i) =~= line);
        lemma_crlf_shift(line + "\r\n"@, rest, 0, 0);
    }
}

/// A header block is read line by line: a line up to its line break, and then the rest.
pub proof fn blocks_are_read_line_by_line(line: Seq<char>, rest: Seq<char>)
    requires
        !line.contains('\r'),
    ensures
        crlf_pieces(line + "\r\n"@ + rest, 0, 0) == seq![line] + crlf_pieces(rest, 0, 0),
        crlf_pieces(line, 0, 0) == seq![line],
{
    lemma_crlf_run(line, rest, 0);
    lemma_crlf_last(line, 0);
}

proof fn lemma_crlf_last(line: Seq<char>, i: int)
    requires
        0 <= i,
        !line.contains('\r'),
    ensures
        crlf_pieces(line, 0, i) == seq![line],
    decreases line.len() - i,
{
    if i + 2 > line.len() {
        assert(line.subrange(0, line.len() as int) =~= line);
    } else {
        assert(line.contains(line[i]));
        lemma_crlf_last(line, i + 1);
    }
}

/// What framing says of bytes without an end of headers: nothing yet, up to 65536 of them behind the
/// keepalives; then that the headers are too large. A block without a length is refused, and one
/// whose body is not complete waits.
pub proof fn incomplete_streams_wait(b: Seq<u8>)
    ensures
        framed(b).1 == Err::<Option<Seq<u8>>, FramingError>(FramingError::HeadersTooLarge) <==> (
        header_end(without_keepalives(b), 0) is None && without_keepalives(b).len() > 65536),
        framed(b).1 == Err::<Option<Seq<u8>>, FramingError>(FramingError::MissingContentLength)
            <==> (header_end(without_keepalives(b), 0) is Some && declared_length(
            without_keepalives(b).take(header_end(without_keepalives(b), 0)->0),
        ) is None),
        !(framed(b).1 matches Ok(Some(_))) ==> framed(b).0 == without_keepalives(b),
        framed(b).1 matches Ok(Some(raw)) ==> raw + framed(b).0 == without_keepalives(b),
{
    let s = without_keepalives(b);
    lemma_header_end(s, 0);
    if let Ok(Some(raw)) = framed(b).1 {
        assert(raw + framed(b).0 =~= s);
    }
}

/// A stream that cannot be framed is reported with what is wrong with it.
pub proof fn framing_errors_are_told_in_words(e: FramingError)
    ensures
        e == FramingError::MissingContentLength ==> e.text()
            == "SIP message on a stream transport has no Content-Length"@,
        e == FramingError::HeadersTooLarge ==> e.text() == "SIP header block exceeded 65536 bytes"@,
        e == FramingError::Malformed ==> e.text() == "could not parse SIP message"@,
{
}

} // verus!
