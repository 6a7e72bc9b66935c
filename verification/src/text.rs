//! Text primitives: whitespace, trimming, splitting into lines and words, and the decimal and
//! hexadecimal notations. Every function works on sequences of characters and says exactly
//! which sequence it returns.

use vstd::prelude::*;
use vstd::utf8::*;

verus! {

/// `String::push` appends one character and changes nothing else.
pub assume_specification[ String::push ](s: &mut String, ch: char)
    ensures
        final(s)@ == old(s)@.push(ch),
;

/// What `std::str::from_utf8` says of bytes that are not UTF-8: the text of its error.
pub uninterp spec fn utf8_error(bytes: Seq<u8>) -> Seq<char>;

/// Calls `std::str::from_utf8`, which gives the text that the bytes encode exactly when they
/// are valid UTF-8, and else an error whose text depends on the bytes alone.
#[verifier::external_body]
pub(crate) fn decode(bytes: &[u8]) -> (res: Result<&str, String>)
    ensures
        match res {
            Ok(s) => valid_utf8(bytes@) && s@ == decode_utf8(bytes@),
            Err(e) => !valid_utf8(bytes@) && e@ == utf8_error(bytes@),
        },
{
    std::str::from_utf8(bytes).map_err(|e| e.to_string())
}

/// How the `Debug` impl of `str` writes a text: in quotation marks, with escapes.
pub uninterp spec fn debug_text(s: Seq<char>) -> Seq<char>;

/// Writes a text with the `Debug` impl of `str`. The result depends on the text alone.
#[verifier::external_body]
pub(crate) fn quoted(s: &str) -> (res: String)
    ensures
        res@ == debug_text(s@),
{
    format!("{:?}", s)
}

/// Whether `c` has the Unicode `White_Space` property.
pub open spec fn is_space(c: char) -> bool {
    let n = c as u32;
    ||| 0x9 <= n <= 0xd
    ||| n == 0x20
    ||| n == 0x85
    ||| n == 0xa0
    ||| n == 0x1680
    ||| 0x2000 <= n <= 0x200a
    ||| n == 0x2028
    ||| n == 0x2029
    ||| n == 0x202f
    ||| n == 0x205f
    ||| n == 0x3000
}

/// The characters of every text in `v`.
pub open spec fn texts(v: Seq<Vec<char>>) -> Seq<Seq<char>> {
    v.map_values(|t: Vec<char>| t@)
}

/// The characters of every string in `v`.
pub open spec fn strings(v: Seq<String>) -> Seq<Seq<char>> {
    v.map_values(|t: String| t@)
}

/// Position of the first `c` in `s`, or the length of `s` when there is none.
pub open spec fn find(s: Seq<char>, c: char) -> nat
    decreases s.len(),
{
    if s.len() == 0 || s[0] == c {
        0
    } else {
        1 + find(s.skip(1), c)
    }
}

/// Position of the first whitespace character in `s`, or the length of `s`.
pub open spec fn find_space(s: Seq<char>) -> nat
    decreases s.len(),
{
    if s.len() == 0 || is_space(s[0]) {
        0
    } else {
        1 + find_space(s.skip(1))
    }
}

/// `s` without its leading whitespace.
pub open spec fn trim_start(s: Seq<char>) -> Seq<char>
    decreases s.len(),
{
    if s.len() > 0 && is_space(s[0]) {
        trim_start(s.skip(1))
    } else {
        s
    }
}

/// `s` without its trailing whitespace.
pub open spec fn trim_end(s: Seq<char>) -> Seq<char>
    decreases s.len(),
{
    if s.len() > 0 && is_space(s.last()) {
        trim_end(s.drop_last())
    } else {
        s
    }
}

/// `s` without leading and trailing whitespace.
pub open spec fn trimmed(s: Seq<char>) -> Seq<char> {
    trim_end(trim_start(s))
}

/// The maximal runs of non-whitespace characters of `s`, in order.
pub open spec fn words_of(s: Seq<char>) -> Seq<Seq<char>>
    decreases s.len(),
{
    if s.len() == 0 {
        Seq::empty()
    } else if is_space(s[0]) {
        words_of(s.skip(1))
    } else {
        let n = find_space(s);
        if n == 0 || n > s.len() {
            Seq::empty()
        } else {
            seq![s.take(n as int)] + words_of(s.skip(n as int))
        }
    }
}

/// The pieces of `s` between occurrences of `c`; always at least one.
pub open spec fn pieces_of(s: Seq<char>, c: char) -> Seq<Seq<char>>
    decreases s.len(),
{
    let n = find(s, c) as int;
    if n >= s.len() {
        seq![s]
    } else {
        seq![s.take(n)] + pieces_of(s.skip(n + 1), c)
    }
}

/// `line` without one trailing carriage return.
pub open spec fn strip_cr(line: Seq<char>) -> Seq<char> {
    if line.len() > 0 && line.last() == '\r' {
        line.drop_last()
    } else {
        line
    }
}

/// The lines of `s`: pieces ended by `\n` or `\r\n`, the last line ending being optional.
pub open spec fn lines_of(s: Seq<char>) -> Seq<Seq<char>>
    decreases s.len(),
{
    if s.len() == 0 {
        Seq::empty()
    } else {
        let n = find(s, '\n') as int;
        if n >= s.len() {
            seq![s]
        } else {
            seq![strip_cr(s.take(n))] + lines_of(s.skip(n + 1))
        }
    }
}

/// `c` with an ASCII capital replaced by its small letter.
pub open spec fn lower(c: char) -> char {
    if 'A' as u32 <= c as u32 <= 'Z' as u32 {
        ((c as u32 + 32) as u32) as char
    } else {
        c
    }
}

/// `s` with every ASCII capital replaced by its small letter.
pub open spec fn lowered(s: Seq<char>) -> Seq<char> {
    s.map_values(|c: char| lower(c))
}

/// Whether `c` is one of `0` to `9`.
pub open spec fn is_digit(c: char) -> bool {
    '0' as u32 <= c as u32 <= '9' as u32
}

/// The number that the digit `c` stands for.
pub open spec fn digit_value(c: char) -> nat {
    (c as u32 - '0' as u32) as nat
}

/// The digit that stands for `n`, for `n` below ten.
pub open spec fn digit_char(n: nat) -> char {
    ((n + '0' as u32) as u32) as char
}

/// How many digits `s` starts with.
pub open spec fn digit_run(s: Seq<char>) -> nat
    decreases s.len(),
{
    if s.len() > 0 && is_digit(s[0]) {
        1 + digit_run(s.skip(1))
    } else {
        0
    }
}

/// The number that a run of digits stands for in decimal notation.
pub open spec fn decimal_value(s: Seq<char>) -> nat
    decreases s.len(),
{
    if s.len() == 0 {
        0
    } else {
        decimal_value(s.drop_last()) * 10 + digit_value(s.last())
    }
}

/// `n` in decimal notation, without leading zeros.
pub open spec fn decimal(n: nat) -> Seq<char>
    decreases n,
{
    if n < 10 {
        seq![digit_char(n)]
    } else {
        decimal(n / 10).push(digit_char(n % 10))
    }
}

/// Why a text is not an unsigned integer.
#[derive(Debug, Clone, Copy, PartialEq, Eq, Structural)]
pub enum IntError {
    /// There are no characters at all.
    Empty,
    /// Something other than a digit stands where a digit is due.
    InvalidDigit,
    /// The number is larger than the type can hold.
    Overflow,
}

impl IntError {
    /// The error in words.
    pub open spec fn text(self) -> Seq<char> {
        match self {
            IntError::Empty => "cannot parse integer from empty string"@,
            IntError::InvalidDigit => "invalid digit found in string"@,
            IntError::Overflow => "number too large to fit in target type"@,
        }
    }

    /// The error in words.
    pub fn to_text(&self) -> (res: &'static str)
        ensures
            res@ == self.text(),
    {
        match self {
            IntError::Empty => "cannot parse integer from empty string",
            IntError::InvalidDigit => "invalid digit found in string",
            IntError::Overflow => "number too large to fit in target type",
        }
    }
}

/// The digits of an unsigned integer: an optional leading plus sign is dropped, unless it
/// stands alone.
pub open spec fn unsigned_digits(s: Seq<char>) -> Seq<char> {
    if s.len() > 1 && s[0] == '+' {
        s.skip(1)
    } else {
        s
    }
}

/// The unsigned integer, at most `max`, that `s` stands for: decimal digits after an optional
/// plus sign. Reading goes from left to right, so an overflow before the first bad character
/// is reported in its place.
pub open spec fn unsigned(s: Seq<char>, max: nat) -> Result<nat, IntError> {
    let d = unsigned_digits(s);
    let run = digit_run(d);
    if d.len() == 0 {
        Err(IntError::Empty)
    } else if decimal_value(d.take(run as int)) > max {
        Err(IntError::Overflow)
    } else if run < d.len() {
        Err(IntError::InvalidDigit)
    } else {
        Ok(decimal_value(d))
    }
}

pub proof fn lemma_find(s: Seq<char>, c: char)
    ensures
        find(s, c) <= s.len(),
        find(s, c) < s.len() ==> s[find(s, c) as int] == c,
        forall|i: int| 0 <= i < find(s, c) ==> s[i] != c,
    decreases s.len(),
{
    if s.len() > 0 && s[0] != c {
        lemma_find(s.skip(1), c);
        assert forall|i: int| 0 <= i < find(s, c) implies s[i] != c by {
            if i > 0 {
                assert(s[i] == s.skip(1)[i - 1]);
            }
        }
    }
}

/// `n` is the first position of `c` when `c` stands there and nowhere before.
pub proof fn lemma_find_is(s: Seq<char>, c: char, n: int)
    requires
        0 <= n <= s.len(),
        forall|i: int| 0 <= i < n ==> s[i] != c,
        n < s.len() ==> s[n] == c,
    ensures
        find(s, c) == n,
{
    lemma_find(s, c);
}

pub proof fn lemma_find_space(s: Seq<char>)
    ensures
        find_space(s) <= s.len(),
        find_space(s) < s.len() ==> is_space(s[find_space(s) as int]),
        forall|i: int| 0 <= i < find_space(s) ==> !is_space(s[i]),
    decreases s.len(),
{
    if s.len() > 0 && !is_space(s[0]) {
        lemma_find_space(s.skip(1));
        assert forall|i: int| 0 <= i < find_space(s) implies !is_space(s[i]) by {
            if i > 0 {
                assert(s[i] == s.skip(1)[i - 1]);
            }
        }
    }
}

pub proof fn lemma_find_space_is(s: Seq<char>, n: int)
    requires
        0 <= n <= s.len(),
        forall|i: int| 0 <= i < n ==> !is_space(s[i]),
        n < s.len() ==> is_space(s[n]),
    ensures
        find_space(s) == n,
{
    lemma_find_space(s);
}

/// The characters of `s`.
pub fn chars_of(s: &str) -> (res: Vec<char>)
    ensures
        res@ == s@,
{
    let mut out: Vec<char> = Vec::new();
    for c in it: s.chars()
        invariant
            it.seq() == s@,
            out@ == s@.take(it.index()),
    {
        out.push(c);
        assert(out@ == s@.take(it.index() + 1));
    }
    assert(s@.take(s@.len() as int) == s@);
    out
}

/// The string made of `s`.
pub fn string_of(s: &[char]) -> (res: String)
    ensures
        res@ == s@,
{
    let mut out = String::new();
    let mut i: usize = 0;
    while i < s.len()
        invariant
            i <= s@.len(),
            out@ == s@.take(i as int),
        decreases s.len() - i,
    {
        out.push(s[i]);
        i += 1;
        assert(out@ == s@.take(i as int));
    }
    assert(s@.take(s@.len() as int) == s@);
    out
}

/// A copy of `s`.
pub fn copy_of(s: &[char]) -> (res: Vec<char>)
    ensures
        res@ == s@,
{
    let mut out: Vec<char> = Vec::new();
    let mut i: usize = 0;
    while i < s.len()
        invariant
            i <= s@.len(),
            out@ == s@.take(i as int),
        decreases s.len() - i,
    {
        out.push(s[i]);
        i += 1;
        assert(out@ == s@.take(i as int));
    }
    assert(s@.take(s@.len() as int) == s@);
    out
}

/// Whether `a` and `b` are the same text.
pub fn same(a: &[char], b: &[char]) -> (res: bool)
    ensures
        res == (a@ == b@),
{
    if a.len() != b.len() {
        return false;
    }
    let mut i: usize = 0;
    while i < a.len()
        invariant
            i <= a@.len(),
            a@.len() == b@.len(),
            forall|j: int| 0 <= j < i ==> a@[j] == b@[j],
        decreases a.len() - i,
    {
        if a[i] != b[i] {
            return false;
        }
        i += 1;
    }
    assert(a@ =~= b@);
    true
}

/// Whether `a` and `b` are the same text.
pub fn same_str(a: &str, b: &str) -> (res: bool)
    ensures
        res == (a@ == b@),
{
    same(&chars_of(a), &chars_of(b))
}

/// Whether `s` starts with `prefix`.
pub open spec fn starts_with(s: Seq<char>, prefix: Seq<char>) -> bool {
    prefix.is_prefix_of(s)
}

/// Whether `s` starts with `prefix`.
pub fn has_prefix(s: &[char], prefix: &str) -> (res: bool)
    ensures
        res == starts_with(s@, prefix@),
{
    let p = chars_of(prefix);
    if s.len() < p.len() {
        return false;
    }
    let head = vstd::slice::slice_subrange(s, 0, p.len());
    let res = same(head, &p);
    assert(res == (s@.take(p@.len() as int) == p@));
    assert(starts_with(s@, p@) == (s@.take(p@.len() as int) =~= p@));
    res
}

/// Whether `c` has the Unicode `White_Space` property.
pub fn space(c: char) -> (res: bool)
    ensures
        res == is_space(c),
{
    let n: u32 = c as u32;
    (0x9 <= n && n <= 0xd) || n == 0x20 || n == 0x85 || n == 0xa0 || n == 0x1680 || (0x2000 <= n
        && n <= 0x200a) || n == 0x2028 || n == 0x2029 || n == 0x202f || n == 0x205f || n == 0x3000
}

/// Position of the first `c` in `s`, or the length of `s` when there is none.
pub fn position(s: &[char], c: char) -> (res: usize)
    ensures
        res == find(s@, c),
        res <= s@.len(),
{
    let mut i: usize = 0;
    while i < s.len()
        invariant
            i <= s@.len(),
            forall|j: int| 0 <= j < i ==> s@[j] != c,
        decreases s.len() - i,
    {
        if s[i] == c {
            proof {
                lemma_find_is(s@, c, i as int);
            }
            return i;
        }
        i += 1;
    }
    proof {
        lemma_find_is(s@, c, i as int);
    }
    i
}

/// Position of the first whitespace character in `s`, or the length of `s`.
pub fn position_space(s: &[char]) -> (res: usize)
    ensures
        res == find_space(s@),
        res <= s@.len(),
{
    let mut i: usize = 0;
    while i < s.len()
        invariant
            i <= s@.len(),
            forall|j: int| 0 <= j < i ==> !is_space(s@[j]),
        decreases s.len() - i,
    {
        if space(s[i]) {
            proof {
                lemma_find_space_is(s@, i as int);
            }
            return i;
        }
        i += 1;
    }
    proof {
        lemma_find_space_is(s@, i as int);
    }
    i
}

/// `s` without leading and trailing whitespace.
pub fn trim(s: &[char]) -> (res: &[char])
    ensures
        res@ == trimmed(s@),
{
    let mut from: usize = 0;
    assert(s@.skip(0) == s@);
    while from < s.len() && space(s[from])
        invariant
            from <= s@.len(),
            trim_start(s@.skip(from as int)) == trim_start(s@),
        decreases s.len() - from,
    {
        assert(s@.skip(from as int).skip(1) == s@.skip(from as int + 1));
        from += 1;
    }
    let ghost body = s@.skip(from as int);
    let mut to: usize = s.len();
    assert(body.take(to - from) == body);
    while to > from && space(s[to - 1])
        invariant
            from <= to <= s@.len(),
            body == s@.skip(from as int),
            trim_end(body.take(to - from)) == trim_end(body),
        decreases to - from,
    {
        assert(body.take(to - from).drop_last() == body.take(to - from - 1));
        assert(body.take(to - from).last() == s@[to - 1]);
        to -= 1;
    }
    assert(to > from ==> body.take(to - from).last() == s@[to - 1]);
    let res = vstd::slice::slice_subrange(s, from, to);
    assert(res@ == body.take(to - from));
    assert(body == trim_start(s@));
    res
}

/// The maximal runs of non-whitespace characters of `s`, in order.
pub fn words(s: &[char]) -> (res: Vec<Vec<char>>)
    ensures
        texts(res@) == words_of(s@),
{
    let mut out: Vec<Vec<char>> = Vec::new();
    let mut i: usize = 0;
    assert(s@.skip(0) == s@);
    assert(texts(out@) + words_of(s@) == words_of(s@));
    while i < s.len()
        invariant
            i <= s@.len(),
            texts(out@) + words_of(s@.skip(i as int)) == words_of(s@),
        decreases s.len() - i,
    {
        let ghost rest = s@.skip(i as int);
        if space(s[i]) {
            assert(rest.skip(1) == s@.skip(i as int + 1));
            i += 1;
        } else {
            let tail = vstd::slice::slice_subrange(s, i, s.len());
            assert(tail@ == rest);
            let n: usize = position_space(tail);
            proof {
                lemma_find_space(rest);
            }
            let word = vstd::slice::slice_subrange(tail, 0, n);
            assert(word@ == rest.take(n as int));
            assert(rest.skip(n as int) == s@.skip(i + n));
            let ghost before = texts(out@);
            let w = copy_of(word);
            out.push(w);
            assert(texts(out@) == before.push(word@));
            assert(texts(out@) + words_of(s@.skip(i + n)) == before + words_of(rest));
            i += n;
        }
    }
    assert(s@.skip(i as int) == Seq::<char>::empty());
    assert(texts(out@) + Seq::<Seq<char>>::empty() == texts(out@));
    out
}

/// The pieces of `s` between occurrences of `c`; always at least one.
pub fn pieces(s: &[char], c: char) -> (res: Vec<Vec<char>>)
    ensures
        texts(res@) == pieces_of(s@, c),
{
    let mut out: Vec<Vec<char>> = Vec::new();
    let mut i: usize = 0;
    assert(s@.skip(0) == s@);
    assert(texts(out@) + pieces_of(s@, c) == pieces_of(s@, c));
    loop
        invariant
            i <= s@.len(),
            texts(out@) + pieces_of(s@.skip(i as int), c) == pieces_of(s@, c),
        decreases s.len() - i,
    {
        let ghost rest = s@.skip(i as int);
        let tail = vstd::slice::slice_subrange(s, i, s.len());
        assert(tail@ == rest);
        let n: usize = position(tail, c);
        proof {
            lemma_find(rest, c);
        }
        let piece = vstd::slice::slice_subrange(tail, 0, n);
        assert(piece@ == rest.take(n as int));
        let ghost before = texts(out@);
        let w = copy_of(piece);
        out.push(w);
        assert(texts(out@) == before.push(piece@));
        if n == tail.len() {
            assert(piece@ == rest);
            assert(before.push(rest) == before + seq![rest]);
            return out;
        }
        assert(rest.skip(n as int + 1) == s@.skip(i + n + 1));
        assert(texts(out@) + pieces_of(s@.skip(i + n + 1), c) == before + pieces_of(rest, c));
        i += n + 1;
    }
}

/// The lines of `s`: pieces ended by `\n` or `\r\n`, the last line ending being optional.
pub fn lines(s: &[char]) -> (res: Vec<Vec<char>>)
    ensures
        texts(res@) == lines_of(s@),
{
    let mut out: Vec<Vec<char>> = Vec::new();
    let mut i: usize = 0;
    assert(s@.skip(0) == s@);
    assert(texts(out@) + lines_of(s@) == lines_of(s@));
    while i < s.len()
        invariant
            i <= s@.len(),
            texts(out@) + lines_of(s@.skip(i as int)) == lines_of(s@),
        decreases s.len() - i,
    {
        let ghost rest = s@.skip(i as int);
        let tail = vstd::slice::slice_subrange(s, i, s.len());
        assert(tail@ == rest);
        let n: usize = position(tail, '\n');
        proof {
            lemma_find(rest, '\n');
        }
        let ghost before = texts(out@);
        if n == tail.len() {
            let w = copy_of(tail);
            out.push(w);
            assert(texts(out@) == before.push(rest));
            assert(before.push(rest) == before + seq![rest]);
            return out;
        }
        let mut end: usize = n;
        if n > 0 && tail[n - 1] == '\r' {
            end = n - 1;
        }
        let line = vstd::slice::slice_subrange(tail, 0, end);
        assert(line@ == strip_cr(rest.take(n as int)));
        let w = copy_of(line);
        out.push(w);
        assert(texts(out@) == before.push(line@));
        assert(rest.skip(n as int + 1) == s@.skip(i + n + 1));
        assert(texts(out@) + lines_of(s@.skip(i + n + 1)) == before + lines_of(rest));
        i += n + 1;
    }
    assert(s@.skip(i as int) == Seq::<char>::empty());
    assert(texts(out@) + Seq::<Seq<char>>::empty() == texts(out@));
    out
}

/// `c` with an ASCII capital replaced by its small letter.
pub fn lower_char(c: char) -> (res: char)
    ensures
        res == lower(c),
{
    if 'A' <= c && c <= 'Z' {
        (c as u8 + 32) as char
    } else {
        c
    }
}

/// `s` with every ASCII capital replaced by its small letter.
pub fn to_lower(s: &[char]) -> (res: Vec<char>)
    ensures
        res@ == lowered(s@),
{
    let mut out: Vec<char> = Vec::new();
    let mut i: usize = 0;
    while i < s.len()
        invariant
            i <= s@.len(),
            out@ == lowered(s@.take(i as int)),
        decreases s.len() - i,
    {
        let c = lower_char(s[i]);
        out.push(c);
        i += 1;
        assert(out@ == lowered(s@.take(i as int)));
    }
    assert(s@.take(s@.len() as int) == s@);
    out
}

pub proof fn lemma_digit_run(s: Seq<char>)
    ensures
        digit_run(s) <= s.len(),
        forall|i: int| 0 <= i < digit_run(s) ==> is_digit(#[trigger] s[i]),
        digit_run(s) < s.len() ==> !is_digit(s[digit_run(s) as int]),
    decreases s.len(),
{
    if s.len() > 0 && is_digit(s[0]) {
        lemma_digit_run(s.skip(1));
        assert forall|i: int| 0 <= i < digit_run(s) implies is_digit(#[trigger] s[i]) by {
            if i > 0 {
                assert(s[i] == s.skip(1)[i - 1]);
            }
        }
    }
}

pub proof fn lemma_digit_run_is(s: Seq<char>, n: int)
    requires
        0 <= n <= s.len(),
        forall|i: int| 0 <= i < n ==> is_digit(#[trigger] s[i]),
        n < s.len() ==> !is_digit(s[n]),
    ensures
        digit_run(s) == n,
{
    lemma_digit_run(s);
}

/// A longer run of digits stands for at least as large a number.
pub proof fn lemma_decimal_value_grows(s: Seq<char>, i: int, j: int)
    requires
        0 <= i <= j <= s.len(),
    ensures
        decimal_value(s.take(i)) <= decimal_value(s.take(j)),
    decreases j - i,
{
    if i < j {
        lemma_decimal_value_grows(s, i, j - 1);
        assert(s.take(j).drop_last() == s.take(j - 1));
    }
}

/// The unsigned integer, at most `max`, that `s` stands for.
pub fn parse_unsigned(s: &[char], max: u64) -> (res: Result<u64, IntError>)
    ensures
        match res {
            Ok(n) => unsigned(s@, max as nat) == Ok::<nat, IntError>(n as nat) && n <= max,
            Err(e) => unsigned(s@, max as nat) == Err::<nat, IntError>(e),
        },
{
    let from: usize = if s.len() > 1 && s[0] == '+' {
        1
    } else {
        0
    };
    let d = vstd::slice::slice_subrange(s, from, s.len());
    assert(d@ == unsigned_digits(s@));
    if d.len() == 0 {
        return Err(IntError::Empty);
    }
    let mut acc: u128 = 0;
    let mut i: usize = 0;
    assert(d@.take(0) == Seq::<char>::empty());
    while i < d.len()
        invariant
            i <= d@.len(),
            d@ == unsigned_digits(s@),
            d@.len() > 0,
            acc == decimal_value(d@.take(i as int)),
            acc <= max,
            forall|j: int| 0 <= j < i ==> is_digit(#[trigger] d@[j]),
        decreases d.len() - i,
    {
        let c = d[i];
        let code: u32 = c as u32;
        if code < 48 || 57 < code {
            proof {
                assert(!is_digit(d@[i as int]));
                lemma_digit_run_is(d@, i as int);
            }
            return Err(IntError::InvalidDigit);
        }
        acc = acc * 10 + (code - 48) as u128;
        assert(d@.take(i as int + 1).drop_last() == d@.take(i as int));
        assert(d@.take(i as int + 1).last() == c);
        i += 1;
        if acc > max as u128 {
            proof {
                lemma_digit_run(d@);
                if digit_run(d@) < i {
                    assert(is_digit(d@[digit_run(d@) as int]));
                }
                lemma_decimal_value_grows(d@, i as int, digit_run(d@) as int);
            }
            return Err(IntError::Overflow);
        }
    }
    proof {
        lemma_digit_run_is(d@, i as int);
        assert(d@.take(i as int) == d@);
    }
    Ok(acc as u64)
}

/// The `u8` that `s` stands for.
pub fn parse_u8(s: &[char]) -> (res: Option<u8>)
    ensures
        res == number_u8(s@),
{
    match parse_unsigned(s, 255) {
        Ok(n) => Some(n as u8),
        Err(_) => None,
    }
}

/// The `u8` that `s` stands for, if it stands for one.
pub open spec fn number_u8(s: Seq<char>) -> Option<u8> {
    match unsigned(s, 255) {
        Ok(n) => Some(n as u8),
        Err(_) => None,
    }
}

/// The `u16` that `s` stands for, if it stands for one.
pub open spec fn number_u16(s: Seq<char>) -> Option<u16> {
    match unsigned(s, 65535) {
        Ok(n) => Some(n as u16),
        Err(_) => None,
    }
}

/// The `u16` that `s` stands for.
pub fn parse_u16(s: &[char]) -> (res: Option<u16>)
    ensures
        res == number_u16(s@),
{
    match parse_unsigned(s, 65535) {
        Ok(n) => Some(n as u16),
        Err(_) => None,
    }
}

/// The `u32` that `s` stands for, if it stands for one.
pub open spec fn number_u32(s: Seq<char>) -> Option<u32> {
    match unsigned(s, 0xffff_ffff) {
        Ok(n) => Some(n as u32),
        Err(_) => None,
    }
}

/// The `u32` that `s` stands for.
pub fn parse_u32(s: &[char]) -> (res: Option<u32>)
    ensures
        res == number_u32(s@),
{
    match parse_unsigned(s, 0xffff_ffff) {
        Ok(n) => Some(n as u32),
        Err(_) => None,
    }
}

/// Appends `n` in decimal notation to `out`.
pub fn push_decimal(out: &mut String, n: u64)
    ensures
        final(out)@ == old(out)@ + decimal(n as nat),
    decreases n,
{
    if n >= 10 {
        push_decimal(out, n / 10);
    }
    let d: u8 = (n % 10) as u8;
    out.push((48 + d) as char);
    proof {
        assert(digit_char(d as nat) == (48 + d) as u8 as char);
        if n >= 10 {
            assert(out@ == old(out)@ + decimal((n / 10) as nat).push(digit_char(d as nat)));
        } else {
            assert(out@ == old(out)@ + seq![digit_char(d as nat)]);
        }
    }
}

/// `n` in decimal notation.
pub fn decimal_text(n: u64) -> (res: String)
    ensures
        res@ == decimal(n as nat),
{
    let mut out = String::new();
    push_decimal(&mut out, n);
    assert(Seq::<char>::empty() + decimal(n as nat) == decimal(n as nat));
    out
}

/// Decimal notation is a non-empty run of digits that stands for the number it was made from.
pub proof fn lemma_decimal(n: nat)
    ensures
        decimal(n).len() >= 1,
        forall|i: int| 0 <= i < decimal(n).len() ==> is_digit(#[trigger] decimal(n)[i]),
        decimal_value(decimal(n)) == n,
    decreases n,
{
    assert(decimal_value(Seq::<char>::empty()) == 0);
    if n < 10 {
        assert(decimal(n).drop_last() == Seq::<char>::empty());
        assert(decimal(n).last() == digit_char(n));
        assert(decimal_value(decimal(n)) == digit_value(digit_char(n)));
        assert(is_digit(digit_char(n)) && digit_value(digit_char(n)) == n);
    } else {
        lemma_decimal(n / 10);
        let m = n % 10;
        assert(is_digit(digit_char(m)) && digit_value(digit_char(m)) == m);
        assert(decimal(n).drop_last() == decimal(n / 10));
        assert(decimal(n).last() == digit_char(m));
    }
}

/// Reading the decimal notation of a number that fits gives the number back.
pub proof fn lemma_unsigned_decimal(n: nat, max: nat)
    requires
        n <= max,
    ensures
        unsigned(decimal(n), max) == Ok::<nat, IntError>(n),
{
    lemma_decimal(n);
    let d = decimal(n);
    assert(is_digit(d[0]));
    lemma_digit_run_is(d, d.len() as int);
    assert(d.take(d.len() as int) == d);
}

/// The digit that stands for `n` in lower-case hexadecimal, for `n` below sixteen.
pub open spec fn hex_char(n: nat) -> char {
    if n < 10 {
        digit_char(n)
    } else {
        ((n + 87) as u32) as char
    }
}

/// The number that the hexadecimal digit `c` stands for, in either case.
pub open spec fn hex_digit(c: char) -> Option<nat> {
    let n = c as u32;
    if 48 <= n <= 57 {
        Some((n - 48) as nat)
    } else if 97 <= n <= 102 {
        Some((n - 87) as nat)
    } else if 65 <= n <= 70 {
        Some((n - 55) as nat)
    } else {
        None
    }
}

/// `n` in lower-case hexadecimal, without leading zeros.
pub open spec fn hex(n: nat) -> Seq<char>
    decreases n,
{
    if n < 16 {
        seq![hex_char(n)]
    } else {
        hex(n / 16).push(hex_char(n % 16))
    }
}

/// `k` zeros.
pub open spec fn zeros(k: nat) -> Seq<char> {
    Seq::new(k, |i: int| '0')
}

/// `n` in lower-case hexadecimal, with leading zeros up to sixteen digits.
pub open spec fn hex16(n: u64) -> Seq<char> {
    zeros((16 - hex(n as nat).len()) as nat) + hex(n as nat)
}

/// The number that a run of hexadecimal digits stands for; `None` when a character is no
/// such digit.
pub open spec fn hex_value(s: Seq<char>) -> Option<nat>
    decreases s.len(),
{
    if s.len() == 0 {
        Some(0)
    } else {
        match (hex_value(s.drop_last()), hex_digit(s.last())) {
            (Some(n), Some(d)) => Some(n * 16 + d),
            _ => None,
        }
    }
}

/// The number that the hexadecimal digit `c` stands for.
pub fn parse_hex_digit(c: char) -> (res: Option<u8>)
    ensures
        match res {
            Some(d) => hex_digit(c) == Some(d as nat) && d < 16,
            None => hex_digit(c) is None,
        },
{
    let n: u32 = c as u32;
    if 48 <= n && n <= 57 {
        Some((n - 48) as u8)
    } else if 97 <= n && n <= 102 {
        Some((n - 87) as u8)
    } else if 65 <= n && n <= 70 {
        Some((n - 55) as u8)
    } else {
        None
    }
}

/// The lower-case hexadecimal digit for `n`.
pub fn hex_digit_char(n: u8) -> (res: char)
    requires
        n < 16,
    ensures
        res == hex_char(n as nat),
{
    if n < 10 {
        (48 + n) as char
    } else {
        (87 + n) as char
    }
}

/// Appends `n` in lower-case hexadecimal to `out`.
pub fn push_hex(out: &mut String, n: u64)
    ensures
        final(out)@ == old(out)@ + hex(n as nat),
    decreases n,
{
    if n >= 16 {
        push_hex(out, n / 16);
    }
    let d: u8 = (n % 16) as u8;
    out.push(hex_digit_char(d));
    proof {
        if n >= 16 {
            assert(out@ == old(out)@ + hex((n / 16) as nat).push(hex_char(d as nat)));
        } else {
            assert(out@ == old(out)@ + seq![hex_char(d as nat)]);
        }
    }
}

pub proof fn lemma_hex_char(n: nat)
    requires
        n < 16,
    ensures
        hex_digit(hex_char(n)) == Some(n),
        hex_char(n) != ':',
        hex_char(n) != '.',
        !is_space(hex_char(n)),
{
}

/// Hexadecimal notation reads back as the number it was made from.
pub proof fn lemma_hex(n: nat)
    ensures
        hex(n).len() >= 1,
        hex_value(hex(n)) == Some(n),
        forall|i: int|
            0 <= i < hex(n).len() ==> hex_digit(#[trigger] hex(n)[i]) is Some && hex(n)[i] != ':'
                && hex(n)[i] != '.' && !is_space(hex(n)[i]),
    decreases n,
{
    assert(hex_value(Seq::<char>::empty()) == Some(0nat));
    lemma_hex_char(n % 16);
    if n < 16 {
        assert(hex(n).drop_last() == Seq::<char>::empty());
        assert(hex(n).last() == hex_char(n));
    } else {
        lemma_hex(n / 16);
        assert(hex(n).drop_last() == hex(n / 16));
        assert(hex(n).last() == hex_char(n % 16));
        assert forall|i: int| 0 <= i < hex(n).len() implies hex_digit(#[trigger] hex(n)[i]) is Some
            && hex(n)[i] != ':' && hex(n)[i] != '.' && !is_space(hex(n)[i]) by {
            if i < hex(n / 16).len() {
                assert(hex(n)[i] == hex(n / 16)[i]);
            }
        }
    }
}

/// A number below 16 to the power of four has at most four hexadecimal digits.
pub proof fn lemma_hex_len(n: nat)
    requires
        n < 0x10000,
    ensures
        hex(n).len() <= 4,
{
    reveal_with_fuel(hex, 5);
}

/// The texts `p`, one after the other, with `c` between neighbours.
pub open spec fn joined(p: Seq<Seq<char>>, c: char) -> Seq<char>
    decreases p.len(),
{
    if p.len() == 0 {
        Seq::empty()
    } else if p.len() == 1 {
        p[0]
    } else {
        p[0].push(c) + joined(p.skip(1), c)
    }
}

/// Appends digits with zeros before them, up to a width.
pub fn push_padded(out: &mut String, digits: &str, width: usize)
    requires
        digits@.len() <= width,
    ensures
        final(out)@ == old(out)@ + (zeros((width - digits@.len()) as nat) + digits@),
{
    let len: usize = digits.unicode_len();
    let mut i: usize = len;
    assert(old(out)@ + zeros(0) =~= old(out)@);
    while i < width
        invariant
            len == digits@.len(),
            len <= i <= width,
            out@ == old(out)@ + zeros((i - len) as nat),
        decreases width - i,
    {
        out.push('0');
        i += 1;
        assert(out@ =~= old(out)@ + zeros((i - len) as nat));
    }
    out.append(digits);
    assert(out@ =~= old(out)@ + (zeros((width - digits@.len()) as nat) + digits@));
}

proof fn lemma_hex_width(n: nat, k: nat)
    requires
        n < vstd::arithmetic::power::pow(16, k),
        k >= 1,
    ensures
        hex(n).len() <= k,
    decreases k,
{
    vstd::arithmetic::power::lemma_pow1(16);
    if n >= 16 {
        assert(k > 1);
        vstd::arithmetic::power::lemma_pow_adds(16, 1, (k - 1) as nat);
        lemma_hex_width(n / 16, (k - 1) as nat);
    }
}

/// A 64-bit number takes at most sixteen hexadecimal digits, and exactly sixteen with leading
/// zeros.
pub proof fn lemma_hex16(n: u64)
    ensures
        hex(n as nat).len() <= 16,
        hex16(n).len() == 16,
        forall|i: int| 0 <= i < 16 ==> hex_digit(#[trigger] hex16(n)[i]) is Some,
{
    assert(vstd::arithmetic::power::pow(16, 16) == 0x1_0000_0000_0000_0000int) by {
        reveal_with_fuel(vstd::arithmetic::power::pow, 17);
    }
    lemma_hex_width(n as nat, 16);
    lemma_hex(n as nat);
    let pad = (16 - hex(n as nat).len()) as int;
    assert forall|i: int| 0 <= i < 16 implies hex_digit(#[trigger] hex16(n)[i]) is Some by {
        if i >= pad {
            assert(hex16(n)[i] == hex(n as nat)[i - pad]);
        }
    }
}

/// Appends a number in hexadecimal with leading zeros up to sixteen digits.
pub fn push_hex16(out: &mut String, n: u64)
    ensures
        final(out)@ == old(out)@ + hex16(n),
{
    let mut digits = String::new();
    push_hex(&mut digits, n);
    assert(digits@ =~= hex(n as nat));
    proof {
        lemma_hex16(n);
    }
    push_padded(out, digits.as_str(), 16);
}

/// Counts in hexadecimal are told apart by what stands before sixteen more digits.
pub proof fn lemma_hex_pair(n1: u64, s1: u64, n2: u64, s2: u64)
    requires
        hex(n1 as nat) + hex16(s1) == hex(n2 as nat) + hex16(s2),
    ensures
        n1 == n2,
{
    let a = hex(n1 as nat);
    let b = hex(n2 as nat);
    lemma_hex16(s1);
    lemma_hex16(s2);
    assert((a + hex16(s1)).len() == a.len() + 16);
    assert((b + hex16(s2)).len() == b.len() + 16);
    assert((a + hex16(s1)).take(a.len() as int) =~= a);
    assert((b + hex16(s2)).take(b.len() as int) =~= b);
    lemma_hex(n1 as nat);
    lemma_hex(n2 as nat);
}

/// Joining the pieces of a text gives the text.
pub proof fn lemma_joined_pieces(s: Seq<char>, c: char)
    ensures
        pieces_of(s, c).len() >= 1,
        joined(pieces_of(s, c), c) == s,
        forall|i: int, j: int|
            0 <= i < pieces_of(s, c).len() && 0 <= j < pieces_of(s, c)[i].len()
                ==> #[trigger] pieces_of(s, c)[i][j] != c,
    decreases s.len(),
{
    lemma_find(s, c);
    let n = find(s, c) as int;
    if n < s.len() {
        let rest = s.skip(n + 1);
        lemma_joined_pieces(rest, c);
        let p = pieces_of(s, c);
        assert(p.skip(1) == pieces_of(rest, c));
        assert(joined(p, c) == s.take(n).push(c) + rest);
        assert(s.take(n).push(c) + rest == s);
        assert forall|i: int, j: int|
            0 <= i < p.len() && 0 <= j < p[i].len() implies #[trigger] p[i][j] != c by {
            if i > 0 {
                assert(p[i] == pieces_of(rest, c)[i - 1]);
                assert(pieces_of(rest, c)[i - 1][j] != c);
            }
        }
    }
}

/// Splitting a join gives the parts back when none of them holds the separator.
pub proof fn lemma_pieces_joined(p: Seq<Seq<char>>, c: char)
    requires
        p.len() >= 1,
        forall|i: int, j: int| 0 <= i < p.len() && 0 <= j < p[i].len() ==> #[trigger] p[i][j] != c,
    ensures
        pieces_of(joined(p, c), c) == p,
    decreases p.len(),
{
    let s = joined(p, c);
    if p.len() == 1 {
        assert forall|i: int| 0 <= i < s.len() implies s[i] != c by {
            assert(p[0][i] != c);
        }
        lemma_find_is(s, c, s.len() as int);
        assert(pieces_of(s, c) == p);
    } else {
        let n = p[0].len() as int;
        let rest = p.skip(1);
        assert forall|i: int| 0 <= i < n implies s[i] != c by {
            assert(p[0][i] != c);
        }
        lemma_find_is(s, c, n);
        assert forall|i: int, j: int|
            0 <= i < rest.len() && 0 <= j < rest[i].len() implies #[trigger] rest[i][j] != c by {
            assert(p[i + 1][j] != c);
        }
        lemma_pieces_joined(rest, c);
        assert(s.take(n) == p[0]);
        assert(s.skip(n + 1) == joined(rest, c));
        assert(seq![p[0]] + rest == p);
    }
}

/// Trimming changes nothing when neither end is whitespace.
pub proof fn lemma_trimmed(s: Seq<char>)
    requires
        s.len() > 0,
        !is_space(s[0]),
        !is_space(s.last()),
    ensures
        trimmed(s) == s,
{
}

/// The words of a join by spaces are the joined parts, when these are words.
pub proof fn lemma_words_joined(p: Seq<Seq<char>>)
    requires
        forall|i: int| 0 <= i < p.len() ==> (#[trigger] p[i]).len() > 0,
        forall|i: int, j: int|
            0 <= i < p.len() && 0 <= j < p[i].len() ==> !is_space(#[trigger] p[i][j]),
    ensures
        words_of(joined(p, ' ')) == p,
        p.len() > 0 ==> joined(p, ' ').len() > 0 && !is_space(joined(p, ' ')[0]) && !is_space(
            joined(p, ' ').last(),
        ),
    decreases p.len(),
{
    let s = joined(p, ' ');
    if p.len() == 0 {
        assert(words_of(s) == p);
    } else {
        let w = p[0];
        let n = w.len() as int;
        assert forall|i: int| 0 <= i < n implies !is_space(s[i]) by {
            assert(p[0][i] == s[i]);
        }
        lemma_find_space_is(s, n);
        assert(s.take(n) == w);
        assert(!is_space(p[0][0]));
        if p.len() == 1 {
            assert(s.skip(n) == Seq::<char>::empty());
            assert(words_of(s.skip(n)) == Seq::<Seq<char>>::empty());
            assert(words_of(s) == seq![s.take(n)] + words_of(s.skip(n)));
            assert(words_of(s) == p);
            assert(p[0][n - 1] == s.last());
        } else {
            let rest = p.skip(1);
            assert forall|i: int| 0 <= i < rest.len() implies (#[trigger] rest[i]).len() > 0 by {
                assert(p[i + 1].len() > 0);
            }
            assert forall|i: int, j: int|
                0 <= i < rest.len() && 0 <= j < rest[i].len() implies !is_space(
                #[trigger] rest[i][j],
            ) by {
                assert(!is_space(p[i + 1][j]));
            }
            lemma_words_joined(rest);
            let t = s.skip(n);
            assert(t[0] == ' ');
            assert(t.skip(1) == joined(rest, ' '));
            assert(words_of(t) == rest);
            assert(seq![w] + rest == p);
            assert(s.last() == joined(rest, ' ').last());
        }
    }
}

/// Texts that differ at `k` from `prefix` do not start with it.
pub proof fn lemma_not_prefix(s: Seq<char>, prefix: Seq<char>, k: int)
    requires
        0 <= k < prefix.len(),
        k < s.len() ==> s[k] != prefix[k],
    ensures
        !starts_with(s, prefix),
{
    if starts_with(s, prefix) {
        assert(s.subrange(0, prefix.len() as int)[k] == prefix[k]);
    }
}

/// A concatenation starts with its first part.
pub proof fn lemma_is_prefix(prefix: Seq<char>, rest: Seq<char>)
    ensures
        starts_with(prefix + rest, prefix),
{
    assert((prefix + rest).subrange(0, prefix.len() as int) == prefix);
}

proof fn lemma_trim_start(s: Seq<char>) -> (n: int)
    ensures
        0 <= n <= s.len(),
        trim_start(s) == s.skip(n),
        forall|i: int| 0 <= i < n ==> is_space(#[trigger] s[i]),
        n < s.len() ==> !is_space(s[n]),
    decreases s.len(),
{
    if s.len() > 0 && is_space(s[0]) {
        let k = lemma_trim_start(s.skip(1));
        assert(s.skip(1).skip(k) =~= s.skip(k + 1));
        assert forall|i: int| 0 <= i < k + 1 implies is_space(#[trigger] s[i]) by {
            if i > 0 {
                assert(s[i] == s.skip(1)[i - 1]);
            }
        }
        k + 1
    } else {
        assert(s.skip(0) =~= s);
        0
    }
}

proof fn lemma_trim_end(s: Seq<char>) -> (n: int)
    ensures
        0 <= n <= s.len(),
        trim_end(s) == s.take(n),
        forall|i: int| n <= i < s.len() ==> is_space(#[trigger] s[i]),
        n > 0 ==> !is_space(s[n - 1]),
    decreases s.len(),
{
    if s.len() > 0 && is_space(s.last()) {
        let t = s.drop_last();
        let k = lemma_trim_end(t);
        assert(t.take(k) =~= s.take(k));
        assert forall|i: int| k <= i < s.len() implies is_space(#[trigger] s[i]) by {
            if i < t.len() {
                assert(s[i] == t[i]);
            }
        }
        k
    } else {
        assert(s.take(s.len() as int) =~= s);
        s.len() as int
    }
}

/// Trimming cuts whitespace and nothing else, and leaves none at either end.
pub proof fn trimming_cuts_the_ends(s: Seq<char>) -> (cut: (int, int))
    ensures
        0 <= cut.0 <= cut.1 <= s.len(),
        trimmed(s) == s.subrange(cut.0, cut.1),
        forall|i: int| 0 <= i < cut.0 || cut.1 <= i < s.len() ==> is_space(#[trigger] s[i]),
        trimmed(s).len() > 0 ==> !is_space(trimmed(s)[0]) && !is_space(trimmed(s).last()),
{
    let a = lemma_trim_start(s);
    let t = s.skip(a);
    let b = lemma_trim_end(t);
    assert(t.take(b) =~= s.subrange(a, a + b));
    assert forall|i: int| 0 <= i < a || a + b <= i < s.len() implies is_space(#[trigger] s[i]) by {
        if i >= a + b {
            assert(s[i] == t[i - a]);
        }
    }
    (a, a + b)
}

/// What is read as a number: digits, and a plus sign before them if there is one, up to the largest
/// number. Nothing else is.
pub proof fn numbers_are_digits(s: Seq<char>, max: nat)
    ensures
        unsigned(s, max) matches Ok(n) ==> n <= max && {
            let d = unsigned_digits(s);
            &&& d.len() > 0
            &&& forall|i: int| 0 <= i < d.len() ==> is_digit(#[trigger] d[i])
            &&& n == decimal_value(d)
            &&& d == s || (s.len() > 1 && s == seq!['+'] + d)
        },
        s.len() == 0 ==> unsigned(s, max) == Err::<nat, IntError>(IntError::Empty),
        s.len() > 0 && (forall|i: int| 0 <= i < s.len() ==> is_digit(#[trigger] s[i])) ==> unsigned(
            s,
            max,
        ) == if decimal_value(s) <= max {
            Ok::<nat, IntError>(decimal_value(s))
        } else {
            Err::<nat, IntError>(IntError::Overflow)
        },
{
    let d = unsigned_digits(s);
    lemma_digit_run(d);
    if digit_run(d) == d.len() {
        assert(d.take(d.len() as int) =~= d);
    }
    if s.len() > 1 && s[0] == '+' {
        assert(s =~= seq!['+'] + d);
    }
    if s.len() > 0 && forall|i: int| 0 <= i < s.len() ==> is_digit(#[trigger] s[i]) {
        assert(is_digit(s[0]));
        lemma_digit_run_is(s, s.len() as int);
        assert(s.take(s.len() as int) =~= s);
    }
}

/// Lower case changes the letters A to Z and nothing else.
pub proof fn only_ascii_letters_have_case(c: char)
    ensures
        'A' as u32 <= c as u32 <= 'Z' as u32 ==> lower(c) as u32 - 'a' as u32 == c as u32
            - 'A' as u32,
        !('A' as u32 <= c as u32 <= 'Z' as u32) ==> lower(c) == c,
        lower(lower(c)) == lower(c),
{
}

/// A text that is no number is reported with what is wrong with it: it is empty, it has a character
/// that is no digit, or the number is too large.
pub proof fn number_errors_are_told_in_words(s: Seq<char>, max: nat)
    ensures
        unsigned(s, max) matches Err(e) ==> {
            &&& s.len() == 0 <==> e.text() == "cannot parse integer from empty string"@
            &&& e == IntError::Overflow <==> e.text() == "number too large to fit in target type"@
            &&& e == IntError::InvalidDigit <==> e.text() == "invalid digit found in string"@
        },
{
    reveal_strlit("cannot parse integer from empty string");
    reveal_strlit("number too large to fit in target type");
    reveal_strlit("invalid digit found in string");
    assert("cannot parse integer from empty string"@[0] == 'c');
    assert("number too large to fit in target type"@[0] == 'n');
    assert("invalid digit found in string"@[0] == 'i');
}

/// A number reads back as long as it fits: up to 255 in eight bits, up to 65535 in sixteen, and up to
/// 4294967295 in thirty-two.
pub proof fn numbers_fit_their_types(n: nat)
    ensures
        number_u8(decimal(n)) == if n < 0x100 {
            Some(n as u8)
        } else {
            None
        },
        number_u16(decimal(n)) == if n < 0x1_0000 {
            Some(n as u16)
        } else {
            None
        },
        number_u32(decimal(n)) == if n < 0x1_0000_0000 {
            Some(n as u32)
        } else {
            None
        },
{
    lemma_decimal(n);
    numbers_are_digits(decimal(n), 0xff);
    numbers_are_digits(decimal(n), 0xffff);
    numbers_are_digits(decimal(n), 0xffff_ffff);
}

} // verus!
