//! SIP INFO as the fallback transport for DTMF (`application/dtmf-relay`), for peers that did not
//! agree to `telephone-event`.

use crate::message::{
    Header, HeaderKind, HeaderView, Response, ResponseView, StatusCode, StatusView,
};
use crate::rtp::dtmf::DtmfDigit;
use crate::text::{decimal, push_decimal};
use vstd::prelude::*;
use vstd::string::*;

verus! {

/// MIME type of the DTMF body in an INFO request.
pub const CONTENT_TYPE: &'static str = "application/dtmf-relay";

/// The body for one press.
pub open spec fn info_body(digit: DtmfDigit, duration_ms: u32) -> Seq<char> {
    "Signal="@ + seq![digit.character()] + "\nDuration="@ + decimal(duration_ms as nat)
}

/// Builds the body for one press, such as `"Signal=5\nDuration=160"`, without a final newline.
pub fn build_info_body(digit: DtmfDigit, duration_ms: u32) -> (res: String)
    ensures
        res@ == info_body(digit, duration_ms),
{
    let mut out = String::from_str("Signal=");
    out.push(digit.as_char());
    out.append("\nDuration=");
    push_decimal(&mut out, duration_ms as u64);
    assert(out@ =~= info_body(digit, duration_ms));
    out
}

/// Builds the `Content-Type` header for the INFO request.
pub fn content_type_header() -> (res: Header)
    ensures
        res@ == HeaderView::known(HeaderKind::ContentType, "application/dtmf-relay"@),
{
    Header::new(HeaderKind::ContentType, "application/dtmf-relay")
}

/// Outcome of one INFO attempt.
#[derive(Debug, Clone, PartialEq, Eq)]
pub enum InfoOutcome {
    /// The remote accepted the press.
    Accepted(StatusCode),
    /// The remote does not accept this body (415): stop sending presses this way.
    UnsupportedMedia,
    /// The remote answered with another failure.
    OtherFailure(StatusCode),
    /// No final response arrived.
    DialogNotConfirmed,
}

/// An INFO outcome, as a view.
pub enum InfoOutcomeView {
    Accepted(StatusView),
    UnsupportedMedia,
    OtherFailure(StatusView),
    DialogNotConfirmed,
}

impl View for InfoOutcome {
    type V = InfoOutcomeView;

    open spec fn view(&self) -> InfoOutcomeView {
        match self {
            InfoOutcome::Accepted(s) => InfoOutcomeView::Accepted(s@),
            InfoOutcome::UnsupportedMedia => InfoOutcomeView::UnsupportedMedia,
            InfoOutcome::OtherFailure(s) => InfoOutcomeView::OtherFailure(s@),
            InfoOutcome::DialogNotConfirmed => InfoOutcomeView::DialogNotConfirmed,
        }
    }
}

impl InfoOutcome {
    /// Whether the press was accepted.
    pub fn is_accepted(&self) -> (res: bool)
        ensures
            res == (self is Accepted),
    {
        matches!(self, InfoOutcome::Accepted(_))
    }

    /// Whether further presses should not be attempted this way.
    pub fn should_stop(&self) -> (res: bool)
        ensures
            res == (self is UnsupportedMedia),
    {
        matches!(self, InfoOutcome::UnsupportedMedia)
    }
}

/// What the final response of an INFO request means: 2xx accepts, 415 says to stop.
pub open spec fn info_outcome(response: Option<ResponseView>) -> InfoOutcomeView {
    match response {
        None => InfoOutcomeView::DialogNotConfirmed,
        Some(r) => if 200 <= r.status.code < 300 {
            InfoOutcomeView::Accepted(r.status)
        } else if r.status.code == 415 {
            InfoOutcomeView::UnsupportedMedia
        } else {
            InfoOutcomeView::OtherFailure(r.status)
        },
    }
}

/// Classifies the final response of an INFO request; `None` when there was none.
pub fn classify(response: Option<Response>) -> (res: InfoOutcome)
    ensures
        res@ == info_outcome(
            match response {
                Some(r) => Some(r@),
                None => None,
            },
        ),
{
    match response {
        None => InfoOutcome::DialogNotConfirmed,
        Some(r) => {
            let code: u16 = r.status_code.code;
            if 200 <= code && code < 300 {
                InfoOutcome::Accepted(r.status_code)
            } else if code == 415 {
                InfoOutcome::UnsupportedMedia
            } else {
                InfoOutcome::OtherFailure(r.status_code)
            }
        },
    }
}

/// A press was accepted when it was answered 2xx; sending presses this way is given up on a 415 and
/// on nothing else; any other answer is a failure with its status.
pub proof fn only_a_415_stops_presses(r: ResponseView)
    ensures
        info_outcome(None) is DialogNotConfirmed,
        r.status.code / 100 == 2 ==> info_outcome(Some(r)) == InfoOutcomeView::Accepted(r.status),
        info_outcome(Some(r)) is UnsupportedMedia <==> r.status.code == 415,
        r.status.code / 100 != 2 && r.status.code != 415 ==> info_outcome(Some(r))
            == InfoOutcomeView::OtherFailure(r.status),
{
}

/// The body of a press has two lines, the key and the length in milliseconds.
pub proof fn info_body_has_two_lines(digit: DtmfDigit, duration_ms: u32)
    ensures
        crate::text::lines_of(info_body(digit, duration_ms)) == seq![
            "Signal="@ + seq![digit.character()],
            "Duration="@ + decimal(duration_ms as nat),
        ],
{
    let d = decimal(duration_ms as nat);
    let first = "Signal="@ + seq![digit.character()];
    let second = "Duration="@ + d;
    let body = info_body(digit, duration_ms);
    reveal_strlit("0123456789*#ABCD");
    reveal_strlit("Signal=");
    reveal_strlit("\nDuration=");
    reveal_strlit("Duration=");
    assert(digit.character() != '\n' && digit.character() != '\r');
    crate::text::lemma_decimal(duration_ms as nat);
    assert(first.len() == 8);
    assert(body.skip(9) =~= second);
    assert(body.take(8) =~= first);
    assert forall|i: int| 0 <= i < 8 implies body[i] != '\n' by {
        assert(body[i] == first[i]);
    }
    assert(body[8] == '\n');
    crate::text::lemma_find_is(body, '\n', 8);
    assert forall|i: int| 0 <= i < second.len() implies second[i] != '\n' by {
        if i >= 9 {
            assert(crate::text::is_digit(d[i - 9]));
        }
    }
    crate::text::lemma_find_is(second, '\n', second.len() as int);
    assert(first.last() == digit.character());
    assert(crate::text::strip_cr(first) == first);
    assert(crate::text::lines_of(second) =~= seq![second]);
    assert(crate::text::lines_of(body) =~= seq![first, second]);
}

} // verus!
