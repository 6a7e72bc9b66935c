//! RFC 4028 session timers, which keep a call from outliving a dead dialog: one side refreshes
//! the session periodically, the other hangs up when no refresh arrives in time.
//!
//! [`SessionExpires`] reads and writes the `Session-Expires` header; [`negotiate_uac`] and
//! [`negotiate_uas`] settle the [`SessionTimer`]; [`TimerLoop`] runs it.

use crate::message::{
    header_views, push_header, Header, HeaderKind, HeaderView, Response, ResponseView,
};
use crate::text::{
    chars_of, debug_text, decimal, find, is_digit, joined, lemma_decimal, lemma_find_is,
    lemma_pieces_joined, lemma_trimmed, lemma_unsigned_decimal, lowered, parse_unsigned, pieces,
    pieces_of, position, push_decimal, quoted, same, string_of, texts, to_lower, trim, trimmed,
    unsigned, IntError,
};
use crate::time::{seconds, Duration};
use vstd::prelude::*;
use vstd::string::*;

verus! {

/// Smallest session interval, in seconds.
pub const MIN_SESSION_EXPIRES_SECS: u32 = 90;

/// Session interval requested on outbound INVITEs, in seconds.
pub const DEFAULT_SESSION_EXPIRES_SECS: u32 = 1800;

/// At most this long before the session expires, the watching side hangs up, in seconds.
pub const MAX_EXPIRY_HEADROOM_SECS: u32 = 32;

/// Which side of the INVITE transaction refreshes.
#[derive(Debug, Clone, Copy, PartialEq, Eq, Structural)]
pub enum Refresher {
    /// The party that sent the request.
    Uac,
    /// The party that answered it.
    Uas,
}

impl Refresher {
    /// The parameter value.
    pub open spec fn text(self) -> Seq<char> {
        match self {
            Refresher::Uac => "uac"@,
            Refresher::Uas => "uas"@,
        }
    }

    /// The refresher that a parameter value names, whatever its case; else the error.
    pub open spec fn named(s: Seq<char>) -> Result<Refresher, Seq<char>> {
        if lowered(s) == "uac"@ {
            Ok(Refresher::Uac)
        } else if lowered(s) == "uas"@ {
            Ok(Refresher::Uas)
        } else {
            Err("invalid refresher value "@ + debug_text(s) + " (want uac|uas)"@)
        }
    }

    /// The parameter value in small letters.
    pub fn as_str(&self) -> (res: &'static str)
        ensures
            res@ == self.text(),
    {
        match self {
            Refresher::Uac => "uac",
            Refresher::Uas => "uas",
        }
    }

    fn parse(s: &[char]) -> (res: Result<Self, String>)
        ensures
            match res {
                Ok(r) => Refresher::named(s@) == Ok::<Refresher, Seq<char>>(r),
                Err(e) => Refresher::named(s@) == Err::<Refresher, Seq<char>>(e@),
            },
    {
        let t = to_lower(s);
        if same(&t, &chars_of("uac")) {
            Ok(Refresher::Uac)
        } else if same(&t, &chars_of("uas")) {
            Ok(Refresher::Uas)
        } else {
            let mut message = String::from_str("invalid refresher value ");
            message.append(quoted(string_of(s).as_str()).as_str());
            message.append(" (want uac|uas)");
            Err(message)
        }
    }
}

/// A `Session-Expires` value: the interval, and who refreshes.
#[derive(Debug, Clone, Copy, PartialEq, Eq, Structural)]
pub struct SessionExpires {
    /// Session interval in seconds.
    pub interval_secs: u32,
    /// Who refreshes; `None` leaves it to the answerer.
    pub refresher: Option<Refresher>,
}

/// The refresher that the parameters name: the last one counts, and one that cannot be read is
/// an error. Other parameters are ignored.
pub open spec fn refresher_of(params: Seq<Seq<char>>, so_far: Option<Refresher>) -> Result<
    Option<Refresher>,
    Seq<char>,
>
    decreases params.len(),
{
    if params.len() == 0 {
        Ok(so_far)
    } else {
        let p = params[0];
        let n = find(p, '=') as int;
        if n < p.len() && lowered(trimmed(p.take(n))) == "refresher"@ {
            match Refresher::named(trimmed(p.skip(n + 1))) {
                Ok(r) => refresher_of(params.skip(1), Some(r)),
                Err(e) => Err(e),
            }
        } else {
            refresher_of(params.skip(1), so_far)
        }
    }
}

/// What a `Session-Expires` value says: a number of seconds and parameters after semicolons; or
/// what is wrong with it.
pub open spec fn expires_of(value: Seq<char>) -> Result<SessionExpires, Seq<char>> {
    let parts = pieces_of(value, ';');
    let interval = trimmed(parts[0]);
    match unsigned(interval, 0xffff_ffff) {
        Err(e) => Err(
            "invalid Session-Expires interval "@ + debug_text(interval) + ": "@ + e.text(),
        ),
        Ok(n) => match refresher_of(parts.skip(1), None) {
            Ok(refresher) => Ok(SessionExpires { interval_secs: n as u32, refresher }),
            Err(e) => Err(e),
        },
    }
}

impl SessionExpires {
    /// The header value.
    pub open spec fn text(self) -> Seq<char> {
        match self.refresher {
            Some(r) => decimal(self.interval_secs as nat) + ";refresher="@ + r.text(),
            None => decimal(self.interval_secs as nat),
        }
    }

    /// The header.
    pub open spec fn header_view(self) -> HeaderView {
        HeaderView::other("Session-Expires"@, self.text())
    }

    /// Parses a `Session-Expires` header value, such as `"1800"` or `"1800;refresher=uas"`.
    pub fn parse(value: &str) -> (res: Result<Self, String>)
        ensures
            match res {
                Ok(se) => expires_of(value@) == Ok::<SessionExpires, Seq<char>>(se),
                Err(e) => expires_of(value@) == Err::<SessionExpires, Seq<char>>(e@),
            },
    {
        let v = chars_of(value);
        let parts = pieces(&v, ';');
        let ghost all = texts(parts@);
        proof {
            crate::text::lemma_joined_pieces(v@, ';');
        }
        assert(all.len() == parts@.len());
        assert(all[0] == parts@[0]@);
        let interval = trim(&parts[0]);
        let interval_secs: u32 = match parse_unsigned(interval, 0xffff_ffff) {
            Ok(n) => n as u32,
            Err(e) => {
                let mut message = String::from_str("invalid Session-Expires interval ");
                message.append(quoted(string_of(interval).as_str()).as_str());
                message.append(": ");
                message.append(e.to_text());
                return Err(message);
            },
        };
        let mut refresher: Option<Refresher> = None;
        let mut i: usize = 1;
        while i < parts.len()
            invariant
                1 <= i <= parts@.len(),
                all == texts(parts@),
                all == pieces_of(value@, ';'),
                unsigned(trimmed(all[0]), 0xffff_ffff) == Ok::<nat, IntError>(
                    interval_secs as nat,
                ),
                refresher_of(all.skip(i as int), refresher) == refresher_of(all.skip(1), None),
            decreases parts.len() - i,
        {
            let p = &parts[i];
            let ghost rest = all.skip(i as int);
            assert(rest[0] == p@);
            assert(rest.skip(1) =~= all.skip(i as int + 1));
            let n: usize = position(p, '=');
            if n < p.len() {
                let name = vstd::slice::slice_subrange(p, 0, n);
                assert(name@ =~= p@.take(n as int));
                if same(&to_lower(trim(name)), &chars_of("refresher")) {
                    let val = vstd::slice::slice_subrange(p, n + 1, p.len());
                    assert(val@ =~= p@.skip(n as int + 1));
                    match Refresher::parse(trim(val)) {
                        Ok(r) => {
                            refresher = Some(r);
                        },
                        Err(e) => return Err(e),
                    }
                }
            }
            i += 1;
        }
        Ok(SessionExpires { interval_secs, refresher })
    }

    /// Writes the header value, such as `"1800;refresher=uac"`.
    pub fn header_value(&self) -> (res: String)
        ensures
            res@ == self.text(),
    {
        let mut out = String::new();
        push_decimal(&mut out, self.interval_secs as u64);
        assert(out@ =~= decimal(self.interval_secs as nat));
        if let Some(r) = self.refresher {
            out.append(";refresher=");
            out.append(r.as_str());
        }
        out
    }

    /// Builds the `Session-Expires` header.
    pub fn header(&self) -> (res: Header)
        ensures
            res@ == self.header_view(),
    {
        Header::other("Session-Expires", self.header_value().as_str())
    }
}

/// Builds `Supported: timer`.
pub fn supported_timer_header() -> (res: Header)
    ensures
        res@ == HeaderView::known(HeaderKind::Supported, "timer"@),
{
    Header::new(HeaderKind::Supported, "timer")
}

/// Builds `Require: timer`.
pub fn require_timer_header() -> (res: Header)
    ensures
        res@ == HeaderView::known(HeaderKind::Require, "timer"@),
{
    Header::new(HeaderKind::Require, "timer")
}

/// The value of the first header whose own name is one of the two given, whatever its case.
pub open spec fn other_value(h: Seq<HeaderView>, a: Seq<char>, b: Seq<char>) -> Option<Seq<char>>
    decreases h.len(),
{
    if h.len() == 0 {
        None
    } else if h[0].kind == HeaderKind::Other && (lowered(h[0].label) == a || lowered(h[0].label)
        == b) {
        Some(h[0].value)
    } else {
        other_value(h.skip(1), a, b)
    }
}

fn other_header_value<'a>(headers: &'a Vec<Header>, a: &str, b: &str) -> (res: Option<&'a str>)
    ensures
        match res {
            Some(v) => other_value(header_views(headers@), a@, b@) == Some(v@),
            None => other_value(header_views(headers@), a@, b@) is None,
        },
{
    let ghost all = header_views(headers@);
    let mut i: usize = 0;
    assert(all.skip(0) =~= all);
    while i < headers.len()
        invariant
            i <= headers@.len(),
            all == header_views(headers@),
            other_value(all.skip(i as int), a@, b@) == other_value(all, a@, b@),
        decreases headers.len() - i,
    {
        assert(all.skip(i as int)[0] == headers@[i as int]@);
        assert(all.skip(i as int).skip(1) =~= all.skip(i as int + 1));
        if headers[i].kind == HeaderKind::Other {
            let name = to_lower(&chars_of(headers[i].label.as_str()));
            if same(&name, &chars_of(a)) || same(&name, &chars_of(b)) {
                return Some(headers[i].value.as_str());
            }
        }
        i += 1;
    }
    None
}

/// What the `Session-Expires` header (or its compact form `x`) of a message says; a value that
/// cannot be read counts as absent.
pub open spec fn session_expires(h: Seq<HeaderView>) -> Option<SessionExpires> {
    match other_value(h, "session-expires"@, "x"@) {
        Some(v) => match expires_of(v) {
            Ok(se) => Some(se),
            Err(_) => None,
        },
        None => None,
    }
}

/// What the `Session-Expires` header of a message says.
pub fn session_expires_in(headers: &Vec<Header>) -> (res: Option<SessionExpires>)
    ensures
        res == session_expires(header_views(headers@)),
{
    match other_header_value(headers, "session-expires", "x") {
        Some(v) => match SessionExpires::parse(v) {
            Ok(se) => Some(se),
            Err(_) => None,
        },
        None => None,
    }
}

/// The smallest interval, in seconds, that the `Min-SE` header of a message allows, without its
/// parameters; a value that cannot be read counts as absent.
pub open spec fn min_se(h: Seq<HeaderView>) -> Option<u32> {
    match other_value(h, "min-se"@, "min-se"@) {
        Some(v) => match unsigned(trimmed(pieces_of(v, ';')[0]), 0xffff_ffff) {
            Ok(n) => Some(n as u32),
            Err(_) => None,
        },
        None => None,
    }
}

/// The smallest interval that the `Min-SE` header of a message allows.
pub fn min_se_in(headers: &Vec<Header>) -> (res: Option<u32>)
    ensures
        res == min_se(header_views(headers@)),
{
    match other_header_value(headers, "min-se", "min-se") {
        Some(raw) => {
            let v = chars_of(raw);
            let parts = pieces(&v, ';');
            proof {
                crate::text::lemma_joined_pieces(v@, ';');
            }
            assert(texts(parts@).len() == parts@.len());
            assert(texts(parts@)[0] == parts@[0]@);
            match parse_unsigned(trim(&parts[0]), 0xffff_ffff) {
                Ok(n) => Some(n as u32),
                Err(_) => None,
            }
        },
        None => None,
    }
}

/// Whether one of the tags is `timer`.
pub open spec fn names_timer(tags: Seq<Seq<char>>) -> bool {
    exists|i: int| 0 <= i < tags.len() && lowered(trimmed(#[trigger] tags[i])) == "timer"@
}

/// Whether the comma-separated list of option tags holds `timer`.
pub open spec fn lists_timer(value: Seq<char>) -> bool {
    names_timer(pieces_of(value, ','))
}

fn has_timer_token(value: &str) -> (res: bool)
    ensures
        res == lists_timer(value@),
{
    let tags = pieces(&chars_of(value), ',');
    let ghost all = texts(tags@);
    assert(all.len() == tags@.len());
    let mut i: usize = 0;
    while i < tags.len()
        invariant
            i <= tags@.len(),
            all == texts(tags@),
            all.len() == tags@.len(),
            all == pieces_of(value@, ','),
            forall|j: int| 0 <= j < i ==> lowered(trimmed(#[trigger] all[j])) != "timer"@,
        decreases tags.len() - i,
    {
        assert(all[i as int] == tags@[i as int]@);
        if same(&to_lower(trim(&tags[i])), &chars_of("timer")) {
            return true;
        }
        i += 1;
    }
    false
}

/// Whether the header advertises session timers: `Supported`, or its compact form `k`, with the
/// tag `timer`.
pub open spec fn advertises_timer(h: HeaderView) -> bool {
    &&& h.kind == HeaderKind::Supported || (h.kind == HeaderKind::Other && (lowered(h.label)
        == "supported"@ || lowered(h.label) == "k"@))
    &&& lists_timer(h.value)
}

/// Whether one of the headers advertises session timers.
pub open spec fn timer_supported(h: Seq<HeaderView>) -> bool {
    exists|i: int| 0 <= i < h.len() && advertises_timer(#[trigger] h[i])
}

/// Whether a `Supported` header carries the `timer` option tag.
pub fn supports_timer(headers: &Vec<Header>) -> (res: bool)
    ensures
        res == timer_supported(header_views(headers@)),
{
    let ghost all = header_views(headers@);
    let mut i: usize = 0;
    while i < headers.len()
        invariant
            i <= headers@.len(),
            all == header_views(headers@),
            forall|j: int| 0 <= j < i ==> !advertises_timer(#[trigger] all[j]),
        decreases headers.len() - i,
    {
        let h = &headers[i];
        assert(all[i as int] == h@);
        let relevant = match h.kind {
            HeaderKind::Supported => true,
            HeaderKind::Other => {
                let name = to_lower(&chars_of(h.label.as_str()));
                same(&name, &chars_of("supported")) || same(&name, &chars_of("k"))
            },
            _ => false,
        };
        if relevant && has_timer_token(h.value.as_str()) {
            return true;
        }
        i += 1;
    }
    false
}

/// Negotiated session timer of one dialog, as this side sees it.
#[derive(Debug, Clone, Copy, PartialEq, Eq, Structural)]
pub struct SessionTimer {
    /// Session interval in seconds.
    pub interval_secs: u32,
    /// Whether this side sends the refreshes; else it watches for them.
    pub we_are_refresher: bool,
}

impl SessionTimer {
    /// Seconds after the last refresh at which the next one is due: half the interval.
    pub open spec fn refresh_secs(self) -> nat {
        (self.interval_secs / 2) as nat
    }

    /// Seconds after the last refresh at which the watching side hangs up: the interval less a
    /// third of it, but at most 32 seconds less.
    pub open spec fn expiry_secs(self) -> nat {
        let third = self.interval_secs / 3;
        (self.interval_secs - if third < 32 {
            third as int
        } else {
            32
        }) as nat
    }

    /// When the refresher sends its refresh: half the interval after the last one.
    pub fn refresh_after(&self) -> (res: Duration)
        ensures
            res == seconds(self.refresh_secs() as int),
    {
        Duration::from_secs((self.interval_secs / 2) as u64)
    }

    /// When the watching side gives up and hangs up.
    pub fn expiry_after(&self) -> (res: Duration)
        ensures
            res == seconds(self.expiry_secs() as int),
    {
        let third: u32 = self.interval_secs / 3;
        let headroom: u32 = if third < MAX_EXPIRY_HEADROOM_SECS {
            third
        } else {
            MAX_EXPIRY_HEADROOM_SECS
        };
        Duration::from_secs((self.interval_secs - headroom) as u64)
    }
}

/// The larger of two numbers.
pub open spec fn at_least(n: u32, floor: u32) -> u32 {
    if n < floor {
        floor
    } else {
        n
    }
}

fn floored(n: u32, floor: u32) -> (res: u32)
    ensures
        res == at_least(n, floor),
{
    if n < floor {
        floor
    } else {
        n
    }
}

/// The timer of the caller, from the headers of the 2xx: none without `Session-Expires`; the
/// interval is at least 90 seconds, and the caller refreshes unless the callee is named.
pub open spec fn uac_timer(h: Seq<HeaderView>) -> Option<SessionTimer> {
    match session_expires(h) {
        Some(se) => Some(
            SessionTimer {
                interval_secs: at_least(se.interval_secs, MIN_SESSION_EXPIRES_SECS),
                we_are_refresher: se.refresher != Some(Refresher::Uas),
            },
        ),
        None => None,
    }
}

/// Settles the timer of the caller from the headers of the 2xx response to its INVITE.
pub fn negotiate_uac(response_headers: &Vec<Header>) -> (res: Option<SessionTimer>)
    ensures
        res == uac_timer(header_views(response_headers@)),
{
    match session_expires_in(response_headers) {
        Some(se) => Some(
            SessionTimer {
                interval_secs: floored(se.interval_secs, MIN_SESSION_EXPIRES_SECS),
                we_are_refresher: !matches!(se.refresher, Some(Refresher::Uas)),
            },
        ),
        None => None,
    }
}

/// What the callee settles: the timer to run, and what to say in the 2xx.
#[derive(Debug, Clone, Copy, PartialEq, Eq, Structural)]
pub struct UasSessionTimer {
    /// The timer of the callee.
    pub timer: SessionTimer,
    /// `Session-Expires` for the 2xx.
    pub echo: SessionExpires,
    /// Whether the 2xx must carry `Require: timer`: the peer supports timers.
    pub require_timer: bool,
}

/// What the callee settles, from the headers of the INVITE: nothing without `Session-Expires`;
/// the interval is at least 90 seconds and at least `Min-SE`; the refresher is the one asked for,
/// the caller by default, and the callee when the caller does not support timers.
pub open spec fn uas_timer(h: Seq<HeaderView>) -> Option<UasSessionTimer> {
    match session_expires(h) {
        Some(se) => {
            let floor = at_least(
                match min_se(h) {
                    Some(n) => n,
                    None => 0,
                },
                MIN_SESSION_EXPIRES_SECS,
            );
            let interval_secs = at_least(se.interval_secs, floor);
            let refresher = if !timer_supported(h) {
                Refresher::Uas
            } else {
                match se.refresher {
                    Some(r) => r,
                    None => Refresher::Uac,
                }
            };
            Some(
                UasSessionTimer {
                    timer: SessionTimer {
                        interval_secs,
                        we_are_refresher: refresher == Refresher::Uas,
                    },
                    echo: SessionExpires { interval_secs, refresher: Some(refresher) },
                    require_timer: timer_supported(h),
                },
            )
        },
        None => None,
    }
}

/// Settles the timer of the callee from the headers of an inbound INVITE.
pub fn negotiate_uas(invite_headers: &Vec<Header>) -> (res: Option<UasSessionTimer>)
    ensures
        res == uas_timer(header_views(invite_headers@)),
{
    let se = match session_expires_in(invite_headers) {
        Some(se) => se,
        None => return None,
    };
    let min: u32 = match min_se_in(invite_headers) {
        Some(n) => n,
        None => 0,
    };
    let floor: u32 = floored(min, MIN_SESSION_EXPIRES_SECS);
    let interval_secs: u32 = floored(se.interval_secs, floor);
    let peer_supports = supports_timer(invite_headers);
    let refresher = if peer_supports {
        match se.refresher {
            Some(r) => r,
            None => Refresher::Uac,
        }
    } else {
        Refresher::Uas
    };
    Some(
        UasSessionTimer {
            timer: SessionTimer {
                interval_secs,
                we_are_refresher: refresher == Refresher::Uas,
            },
            echo: SessionExpires { interval_secs, refresher: Some(refresher) },
            require_timer: peer_supports,
        },
    )
}

/// How a session timer ended.
#[derive(Debug, Clone, Copy, PartialEq, Eq, Structural)]
pub enum SessionTimerOutcome {
    /// The call ended another way.
    Cancelled,
    /// No refresh arrived before the session lapsed; a BYE was sent.
    Expired,
    /// A refresh failed; a BYE was sent.
    RefreshFailed,
    /// The dialog was over when a refresh was due.
    DialogGone,
}

/// What a session timer does next.
#[derive(Debug)]
pub enum TimerAction {
    /// Wait for this long, or for an event.
    Wait(Duration),
    /// Go on with the wait that is running.
    KeepWaiting,
    /// Send a refresh re-INVITE with these headers.
    Refresh(Vec<Header>),
    /// Send a BYE, as well as can be, and end.
    HangUp(SessionTimerOutcome),
    /// End.
    Stop(SessionTimerOutcome),
}

/// What a session timer does next, as a view.
#[verifier::ext_equal]
pub enum TimerActionView {
    Wait(Duration),
    KeepWaiting,
    Refresh(Seq<HeaderView>),
    HangUp(SessionTimerOutcome),
    Stop(SessionTimerOutcome),
}

impl View for TimerAction {
    type V = TimerActionView;

    open spec fn view(&self) -> TimerActionView {
        match self {
            TimerAction::Wait(d) => TimerActionView::Wait(*d),
            TimerAction::KeepWaiting => TimerActionView::KeepWaiting,
            TimerAction::Refresh(h) => TimerActionView::Refresh(header_views(h@)),
            TimerAction::HangUp(o) => TimerActionView::HangUp(*o),
            TimerAction::Stop(o) => TimerActionView::Stop(*o),
        }
    }
}

/// What happened to a session timer.
#[derive(Debug)]
pub enum TimerEvent {
    /// The wait is over.
    Elapsed,
    /// The call ended another way.
    Cancelled,
    /// The peer refreshed the session.
    PeerRefreshed,
    /// A refresh was answered with this final response.
    Refreshed(Response),
    /// A refresh was not sent: the dialog is no longer confirmed.
    NotConfirmed,
    /// A refresh failed in transport.
    RefreshError,
}

/// What happened to a session timer, as a view.
pub enum TimerEventView {
    Elapsed,
    Cancelled,
    PeerRefreshed,
    Refreshed(ResponseView),
    NotConfirmed,
    RefreshError,
}

impl View for TimerEvent {
    type V = TimerEventView;

    open spec fn view(&self) -> TimerEventView {
        match self {
            TimerEvent::Elapsed => TimerEventView::Elapsed,
            TimerEvent::Cancelled => TimerEventView::Cancelled,
            TimerEvent::PeerRefreshed => TimerEventView::PeerRefreshed,
            TimerEvent::Refreshed(r) => TimerEventView::Refreshed(r@),
            TimerEvent::NotConfirmed => TimerEventView::NotConfirmed,
            TimerEvent::RefreshError => TimerEventView::RefreshError,
        }
    }
}

/// A running session timer: the refresher, which waits and refreshes in turn, or the watchdog,
/// which waits for refreshes of the peer.
#[derive(Debug, Clone, Copy, PartialEq, Eq, Structural)]
pub struct TimerLoop {
    timer: SessionTimer,
}

impl SessionTimer {
    /// The wait before the refresher refreshes, or the watchdog hangs up.
    pub open spec fn wait(self) -> TimerActionView {
        TimerActionView::Wait(
            seconds(
                if self.we_are_refresher {
                    self.refresh_secs() as int
                } else {
                    self.expiry_secs() as int
                },
            ),
        )
    }

    /// The timer with the interval that a successful refresh granted, at least 90 seconds.
    pub open spec fn regranted(self, h: Seq<HeaderView>) -> SessionTimer {
        match session_expires(h) {
            Some(se) => SessionTimer {
                interval_secs: at_least(se.interval_secs, MIN_SESSION_EXPIRES_SECS),
                ..self
            },
            None => self,
        }
    }

    /// The headers of a refresh: this side, the sender of the re-INVITE, is the refresher.
    pub open spec fn refresh_headers(self) -> Seq<HeaderView> {
        seq![
            HeaderView::known(HeaderKind::Supported, "timer"@),
            (SessionExpires {
                interval_secs: self.interval_secs,
                refresher: Some(Refresher::Uac),
            }).header_view(),
        ]
    }

    /// The timer after an event, and what it does next. The end of the wait makes the refresher
    /// refresh and the watchdog hang up. A 2xx to a refresh starts the next wait; any other
    /// answer, or none, ends the call; a dialog that is over ends the timer alone. A refresh of
    /// the peer starts the watchdog's wait again; the refresher goes on with its own.
    pub open spec fn after(self, event: TimerEventView) -> (SessionTimer, TimerActionView) {
        match event {
            TimerEventView::Cancelled => (
                self,
                TimerActionView::Stop(SessionTimerOutcome::Cancelled),
            ),
            TimerEventView::Elapsed => (
                self,
                if self.we_are_refresher {
                    TimerActionView::Refresh(self.refresh_headers())
                } else {
                    TimerActionView::HangUp(SessionTimerOutcome::Expired)
                },
            ),
            TimerEventView::PeerRefreshed => (
                self,
                if self.we_are_refresher {
                    TimerActionView::KeepWaiting
                } else {
                    self.wait()
                },
            ),
            TimerEventView::Refreshed(r) => if 200 <= r.status.code < 300 {
                let next = self.regranted(r.headers);
                (next, next.wait())
            } else {
                (self, TimerActionView::HangUp(SessionTimerOutcome::RefreshFailed))
            },
            TimerEventView::NotConfirmed => (
                self,
                TimerActionView::Stop(SessionTimerOutcome::DialogGone),
            ),
            TimerEventView::RefreshError => (
                self,
                TimerActionView::HangUp(SessionTimerOutcome::RefreshFailed),
            ),
        }
    }
}

impl TimerLoop {
    /// The timer that runs.
    pub closed spec fn timer(self) -> SessionTimer {
        self.timer
    }

    fn wait(&self) -> (res: TimerAction)
        ensures
            res@ == self.timer().wait(),
    {
        if self.timer.we_are_refresher {
            TimerAction::Wait(self.timer.refresh_after())
        } else {
            TimerAction::Wait(self.timer.expiry_after())
        }
    }

    /// Starts a timer; its interval is at least 90 seconds.
    pub fn start(timer: SessionTimer) -> (res: (Self, TimerAction))
        ensures
            res.0.timer() == (SessionTimer {
                interval_secs: at_least(timer.interval_secs, MIN_SESSION_EXPIRES_SECS),
                ..timer
            }),
            res.1@ == res.0.timer().wait(),
    {
        let run = TimerLoop {
            timer: SessionTimer {
                interval_secs: floored(timer.interval_secs, MIN_SESSION_EXPIRES_SECS),
                we_are_refresher: timer.we_are_refresher,
            },
        };
        let action = run.wait();
        (run, action)
    }

    /// Takes in an event and says what to do next.
    pub fn on_event(&mut self, event: &TimerEvent) -> (res: TimerAction)
        ensures
            (final(self).timer(), res@) == old(self).timer().after(event@),
    {
        match event {
            TimerEvent::Cancelled => TimerAction::Stop(SessionTimerOutcome::Cancelled),
            TimerEvent::Elapsed => {
                if self.timer.we_are_refresher {
                    let mut headers: Vec<Header> = Vec::new();
                    push_header(&mut headers, supported_timer_header());
                    let se = SessionExpires {
                        interval_secs: self.timer.interval_secs,
                        refresher: Some(Refresher::Uac),
                    };
                    push_header(&mut headers, se.header());
                    assert(header_views(headers@) =~= self.timer.refresh_headers());
                    TimerAction::Refresh(headers)
                } else {
                    TimerAction::HangUp(SessionTimerOutcome::Expired)
                }
            },
            TimerEvent::PeerRefreshed => if self.timer.we_are_refresher {
                TimerAction::KeepWaiting
            } else {
                self.wait()
            },
            TimerEvent::Refreshed(r) => {
                let code: u16 = r.status_code.code;
                if 200 <= code && code < 300 {
                    if let Some(granted) = session_expires_in(&r.headers) {
                        self.timer = SessionTimer {
                            interval_secs: floored(
                                granted.interval_secs,
                                MIN_SESSION_EXPIRES_SECS,
                            ),
                            we_are_refresher: self.timer.we_are_refresher,
                        };
                    }
                    self.wait()
                } else {
                    TimerAction::HangUp(SessionTimerOutcome::RefreshFailed)
                }
            },
            TimerEvent::NotConfirmed => TimerAction::Stop(SessionTimerOutcome::DialogGone),
            TimerEvent::RefreshError => TimerAction::HangUp(SessionTimerOutcome::RefreshFailed),
        }
    }
}

/// Reading a `Session-Expires` value that was written here gives it back.
pub proof fn session_expires_reads_back(se: SessionExpires)
    ensures
        expires_of(se.text()) == Ok::<SessionExpires, Seq<char>>(se),
{
    let d = decimal(se.interval_secs as nat);
    lemma_decimal(se.interval_secs as nat);
    lemma_unsigned_decimal(se.interval_secs as nat, 0xffff_ffff);
    assert(is_digit(d[0]) && is_digit(d.last()));
    lemma_trimmed(d);
    reveal_strlit("uac");
    reveal_strlit("uas");
    reveal_strlit("refresher");
    reveal_strlit(";refresher=");
    match se.refresher {
        None => {
            let p = seq![d];
            assert(joined(p, ';') == d);
            assert forall|i: int, j: int|
                0 <= i < p.len() && 0 <= j < p[i].len() implies #[trigger] p[i][j] != ';' by {
                assert(is_digit(d[j]));
            }
            lemma_pieces_joined(p, ';');
            assert(p.skip(1) =~= Seq::<Seq<char>>::empty());
        },
        Some(r) => {
            let name = "refresher"@;
            let param = name + seq!['='] + r.text();
            let p = seq![d, param];
            assert(p.skip(1) =~= seq![param]);
            assert(joined(p, ';') =~= se.text()) by {
                reveal_with_fuel(joined, 2);
            }
            assert forall|i: int, j: int|
                0 <= i < p.len() && 0 <= j < p[i].len() implies #[trigger] p[i][j] != ';' by {
                if i == 0 {
                    assert(is_digit(d[j]));
                }
            }
            lemma_pieces_joined(p, ';');
            lemma_find_is(param, '=', 9);
            assert(param.take(9) =~= name);
            assert(param.skip(10) =~= r.text());
            lemma_trimmed(name);
            lemma_trimmed(r.text());
            assert(lowered(name) =~= name);
            assert(lowered(r.text()) =~= r.text());
            assert("uac"@[2] == 'c' && "uas"@[2] == 's');
            assert(seq![param].skip(1) =~= Seq::<Seq<char>>::empty());
            assert(refresher_of(seq![param].skip(1), Some(r)) == Ok::<
                Option<Refresher>,
                Seq<char>,
            >(Some(r)));
        },
    }
}

/// Whatever was negotiated, the interval is at least 90 seconds.
pub proof fn intervals_are_floored(h: Seq<HeaderView>)
    ensures
        uac_timer(h) matches Some(t) ==> t.interval_secs >= MIN_SESSION_EXPIRES_SECS,
        uas_timer(h) matches Some(u) ==> u.timer.interval_secs >= MIN_SESSION_EXPIRES_SECS
            && u.echo.interval_secs == u.timer.interval_secs,
{
}

/// When the caller reads the header that the callee answered with, both run the same interval and
/// exactly one of them refreshes.
pub proof fn both_sides_agree(invite: Seq<HeaderView>, answer: Seq<HeaderView>)
    requires
        uas_timer(invite) matches Some(u) && session_expires(answer) == Some(u.echo),
    ensures
        ({
            let callee = uas_timer(invite)->0.timer;
            uac_timer(answer) matches Some(caller) && caller.interval_secs == callee.interval_secs
                && caller.we_are_refresher == !callee.we_are_refresher
        }),
{
    intervals_are_floored(invite);
}

/// The header that the callee answers with reads back as what it settled.
pub proof fn echo_header_reads_back(before: Seq<HeaderView>, se: SessionExpires)
    requires
        other_value(before, "session-expires"@, "x"@) is None,
    ensures
        session_expires(before.push(se.header_view())) == Some(se),
    decreases before.len(),
{
    session_expires_reads_back(se);
    let h = before.push(se.header_view());
    if before.len() == 0 {
        reveal_strlit("Session-Expires");
        reveal_strlit("session-expires");
        assert(lowered("Session-Expires"@) =~= "session-expires"@);
        assert(h[0] == se.header_view());
    } else {
        echo_header_reads_back(before.skip(1), se);
        assert(h.skip(1) =~= before.skip(1).push(se.header_view()));
        assert(h[0] == before[0]);
    }
}

/// A `Session-Expires` header reads back when no header of its name comes before it.
pub proof fn lemma_other_value(h: Seq<HeaderView>, se: SessionExpires, i: int)
    requires
        0 <= i < h.len(),
        h[i] == se.header_view(),
        forall|j: int| 0 <= j < i ==> (#[trigger] h[j]).kind != HeaderKind::Other,
    ensures
        session_expires(h) == Some(se),
    decreases i,
{
    session_expires_reads_back(se);
    if i == 0 {
        reveal_strlit("Session-Expires");
        reveal_strlit("session-expires");
        assert(lowered("Session-Expires"@) =~= "session-expires"@);
    } else {
        assert(h[0].kind != HeaderKind::Other);
        assert forall|j: int| 0 <= j < i - 1 implies (#[trigger] h.skip(1)[j]).kind
            != HeaderKind::Other by {
            assert(h[j + 1].kind != HeaderKind::Other);
        }
        lemma_other_value(h.skip(1), se, i - 1);
    }
}

/// A refresh is due before the watching side gives up, and that is no later than the session
/// expires; from three seconds on it is before.
pub proof fn refresh_comes_before_expiry(timer: SessionTimer)
    requires
        timer.interval_secs >= 1,
    ensures
        timer.refresh_secs() < timer.expiry_secs() <= timer.interval_secs,
        timer.interval_secs >= 3 ==> timer.expiry_secs() < timer.interval_secs,
{
}

/// A session timer never ends and leaves the session up: it stops without a BYE only when the call
/// ended another way, and a refresh that was not answered with a 2xx hangs up.
pub proof fn failures_hang_up(timer: SessionTimer, event: TimerEventView)
    ensures
        timer.after(event).1 is Stop ==> event is Cancelled || event is NotConfirmed,
        event is RefreshError || (event matches TimerEventView::Refreshed(r) && !(200
            <= r.status.code < 300)) ==> timer.after(event).1 == TimerActionView::HangUp(
            SessionTimerOutcome::RefreshFailed,
        ),
        event is Elapsed && !timer.we_are_refresher ==> timer.after(event).1
            == TimerActionView::HangUp(SessionTimerOutcome::Expired),
{
}

/// The interval of a running timer stays at least 90 seconds, whatever the peer grants, and its
/// role never changes.
pub proof fn running_timer_stays_floored(timer: SessionTimer, event: TimerEventView)
    requires
        timer.interval_secs >= MIN_SESSION_EXPIRES_SECS,
    ensures
        timer.after(event).0.interval_secs >= MIN_SESSION_EXPIRES_SECS,
        timer.after(event).0.we_are_refresher == timer.we_are_refresher,
{
}

/// What the caller takes from the 2xx: the interval that it names, but at least 90 seconds, and it
/// refreshes unless the 2xx leaves that to the callee. Without `Session-Expires` there is no timer.
pub proof fn caller_takes_the_timer_of_the_answer(h: Seq<HeaderView>)
    ensures
        uac_timer(h) is Some <==> session_expires(h) is Some,
        session_expires(h) matches Some(se) ==> {
            let t = uac_timer(h)->0;
            &&& t.interval_secs >= se.interval_secs
            &&& t.interval_secs >= 90
            &&& t.interval_secs == se.interval_secs || t.interval_secs == 90
            &&& t.we_are_refresher <==> se.refresher != Some(Refresher::Uas)
        },
{
}

/// What the callee settles from the INVITE: the interval asked for, but at least 90 seconds and at
/// least `Min-SE`. It refreshes when it is asked to, and when the caller does not support timers;
/// else the caller does. The 2xx echoes this, and requires timers when the caller supports them.
pub proof fn callee_settles_what_was_asked(h: Seq<HeaderView>)
    ensures
        uas_timer(h) is Some <==> session_expires(h) is Some,
        session_expires(h) matches Some(se) ==> {
            let u = uas_timer(h)->0;
            let n = u.timer.interval_secs;
            &&& n >= se.interval_secs
            &&& n >= 90
            &&& min_se(h) matches Some(floor) ==> n >= floor
            &&& n == se.interval_secs || n == 90 || min_se(h) == Some(n)
            &&& u.timer.we_are_refresher <==> !timer_supported(h) || se.refresher == Some(
                Refresher::Uas,
            )
            &&& u.echo.interval_secs == n
            &&& u.echo.refresher == Some(
                if u.timer.we_are_refresher {
                    Refresher::Uas
                } else {
                    Refresher::Uac
                },
            )
            &&& u.require_timer == timer_supported(h)
        },
{
}

/// A `Session-Expires` header counts under its name and under its compact form, whatever the case; a
/// header with another name does not.
pub proof fn compact_form_counts(label: Seq<char>, se: SessionExpires)
    ensures
        session_expires(seq![HeaderView::other(label, se.text())]) == if lowered(label)
            == "session-expires"@ || lowered(label) == "x"@ {
            Some(se)
        } else {
            None
        },
{
    let h = seq![HeaderView::other(label, se.text())];
    session_expires_reads_back(se);
    assert(h.skip(1) =~= Seq::<HeaderView>::empty());
    assert(other_value(h.skip(1), "session-expires"@, "x"@) is None);
}

/// A `Min-SE` header gives its number of seconds, whatever parameters follow.
pub proof fn min_se_reads_back(label: Seq<char>, n: u32, params: Seq<char>)
    requires
        lowered(label) == "min-se"@,
    ensures
        min_se(seq![HeaderView::other(label, decimal(n as nat))]) == Some(n),
        min_se(seq![HeaderView::other(label, decimal(n as nat) + ";"@ + params)]) == Some(n),
{
    let d = decimal(n as nat);
    let v = d + ";"@ + params;
    lemma_decimal(n as nat);
    lemma_unsigned_decimal(n as nat, 0xffff_ffff);
    assert(is_digit(d[0]) && is_digit(d.last()));
    lemma_trimmed(d);
    reveal_strlit(";");
    assert forall|i: int| 0 <= i < d.len() implies d[i] != ';' && v[i] != ';' by {
        assert(is_digit(d[i]));
        assert(v[i] == d[i]);
    }
    lemma_find_is(d, ';', d.len() as int);
    assert(v[d.len() as int] == ';');
    lemma_find_is(v, ';', d.len() as int);
    assert(v.take(d.len() as int) =~= d);
}

/// Timers are supported when any tag of a `Supported` header is `timer`, whatever its case, its
/// place in the list and the blanks around it; and not when none is.
pub proof fn any_timer_tag_counts(tags: Seq<Seq<char>>)
    requires
        tags.len() > 0,
        forall|i: int, j: int|
            0 <= i < tags.len() && 0 <= j < tags[i].len() ==> #[trigger] tags[i][j] != ',',
    ensures
        timer_supported(seq![HeaderView::known(HeaderKind::Supported, joined(tags, ','))]) <==> (
        exists|i: int| 0 <= i < tags.len() && lowered(trimmed(#[trigger] tags[i])) == "timer"@),
        !timer_supported(seq![HeaderView::known(HeaderKind::Require, joined(tags, ','))]),
{
    lemma_pieces_joined(tags, ',');
    let h = seq![HeaderView::known(HeaderKind::Supported, joined(tags, ','))];
    assert(h[0].kind == HeaderKind::Supported);
    if names_timer(tags) {
        assert(advertises_timer(h[0]));
    }
}

/// The waits of a timer: the refresher waits half the interval, the watching side a third of the
/// interval less than all of it, but at most 32 seconds less.
pub proof fn waits_follow_the_interval(timer: SessionTimer)
    ensures
        2 * timer.refresh_secs() <= timer.interval_secs <= 2 * timer.refresh_secs() + 1,
        timer.interval_secs >= 96 ==> timer.interval_secs - timer.expiry_secs() == 32,
        timer.interval_secs < 96 ==> timer.interval_secs - timer.expiry_secs()
            == timer.interval_secs / 3,
        timer.wait() == TimerActionView::Wait(
            seconds(
                if timer.we_are_refresher {
                    timer.refresh_secs() as int
                } else {
                    timer.expiry_secs() as int
                },
            ),
        ),
{
}

/// A refresh names the interval of the timer and this side, which sends it, as the refresher, and
/// supports timers. Its 2xx starts the next wait, at the interval that it grants, at least 90
/// seconds, or at the same interval when it grants none.
pub proof fn refreshes_renew_the_session(timer: SessionTimer, r: ResponseView)
    ensures
        session_expires(timer.refresh_headers()) == Some(
            SessionExpires {
                interval_secs: timer.interval_secs,
                refresher: Some(Refresher::Uac),
            },
        ),
        crate::message::first_value(timer.refresh_headers(), HeaderKind::Supported) == Some(
            "timer"@,
        ),
        timer.we_are_refresher ==> timer.after(TimerEventView::Elapsed) == (
            timer,
            TimerActionView::Refresh(timer.refresh_headers()),
        ),
        200 <= r.status.code < 300 ==> {
            let (next, action) = timer.after(TimerEventView::Refreshed(r));
            &&& action == next.wait()
            &&& next.we_are_refresher == timer.we_are_refresher
            &&& match session_expires(r.headers) {
                Some(se) => next.interval_secs >= se.interval_secs && next.interval_secs >= 90 && (
                next.interval_secs == se.interval_secs || next.interval_secs == 90),
                None => next.interval_secs == timer.interval_secs,
            }
        },
        timer.after(TimerEventView::PeerRefreshed) == if timer.we_are_refresher {
            (timer, TimerActionView::KeepWaiting)
        } else {
            (timer, timer.wait())
        },
{
    let se = SessionExpires {
        interval_secs: timer.interval_secs,
        refresher: Some(Refresher::Uac),
    };
    let h = timer.refresh_headers();
    lemma_other_value(h, se, 1);
    crate::message::lemma_first_value(h, HeaderKind::Supported, 0);
}

/// The last parameter that names a refresher counts, whatever the case and the blanks; parameters
/// with other names change nothing; a refresher that is neither side is an error that shows it.
pub proof fn last_refresher_counts(
    params: Seq<Seq<char>>,
    so_far: Option<Refresher>,
    name: Seq<char>,
    value: Seq<char>,
)
    requires
        refresher_of(params, so_far) is Ok,
        !name.contains('='),
    ensures
        ({
            let more = refresher_of(params.push(name + "="@ + value), so_far);
            &&& lowered(trimmed(name)) != "refresher"@ ==> more == refresher_of(params, so_far)
            &&& lowered(trimmed(name)) == "refresher"@ && lowered(trimmed(value)) == "uac"@ ==> more
                == Ok::<Option<Refresher>, Seq<char>>(Some(Refresher::Uac))
            &&& lowered(trimmed(name)) == "refresher"@ && lowered(trimmed(value)) == "uas"@ ==> more
                == Ok::<Option<Refresher>, Seq<char>>(Some(Refresher::Uas))
            &&& lowered(trimmed(name)) == "refresher"@ && lowered(trimmed(value)) != "uac"@
                && lowered(trimmed(value)) != "uas"@ ==> more == Err::<
                Option<Refresher>,
                Seq<char>,
            >(
                "invalid refresher value "@ + crate::text::debug_text(trimmed(value))
                    + " (want uac|uas)"@,
            )
        }),
    decreases params.len(),
{
    let p = name + "="@ + value;
    let all = params.push(p);
    if params.len() == 0 {
        reveal_strlit("=");
        reveal_strlit("uac");
        reveal_strlit("uas");
        assert("uac"@[2] != "uas"@[2]);
        let n = name.len() as int;
        assert forall|i: int| 0 <= i < n implies p[i] != '=' by {
            assert(name.contains(name[i]));
            assert(p[i] == name[i]);
        }
        assert(p[n] == '=');
        lemma_find_is(p, '=', n);
        assert(p.take(n) =~= name);
        assert(p.skip(n + 1) =~= value);
        assert(all[0] == p);
        assert(all.skip(1) =~= Seq::<Seq<char>>::empty());
        assert(refresher_of(all.skip(1), so_far) == Ok::<Option<Refresher>, Seq<char>>(so_far));
        assert(refresher_of(all.skip(1), Some(Refresher::Uac)) == Ok::<
            Option<Refresher>,
            Seq<char>,
        >(Some(Refresher::Uac)));
        assert(refresher_of(all.skip(1), Some(Refresher::Uas)) == Ok::<
            Option<Refresher>,
            Seq<char>,
        >(Some(Refresher::Uas)));
    } else {
        let q = params[0];
        let n = find(q, '=') as int;
        assert(all[0] == q);
        assert(all.skip(1) =~= params.skip(1).push(p));
        if n < q.len() && lowered(trimmed(q.take(n))) == "refresher"@ {
            let r = Refresher::named(trimmed(q.skip(n + 1)))->Ok_0;
            last_refresher_counts(params.skip(1), Some(r), name, value);
        } else {
            last_refresher_counts(params.skip(1), so_far, name, value);
        }
    }
}

/// A `Session-Expires` value is the interval, before the first semicolon, and the parameters behind
/// it; a value whose interval is no number is an error that shows it.
pub proof fn values_start_with_the_interval(interval: Seq<char>, params: Seq<Seq<char>>)
    requires
        !interval.contains(';'),
        forall|i: int, j: int|
            0 <= i < params.len() && 0 <= j < params[i].len() ==> #[trigger] params[i][j] != ';',
    ensures
        ({
            let value = joined(seq![interval] + params, ';');
            match unsigned(trimmed(interval), 0xffff_ffff) {
                Ok(n) => match refresher_of(params, None) {
                    Ok(refresher) => expires_of(value) == Ok::<SessionExpires, Seq<char>>(
                        SessionExpires { interval_secs: n as u32, refresher },
                    ),
                    Err(e) => expires_of(value) == Err::<SessionExpires, Seq<char>>(e),
                },
                Err(e) => expires_of(value) == Err::<SessionExpires, Seq<char>>(
                    "invalid Session-Expires interval "@ + crate::text::debug_text(
                        trimmed(interval),
                    ) + ": "@ + e.text(),
                ),
            }
        }),
{
    let parts = seq![interval] + params;
    assert forall|i: int, j: int| 0 <= i < parts.len() && 0 <= j < parts[i].len() implies #[trigger]
    parts[i][j] != ';' by {
        if i == 0 {
            assert(interval.contains(interval[j]));
        } else {
            assert(parts[i] == params[i - 1]);
        }
    }
    lemma_pieces_joined(parts, ';');
    assert(parts.skip(1) =~= params);
}

} // verus!
