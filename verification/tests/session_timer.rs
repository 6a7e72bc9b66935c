use wavekat_sip::message::{Header, HeaderKind, Response, StatusCode, Version};
use wavekat_sip::session_timer::{
    min_se_in, negotiate_uac, negotiate_uas, session_expires_in, supported_timer_header,
    supports_timer, Refresher, SessionExpires, SessionTimer, SessionTimerOutcome, TimerAction,
    TimerEvent, TimerLoop,
};
use wavekat_sip::time::Duration;

// ---- SessionExpires parse / build ----

#[test]
fn parse_bare_interval() {
    let se = SessionExpires::parse("1800").unwrap();
    assert_eq!(se.interval_secs, 1800);
    assert_eq!(se.refresher, None);
}

#[test]
fn parse_with_refresher_param() {
    let se = SessionExpires::parse("1800;refresher=uas").unwrap();
    assert_eq!(se.interval_secs, 1800);
    assert_eq!(se.refresher, Some(Refresher::Uas));
    let se = SessionExpires::parse("90;refresher=uac").unwrap();
    assert_eq!(se.refresher, Some(Refresher::Uac));
}

#[test]
fn parse_is_case_insensitive_and_whitespace_tolerant() {
    let se = SessionExpires::parse(" 600 ; Refresher = UAS ").unwrap();
    assert_eq!(se.interval_secs, 600);
    assert_eq!(se.refresher, Some(Refresher::Uas));
}

#[test]
fn parse_ignores_unknown_params() {
    let se = SessionExpires::parse("1800;foo=bar;refresher=uac;baz").unwrap();
    assert_eq!(se.refresher, Some(Refresher::Uac));
}

#[test]
fn session_timer_parse_rejects_garbage() {
    assert!(SessionExpires::parse("").is_err());
    assert!(SessionExpires::parse("soon").is_err());
    assert!(SessionExpires::parse("1800;refresher=bogus").is_err());
    assert!(SessionExpires::parse("-5").is_err());
}

#[test]
fn header_value_round_trips() {
    for se in [
        SessionExpires {
            interval_secs: 1800,
            refresher: None,
        },
        SessionExpires {
            interval_secs: 90,
            refresher: Some(Refresher::Uac),
        },
        SessionExpires {
            interval_secs: 7200,
            refresher: Some(Refresher::Uas),
        },
    ] {
        let parsed = SessionExpires::parse(&se.header_value()).unwrap();
        assert_eq!(parsed, se, "round-trip via {:?}", se.header_value());
    }
}

#[test]
fn header_builds_untyped_session_expires() {
    let h = SessionExpires {
        interval_secs: 1800,
        refresher: Some(Refresher::Uac),
    }
    .header();
    assert_eq!(h.name(), "Session-Expires");
    assert_eq!(h.value, "1800;refresher=uac");
}

// ---- header extraction ----

fn headers(items: Vec<Header>) -> Vec<Header> {
    items
}

#[test]
fn session_expires_in_finds_header_case_insensitively() {
    let h = headers(vec![Header::other("session-expires", "600;refresher=uas")]);
    let se = session_expires_in(&h).unwrap();
    assert_eq!(se.interval_secs, 600);
    assert_eq!(se.refresher, Some(Refresher::Uas));
}

#[test]
fn session_expires_in_accepts_compact_form() {
    // RFC 4028 §4 defines `x` as the compact form of Session-Expires.
    let h = headers(vec![Header::other("x", "300")]);
    assert_eq!(
        session_expires_in(&h),
        Some(SessionExpires {
            interval_secs: 300,
            refresher: None
        })
    );
}

#[test]
fn session_expires_in_absent_or_malformed_is_none() {
    assert_eq!(session_expires_in(&headers(vec![])), None);
    let h = headers(vec![Header::other("Session-Expires", "soon")]);
    assert_eq!(session_expires_in(&h), None);
}

#[test]
fn min_se_in_parses_and_ignores_params() {
    let h = headers(vec![Header::other("Min-SE", "120")]);
    assert_eq!(min_se_in(&h), Some(120));
    let h = headers(vec![Header::other("min-se", "240;lr")]);
    assert_eq!(min_se_in(&h), Some(240));
    assert_eq!(min_se_in(&headers(vec![])), None);
    let h = headers(vec![Header::other("Min-SE", "never")]);
    assert_eq!(min_se_in(&h), None);
}

#[test]
fn supports_timer_scans_typed_untyped_and_compact() {
    assert!(supports_timer(&headers(vec![supported_timer_header()])));
    assert!(supports_timer(&headers(vec![Header::new(
        HeaderKind::Supported,
        "100rel, timer"
    )])));
    assert!(supports_timer(&headers(vec![Header::other("k", "timer")])));
    assert!(supports_timer(&headers(vec![Header::other("Supported", "TIMER")])));
    assert!(!supports_timer(&headers(vec![])));
    assert!(!supports_timer(&headers(vec![Header::new(
        HeaderKind::Supported,
        "100rel"
    )])));
    // `timer` must be a whole option tag, not a substring.
    assert!(!supports_timer(&headers(vec![Header::new(
        HeaderKind::Supported,
        "timers"
    )])));
}

// ---- interval math (RFC 4028 §10) ----

#[test]
fn refresh_fires_at_half_the_interval() {
    let t = SessionTimer {
        interval_secs: 1800,
        we_are_refresher: true,
    };
    assert_eq!(t.refresh_after(), Duration::from_secs(900));
    let t = SessionTimer {
        interval_secs: 90,
        we_are_refresher: true,
    };
    assert_eq!(t.refresh_after(), Duration::from_secs(45));
}

#[test]
fn expiry_keeps_min_of_32s_or_a_third_headroom() {
    // Long interval: headroom caps at 32 s.
    let t = SessionTimer {
        interval_secs: 1800,
        we_are_refresher: false,
    };
    assert_eq!(t.expiry_after(), Duration::from_secs(1768));
    // Short interval: a third of 90 s = 30 s < 32 s.
    let t = SessionTimer {
        interval_secs: 90,
        we_are_refresher: false,
    };
    assert_eq!(t.expiry_after(), Duration::from_secs(60));
}

// ---- negotiation: UAC side ----

#[test]
fn uac_no_session_expires_means_no_timer() {
    assert_eq!(negotiate_uac(&headers(vec![])), None);
}

#[test]
fn uac_refresher_uas_means_peer_refreshes() {
    let h = headers(vec![Header::other("Session-Expires", "1800;refresher=uas")]);
    assert_eq!(
        negotiate_uac(&h),
        Some(SessionTimer {
            interval_secs: 1800,
            we_are_refresher: false
        })
    );
}

#[test]
fn uac_refresher_uac_or_missing_means_we_refresh() {
    let h = headers(vec![Header::other("Session-Expires", "600;refresher=uac")]);
    assert!(negotiate_uac(&h).unwrap().we_are_refresher);
    // RFC 4028 §9 says the 2xx MUST pin the refresher; a peer that
    // omits it gets the defensive default: we refresh.
    let h = headers(vec![Header::other("Session-Expires", "600")]);
    assert!(negotiate_uac(&h).unwrap().we_are_refresher);
}

#[test]
fn uac_floors_tiny_grants_at_90s() {
    let h = headers(vec![Header::other("Session-Expires", "20;refresher=uac")]);
    assert_eq!(negotiate_uac(&h).unwrap().interval_secs, 90);
}

// ---- negotiation: UAS side ----

fn invite_headers(session_expires: &str, min_se: Option<&str>, timer: bool) -> Vec<Header> {
    let mut items = vec![Header::other("Session-Expires", session_expires)];
    if let Some(m) = min_se {
        items.push(Header::other("Min-SE", m));
    }
    if timer {
        items.push(supported_timer_header());
    }
    headers(items)
}

#[test]
fn uas_no_session_expires_means_no_timer() {
    assert_eq!(
        negotiate_uas(&headers(vec![supported_timer_header()])),
        None
    );
}

#[test]
fn uas_default_makes_supporting_peer_the_refresher() {
    let uas = negotiate_uas(&invite_headers("1800", None, true)).unwrap();
    assert_eq!(uas.timer.interval_secs, 1800);
    assert!(!uas.timer.we_are_refresher, "peer (UAC) should refresh");
    assert_eq!(
        uas.echo,
        SessionExpires {
            interval_secs: 1800,
            refresher: Some(Refresher::Uac)
        }
    );
    assert!(uas.require_timer);
}

#[test]
fn uas_honors_requested_refresher_uas() {
    let uas = negotiate_uas(&invite_headers("1800;refresher=uas", None, true)).unwrap();
    assert!(uas.timer.we_are_refresher, "we (UAS) were asked to refresh");
    assert_eq!(uas.echo.refresher, Some(Refresher::Uas));
}

#[test]
fn uas_without_peer_support_takes_refresher_role() {
    // A proxy inserted Session-Expires but the UAC itself never
    // advertised `Supported: timer` — it can't refresh, so we must,
    // and we must not Require: timer in the 2xx.
    let uas = negotiate_uas(&invite_headers("1800;refresher=uac", None, false)).unwrap();
    assert!(uas.timer.we_are_refresher);
    assert_eq!(uas.echo.refresher, Some(Refresher::Uas));
    assert!(!uas.require_timer);
}

#[test]
fn uas_floors_interval_at_min_se_and_90s() {
    // Requested 30 s with Min-SE 120 → 120 s.
    let uas = negotiate_uas(&invite_headers("30", Some("120"), true)).unwrap();
    assert_eq!(uas.timer.interval_secs, 120);
    assert_eq!(uas.echo.interval_secs, 120);
    // Requested 30 s without Min-SE → RFC floor of 90 s.
    let uas = negotiate_uas(&invite_headers("30", None, true)).unwrap();
    assert_eq!(uas.timer.interval_secs, 90);
}

// ---- the running timer ----

fn response(code: u16, extra: Vec<Header>) -> Response {
    Response {
        status_code: StatusCode::from_code(code),
        version: Version::V2,
        headers: headers(extra),
        body: Vec::new(),
    }
}

fn timer(interval_secs: u32, we_are_refresher: bool) -> SessionTimer {
    SessionTimer {
        interval_secs,
        we_are_refresher,
    }
}

fn waits(action: &TimerAction) -> Duration {
    match action {
        TimerAction::Wait(d) => *d,
        other => panic!("expected a wait, got {other:?}"),
    }
}

fn refresh_value(action: &TimerAction) -> String {
    match action {
        TimerAction::Refresh(h) => {
            assert!(supports_timer(h));
            session_expires_in(h).unwrap().header_value()
        }
        other => panic!("expected a refresh, got {other:?}"),
    }
}

#[test]
fn refresher_sends_refresh_every_half_interval() {
    let (mut run, mut action) = TimerLoop::start(timer(180, true));
    for _ in 0..2 {
        assert_eq!(waits(&action), Duration::from_secs(90));
        action = run.on_event(&TimerEvent::Elapsed);
        assert_eq!(refresh_value(&action), "180;refresher=uac");
        action = run.on_event(&TimerEvent::Refreshed(response(200, vec![])));
    }
    assert_eq!(waits(&action), Duration::from_secs(90));
    action = run.on_event(&TimerEvent::Elapsed);
    assert_eq!(refresh_value(&action), "180;refresher=uac");
    assert!(matches!(
        run.on_event(&TimerEvent::NotConfirmed),
        TimerAction::Stop(SessionTimerOutcome::DialogGone)
    ));
}

#[test]
fn refresher_adopts_interval_granted_in_refresh_response() {
    let regrant = response(200, vec![Header::other("Session-Expires", "360;refresher=uac")]);
    let (mut run, action) = TimerLoop::start(timer(180, true));
    assert_eq!(waits(&action), Duration::from_secs(90), "first at 180/2");
    let action = run.on_event(&TimerEvent::Elapsed);
    assert_eq!(refresh_value(&action), "180;refresher=uac");
    let action = run.on_event(&TimerEvent::Refreshed(regrant));
    assert_eq!(waits(&action), Duration::from_secs(180), "360/2 after the re-grant");
    assert_eq!(refresh_value(&run.on_event(&TimerEvent::Elapsed)), "360;refresher=uac");
}

#[test]
fn refresher_rejected_refresh_sends_bye() {
    let (mut run, _) = TimerLoop::start(timer(180, true));
    assert!(matches!(run.on_event(&TimerEvent::Elapsed), TimerAction::Refresh(_)));
    assert!(matches!(
        run.on_event(&TimerEvent::Refreshed(response(481, vec![]))),
        TimerAction::HangUp(SessionTimerOutcome::RefreshFailed)
    ));
}

#[test]
fn refresher_transport_error_sends_bye() {
    let (mut run, _) = TimerLoop::start(timer(180, true));
    assert!(matches!(run.on_event(&TimerEvent::Elapsed), TimerAction::Refresh(_)));
    assert!(matches!(
        run.on_event(&TimerEvent::RefreshError),
        TimerAction::HangUp(SessionTimerOutcome::RefreshFailed)
    ));
}

#[test]
fn refresher_cancellation_wins_before_first_refresh() {
    let (mut run, _) = TimerLoop::start(timer(180, true));
    assert!(matches!(
        run.on_event(&TimerEvent::Cancelled),
        TimerAction::Stop(SessionTimerOutcome::Cancelled)
    ));
}

#[test]
fn watchdog_sends_bye_when_session_lapses() {
    let (mut run, action) = TimerLoop::start(timer(90, false));
    // 90 - min(32, 90/3) = 60 s.
    assert_eq!(waits(&action), Duration::from_secs(60));
    assert!(matches!(
        run.on_event(&TimerEvent::Elapsed),
        TimerAction::HangUp(SessionTimerOutcome::Expired)
    ));
}

#[test]
fn watchdog_resets_deadline_on_peer_refresh() {
    let (mut run, _) = TimerLoop::start(timer(90, false));
    let action = run.on_event(&TimerEvent::PeerRefreshed);
    assert_eq!(waits(&action), Duration::from_secs(60));
    assert!(matches!(
        run.on_event(&TimerEvent::Elapsed),
        TimerAction::HangUp(SessionTimerOutcome::Expired)
    ));
}

#[test]
fn watchdog_cancellation_stands_down_without_bye() {
    let (mut run, _) = TimerLoop::start(timer(90, false));
    assert!(matches!(
        run.on_event(&TimerEvent::Cancelled),
        TimerAction::Stop(SessionTimerOutcome::Cancelled)
    ));
}

#[test]
fn the_two_sides_agree_on_who_refreshes() {
    for value in ["1800", "1800;refresher=uas", "30;refresher=uac"] {
        let uas = negotiate_uas(&invite_headers(value, None, true)).unwrap();
        let uac = negotiate_uac(&headers(vec![uas.echo.header()])).unwrap();
        assert_eq!(uac.interval_secs, uas.timer.interval_secs);
        assert_ne!(uac.we_are_refresher, uas.timer.we_are_refresher);
    }
}

#[test]
fn tiny_intervals_run_at_the_floor() {
    let (_, action) = TimerLoop::start(timer(20, true));
    assert_eq!(waits(&action), Duration::from_secs(45));
}

#[test]
fn a_refresher_goes_on_waiting_when_the_peer_refreshes() {
    let (mut run, _) = TimerLoop::start(timer(180, true));
    assert!(matches!(run.on_event(&TimerEvent::PeerRefreshed), TimerAction::KeepWaiting));
    assert!(matches!(run.on_event(&TimerEvent::Elapsed), TimerAction::Refresh(_)));
}

#[test]
fn a_refresh_is_due_before_any_session_expires() {
    for (interval_secs, refresh, expiry) in [
        (1, 0, 1),
        (2, 1, 2),
        (3, 1, 2),
        (4, 2, 3),
        (89, 44, 60),
        (90, 45, 60),
        (95, 47, 64),
        (96, 48, 64),
        (99, 49, 67),
    ] {
        let timer = SessionTimer { interval_secs, we_are_refresher: true };
        assert_eq!(timer.refresh_after(), Duration::from_secs(refresh));
        assert_eq!(timer.expiry_after(), Duration::from_secs(expiry));
        assert!(refresh < expiry && expiry <= u64::from(interval_secs));
    }
}
