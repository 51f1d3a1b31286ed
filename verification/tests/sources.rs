use kickbacks_kit::sources::{
    ad_status, installed_extension_version, parse_log_line, read_events_since, read_live_state,
    AdStatus, LiveState,
};

#[test]
fn parses_session_state_line() {
    let line = r#"2026-06-11T19:42:23.748Z [ext] info - session.state {"signedIn":true,"authHealthy":"ok","injectionOn":true,"killed":false,"hasAd":true,"ccVersion":"2.1.173"}"#;
    let ev = parse_log_line(line).expect("should parse");
    assert_eq!(ev.name, "session.state");
    assert_eq!(ev.signed_in, Some(true));
    assert_eq!(ev.injection_on, Some(true));
    assert_eq!(ev.killed, Some(false));
    assert_eq!(ev.has_ad, Some(true));
    assert_eq!(ev.cc_version.as_deref(), Some("2.1.173"));
    assert!(ev.ts_ms > 0);
}

#[test]
fn parses_event_without_json() {
    let line = "2026-06-11T19:42:13.838Z [ext] info - boot.cycle.start {}";
    let ev = parse_log_line(line).expect("should parse");
    assert_eq!(ev.name, "boot.cycle.start");
    assert_eq!(ev.signed_in, None);
}

#[test]
fn skips_blank_and_malformed() {
    assert!(parse_log_line("").is_none());
    assert!(parse_log_line("   ").is_none());
    assert!(parse_log_line("not a real line").is_none());
}

#[test]
fn since_filter_is_strict() {
    let line = "2026-06-11T19:42:13.838Z [ext] info - x {}";
    let ev = parse_log_line(line).unwrap();
    assert!(ev.ts_iso.as_str() > "2026-06-11T19:00:00.000Z");
    assert!(ev.ts_iso.as_str() <= "2026-06-11T20:00:00.000Z");
}

fn state(signed: bool, injection: bool, killed: bool) -> LiveState {
    LiveState {
        signed_in: Some(signed),
        injection_on: Some(injection),
        killed: Some(killed),
        ..Default::default()
    }
}

#[test]
fn ad_status_killswitch_takes_priority() {
    // Signed in, injection on, fresh ad, but killed -> Paused.
    assert_eq!(ad_status(&state(true, true, true), true), AdStatus::Paused);
}

#[test]
fn ad_status_live_and_idle() {
    assert_eq!(ad_status(&state(true, true, false), true), AdStatus::Live);
    assert_eq!(ad_status(&state(true, true, false), false), AdStatus::Idle);
}

#[test]
fn ad_status_signed_out_and_injection_off() {
    assert_eq!(
        ad_status(&state(false, true, false), true),
        AdStatus::SignedOut
    );
    assert_eq!(
        ad_status(&state(true, false, false), true),
        AdStatus::InjectionOff
    );
}

#[test]
fn timestamps_are_read_to_the_millisecond() {
    let ev = parse_log_line("1970-01-01T00:00:01.500Z [ext] info - x {}").unwrap();
    assert_eq!(ev.ts_ms, 1_500);
    let ev = parse_log_line("1970-01-01T01:00:00+01:00 [ext] info - x {}").unwrap();
    assert_eq!(ev.ts_ms, 0);
}

#[test]
fn an_unreadable_tail_leaves_the_members_out() {
    let line = r#"2026-06-11T19:42:23.748Z [ext] info - session.state {"signedIn":true,"killed":tru}"#;
    let ev = parse_log_line(line).unwrap();
    assert_eq!(ev.name, "session.state");
    assert_eq!(ev.ts_iso, "2026-06-11T19:42:23.748Z");
    assert_eq!(ev.raw, line);
    assert_eq!(ev.signed_in, None);
    assert_eq!(ev.has_ad, None);
    assert_eq!(ev.injection_on, None);
    assert_eq!(ev.killed, None);
    assert_eq!(ev.cc_version, None);
    // A member of another type is left out alone.
    let line = r#"2026-06-11T19:42:23.748Z [ext] info - s {"signedIn":"yes","killed":true}"#;
    let ev = parse_log_line(line).unwrap();
    assert_eq!((ev.signed_in, ev.killed), (None, Some(true)));
}

#[test]
fn events_are_read_after_a_watermark_only() {
    let log = "2026-06-11T10:00:00.000Z [ext] info - a {}\n\
               2026-06-11T11:00:00.000Z [ext] info - b {}\n\
               garbage\n\
               2026-06-11T12:00:00.000Z [ext] info - c {}\n";
    let all = read_events_since(Some(log), None);
    assert_eq!(all.len(), 3);
    let after = read_events_since(Some(log), Some("2026-06-11T11:00:00.000Z"));
    assert_eq!(after.len(), 1);
    assert_eq!(after[0].name, "c");
    assert!(read_events_since(None, None).is_empty());
}

#[test]
fn the_live_state_keeps_the_latest_of_each_flag() {
    let log = concat_lines(&[
        r#"2026-06-11T10:00:00.000Z [ext] info - session.state {"signedIn":true,"killed":true}"#,
        r#"2026-06-11T11:00:00.000Z [ext] info - session.state {"killed":false,"ccVersion":"2.0"}"#,
    ]);
    let st = read_live_state(Some(&log));
    assert_eq!(st.signed_in, Some(true));
    assert_eq!(st.killed, Some(false));
    assert_eq!(st.cc_version.as_deref(), Some("2.0"));
    assert_eq!(st.last_ts_iso.as_deref(), Some("2026-06-11T11:00:00.000Z"));
    assert_eq!(read_live_state(None).signed_in, None);
}

fn concat_lines(lines: &[&str]) -> String {
    let mut out = String::new();
    for l in lines {
        out.push_str(l);
        out.push('\n');
    }
    out
}

#[test]
fn labels_of_every_status() {
    assert_eq!(AdStatus::SignedOut.label(), "SIGNED OUT");
    assert_eq!(
        AdStatus::Paused.label(),
        "PAUSED (kickbacks killswitch active)"
    );
    assert_eq!(AdStatus::InjectionOff.label(), "OFF (ad injection disabled)");
    assert_eq!(AdStatus::Live.label(), "LIVE (ad showing now)");
    assert!(AdStatus::Idle.label().starts_with("IDLE (no active "));
    assert!(AdStatus::Live.is_live());
    assert!(!AdStatus::Idle.is_live());
}

#[test]
fn the_highest_installed_version_wins_numerically() {
    let names = vec![
        "kickbacksai.kickbacks-ai-0.3.9".to_string(),
        "other.thing-9.9.9".to_string(),
        "kickbacksai.kickbacks-ai-0.3.10".to_string(),
    ];
    assert_eq!(
        installed_extension_version(&names).as_deref(),
        Some("0.3.10")
    );
    assert_eq!(installed_extension_version(&Vec::new()), None);
}
