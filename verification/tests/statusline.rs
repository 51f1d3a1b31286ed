use kickbacks_kit::archive::Stats;
use kickbacks_kit::feed::{FeedItem, FeedKind, FeedSnapshot};
use kickbacks_kit::model::CliAd;
use kickbacks_kit::sources::{AdStatus, LiveState};
use kickbacks_kit::statusline::{
    ad_is_fresh, compose, feed_alert, format_line, line_width, strip_controls, styled_alert, Alert,
};

fn ad(text: &str) -> CliAd {
    CliAd {
        ad_text: text.to_string(),
        click_url: Some("https://example.com/".to_string()),
        icon_url: None,
        icon_ref: None,
        ts: 0,
    }
}

fn stats() -> Stats {
    Stats {
        sightings_today: 12,
        advertisers: 17,
        ..Stats::default()
    }
}

fn psa() -> Alert {
    Alert {
        text: "▲ A bot army is attacking us".to_string(),
        urgent: true,
    }
}

#[test]
fn ad_and_stats_share_the_line() {
    let a = ad("Ramp - business cards that close themselves");
    let line = format_line(Some(&a), Some(&stats()), AdStatus::Live, 120, false, None);
    assert_eq!(
        line,
        "ad· Ramp - business cards that close themselves  ·  kb 12 today · 17 advs · ● live"
    );
}

#[test]
fn without_ad_only_stats_print() {
    let line = format_line(None, Some(&stats()), AdStatus::Idle, 120, false, None);
    assert_eq!(line, "kb 12 today · 17 advs · ○ idle");
}

#[test]
fn long_ad_is_truncated_to_width_but_never_dropped() {
    let a = ad(&"x".repeat(300));
    let line = format_line(Some(&a), Some(&stats()), AdStatus::Live, 80, false, None);
    assert!(line.chars().count() <= 80);
    assert!(line.starts_with("ad· "));
    assert!(line.contains("kb 12 today"));
}

#[test]
fn colored_ad_carries_an_osc8_hyperlink() {
    let a = ad("Solo - run your agents");
    let line = format_line(Some(&a), Some(&stats()), AdStatus::Live, 120, true, None);
    assert!(line.contains("\x1b]8;;https://example.com/"));
    assert!(line.contains("\x1b[32m●\x1b[0m"));
}

#[test]
fn control_chars_in_ad_text_are_stripped() {
    let a = ad("Evil\x1b]0;pwned\x07 - ad");
    let line = format_line(Some(&a), None, AdStatus::Live, 120, false, None);
    assert!(!line.contains('\x1b'));
    assert!(!line.contains('\x07'));
    assert!(line.contains("Evil]0;pwned - ad"));
}

#[test]
fn paused_status_is_visible_without_stats() {
    let line = format_line(None, None, AdStatus::Paused, 120, false, None);
    assert_eq!(line, "kb ● paused");
}

#[test]
fn alert_appended_when_there_is_room() {
    let a = ad("Ramp - cards");
    let line = format_line(
        Some(&a),
        Some(&stats()),
        AdStatus::Live,
        120,
        false,
        Some(&psa()),
    );
    assert!(line.contains("▲ A bot army"));
    // The ad still leads the line.
    assert!(line.starts_with("ad· Ramp"));
}

#[test]
fn alert_is_dropped_before_the_ad_is_squeezed() {
    // A long ad on a narrow line: the alert yields so the ad keeps its room.
    let a = ad(&"x".repeat(200));
    let line = format_line(
        Some(&a),
        Some(&stats()),
        AdStatus::Live,
        80,
        false,
        Some(&psa()),
    );
    assert!(line.chars().count() <= 80);
    assert!(!line.contains("bot army"));
    assert!(line.contains("kb 12 today"));
}

#[test]
fn urgent_alert_is_red_when_colored() {
    let line = format_line(
        None,
        Some(&stats()),
        AdStatus::Live,
        120,
        true,
        Some(&psa()),
    );
    assert!(line.contains("\x1b[31m▲ A bot army"));
}

#[test]
fn the_alert_is_dropped_before_the_ad_is_truncated() {
    // The stats take 30 columns, the alert 28, the separators 5 each: beside
    // them a line of 120 columns leaves the ad 52.
    let fits = ad(&"x".repeat(48));
    let line = format_line(Some(&fits), Some(&stats()), AdStatus::Live, 120, false, Some(&psa()));
    assert!(line.contains("bot army"));
    assert_eq!(line.chars().count(), 120);
    let longer = ad(&"x".repeat(56));
    let line = format_line(Some(&longer), Some(&stats()), AdStatus::Live, 120, false, Some(&psa()));
    assert_eq!(
        line,
        format!("ad· {}  ·  kb 12 today · 17 advs · ● live", "x".repeat(56))
    );
    // The ad's comfortable room is kept free also where the ad is short.
    let short = ad("x");
    let line = format_line(Some(&short), Some(&stats()), AdStatus::Live, 92, false, Some(&psa()));
    assert!(line.contains("bot army"));
    let line = format_line(Some(&short), Some(&stats()), AdStatus::Live, 91, false, Some(&psa()));
    assert!(!line.contains("bot army"));
}

#[test]
fn an_alert_without_an_ad_needs_only_to_fit() {
    let line = format_line(None, Some(&stats()), AdStatus::Idle, 63, false, Some(&psa()));
    assert_eq!(
        line,
        "kb 12 today · 17 advs · ○ idle  ·  ▲ A bot army is attacking us"
    );
    let line = format_line(None, Some(&stats()), AdStatus::Idle, 62, false, Some(&psa()));
    assert_eq!(line, "kb 12 today · 17 advs · ○ idle");
}

#[test]
fn the_ad_keeps_its_minimum_on_narrow_lines() {
    let a = ad(&"x".repeat(100));
    let line = format_line(Some(&a), None, AdStatus::SignedOut, 0, false, None);
    assert_eq!(line, format!("ad· {}…  ·  kb ○ signed out", "x".repeat(11)));
}

#[test]
fn long_alerts_are_cut() {
    let alert = Alert {
        text: "y".repeat(50),
        urgent: false,
    };
    let line = format_line(None, None, AdStatus::InjectionOff, 200, true, Some(&alert));
    assert_eq!(
        line,
        format!(
            "kb \x1b[33m○\x1b[0m ads off  ·  \x1b[33m{}…\x1b[0m",
            "y".repeat(37)
        )
    );
}

#[test]
fn a_colored_line_in_full() {
    let a = ad("A");
    let line = format_line(Some(&a), None, AdStatus::Paused, 120, true, None);
    assert_eq!(
        line,
        "\x1b]8;;https://example.com/\x1b\\ad· A\x1b]8;;\x1b\\  ·  kb \x1b[31m●\x1b[0m paused"
    );
    let unlinked = CliAd {
        click_url: None,
        ..ad("A")
    };
    let line = format_line(Some(&unlinked), None, AdStatus::Live, 120, true, None);
    assert_eq!(line, "ad· A  ·  kb \x1b[32m●\x1b[0m live");
}

#[test]
fn alert_segments() {
    assert_eq!(styled_alert("a", true, false), "  ·  a");
    assert_eq!(styled_alert("a", true, true), "  ·  \x1b[31ma\x1b[0m");
    assert_eq!(styled_alert("a", false, true), "  ·  \x1b[33ma\x1b[0m");
    assert_eq!(strip_controls("a\u{7f}b\u{85}c\td"), "abcd");
}

#[test]
fn a_bulletin_comes_before_a_new_version() {
    let version = FeedItem::new(FeedKind::Version, "Extension synced to v0.3.10", "", None, None, "v");
    let psa = FeedItem::new(FeedKind::Bulletin, "PSA", "", None, None, "b");
    let mut snap = FeedSnapshot {
        items: vec![version],
        ..Default::default()
    };
    let alert = feed_alert(&snap, Some("0.3.9")).unwrap();
    assert_eq!(alert.text, "↑ ext v0.3.10");
    assert!(!alert.urgent);
    assert!(feed_alert(&snap, Some("0.3.10")).is_none());
    assert!(feed_alert(&snap, Some("0.4")).is_none());
    assert!(feed_alert(&snap, None).is_none());
    snap.items.push(psa);
    let alert = feed_alert(&snap, None).unwrap();
    assert_eq!(alert.text, "▲ PSA");
    assert!(alert.urgent);
}

#[test]
fn stale_ads_are_not_shown() {
    let a = ad("A");
    assert!(ad_is_fresh(Some(&a), 600_000));
    assert!(!ad_is_fresh(Some(&a), 600_001));
    assert!(ad_is_fresh(Some(&a), -5));
    assert!(!ad_is_fresh(None, 0));
    let state = LiveState {
        signed_in: Some(true),
        injection_on: Some(true),
        ..Default::default()
    };
    assert_eq!(
        compose(Some(&a), &state, None, None, 600_000, 120, true),
        "ad· A  ·  kb ● live"
    );
    assert_eq!(
        compose(Some(&a), &state, None, None, 600_001, 120, true),
        "kb ○ idle"
    );
}

#[test]
fn the_width_is_asked_for_or_found_or_assumed() {
    assert_eq!(line_width(Some(80), Some("90")), 80);
    assert_eq!(line_width(None, Some("90")), 90);
    assert_eq!(line_width(None, Some("wide")), 120);
    assert_eq!(line_width(None, Some("-1")), 120);
    assert_eq!(line_width(None, None), 120);
}
