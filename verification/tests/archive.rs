use kickbacks_kit::archive::Archive;
use kickbacks_kit::capture::capture_pass;
use kickbacks_kit::feed::{FeedItem, FeedKind};
use kickbacks_kit::model::{has_ad, host_of, CliAd};
use kickbacks_kit::sources::parse_log_line;
use sha2::Digest;

fn ad(text: &str, url: Option<&str>, ts: i64) -> CliAd {
    CliAd {
        ad_text: text.to_string(),
        click_url: url.map(str::to_string),
        icon_url: None,
        icon_ref: None,
        ts,
    }
}

// ---- ads --------------------------------------------------------------------

#[test]
fn advertisers_and_taglines() {
    let a = ad("Tailscale · the VPN that disappears", None, 0);
    assert_eq!(a.advertiser(), "Tailscale");
    assert_eq!(a.tagline(), "the VPN that disappears");
    let b = ad("no separator", Some("https://www.ramp.com/x"), 0);
    assert_eq!(b.advertiser(), host_of("https://www.ramp.com/x").unwrap());
}

#[test]
fn hosts_of_urls() {
    assert_eq!(host_of("https://tailscale.com/").as_deref(), Some("tailscale.com"));
    assert_eq!(host_of("https://"), None);
    assert_eq!(host_of("http://a.b/c?d#e").as_deref(), Some("a.b"));
}

#[test]
fn a_creative_is_identified_by_url_and_text() {
    let a = ad("text", Some("url"), 1);
    let b = ad("text", Some("url"), 2);
    assert_eq!(a.id(), b.id());
    assert_ne!(a.id(), ad("text", Some("other"), 1).id());
    assert_eq!(a.id().len(), 16);
    let digest = sha2::Sha256::digest(b"url\ntext");
    let mut expected = String::new();
    for byte in digest.iter().take(8) {
        expected.push_str(&format!("{byte:02x}"));
    }
    assert_eq!(a.id(), expected);
}

#[test]
fn a_blank_ad_file_holds_no_ad() {
    assert!(!has_ad(None));
    assert!(!has_ad(Some("  \n")));
    assert!(has_ad(Some("{}")));
}

// ---- captures ---------------------------------------------------------------

#[test]
fn capturing_a_rotation_twice_records_it_once() {
    let mut archive = Archive::open_in_memory();
    let a = ad("Ramp · cards", Some("https://ramp.com/"), 5);
    assert!(archive.capture_ad(&a, 10));
    assert!(!archive.capture_ad(&a, 20));
    assert_eq!(archive.sightings.len(), 1);
    assert_eq!(archive.ads[0].last_seen_ms, 10);
    // Another rotation of the creative counts on the same row.
    assert!(archive.capture_ad(&ad("Ramp · cards", Some("https://ramp.com/"), 6), 30));
    assert_eq!(archive.ads.len(), 1);
    assert_eq!(archive.ads[0].times_seen, 2);
    assert_eq!(archive.ads[0].first_seen_ms, 10);
    assert_eq!(archive.ads[0].last_seen_ms, 30);
}

#[test]
fn a_capture_pass_is_idempotent() {
    let mut archive = Archive::open_in_memory();
    let a = ad("Ramp · cards", None, 5);
    let log = "2026-06-11T10:00:00.000Z [ext] info - a {}\n2026-06-11T11:00:00.000Z [ext] info - b {}\n";
    let first = capture_pass(&mut archive, Some(&a), Some(log), 10);
    assert!(first.new_sighting);
    assert_eq!(first.new_events, 2);
    assert_eq!(first.advertiser.as_deref(), Some("Ramp"));
    let second = capture_pass(&mut archive, Some(&a), Some(log), 20);
    assert!(!second.new_sighting);
    assert_eq!(second.new_events, 0);
    assert_eq!(archive.sightings.len(), 1);
    assert_eq!(archive.events.len(), 2);
    let third = capture_pass(&mut archive, None, None, 30);
    assert!(!third.new_sighting);
    assert_eq!(third.advertiser, None);
}

// ---- queries ----------------------------------------------------------------

#[test]
fn stats_count_days_and_weeks() {
    let day = 86_400_000;
    let now = 100 * day + 5_000;
    let mut archive = Archive::open_in_memory();
    for (i, at) in [now - 8 * day, now - day, now - 1_000].into_iter().enumerate() {
        archive.capture_ad(&ad("A · a", None, i as i64), at);
    }
    let s = archive.stats(now);
    assert_eq!(s.total_sightings, 3);
    assert_eq!(s.distinct_ads, 1);
    assert_eq!(s.advertisers, 1);
    assert_eq!(s.sightings_today, 1);
    assert_eq!(s.sightings_week, 2);
    assert_eq!(s.first_seen_ms, Some(now - 8 * day));
    assert_eq!(s.last_seen_ms, Some(now - 1_000));
    assert_eq!(Archive::open_in_memory().stats(now).first_seen_ms, None);
}

#[test]
fn the_leaderboard_accounts_for_every_sighting() {
    let mut archive = Archive::open_in_memory();
    for (ts, text) in [(1, "A · x"), (2, "A · y"), (3, "B · z"), (4, "A · x")] {
        archive.capture_ad(&ad(text, None, ts), ts);
    }
    let board = archive.advertiser_leaderboard(10);
    assert_eq!(board.len(), 2);
    assert_eq!(board[0].advertiser, "A");
    assert_eq!(board[0].distinct_ads, 2);
    assert_eq!(board[0].sightings, 3);
    let total: i64 = board.iter().map(|b| b.sightings).sum();
    assert_eq!(total, archive.stats(10).total_sightings);
    assert_eq!(archive.advertiser_leaderboard(1).len(), 1);
}

#[test]
fn links_are_distinct_and_ads_are_listed_newest_first() {
    let mut archive = Archive::open_in_memory();
    archive.capture_ad(&ad("A · x", Some("https://a/"), 1), 1);
    archive.capture_ad(&ad("A · y", Some("https://a/"), 2), 2);
    archive.capture_ad(&ad("B · z", Some("https://b/"), 3), 3);
    archive.capture_ad(&ad("C · no url", None, 4), 4);
    let links = archive.distinct_links(10);
    assert_eq!(links.len(), 2);
    assert_ne!(links[0].url, links[1].url);
    let ads = archive.list_ads(2);
    assert_eq!(ads.len(), 2);
    assert_eq!(ads[0].ad_text, "C · no url");
    assert_eq!(ads[1].ad_text, "B · z");
}

#[test]
fn hours_that_were_not_observed_are_gaps() {
    let hour = 3_600_000;
    let now = 1_000 * hour + 1;
    let mut archive = Archive::open_in_memory();
    archive.record_observation(now);
    archive.record_observation(now - 2 * hour);
    archive.record_observation(now);
    archive.capture_ad(&ad("A · x", None, 1), now);
    assert_eq!(
        archive.hourly_activity(now, 4),
        vec![None, Some(0), None, Some(1)]
    );
    assert_eq!(archive.hours.len(), 2);
}

#[test]
fn killswitch_turns_alternate_newest_first() {
    let mut archive = Archive::open_in_memory();
    let lines = [
        r#"2026-06-11T10:00:00.000Z [ext] info - session.state {"killed":true}"#,
        r#"2026-06-11T10:30:00.000Z [ext] info - session.state {"killed":true}"#,
        r#"2026-06-11T11:00:00.000Z [ext] info - session.state {"killed":false}"#,
        r#"2026-06-11T12:00:00.000Z [ext] info - session.state {}"#,
        r#"2026-06-11T13:00:00.000Z [ext] info - session.state {"killed":true}"#,
    ];
    let events: Vec<_> = lines.iter().map(|l| parse_log_line(l).unwrap()).collect();
    archive.record_events(&events);
    let turns = archive.killswitch_timeline(10);
    for pair in turns.windows(2) {
        assert_ne!(pair[0].killed, pair[1].killed);
        assert!(pair[0].ts_ms > pair[1].ts_ms);
    }
    assert!(turns[0].killed);
    assert_eq!(turns.len(), 3);
    assert_eq!(archive.killswitch_timeline(1).len(), 1);
}

#[test]
fn meta_values_read_back() {
    let mut archive = Archive::open_in_memory();
    assert_eq!(archive.meta_get("k"), None);
    archive.meta_set("k", "v1");
    archive.meta_set("other", "x");
    archive.meta_set("k", "v2");
    assert_eq!(archive.meta_get("k").as_deref(), Some("v2"));
    assert_eq!(archive.meta_get("other").as_deref(), Some("x"));
}

#[test]
fn the_cache_gives_the_newest_items_first() {
    let item = |t: &str, ts| FeedItem::new(FeedKind::Issue, t, "", None, ts, "s");
    let mut archive = Archive::open_in_memory();
    archive.replace_feed_items(
        "s",
        &vec![item("old", Some(1)), item("new", Some(9)), item("undated", None)],
        5,
    );
    let titles: Vec<String> = archive.read_feed_items(2).into_iter().map(|i| i.title).collect();
    assert_eq!(titles, vec!["new", "undated"]);
}
