use kickbacks_kit::archive::Archive;
use kickbacks_kit::config::{Config, FeedConfig};
use kickbacks_kit::feed::bulletin::{Bulletin, Entry};
use kickbacks_kit::feed::github::{parse_issues, CommitAuthor, CommitInner, CommitItem, Issue, Repo};
use kickbacks_kit::feed::http::{FetchError, Fetched, FetchedBody};
use kickbacks_kit::feed::sync::{
    cooldown_for, fetch_into, merge_static, offline_reason, plan, rate_limit_until, read_cached,
    request_for, short_err, sync, user_agent, OfflineReason, Replies, Reply, COOLDOWN_BASE_MS,
    COOLDOWN_MAX_MS, FAILURE_THRESHOLD, RATE_LIMIT_MAX_MS,
};
use kickbacks_kit::feed::{FeedItem, FeedKind, SourceHealth};
use serde_json::Value;

fn cfg(enabled: bool) -> Config {
    Config {
        feed: FeedConfig { enabled },
        ..Default::default()
    }
}

fn no_replies() -> Replies {
    Replies {
        bulletin: None,
        repo: None,
        version: None,
        issues: None,
    }
}

fn issues(json: &str) -> Option<Vec<Issue>> {
    let v: Value = serde_json::from_str(json).ok()?;
    let text = |i: &Value, key: &str| i.get(key).and_then(|x| x.as_str()).map(str::to_string);
    Some(
        v.as_array()?
            .iter()
            .map(|i| Issue {
                number: i.get("number").and_then(|x| x.as_u64()).unwrap_or(0),
                title: text(i, "title").unwrap_or_default(),
                html_url: text(i, "html_url"),
                created_at: text(i, "created_at"),
                updated_at: text(i, "updated_at"),
                is_pull_request: i.get("pull_request").map_or(false, |p| !p.is_null()),
            })
            .collect(),
    )
}

#[test]
fn offline_flag_and_config_and_env() {
    assert_eq!(offline_reason(false, &cfg(true), false), None);
    assert_eq!(
        offline_reason(true, &cfg(true), false),
        Some(OfflineReason::Flag)
    );
    assert_eq!(
        offline_reason(false, &cfg(false), false),
        Some(OfflineReason::Config)
    );
    // The environment wins over everything.
    assert_eq!(
        offline_reason(true, &cfg(false), true),
        Some(OfflineReason::Env)
    );
}

#[test]
fn cold_cache_still_has_static_items() {
    let archive = Archive::open_in_memory();
    let snap = read_cached(&archive, true);
    assert!(snap.offline);
    assert!(snap
        .items
        .iter()
        .any(|i| i.title.contains("@andrewmccalip")));
}

#[test]
fn cooldown_grows_and_caps() {
    // Failures just over threshold give the base; far over gives the cap.
    let a = cooldown_for(FAILURE_THRESHOLD + 1, 0);
    let b = cooldown_for(FAILURE_THRESHOLD + 9, 0);
    assert!(a >= COOLDOWN_BASE_MS);
    assert!(b <= COOLDOWN_MAX_MS + 30_000);
    assert!(b >= a);
}

#[test]
fn replace_items_is_per_source() {
    let mut archive = Archive::open_in_memory();
    let a = FeedItem::new(
        FeedKind::Issue,
        "from A",
        "",
        Some("https://a/1".into()),
        Some(1),
        "src_a",
    );
    let b = FeedItem::new(
        FeedKind::Issue,
        "from B",
        "",
        Some("https://b/1".into()),
        Some(2),
        "src_b",
    );
    archive.replace_feed_items("src_a", &vec![a], 10);
    archive.replace_feed_items("src_b", &vec![b], 10);
    // Re-fetching src_a with nothing clears only src_a.
    archive.replace_feed_items("src_a", &Vec::new(), 20);
    let items = archive.read_feed_items(40);
    assert_eq!(items.len(), 1);
    assert_eq!(items[0].source, "src_b");
}

#[test]
fn github_items_use_the_orchestrator_source_so_they_purge() {
    // A closed issue must be purged: the item's source must equal the key
    // replace_feed_items deletes by.
    let mut archive = Archive::open_in_memory();
    let issues_v1 = r#"[
        {"number":1,"title":"open A","created_at":"2026-06-12T10:00:00Z"},
        {"number":2,"title":"open B","created_at":"2026-06-12T09:00:00Z"}
    ]"#;
    let items = parse_issues(issues(issues_v1), 8, "github_issues");
    archive.replace_feed_items("github_issues", &items, 1000);
    assert_eq!(archive.read_feed_items(40).len(), 2);

    // Issue #2 closed: the next fetch returns only #1. The cache for this
    // source is replaced, so #2 is gone (not shown as open forever).
    let issues_v2 = r#"[{"number":1,"title":"open A","created_at":"2026-06-12T10:00:00Z"}]"#;
    let items = parse_issues(issues(issues_v2), 8, "github_issues");
    archive.replace_feed_items("github_issues", &items, 2000);
    let remaining = archive.read_feed_items(40);
    assert_eq!(remaining.len(), 1);
    assert!(remaining[0].title.starts_with("#1"));
}

#[test]
fn rate_limit_until_clamps_into_a_sane_window() {
    let now = 1_000_000_000_000;
    // Absent reset header: still parks the source.
    assert_eq!(rate_limit_until(None, now), now + COOLDOWN_BASE_MS);
    // A hostile/huge reset cannot park the source forever.
    assert_eq!(
        rate_limit_until(Some(i64::MAX), now),
        now + RATE_LIMIT_MAX_MS
    );
    // An already-past reset is floored to the base cooldown.
    assert_eq!(
        rate_limit_until(Some(now - 5000), now),
        now + COOLDOWN_BASE_MS
    );
    // A legitimate near reset is respected.
    let soon = now + 10 * 60 * 1000;
    assert_eq!(rate_limit_until(Some(soon), now), soon);
}

#[test]
fn sync_offline_returns_cache_without_network() {
    let mut archive = Archive::open_in_memory();
    // feed.enabled = false forces offline, so no network is attempted.
    let snap = sync(&mut archive, &cfg(false), false, false, no_replies(), 1000);
    assert!(snap.offline);
    // Only the static row is present (no fetch happened).
    assert!(snap.items.iter().all(|i| i.source == "static"));
    // Offline, any clock will do.
    let snap = sync(&mut archive, &cfg(true), true, false, no_replies(), i64::MAX);
    assert!(snap.offline);
    assert_eq!(snap.items.len(), 1);
    assert!(archive.sources.is_empty());
}

// ---- one source at a time ---------------------------------------------------

fn item(title: &str, source: &str) -> FeedItem {
    FeedItem::new(FeedKind::Issue, title, "", None, Some(1), source)
}

fn fresh() -> Result<Fetched, FetchError> {
    Ok(Fetched::Body(FetchedBody {
        etag: Some("tag".to_string()),
        ..Default::default()
    }))
}

#[test]
fn cooldowns_by_streak() {
    let minute = 60_000;
    assert_eq!(cooldown_for(3, 0), 5 * minute);
    assert_eq!(cooldown_for(4, 0), 10 * minute);
    assert_eq!(cooldown_for(5, 0), 20 * minute);
    assert_eq!(cooldown_for(6, 0), 30 * minute);
    assert_eq!(cooldown_for(u32::MAX, 0), 30 * minute);
    // The jitter comes from the clock.
    assert_eq!(cooldown_for(3, 31_234), 5 * minute + 1_234);
    assert_eq!(cooldown_for(3, -31_234), 5 * minute + 1_234);
    assert_eq!(cooldown_for(3, i64::MIN), 5 * minute + 25_808);
}

#[test]
fn a_failing_source_keeps_its_items_and_opens_its_circuit() {
    let mut archive = Archive::open_in_memory();
    let now = 1_000_000_000_000;
    fetch_into(&mut archive, "s", Some(&fresh()), &vec![item("kept", "s")], now);
    let h = archive.feed_source("s");
    assert_eq!(h.last_status, "ok");
    assert_eq!(h.etag.as_deref(), Some("tag"));
    assert_eq!(h.last_sync_ms, Some(now));

    let failed = || Err(FetchError::Transport("connection\nrefused".to_string()));
    for n in 1..=3u32 {
        fetch_into(&mut archive, "s", Some(&failed()), &Vec::new(), now);
        let h = archive.feed_source("s");
        assert_eq!(h.failures, n);
        assert_eq!(h.last_status, "error: connection refused");
        assert_eq!(h.circuit_until_ms.is_some(), n == 3);
        assert_eq!(archive.read_feed_items(40).len(), 1);
    }
    let until = archive.feed_source("s").circuit_until_ms.unwrap();
    assert_eq!(until, now + cooldown_for(3, now));

    // While the circuit is open the source is skipped.
    assert!(request_for(&archive, "s", "https://x", until - 1).is_none());
    fetch_into(&mut archive, "s", Some(&fresh()), &Vec::new(), until - 120_000);
    assert_eq!(archive.feed_source("s").last_status, "cooling down (2m)");
    assert_eq!(archive.read_feed_items(40).len(), 1);
    fetch_into(&mut archive, "s", None, &Vec::new(), until - 1);
    assert_eq!(archive.feed_source("s").last_status, "cooling down (1m)");

    // At its end it is asked again, with the stored tag.
    let q = request_for(&archive, "s", "https://x", until).unwrap();
    assert_eq!(q.url, "https://x");
    assert_eq!(q.etag.as_deref(), Some("tag"));
    fetch_into(&mut archive, "s", Some(&Ok(Fetched::NotModified)), &Vec::new(), until);
    let h = archive.feed_source("s");
    assert_eq!(h.last_status, "up to date");
    assert_eq!(h.failures, 0);
    assert_eq!(h.circuit_until_ms, None);
    assert_eq!(archive.read_feed_items(40).len(), 1);
}

#[test]
fn a_low_budget_parks_a_source() {
    let mut archive = Archive::open_in_memory();
    let now = 1_000_000_000_000;
    let low = |remaining| {
        Ok(Fetched::Body(FetchedBody {
            rate_remaining: Some(remaining),
            rate_reset_ms: Some(i64::MAX),
            ..Default::default()
        }))
    };
    fetch_into(&mut archive, "s", Some(&low(7)), &Vec::new(), now);
    let h = archive.feed_source("s");
    assert_eq!(h.last_status, "rate limited");
    assert_eq!(h.circuit_until_ms, Some(now + RATE_LIMIT_MAX_MS));

    fetch_into(&mut archive, "t", Some(&low(8)), &Vec::new(), now);
    let h = archive.feed_source("t");
    assert_eq!(h.last_status, "ok");
    assert_eq!(h.circuit_until_ms, None);
}

#[test]
fn a_clock_before_the_epoch_works_too() {
    let mut archive = Archive::open_in_memory();
    let mut h = SourceHealth::fresh("s");
    h.circuit_until_ms = Some(i64::MAX);
    archive.set_feed_source(&h);
    fetch_into(&mut archive, "s", None, &Vec::new(), i64::MIN);
    assert_eq!(
        archive.feed_source("s").last_status,
        "cooling down (307445734561825m)"
    );
    fetch_into(&mut archive, "t", Some(&fresh()), &Vec::new(), -5);
    assert_eq!(archive.feed_source("t").last_sync_ms, Some(-5));
}

#[test]
fn errors_are_shortened_to_one_line() {
    let long = FetchError::Transport(format!("a\r\nb{}", "x".repeat(100)));
    let text = short_err(&long);
    assert_eq!(text.chars().count(), 40);
    assert!(text.starts_with("a  bx"));
    assert!(text.ends_with('…'));
    assert_eq!(short_err(&FetchError::Status(500)), "HTTP 500");
}

#[test]
fn static_rows_are_merged_once() {
    let mut items: Vec<FeedItem> = Vec::new();
    merge_static(&mut items);
    assert_eq!(items.len(), 1);
    merge_static(&mut items);
    assert_eq!(items.len(), 1);
}

#[test]
fn the_user_agent_names_the_tool() {
    assert_eq!(
        user_agent("1.2.3"),
        "kickbacks-kit/1.2.3 (+https://github.com/OthmanAdi/kickbacks-kit)"
    );
}

// ---- a whole cycle ----------------------------------------------------------

#[test]
fn a_cycle_walks_every_source() {
    let mut archive = Archive::open_in_memory();
    let now = 1_781_210_000_000;
    let p = plan(&archive, &cfg(true), false, false, now).unwrap();
    assert_eq!(p.bulletin.unwrap().url, "https://kickbacks.ai/api/bulletin");
    assert_eq!(
        p.repo.unwrap().url,
        "https://api.github.com/repos/andrewmccalip/kickbacks.ai"
    );
    assert!(p.version.unwrap().url.ends_with("/commits?per_page=5"));
    assert!(p.issues.unwrap().url.contains("/issues?state=open"));
    assert!(plan(&archive, &cfg(true), true, false, now).is_none());

    let replies = Replies {
        bulletin: Some(Reply {
            fetched: fresh(),
            decoded: Some(Bulletin {
                active: true,
                id: "b".to_string(),
                tag: String::new(),
                ts: String::new(),
                headline: "PSA".to_string(),
                items: vec![Entry {
                    ts: None,
                    icon: None,
                    text: "one".to_string(),
                }],
            }),
        }),
        repo: Some(Reply {
            fetched: fresh(),
            decoded: Some(Repo {
                stargazers_count: 1,
                forks_count: 2,
                open_issues_count: 3,
                pushed_at: None,
                html_url: None,
            }),
        }),
        version: Some(Reply {
            fetched: fresh(),
            decoded: Some(vec![CommitItem {
                commit: CommitInner {
                    message: "Sync extension v0.3.172 (cbd05e1)".to_string(),
                    author: CommitAuthor { date: None },
                },
            }]),
        }),
        issues: Some(Reply {
            fetched: Err(FetchError::Status(500)),
            decoded: None,
        }),
    };
    let snap = sync(&mut archive, &cfg(true), false, false, replies, now);
    assert!(!snap.offline);
    assert_eq!(snap.last_sync_ms, Some(now));
    assert_eq!(snap.bulletin_headline().as_deref(), Some("PSA"));
    assert_eq!(snap.latest_version().as_deref(), Some("0.3.172"));
    let sources: Vec<&str> = snap.items.iter().map(|i| i.source.as_str()).collect();
    for s in ["bulletin", "github_repo", "github_version", "static"] {
        assert!(sources.contains(&s), "{s} is missing");
    }
    assert_eq!(snap.sources.len(), 4);
    assert_eq!(
        archive.feed_source("github_issues").last_status,
        "error: HTTP 500"
    );

    // A cycle without replies keeps everything.
    let again = sync(&mut archive, &cfg(true), false, false, no_replies(), now + 1);
    assert_eq!(again.items.len(), snap.items.len());
}

#[test]
fn health_reads_back_as_it_was_set() {
    let mut archive = Archive::open_in_memory();
    let mut h = SourceHealth::fresh("a");
    h.failures = 2;
    archive.set_feed_source(&h);
    archive.set_feed_source(&SourceHealth::fresh("b"));
    h.failures = 5;
    archive.set_feed_source(&h);
    assert_eq!(archive.feed_source("a").failures, 5);
    assert_eq!(archive.feed_source("b").failures, 0);
    assert_eq!(archive.feed_source("c").source, "c");
    assert_eq!(archive.all_feed_sources().len(), 2);
}
