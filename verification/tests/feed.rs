use kickbacks_kit::feed::bulletin::{parse, strip_md, to_item, Bulletin, Entry};
use kickbacks_kit::feed::cli::{
    describe_offline, network_line, render_text, sources_line, wrap,
};
use kickbacks_kit::feed::github::{
    commits_url, extract_sync_version, issues_url, parse_issues, parse_latest_version, parse_repo,
    repo_url, upstream_stat_item, version_item, CommitAuthor, CommitInner, CommitItem, Issue, Repo,
};
use kickbacks_kit::feed::http::{
    condition, on_body, on_head, FetchError, Fetched, FetchedBody, Headed, ResponseHead,
};
use kickbacks_kit::feed::sync::OfflineReason;
use kickbacks_kit::feed::{static_items, FeedItem, FeedKind, FeedSnapshot, SourceHealth};
use serde_json::Value;
use sha2::Digest;

// ---- decoding ---------------------------------------------------------------

fn value(json: &str) -> Option<Value> {
    serde_json::from_str(json).ok()
}

fn text(v: &Value, key: &str) -> String {
    optional(v, key).unwrap_or_default()
}

fn optional(v: &Value, key: &str) -> Option<String> {
    v.get(key).and_then(|x| x.as_str()).map(str::to_string)
}

fn count(v: &Value, key: &str) -> u64 {
    v.get(key).and_then(|x| x.as_u64()).unwrap_or(0)
}

fn bulletin(json: &str) -> Option<Bulletin> {
    let v = value(json)?;
    v.as_object()?;
    let items = match v.get("items") {
        Some(list) => list
            .as_array()?
            .iter()
            .map(|e| Entry {
                ts: optional(e, "ts"),
                icon: optional(e, "icon"),
                text: text(e, "text"),
            })
            .collect(),
        None => Vec::new(),
    };
    Some(Bulletin {
        active: v.get("active").and_then(|x| x.as_bool()).unwrap_or(false),
        id: text(&v, "id"),
        tag: text(&v, "tag"),
        ts: text(&v, "ts"),
        headline: text(&v, "headline"),
        items,
    })
}

fn repo(json: &str) -> Option<Repo> {
    let v = value(json)?;
    v.as_object()?;
    Some(Repo {
        stargazers_count: count(&v, "stargazers_count"),
        forks_count: count(&v, "forks_count"),
        open_issues_count: count(&v, "open_issues_count"),
        pushed_at: optional(&v, "pushed_at"),
        html_url: optional(&v, "html_url"),
    })
}

fn commits(json: &str) -> Option<Vec<CommitItem>> {
    let v = value(json)?;
    let list = v.as_array()?;
    Some(
        list.iter()
            .map(|c| {
                let none = Value::Null;
                let inner = c.get("commit").unwrap_or(&none);
                let author = inner.get("author").unwrap_or(&none);
                CommitItem {
                    commit: CommitInner {
                        message: text(inner, "message"),
                        author: CommitAuthor {
                            date: optional(author, "date"),
                        },
                    },
                }
            })
            .collect(),
    )
}

fn issues(json: &str) -> Option<Vec<Issue>> {
    let v = value(json)?;
    let list = v.as_array()?;
    Some(
        list.iter()
            .map(|i| Issue {
                number: count(i, "number"),
                title: text(i, "title"),
                html_url: optional(i, "html_url"),
                created_at: optional(i, "created_at"),
                updated_at: optional(i, "updated_at"),
                is_pull_request: i.get("pull_request").map_or(false, |p| !p.is_null()),
            })
            .collect(),
    )
}

// ---- the bulletin -----------------------------------------------------------

const LIVE: &str = r#"{
    "active": true, "id": "2026-06-12-bot-army", "tag": "PSA · Service bulletin",
    "ts": "Jun 12, 2026 · 11:49 AM PT",
    "headline": "A bot army is attacking us. We're winning.",
    "items": [
        {"ts":"Fri 10:59 AM","text":"Stripe payouts are coming, possibly within 48 hours for big accounts."},
        {"ts":"Fri 9:59 AM","text":"Your earnings are safe. Bot traffic never gets paid out."}
    ]
}"#;

#[test]
fn parses_live_bulletin() {
    let b = parse(bulletin(LIVE)).unwrap();
    assert_eq!(b.id, "2026-06-12-bot-army");
    assert_eq!(b.headline, "A bot army is attacking us. We're winning.");
    assert_eq!(b.entries.len(), 2);
    assert!(b.entries[0].starts_with("Fri 10:59 AM — Stripe"));
    let item = to_item(&b);
    assert_eq!(item.kind, FeedKind::Bulletin);
    assert!(item.body.contains("Stripe payouts"));
    assert!(item.body.contains("earnings are safe"));
}

#[test]
fn inactive_bulletin_is_none() {
    assert!(parse(bulletin(r#"{"active": false, "headline": "old news"}"#)).is_none());
    assert!(parse(bulletin(r#"{"active": true, "headline": ""}"#)).is_none());
}

#[test]
fn accepts_legacy_icon_shape() {
    let json = r#"{"active":true,"headline":"Heads up","items":[{"icon":"·","text":"something"}]}"#;
    let b = parse(bulletin(json)).unwrap();
    assert_eq!(b.entries, vec!["· — something"]);
}

#[test]
fn strips_bold_markdown() {
    let json = r#"{"active":true,"headline":"We are **winning**","items":[]}"#;
    let b = parse(bulletin(json)).unwrap();
    assert_eq!(b.headline, "We are winning");
}

#[test]
fn garbage_is_none_not_panic() {
    assert!(parse(bulletin("not json")).is_none());
    assert!(parse(bulletin("{}")).is_none());
}

#[test]
fn a_bulletin_without_entries_shows_when_it_was_published() {
    let json = r#"{"active":true,"headline":"Hi","ts":"Jun 12","items":[{"text":"  "}]}"#;
    let b = parse(bulletin(json)).unwrap();
    assert!(b.entries.is_empty());
    assert_eq!(b.tag, "service bulletin");
    assert_eq!(b.published, "Jun 12");
    let item = to_item(&b);
    assert_eq!(item.body, "Jun 12");
    assert_eq!(item.url.as_deref(), Some("https://kickbacks.ai/"));
    assert_eq!(item.source, "bulletin");
    assert_eq!(item.ts_ms, None);
}

#[test]
fn an_entry_without_a_time_is_its_text() {
    let json = r#"{"active":true,"headline":"Hi","items":[{"text":"**a** b"},{"ts":" x ","text":"c"}]}"#;
    let b = parse(bulletin(json)).unwrap();
    assert_eq!(b.entries, vec!["a b", "x — c"]);
    assert_eq!(strip_md("**a**b****"), "ab");
}

// ---- GitHub -----------------------------------------------------------------

const REPO_JSON: &str = r#"{
    "stargazers_count": 158, "forks_count": 33, "open_issues_count": 45,
    "pushed_at": "2026-06-12T05:37:39Z",
    "html_url": "https://github.com/andrewmccalip/kickbacks.ai"
}"#;

#[test]
fn parses_repo_stats() {
    let s = parse_repo(repo(REPO_JSON)).unwrap();
    assert_eq!(s.stars, 158);
    assert_eq!(s.forks, 33);
    assert_eq!(s.open_items, 45);
    assert!(s.pushed_at_ms.unwrap() > 0);
    let item = upstream_stat_item(&s, "github");
    assert!(item.body.contains("158 stars"));
    assert_eq!(item.kind, FeedKind::Stat);
}

#[test]
fn parse_repo_tolerates_missing_fields() {
    let s = parse_repo(repo(r#"{"stargazers_count": 5}"#)).unwrap();
    assert_eq!(s.stars, 5);
    assert_eq!(s.forks, 0);
    assert_eq!(s.pushed_at_ms, None);
}

const COMMITS_JSON: &str = r#"[
    {"commit":{"message":"Sync extension v0.3.172 (cbd05e1)","author":{"date":"2026-06-12T05:37:38Z"}}},
    {"commit":{"message":"Sync extension v0.3.171 (3696683)","author":{"date":"2026-06-11T15:21:01Z"}}}
]"#;

#[test]
fn parses_latest_version_from_commits() {
    let v = parse_latest_version(commits(COMMITS_JSON)).unwrap();
    assert_eq!(v.version, "0.3.172");
    assert!(v.ts_ms.unwrap() > 0);
    let item = version_item(&v, "github");
    assert!(item.title.contains("v0.3.172"));
}

#[test]
fn version_parser_rejects_non_sync_commits() {
    assert_eq!(extract_sync_version("Initial commit"), None);
    assert_eq!(extract_sync_version("Sync extension v1 (abc)"), None);
    assert_eq!(
        extract_sync_version("Sync extension v0.3.174 (deadbee)").as_deref(),
        Some("0.3.174")
    );
    // No version commit anywhere -> None, not a panic.
    assert!(parse_latest_version(commits(r#"[{"commit":{"message":"docs"}}]"#)).is_none());
}

const ISSUES_JSON: &str = r#"[
    {"number":52,"title":"Displays ads but no kickback earned","html_url":"https://github.com/andrewmccalip/kickbacks.ai/issues/52","created_at":"2026-06-12T18:23:27Z"},
    {"number":51,"title":"A pull request","html_url":"https://github.com/x","created_at":"2026-06-12T18:00:00Z","pull_request":{"url":"x"}},
    {"number":50,"title":"Stablecoin payouts","created_at":"2026-06-12T17:00:00Z"}
]"#;

#[test]
fn parses_issues_and_drops_pulls() {
    let items = parse_issues(issues(ISSUES_JSON), 10, "github");
    assert_eq!(items.len(), 2); // the PR is dropped
    assert!(items[0].title.starts_with("#52"));
    assert!(items[0].url.as_deref().unwrap().contains("/issues/52"));
    // Issue without html_url still gets a synthesized link.
    assert!(items[1].url.as_deref().unwrap().contains("/issues/50"));
}

#[test]
fn parse_issues_handles_garbage() {
    assert!(parse_issues(issues("not json"), 10, "github").is_empty());
    assert!(parse_issues(issues("{}"), 10, "github").is_empty());
}

#[test]
fn issue_limit_is_respected() {
    assert_eq!(parse_issues(issues(ISSUES_JSON), 1, "github").len(), 1);
}

#[test]
fn issues_fall_back_to_the_time_of_their_update() {
    let json = r#"[
        {"number":1,"title":"a","updated_at":"1970-01-01T00:00:02Z"},
        {"number":2,"title":"b","created_at":"bad","updated_at":"1970-01-01T00:00:02Z"},
        {"number":3,"title":""}
    ]"#;
    let items = parse_issues(issues(json), 10, "src");
    assert_eq!(items.len(), 2);
    assert_eq!(items[0].ts_ms, Some(2_000));
    assert_eq!(items[1].ts_ms, None);
    assert_eq!(items[0].source, "src");
    assert_eq!(items[0].body, "open issue on kickbacks.ai");
}

#[test]
fn endpoints_of_a_repo() {
    assert_eq!(repo_url("a/b"), "https://api.github.com/repos/a/b");
    assert_eq!(
        commits_url("a/b"),
        "https://api.github.com/repos/a/b/commits?per_page=5"
    );
    assert_eq!(
        issues_url("a/b"),
        "https://api.github.com/repos/a/b/issues?state=open&sort=created&direction=desc&per_page=20"
    );
}

#[test]
fn repo_stats_in_full() {
    let s = parse_repo(repo(r#"{"stargazers_count":1,"forks_count":2,"open_issues_count":3}"#)).unwrap();
    let item = upstream_stat_item(&s, "github_repo");
    assert_eq!(item.title, "kickbacks.ai on GitHub");
    assert_eq!(item.body, "1 stars · 2 forks · 3 open items");
    assert_eq!(
        item.url.as_deref(),
        Some("https://github.com/andrewmccalip/kickbacks.ai")
    );
    assert!(parse_repo(None).is_none());
}

#[test]
fn dotted_triples_only() {
    for message in [
        "Sync extension v.",
        "Sync extension v1.2 (abc)",
        "Sync extension v1.2.",
        "Sync extension v1..3",
        "Sync extension v1.2.3.4",
        "Sync extension v1.2.3.",
        "Sync extension vx1.2.3",
    ] {
        assert_eq!(extract_sync_version(message), None, "{message}");
    }
    assert_eq!(
        extract_sync_version("x Sync extension v1.22.333-rc").as_deref(),
        Some("1.22.333")
    );
}

#[test]
fn a_bulletin_body_can_be_split_again() {
    let json = r#"{"active":true,"headline":"H","ts":"then","items":[
        {"text":"a"},{"ts":"Fri","text":"b \u001b  c"},{"text":"·"}]}"#;
    let b = parse(bulletin(json)).unwrap();
    let item = to_item(&b);
    assert_eq!(
        item.body.split("  ·  ").collect::<Vec<_>>(),
        vec!["a", "Fri — b c", "·"]
    );
    assert_eq!(wrap(&item.body, 68), vec!["a", "Fri — b c", "·"]);
    let made = kickbacks_kit::feed::bulletin::ParsedBulletin {
        id: String::new(),
        tag: String::new(),
        published: String::new(),
        headline: "H".to_string(),
        entries: vec!["a".to_string(), "b".to_string()],
    };
    assert_eq!(
        to_item(&made).body.split("  ·  ").collect::<Vec<_>>(),
        vec!["a", "b"]
    );
}

// ---- HTTP -------------------------------------------------------------------

#[test]
fn fetch_error_displays_cleanly() {
    assert_eq!(FetchError::Status(404).to_string(), "HTTP 404");
    assert_eq!(
        FetchError::Transport("timed out".into()).to_string(),
        "timed out"
    );
}

fn head(status: u16, remaining: Option<&str>, reset: Option<&str>) -> ResponseHead {
    ResponseHead {
        status,
        etag: Some("W/\"1\"".to_string()),
        rate_remaining: remaining.map(str::to_string),
        rate_reset: reset.map(str::to_string),
    }
}

#[test]
fn heads_settle_or_await_a_body() {
    assert!(matches!(
        on_head(head(304, None, None)),
        Headed::Settled(Ok(Fetched::NotModified))
    ));
    assert!(matches!(
        on_head(head(403, None, None)),
        Headed::Settled(Err(FetchError::Status(403)))
    ));
    assert!(matches!(
        on_head(head(199, None, None)),
        Headed::Settled(Err(FetchError::Status(199)))
    ));
    assert!(matches!(
        on_head(head(300, None, None)),
        Headed::Settled(Err(FetchError::Status(300)))
    ));
    match on_head(head(200, Some("7"), Some("1781210000"))) {
        Headed::Awaiting(b) => {
            assert_eq!(b.etag.as_deref(), Some("W/\"1\""));
            assert_eq!(b.rate_remaining, Some(7));
            assert_eq!(b.rate_reset_ms, Some(1_781_210_000_000));
        }
        other => panic!("unexpected: {other:?}"),
    }
    match on_head(head(299, Some("many"), Some("9223372036854775807"))) {
        Headed::Awaiting(b) => {
            assert_eq!(b.rate_remaining, None);
            assert_eq!(b.rate_reset_ms, Some(i64::MAX));
        }
        other => panic!("unexpected: {other:?}"),
    }
    match on_head(head(200, Some("4294967296"), Some("-9223372036854775808"))) {
        Headed::Awaiting(b) => {
            assert_eq!(b.rate_remaining, None);
            assert_eq!(b.rate_reset_ms, Some(i64::MIN));
        }
        other => panic!("unexpected: {other:?}"),
    }
}

#[test]
fn bodies_settle_a_request() {
    let headers = FetchedBody {
        rate_remaining: Some(3),
        ..Default::default()
    };
    match on_body(headers, Ok("{}".to_string())) {
        Ok(Fetched::Body(b)) => {
            assert_eq!(b.text, "{}");
            assert_eq!(b.rate_remaining, Some(3));
        }
        other => panic!("unexpected: {other:?}"),
    }
    match on_body(FetchedBody::default(), Err("too large".to_string())) {
        Err(FetchError::Transport(msg)) => assert_eq!(msg, "too large"),
        other => panic!("unexpected: {other:?}"),
    }
}

#[test]
fn an_empty_tag_is_not_sent() {
    assert_eq!(condition(Some("W/1")).as_deref(), Some("W/1"));
    assert_eq!(condition(Some("")), None);
    assert_eq!(condition(None), None);
}

// ---- items ------------------------------------------------------------------

#[test]
fn kind_tag_roundtrips() {
    for k in [
        FeedKind::Bulletin,
        FeedKind::Version,
        FeedKind::Issue,
        FeedKind::Stat,
        FeedKind::Link,
    ] {
        assert_eq!(FeedKind::from_str(k.as_str()), k);
    }
    // Unknown tags decay to Link rather than failing.
    assert_eq!(FeedKind::from_str("who-knows"), FeedKind::Link);
}

#[test]
fn item_sanitizes_and_ids_stably() {
    let a = FeedItem::new(
        FeedKind::Issue,
        "title\x1bwith ctrl",
        "body",
        Some("https://example.com/1".into()),
        Some(10),
        "github",
    );
    let b = FeedItem::new(
        FeedKind::Issue,
        "title\x1bwith ctrl",
        "different body",
        Some("https://example.com/1".into()),
        Some(20),
        "github",
    );
    assert!(!a.title.contains('\x1b'));
    // id keys on kind+url+title, so body/ts changes keep the same row.
    assert_eq!(a.id, b.id);
    assert_eq!(a.id.len(), 16);
}

#[test]
fn ordered_pins_bulletin_then_newest() {
    let snap = FeedSnapshot {
        items: vec![
            FeedItem::new(FeedKind::Issue, "old issue", "", None, Some(100), "github"),
            FeedItem::new(FeedKind::Issue, "new issue", "", None, Some(900), "github"),
            FeedItem::new(FeedKind::Bulletin, "PSA", "", None, None, "bulletin"),
        ],
        ..Default::default()
    };
    let ordered = snap.ordered();
    assert_eq!(ordered[0].kind, FeedKind::Bulletin);
    assert_eq!(ordered[1].title, "new issue");
    assert_eq!(ordered[2].title, "old issue");
}

#[test]
fn an_item_id_is_the_digest_of_kind_url_and_title() {
    // The first eight bytes of SHA-256 over "link\n\nx".
    let item = FeedItem::new(FeedKind::Link, "x", "", None, None, "static");
    let digest = sha2::Sha256::digest(b"link\n\nx");
    let mut expected = String::new();
    for b in digest.iter().take(8) {
        expected.push_str(&format!("{b:02x}"));
    }
    assert_eq!(item.id, expected);
    let other = FeedItem::new(FeedKind::Stat, "x", "", None, None, "static");
    assert_ne!(item.id, other.id);
}

#[test]
fn glyphs_and_priorities_of_every_kind() {
    let kinds = [
        (FeedKind::Bulletin, "●", 0),
        (FeedKind::Version, "◆", 1),
        (FeedKind::Stat, "★", 2),
        (FeedKind::Issue, "○", 3),
        (FeedKind::Link, "→", 4),
    ];
    for (k, glyph, priority) in kinds {
        assert_eq!(k.glyph(), glyph);
        assert_eq!(k.priority(), priority);
    }
}

#[test]
fn the_feed_order_is_by_kind_then_recency_then_place() {
    let item = |kind, title: &str, ts| FeedItem::new(kind, title, "", None, ts, "s");
    let snap = FeedSnapshot {
        items: vec![
            item(FeedKind::Link, "link", Some(999)),
            item(FeedKind::Issue, "undated", None),
            item(FeedKind::Issue, "first", Some(5)),
            item(FeedKind::Issue, "second", Some(5)),
            item(FeedKind::Stat, "stat", Some(1)),
            item(FeedKind::Version, "Extension synced to v1.2", Some(1)),
        ],
        ..Default::default()
    };
    let titles: Vec<&str> = snap.ordered().iter().map(|i| i.title.as_str()).collect();
    assert_eq!(
        titles,
        vec!["Extension synced to v1.2", "stat", "first", "second", "undated", "link"]
    );
    assert_eq!(snap.latest_version().as_deref(), Some("1.2"));
    assert_eq!(snap.bulletin_headline(), None);
}

#[test]
fn the_static_row_links_to_the_maintainer() {
    let rows = static_items();
    assert_eq!(rows.len(), 1);
    assert_eq!(rows[0].title, "@andrewmccalip on X");
    assert_eq!(rows[0].url.as_deref(), Some("https://x.com/andrewmccalip"));
    assert_eq!(rows[0].source, "static");
}

// ---- text -------------------------------------------------------------------

fn snap(items: Vec<FeedItem>, offline: bool, last_sync: Option<i64>) -> FeedSnapshot {
    FeedSnapshot {
        items,
        sources: Vec::new(),
        last_sync_ms: last_sync,
        offline,
    }
}

#[test]
fn renders_bulletin_and_issue_plainly() {
    let now = 1_000_000_000;
    let items = vec![
        FeedItem::new(
            FeedKind::Bulletin,
            "A bot army is attacking us",
            "Stripe payouts coming  ·  earnings are safe",
            Some("https://kickbacks.ai/".into()),
            None,
            "bulletin",
        ),
        FeedItem::new(
            FeedKind::Issue,
            "#52 no kickback earned",
            "open issue",
            Some("https://github.com/x/issues/52".into()),
            Some(now - 3_600_000),
            "github",
        ),
    ];
    let text = render_text(&snap(items, false, Some(now - 120_000)), now, false, None);
    assert!(text.contains("A bot army is attacking us"));
    assert!(text.contains("Stripe payouts coming"));
    assert!(text.contains("earnings are safe"));
    assert!(text.contains("#52 no kickback earned"));
    assert!(text.contains("1h")); // issue age
    assert!(text.contains("synced 2m ago"));
    // Bulletin is pinned first.
    let bull = text.find("bot army").unwrap();
    let issue = text.find("#52").unwrap();
    assert!(bull < issue);
}

#[test]
fn offline_is_labeled() {
    let text = render_text(
        &snap(Vec::new(), true, None),
        10,
        false,
        Some(OfflineReason::Flag),
    );
    assert!(text.contains("offline"));
}

#[test]
fn wrap_breaks_on_separator_and_width() {
    let lines = wrap("alpha beta  ·  gamma", 100);
    assert_eq!(lines, vec!["alpha beta", "gamma"]);
    let narrow = wrap("one two three four five", 8);
    assert!(narrow.len() > 1);
    assert!(narrow.iter().all(|l| l.chars().count() <= 9));
}

#[test]
fn wrap_passes_long_words_through_whole() {
    assert_eq!(
        wrap("a incomprehensible b", 5),
        vec!["a", "incomprehensible", "b"]
    );
    assert_eq!(wrap("one two three four five", 8), vec!["one two", "three", "four", "five"]);
    assert!(wrap("", 10).is_empty());
    assert!(wrap("  ·  ", 10).is_empty());
    assert_eq!(wrap("a b", 3), vec!["a b"]);
    assert_eq!(wrap("a b", 2), vec!["a", "b"]);
}

#[test]
fn a_feed_in_full() {
    let item = FeedItem::new(FeedKind::Stat, "T", "b1 b2", Some("u".into()), Some(0), "s");
    let mut snapshot = snap(vec![item], false, Some(0));
    let mut ok = SourceHealth::fresh("github_repo");
    ok.last_status = "ok".to_string();
    snapshot.sources = vec![SourceHealth::fresh("static"), ok, SourceHealth::fresh("bulletin")];
    assert_eq!(
        render_text(&snapshot, 60_000, false, None),
        "kickbacks-kit · live feed   synced 1m ago\n\n  ★ T  1m\n     b1 b2\n     u\n\n  sources · github_repo ok · bulletin pending\n"
    );
    assert_eq!(
        render_text(&snap(Vec::new(), false, None), 0, true, None),
        "\x1b[1mkickbacks-kit · live feed\x1b[0m   \x1b[2mnot synced yet\x1b[0m\n\n"
    );
    assert_eq!(sources_line(&snap(Vec::new(), false, None)), "");
}

#[test]
fn the_network_line_says_why_it_is_offline() {
    assert_eq!(describe_offline(OfflineReason::Flag), "offline (--offline)");
    assert_eq!(
        describe_offline(OfflineReason::Config),
        "offline (feed disabled in config)"
    );
    assert_eq!(
        describe_offline(OfflineReason::Env),
        "offline (KICKBACKS_KIT_OFFLINE set)"
    );
    let s = snap(Vec::new(), true, Some(0));
    assert_eq!(
        network_line(&s, 0, Some(OfflineReason::Env)),
        "offline (KICKBACKS_KIT_OFFLINE set) · showing cached feed"
    );
    assert_eq!(network_line(&s, 0, None), "offline · showing cached feed");
}
