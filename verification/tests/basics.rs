use kickbacks_kit::chart::ChartStyle;
use kickbacks_kit::config::Config;
use kickbacks_kit::digest::{hex_prefix, identify};
use kickbacks_kit::feed::github::{item_of_issue, repo_stats, Issue, Repo};
use kickbacks_kit::json::Member;
use kickbacks_kit::links::json_line;
use kickbacks_kit::numbers::{
    count_text, parse_i64, parse_u32, parse_u64, signed_text, unsigned_text,
};
use kickbacks_kit::order::rank;
use kickbacks_kit::render::Tab;
use kickbacks_kit::sources::{make_event, split_log_line};
use kickbacks_kit::style::{bold, dim};
use kickbacks_kit::text::{
    comes_before, cut, cut_at_any, join_with, left_aligned, lines_of, replace_all, replace_once,
    rest_after_last, right_aligned, split_at_each, trimmed, without_prefix, words_of,
};
use kickbacks_kit::theme::Theme;

#[test]
fn texts_are_ordered_by_their_characters() {
    assert!(comes_before("a", "b"));
    assert!(comes_before("a", "aa"));
    assert!(comes_before("", "a"));
    assert!(!comes_before("b", "a"));
    assert!(!comes_before("a", "a"));
    assert!(comes_before("0.3.10", "0.3.9"));
}

#[test]
fn texts_are_split_and_joined() {
    assert_eq!(split_at_each("a--b--", "--"), vec!["a", "b", ""]);
    assert_eq!(split_at_each("", "--"), vec![""]);
    assert_eq!(join_with(&vec!["a".to_string(), "b".to_string()], ", "), "a, b");
    assert_eq!(join_with(&Vec::new(), ", "), "");
    assert_eq!(cut("k=v=w", "="), Some(("k".to_string(), "v=w".to_string())));
    assert_eq!(cut("k", "="), None);
    assert_eq!(lines_of("a\r\nb\n\nc"), vec!["a", "b", "", "c"]);
    assert_eq!(lines_of("a\n"), vec!["a"]);
    assert!(lines_of("").is_empty());
    assert_eq!(words_of("  a \u{a0} b\tc "), vec!["a", "b", "c"]);
    assert_eq!(trimmed(" \n a b \t"), "a b");
    assert_eq!(cut_at_any("host/path?q", "/?#"), "host");
    assert_eq!(rest_after_last("user:pw@host", '@'), "host");
    assert_eq!(without_prefix("www.a", "www.").as_deref(), Some("a"));
    assert_eq!(without_prefix("a", "www."), None);
    assert_eq!(replace_all("aXXbX", "X", "yy"), "ayyyybyy");
    assert_eq!(replace_once("aXbX", "X", "-"), "a-bX");
    assert_eq!(left_aligned("ab", 4), "ab  ");
    assert_eq!(right_aligned("ab", 4), "  ab");
    assert_eq!(right_aligned("abcde", 4), "abcde");
}

#[test]
fn numbers_are_written_and_read() {
    assert_eq!(unsigned_text(u64::MAX), "18446744073709551615");
    assert_eq!(signed_text(i64::MIN), "-9223372036854775808");
    assert_eq!(signed_text(0), "0");
    assert_eq!(count_text(120), "120");
    assert_eq!(parse_u64("18446744073709551615"), Some(u64::MAX));
    assert_eq!(parse_u64("18446744073709551616"), None);
    assert_eq!(parse_u64("+7"), Some(7));
    assert_eq!(parse_u64("-7"), None);
    assert_eq!(parse_u64(""), None);
    assert_eq!(parse_u64("+"), None);
    assert_eq!(parse_u64("1x"), None);
    assert_eq!(parse_u32("4294967295"), Some(u32::MAX));
    assert_eq!(parse_u32("4294967296"), None);
    assert_eq!(parse_i64("-9223372036854775808"), Some(i64::MIN));
    assert_eq!(parse_i64("9223372036854775808"), None);
    for text in ["0", "-1", "42", "+5", "-", "", "1 ", "007"] {
        assert_eq!(parse_i64(text), text.parse::<i64>().ok(), "{text:?}");
        assert_eq!(parse_u64(text), text.parse::<u64>().ok(), "{text:?}");
    }
}

#[test]
fn ranking_is_stable_by_first_then_second_key() {
    // First key ascending, second descending; ties keep their order.
    let keys = vec![(1, 5), (0, 1), (1, 9), (0, 1), (1, 5)];
    assert_eq!(rank(&keys), vec![1, 3, 2, 0, 4]);
    assert!(rank(&Vec::new()).is_empty());
}

#[test]
fn identifiers_are_hexadecimal() {
    assert_eq!(
        hex_prefix(&vec![0, 1, 0x7f, 0x80, 0xab, 0xcd, 0xef, 0xff, 9]),
        "00017f80abcdefff"
    );
    // SHA-256 of nothing.
    assert_eq!(identify(&Vec::new()), "e3b0c44298fc1c14");
}

#[test]
fn styling_is_gated() {
    assert_eq!(bold("x", true), "\x1b[1mx\x1b[0m");
    assert_eq!(dim("x", true), "\x1b[2mx\x1b[0m");
    assert_eq!(bold("x", false), "x");
    assert_eq!(dim("x", false), "x");
}

#[test]
fn cycles_come_round() {
    for tab in [Tab::Dashboard, Tab::Feed, Tab::Links] {
        assert_eq!(tab.cycle(true).cycle(false), tab);
        assert_eq!(tab.cycle(true).cycle(true).cycle(true), tab);
    }
    assert_eq!(ChartStyle::Heat.next().next(), ChartStyle::Heat);
    let cfg = Config::default();
    assert!(cfg.feed.enabled);
    assert_eq!(cfg.theme, Theme::Auto);
    assert_eq!(cfg.chart_style, ChartStyle::Heat);
}

#[test]
fn logic_on_given_outcomes() {
    assert_eq!(
        json_line("\"a\"", "\"u\"", None, 1, 2),
        "{\"advertiser\":\"a\",\"url\":\"u\",\"host\":null,\"times_seen\":1,\"last_seen_ms\":2}\n"
    );
    let stats = repo_stats(
        Repo {
            stargazers_count: 1,
            forks_count: 2,
            open_issues_count: 3,
            pushed_at: Some("ignored".to_string()),
            html_url: None,
        },
        Some(9),
    );
    assert_eq!(stats.pushed_at_ms, Some(9));
    let issue = Issue {
        number: 7,
        title: "t".to_string(),
        html_url: None,
        created_at: None,
        updated_at: None,
        is_pull_request: false,
    };
    let item = item_of_issue(&issue, Some(5), "s");
    assert_eq!(item.title, "#7 t");
    assert_eq!(item.ts_ms, Some(5));
    assert_eq!(
        item.url.as_deref(),
        Some("https://github.com/andrewmccalip/kickbacks.ai/issues/7")
    );
    let head = split_log_line("T [ext] info - name {\"a\":1}").unwrap();
    let members = vec![
        Member::Bool(true),
        Member::Other,
        Member::Text("true".to_string()),
        Member::Bool(false),
        Member::Text("2.1".to_string()),
    ];
    let event = make_event(head, Some(3), &members);
    assert_eq!(event.name, "name");
    assert_eq!(event.ts_ms, 3);
    assert_eq!(event.signed_in, Some(true));
    assert_eq!(event.has_ad, None);
    assert_eq!(event.injection_on, None);
    assert_eq!(event.killed, Some(false));
    assert_eq!(event.cc_version.as_deref(), Some("2.1"));
    let head = split_log_line("T [ext] info - name").unwrap();
    assert_eq!(make_event(head, None, &members).ts_ms, 0);
}
