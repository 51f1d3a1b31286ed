use std::cmp::Ordering;

use kickbacks_kit::util::{
    csv_field, datetime_label, fmt_datetime, html_escape, human_age, human_age_short,
    rank_versions, sanitize_text, truncate, version_cmp, Rank,
};

#[test]
fn age_buckets() {
    assert_eq!(human_age(5_000), "5s ago");
    assert_eq!(human_age(90_000), "1m ago");
    assert_eq!(human_age(3 * 3_600_000), "3h ago");
    assert_eq!(human_age(2 * 86_400_000), "2d ago");
    assert_eq!(human_age(-1), "just now");
}

#[test]
fn truncate_adds_ellipsis() {
    assert_eq!(truncate("hello", 10), "hello");
    assert_eq!(truncate("hello world", 5), "hell…");
    assert_eq!(truncate("abc", 0), "");
}

#[test]
fn version_cmp_is_numeric_not_lexical() {
    assert_eq!(version_cmp("0.3.9", "0.3.10"), Ordering::Less);
    assert_eq!(version_cmp("0.3.172", "0.3.172"), Ordering::Equal);
    assert_eq!(version_cmp("0.4.0", "0.3.999"), Ordering::Greater);
    // Missing components count as zero.
    assert_eq!(version_cmp("1", "1.0.0"), Ordering::Equal);
    assert_eq!(version_cmp("1.2", "1.2.1"), Ordering::Less);
}

#[test]
fn short_age_buckets() {
    assert_eq!(human_age_short(5_000), "now");
    assert_eq!(human_age_short(90_000), "1m");
    assert_eq!(human_age_short(3 * 3_600_000), "3h");
    assert_eq!(human_age_short(2 * 86_400_000), "2d");
    assert_eq!(human_age_short(10 * 86_400_000), "1w");
    assert_eq!(human_age_short(-1), "now");
}

#[test]
fn sanitize_strips_controls_and_collapses_space() {
    assert_eq!(sanitize_text("hello   world"), "hello world");
    assert_eq!(sanitize_text("a\tb\nc"), "a b c");
    assert_eq!(sanitize_text("  trim me  "), "trim me");
    // An OSC injection attempt in external text is defused: the ESC and
    // BEL are removed without splitting the surrounding word.
    assert_eq!(sanitize_text("evil\x1b]0;pwned\x07end"), "evil]0;pwnedend");
    // C1 control (0x9b, CSI) is removed outright.
    assert_eq!(sanitize_text("x\u{9b}y"), "xy");
}

#[test]
fn sanitizing_twice_is_sanitizing_once() {
    for text in ["  a \t\t b \u{1b}[0m ", "", "\n\n", "plain", "x \u{7f} y"] {
        let once = sanitize_text(text);
        assert_eq!(sanitize_text(&once), once);
    }
}

#[test]
fn ages_at_the_edges_of_their_buckets() {
    assert_eq!(human_age(0), "0s ago");
    assert_eq!(human_age(59_999), "59s ago");
    assert_eq!(human_age(60_000), "1m ago");
    assert_eq!(human_age(3_599_999), "59m ago");
    assert_eq!(human_age(86_399_999), "23h ago");
    assert_eq!(human_age_short(59_999), "now");
    assert_eq!(human_age_short(7 * 86_400_000 - 1), "6d");
    assert_eq!(human_age_short(7 * 86_400_000), "1w");
}

#[test]
fn truncate_at_the_edge() {
    assert_eq!(truncate("abc", 3), "abc");
    assert_eq!(truncate("abcd", 3), "ab…");
    assert_eq!(truncate("abcd", 1), "…");
    assert_eq!(truncate("äöü", 2), "ä…");
}

#[test]
fn ranks_order_versions_both_ways() {
    assert_eq!(rank_versions("1.9", "1.10"), Rank::Older);
    assert_eq!(rank_versions("1.10", "1.9"), Rank::Newer);
    assert_eq!(rank_versions("1.0", "1"), Rank::Same);
    // What is not a number counts as zero.
    assert_eq!(rank_versions("1.x", "1.0"), Rank::Same);
    assert_eq!(rank_versions("1.2.0", "1.2"), Rank::Same);
    // A number counts however large it is.
    assert_eq!(version_cmp("99999999999999999999", "1"), Ordering::Greater);
    assert_eq!(
        version_cmp("1.99999999999999999999", "1.100000000000000000000"),
        Ordering::Less
    );
    assert_eq!(
        rank_versions("0.00099999999999999999999", "0.99999999999999999999"),
        Rank::Same
    );
}

#[test]
fn csv_fields_are_quoted_where_needed() {
    assert_eq!(csv_field("plain"), "plain");
    assert_eq!(csv_field("a,b"), "\"a,b\"");
    assert_eq!(csv_field("say \"hi\""), "\"say \"\"hi\"\"\"");
    assert_eq!(csv_field("two\nlines"), "\"two\nlines\"");
    assert_eq!(csv_field("cr\r"), "\"cr\r\"");
    assert_eq!(csv_field(""), "");
}

#[test]
fn html_is_escaped() {
    assert_eq!(
        html_escape("<a href=\"x\">'&'</a>"),
        "&lt;a href=&quot;x&quot;&gt;&#39;&amp;&#39;&lt;/a&gt;"
    );
    assert_eq!(html_escape("plain"), "plain");
}

#[test]
fn an_instant_without_text_is_a_dash() {
    assert_eq!(datetime_label(None), "—");
    assert_eq!(
        datetime_label(Some("2026-06-11 22:34".to_string())),
        "2026-06-11 22:34"
    );
    assert_eq!(fmt_datetime(i64::MAX), "—");
    // The first and the last instant that have a date.
    for edge in [-8_334_601_228_800_000, 8_210_266_876_799_999] {
        assert!(fmt_datetime(edge).len() >= 16);
    }
    for beyond in [-8_334_601_228_800_001, 8_210_266_876_800_000] {
        assert_eq!(fmt_datetime(beyond), "—");
    }
}

#[test]
fn instants_are_formatted_to_the_minute() {
    let text = fmt_datetime(1_781_210_000_000);
    assert_eq!(text.len(), 16);
    assert!(text.starts_with("2026-06-1"));
    assert_eq!(&text[10..11], " ");
    assert_eq!(&text[13..14], ":");
    // Zones are less than a day ahead or behind.
    assert!(fmt_datetime(-62_167_132_800_000).starts_with("0000-01-0"));
    assert!(fmt_datetime(253_402_214_399_999).starts_with("9999-12-3"));
    assert!(fmt_datetime(253_402_300_800_000 + 86_400_000).starts_with("+10000-01-0"));
    assert!(fmt_datetime(-62_167_219_200_000 - 2 * 86_400_000).starts_with("-0001-12-"));
    assert!(fmt_datetime(951_825_600_000).starts_with("2000-02-29"));
}
