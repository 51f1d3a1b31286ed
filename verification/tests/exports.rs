use kickbacks_kit::archive::{AdvertiserStat, Archive, KillswitchEvent, LinkRow, Stats};
use kickbacks_kit::links;
use kickbacks_kit::listing::{
    list_with, print_leaderboard, print_list, print_stats, run_archive, stats_with, ArchiveCommand,
};
use kickbacks_kit::model::{AdRow, CliAd};
use kickbacks_kit::report::{
    gather, html_with, killswitch_label, markdown_with, md_cell, md_url, render_markdown, stamp,
    Digest, Stamps,
};
use kickbacks_kit::report;

// ---- links ------------------------------------------------------------------

fn link(adv: &str, url: &str, n: i64, last: i64) -> LinkRow {
    LinkRow {
        advertiser: adv.to_string(),
        url: url.to_string(),
        times_seen: n,
        last_seen_ms: last,
    }
}

fn sample() -> Vec<LinkRow> {
    vec![
        link("Tailscale", "https://tailscale.com/", 8, 1000),
        link("Ramp, Inc", "https://ramp.com/?ref=a&b=c", 3, 900),
    ]
}

#[test]
fn csv_quotes_commas_and_keeps_columns() {
    let csv = links::render_csv(&sample());
    assert!(csv.starts_with("advertiser,url,times_seen,last_seen_ms\n"));
    // The advertiser with a comma is quoted.
    assert!(csv.contains("\"Ramp, Inc\""));
    assert_eq!(csv.lines().count(), 3);
}

#[test]
fn jsonl_has_one_object_per_link_with_host() {
    let out = links::render_jsonl(&sample()).unwrap();
    assert_eq!(out.lines().count(), 2);
    assert!(out.contains("\"host\":\"tailscale.com\""));
    // The ampersand-bearing URL is kept.
    assert!(out.contains("ramp.com/?ref=a&b=c"));
}

#[test]
fn html_escapes_markup_and_links_urls() {
    let evil = vec![link("<script>x", "https://e.com/?a=1&b=2", 1, 10)];
    let html = links::render_html(&evil, 100);
    assert!(html.contains("&lt;script&gt;x"));
    assert!(!html.contains("<script>x"));
    // The & in the URL is escaped to &amp; in the href.
    assert!(html.contains("a=1&amp;b=2"));
}

#[test]
fn table_is_aligned_and_handles_empty() {
    let table = links::render_table(&sample(), 2000);
    assert!(table.contains("advertiser"));
    assert!(table.contains("tailscale.com"));
    assert!(links::render_table(&Vec::new(), 0).contains("no advertiser links"));
}

#[test]
fn table_strips_control_chars_from_advertiser_and_url() {
    // The table prints to a terminal; an escape sequence in the captured
    // text must not survive into stdout.
    let evil = vec![link(
        "Evil\x1b]0;pwn\x07",
        "https://e.com/\x1b[31mred",
        1,
        10,
    )];
    let table = links::render_table(&evil, 100);
    assert!(!table.contains('\x1b'));
    assert!(!table.contains('\x07'));
}

#[test]
fn csv_in_full() {
    assert_eq!(
        links::render_csv(&vec![link("a\"b", "u\nv", -1, 0)]),
        "advertiser,url,times_seen,last_seen_ms\n\"a\"\"b\",\"u\nv\",-1,0\n"
    );
}

#[test]
fn jsonl_escapes_and_reads_back() {
    let rows = vec![
        link("line\nbreak \"q\" ü \u{1}", "https://e.com/x", 2, 3),
        link("b", "no host here", 1, 4),
    ];
    let out = links::render_jsonl(&rows).unwrap();
    let lines: Vec<&str> = out.lines().collect();
    assert_eq!(lines.len(), 2);
    let v: serde_json::Value = serde_json::from_str(lines[0]).unwrap();
    assert_eq!(v["advertiser"].as_str().unwrap(), rows[0].advertiser);
    assert_eq!(v["url"].as_str().unwrap(), "https://e.com/x");
    assert_eq!(v["host"].as_str().unwrap(), "e.com");
    assert_eq!(v["times_seen"].as_i64().unwrap(), 2);
    assert_eq!(v["last_seen_ms"].as_i64().unwrap(), 3);
    assert_eq!(
        links::render_jsonl(&vec![link("a", "https://e.com/", 1, 2)]).unwrap(),
        "{\"advertiser\":\"a\",\"url\":\"https://e.com/\",\"host\":\"e.com\",\"times_seen\":1,\"last_seen_ms\":2}\n"
    );
    assert_eq!(links::render_jsonl(&Vec::new()).unwrap(), "");
    let all: String = (0u8..0x80).map(char::from).collect();
    let out = links::render_jsonl(&vec![link(&all, "u", 1, 2)]).unwrap();
    assert!(out.starts_with(
        "{\"advertiser\":\"\\u0000\\u0001\\u0002\\u0003\\u0004\\u0005\\u0006\\u0007\\b\\t\\n\\u000b\\f\\r\\u000e"
    ));
    assert!(out.contains("\\u001f !\\\"#"));
    assert!(out.contains("[\\\\]"));
    assert!(out.contains("~\u{7f}\","));
}

#[test]
fn the_table_in_full() {
    assert_eq!(
        links::render_table(&vec![link("Tailscale", "https://t.co/", 8, 0)], 120_000),
        "advertiser               seen     last  url\nTailscale                   8       2m  https://t.co/\n"
    );
}

#[test]
fn a_page_row_in_full() {
    let html = links::render_html(&vec![link("A&B", "https://e.com/x", 2, 0)], 0);
    assert!(html.contains(
        "    <li><a href=\"https://e.com/x\">A&amp;B</a> <span class=\"host\">e.com</span> <span class=\"meta\">2× · now</span></li>\n</ul>"
    ));
    assert!(html.contains("<p class=\"sub\">1 distinct destinations captured"));
    assert!(html.ends_with("</html>\n"));
}

#[test]
fn every_format_renders() {
    let rows = sample();
    for (format, start) in [
        (links::Format::Table, "advertiser "),
        (links::Format::Csv, "advertiser,"),
        (links::Format::Jsonl, "{\"advertiser\":\"Tailscale\""),
        (links::Format::Html, "<!doctype html>"),
    ] {
        let text = links::render(&rows, format, 2000).unwrap();
        assert!(text.starts_with(start), "{format:?}");
    }
}

// ---- the report -------------------------------------------------------------

fn digest() -> Digest {
    Digest {
        generated_ms: 1_781_200_000_000,
        stats: Stats {
            distinct_ads: 65,
            advertisers: 49,
            total_sightings: 254,
            sightings_today: 254,
            sightings_week: 254,
            first_seen_ms: Some(1_781_100_000_000),
            last_seen_ms: Some(1_781_199_000_000),
        },
        advertisers: vec![AdvertiserStat {
            advertiser: "Tailscale | VPN".to_string(),
            distinct_ads: 2,
            sightings: 21,
        }],
        links: vec![LinkRow {
            advertiser: "Ramp".to_string(),
            url: "https://ramp.com/?a=1&b=2".to_string(),
            last_seen_ms: 1_781_199_000_000,
            times_seen: 8,
        }],
        killswitch: vec![
            KillswitchEvent {
                ts_ms: 1_781_198_000_000,
                ts_iso: "x".to_string(),
                killed: false,
            },
            KillswitchEvent {
                ts_ms: 1_781_197_000_000,
                ts_iso: "y".to_string(),
                killed: true,
            },
        ],
    }
}

#[test]
fn markdown_link_url_cannot_inject() {
    let mut d = digest();
    // A click URL containing ')' would close a plain Markdown link early.
    d.links = vec![LinkRow {
        advertiser: "Evil".to_string(),
        url: "https://a.com/b)injected".to_string(),
        last_seen_ms: 0,
        times_seen: 1,
    }];
    let md = render_markdown(&d);
    // Angle-bracket destination keeps the whole URL inside the link.
    assert!(md.contains("](<https://a.com/b)injected>)"));
    assert!(!md.contains("](https://a.com/b)injected)"));
}

#[test]
fn markdown_has_all_sections_and_escapes_pipes() {
    let md = render_markdown(&digest());
    assert!(md.contains("# kickbacks-kit report"));
    assert!(md.contains("## Summary"));
    assert!(md.contains("Ads seen: 65"));
    assert!(md.contains("## Top advertisers"));
    // A pipe in an advertiser name is escaped so the table is not broken.
    assert!(md.contains("Tailscale \\| VPN"));
    assert!(md.contains("## Killswitch timeline"));
    assert!(md.contains("resumed"));
    assert!(md.contains("paused (kickbacks killswitch active)"));
    // Honesty: points at the portfolio, never a number.
    assert!(md.contains("kickbacks.ai/me"));
    assert!(!md.to_lowercase().contains("you earned"));
}

#[test]
fn html_escapes_and_is_self_contained() {
    let html = report::render_html(&digest());
    assert!(html.starts_with("<!doctype html>"));
    assert!(html.contains("kickbacks-kit report"));
    // The ampersand URL is escaped in the href.
    assert!(html.contains("a=1&amp;b=2"));
    assert!(html.contains("No killswitch events recorded.") || html.contains("resumed"));
    assert!(html.contains("kickbacks.ai/me"));
}

#[test]
fn empty_archive_report_is_graceful() {
    let empty = Digest {
        generated_ms: 0,
        stats: Stats::default(),
        advertisers: vec![],
        links: vec![],
        killswitch: vec![],
    };
    let md = render_markdown(&empty);
    assert!(md.contains("None captured yet."));
    assert!(md.contains("No killswitch events recorded."));
}

fn stamps() -> Stamps {
    Stamps {
        generated: "G".to_string(),
        seen: Some(("F".to_string(), "L".to_string())),
        killswitch: vec!["K1".to_string(), "K2".to_string()],
    }
}

#[test]
fn markdown_in_full() {
    assert_eq!(
        markdown_with(&digest(), &stamps()),
        "# kickbacks-kit report\n\n\
         Generated G. Read-only: kb records the ads you were shown and never reports a billing event.\n\n\
         ## Summary\n\n\
         - Ads seen: 65\n\
         - Advertisers: 49\n\
         - Sightings: 254 (today 254, this week 254)\n\
         - First seen F, last seen L\n\n\
         ## Top advertisers\n\n\
         | # | advertiser | ads | sightings |\n|--:|:--|--:|--:|\n\
         | 1 | Tailscale \\| VPN | 2 | 21 |\n\n\
         ## Recent links\n\n\
         - [Ramp](<https://ramp.com/?a=1&b=2>) · ramp.com · 8×\n\n\
         ## Killswitch timeline\n\n\
         - K1: resumed\n\
         - K2: paused (kickbacks killswitch active)\n\n\
         ## Earnings\n\n\
         kb does not read your balance: that needs the kickbacks.ai cloud backend, and kb stays read-only and offline. Your portfolio is at https://kickbacks.ai/me.\n"
    );
}

#[test]
fn the_page_in_parts() {
    let html = html_with(&digest(), &stamps());
    assert!(html.contains("<p class=\"sub\">Generated G. Read-only"));
    assert!(html.contains("<li>Ads seen <span class=\"meta\">65</span></li>"));
    assert!(html.contains("<li>Advertisers <span class=\"meta\">49</span></li>"));
    assert!(html.contains("254 (today 254, week 254)</span></li>\n  <li class=\"sub\">first seen F, last seen L</li>\n</ul>"));
    assert!(html.contains("    <tr><td>1</td><td>Tailscale | VPN</td><td>2</td><td>21</td></tr>\n</table>"));
    assert!(html.contains("<span class=\"host\">ramp.com</span> <span class=\"meta\">8×</span></li>\n</ul>"));
    assert!(html.contains("    <li>K1 <span class=\"meta\">resumed</span></li>\n    <li>K2 "));
    assert!(html.contains("<a href=\"https://kickbacks.ai/me\">https://kickbacks.ai/me</a>.</p>"));
    assert!(html.ends_with("</html>\n"));
    let mut quiet = digest();
    quiet.killswitch.clear();
    let md = report::render(&quiet, report::Format::Md);
    assert!(md.starts_with("# kickbacks-kit report"));
    let html = report::render(&quiet, report::Format::Html);
    assert!(html.contains("<li class=\"meta\">No killswitch events recorded.</li>"));
}

#[test]
fn cells_and_destinations_stay_inside() {
    assert_eq!(md_cell("a|b`c\nd\re"), "a\\|b\\`c d e");
    assert_eq!(md_cell("a](http://evil)"), "a\\](http://evil)");
    assert_eq!(md_cell("[x]\\"), "\\[x\\]\\\\");
    assert_eq!(md_url("<a>\nb\rc)"), "abc)");
    assert_eq!(killswitch_label(true), "paused (kickbacks killswitch active)");
    assert_eq!(killswitch_label(false), "resumed");
}

#[test]
fn a_stamp_for_every_instant() {
    let t = stamp(&digest());
    assert_eq!(t.killswitch.len(), 2);
    assert!(t.seen.is_some());
    assert_eq!(t.generated.len(), 16);
    let mut d = digest();
    d.stats.first_seen_ms = None;
    assert!(stamp(&d).seen.is_none());
}

// ---- listings ---------------------------------------------------------------

fn row(text: &str, advertiser: &str, n: i64) -> AdRow {
    AdRow {
        id: "i".to_string(),
        advertiser: advertiser.to_string(),
        ad_text: text.to_string(),
        click_url: None,
        first_seen_ms: 0,
        last_seen_ms: 0,
        times_seen: n,
    }
}

#[test]
fn a_list_in_full() {
    let out = list_with(
        &vec![row("Ramp - cards", "Ramp", 3)],
        &vec!["2026-06-11 22:34".to_string()],
    );
    assert_eq!(
        out,
        "\x1b[1mlast seen\x1b[0m  \x1b[1mseen\x1b[0m  \x1b[1madvertiser\x1b[0m  \x1b[1mad\x1b[0m\n\
         2026-06-11 22:34        3  Ramp              Ramp - cards\n"
    );
    assert_eq!(
        list_with(&Vec::new(), &Vec::new()),
        "\x1b[2mno ads captured yet — run `kb setup`\x1b[0m\n"
    );
    assert_eq!(print_list(&vec![row(&"x".repeat(60), "a", 1)]).lines().count(), 2);
}

#[test]
fn a_summary_in_full() {
    let s = Stats {
        distinct_ads: 1,
        advertisers: 2,
        total_sightings: 3,
        sightings_today: 4,
        sightings_week: 5,
        first_seen_ms: None,
        last_seen_ms: None,
    };
    assert_eq!(
        stats_with(&s, &None),
        "\x1b[1mkickbacks-kit · archive stats\x1b[0m\n\n\
         \u{20} \x1b[2mads seen\x1b[0m\x1b[1m1\x1b[0m\n\
         \u{20} \x1b[2madvertisers\x1b[0m\x1b[1m2\x1b[0m\n\
         \u{20} \x1b[2msightings\x1b[0m\x1b[1m3\x1b[0m\n\
         \u{20} \x1b[2mtoday\x1b[0m\x1b[1m4\x1b[0m\n\
         \u{20} \x1b[2mthis week\x1b[0m\x1b[1m5\x1b[0m\n"
    );
    assert_eq!(print_stats(&s).lines().count(), 7);
    let seen = Some(("F".to_string(), "L".to_string()));
    assert!(stats_with(&s, &seen).ends_with("\x1b[2mlast seen\x1b[0m\x1b[1mL\x1b[0m\n"));
}

#[test]
fn a_leaderboard_in_full() {
    let board = vec![AdvertiserStat {
        advertiser: "Tailscale".to_string(),
        distinct_ads: 2,
        sightings: 21,
    }];
    assert_eq!(
        print_leaderboard(&board),
        "\x1b[1m#\x1b[0m  \x1b[1madvertiser\x1b[0m  \x1b[1mads\x1b[0m  \x1b[1mseen\x1b[0m\n\
         \u{20} 1  Tailscale                  2     21\n"
    );
    assert!(print_leaderboard(&Vec::new()).contains("no ads captured yet"));
}

#[test]
fn commands_read_the_archive() {
    let mut archive = Archive::open_in_memory();
    for (ts, text) in [(1, "A · a"), (2, "B · b"), (3, "A · a")] {
        let ad = CliAd {
            ad_text: text.to_string(),
            click_url: None,
            icon_url: None,
            icon_ref: None,
            ts,
        };
        archive.capture_ad(&ad, ts);
    }
    let list = run_archive(&archive, ArchiveCommand::List(1), 10);
    assert_eq!(list.lines().count(), 2);
    assert!(list.contains("A · a"));
    let top = run_archive(&archive, ArchiveCommand::Top(5), 10);
    assert_eq!(top.lines().count(), 3);
    let stats = run_archive(&archive, ArchiveCommand::Stats, 10);
    assert!(stats.contains("\x1b[2msightings\x1b[0m\x1b[1m3\x1b[0m"));
    let d = gather(&archive, 10);
    assert_eq!(d.stats.total_sightings, 3);
    assert_eq!(d.advertisers.len(), 2);
    assert_eq!(d.generated_ms, 10);
}
