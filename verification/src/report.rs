//! A one-shot digest of the local ad archive, as Markdown or a self-contained
//! HTML page: the summary, the advertiser leaderboard, the recent links, and the
//! killswitch timeline in one document to keep or share.
//!
//! It is read-only and honest: it reports the history that was observed, it never
//! reads or invents an earnings figure, and it points at the real portfolio for
//! that.

use vstd::prelude::*;

use crate::archive::queries::{
    all_links, board_keys, board_views, full_board, killswitch_views, link_keys, link_views,
    newest_first, stats_of, top, turns, AdvertiserView, KillswitchView, LinkView,
};
use crate::archive::{wf, AdvertiserStat, Archive, KillswitchEvent, LinkRow, Stats};
use crate::clock::is_label_of;
use crate::links::host_or_empty;
use crate::model::host;
use crate::numbers::{count_text, decimal, int_text, int_text_is_numeric, signed_text};
use crate::text::{
    chars_of, concat, count_of, lemma_count_add, lemma_count_none, occurs_at, opt_pair, or_empty,
    views,
};
use crate::text_laws::{stacked, stacking_appends};
use crate::util::{fmt_datetime, html_escape, html_escaped, html_escaped_is_inert};

verus! {

/// Where real earnings live. Balances are never read, so reports point here
/// instead of showing one.
pub const PORTFOLIO_URL: &'static str = "https://kickbacks.ai/me";

/// How a report is written.
#[derive(Debug, Clone, Copy, PartialEq, Eq, Structural)]
pub enum Format {
    /// GitHub-flavored Markdown (the default).
    Md,
    /// A self-contained HTML page.
    Html,
}

/// Everything the report renders, gathered once from the archive.
#[derive(Debug)]
pub struct Digest {
    pub generated_ms: i64,
    pub stats: Stats,
    pub advertisers: Vec<AdvertiserStat>,
    pub links: Vec<LinkRow>,
    pub killswitch: Vec<KillswitchEvent>,
}

/// What a digest holds.
pub struct DigestView {
    pub generated_ms: i64,
    pub stats: Stats,
    pub advertisers: Seq<AdvertiserView>,
    pub links: Seq<LinkView>,
    pub killswitch: Seq<KillswitchView>,
}

impl View for Digest {
    type V = DigestView;

    open spec fn view(&self) -> DigestView {
        DigestView {
            generated_ms: self.generated_ms,
            stats: self.stats,
            advertisers: board_views(self.advertisers@),
            links: link_views(self.links@),
            killswitch: killswitch_views(self.killswitch@),
        }
    }
}

/// Gather the digest from the archive at `now_ms`.
pub fn gather(archive: &Archive, now_ms: i64) -> (r: Digest)
    requires
        wf(archive@),
    ensures
        r@ == (DigestView {
            generated_ms: now_ms,
            stats: stats_of(archive@, now_ms),
            advertisers: top(full_board(archive@), board_keys(full_board(archive@)), 10),
            links: top(all_links(archive@), link_keys(all_links(archive@)), 15),
            killswitch: newest_first(turns(archive@.events, archive@.events.len() as int), 10),
        }),
{
    Digest {
        generated_ms: now_ms,
        stats: archive.stats(now_ms),
        advertisers: archive.advertiser_leaderboard(10),
        links: archive.distinct_links(15),
        killswitch: archive.killswitch_timeline(10),
    }
}

/// The label of a killswitch turn.
pub open spec fn turn_label(killed: bool) -> Seq<char> {
    if killed {
        "paused (kickbacks killswitch active)"@
    } else {
        "resumed"@
    }
}

/// A short human label for a killswitch transition.
pub fn killswitch_label(killed: bool) -> (r: &'static str)
    ensures
        r@ == turn_label(killed),
{
    if killed {
        "paused (kickbacks killswitch active)"
    } else {
        "resumed"
    }
}

// ---- the instants of a report -----------------------------------------------

/// The instants of a report as text.
#[derive(Debug)]
pub struct Stamps {
    pub generated: String,
    /// The first and the last sighting, where there are any.
    pub seen: Option<(String, String)>,
    /// One for each turn of the killswitch.
    pub killswitch: Vec<String>,
}

/// What the instants of a report say.
pub struct StampsView {
    pub generated: Seq<char>,
    pub seen: Option<(Seq<char>, Seq<char>)>,
    pub killswitch: Seq<Seq<char>>,
}

impl View for Stamps {
    type V = StampsView;

    open spec fn view(&self) -> StampsView {
        StampsView {
            generated: self.generated@,
            seen: opt_pair(self.seen),
            killswitch: views(self.killswitch@),
        }
    }
}

/// Whether there is a text for each instant of a digest.
pub open spec fn stamps_fit(t: StampsView, d: DigestView) -> bool {
    &&& t.seen is Some <==> d.stats.first_seen_ms is Some && d.stats.last_seen_ms is Some
    &&& t.killswitch.len() == d.killswitch.len()
}

/// Whether every text is the label of its own instant.
pub open spec fn stamps_are_labels(t: StampsView, d: DigestView) -> bool {
    &&& is_label_of(t.generated, d.generated_ms)
    &&& t.seen matches Some(seen) ==> is_label_of(seen.0, d.stats.first_seen_ms->0) && is_label_of(
        seen.1,
        d.stats.last_seen_ms->0,
    )
    &&& forall|i: int|
        0 <= i < t.killswitch.len() ==> is_label_of(
            #[trigger] t.killswitch[i],
            d.killswitch[i].ts_ms,
        )
}

/// The instants of a digest in the local time zone.
pub fn stamp(d: &Digest) -> (r: Stamps)
    ensures
        stamps_fit(r@, d@),
        stamps_are_labels(r@, d@),
{
    let generated = fmt_datetime(d.generated_ms);
    let seen = match (d.stats.first_seen_ms, d.stats.last_seen_ms) {
        (Some(first), Some(last)) => Some((fmt_datetime(first), fmt_datetime(last))),
        _ => None,
    };
    let mut killswitch: Vec<String> = Vec::new();
    let mut k: usize = 0;
    while k < d.killswitch.len()
        invariant
            k <= d.killswitch@.len(),
            killswitch@.len() == k,
            forall|i: int|
                0 <= i < killswitch@.len() ==> is_label_of(
                    (#[trigger] killswitch@[i])@,
                    d.killswitch@[i].ts_ms,
                ),
        decreases d.killswitch@.len() - k,
    {
        killswitch.push(fmt_datetime(d.killswitch[k].ts_ms));
        k = k + 1;
    }
    Stamps { generated, seen, killswitch }
}

// ---- Markdown ---------------------------------------------------------------

/// A character that has a meaning in a Markdown cell or a link label: it splits a
/// row, opens a code span, bounds a label, or escapes another.
pub open spec fn is_active(c: char) -> bool {
    c == '|' || c == '`' || c == '[' || c == ']' || c == '\\'
}

/// What stands for a character in a Markdown cell.
pub open spec fn cell_char(c: char) -> Seq<char> {
    if is_active(c) {
        seq!['\\', c]
    } else if c == '\n' || c == '\r' {
        seq![' ']
    } else {
        seq![c]
    }
}

/// A text as a Markdown cell.
pub open spec fn cell(s: Seq<char>) -> Seq<char>
    decreases s.len(),
{
    if s.len() == 0 {
        Seq::empty()
    } else {
        cell(s.drop_last()) + cell_char(s.last())
    }
}

/// Escape the characters that would break a Markdown table cell or a link
/// label: brackets and the escape itself. Also neutralizes a backtick so a value
/// cannot open an inline code span, and a pipe so it cannot split a table row.
pub fn md_cell(s: &str) -> (r: String)
    ensures
        r@ == cell(s@),
{
    let chars = chars_of(s);
    let mut out = String::new();
    let mut i: usize = 0;
    assert(chars@.take(0) =~= Seq::<char>::empty());
    assert(out@ =~= Seq::<char>::empty());
    while i < chars.len()
        invariant
            i <= chars@.len(),
            out@ == cell(chars@.take(i as int)),
        decreases chars@.len() - i,
    {
        let ghost before = out@;
        let c = chars[i];
        if c == '|' || c == '`' || c == '[' || c == ']' || c == '\\' {
            out.push('\\');
            out.push(c);
        } else if c == '\n' || c == '\r' {
            out.push(' ');
        } else {
            out.push(c);
        }
        proof {
            let next = chars@.take(i + 1);
            assert(next.drop_last() =~= chars@.take(i as int));
            assert(next.last() == c);
            assert(out@ =~= before + cell_char(c));
        }
        i = i + 1;
    }
    assert(chars@.take(i as int) =~= chars@);
    out
}

/// A URL inside an angle-bracket destination: without angle brackets and line
/// breaks.
pub open spec fn destination(s: Seq<char>) -> Seq<char>
    decreases s.len(),
{
    if s.len() == 0 {
        Seq::empty()
    } else {
        let c = s.last();
        let head = destination(s.drop_last());
        if c == '<' || c == '>' || c == '\n' || c == '\r' {
            head
        } else {
            head.push(c)
        }
    }
}

/// Make a URL safe inside an angle-bracket Markdown destination `<...>`: drop
/// the angle brackets and any newline that would terminate it. The surrounding
/// `<>` then makes a `)` in the URL harmless.
pub fn md_url(s: &str) -> (r: String)
    ensures
        r@ == destination(s@),
{
    let chars = chars_of(s);
    let mut out = String::new();
    let mut i: usize = 0;
    assert(chars@.take(0) =~= Seq::<char>::empty());
    assert(out@ =~= Seq::<char>::empty());
    while i < chars.len()
        invariant
            i <= chars@.len(),
            out@ == destination(chars@.take(i as int)),
        decreases chars@.len() - i,
    {
        let c = chars[i];
        proof {
            let next = chars@.take(i + 1);
            assert(next.drop_last() =~= chars@.take(i as int));
            assert(next.last() == c);
        }
        if !(c == '<' || c == '>' || c == '\n' || c == '\r') {
            out.push(c);
        }
        i = i + 1;
    }
    assert(chars@.take(i as int) =~= chars@);
    out
}

/// The summary.
pub open spec fn md_summary(s: Stats, seen: Option<(Seq<char>, Seq<char>)>) -> Seq<char> {
    let counts = "## Summary\n\n- Ads seen: "@ + int_text(s.distinct_ads as int)
        + "\n- Advertisers: "@ + int_text(s.advertisers as int) + "\n- Sightings: "@ + int_text(
        s.total_sightings as int,
    ) + " (today "@ + int_text(s.sightings_today as int) + ", this week "@ + int_text(
        s.sightings_week as int,
    ) + ")\n"@;
    match seen {
        Some((first, last)) => counts + "- First seen "@ + first + ", last seen "@ + last
            + "\n\n"@,
        None => counts + "\n"@,
    }
}

fn summary_section(s: &Stats, seen: &Option<(String, String)>) -> (r: String)
    ensures
        r@ == md_summary(*s, opt_pair(*seen)),
{
    let ads = signed_text(s.distinct_ads);
    let mut out = concat("## Summary\n\n- Ads seen: ", ads.as_str());
    out.push_str("\n- Advertisers: ");
    let advertisers = signed_text(s.advertisers);
    out.push_str(advertisers.as_str());
    out.push_str("\n- Sightings: ");
    let sightings = signed_text(s.total_sightings);
    out.push_str(sightings.as_str());
    out.push_str(" (today ");
    let today = signed_text(s.sightings_today);
    out.push_str(today.as_str());
    out.push_str(", this week ");
    let week = signed_text(s.sightings_week);
    out.push_str(week.as_str());
    out.push_str(")\n");
    match seen {
        Some((first, last)) => {
            out.push_str("- First seen ");
            out.push_str(first.as_str());
            out.push_str(", last seen ");
            out.push_str(last.as_str());
            out.push_str("\n\n");
        },
        None => out.push_str("\n"),
    }
    out
}

/// The row of an advertiser, who stands at place `i` of the leaderboard.
pub open spec fn md_board_row(a: AdvertiserView, i: int) -> Seq<char> {
    "| "@ + decimal((i + 1) as nat) + " | "@ + cell(a.advertiser) + " | "@ + int_text(
        a.distinct_ads,
    ) + " | "@ + int_text(a.sightings) + " |\n"@
}

/// The table's head and the rows of the first `k` advertisers.
pub open spec fn md_board_rows(board: Seq<AdvertiserView>, k: int) -> Seq<char>
    decreases k,
{
    if k <= 0 {
        "## Top advertisers\n\n| # | advertiser | ads | sightings |\n|--:|:--|--:|--:|\n"@
    } else {
        md_board_rows(board, k - 1) + md_board_row(board[k - 1], k - 1)
    }
}

/// The leaderboard.
pub open spec fn md_board(board: Seq<AdvertiserView>) -> Seq<char> {
    if board.len() == 0 {
        "## Top advertisers\n\nNone captured yet.\n\n"@
    } else {
        md_board_rows(board, board.len() as int) + "\n"@
    }
}

fn board_section(board: &Vec<AdvertiserStat>) -> (r: String)
    ensures
        r@ == md_board(board_views(board@)),
{
    let ghost all = board_views(board@);
    if board.len() == 0 {
        return "## Top advertisers\n\nNone captured yet.\n\n".to_owned();
    }
    let mut out =
        "## Top advertisers\n\n| # | advertiser | ads | sightings |\n|--:|:--|--:|--:|\n".to_owned();
    let mut k: usize = 0;
    while k < board.len()
        invariant
            all == board_views(board@),
            k <= board@.len(),
            out@ == md_board_rows(all, k as int),
        decreases board@.len() - k,
    {
        assert(all[k as int] == board@[k as int]@);
        let a = &board[k];
        let place = count_text(k + 1);
        let mut row = concat("| ", place.as_str());
        row.push_str(" | ");
        let name = md_cell(a.advertiser.as_str());
        row.push_str(name.as_str());
        row.push_str(" | ");
        let ads = signed_text(a.distinct_ads);
        row.push_str(ads.as_str());
        row.push_str(" | ");
        let seen = signed_text(a.sightings);
        row.push_str(seen.as_str());
        row.push_str(" |\n");
        out.push_str(row.as_str());
        k = k + 1;
    }
    out.push_str("\n");
    out
}

/// The entry of a link. The destination is in angle brackets so a `)` in a
/// tracking URL cannot close the link early and inject text; the label and the
/// host are escaped.
pub open spec fn md_link(l: LinkView) -> Seq<char> {
    "- ["@ + cell(l.advertiser) + "](<"@ + destination(l.url) + ">) \u{b7} "@ + cell(
        or_empty(host(l.url)),
    ) + " \u{b7} "@ + int_text(l.times_seen) + "\u{d7}\n"@
}

/// The heading and the entries of the first `k` links.
pub open spec fn md_link_rows(links: Seq<LinkView>, k: int) -> Seq<char>
    decreases k,
{
    if k <= 0 {
        "## Recent links\n\n"@
    } else {
        md_link_rows(links, k - 1) + md_link(links[k - 1])
    }
}

/// The recent links.
pub open spec fn md_links(links: Seq<LinkView>) -> Seq<char> {
    if links.len() == 0 {
        "## Recent links\n\nNone captured yet.\n\n"@
    } else {
        md_link_rows(links, links.len() as int) + "\n"@
    }
}

fn links_section(links: &Vec<LinkRow>) -> (r: String)
    ensures
        r@ == md_links(link_views(links@)),
{
    let ghost all = link_views(links@);
    if links.len() == 0 {
        return "## Recent links\n\nNone captured yet.\n\n".to_owned();
    }
    let mut out = "## Recent links\n\n".to_owned();
    let mut k: usize = 0;
    while k < links.len()
        invariant
            all == link_views(links@),
            k <= links@.len(),
            out@ == md_link_rows(all, k as int),
        decreases links@.len() - k,
    {
        assert(all[k as int] == links@[k as int]@);
        let l = &links[k];
        let name = md_cell(l.advertiser.as_str());
        let mut row = concat("- [", name.as_str());
        row.push_str("](<");
        let url = md_url(l.url.as_str());
        row.push_str(url.as_str());
        row.push_str(">) \u{b7} ");
        let bare = host_or_empty(l.url.as_str());
        let site = md_cell(bare.as_str());
        row.push_str(site.as_str());
        row.push_str(" \u{b7} ");
        let times = signed_text(l.times_seen);
        row.push_str(times.as_str());
        row.push_str("\u{d7}\n");
        out.push_str(row.as_str());
        k = k + 1;
    }
    out.push_str("\n");
    out
}

/// The heading and the first `k` turns of the killswitch.
pub open spec fn md_turn_rows(
    turns: Seq<KillswitchView>,
    at: Seq<Seq<char>>,
    k: int,
) -> Seq<char>
    decreases k,
{
    if k <= 0 {
        "## Killswitch timeline\n\n"@
    } else {
        md_turn_rows(turns, at, k - 1) + ("- "@ + at[k - 1] + ": "@ + turn_label(
            turns[k - 1].killed,
        ) + "\n"@)
    }
}

/// The killswitch timeline.
pub open spec fn md_turns(turns: Seq<KillswitchView>, at: Seq<Seq<char>>) -> Seq<char> {
    if turns.len() == 0 {
        "## Killswitch timeline\n\nNo killswitch events recorded.\n\n"@
    } else {
        md_turn_rows(turns, at, turns.len() as int) + "\n"@
    }
}

fn turns_section(turns: &Vec<KillswitchEvent>, at: &Vec<String>) -> (r: String)
    requires
        turns@.len() == at@.len(),
    ensures
        r@ == md_turns(killswitch_views(turns@), views(at@)),
{
    let ghost all = killswitch_views(turns@);
    let ghost labels = views(at@);
    if turns.len() == 0 {
        return "## Killswitch timeline\n\nNo killswitch events recorded.\n\n".to_owned();
    }
    let mut out = "## Killswitch timeline\n\n".to_owned();
    let mut k: usize = 0;
    while k < turns.len()
        invariant
            all == killswitch_views(turns@),
            labels == views(at@),
            turns@.len() == at@.len(),
            k <= turns@.len(),
            out@ == md_turn_rows(all, labels, k as int),
        decreases turns@.len() - k,
    {
        assert(all[k as int] == turns@[k as int]@);
        assert(labels[k as int] == at@[k as int]@);
        let mut row = concat("- ", at[k].as_str());
        row.push_str(": ");
        row.push_str(killswitch_label(turns[k].killed));
        row.push_str("\n");
        out.push_str(row.as_str());
        k = k + 1;
    }
    out.push_str("\n");
    out
}

/// What a Markdown report says after the time it was generated.
pub const MD_PROMISE: &'static str = ". Read-only: kb records the ads you were shown and never reports a billing event.\n\n";

/// What a Markdown report says of earnings, up to the portfolio.
pub const MD_EARNINGS: &'static str = "## Earnings\n\nkb does not read your balance: that needs the kickbacks.ai cloud backend, and kb stays read-only and offline. Your portfolio is at ";

/// A digest as Markdown.
pub open spec fn markdown(d: DigestView, t: StampsView) -> Seq<char> {
    "# kickbacks-kit report\n\nGenerated "@ + t.generated + MD_PROMISE@ + md_summary(
        d.stats,
        t.seen,
    ) + md_board(d.advertisers) + md_links(d.links) + md_turns(d.killswitch, t.killswitch)
        + MD_EARNINGS@ + PORTFOLIO_URL@ + ".\n"@
}

/// Render a digest as Markdown, with its instants given as text.
pub fn markdown_with(d: &Digest, t: &Stamps) -> (r: String)
    requires
        d.killswitch@.len() == t.killswitch@.len(),
    ensures
        r@ == markdown(d@, t@),
{
    let mut s = concat("# kickbacks-kit report\n\nGenerated ", t.generated.as_str());
    s.push_str(MD_PROMISE);
    let summary = summary_section(&d.stats, &t.seen);
    s.push_str(summary.as_str());
    let board = board_section(&d.advertisers);
    s.push_str(board.as_str());
    let links = links_section(&d.links);
    s.push_str(links.as_str());
    let timeline = turns_section(&d.killswitch, &t.killswitch);
    s.push_str(timeline.as_str());
    s.push_str(MD_EARNINGS);
    s.push_str(PORTFOLIO_URL);
    s.push_str(".\n");
    s
}

/// Render a digest as Markdown, with its instants in the local time zone.
pub fn render_markdown(d: &Digest) -> (r: String)
    ensures
        exists|t: StampsView| #[trigger]
            markdown(d@, t) == r@ && stamps_fit(t, d@) && stamps_are_labels(t, d@),
{
    let t = stamp(d);
    let r = markdown_with(d, &t);
    assert(markdown(d@, t@) == r@);
    r
}

// ---- HTML -------------------------------------------------------------------

/// The page up to the time it was generated.
pub const HTML_START: &'static str = "<!doctype html>
<html lang=\"en\">
<head>
<meta charset=\"utf-8\">
<title>kickbacks-kit report</title>
<style>
  body { font: 15px/1.6 ui-sans-serif, system-ui, sans-serif; max-width: 52rem;
         margin: 2rem auto; padding: 0 1rem; color: #1a1a1a; }
  h1 { font-size: 1.4rem; }
  h2 { font-size: 1.05rem; margin-top: 2rem; border-bottom: 1px solid #eee; padding-bottom: .3rem; }
  table { border-collapse: collapse; width: 100%; }
  th, td { text-align: left; padding: .35rem .6rem; border-bottom: 1px solid #f0f0f0; }
  td:last-child, th:last-child, td:nth-child(3), th:nth-child(3) { text-align: right; }
  ul { list-style: none; padding: 0; }
  li { padding: .3rem 0; border-bottom: 1px solid #f4f4f4; }
  a { color: #0b62d6; text-decoration: none; }
  .host { color: #888; font-size: .85em; }
  .meta { color: #aaa; font-size: .85em; float: right; }
  .sub { color: #666; }
</style>
</head>
<body>
<h1>kickbacks-kit report</h1>
<p class=\"sub\">Generated ";

/// The page from there to the number of ads.
pub const HTML_PROMISE: &'static str = ". Read-only: kb records the ads you were shown and never reports a billing event.</p>

<h2>Summary</h2>
<ul>
  <li>Ads seen <span class=\"meta\">";

/// The page from there to the number of advertisers.
pub const HTML_ADVERTISERS: &'static str = "</span></li>
  <li>Advertisers <span class=\"meta\">";

/// The page from there to the number of sightings.
pub const HTML_SIGHTINGS: &'static str = "</span></li>
  <li>Sightings <span class=\"meta\">";

/// The page between the week's sightings and the first and last one.
pub const HTML_AFTER_WEEK: &'static str = ")</span></li>
  ";

/// The page from there to the leaderboard.
pub const HTML_BOARD: &'static str = "
</ul>

<h2>Top advertisers</h2>
<table>
  <tr><th>#</th><th>advertiser</th><th>ads</th><th>sightings</th></tr>
";

/// The page from there to the links.
pub const HTML_LINKS: &'static str = "</table>

<h2>Recent links</h2>
<ul>
";

/// The page from there to the killswitch timeline.
pub const HTML_TURNS: &'static str = "</ul>

<h2>Killswitch timeline</h2>
<ul>
";

/// The page from there to the portfolio.
pub const HTML_EARNINGS: &'static str = "</ul>

<h2>Earnings</h2>
<p>kb does not read your balance: that needs the kickbacks.ai cloud backend, and kb stays read-only and offline. Your portfolio is at <a href=\"";

/// The page after the portfolio.
pub const HTML_END: &'static str = "</a>.</p>
</body>
</html>
";

/// The row of an advertiser, who stands at place `i` of the leaderboard.
pub open spec fn html_board_row(a: AdvertiserView, i: int) -> Seq<char> {
    "    <tr><td>"@ + decimal((i + 1) as nat) + "</td><td>"@ + html_escaped(a.advertiser)
        + "</td><td>"@ + int_text(a.distinct_ads) + "</td><td>"@ + int_text(a.sightings)
        + "</td></tr>\n"@
}

/// The rows of the first `k` advertisers.
pub open spec fn html_board(board: Seq<AdvertiserView>, k: int) -> Seq<char>
    decreases k,
{
    if k <= 0 {
        Seq::empty()
    } else {
        html_board(board, k - 1) + html_board_row(board[k - 1], k - 1)
    }
}

fn board_rows(board: &Vec<AdvertiserStat>) -> (r: String)
    ensures
        r@ == html_board(board_views(board@), board@.len() as int),
{
    let ghost all = board_views(board@);
    let mut out = String::new();
    let mut k: usize = 0;
    assert(out@ =~= Seq::<char>::empty());
    while k < board.len()
        invariant
            all == board_views(board@),
            k <= board@.len(),
            out@ == html_board(all, k as int),
        decreases board@.len() - k,
    {
        assert(all[k as int] == board@[k as int]@);
        let a = &board[k];
        let place = count_text(k + 1);
        let mut row = concat("    <tr><td>", place.as_str());
        row.push_str("</td><td>");
        let name = html_escape(a.advertiser.as_str());
        row.push_str(name.as_str());
        row.push_str("</td><td>");
        let ads = signed_text(a.distinct_ads);
        row.push_str(ads.as_str());
        row.push_str("</td><td>");
        let seen = signed_text(a.sightings);
        row.push_str(seen.as_str());
        row.push_str("</td></tr>\n");
        out.push_str(row.as_str());
        k = k + 1;
    }
    out
}

/// The entry of a link.
pub open spec fn html_link(l: LinkView) -> Seq<char> {
    "    <li><a href=\""@ + html_escaped(l.url) + "\">"@ + html_escaped(l.advertiser)
        + "</a> <span class=\"host\">"@ + html_escaped(or_empty(host(l.url)))
        + "</span> <span class=\"meta\">"@ + int_text(l.times_seen) + "\u{d7}</span></li>\n"@
}

/// The entries of the first `k` links.
pub open spec fn html_links(links: Seq<LinkView>, k: int) -> Seq<char>
    decreases k,
{
    if k <= 0 {
        Seq::empty()
    } else {
        html_links(links, k - 1) + html_link(links[k - 1])
    }
}

fn link_rows(links: &Vec<LinkRow>) -> (r: String)
    ensures
        r@ == html_links(link_views(links@), links@.len() as int),
{
    let ghost all = link_views(links@);
    let mut out = String::new();
    let mut k: usize = 0;
    assert(out@ =~= Seq::<char>::empty());
    while k < links.len()
        invariant
            all == link_views(links@),
            k <= links@.len(),
            out@ == html_links(all, k as int),
        decreases links@.len() - k,
    {
        assert(all[k as int] == links@[k as int]@);
        let l = &links[k];
        let url = html_escape(l.url.as_str());
        let mut row = concat("    <li><a href=\"", url.as_str());
        row.push_str("\">");
        let name = html_escape(l.advertiser.as_str());
        row.push_str(name.as_str());
        row.push_str("</a> <span class=\"host\">");
        let bare = host_or_empty(l.url.as_str());
        let site = html_escape(bare.as_str());
        row.push_str(site.as_str());
        row.push_str("</span> <span class=\"meta\">");
        let times = signed_text(l.times_seen);
        row.push_str(times.as_str());
        row.push_str("\u{d7}</span></li>\n");
        out.push_str(row.as_str());
        k = k + 1;
    }
    out
}

/// The first `k` turns of the killswitch.
pub open spec fn html_turn_rows(
    turns: Seq<KillswitchView>,
    at: Seq<Seq<char>>,
    k: int,
) -> Seq<char>
    decreases k,
{
    if k <= 0 {
        Seq::empty()
    } else {
        html_turn_rows(turns, at, k - 1) + ("    <li>"@ + html_escaped(at[k - 1])
            + " <span class=\"meta\">"@ + html_escaped(turn_label(turns[k - 1].killed))
            + "</span></li>\n"@)
    }
}

/// The killswitch timeline.
pub open spec fn html_turns(turns: Seq<KillswitchView>, at: Seq<Seq<char>>) -> Seq<char> {
    if turns.len() == 0 {
        "    <li class=\"meta\">No killswitch events recorded.</li>\n"@
    } else {
        html_turn_rows(turns, at, turns.len() as int)
    }
}

fn turn_rows(turns: &Vec<KillswitchEvent>, at: &Vec<String>) -> (r: String)
    requires
        turns@.len() == at@.len(),
    ensures
        r@ == html_turns(killswitch_views(turns@), views(at@)),
{
    let ghost all = killswitch_views(turns@);
    let ghost labels = views(at@);
    if turns.len() == 0 {
        return "    <li class=\"meta\">No killswitch events recorded.</li>\n".to_owned();
    }
    let mut out = String::new();
    let mut k: usize = 0;
    assert(out@ =~= Seq::<char>::empty());
    while k < turns.len()
        invariant
            all == killswitch_views(turns@),
            labels == views(at@),
            turns@.len() == at@.len(),
            k <= turns@.len(),
            out@ == html_turn_rows(all, labels, k as int),
        decreases turns@.len() - k,
    {
        assert(all[k as int] == turns@[k as int]@);
        assert(labels[k as int] == at@[k as int]@);
        let moment = html_escape(at[k].as_str());
        let mut row = concat("    <li>", moment.as_str());
        row.push_str(" <span class=\"meta\">");
        let label = html_escape(killswitch_label(turns[k].killed));
        row.push_str(label.as_str());
        row.push_str("</span></li>\n");
        out.push_str(row.as_str());
        k = k + 1;
    }
    out
}

/// The entry of the first and the last sighting.
pub open spec fn html_seen(seen: Option<(Seq<char>, Seq<char>)>) -> Seq<char> {
    match seen {
        Some((first, last)) => "<li class=\"sub\">"@ + html_escaped(
            "first seen "@ + first + ", last seen "@ + last,
        ) + "</li>"@,
        None => Seq::empty(),
    }
}

fn seen_entry(seen: &Option<(String, String)>) -> (r: String)
    ensures
        r@ == html_seen(opt_pair(*seen)),
{
    match seen {
        Some((first, last)) => {
            let mut words = concat("first seen ", first.as_str());
            words.push_str(", last seen ");
            words.push_str(last.as_str());
            let safe = html_escape(words.as_str());
            let mut out = concat("<li class=\"sub\">", safe.as_str());
            out.push_str("</li>");
            out
        },
        None => String::new(),
    }
}

/// A digest as an HTML page.
pub open spec fn html(d: DigestView, t: StampsView) -> Seq<char> {
    HTML_START@ + html_escaped(t.generated) + HTML_PROMISE@ + int_text(d.stats.distinct_ads as int)
        + HTML_ADVERTISERS@ + int_text(d.stats.advertisers as int) + HTML_SIGHTINGS@ + int_text(
        d.stats.total_sightings as int,
    ) + " (today "@ + int_text(d.stats.sightings_today as int) + ", week "@ + int_text(
        d.stats.sightings_week as int,
    ) + HTML_AFTER_WEEK@ + html_seen(t.seen) + HTML_BOARD@ + html_board(
        d.advertisers,
        d.advertisers.len() as int,
    ) + HTML_LINKS@ + html_links(d.links, d.links.len() as int) + HTML_TURNS@ + html_turns(
        d.killswitch,
        t.killswitch,
    ) + HTML_EARNINGS@ + PORTFOLIO_URL@ + "\">"@ + PORTFOLIO_URL@ + HTML_END@
}

/// Render a digest as an HTML page, with its instants given as text.
pub fn html_with(d: &Digest, t: &Stamps) -> (r: String)
    requires
        d.killswitch@.len() == t.killswitch@.len(),
    ensures
        r@ == html(d@, t@),
{
    let generated = html_escape(t.generated.as_str());
    let mut out = concat(HTML_START, generated.as_str());
    out.push_str(HTML_PROMISE);
    let ads = signed_text(d.stats.distinct_ads);
    out.push_str(ads.as_str());
    out.push_str(HTML_ADVERTISERS);
    let advertisers = signed_text(d.stats.advertisers);
    out.push_str(advertisers.as_str());
    out.push_str(HTML_SIGHTINGS);
    let sightings = signed_text(d.stats.total_sightings);
    out.push_str(sightings.as_str());
    out.push_str(" (today ");
    let today = signed_text(d.stats.sightings_today);
    out.push_str(today.as_str());
    out.push_str(", week ");
    let week = signed_text(d.stats.sightings_week);
    out.push_str(week.as_str());
    out.push_str(HTML_AFTER_WEEK);
    let seen = seen_entry(&t.seen);
    out.push_str(seen.as_str());
    out.push_str(HTML_BOARD);
    let rows = board_rows(&d.advertisers);
    out.push_str(rows.as_str());
    out.push_str(HTML_LINKS);
    let links = link_rows(&d.links);
    out.push_str(links.as_str());
    out.push_str(HTML_TURNS);
    let kill = turn_rows(&d.killswitch, &t.killswitch);
    out.push_str(kill.as_str());
    out.push_str(HTML_EARNINGS);
    out.push_str(PORTFOLIO_URL);
    out.push_str("\">");
    out.push_str(PORTFOLIO_URL);
    out.push_str(HTML_END);
    out
}

/// Render a digest as an HTML page, with its instants in the local time zone.
pub fn render_html(d: &Digest) -> (r: String)
    ensures
        exists|t: StampsView| #[trigger]
            html(d@, t) == r@ && stamps_fit(t, d@) && stamps_are_labels(t, d@),
{
    let t = stamp(d);
    let r = html_with(d, &t);
    assert(html(d@, t@) == r@);
    r
}

/// Render a digest in a format, with its instants in the local time zone.
pub fn render(d: &Digest, format: Format) -> (r: String)
    ensures
        format == Format::Md ==> exists|t: StampsView| #[trigger]
            markdown(d@, t) == r@ && stamps_fit(t, d@) && stamps_are_labels(t, d@),
        format == Format::Html ==> exists|t: StampsView| #[trigger]
            html(d@, t) == r@ && stamps_fit(t, d@) && stamps_are_labels(t, d@),
{
    match format {
        Format::Md => render_markdown(d),
        Format::Html => render_html(d),
    }
}

// ---- what holds of every report ---------------------------------------------

/// Whether a reader of Markdown is in the middle of an escape at the end of a
/// text: its last character is a backslash that no other escapes.
pub open spec fn in_escape(s: Seq<char>) -> bool
    decreases s.len(),
{
    s.len() > 0 && s.last() == '\\' && !in_escape(s.drop_last())
}

/// Whether a text has no bare character with a meaning: each is escaped by a
/// backslash before it, or is such a backslash.
pub open spec fn is_neutral(s: Seq<char>) -> bool {
    forall|i: int|
        0 <= i < s.len() && is_active(#[trigger] s[i]) && s[i] != '\\' ==> i > 0 && s[i - 1]
            == '\\' && in_escape(s.take(i))
}

proof fn lemma_in_escape_push(s: Seq<char>, c: char)
    ensures
        in_escape(s.push(c)) == (c == '\\' && !in_escape(s)),
{
    assert(s.push(c).drop_last() =~= s);
}

/// A value cannot break out of its Markdown cell or its link label: it holds no
/// line break; every pipe, backtick and square bracket in it is escaped; and it
/// does not end in the middle of an escape, so it cannot escape what follows it.
pub proof fn cells_are_neutral(s: Seq<char>)
    ensures
        forall|i: int| 0 <= i < cell(s).len() ==> #[trigger] cell(s)[i] != '\n' && cell(s)[i] != '\r',
        is_neutral(cell(s)),
        !in_escape(cell(s)),
    decreases s.len(),
{
    if s.len() > 0 {
        cells_are_neutral(s.drop_last());
        let head = cell(s.drop_last());
        let c = s.last();
        let tail = cell_char(c);
        let all = cell(s);
        assert forall|i: int| 0 <= i < all.len() implies #[trigger] all[i] != '\n' && all[i]
            != '\r' by {
            if i < head.len() {
                assert(all[i] == head[i]);
            } else {
                assert(all[i] == tail[i - head.len()]);
            }
        }
        if is_active(c) {
            let one = head.push('\\');
            assert(all =~= one.push(c));
            lemma_in_escape_push(head, '\\');
            lemma_in_escape_push(one, c);
            assert(all.take(one.len() as int) =~= one);
        } else {
            assert(all =~= head.push(tail[0]));
            lemma_in_escape_push(head, tail[0]);
        }
        assert forall|i: int|
            0 <= i < all.len() && is_active(#[trigger] all[i]) && all[i] != '\\' implies i > 0
            && all[i - 1] == '\\' && in_escape(all.take(i)) by {
            if i < head.len() {
                assert(all[i] == head[i]);
                assert(all[i - 1] == head[i - 1]);
                assert(all.take(i) =~= head.take(i));
            }
        }
    }
}

/// A URL cannot break out of its angle brackets: it holds neither of them, nor a
/// line break.
pub proof fn destinations_stay_bracketed(s: Seq<char>)
    ensures
        forall|i: int|
            0 <= i < destination(s).len() ==> {
                let c = #[trigger] destination(s)[i];
                c != '<' && c != '>' && c != '\n' && c != '\r'
            },
    decreases s.len(),
{
    if s.len() > 0 {
        destinations_stay_bracketed(s.drop_last());
        let head = destination(s.drop_last());
        let all = destination(s);
        assert forall|i: int| 0 <= i < all.len() implies ({
            let c = #[trigger] all[i];
            c != '<' && c != '>' && c != '\n' && c != '\r'
        }) by {
            if i < head.len() {
                assert(all[i] == head[i]);
            }
        }
    }
}

proof fn lemma_number_without(n: int, c: char)
    requires
        c == '\n' || c == '<',
    ensures
        count_of(int_text(n), c) == 0,
{
    int_text_is_numeric(n);
    let s = int_text(n);
    assert forall|i: int| 0 <= i < s.len() implies #[trigger] s[i] != c by {
        assert(crate::text::is_digit(s[i]) || s[i] == '-');
    }
    lemma_count_none(s, c);
}

proof fn lemma_cell_unbroken(s: Seq<char>)
    ensures
        count_of(cell(s), '\n') == 0,
{
    cells_are_neutral(s);
    lemma_count_none(cell(s), '\n');
}

proof fn lemma_one_break(s: Seq<char>)
    requires
        s.len() > 0,
        s.last() == '\n',
        forall|i: int| 0 <= i < s.len() - 1 ==> #[trigger] s[i] != '\n',
    ensures
        count_of(s, '\n') == 1,
{
    let h = s.drop_last();
    assert forall|i: int| 0 <= i < h.len() implies #[trigger] h[i] != '\n' by {
        assert(h[i] == s[i]);
    }
    lemma_count_none(h, '\n');
}

/// Every row of the Markdown leaderboard stands on one line, whatever was
/// captured.
pub proof fn board_rows_stand_on_one_line(a: AdvertiserView, i: int)
    requires
        0 <= i,
    ensures
        count_of(md_board_row(a, i), '\n') == 1,
{
    let c = '\n';
    reveal_strlit("| ");
    reveal_strlit(" | ");
    reveal_strlit(" |\n");
    lemma_count_none("| "@, c);
    lemma_count_none(" | "@, c);
    lemma_one_break(" |\n"@);
    lemma_number_without(i + 1, c);
    lemma_cell_unbroken(a.advertiser);
    lemma_number_without(a.distinct_ads, c);
    lemma_number_without(a.sightings, c);
    let s1 = "| "@ + decimal((i + 1) as nat);
    lemma_count_add("| "@, decimal((i + 1) as nat), c);
    lemma_count_add(s1, " | "@, c);
    let s2 = s1 + " | "@;
    lemma_count_add(s2, cell(a.advertiser), c);
    let s3 = s2 + cell(a.advertiser);
    lemma_count_add(s3, " | "@, c);
    let s4 = s3 + " | "@;
    lemma_count_add(s4, int_text(a.distinct_ads), c);
    let s5 = s4 + int_text(a.distinct_ads);
    lemma_count_add(s5, " | "@, c);
    let s6 = s5 + " | "@;
    lemma_count_add(s6, int_text(a.sightings), c);
    let s7 = s6 + int_text(a.sightings);
    lemma_count_add(s7, " |\n"@, c);
}

/// Every link of the Markdown report stands on one line, whatever was captured.
pub proof fn links_stand_on_one_line(l: LinkView)
    ensures
        count_of(md_link(l), '\n') == 1,
{
    let c = '\n';
    reveal_strlit("- [");
    reveal_strlit("](<");
    reveal_strlit(">) \u{b7} ");
    reveal_strlit(" \u{b7} ");
    reveal_strlit("\u{d7}\n");
    lemma_count_none("- ["@, c);
    lemma_count_none("](<"@, c);
    lemma_count_none(">) \u{b7} "@, c);
    lemma_count_none(" \u{b7} "@, c);
    lemma_one_break("\u{d7}\n"@);
    let site = cell(or_empty(host(l.url)));
    lemma_cell_unbroken(l.advertiser);
    lemma_cell_unbroken(or_empty(host(l.url)));
    destinations_stay_bracketed(l.url);
    lemma_count_none(destination(l.url), c);
    lemma_number_without(l.times_seen, c);
    lemma_count_add("- ["@, cell(l.advertiser), c);
    let s1 = "- ["@ + cell(l.advertiser);
    lemma_count_add(s1, "](<"@, c);
    let s2 = s1 + "](<"@;
    lemma_count_add(s2, destination(l.url), c);
    let s3 = s2 + destination(l.url);
    lemma_count_add(s3, ">) \u{b7} "@, c);
    let s4 = s3 + ">) \u{b7} "@;
    lemma_count_add(s4, site, c);
    let s5 = s4 + site;
    lemma_count_add(s5, " \u{b7} "@, c);
    let s6 = s5 + " \u{b7} "@;
    lemma_count_add(s6, int_text(l.times_seen), c);
    let s7 = s6 + int_text(l.times_seen);
    lemma_count_add(s7, "\u{d7}\n"@, c);
}

proof fn lemma_escaped_without_tags(s: Seq<char>)
    ensures
        count_of(html_escaped(s), '<') == 0,
{
    html_escaped_is_inert(s);
    lemma_count_none(html_escaped(s), '<');
}

/// How many tags a link's entry in the page has: those of the entry itself.
pub open spec fn link_tags() -> int {
    count_of("    <li><a href=\""@, '<') + count_of("\">"@, '<') + count_of(
        "</a> <span class=\"host\">"@,
        '<',
    ) + count_of("</span> <span class=\"meta\">"@, '<') + count_of("\u{d7}</span></li>\n"@, '<')
}

/// What was captured adds no markup to the page: a link's entry has the same
/// number of tags whatever the link holds.
pub proof fn captured_text_adds_no_markup(l: LinkView)
    ensures
        count_of(html_link(l), '<') == link_tags(),
{
    let c = '<';
    let site = html_escaped(or_empty(host(l.url)));
    lemma_escaped_without_tags(l.url);
    lemma_escaped_without_tags(l.advertiser);
    lemma_escaped_without_tags(or_empty(host(l.url)));
    lemma_number_without(l.times_seen, c);
    let t0 = "    <li><a href=\""@;
    lemma_count_add(t0, html_escaped(l.url), c);
    let t1 = t0 + html_escaped(l.url);
    lemma_count_add(t1, "\">"@, c);
    let t2 = t1 + "\">"@;
    lemma_count_add(t2, html_escaped(l.advertiser), c);
    let t3 = t2 + html_escaped(l.advertiser);
    lemma_count_add(t3, "</a> <span class=\"host\">"@, c);
    let t4 = t3 + "</a> <span class=\"host\">"@;
    lemma_count_add(t4, site, c);
    let t5 = t4 + site;
    lemma_count_add(t5, "</span> <span class=\"meta\">"@, c);
    let t6 = t5 + "</span> <span class=\"meta\">"@;
    lemma_count_add(t6, int_text(l.times_seen), c);
    let t7 = t6 + int_text(l.times_seen);
    lemma_count_add(t7, "\u{d7}</span></li>\n"@, c);
}

/// Every report points at the portfolio.
pub proof fn reports_point_at_the_portfolio(d: DigestView, t: StampsView)
    ensures
        exists|i: int| #[trigger] occurs_at(markdown(d, t), PORTFOLIO_URL@, i),
        exists|i: int| #[trigger] occurs_at(html(d, t), PORTFOLIO_URL@, i),
{
    let md = markdown(d, t);
    let md_at = md.len() - ".\n"@.len() - PORTFOLIO_URL@.len();
    assert(md.subrange(md_at, md_at + PORTFOLIO_URL@.len()) =~= PORTFOLIO_URL@);
    assert(occurs_at(md, PORTFOLIO_URL@, md_at));
    let page = html(d, t);
    let page_at = page.len() - HTML_END@.len() - PORTFOLIO_URL@.len();
    assert(page.subrange(page_at, page_at + PORTFOLIO_URL@.len()) =~= PORTFOLIO_URL@);
    assert(occurs_at(page, PORTFOLIO_URL@, page_at));
}

// ---- what the rows hold -----------------------------------------------------

proof fn lemma_md_board(board: Seq<AdvertiserView>, k: int)
    requires
        0 <= k,
    ensures
        md_board_rows(board, k) == md_board_rows(board, 0) + stacked(Seq::new(k as nat, |i: int| md_board_row(board[i], i))),
    decreases k,
{
    let rows = Seq::new(k as nat, |i: int| md_board_row(board[i], i));
    if k == 0 {
        stacking_appends(rows, Seq::empty());
        assert(rows =~= Seq::empty());
        assert(md_board_rows(board, k) =~= md_board_rows(board, 0) + stacked(rows));
    } else {
        lemma_md_board(board, k - 1);
        let before = Seq::new((k - 1) as nat, |i: int| md_board_row(board[i], i));
        assert(rows =~= before.push(rows[k - 1]));
        stacking_appends(before, rows[k - 1]);
        assert(md_board_rows(board, k) =~= md_board_rows(board, 0) + stacked(rows));
    }
}

proof fn lemma_md_links(links: Seq<LinkView>, k: int)
    requires
        0 <= k,
    ensures
        md_link_rows(links, k) == md_link_rows(links, 0) + stacked(Seq::new(k as nat, |i: int| md_link(links[i]))),
    decreases k,
{
    let rows = Seq::new(k as nat, |i: int| md_link(links[i]));
    if k == 0 {
        stacking_appends(rows, Seq::empty());
        assert(rows =~= Seq::empty());
        assert(md_link_rows(links, k) =~= md_link_rows(links, 0) + stacked(rows));
    } else {
        lemma_md_links(links, k - 1);
        let before = Seq::new((k - 1) as nat, |i: int| md_link(links[i]));
        assert(rows =~= before.push(rows[k - 1]));
        stacking_appends(before, rows[k - 1]);
        assert(md_link_rows(links, k) =~= md_link_rows(links, 0) + stacked(rows));
    }
}

proof fn lemma_md_turns(turns: Seq<KillswitchView>, at: Seq<Seq<char>>, k: int)
    requires
        0 <= k,
    ensures
        md_turn_rows(turns, at, k) == md_turn_rows(turns, at, 0) + stacked(Seq::new(k as nat, |i: int| "- "@ + at[i] + ": "@ + turn_label(turns[i].killed) + "\n"@)),
    decreases k,
{
    let rows = Seq::new(k as nat, |i: int| "- "@ + at[i] + ": "@ + turn_label(turns[i].killed) + "\n"@);
    if k == 0 {
        stacking_appends(rows, Seq::empty());
        assert(rows =~= Seq::empty());
        assert(md_turn_rows(turns, at, k) =~= md_turn_rows(turns, at, 0) + stacked(rows));
    } else {
        lemma_md_turns(turns, at, k - 1);
        let before = Seq::new((k - 1) as nat, |i: int| "- "@ + at[i] + ": "@ + turn_label(turns[i].killed) + "\n"@);
        assert(rows =~= before.push(rows[k - 1]));
        stacking_appends(before, rows[k - 1]);
        assert(md_turn_rows(turns, at, k) =~= md_turn_rows(turns, at, 0) + stacked(rows));
    }
}

proof fn lemma_html_board(board: Seq<AdvertiserView>, k: int)
    requires
        0 <= k,
    ensures
        html_board(board, k) == stacked(Seq::new(k as nat, |i: int| html_board_row(board[i], i))),
    decreases k,
{
    let rows = Seq::new(k as nat, |i: int| html_board_row(board[i], i));
    if k == 0 {
        stacking_appends(rows, Seq::empty());
        assert(rows =~= Seq::empty());
        assert(html_board(board, k) =~= stacked(rows));
    } else {
        lemma_html_board(board, k - 1);
        let before = Seq::new((k - 1) as nat, |i: int| html_board_row(board[i], i));
        assert(rows =~= before.push(rows[k - 1]));
        stacking_appends(before, rows[k - 1]);
        assert(html_board(board, k) =~= stacked(rows));
    }
}

proof fn lemma_html_links(links: Seq<LinkView>, k: int)
    requires
        0 <= k,
    ensures
        html_links(links, k) == stacked(Seq::new(k as nat, |i: int| html_link(links[i]))),
    decreases k,
{
    let rows = Seq::new(k as nat, |i: int| html_link(links[i]));
    if k == 0 {
        stacking_appends(rows, Seq::empty());
        assert(rows =~= Seq::empty());
        assert(html_links(links, k) =~= stacked(rows));
    } else {
        lemma_html_links(links, k - 1);
        let before = Seq::new((k - 1) as nat, |i: int| html_link(links[i]));
        assert(rows =~= before.push(rows[k - 1]));
        stacking_appends(before, rows[k - 1]);
        assert(html_links(links, k) =~= stacked(rows));
    }
}

proof fn lemma_html_turns(turns: Seq<KillswitchView>, at: Seq<Seq<char>>, k: int)
    requires
        0 <= k,
    ensures
        html_turn_rows(turns, at, k) == stacked(Seq::new(k as nat, |i: int| "    <li>"@ + html_escaped(at[i]) + " <span class=\"meta\">"@ + html_escaped(turn_label(turns[i].killed)) + "</span></li>\n"@)),
    decreases k,
{
    let rows = Seq::new(k as nat, |i: int| "    <li>"@ + html_escaped(at[i]) + " <span class=\"meta\">"@ + html_escaped(turn_label(turns[i].killed)) + "</span></li>\n"@);
    if k == 0 {
        stacking_appends(rows, Seq::empty());
        assert(rows =~= Seq::empty());
        assert(html_turn_rows(turns, at, k) =~= stacked(rows));
    } else {
        lemma_html_turns(turns, at, k - 1);
        let before = Seq::new((k - 1) as nat, |i: int| "    <li>"@ + html_escaped(at[i]) + " <span class=\"meta\">"@ + html_escaped(turn_label(turns[i].killed)) + "</span></li>\n"@);
        assert(rows =~= before.push(rows[k - 1]));
        stacking_appends(before, rows[k - 1]);
        assert(html_turn_rows(turns, at, k) =~= stacked(rows));
    }
}

/// A Markdown report holds every advertiser, every link and every turn of its
/// digest once, in the order given, each on a row of its own.
pub proof fn markdown_lists_everything(
    board: Seq<AdvertiserView>,
    links: Seq<LinkView>,
    turns: Seq<KillswitchView>,
    at: Seq<Seq<char>>,
)
    ensures
        board.len() > 0 ==> md_board(board) == md_board_rows(board, 0) + stacked(
            Seq::new(board.len(), |i: int| md_board_row(board[i], i)),
        ) + "\n"@,
        links.len() > 0 ==> md_links(links) == md_link_rows(links, 0) + stacked(
            Seq::new(links.len(), |i: int| md_link(links[i])),
        ) + "\n"@,
        turns.len() > 0 ==> md_turns(turns, at) == md_turn_rows(turns, at, 0) + stacked(
            Seq::new(
                turns.len(),
                |i: int| "- "@ + at[i] + ": "@ + turn_label(turns[i].killed) + "\n"@,
            ),
        ) + "\n"@,
{
    lemma_md_board(board, board.len() as int);
    lemma_md_links(links, links.len() as int);
    lemma_md_turns(turns, at, turns.len() as int);
}

/// So does an HTML report.
pub proof fn pages_list_everything(
    board: Seq<AdvertiserView>,
    links: Seq<LinkView>,
    turns: Seq<KillswitchView>,
    at: Seq<Seq<char>>,
)
    ensures
        html_board(board, board.len() as int) == stacked(
            Seq::new(board.len(), |i: int| html_board_row(board[i], i)),
        ),
        html_links(links, links.len() as int) == stacked(
            Seq::new(links.len(), |i: int| html_link(links[i])),
        ),
        turns.len() > 0 ==> html_turns(turns, at) == stacked(
            Seq::new(
                turns.len(),
                |i: int| "    <li>"@ + html_escaped(at[i]) + " <span class=\"meta\">"@ + html_escaped(turn_label(turns[i].killed)) + "</span></li>\n"@,
            ),
        ),
{
    lemma_html_board(board, board.len() as int);
    lemma_html_links(links, links.len() as int);
    lemma_html_turns(turns, at, turns.len() as int);
}

/// A cell is made of its text character by character: one that Markdown gives a
/// meaning stands behind a backslash, a line break is a space, and any other
/// stands as it is.
pub proof fn cells_escape_each_character(a: Seq<char>, b: Seq<char>, c: char)
    ensures
        cell(a + b) == cell(a) + cell(b),
        cell(seq![c]) == if c == '|' || c == '`' || c == '[' || c == ']' || c == '\\' {
            seq!['\\', c]
        } else if c == '\n' || c == '\r' {
            seq![' ']
        } else {
            seq![c]
        },
    decreases b.len(),
{
    let one = seq![c];
    assert(one.drop_last() =~= Seq::<char>::empty());
    assert(one.last() == c);
    assert(cell(one.drop_last()) =~= Seq::<char>::empty());
    assert(cell(one) =~= cell_char(c));
    if b.len() == 0 {
        assert(a + b =~= a);
        assert(cell(a) + cell(b) =~= cell(a));
    } else {
        cells_escape_each_character(a, b.drop_last(), c);
        assert((a + b).drop_last() =~= a + b.drop_last());
        assert((a + b).last() == b.last());
        assert(cell(a + b) =~= cell(a) + cell(b));
    }
}

/// A destination is its URL without the angle brackets and the line breaks, and
/// with every other character in order.
pub proof fn destinations_drop_only_what_ends_them(s: Seq<char>)
    ensures
        destination(s) == s.filter(|c: char| c != '<' && c != '>' && c != '\n' && c != '\r'),
    decreases s.len(),
{
    reveal(Seq::filter);
    if s.len() > 0 {
        destinations_drop_only_what_ends_them(s.drop_last());
    }
}

} // verus!
