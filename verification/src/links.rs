//! The distinct advertiser destinations as a list, CSV, JSONL, or a
//! self-contained HTML bookmarks page.
//!
//! These are the click-through URLs of the ads that were shown; they are only
//! ever read.

use vstd::prelude::*;

use crate::archive::queries::{link_views, LinkView};
use crate::archive::LinkRow;
use crate::json::{json_string, json_strings_stand_on_one_line, quote};
use crate::model::{host, host_of};
use crate::numbers::{
    count_text, decimal, int_text, int_text_is_inert, int_text_is_numeric, numbers_read_back,
    signed_text, signed_value,
};
use crate::text::{
    concat, count_of, is_inert, left_aligned, lemma_count_add, lemma_count_none, opt_str,
    or_empty, pad_left, pad_right, right_aligned,
};
use crate::text_laws::{padding_fills_with_spaces, stacked, stacking_appends};
use crate::util::{
    age_short, csv_field, csv_field_round_trips, csv_quoted, csv_value, html_escape, html_escaped,
    human_age_short, sanitize_text, sanitized, truncate, truncated,
};

verus! {

/// Most links any one export carries. Generous: the corpus is small.
pub const LIMIT: usize = 2000;

/// How links are exported.
#[derive(Debug, Clone, Copy, PartialEq, Eq, Structural)]
pub enum Format {
    /// Aligned, human-readable columns (the default).
    Table,
    /// Comma-separated values with a header row.
    Csv,
    /// One JSON object per line.
    Jsonl,
    /// A self-contained HTML bookmarks page.
    Html,
}

/// Why links could not be exported.
#[derive(Debug, Clone, Copy, PartialEq, Eq, Structural)]
pub enum ExportError {
    /// A text could not be encoded as JSON.
    Encoding,
}

// ---- CSV --------------------------------------------------------------------

/// The row of a link.
pub open spec fn csv_row(l: LinkView) -> Seq<char> {
    csv_quoted(l.advertiser) + ","@ + csv_quoted(l.url) + ","@ + int_text(l.times_seen) + ","@
        + int_text(l.last_seen_ms as int) + "\n"@
}

/// The header and the rows of the first `k` links.
pub open spec fn csv_text(links: Seq<LinkView>, k: int) -> Seq<char>
    decreases k,
{
    if k <= 0 {
        "advertiser,url,times_seen,last_seen_ms\n"@
    } else {
        csv_text(links, k - 1) + csv_row(links[k - 1])
    }
}

/// The links as comma-separated values.
pub fn render_csv(links: &Vec<LinkRow>) -> (r: String)
    ensures
        r@ == csv_text(link_views(links@), links@.len() as int),
{
    let ghost all = link_views(links@);
    let mut out = "advertiser,url,times_seen,last_seen_ms\n".to_owned();
    let mut k: usize = 0;
    while k < links.len()
        invariant
            all == link_views(links@),
            k <= links@.len(),
            out@ == csv_text(all, k as int),
        decreases links@.len() - k,
    {
        assert(all[k as int] == links@[k as int]@);
        let l = &links[k];
        let mut row = csv_field(l.advertiser.as_str());
        row.push_str(",");
        let url = csv_field(l.url.as_str());
        row.push_str(url.as_str());
        row.push_str(",");
        let seen = signed_text(l.times_seen);
        row.push_str(seen.as_str());
        row.push_str(",");
        let last = signed_text(l.last_seen_ms);
        row.push_str(last.as_str());
        row.push_str("\n");
        out.push_str(row.as_str());
        k = k + 1;
    }
    out
}

// ---- JSONL ------------------------------------------------------------------

/// The object of a link, on a line of its own, with its texts given as JSON
/// literals.
pub open spec fn json_object(
    advertiser: Seq<char>,
    url: Seq<char>,
    host: Option<Seq<char>>,
    times_seen: int,
    last_seen_ms: int,
) -> Seq<char> {
    "{\"advertiser\":"@ + advertiser + ",\"url\":"@ + url + ",\"host\":"@ + (match host {
        Some(h) => h,
        None => "null"@,
    }) + ",\"times_seen\":"@ + int_text(times_seen) + ",\"last_seen_ms\":"@ + int_text(
        last_seen_ms,
    ) + "}\n"@
}

/// The object of a link, on a line of its own.
pub open spec fn json_row(l: LinkView) -> Seq<char> {
    json_object(
        json_string(l.advertiser),
        json_string(l.url),
        match host(l.url) {
            Some(h) => Some(json_string(h)),
            None => None,
        },
        l.times_seen,
        l.last_seen_ms as int,
    )
}

/// The objects of the first `k` links.
pub open spec fn jsonl_text(links: Seq<LinkView>, k: int) -> Seq<char>
    decreases k,
{
    if k <= 0 {
        Seq::empty()
    } else {
        jsonl_text(links, k - 1) + json_row(links[k - 1])
    }
}

/// How many line breaks a text has.
pub open spec fn breaks(s: Seq<char>) -> int {
    count_of(s, '\n')
}

proof fn lemma_unbroken(s: Seq<char>)
    requires
        !s.contains('\n'),
    ensures
        breaks(s) == 0,
{
    assert forall|i: int| 0 <= i < s.len() implies #[trigger] s[i] != '\n' by {
        assert(s.contains(s[i]));
    }
    lemma_count_none(s, '\n');
}

fn push_piece(out: &mut String, piece: &str)
    ensures
        final(out)@ == old(out)@ + piece@,
        breaks(final(out)@) == breaks(old(out)@) + breaks(piece@),
{
    proof {
        lemma_count_add(out@, piece@, '\n');
    }
    out.push_str(piece);
}

fn push_number(out: &mut String, n: i64)
    ensures
        final(out)@ == old(out)@ + int_text(n as int),
        breaks(final(out)@) == breaks(old(out)@),
{
    let digits = signed_text(n);
    proof {
        int_text_is_inert(n as int);
        assert forall|i: int| 0 <= i < digits@.len() implies digits@[i] != '\n' by {
            assert(!crate::text::is_control(digits@[i]));
        }
        lemma_unbroken(digits@);
    }
    push_piece(out, digits.as_str());
}

/// Build the object of a link from its texts as JSON literals.
pub fn json_line(
    advertiser: &str,
    url: &str,
    host: Option<&str>,
    times_seen: i64,
    last_seen_ms: i64,
) -> (r: String)
    ensures
        r@ == json_object(
            advertiser@,
            url@,
            opt_str(host),
            times_seen as int,
            last_seen_ms as int,
        ),
        breaks(r@) == 1 + breaks(advertiser@) + breaks(url@) + breaks(or_empty(opt_str(host))),
{
    proof {
        reveal_strlit("{\"advertiser\":");
        reveal_strlit(",\"url\":");
        reveal_strlit(",\"host\":");
        reveal_strlit("null");
        reveal_strlit(",\"times_seen\":");
        reveal_strlit(",\"last_seen_ms\":");
        reveal_strlit("}\n");
        lemma_unbroken("{\"advertiser\":"@);
        lemma_unbroken(",\"url\":"@);
        lemma_unbroken(",\"host\":"@);
        lemma_unbroken("null"@);
        lemma_unbroken(",\"times_seen\":"@);
        lemma_unbroken(",\"last_seen_ms\":"@);
    }
    let mut out = "{\"advertiser\":".to_owned();
    push_piece(&mut out, advertiser);
    push_piece(&mut out, ",\"url\":");
    push_piece(&mut out, url);
    push_piece(&mut out, ",\"host\":");
    match host {
        Some(h) => push_piece(&mut out, h),
        None => push_piece(&mut out, "null"),
    }
    push_piece(&mut out, ",\"times_seen\":");
    push_number(&mut out, times_seen);
    push_piece(&mut out, ",\"last_seen_ms\":");
    push_number(&mut out, last_seen_ms);
    proof {
        lemma_count_add(out@, "}\n"@, '\n');
        reveal_with_fuel(count_of, 3);
        assert("}\n"@ =~= seq!['}', '\n']);
        assert("}\n"@.drop_last() =~= seq!['}']);
        assert(seq!['}'].drop_last() =~= Seq::<char>::empty());
    }
    out.push_str("}\n");
    out
}

fn literal(text: &str) -> (r: Result<String, ExportError>)
    ensures
        r is Ok,
        r->Ok_0@ == json_string(text@),
        breaks(r->Ok_0@) == 0,
{
    match quote(text) {
        Ok(s) => {
            proof {
                json_strings_stand_on_one_line(text@);
                lemma_unbroken(s@);
            }
            Ok(s)
        },
        Err(_) => Err(ExportError::Encoding),
    }
}

fn line_of_link(l: &LinkRow) -> (r: Result<String, ExportError>)
    ensures
        r is Ok,
        r->Ok_0@ == json_row(l@),
        breaks(r->Ok_0@) == 1,
{
    let advertiser = match literal(l.advertiser.as_str()) {
        Ok(s) => s,
        Err(e) => return Err(e),
    };
    let url = match literal(l.url.as_str()) {
        Ok(s) => s,
        Err(e) => return Err(e),
    };
    match host_of(l.url.as_str()) {
        Some(host) => {
            let site = match literal(host.as_str()) {
                Ok(s) => s,
                Err(e) => return Err(e),
            };
            Ok(
                json_line(
                    advertiser.as_str(),
                    url.as_str(),
                    Some(site.as_str()),
                    l.times_seen,
                    l.last_seen_ms,
                ),
            )
        },
        None => Ok(
            json_line(advertiser.as_str(), url.as_str(), None, l.times_seen, l.last_seen_ms),
        ),
    }
}

/// The links as JSON, one object per line.
pub fn render_jsonl(links: &Vec<LinkRow>) -> (r: Result<String, ExportError>)
    ensures
        r is Ok,
        r->Ok_0@ == jsonl_text(link_views(links@), links@.len() as int),
        breaks(r->Ok_0@) == links@.len(),
{
    let ghost all = link_views(links@);
    let mut out = String::new();
    let mut k: usize = 0;
    assert(out@ =~= Seq::<char>::empty());
    while k < links.len()
        invariant
            all == link_views(links@),
            k <= links@.len(),
            out@ == jsonl_text(all, k as int),
            breaks(out@) == k,
        decreases links@.len() - k,
    {
        assert(all[k as int] == links@[k as int]@);
        match line_of_link(&links[k]) {
            Ok(line) => {
                proof {
                    lemma_count_add(out@, line@, '\n');
                }
                out.push_str(line.as_str());
            },
            Err(e) => return Err(e),
        }
        k = k + 1;
    }
    Ok(out)
}

// ---- the table --------------------------------------------------------------

/// Whether the age of every link can be told.
pub open spec fn ages_fit(links: Seq<LinkView>, now_ms: i64) -> bool {
    forall|i: int|
        0 <= i < links.len() ==> i64::MIN <= now_ms - (#[trigger] links[i]).last_seen_ms
            <= i64::MAX
}

/// The row of a link. It prints to a terminal, so what the advertiser supplied
/// is stripped of control characters.
pub open spec fn table_row(l: LinkView, now_ms: i64) -> Seq<char> {
    pad_right(truncated(sanitized(l.advertiser), 22), 22) + "  "@ + pad_left(
        int_text(l.times_seen),
        5,
    ) + "  "@ + pad_left(age_short(now_ms - l.last_seen_ms), 7) + "  "@ + sanitized(l.url) + "\n"@
}

/// The header and the rows of the first `k` links.
pub open spec fn table_rows(links: Seq<LinkView>, now_ms: i64, k: int) -> Seq<char>
    decreases k,
{
    if k <= 0 {
        pad_right("advertiser"@, 22) + "  "@ + pad_left("seen"@, 5) + "  "@ + pad_left("last"@, 7)
            + "  url\n"@
    } else {
        table_rows(links, now_ms, k - 1) + table_row(links[k - 1], now_ms)
    }
}

/// The links as a table, or a hint where there are none.
pub open spec fn table_text(links: Seq<LinkView>, now_ms: i64) -> Seq<char> {
    if links.len() == 0 {
        "no advertiser links captured yet \u{2014} run kb setup\n"@
    } else {
        table_rows(links, now_ms, links.len() as int)
    }
}

/// The links in aligned columns.
pub fn render_table(links: &Vec<LinkRow>, now_ms: i64) -> (r: String)
    requires
        ages_fit(link_views(links@), now_ms),
    ensures
        r@ == table_text(link_views(links@), now_ms),
{
    let ghost all = link_views(links@);
    if links.len() == 0 {
        return "no advertiser links captured yet \u{2014} run kb setup\n".to_owned();
    }
    let mut out = left_aligned("advertiser", 22);
    out.push_str("  ");
    let seen = right_aligned("seen", 5);
    out.push_str(seen.as_str());
    out.push_str("  ");
    let last = right_aligned("last", 7);
    out.push_str(last.as_str());
    out.push_str("  url\n");
    let mut k: usize = 0;
    while k < links.len()
        invariant
            all == link_views(links@),
            ages_fit(all, now_ms),
            k <= links@.len(),
            out@ == table_rows(all, now_ms, k as int),
        decreases links@.len() - k,
    {
        assert(all[k as int] == links@[k as int]@);
        let l = &links[k];
        let name = sanitize_text(l.advertiser.as_str());
        let short = truncate(name.as_str(), 22);
        let mut row = left_aligned(short.as_str(), 22);
        row.push_str("  ");
        let count = signed_text(l.times_seen);
        let times = right_aligned(count.as_str(), 5);
        row.push_str(times.as_str());
        row.push_str("  ");
        let ago = human_age_short(now_ms - l.last_seen_ms);
        let when = right_aligned(ago.as_str(), 7);
        row.push_str(when.as_str());
        row.push_str("  ");
        let url = sanitize_text(l.url.as_str());
        row.push_str(url.as_str());
        row.push_str("\n");
        out.push_str(row.as_str());
        k = k + 1;
    }
    out
}

// ---- the page ---------------------------------------------------------------

/// The page up to the number of links.
pub const PAGE_START: &'static str = "<!doctype html>
<html lang=\"en\">
<head>
<meta charset=\"utf-8\">
<title>kickbacks-kit \u{b7} advertiser links</title>
<style>
  body { font: 15px/1.5 ui-sans-serif, system-ui, sans-serif; max-width: 50rem;
         margin: 2rem auto; padding: 0 1rem; color: #1a1a1a; }
  h1 { font-size: 1.3rem; }
  p.sub { color: #666; }
  ul { list-style: none; padding: 0; }
  li { padding: .4rem 0; border-bottom: 1px solid #eee; }
  a { color: #0b62d6; text-decoration: none; }
  a:hover { text-decoration: underline; }
  .host { color: #888; font-size: .85em; }
  .meta { color: #aaa; font-size: .8em; float: right; }
</style>
</head>
<body>
<h1>Advertiser links</h1>
<p class=\"sub\">";

/// The page between the number of links and the links.
pub const PAGE_MIDDLE: &'static str = " distinct destinations captured by kickbacks-kit. Read-only: kb recorded these from the local ad file, nothing more.</p>
<ul>
";

/// The page after the links.
pub const PAGE_END: &'static str = "</ul>
</body>
</html>
";

/// The entry of a link: everything that the advertiser supplied is escaped.
pub open spec fn page_row(l: LinkView, now_ms: i64) -> Seq<char> {
    "    <li><a href=\""@ + html_escaped(l.url) + "\">"@ + html_escaped(l.advertiser)
        + "</a> <span class=\"host\">"@ + html_escaped(or_empty(host(l.url)))
        + "</span> <span class=\"meta\">"@ + int_text(l.times_seen) + "\u{d7} \u{b7} "@
        + html_escaped(age_short(now_ms - l.last_seen_ms)) + "</span></li>\n"@
}

/// The entries of the first `k` links.
pub open spec fn page_rows(links: Seq<LinkView>, now_ms: i64, k: int) -> Seq<char>
    decreases k,
{
    if k <= 0 {
        Seq::empty()
    } else {
        page_rows(links, now_ms, k - 1) + page_row(links[k - 1], now_ms)
    }
}

/// The links as a bookmarks page.
pub open spec fn page_text(links: Seq<LinkView>, now_ms: i64) -> Seq<char> {
    PAGE_START@ + decimal(links.len()) + PAGE_MIDDLE@ + page_rows(
        links,
        now_ms,
        links.len() as int,
    ) + PAGE_END@
}

/// The host of a URL, or nothing where it has none.
pub fn host_or_empty(url: &str) -> (r: String)
    ensures
        r@ == or_empty(host(url@)),
{
    match host_of(url) {
        Some(host) => host,
        None => String::new(),
    }
}

/// A self-contained, dependency-free bookmarks page. All advertiser text and
/// URLs are HTML-escaped, so a hostile creative cannot inject markup.
pub fn render_html(links: &Vec<LinkRow>, now_ms: i64) -> (r: String)
    requires
        ages_fit(link_views(links@), now_ms),
    ensures
        r@ == page_text(link_views(links@), now_ms),
{
    let ghost all = link_views(links@);
    let mut rows = String::new();
    let mut k: usize = 0;
    assert(rows@ =~= Seq::<char>::empty());
    while k < links.len()
        invariant
            all == link_views(links@),
            ages_fit(all, now_ms),
            k <= links@.len(),
            rows@ == page_rows(all, now_ms, k as int),
        decreases links@.len() - k,
    {
        assert(all[k as int] == links@[k as int]@);
        let l = &links[k];
        let url = html_escape(l.url.as_str());
        let mut row = concat("    <li><a href=\"", url.as_str());
        row.push_str("\">");
        let advertiser = html_escape(l.advertiser.as_str());
        row.push_str(advertiser.as_str());
        row.push_str("</a> <span class=\"host\">");
        let bare = host_or_empty(l.url.as_str());
        let site = html_escape(bare.as_str());
        row.push_str(site.as_str());
        row.push_str("</span> <span class=\"meta\">");
        let times = signed_text(l.times_seen);
        row.push_str(times.as_str());
        row.push_str("\u{d7} \u{b7} ");
        let ago = human_age_short(now_ms - l.last_seen_ms);
        let when = html_escape(ago.as_str());
        row.push_str(when.as_str());
        row.push_str("</span></li>\n");
        rows.push_str(row.as_str());
        k = k + 1;
    }
    let count = count_text(links.len());
    let mut out = concat(PAGE_START, count.as_str());
    out.push_str(PAGE_MIDDLE);
    out.push_str(rows.as_str());
    out.push_str(PAGE_END);
    out
}

/// The links in a format.
pub fn render(links: &Vec<LinkRow>, format: Format, now_ms: i64) -> (r: Result<
    String,
    ExportError,
>)
    requires
        format == Format::Table || format == Format::Html ==> ages_fit(link_views(links@), now_ms),
    ensures
        r is Ok,
        r->Ok_0@ == (match format {
            Format::Table => table_text(link_views(links@), now_ms),
            Format::Csv => csv_text(link_views(links@), links@.len() as int),
            Format::Jsonl => jsonl_text(link_views(links@), links@.len() as int),
            Format::Html => page_text(link_views(links@), now_ms),
        }),
{
    match format {
        Format::Table => Ok(render_table(links, now_ms)),
        Format::Csv => Ok(render_csv(links)),
        Format::Jsonl => render_jsonl(links),
        Format::Html => Ok(render_html(links, now_ms)),
    }
}

// ---- what the formats keep --------------------------------------------------

/// Whether a reader of CSV is inside quotes at the end of a text.
pub open spec fn in_quotes(s: Seq<char>) -> bool
    decreases s.len(),
{
    if s.len() == 0 {
        false
    } else {
        in_quotes(s.drop_last()) != (s.last() == '"')
    }
}

/// How often a character stands outside quotes.
pub open spec fn outside_quotes(s: Seq<char>, c: char) -> int
    decreases s.len(),
{
    if s.len() == 0 {
        0
    } else {
        outside_quotes(s.drop_last(), c) + if s.last() == c && !in_quotes(s.drop_last()) {
            1int
        } else {
            0int
        }
    }
}

proof fn lemma_outside_add(a: Seq<char>, b: Seq<char>, c: char)
    requires
        !in_quotes(a),
    ensures
        in_quotes(a + b) == in_quotes(b),
        outside_quotes(a + b, c) == outside_quotes(a, c) + outside_quotes(b, c),
    decreases b.len(),
{
    if b.len() == 0 {
        assert(a + b =~= a);
    } else {
        lemma_outside_add(a, b.drop_last(), c);
        assert((a + b).drop_last() =~= a + b.drop_last());
    }
}

proof fn lemma_outside_none(s: Seq<char>, c: char)
    requires
        forall|i: int| 0 <= i < s.len() ==> #[trigger] s[i] != '"' && s[i] != c,
    ensures
        !in_quotes(s),
        outside_quotes(s, c) == 0,
    decreases s.len(),
{
    if s.len() > 0 {
        let h = s.drop_last();
        assert forall|i: int| 0 <= i < h.len() implies #[trigger] h[i] != '"' && h[i] != c by {
            assert(h[i] == s[i]);
        }
        lemma_outside_none(h, c);
        assert(s[s.len() - 1] != '"');
    }
}

proof fn lemma_doubled_inside(s: Seq<char>, c: char)
    requires
        c != '"',
    ensures
        in_quotes(seq!['"'] + crate::util::doubled_quotes(s)),
        outside_quotes(seq!['"'] + crate::util::doubled_quotes(s), c) == 0,
    decreases s.len(),
{
    let open = seq!['"'];
    if s.len() == 0 {
        assert(open + crate::util::doubled_quotes(s) =~= open);
        assert(open.drop_last() =~= Seq::<char>::empty());
        reveal_with_fuel(in_quotes, 2);
        reveal_with_fuel(outside_quotes, 2);
        assert(in_quotes(open) && outside_quotes(open, c) == 0);
    } else {
        let head = crate::util::doubled_quotes(s.drop_last());
        lemma_doubled_inside(s.drop_last(), c);
        let before = open + head;
        if s.last() == '"' {
            let one = before.push('"');
            let two = one.push('"');
            assert(open + crate::util::doubled_quotes(s) =~= two);
            assert(two.drop_last() =~= one);
            assert(one.drop_last() =~= before);
            assert(!in_quotes(one) && outside_quotes(one, c) == 0);
            assert(in_quotes(two) && outside_quotes(two, c) == 0);
        } else {
            let one = before.push(s.last());
            assert(open + crate::util::doubled_quotes(s) =~= one);
            assert(one.drop_last() =~= before);
            assert(in_quotes(one) && outside_quotes(one, c) == 0);
        }
    }
}

proof fn lemma_field(s: Seq<char>, c: char)
    requires
        c == ',' || c == '\n',
    ensures
        !in_quotes(csv_quoted(s)),
        outside_quotes(csv_quoted(s), c) == 0,
{
    if crate::util::csv_needs_quotes(s) {
        lemma_doubled_inside(s, c);
        let body = seq!['"'] + crate::util::doubled_quotes(s);
        assert((body + seq!['"']).drop_last() =~= body);
    } else {
        assert forall|i: int| 0 <= i < s.len() implies #[trigger] s[i] != '"' && s[i] != c by {
            assert(!crate::util::is_csv_special(s[i]));
        }
        lemma_outside_none(s, c);
    }
}

proof fn lemma_number(n: int, c: char)
    requires
        c == ',' || c == '\n',
    ensures
        !in_quotes(int_text(n)),
        outside_quotes(int_text(n), c) == 0,
{
    int_text_is_numeric(n);
    let s = int_text(n);
    assert forall|i: int| 0 <= i < s.len() implies #[trigger] s[i] != '"' && s[i] != c by {
        assert(crate::text::is_digit(s[i]) || s[i] == '-');
    }
    lemma_outside_none(s, c);
}

proof fn lemma_one(d: char, c: char)
    requires
        d != '"',
    ensures
        !in_quotes(seq![d]),
        outside_quotes(seq![d], c) == if c == d {
            1int
        } else {
            0int
        },
{
    assert(seq![d].drop_last() =~= Seq::<char>::empty());
    reveal_with_fuel(in_quotes, 2);
    reveal_with_fuel(outside_quotes, 2);
}

/// Every CSV row has four columns and is one record, whatever its texts hold:
/// outside quotes it has three commas and one line break, at its end.
pub proof fn csv_rows_keep_their_columns(l: LinkView)
    ensures
        !in_quotes(csv_row(l)),
        outside_quotes(csv_row(l), ',') == 3,
        outside_quotes(csv_row(l), '\n') == 1,
        csv_row(l).last() == '\n',
{
    reveal_strlit(",");
    reveal_strlit("\n");
    assert(","@ =~= seq![',']);
    assert("\n"@ =~= seq!['\n']);
    lemma_row_counts(l, ',');
    lemma_row_counts(l, '\n');
}

proof fn lemma_row_counts(l: LinkView, c: char)
    requires
        c == ',' || c == '\n',
        ","@ == seq![','],
        "\n"@ == seq!['\n'],
    ensures
        !in_quotes(csv_row(l)),
        outside_quotes(csv_row(l), c) == if c == ',' {
            3int
        } else {
            1int
        },
{
    lemma_one(',', c);
    lemma_one('\n', c);
    lemma_field(l.advertiser, c);
    lemma_field(l.url, c);
    lemma_number(l.times_seen, c);
    lemma_number(l.last_seen_ms as int, c);
    let a = csv_quoted(l.advertiser);
    lemma_outside_add(a, ","@, c);
    let b = a + ","@;
    lemma_outside_add(b, csv_quoted(l.url), c);
    let d = b + csv_quoted(l.url);
    lemma_outside_add(d, ","@, c);
    let e = d + ","@;
    lemma_outside_add(e, int_text(l.times_seen), c);
    let f = e + int_text(l.times_seen);
    lemma_outside_add(f, ","@, c);
    let g = f + ","@;
    lemma_outside_add(g, int_text(l.last_seen_ms as int), c);
    let h = g + int_text(l.last_seen_ms as int);
    lemma_outside_add(h, "\n"@, c);
}

/// Whether a text has no control character but line breaks.
pub open spec fn is_inert_block(s: Seq<char>) -> bool {
    forall|i: int| 0 <= i < s.len() ==> crate::text::is_control(#[trigger] s[i]) ==> s[i] == '\n'
}

proof fn lemma_age_short_is_inert(ms: int)
    ensures
        is_inert(age_short(ms)),
{
    reveal_strlit("now");
    reveal_strlit("m");
    reveal_strlit("h");
    reveal_strlit("d");
    reveal_strlit("w");
    let mins = ms / 60000;
    let hours = mins / 60;
    let days = hours / 24;
    int_text_is_inert(mins);
    int_text_is_inert(hours);
    int_text_is_inert(days);
    int_text_is_inert(days / 7);
}

proof fn lemma_table_rows(links: Seq<LinkView>, now_ms: i64, k: int)
    requires
        0 <= k <= links.len(),
    ensures
        is_inert_block(table_rows(links, now_ms, k)),
    decreases k,
{
    reveal_strlit("  ");
    reveal_strlit("\n");
    if k == 0 {
        reveal_strlit("advertiser");
        reveal_strlit("seen");
        reveal_strlit("last");
        reveal_strlit("  url\n");
    } else {
        lemma_table_rows(links, now_ms, k - 1);
        let l = links[k - 1];
        crate::util::sanitized_is_clean(l.advertiser);
        crate::util::sanitized_is_clean(l.url);
        crate::util::truncating_keeps_inert(sanitized(l.advertiser), 22);
        int_text_is_inert(l.times_seen);
        lemma_age_short_is_inert(now_ms - l.last_seen_ms);
        let name = pad_right(truncated(sanitized(l.advertiser), 22), 22);
        let times = pad_left(int_text(l.times_seen), 5);
        let when = pad_left(age_short(now_ms - l.last_seen_ms), 7);
        assert(is_inert(name));
        assert(is_inert(times));
        assert(is_inert(when));
        assert(is_inert(sanitized(l.url)));
        assert(is_inert_block(name + "  "@ + times));
        assert(is_inert_block(name + "  "@ + times + "  "@ + when));
        assert(is_inert_block(table_row(l, now_ms)));
    }
}

/// The table is safe to print on a terminal, whatever the links hold: line
/// breaks are its only control characters.
pub proof fn tables_are_inert(links: Seq<LinkView>, now_ms: i64)
    ensures
        is_inert_block(table_text(links, now_ms)),
{
    if links.len() == 0 {
        reveal_strlit("no advertiser links captured yet \u{2014} run kb setup\n");
    } else {
        lemma_table_rows(links, now_ms, links.len() as int);
    }
}

// ---- what the rows hold -----------------------------------------------------

proof fn lemma_csv_rows(links: Seq<LinkView>, k: int)
    requires
        0 <= k,
    ensures
        csv_text(links, k) == "advertiser,url,times_seen,last_seen_ms\n"@ + stacked(Seq::new(k as nat, |i: int| csv_row(links[i]))),
    decreases k,
{
    let rows = Seq::new(k as nat, |i: int| csv_row(links[i]));
    if k == 0 {
        stacking_appends(rows, Seq::empty());
        assert(rows =~= Seq::empty());
        assert(csv_text(links, k) =~= "advertiser,url,times_seen,last_seen_ms\n"@ + stacked(rows));
    } else {
        lemma_csv_rows(links, k - 1);
        let before = Seq::new((k - 1) as nat, |i: int| csv_row(links[i]));
        assert(rows =~= before.push(rows[k - 1]));
        stacking_appends(before, rows[k - 1]);
        assert(csv_text(links, k) =~= "advertiser,url,times_seen,last_seen_ms\n"@ + stacked(rows));
    }
}

proof fn lemma_json_rows(links: Seq<LinkView>, k: int)
    requires
        0 <= k,
    ensures
        jsonl_text(links, k) == stacked(Seq::new(k as nat, |i: int| json_row(links[i]))),
    decreases k,
{
    let rows = Seq::new(k as nat, |i: int| json_row(links[i]));
    if k == 0 {
        stacking_appends(rows, Seq::empty());
        assert(rows =~= Seq::empty());
        assert(jsonl_text(links, k) =~= stacked(rows));
    } else {
        lemma_json_rows(links, k - 1);
        let before = Seq::new((k - 1) as nat, |i: int| json_row(links[i]));
        assert(rows =~= before.push(rows[k - 1]));
        stacking_appends(before, rows[k - 1]);
        assert(jsonl_text(links, k) =~= stacked(rows));
    }
}

proof fn lemma_rows_of_table(links: Seq<LinkView>, now_ms: i64, k: int)
    requires
        0 <= k,
    ensures
        table_rows(links, now_ms, k) == table_rows(links, now_ms, 0) + stacked(Seq::new(k as nat, |i: int| table_row(links[i], now_ms))),
    decreases k,
{
    let rows = Seq::new(k as nat, |i: int| table_row(links[i], now_ms));
    if k == 0 {
        stacking_appends(rows, Seq::empty());
        assert(rows =~= Seq::empty());
        assert(table_rows(links, now_ms, k) =~= table_rows(links, now_ms, 0) + stacked(rows));
    } else {
        lemma_rows_of_table(links, now_ms, k - 1);
        let before = Seq::new((k - 1) as nat, |i: int| table_row(links[i], now_ms));
        assert(rows =~= before.push(rows[k - 1]));
        stacking_appends(before, rows[k - 1]);
        assert(table_rows(links, now_ms, k) =~= table_rows(links, now_ms, 0) + stacked(rows));
    }
}

proof fn lemma_page_rows(links: Seq<LinkView>, now_ms: i64, k: int)
    requires
        0 <= k,
    ensures
        page_rows(links, now_ms, k) == stacked(Seq::new(k as nat, |i: int| page_row(links[i], now_ms))),
    decreases k,
{
    let rows = Seq::new(k as nat, |i: int| page_row(links[i], now_ms));
    if k == 0 {
        stacking_appends(rows, Seq::empty());
        assert(rows =~= Seq::empty());
        assert(page_rows(links, now_ms, k) =~= stacked(rows));
    } else {
        lemma_page_rows(links, now_ms, k - 1);
        let before = Seq::new((k - 1) as nat, |i: int| page_row(links[i], now_ms));
        assert(rows =~= before.push(rows[k - 1]));
        stacking_appends(before, rows[k - 1]);
        assert(page_rows(links, now_ms, k) =~= stacked(rows));
    }
}

/// Every format lists every link once, in the order given, each by a row of its
/// own that no other link changes.
pub proof fn every_link_has_its_row(links: Seq<LinkView>, now_ms: i64)
    ensures
        csv_text(links, links.len() as int) == "advertiser,url,times_seen,last_seen_ms\n"@ + stacked(
            Seq::new(links.len(), |i: int| csv_row(links[i])),
        ),
        jsonl_text(links, links.len() as int) == stacked(
            Seq::new(links.len(), |i: int| json_row(links[i])),
        ),
        links.len() > 0 ==> table_text(links, now_ms) == table_rows(links, now_ms, 0) + stacked(
            Seq::new(links.len(), |i: int| table_row(links[i], now_ms)),
        ),
        page_text(links, now_ms) == PAGE_START@ + decimal(links.len()) + PAGE_MIDDLE@ + stacked(
            Seq::new(links.len(), |i: int| page_row(links[i], now_ms)),
        ) + PAGE_END@,
{
    lemma_csv_rows(links, links.len() as int);
    lemma_json_rows(links, links.len() as int);
    lemma_rows_of_table(links, now_ms, links.len() as int);
    lemma_page_rows(links, now_ms, links.len() as int);
}

/// The four columns of a CSV row read back as the advertiser, the destination, how
/// often it was seen and when last.
pub proof fn csv_rows_read_back(l: LinkView) -> (r: (Seq<char>, Seq<char>, Seq<char>, Seq<char>))
    ensures
        csv_row(l) == r.0 + ","@ + r.1 + ","@ + r.2 + ","@ + r.3 + "\n"@,
        csv_value(r.0) == l.advertiser,
        csv_value(r.1) == l.url,
        signed_value(r.2) == Some(l.times_seen),
        signed_value(r.3) == Some(l.last_seen_ms as int),
{
    csv_field_round_trips(l.advertiser);
    csv_field_round_trips(l.url);
    numbers_read_back(0, l.times_seen);
    numbers_read_back(0, l.last_seen_ms as int);
    (
        csv_quoted(l.advertiser),
        csv_quoted(l.url),
        int_text(l.times_seen),
        int_text(l.last_seen_ms as int),
    )
}

/// A table row has the advertiser in its first twenty-two columns, how often it was
/// seen right-aligned in five more, its age in seven more, and the destination
/// after those, with two spaces between; all of it is sanitized.
pub proof fn table_rows_are_aligned(l: LinkView, now_ms: i64)
    requires
        int_text(l.times_seen).len() <= 5,
        age_short(now_ms - l.last_seen_ms).len() <= 7,
    ensures
        ({
            let row = table_row(l, now_ms);
            &&& row.subrange(0, 22) == pad_right(truncated(sanitized(l.advertiser), 22), 22)
            &&& row.subrange(24, 29) == pad_left(int_text(l.times_seen), 5)
            &&& row.subrange(31, 38) == pad_left(age_short(now_ms - l.last_seen_ms), 7)
            &&& row.skip(40) == sanitized(l.url).push('\n')
        }),
{
    reveal_strlit("  ");
    reveal_strlit("\n");
    let row = table_row(l, now_ms);
    padding_fills_with_spaces(truncated(sanitized(l.advertiser), 22), 22);
    padding_fills_with_spaces(int_text(l.times_seen), 5);
    padding_fills_with_spaces(age_short(now_ms - l.last_seen_ms), 7);
    assert(row.subrange(0, 22) =~= pad_right(truncated(sanitized(l.advertiser), 22), 22));
    assert(row.subrange(24, 29) =~= pad_left(int_text(l.times_seen), 5));
    assert(row.subrange(31, 38) =~= pad_left(age_short(now_ms - l.last_seen_ms), 7));
    assert(row.skip(40) =~= sanitized(l.url).push('\n'));
}

} // verus!
