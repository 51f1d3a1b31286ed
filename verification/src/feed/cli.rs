//! The live status feed as a block of text: the headless, scriptable twin of
//! the feed tab of the dashboard.

use vstd::prelude::*;

use crate::feed::sync::OfflineReason;
use crate::feed::{
    display_keys, display_order, health_views, item_views, kind_glyph, FeedItem, FeedItemView,
    FeedSnapshot, SourceHealthView,
};
use crate::style::{bold, dim, dimmed, in_bold};
use crate::text::{
    char_count, concat, is_white, join, join_with, same_text, split, split_at_each, views, words,
    words_from, words_of,
};
use crate::text_laws::{stacked, stacking_appends};
use crate::util::{age, age_short, human_age, human_age_short, truncate, truncated};

verus! {

// ---- soft wrapping ----------------------------------------------------------

/// What stands between the entries of a bulletin's body.
pub const SEPARATOR: &'static str = "  \u{b7}  ";

/// The finished lines and the line in progress.
pub struct Wrapping {
    pub lines: Seq<Seq<char>>,
    pub line: Seq<char>,
}

/// The wrapping after the first `k` words, on top of some finished lines. A word
/// that would make the line in progress too long starts a new one.
pub open spec fn packed(words: Seq<Seq<char>>, width: int, start: Seq<Seq<char>>, k: int) -> Wrapping
    decreases k,
{
    if k <= 0 {
        Wrapping { lines: start, line: Seq::empty() }
    } else {
        let before = packed(words, width, start, k - 1);
        let word = words[k - 1];
        if before.line.len() == 0 {
            Wrapping { lines: before.lines, line: word }
        } else if before.line.len() + 1 + word.len() > width {
            Wrapping { lines: before.lines.push(before.line), line: word }
        } else {
            Wrapping { lines: before.lines, line: before.line.push(' ') + word }
        }
    }
}

/// The lines of a wrapping, the one in progress among them.
pub open spec fn closed(w: Wrapping) -> Seq<Seq<char>> {
    if w.line.len() == 0 {
        w.lines
    } else {
        w.lines.push(w.line)
    }
}

/// The lines of the first `k` chunks; each chunk starts a new line.
pub open spec fn wrapped_chunks(chunks: Seq<Seq<char>>, width: int, k: int) -> Seq<Seq<char>>
    decreases k,
{
    if k <= 0 {
        Seq::empty()
    } else {
        let all = words(chunks[k - 1]);
        closed(packed(all, width, wrapped_chunks(chunks, width, k - 1), all.len() as int))
    }
}

/// A text, softly wrapped.
pub open spec fn wrapped(text: Seq<char>, width: int) -> Seq<Seq<char>> {
    let chunks = split(text, SEPARATOR@);
    wrapped_chunks(chunks, width, chunks.len() as int)
}

fn wrap_chunk(lines: &mut Vec<String>, chunk: &str, width: usize)
    ensures
        views(final(lines)@) == closed(
            packed(words(chunk@), width as int, views(old(lines)@), words(chunk@).len() as int),
        ),
{
    let all = words_of(chunk);
    let ghost start = views(lines@);
    let ghost seen = words(chunk@);
    let mut line = String::new();
    let mut k: usize = 0;
    assert(line@ =~= Seq::<char>::empty());
    while k < all.len()
        invariant
            k <= all@.len(),
            seen == views(all@),
            packed(seen, width as int, start, k as int) == (Wrapping {
                lines: views(lines@),
                line: line@,
            }),
        decreases all@.len() - k,
    {
        assert(seen[k as int] == all@[k as int]@);
        let word = all[k].as_str();
        let have: usize = char_count(line.as_str());
        let more: usize = char_count(word);
        if have == 0 {
            line = word.to_owned();
        } else if have as u128 + 1 + more as u128 > width as u128 {
            let ghost before = lines@;
            let ghost full = line@;
            lines.push(line);
            assert(views(lines@) =~= views(before).push(full));
            line = word.to_owned();
        } else {
            line.push(' ');
            line.push_str(word);
        }
        k = k + 1;
    }
    assert(seen.len() == all@.len());
    if char_count(line.as_str()) > 0 {
        let ghost before = lines@;
        let ghost full = line@;
        lines.push(line);
        assert(views(lines@) =~= views(before).push(full));
    }
}

/// Soft word-wrap to `width` columns, splitting on the bulletin separator and
/// on spaces. Never splits mid-word; long words are passed through whole.
pub fn wrap(text: &str, width: usize) -> (r: Vec<String>)
    ensures
        views(r@) == wrapped(text@, width as int),
{
    proof {
        reveal_strlit("  \u{b7}  ");
    }
    let chunks = split_at_each(text, SEPARATOR);
    let mut lines: Vec<String> = Vec::new();
    let mut k: usize = 0;
    assert(views(lines@) =~= Seq::<Seq<char>>::empty());
    while k < chunks.len()
        invariant
            k <= chunks@.len(),
            views(lines@) == wrapped_chunks(views(chunks@), width as int, k as int),
        decreases chunks@.len() - k,
    {
        assert(views(chunks@)[k as int] == chunks@[k as int]@);
        wrap_chunk(&mut lines, chunks[k].as_str(), width);
        k = k + 1;
    }
    assert(views(chunks@).len() == chunks@.len());
    lines
}

// ---- the block of text ------------------------------------------------------

/// An offline reason in words.
pub open spec fn offline_words(reason: OfflineReason) -> Seq<char> {
    match reason {
        OfflineReason::Flag => "offline (--offline)"@,
        OfflineReason::Config => "offline (feed disabled in config)"@,
        OfflineReason::Env => "offline (KICKBACKS_KIT_OFFLINE set)"@,
    }
}

/// Describe an offline reason in words.
pub fn describe_offline(reason: OfflineReason) -> (r: &'static str)
    ensures
        r@ == offline_words(reason),
{
    match reason {
        OfflineReason::Flag => "offline (--offline)",
        OfflineReason::Config => "offline (feed disabled in config)",
        OfflineReason::Env => "offline (KICKBACKS_KIT_OFFLINE set)",
    }
}

/// The status of the network.
pub open spec fn network_status(
    offline: bool,
    last_sync_ms: Option<i64>,
    now_ms: i64,
    reason: Option<OfflineReason>,
) -> Seq<char> {
    match reason {
        Some(reason) => offline_words(reason) + " \u{b7} showing cached feed"@,
        None => if offline {
            "offline \u{b7} showing cached feed"@
        } else {
            match last_sync_ms {
                Some(ms) => "synced "@ + age(now_ms - ms),
                None => "not synced yet"@,
            }
        },
    }
}

/// Whether the time since an instant can be told.
pub open spec fn since_fits(at: Option<i64>, now_ms: i64) -> bool {
    match at {
        Some(ms) => i64::MIN <= now_ms - ms <= i64::MAX,
        None => true,
    }
}

/// The one-line network status shown under the title: the precise offline
/// reason when the network was skipped, otherwise how long ago the feed last
/// reached any source.
pub fn network_line(snapshot: &FeedSnapshot, now_ms: i64, offline: Option<OfflineReason>) -> (r:
    String)
    requires
        since_fits(snapshot.last_sync_ms, now_ms),
    ensures
        r@ == network_status(snapshot.offline, snapshot.last_sync_ms, now_ms, offline),
{
    if let Some(reason) = offline {
        return concat(describe_offline(reason), " \u{b7} showing cached feed");
    }
    if snapshot.offline {
        return "offline \u{b7} showing cached feed".to_owned();
    }
    match snapshot.last_sync_ms {
        Some(ms) => {
            let ago = human_age(now_ms - ms);
            concat("synced ", ago.as_str())
        },
        None => "not synced yet".to_owned(),
    }
}

/// What the footer says of one source.
pub open spec fn source_part(h: SourceHealthView) -> Seq<char> {
    h.source + " "@ + if h.last_status.len() == 0 {
        "pending"@
    } else {
        h.last_status
    }
}

/// What the footer says of the first `k` sources; nothing of the static one.
pub open spec fn source_parts(sources: Seq<SourceHealthView>, k: int) -> Seq<Seq<char>>
    decreases k,
{
    if k <= 0 {
        Seq::empty()
    } else if sources[k - 1].source == "static"@ {
        source_parts(sources, k - 1)
    } else {
        source_parts(sources, k - 1).push(source_part(sources[k - 1]))
    }
}

/// The footer: every source with its state.
pub open spec fn footer(sources: Seq<SourceHealthView>) -> Seq<char> {
    let parts = source_parts(sources, sources.len() as int);
    if parts.len() == 0 {
        Seq::empty()
    } else {
        "  sources \u{b7} "@ + join(parts, " \u{b7} "@)
    }
}

/// A compact per-source health footer, so the user can always see exactly which
/// endpoints were reached and their state. Skips the static (never-fetched)
/// pseudo-source.
pub fn sources_line(snapshot: &FeedSnapshot) -> (r: String)
    ensures
        r@ == footer(health_views(snapshot.sources@)),
{
    let ghost sources = health_views(snapshot.sources@);
    let mut parts: Vec<String> = Vec::new();
    let mut k: usize = 0;
    assert(views(parts@) =~= Seq::<Seq<char>>::empty());
    while k < snapshot.sources.len()
        invariant
            sources == health_views(snapshot.sources@),
            k <= snapshot.sources@.len(),
            views(parts@) == source_parts(sources, k as int),
        decreases snapshot.sources@.len() - k,
    {
        assert(sources[k as int] == snapshot.sources@[k as int]@);
        let s = &snapshot.sources[k];
        if !same_text(s.source.as_str(), "static") {
            let mut part = concat(s.source.as_str(), " ");
            if char_count(s.last_status.as_str()) == 0 {
                part.push_str("pending");
            } else {
                part.push_str(s.last_status.as_str());
            }
            let ghost before = parts@;
            let ghost shown = part@;
            parts.push(part);
            assert(views(parts@) =~= views(before).push(shown));
        }
        k = k + 1;
    }
    assert(sources.len() == snapshot.sources@.len());
    assert(views(parts@).len() == parts@.len());
    if parts.len() == 0 {
        String::new()
    } else {
        let list = join_with(&parts, " \u{b7} ");
        concat("  sources \u{b7} ", list.as_str())
    }
}

/// One indented, dimmed line.
pub open spec fn detail(line: Seq<char>, color: bool) -> Seq<char> {
    "     "@ + dimmed(line, color) + "\n"@
}

/// The first `k` lines of an item's body.
pub open spec fn details(lines: Seq<Seq<char>>, color: bool, k: int) -> Seq<char>
    decreases k,
{
    if k <= 0 {
        Seq::empty()
    } else {
        details(lines, color, k - 1) + detail(lines[k - 1], color)
    }
}

/// The first line of an item.
pub open spec fn heading(item: FeedItemView, now_ms: i64, color: bool) -> Seq<char> {
    let start = "  "@ + kind_glyph(item.kind) + " "@ + in_bold(truncated(item.title, 64), color);
    match item.ts_ms {
        Some(ts) => start + "  "@ + dimmed(age_short(now_ms - ts), color),
        None => start,
    }
}

/// The lines of an item: its heading, its body wrapped to a readable width, and
/// its URL.
pub open spec fn item_block(item: FeedItemView, now_ms: i64, color: bool) -> Seq<char> {
    let lines = wrapped(item.body, 68);
    heading(item, now_ms, color) + "\n"@ + details(lines, color, lines.len() as int) + (
    match item.url {
        Some(url) => detail(url, color),
        None => Seq::empty(),
    }) + "\n"@
}

/// The first `k` items of a feed, in display order.
pub open spec fn item_blocks(
    items: Seq<FeedItemView>,
    order: Seq<int>,
    now_ms: i64,
    color: bool,
    k: int,
) -> Seq<char>
    decreases k,
{
    if k <= 0 {
        Seq::empty()
    } else {
        item_blocks(items, order, now_ms, color, k - 1) + item_block(
            items[order[k - 1]],
            now_ms,
            color,
        )
    }
}

/// A feed as a block of text.
pub open spec fn feed_text(
    items: Seq<FeedItemView>,
    sources: Seq<SourceHealthView>,
    status: Seq<char>,
    now_ms: i64,
    color: bool,
) -> Seq<char> {
    let head = in_bold("kickbacks-kit \u{b7} live feed"@, color) + "   "@ + dimmed(status, color)
        + "\n\n"@;
    let body = item_blocks(items, display_order(items), now_ms, color, items.len() as int);
    if footer(sources).len() == 0 {
        head + body
    } else {
        head + body + dimmed(footer(sources), color) + "\n"@
    }
}

fn push_detail(out: &mut String, line: &str, color: bool)
    ensures
        final(out)@ == old(out)@ + detail(line@, color),
{
    let shown = dim(line, color);
    let mut piece = concat("     ", shown.as_str());
    piece.push_str("\n");
    out.push_str(piece.as_str());
}

fn block_of(item: &FeedItem, now_ms: i64, color: bool) -> (r: String)
    requires
        since_fits(item.ts_ms, now_ms),
    ensures
        r@ == item_block(item@, now_ms, color),
{
    let title = truncate(item.title.as_str(), 64);
    let shown = bold(title.as_str(), color);
    let mut out = concat("  ", item.kind.glyph());
    out.push_str(" ");
    out.push_str(shown.as_str());
    if let Some(ts) = item.ts_ms {
        let ago = human_age_short(now_ms - ts);
        let faint = dim(ago.as_str(), color);
        out.push_str("  ");
        out.push_str(faint.as_str());
    }
    assert(out@ == heading(item@, now_ms, color));
    out.push_str("\n");
    // The bulletin packs its entries into the body with a separator; show them,
    // wrapped softly to a readable width.
    let lines = wrap(item.body.as_str(), 68);
    let ghost all = views(lines@);
    let mut body = String::new();
    let mut k: usize = 0;
    assert(body@ =~= Seq::<char>::empty());
    while k < lines.len()
        invariant
            all == views(lines@),
            k <= lines@.len(),
            body@ == details(all, color, k as int),
        decreases lines@.len() - k,
    {
        assert(all[k as int] == lines@[k as int]@);
        push_detail(&mut body, lines[k].as_str(), color);
        k = k + 1;
    }
    assert(all.len() == lines@.len());
    out.push_str(body.as_str());
    let ghost so_far = out@;
    match &item.url {
        Some(url) => push_detail(&mut out, url.as_str(), color),
        None => {
            assert(so_far + Seq::<char>::empty() =~= so_far);
        },
    }
    out.push_str("\n");
    out
}

/// Render the feed as a block of text. `color` gates ANSI styling (off when
/// piped); `offline` carries the precise reason the network was skipped, when it
/// was.
pub fn render_text(
    snapshot: &FeedSnapshot,
    now_ms: i64,
    color: bool,
    offline: Option<OfflineReason>,
) -> (r: String)
    requires
        since_fits(snapshot.last_sync_ms, now_ms),
        forall|i: int|
            0 <= i < snapshot.items@.len() ==> since_fits(
                (#[trigger] snapshot.items@[i]).ts_ms,
                now_ms,
            ),
    ensures
        r@ == feed_text(
            item_views(snapshot.items@),
            health_views(snapshot.sources@),
            network_status(snapshot.offline, snapshot.last_sync_ms, now_ms, offline),
            now_ms,
            color,
        ),
{
    let status = network_line(snapshot, now_ms, offline);
    let faint = dim(status.as_str(), color);
    let mut out = bold("kickbacks-kit \u{b7} live feed", color);
    out.push_str("   ");
    out.push_str(faint.as_str());
    out.push_str("\n\n");

    let ordered = snapshot.ordered();
    let ghost items = item_views(snapshot.items@);
    let ghost order = display_order(items);
    proof {
        crate::order::ranking_is_stable(display_keys(items));
    }
    let mut body = String::new();
    let mut k: usize = 0;
    assert(body@ =~= Seq::<char>::empty());
    while k < ordered.len()
        invariant
            items == item_views(snapshot.items@),
            order == display_order(items),
            order.len() == items.len(),
            forall|i: int| 0 <= i < order.len() ==> 0 <= #[trigger] order[i] < items.len(),
            ordered@.len() == order.len(),
            forall|i: int|
                0 <= i < ordered@.len() ==> *(#[trigger] ordered@[i]) == snapshot.items@[order[i]],
            forall|i: int|
                0 <= i < snapshot.items@.len() ==> since_fits(
                    (#[trigger] snapshot.items@[i]).ts_ms,
                    now_ms,
                ),
            k <= ordered@.len(),
            body@ == item_blocks(items, order, now_ms, color, k as int),
        decreases ordered@.len() - k,
    {
        let item: &FeedItem = ordered[k];
        assert(items[order[k as int]] == item@);
        let block = block_of(item, now_ms, color);
        body.push_str(block.as_str());
        k = k + 1;
    }
    out.push_str(body.as_str());

    let foot = sources_line(snapshot);
    if char_count(foot.as_str()) > 0 {
        let faint = dim(foot.as_str(), color);
        out.push_str(faint.as_str());
        out.push_str("\n");
    }
    out
}

// ---- what wrapping keeps ----------------------------------------------------

/// The words of the first `k` chunks.
pub open spec fn words_of_chunks(chunks: Seq<Seq<char>>, k: int) -> Seq<Seq<char>>
    decreases k,
{
    if k <= 0 {
        Seq::empty()
    } else {
        words_of_chunks(chunks, k - 1) + words(chunks[k - 1])
    }
}

/// Whether a text is one word: not empty and without white space.
pub open spec fn is_word(s: Seq<char>) -> bool {
    s.len() > 0 && forall|i: int| 0 <= i < s.len() ==> !is_white(#[trigger] s[i])
}

proof fn lemma_run_has_no_white(s: Seq<char>, a: int, i: int)
    requires
        0 <= a <= i < crate::text::skip_word(s, a),
        a <= s.len(),
    ensures
        i < s.len(),
        !is_white(s[i]),
    decreases i - a,
{
    crate::text::lemma_skip_bounds(s, a);
    if a < i {
        lemma_run_has_no_white(s, a + 1, i);
    }
}

proof fn lemma_words_are_words(s: Seq<char>, i: int)
    requires
        0 <= i <= s.len(),
    ensures
        forall|j: int| 0 <= j < words_from(s, i).len() ==> is_word(#[trigger] words_from(s, i)[j]),
    decreases s.len() - i,
{
    let a = crate::text::skip_white(s, i);
    let b = crate::text::skip_word(s, a);
    crate::text::lemma_skip_bounds(s, i);
    crate::text::lemma_skip_bounds(s, a);
    if a < b {
        lemma_words_are_words(s, b);
        let first = s.subrange(a, b);
        assert forall|j: int| 0 <= j < first.len() implies !is_white(#[trigger] first[j]) by {
            lemma_run_has_no_white(s, a, a + j);
        }
        assert(is_word(first));
        let rest = words_from(s, b);
        assert forall|j: int| 0 <= j < words_from(s, i).len() implies is_word(
            #[trigger] words_from(s, i)[j],
        ) by {
            if j > 0 {
                assert(words_from(s, i)[j] == rest[j - 1]);
            }
        }
    }
}

/// Whether a line fits a width, or is a single word that cannot.
pub open spec fn fits(line: Seq<char>, width: int) -> bool {
    line.len() <= width || is_word(line)
}

/// Whether every line fits.
pub open spec fn all_fit(lines: Seq<Seq<char>>, width: int) -> bool {
    forall|i: int| 0 <= i < lines.len() ==> fits(#[trigger] lines[i], width)
}

proof fn lemma_join_push(parts: Seq<Seq<char>>, last: Seq<char>, sep: Seq<char>)
    ensures
        join(parts.push(last), sep) == if parts.len() == 0 {
            last
        } else {
            join(parts, sep) + sep + last
        },
{
    assert(parts.push(last).drop_last() =~= parts);
}

proof fn lemma_packed(
    all: Seq<Seq<char>>,
    width: int,
    start: Seq<Seq<char>>,
    earlier: Seq<Seq<char>>,
    k: int,
)
    requires
        0 <= k <= all.len(),
        forall|j: int| 0 <= j < all.len() ==> is_word(#[trigger] all[j]),
        all_fit(start, width),
        join(start, " "@) == join(earlier, " "@),
        start.len() == 0 <==> earlier.len() == 0,
    ensures
        ({
            let w = packed(all, width, start, k);
            &&& all_fit(closed(w), width)
            &&& join(closed(w), " "@) == join(earlier + all.take(k), " "@)
            &&& closed(w).len() == 0 <==> (earlier + all.take(k)).len() == 0
            &&& k > 0 ==> w.line.len() > 0
            &&& w.line.len() == 0 || fits(w.line, width)
        }),
    decreases k,
{
    reveal_strlit(" ");
    if k == 0 {
        assert(earlier + all.take(0) =~= earlier);
    } else {
        lemma_packed(all, width, start, earlier, k - 1);
        let before = packed(all, width, start, k - 1);
        let after = packed(all, width, start, k);
        let word = all[k - 1];
        let prior = earlier + all.take(k - 1);
        assert(earlier + all.take(k) =~= prior.push(word));
        lemma_join_push(prior, word, " "@);
        assert(is_word(word));
        assert(" "@ =~= seq![' ']);
        if before.line.len() == 0 {
            lemma_join_push(before.lines, word, " "@);
            assert(closed(after) =~= before.lines.push(word));
            assert(all_fit(closed(after), width));
            assert(join(closed(after), " "@) == join(earlier + all.take(k), " "@));
        } else if before.line.len() + 1 + word.len() > width {
            lemma_join_push(closed(before), word, " "@);
            assert(closed(after) =~= closed(before).push(word));
            assert(all_fit(closed(after), width));
            assert(join(closed(after), " "@) == join(earlier + all.take(k), " "@));
        } else {
            let line = before.line.push(' ') + word;
            assert(line =~= before.line + " "@ + word);
            lemma_join_push(before.lines, before.line, " "@);
            lemma_join_push(before.lines, line, " "@);
            assert(closed(after) =~= before.lines.push(line));
            assert forall|i: int| 0 <= i < closed(after).len() implies fits(
                #[trigger] closed(after)[i],
                width,
            ) by {
                assert(i < before.lines.len() ==> closed(after)[i] == closed(before)[i]);
            }
            if before.lines.len() > 0 {
                assert(join(before.lines, " "@) + " "@ + line =~= join(before.lines, " "@) + " "@
                    + before.line + " "@ + word);
            }
        }
    }
}

proof fn lemma_wrapped_chunks(chunks: Seq<Seq<char>>, width: int, k: int)
    requires
        0 <= k <= chunks.len(),
    ensures
        all_fit(wrapped_chunks(chunks, width, k), width),
        join(wrapped_chunks(chunks, width, k), " "@) == join(words_of_chunks(chunks, k), " "@),
        wrapped_chunks(chunks, width, k).len() == 0 <==> words_of_chunks(chunks, k).len() == 0,
    decreases k,
{
    if k > 0 {
        lemma_wrapped_chunks(chunks, width, k - 1);
        let all = words(chunks[k - 1]);
        lemma_words_are_words(chunks[k - 1], 0);
        let n = all.len() as int;
        lemma_packed(
            all,
            width,
            wrapped_chunks(chunks, width, k - 1),
            words_of_chunks(chunks, k - 1),
            n,
        );
        assert(all.take(n) =~= all);
    }
}

/// Wrapping loses and reorders nothing: joined by single spaces, the lines give
/// the words of the text. No line is longer than the width but one that is a
/// single word.
pub proof fn wrapping_keeps_the_words(text: Seq<char>, width: int)
    ensures
        ({
            let chunks = split(text, SEPARATOR@);
            let all = words_of_chunks(chunks, chunks.len() as int);
            join(wrapped(text, width), " "@) == join(all, " "@)
        }),
        all_fit(wrapped(text, width), width),
{
    let chunks = split(text, SEPARATOR@);
    lemma_wrapped_chunks(chunks, width, chunks.len() as int);
}

/// Whether a line begins with a word.
pub open spec fn begins_with(line: Seq<char>, word: Seq<char>) -> bool {
    is_word(word) && (line == word || (word.len() < line.len() && line[word.len() as int] == ' '
        && line.take(word.len() as int) == word))
}

/// Whether a line has no room for the word that the next one begins with.
pub open spec fn breaks_where_it_must(line: Seq<char>, next: Seq<char>, width: int) -> bool {
    exists|word: Seq<char>|
        #[trigger] begins_with(next, word) && line.len() + 1 + word.len() > width
}

proof fn lemma_breaks(
    words: Seq<Seq<char>>,
    width: int,
    start: Seq<Seq<char>>,
    k: int,
)
    requires
        0 <= k <= words.len(),
        forall|i: int| 0 <= i < words.len() ==> is_word(#[trigger] words[i]),
    ensures
        ({
            let w = packed(words, width, start, k);
            &&& w.lines.len() >= start.len()
            &&& w.line.len() == 0 <==> k == 0
            &&& k == 0 ==> w.lines == start
            &&& k > 0 ==> exists|word: Seq<char>| #[trigger] begins_with(w.line, word)
            &&& forall|i: int|
                #![trigger w.lines[i]]
                start.len() <= i < w.lines.len() - 1 ==> breaks_where_it_must(
                    w.lines[i],
                    w.lines[i + 1],
                    width,
                )
            &&& w.lines.len() > start.len() ==> breaks_where_it_must(
                w.lines.last(),
                w.line,
                width,
            )
        }),
    decreases k,
{
    if k > 0 {
        lemma_breaks(words, width, start, k - 1);
        let before = packed(words, width, start, k - 1);
        let after = packed(words, width, start, k);
        let word = words[k - 1];
        assert(is_word(word));
        if before.line.len() == 0 {
            assert(begins_with(after.line, word));
        } else if before.line.len() + 1 + word.len() > width {
            assert(begins_with(after.line, word));
            assert(breaks_where_it_must(before.line, after.line, width));
            assert forall|i: int|
                #![trigger after.lines[i]]
                start.len() <= i < after.lines.len() - 1 implies breaks_where_it_must(
                after.lines[i],
                after.lines[i + 1],
                width,
            ) by {
                assert(after.lines[i] == before.lines[i]);
                if i + 1 < before.lines.len() {
                    assert(after.lines[i + 1] == before.lines[i + 1]);
                }
            }
        } else {
            if before.lines.len() > start.len() {
                let f = choose|f: Seq<char>|
                    #[trigger] begins_with(before.line, f) && before.lines.last().len() + 1
                        + f.len() > width;
                lemma_begins(before.line, after.line, f, word);
            }
            let f = choose|f: Seq<char>| #[trigger] begins_with(before.line, f);
            lemma_begins(before.line, after.line, f, word);
        }
    }
}

proof fn lemma_begins(line: Seq<char>, longer: Seq<char>, f: Seq<char>, word: Seq<char>)
    requires
        begins_with(line, f),
        longer == line.push(' ') + word,
    ensures
        begins_with(longer, f),
{
    assert(longer.take(f.len() as int) =~= line.take(f.len() as int));
    if line == f {
        assert(line.take(f.len() as int) =~= f);
    }
}

proof fn lemma_packed_after(
    words: Seq<Seq<char>>,
    width: int,
    start: Seq<Seq<char>>,
    k: int,
)
    requires
        0 <= k <= words.len(),
    ensures
        ({
            let w = packed(words, width, start, k);
            let v = packed(words, width, Seq::empty(), k);
            w.line == v.line && w.lines == start + v.lines
        }),
    decreases k,
{
    let v = packed(words, width, Seq::empty(), k);
    if k > 0 {
        lemma_packed_after(words, width, start, k - 1);
        let before = packed(words, width, Seq::empty(), k - 1);
        assert((start + before.lines).push(before.line) =~= start + before.lines.push(before.line));
    } else {
        assert(start + v.lines =~= start);
    }
}

/// The lines of one chunk alone.
pub open spec fn chunk_lines(chunk: Seq<char>, width: int) -> Seq<Seq<char>> {
    let all = words(chunk);
    closed(packed(all, width, Seq::empty(), all.len() as int))
}

/// Every entry of a body starts a line of its own: the lines of a text are those
/// of its entries, one after the other, each as if it stood alone.
pub proof fn every_entry_starts_a_line(chunks: Seq<Seq<char>>, width: int, k: int)
    requires
        0 <= k < chunks.len(),
    ensures
        wrapped_chunks(chunks, width, k + 1) == wrapped_chunks(chunks, width, k) + chunk_lines(
            chunks[k],
            width,
        ),
{
    let all = words(chunks[k]);
    let n = all.len() as int;
    let start = wrapped_chunks(chunks, width, k);
    lemma_packed_after(all, width, start, n);
    let v = packed(all, width, Seq::empty(), n);
    assert((start + v.lines).push(v.line) =~= start + v.lines.push(v.line));
}

/// Within an entry a line is broken only where the next word does not fit on it
/// any more.
pub proof fn lines_break_only_where_they_must(chunk: Seq<char>, width: int, i: int)
    requires
        0 <= i < chunk_lines(chunk, width).len() - 1,
    ensures
        breaks_where_it_must(chunk_lines(chunk, width)[i], chunk_lines(chunk, width)[i + 1], width),
{
    let all = words(chunk);
    lemma_words_are_words(chunk, 0);
    lemma_breaks(all, width, Seq::empty(), all.len() as int);
    let w = packed(all, width, Seq::empty(), all.len() as int);
    let lines = chunk_lines(chunk, width);
    if i + 1 < w.lines.len() {
        assert(lines[i] == w.lines[i] && lines[i + 1] == w.lines[i + 1]);
    } else {
        assert(lines[i] == w.lines.last());
        assert(lines[i + 1] == w.line);
    }
}

/// The reason that the network was skipped is told before anything else, and being
/// offline before when the feed was last synced.
pub proof fn the_network_line_tells_why(
    offline: bool,
    last_sync_ms: Option<i64>,
    now_ms: i64,
    reason: Option<OfflineReason>,
)
    ensures
        ({
            let line = network_status(offline, last_sync_ms, now_ms, reason);
            &&& reason is Some ==> line == offline_words(reason->0)
                + " \u{b7} showing cached feed"@
            &&& reason is None && offline ==> line == "offline \u{b7} showing cached feed"@
            &&& reason is None && !offline && last_sync_ms is Some ==> line == "synced "@ + age(
                now_ms - last_sync_ms->0,
            )
            &&& reason is None && !offline && last_sync_ms is None ==> line == "not synced yet"@
        }),
{
}

proof fn lemma_source_parts(sources: Seq<SourceHealthView>, k: int) -> (at: Seq<int>)
    requires
        0 <= k <= sources.len(),
    ensures
        at.len() == source_parts(sources, k).len(),
        forall|i: int|
            #![trigger at[i]]
            0 <= i < at.len() ==> 0 <= at[i] < k && sources[at[i]].source != "static"@
                && source_parts(sources, k)[i] == source_part(sources[at[i]]),
        forall|i: int, j: int|
            #![trigger at[i], at[j]]
            0 <= i < j < at.len() ==> at[i] < at[j],
        forall|x: int|
            0 <= x < k && (#[trigger] sources[x]).source != "static"@ ==> at.contains(x),
    decreases k,
{
    if k <= 0 {
        Seq::empty()
    } else {
        let before = lemma_source_parts(sources, k - 1);
        if sources[k - 1].source == "static"@ {
            before
        } else {
            let at = before.push(k - 1);
            assert forall|x: int|
                0 <= x < k && (#[trigger] sources[x]).source != "static"@ implies at.contains(
                x,
            ) by {
                if x == k - 1 {
                    assert(at[before.len() as int] == x);
                } else {
                    assert(before.contains(x));
                    let i = choose|i: int| 0 <= i < before.len() && before[i] == x;
                    assert(at[i] == x);
                }
            }
            at
        }
    }
}

/// The footer tells of every source but the static one, in the order of their
/// records, its name and its status, or that it is pending where it has none.
pub proof fn the_footer_tells_of_every_source(sources: Seq<SourceHealthView>) -> (at: Seq<int>)
    ensures
        ({
            let parts = source_parts(sources, sources.len() as int);
            &&& at.len() == parts.len()
            &&& parts.len() > 0 ==> footer(sources) == "  sources \u{b7} "@ + join(
                parts,
                " \u{b7} "@,
            )
            &&& parts.len() == 0 ==> footer(sources).len() == 0
            &&& forall|i: int|
                #![trigger at[i]]
                0 <= i < at.len() ==> {
                    let h = sources[at[i]];
                    &&& 0 <= at[i] < sources.len() && h.source != "static"@
                    &&& h.last_status.len() > 0 ==> parts[i] == h.source + " "@ + h.last_status
                    &&& h.last_status.len() == 0 ==> parts[i] == h.source + " "@ + "pending"@
                }
            &&& forall|i: int, j: int|
                #![trigger at[i], at[j]]
                0 <= i < j < at.len() ==> at[i] < at[j]
            &&& forall|x: int|
                0 <= x < sources.len() && (#[trigger] sources[x]).source != "static"@
                    ==> at.contains(x)
        }),
{
    lemma_source_parts(sources, sources.len() as int)
}

proof fn lemma_item_blocks(
    items: Seq<FeedItemView>,
    order: Seq<int>,
    now_ms: i64,
    color: bool,
    k: int,
)
    requires
        0 <= k,
    ensures
        item_blocks(items, order, now_ms, color, k) == stacked(
            Seq::new(k as nat, |i: int| item_block(items[order[i]], now_ms, color)),
        ),
    decreases k,
{
    let rows = Seq::new(k as nat, |i: int| item_block(items[order[i]], now_ms, color));
    if k == 0 {
        stacking_appends(rows, Seq::empty());
        assert(rows =~= Seq::empty());
        assert(item_blocks(items, order, now_ms, color, k) =~= stacked(rows));
    } else {
        lemma_item_blocks(items, order, now_ms, color, k - 1);
        let before = Seq::new(
            (k - 1) as nat,
            |i: int| item_block(items[order[i]], now_ms, color),
        );
        assert(rows =~= before.push(rows[k - 1]));
        stacking_appends(before, rows[k - 1]);
    }
}

/// A feed shows every item by a block of its own, in display order, under its
/// title and its status.
pub proof fn every_item_has_its_block(
    items: Seq<FeedItemView>,
    sources: Seq<SourceHealthView>,
    status: Seq<char>,
    now_ms: i64,
    color: bool,
)
    ensures
        ({
            let order = display_order(items);
            let blocks = Seq::new(
                items.len(),
                |i: int| item_block(items[order[i]], now_ms, color),
            );
            let head = in_bold("kickbacks-kit \u{b7} live feed"@, color) + "   "@ + dimmed(
                status,
                color,
            ) + "\n\n"@;
            let text = feed_text(items, sources, status, now_ms, color);
            &&& footer(sources).len() == 0 ==> text == head + stacked(blocks)
            &&& footer(sources).len() > 0 ==> text == head + stacked(blocks) + dimmed(
                footer(sources),
                color,
            ) + "\n"@
        }),
{
    lemma_item_blocks(items, display_order(items), now_ms, color, items.len() as int);
}

} // verus!
