//! The public status bulletin.
//!
//! It is an unauthenticated, read-only, informational document. The schema is
//! treated as best-effort: every field has a default, and both the older (`icon`)
//! and current (`ts`) per-entry shapes are accepted, because a status feed must
//! degrade quietly, never crash.

use vstd::prelude::*;

use crate::feed::cli::SEPARATOR;
use crate::feed::{built_item, FeedItem, FeedItemView, FeedKind};
use crate::text::{
    blank, char_count, is_inert, join, join_with, opt_view, replace_all, split, trim, trimmed,
    views,
};
use crate::util::{sanitize_text, sanitized};

verus! {

/// The public bulletin endpoint. No query string, no auth, no cookies.
pub const BULLETIN_URL: &'static str = "https://kickbacks.ai/api/bulletin";

/// Where a reader can see the bulletin in context (the homepage renders it).
pub const BULLETIN_LINK: &'static str = "https://kickbacks.ai/";

/// A bulletin as the endpoint sends it.
#[derive(Debug)]
pub struct Bulletin {
    pub active: bool,
    pub id: String,
    pub tag: String,
    /// Human-published timestamp string, e.g. "Jun 12, 2026 · 11:49 AM PT".
    /// Not machine-parseable across locales, so it is shown as-is, never parsed
    /// into an ordering key.
    pub ts: String,
    pub headline: String,
    pub items: Vec<Entry>,
}

/// One entry of a bulletin as the endpoint sends it.
#[derive(Debug)]
pub struct Entry {
    /// Current shape: a short human timestamp like "Fri 10:59 AM".
    pub ts: Option<String>,
    /// Older shape used a leading glyph here; accepted for resilience.
    pub icon: Option<String>,
    pub text: String,
}

/// A distilled bulletin: present only when one is active.
#[derive(Debug, PartialEq, Eq)]
pub struct ParsedBulletin {
    pub id: String,
    pub tag: String,
    pub published: String,
    pub headline: String,
    pub entries: Vec<String>,
}

/// What a distilled bulletin holds.
pub struct ParsedBulletinView {
    pub id: Seq<char>,
    pub tag: Seq<char>,
    pub published: Seq<char>,
    pub headline: Seq<char>,
    pub entries: Seq<Seq<char>>,
}

impl View for ParsedBulletin {
    type V = ParsedBulletinView;

    open spec fn view(&self) -> ParsedBulletinView {
        ParsedBulletinView {
            id: self.id@,
            tag: self.tag@,
            published: self.published@,
            headline: self.headline@,
            entries: views(self.entries@),
        }
    }
}

/// A text without the lightweight `**bold**` marks.
pub open spec fn without_bold(s: Seq<char>) -> Seq<char> {
    crate::text::replace(s, "**"@, ""@)
}

/// When an entry was made: its time, or the glyph that stands in its place.
pub open spec fn entry_when(e: Entry) -> Seq<char> {
    trim(
        match opt_view(e.ts) {
            Some(ts) => ts,
            None => crate::text::or_empty(opt_view(e.icon)),
        },
    )
}

/// The line that an entry makes.
pub open spec fn entry_line(e: Entry) -> Seq<char> {
    if entry_when(e).len() == 0 {
        without_bold(e.text@)
    } else {
        entry_when(e) + " \u{2014} "@ + without_bold(e.text@)
    }
}

/// The lines of the first `k` entries; one without text makes none.
pub open spec fn entry_lines(items: Seq<Entry>, k: int) -> Seq<Seq<char>>
    decreases k,
{
    if k <= 0 {
        Seq::empty()
    } else if trim(items[k - 1].text@).len() == 0 {
        entry_lines(items, k - 1)
    } else {
        entry_lines(items, k - 1).push(entry_line(items[k - 1]))
    }
}

/// What is distilled from a bulletin; nothing where it is not active or has no
/// headline.
pub open spec fn distilled(b: Bulletin) -> Option<ParsedBulletinView> {
    if !b.active || trim(without_bold(b.headline@)).len() == 0 {
        None
    } else {
        Some(
            ParsedBulletinView {
                id: b.id@,
                tag: if b.tag@.len() == 0 {
                    "service bulletin"@
                } else {
                    b.tag@
                },
                published: b.ts@,
                headline: without_bold(b.headline@),
                entries: entry_lines(b.items@, b.items@.len() as int),
            },
        )
    }
}

/// Strip the lightweight `**bold**` markdown the bulletin uses, leaving plain
/// text. (Sanitization of control characters happens in `FeedItem::new`.)
pub fn strip_md(s: &str) -> (r: String)
    ensures
        r@ == without_bold(s@),
{
    proof {
        reveal_strlit("**");
    }
    replace_all(s, "**", "")
}

fn line_of(e: &Entry) -> (r: String)
    ensures
        r@ == entry_line(*e),
{
    let when = match &e.ts {
        Some(ts) => trimmed(ts.as_str()),
        None => match &e.icon {
            Some(icon) => trimmed(icon.as_str()),
            None => {
                proof {
                    reveal_strlit("");
                    assert(""@ =~= Seq::<char>::empty());
                }
                trimmed("")
            },
        },
    };
    let text = strip_md(e.text.as_str());
    if char_count(when.as_str()) == 0 {
        text
    } else {
        let mut out = when;
        out.push_str(" \u{2014} ");
        out.push_str(text.as_str());
        out
    }
}

/// Distill a decoded bulletin. Returns `None` when the payload could not be
/// decoded, no bulletin is active, or it has no headline, which the UI treats as
/// "nothing to show".
pub fn parse(decoded: Option<Bulletin>) -> (r: Option<ParsedBulletin>)
    ensures
        match r {
            Some(p) => decoded is Some && distilled(decoded->0) == Some(p@),
            None => decoded is None || distilled(decoded->0) is None,
        },
{
    let b = match decoded {
        Some(b) => b,
        None => return None,
    };
    if !b.active {
        return None;
    }
    let headline = strip_md(b.headline.as_str());
    if blank(headline.as_str()) {
        return None;
    }
    let mut entries: Vec<String> = Vec::new();
    let mut i: usize = 0;
    assert(views(entries@) =~= Seq::<Seq<char>>::empty());
    while i < b.items.len()
        invariant
            i <= b.items@.len(),
            views(entries@) == entry_lines(b.items@, i as int),
        decreases b.items@.len() - i,
    {
        let ghost before = entries@;
        if !blank(b.items[i].text.as_str()) {
            let line = line_of(&b.items[i]);
            let ghost shown = line@;
            entries.push(line);
            assert(views(entries@) =~= views(before).push(shown));
        }
        i = i + 1;
    }
    let tag = if char_count(b.tag.as_str()) == 0 {
        "service bulletin".to_owned()
    } else {
        b.tag
    };
    Some(ParsedBulletin { id: b.id, tag, published: b.ts, headline, entries })
}

/// The entries of a bulletin, each sanitized.
pub open spec fn clean_entries(entries: Seq<Seq<char>>) -> Seq<Seq<char>> {
    Seq::new(entries.len(), |i: int| sanitized(entries[i]))
}

/// The feed item of an active bulletin: its body is the entries with the
/// separator between them, or when it was published where they say nothing.
pub open spec fn bulletin_item(b: ParsedBulletinView) -> FeedItemView {
    let plain = built_item(
        FeedKind::Bulletin,
        b.headline,
        b.published,
        Some(BULLETIN_LINK@),
        None,
        "bulletin"@,
    );
    if join(b.entries, SEPARATOR@).len() == 0 {
        plain
    } else {
        FeedItemView { body: join(clean_entries(b.entries), SEPARATOR@), ..plain }
    }
}

/// Build the feed item for an active bulletin. The entries are joined into the
/// body with a visible separator; the TUI can re-split on it to show a list,
/// and the one-line surfaces show the joined preview.
pub fn to_item(b: &ParsedBulletin) -> (r: FeedItem)
    ensures
        r@ == bulletin_item(b@),
        join(b@.entries, SEPARATOR@).len() > 0 ==> split(r.body@, SEPARATOR@) == clean_entries(
            b@.entries,
        ),
{
    let mut item = FeedItem::new(
        FeedKind::Bulletin,
        b.headline.as_str(),
        b.published.as_str(),
        Some(BULLETIN_LINK.to_owned()),
        None,
        "bulletin",
    );
    let raw = join_with(&b.entries, SEPARATOR);
    if char_count(raw.as_str()) > 0 {
        // The separator holds double spaces, so the entries are sanitized one by
        // one and the joined body is kept as it is.
        let mut clean: Vec<String> = Vec::new();
        let mut i: usize = 0;
        let ghost all = clean_entries(views(b.entries@));
        assert(views(clean@) =~= all.take(0));
        while i < b.entries.len()
            invariant
                all == clean_entries(views(b.entries@)),
                i <= b.entries@.len(),
                views(clean@) == all.take(i as int),
            decreases b.entries@.len() - i,
        {
            let ghost before = clean@;
            let entry = sanitize_text(b.entries[i].as_str());
            let ghost shown = entry@;
            clean.push(entry);
            assert(views(clean@) =~= views(before).push(shown));
            assert(all.take(i + 1) =~= all.take(i as int).push(all[i as int]));
            i = i + 1;
        }
        assert(all.take(i as int) =~= all);
        item.body = join_with(&clean, SEPARATOR);
        proof {
            bodies_split_again(views(b.entries@));
        }
    }
    item
}

// ---- what the body keeps ----------------------------------------------------

proof fn lemma_join_first(parts: Seq<Seq<char>>, sep: Seq<char>)
    requires
        parts.len() >= 2,
    ensures
        join(parts, sep) == parts[0] + sep + join(parts.skip(1), sep),
    decreases parts.len(),
{
    let rest = parts.skip(1);
    if parts.len() == 2 {
        assert(parts.drop_last() =~= seq![parts[0]]);
        assert(rest =~= seq![parts[1]]);
        assert(join(seq![parts[0]], sep) == parts[0]);
        assert(join(seq![parts[1]], sep) == parts[1]);
    } else {
        let init = parts.drop_last();
        lemma_join_first(init, sep);
        assert(init.skip(1) =~= rest.drop_last());
        assert(rest.last() == parts.last());
        assert(join(parts, sep) =~= parts[0] + sep + join(rest, sep));
    }
}

/// Whether a text neither begins nor ends with a space nor has two in a row.
pub open spec fn is_tight(s: Seq<char>) -> bool {
    &&& s.len() > 0 ==> s[0] != ' ' && s.last() != ' '
    &&& forall|i: int| 0 <= i < s.len() - 1 ==> !(#[trigger] s[i] == ' ' && s[i + 1] == ' ')
}

proof fn lemma_split_join(s: Seq<char>, start: int, parts: Seq<Seq<char>>)
    requires
        0 <= start <= s.len(),
        parts.len() > 0,
        forall|i: int| 0 <= i < parts.len() ==> is_tight(#[trigger] parts[i]),
        s.skip(start) == join(parts, SEPARATOR@),
    ensures
        crate::text::split_from(s, SEPARATOR@, start) == parts,
    decreases parts.len(),
{
    reveal_strlit("  \u{b7}  ");
    let sep = SEPARATOR@;
    let first = parts[0];
    let end = start + first.len();
    assert(is_tight(first));
    if parts.len() > 1 {
        lemma_join_first(parts, sep);
    }
    let tail = s.skip(start);
    assert forall|i: int| 0 <= i < tail.len() implies tail[i] == s[start + i] by {}
    assert forall|i: int| start <= i < end implies !crate::text::occurs_at(s, sep, i) by {
        if crate::text::occurs_at(s, sep, i) {
            let here = s.subrange(i, i + sep.len());
            assert(here[0] == ' ' && here[1] == ' ');
            assert(tail[i - start] == first[i - start]);
            if i + 1 < end {
                assert(tail[i + 1 - start] == first[i + 1 - start]);
                assert(first[i - start] == ' ' && first[i - start + 1] == ' ');
            } else {
                assert(first.last() == ' ');
            }
        }
    }
    crate::text::lemma_find_from(s, sep, start);
    if parts.len() == 1 {
        assert(tail =~= first);
        assert(parts =~= seq![first]);
        assert(crate::text::find_from(s, sep, start) is None);
    } else {
        let rest = parts.skip(1);
        assert(tail.len() == first.len() + sep.len() + join(rest, sep).len());
        let whole = first + sep + join(rest, sep);
        assert(tail == whole);
        assert forall|j: int| 0 <= j < sep.len() implies s[end + j] == sep[j] by {
            assert(s[end + j] == tail[first.len() + j]);
            assert(whole[first.len() + j] == sep[j]);
        }
        assert(s.subrange(end, end + sep.len()) =~= sep);
        assert(crate::text::occurs_at(s, sep, end));
        assert(crate::text::find_from(s, sep, start) == Some(end));
        let after = s.skip(end + sep.len());
        assert forall|j: int| 0 <= j < after.len() implies after[j] == join(rest, sep)[j] by {
            assert(after[j] == tail[first.len() + sep.len() + j]);
            assert(whole[first.len() + sep.len() + j] == join(rest, sep)[j]);
        }
        assert(after =~= join(rest, sep));
        assert forall|i: int| 0 <= i < rest.len() implies is_tight(#[trigger] rest[i]) by {
            assert(rest[i] == parts[i + 1]);
        }
        lemma_split_join(s, end + sep.len(), rest);
        assert(s.subrange(start, end) =~= first);
        assert(parts =~= seq![first] + rest);
    }
}

/// The body of a bulletin can be split on its separator again: that gives the
/// sanitized entries, in order.
pub proof fn bodies_split_again(entries: Seq<Seq<char>>)
    requires
        entries.len() > 0,
    ensures
        split(join(clean_entries(entries), SEPARATOR@), SEPARATOR@) == clean_entries(entries),
{
    let parts = clean_entries(entries);
    let s = join(parts, SEPARATOR@);
    assert forall|i: int| 0 <= i < parts.len() implies is_tight(#[trigger] parts[i]) by {
        crate::util::sanitized_is_clean(entries[i]);
    }
    assert(s.skip(0) =~= s);
    lemma_split_join(s, 0, parts);
}

proof fn lemma_join_inert(parts: Seq<Seq<char>>)
    requires
        forall|i: int| 0 <= i < parts.len() ==> is_inert(#[trigger] parts[i]),
    ensures
        is_inert(join(parts, SEPARATOR@)),
    decreases parts.len(),
{
    reveal_strlit("  \u{b7}  ");
    if parts.len() > 1 {
        let init = parts.drop_last();
        assert forall|i: int| 0 <= i < init.len() implies is_inert(#[trigger] init[i]) by {
            assert(init[i] == parts[i]);
        }
        lemma_join_inert(init);
        assert(is_inert(parts.last()));
        assert(is_inert(SEPARATOR@));
    } else if parts.len() == 1 {
        assert(is_inert(parts[0]));
    }
}

/// Neither the title nor the body of a bulletin's item has a control character,
/// whatever the bulletin holds.
pub proof fn bulletin_items_are_inert(b: ParsedBulletinView)
    ensures
        is_inert(bulletin_item(b).title),
        is_inert(bulletin_item(b).body),
{
    crate::util::sanitized_is_clean(b.headline);
    crate::util::sanitized_is_clean(b.published);
    let parts = clean_entries(b.entries);
    assert forall|i: int| 0 <= i < parts.len() implies is_inert(#[trigger] parts[i]) by {
        crate::util::sanitized_is_clean(b.entries[i]);
    }
    lemma_join_inert(parts);
}

} // verus!
