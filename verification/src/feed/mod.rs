//! The live status feed: what its entries are and in what order they show.
//!
//! The feed is read with plain GETs of public endpoints, and everything in it is
//! cached in the local archive, so that the status line and snapshots render it
//! without any network at all.

pub mod bulletin;
pub mod cli;
pub mod github;
pub mod http;
pub mod laws;
pub mod sync;

use vstd::prelude::*;
use vstd::utf8::encode_utf8;

use crate::digest::{identify, push_text};
use crate::order::{rank, ranked};
use crate::text::{clone_opt, opt_view, same_text, without_prefix};
use crate::util::{sanitize_text, sanitized};

verus! {

/// What a feed item is about. Drives the glyph and grouping in the UI.
#[derive(Debug, Clone, Copy, PartialEq, Eq, Structural)]
pub enum FeedKind {
    /// A service bulletin / PSA (the official status channel).
    Bulletin,
    /// The upstream extension version was synced to a new release.
    Version,
    /// An issue on the upstream repo.
    Issue,
    /// A repository statistic snapshot (stars, open issues).
    Stat,
    /// A static deep link (the maintainer's profile, the earnings portfolio).
    Link,
}

/// The persisted tag of a kind.
pub open spec fn kind_tag(k: FeedKind) -> Seq<char> {
    match k {
        FeedKind::Bulletin => "bulletin"@,
        FeedKind::Version => "version"@,
        FeedKind::Issue => "issue"@,
        FeedKind::Stat => "stat"@,
        FeedKind::Link => "link"@,
    }
}

/// The kind that a persisted tag stands for; `Link` for an unknown tag.
pub open spec fn kind_of_tag(s: Seq<char>) -> FeedKind {
    if s == "bulletin"@ {
        FeedKind::Bulletin
    } else if s == "version"@ {
        FeedKind::Version
    } else if s == "issue"@ {
        FeedKind::Issue
    } else if s == "stat"@ {
        FeedKind::Stat
    } else {
        FeedKind::Link
    }
}

/// The glyph of a kind.
pub open spec fn kind_glyph(k: FeedKind) -> Seq<char> {
    match k {
        FeedKind::Bulletin => "\u{25cf}"@,
        FeedKind::Version => "\u{25c6}"@,
        FeedKind::Issue => "\u{25cb}"@,
        FeedKind::Stat => "\u{2605}"@,
        FeedKind::Link => "\u{2192}"@,
    }
}

/// The display priority of a kind (lower sorts first).
pub open spec fn kind_priority(k: FeedKind) -> u8 {
    match k {
        FeedKind::Bulletin => 0,
        FeedKind::Version => 1,
        FeedKind::Stat => 2,
        FeedKind::Issue => 3,
        FeedKind::Link => 4,
    }
}

impl FeedKind {
    /// Persisted tag.
    pub fn as_str(self) -> (r: &'static str)
        ensures
            r@ == kind_tag(self),
    {
        match self {
            FeedKind::Bulletin => "bulletin",
            FeedKind::Version => "version",
            FeedKind::Issue => "issue",
            FeedKind::Stat => "stat",
            FeedKind::Link => "link",
        }
    }

    /// Parse a persisted tag, defaulting to `Link` for forward compatibility.
    pub fn from_str(s: &str) -> (r: FeedKind)
        ensures
            r == kind_of_tag(s@),
    {
        if same_text(s, "bulletin") {
            FeedKind::Bulletin
        } else if same_text(s, "version") {
            FeedKind::Version
        } else if same_text(s, "issue") {
            FeedKind::Issue
        } else if same_text(s, "stat") {
            FeedKind::Stat
        } else {
            FeedKind::Link
        }
    }

    /// A one-cell, width-stable glyph (no emoji: terminal width is reliable for
    /// these). The bulletin marker is filled to read as the loud one.
    pub fn glyph(self) -> (r: &'static str)
        ensures
            r@ == kind_glyph(self),
    {
        match self {
            FeedKind::Bulletin => "\u{25cf}",
            FeedKind::Version => "\u{25c6}",
            FeedKind::Issue => "\u{25cb}",
            FeedKind::Stat => "\u{2605}",
            FeedKind::Link => "\u{2192}",
        }
    }

    /// Display priority (lower sorts first). This is a status feed, so the
    /// reader wants the official bulletin, then which version they are on, then
    /// repo health, before the issue stream and the static links. Recency
    /// orders items within a single kind.
    pub fn priority(self) -> (r: u8)
        ensures
            r == kind_priority(self),
    {
        match self {
            FeedKind::Bulletin => 0,
            FeedKind::Version => 1,
            FeedKind::Stat => 2,
            FeedKind::Issue => 3,
            FeedKind::Link => 4,
        }
    }
}

/// A tag reads back as the kind that it was written from.
pub proof fn kind_tag_reads_back(k: FeedKind)
    ensures
        kind_of_tag(kind_tag(k)) == k,
{
    reveal_strlit("bulletin");
    reveal_strlit("version");
    reveal_strlit("issue");
    reveal_strlit("stat");
    reveal_strlit("link");
    assert("version"@[0] == 'v');
    assert("bulletin"@[0] == 'b');
    assert("issue"@[0] == 'i');
    assert("stat"@[0] == 's');
    assert("link"@[0] == 'l');
}

// ---- items ------------------------------------------------------------------

/// One entry in the feed. `title` and `body` are always sanitized of control
/// characters before they are stored, because they may carry text authored
/// outside this process.
#[derive(Debug, PartialEq, Eq)]
pub struct FeedItem {
    pub id: String,
    pub kind: FeedKind,
    pub title: String,
    pub body: String,
    pub url: Option<String>,
    /// Event time in epoch millis when known; `None` when the source gives only
    /// an unparseable human string (the cache then orders by fetch time).
    pub ts_ms: Option<i64>,
    pub source: String,
}

/// What a feed item holds.
pub struct FeedItemView {
    pub id: Seq<char>,
    pub kind: FeedKind,
    pub title: Seq<char>,
    pub body: Seq<char>,
    pub url: Option<Seq<char>>,
    pub ts_ms: Option<i64>,
    pub source: Seq<char>,
}

impl View for FeedItem {
    type V = FeedItemView;

    open spec fn view(&self) -> FeedItemView {
        FeedItemView {
            id: self.id@,
            kind: self.kind,
            title: self.title@,
            body: self.body@,
            url: opt_view(self.url),
            ts_ms: self.ts_ms,
            source: self.source@,
        }
    }
}

/// What a sequence of feed items holds.
pub open spec fn item_views(v: Seq<FeedItem>) -> Seq<FeedItemView> {
    Seq::new(v.len(), |i: int| v[i]@)
}

/// The bytes that identify an item: its kind, its URL and its title, on a line
/// each.
pub open spec fn item_bytes(kind: FeedKind, url: Option<Seq<char>>, title: Seq<char>) -> Seq<u8> {
    (encode_utf8(kind_tag(kind)).push(10u8) + encode_utf8(crate::text::or_empty(url))).push(10u8)
        + encode_utf8(title)
}

/// The item that is built of these parts.
pub open spec fn built_item(
    kind: FeedKind,
    title: Seq<char>,
    body: Seq<char>,
    url: Option<Seq<char>>,
    ts_ms: Option<i64>,
    source: Seq<char>,
) -> FeedItemView {
    FeedItemView {
        id: crate::digest::short_id(item_bytes(kind, url, sanitized(title))),
        kind,
        title: sanitized(title),
        body: sanitized(body),
        url,
        ts_ms,
        source,
    }
}

impl FeedItem {
    /// Build an item, sanitizing the title and body. A stable id is derived
    /// from kind + url + title so a re-fetch updates the same row.
    pub fn new(
        kind: FeedKind,
        title: &str,
        body: &str,
        url: Option<String>,
        ts_ms: Option<i64>,
        source: &str,
    ) -> (r: FeedItem)
        ensures
            r@ == built_item(kind, title@, body@, opt_view(url), ts_ms, source@),
            r.id@.len() == 16,
    {
        let title = sanitize_text(title);
        let body = sanitize_text(body);
        let mut data: Vec<u8> = Vec::new();
        push_text(&mut data, kind.as_str());
        assert(data@ =~= encode_utf8(kind_tag(kind)));
        data.push(10u8);
        match &url {
            Some(u) => push_text(&mut data, u.as_str()),
            None => {
                push_text(&mut data, "");
                proof {
                    reveal_strlit("");
                    assert(""@ =~= Seq::<char>::empty());
                }
            },
        }
        data.push(10u8);
        push_text(&mut data, title.as_str());
        let id = identify(&data);
        FeedItem { id, kind, title, body, url, ts_ms, source: source.to_owned() }
    }

    /// A copy of this item.
    pub fn copy(&self) -> (r: FeedItem)
        ensures
            r == *self,
    {
        FeedItem {
            id: self.id.clone(),
            kind: self.kind,
            title: self.title.clone(),
            body: self.body.clone(),
            url: clone_opt(&self.url),
            ts_ms: self.ts_ms,
            source: self.source.clone(),
        }
    }
}

/// The title and the body of every built item are clean, whatever they were
/// built from.
pub proof fn built_items_are_clean(
    kind: FeedKind,
    title: Seq<char>,
    body: Seq<char>,
    url: Option<Seq<char>>,
    ts_ms: Option<i64>,
    source: Seq<char>,
)
    ensures
        crate::util::is_clean(built_item(kind, title, body, url, ts_ms, source).title),
        crate::util::is_clean(built_item(kind, title, body, url, ts_ms, source).body),
{
    crate::util::sanitized_is_clean(title);
    crate::util::sanitized_is_clean(body);
}

/// Two items of one kind, URL and title have one id, whatever else differs.
pub proof fn item_id_is_stable(
    kind: FeedKind,
    title: Seq<char>,
    url: Option<Seq<char>>,
    body_a: Seq<char>,
    ts_a: Option<i64>,
    source_a: Seq<char>,
    body_b: Seq<char>,
    ts_b: Option<i64>,
    source_b: Seq<char>,
)
    ensures
        built_item(kind, title, body_a, url, ts_a, source_a).id == built_item(
            kind,
            title,
            body_b,
            url,
            ts_b,
            source_b,
        ).id,
{
}

// ---- health -----------------------------------------------------------------

/// Health of a single feed source, persisted so the UI can always say when it
/// last reached a source and whether it is currently backing off.
#[derive(Debug)]
pub struct SourceHealth {
    pub source: String,
    /// Short human status, e.g. `ok`, `up to date`, `offline`, `cooling down`,
    /// `rate limited`, `error: timed out`.
    pub last_status: String,
    pub last_sync_ms: Option<i64>,
    /// Stored ETag for conditional requests (bandwidth saver).
    pub etag: Option<String>,
    pub failures: u32,
    /// While `now < circuit_until_ms` the source is skipped (circuit open).
    pub circuit_until_ms: Option<i64>,
}

/// What a source's health holds.
pub struct SourceHealthView {
    pub source: Seq<char>,
    pub last_status: Seq<char>,
    pub last_sync_ms: Option<i64>,
    pub etag: Option<Seq<char>>,
    pub failures: u32,
    pub circuit_until_ms: Option<i64>,
}

impl View for SourceHealth {
    type V = SourceHealthView;

    open spec fn view(&self) -> SourceHealthView {
        SourceHealthView {
            source: self.source@,
            last_status: self.last_status@,
            last_sync_ms: self.last_sync_ms,
            etag: opt_view(self.etag),
            failures: self.failures,
            circuit_until_ms: self.circuit_until_ms,
        }
    }
}

/// What a sequence of source records holds.
pub open spec fn health_views(v: Seq<SourceHealth>) -> Seq<SourceHealthView> {
    Seq::new(v.len(), |i: int| v[i]@)
}

/// The health of a source that was never reached.
pub open spec fn fresh_health(source: Seq<char>) -> SourceHealthView {
    SourceHealthView {
        source,
        last_status: Seq::empty(),
        last_sync_ms: None,
        etag: None,
        failures: 0,
        circuit_until_ms: None,
    }
}

impl SourceHealth {
    /// The health of a source that was never reached.
    pub fn fresh(source: &str) -> (r: SourceHealth)
        ensures
            r@ == fresh_health(source@),
    {
        SourceHealth {
            source: source.to_owned(),
            last_status: String::new(),
            last_sync_ms: None,
            etag: None,
            failures: 0,
            circuit_until_ms: None,
        }
    }

    /// A copy of this record.
    pub fn copy(&self) -> (r: SourceHealth)
        ensures
            r == *self,
    {
        SourceHealth {
            source: self.source.clone(),
            last_status: self.last_status.clone(),
            last_sync_ms: self.last_sync_ms,
            etag: clone_opt(&self.etag),
            failures: self.failures,
            circuit_until_ms: self.circuit_until_ms,
        }
    }
}

impl Default for SourceHealth {
    fn default() -> (r: SourceHealth)
        ensures
            r@ == fresh_health(Seq::empty()),
    {
        SourceHealth {
            source: String::new(),
            last_status: String::new(),
            last_sync_ms: None,
            etag: None,
            failures: 0,
            circuit_until_ms: None,
        }
    }
}

// ---- snapshots --------------------------------------------------------------

/// Everything a read surface needs to render the feed, all from the cache.
#[derive(Debug)]
pub struct FeedSnapshot {
    pub items: Vec<FeedItem>,
    pub sources: Vec<SourceHealth>,
    /// Most recent successful sync across all network sources.
    pub last_sync_ms: Option<i64>,
    /// True when the network is disabled for this process (flag, config, env).
    pub offline: bool,
}

impl Default for FeedSnapshot {
    fn default() -> (r: FeedSnapshot)
        ensures
            r.items@.len() == 0,
            r.sources@.len() == 0,
            r.last_sync_ms is None,
            !r.offline,
    {
        FeedSnapshot {
            items: Vec::new(),
            sources: Vec::new(),
            last_sync_ms: None,
            offline: false,
        }
    }
}

/// The keys that order the feed: the kind's priority, then the event time, a
/// missing one as the oldest.
pub open spec fn display_keys(items: Seq<FeedItemView>) -> Seq<(i64, i64)> {
    Seq::new(
        items.len(),
        |i: int|
            (
                kind_priority(items[i].kind) as i64,
                match items[i].ts_ms {
                    Some(ts) => ts,
                    None => i64::MIN,
                },
            ),
    )
}

/// The order in which the items of a feed show.
pub open spec fn display_order(items: Seq<FeedItemView>) -> Seq<int> {
    ranked(display_keys(items))
}

/// Ranks the items of a feed for display.
pub fn rank_items(items: &Vec<FeedItem>) -> (r: Vec<usize>)
    ensures
        crate::order::as_ints(r@) == display_order(item_views(items@)),
        r@.len() == items@.len(),
        forall|i: int| 0 <= i < r@.len() ==> (#[trigger] r@[i]) < items@.len(),
{
    let mut keys: Vec<(i64, i64)> = Vec::new();
    let mut i: usize = 0;
    while i < items.len()
        invariant
            i <= items@.len(),
            keys@ == display_keys(item_views(items@)).take(i as int),
        decreases items@.len() - i,
    {
        let ts: i64 = match items[i].ts_ms {
            Some(ts) => ts,
            None => i64::MIN,
        };
        keys.push((items[i].kind.priority() as i64, ts));
        proof {
            let all = display_keys(item_views(items@));
            assert(all.take(i + 1) =~= all.take(i as int).push(all[i as int]));
        }
        i = i + 1;
    }
    assert(keys@ =~= display_keys(item_views(items@)));
    rank(&keys)
}

/// The title of the first item of a kind, in display order from `k` on.
pub open spec fn first_title(
    items: Seq<FeedItemView>,
    order: Seq<int>,
    kind: FeedKind,
    k: int,
) -> Option<Seq<char>>
    decreases order.len() - k,
{
    if k < 0 || k >= order.len() {
        None
    } else if items[order[k]].kind == kind {
        Some(items[order[k]].title)
    } else {
        first_title(items, order, kind, k + 1)
    }
}

/// The headline of the active bulletin.
pub open spec fn headline_of(items: Seq<FeedItemView>) -> Option<Seq<char>> {
    first_title(items, display_order(items), FeedKind::Bulletin, 0)
}

/// What the title of a version item says before the version.
pub const VERSION_TITLE: &'static str = "Extension synced to v";

/// The version that the newest version item reports.
pub open spec fn latest_version_of(items: Seq<FeedItemView>) -> Option<Seq<char>> {
    match first_title(items, display_order(items), FeedKind::Version, 0) {
        Some(title) => crate::text::strip_prefix(title, VERSION_TITLE@),
        None => None,
    }
}

impl FeedSnapshot {
    /// Items ordered for display: by kind priority (bulletin, version, repo
    /// stats, issues, links), then newest first within a kind. A missing
    /// `ts_ms` sorts oldest.
    pub fn ordered(&self) -> (r: Vec<&FeedItem>)
        ensures
            r@.len() == self.items@.len(),
            forall|i: int|
                0 <= i < r@.len() ==> *(#[trigger] r@[i]) == self.items@[display_order(
                    item_views(self.items@),
                )[i]],
    {
        let order = rank_items(&self.items);
        let mut out: Vec<&FeedItem> = Vec::new();
        let mut i: usize = 0;
        while i < order.len()
            invariant
                i <= order@.len(),
                order@.len() == self.items@.len(),
                forall|k: int| 0 <= k < order@.len() ==> (#[trigger] order@[k]) < self.items@.len(),
                out@.len() == i,
                forall|k: int|
                    0 <= k < i ==> *(#[trigger] out@[k]) == self.items@[order@[k] as int],
            decreases order@.len() - i,
        {
            out.push(&self.items[order[i]]);
            i = i + 1;
        }
        proof {
            assert forall|k: int| 0 <= k < out@.len() implies *(#[trigger] out@[k])
                == self.items@[display_order(item_views(self.items@))[k]] by {
                assert(crate::order::as_ints(order@)[k] == order@[k] as int);
            }
        }
        out
    }

    fn title_of_first(&self, kind: FeedKind) -> (r: Option<String>)
        ensures
            opt_view(r) == first_title(
                item_views(self.items@),
                display_order(item_views(self.items@)),
                kind,
                0,
            ),
    {
        let ordered = self.ordered();
        let ghost items = item_views(self.items@);
        let ghost order = display_order(items);
        proof {
            crate::order::ranking_is_stable(display_keys(items));
        }
        let mut i: usize = 0;
        while i < ordered.len()
            invariant
                items == item_views(self.items@),
                order == display_order(items),
                order.len() == items.len(),
                forall|k: int| 0 <= k < order.len() ==> 0 <= #[trigger] order[k] < items.len(),
                ordered@.len() == order.len(),
                forall|k: int|
                    0 <= k < ordered@.len() ==> *(#[trigger] ordered@[k]) == self.items@[order[k]],
                i <= ordered@.len(),
                first_title(items, order, kind, 0) == first_title(items, order, kind, i as int),
            decreases ordered@.len() - i,
        {
            let item: &FeedItem = ordered[i];
            assert(items[order[i as int]] == item@);
            if item.kind == kind {
                return Some(item.title.clone());
            }
            i = i + 1;
        }
        None
    }

    /// The headline of the active bulletin, if the feed holds one.
    pub fn bulletin_headline(&self) -> (r: Option<String>)
        ensures
            opt_view(r) == headline_of(item_views(self.items@)),
    {
        self.title_of_first(FeedKind::Bulletin)
    }

    /// The newest extension version that the feed knows of.
    pub fn latest_version(&self) -> (r: Option<String>)
        ensures
            opt_view(r) == latest_version_of(item_views(self.items@)),
    {
        match self.title_of_first(FeedKind::Version) {
            Some(title) => without_prefix(title.as_str(), VERSION_TITLE),
            None => None,
        }
    }
}

/// The feed shows every item once, by the priority of its kind and newest first
/// within a kind; items that tie keep the order that they were stored in.
pub proof fn display_order_pins_priority_then_recency(items: Seq<FeedItemView>)
    ensures
        ({
            let order = display_order(items);
            let keys = display_keys(items);
            &&& crate::order::is_stable_order(keys, order, items.len() as int)
            &&& forall|i: int, j: int|
                #![trigger order[i], order[j]]
                0 <= i < j < items.len() ==> kind_priority(items[order[i]].kind) <= kind_priority(
                    items[order[j]].kind,
                )
            &&& forall|i: int, j: int|
                #![trigger order[i], order[j]]
                0 <= i < j < items.len() && items[order[i]].kind == items[order[j]].kind ==> (
                match (items[order[i]].ts_ms, items[order[j]].ts_ms) {
                    (Some(a), Some(b)) => a >= b,
                    (None, Some(b)) => b == i64::MIN,
                    _ => true,
                })
        }),
{
    crate::order::ranking_is_stable(display_keys(items));
    let order = display_order(items);
    let keys = display_keys(items);
    assert forall|i: int, j: int|
        #![trigger order[i], order[j]]
        0 <= i < j < items.len() implies kind_priority(items[order[i]].kind) <= kind_priority(
        items[order[j]].kind,
    ) && (items[order[i]].kind == items[order[j]].kind ==> (match (
        items[order[i]].ts_ms,
        items[order[j]].ts_ms,
    ) {
        (Some(a), Some(b)) => a >= b,
        (None, Some(b)) => b == i64::MIN,
        _ => true,
    })) by {
        assert(!crate::order::goes_before(keys[order[j]], keys[order[i]]));
    }
}

// ---- static rows ------------------------------------------------------------

/// The one row that is never fetched.
pub open spec fn static_row() -> FeedItemView {
    built_item(
        FeedKind::Link,
        "@andrewmccalip on X"@,
        "Maintainer status, outages, and back-online notes"@,
        Some("https://x.com/andrewmccalip"@),
        None,
        "static"@,
    )
}

/// The static, never-fetched feed rows: the maintainer's channel surfaced as a
/// link rather than scraped. Always present so the feed is never empty.
pub fn static_items() -> (r: Vec<FeedItem>)
    ensures
        item_views(r@) == seq![static_row()],
{
    let mut out: Vec<FeedItem> = Vec::new();
    out.push(
        FeedItem::new(
            FeedKind::Link,
            "@andrewmccalip on X",
            "Maintainer status, outages, and back-online notes",
            Some("https://x.com/andrewmccalip".to_owned()),
            None,
            "static",
        ),
    );
    assert(item_views(out@) =~= seq![static_row()]);
    out
}

} // verus!
