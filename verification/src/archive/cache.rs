//! The cached feed: its items, by source, and the health of each source.

use vstd::prelude::*;

use crate::archive::queries::top;
use crate::archive::{cached_views, wf, Archive, ArchiveView, CachedItem, CachedItemView};
use crate::feed::{
    fresh_health, health_views, item_views, FeedItem, FeedItemView, SourceHealth,
    SourceHealthView,
};
use crate::order::{rank, ranked};
use crate::text::same_text;

verus! {

// ---- items ------------------------------------------------------------------

/// Those of the first `k` items that did not come from a source.
pub open spec fn without_source(
    items: Seq<CachedItemView>,
    source: Seq<char>,
    k: int,
) -> Seq<CachedItemView>
    decreases k,
{
    if k <= 0 {
        Seq::empty()
    } else if items[k - 1].item.source == source {
        without_source(items, source, k - 1)
    } else {
        without_source(items, source, k - 1).push(items[k - 1])
    }
}

/// Those of the first `k` items that have another id.
pub open spec fn without_id(items: Seq<CachedItemView>, id: Seq<char>, k: int) -> Seq<
    CachedItemView,
>
    decreases k,
{
    if k <= 0 {
        Seq::empty()
    } else if items[k - 1].item.id == id {
        without_id(items, id, k - 1)
    } else {
        without_id(items, id, k - 1).push(items[k - 1])
    }
}

/// The items after the first `k` of some new ones were stored, each in place of
/// any that has its id.
pub open spec fn stored(
    items: Seq<CachedItemView>,
    new: Seq<FeedItemView>,
    now_ms: i64,
    k: int,
) -> Seq<CachedItemView>
    decreases k,
{
    if k <= 0 {
        items
    } else {
        let before = stored(items, new, now_ms, k - 1);
        without_id(before, new[k - 1].id, before.len() as int).push(
            CachedItemView { item: new[k - 1], fetched_ms: now_ms },
        )
    }
}

/// The items after those of one source were replaced.
pub open spec fn replaced(
    items: Seq<CachedItemView>,
    source: Seq<char>,
    new: Seq<FeedItemView>,
    now_ms: i64,
) -> Seq<CachedItemView> {
    stored(without_source(items, source, items.len() as int), new, now_ms, new.len() as int)
}

/// The keys that order the cache: newest first, by the event time or, where
/// there is none, by the time of the fetch.
pub open spec fn cache_keys(items: Seq<CachedItemView>) -> Seq<(i64, i64)> {
    Seq::new(
        items.len(),
        |i: int|
            (
                0i64,
                match items[i].item.ts_ms {
                    Some(ts) => ts,
                    None => items[i].fetched_ms,
                },
            ),
    )
}

/// The newest `limit` items of a cache.
pub open spec fn newest_items(items: Seq<CachedItemView>, limit: int) -> Seq<FeedItemView> {
    let kept = top(items, cache_keys(items), limit);
    Seq::new(kept.len(), |i: int| kept[i].item)
}

fn dup(c: &CachedItem) -> (r: CachedItem)
    ensures
        r == *c,
{
    CachedItem { item: c.item.copy(), fetched_ms: c.fetched_ms }
}

fn drop_source(items: &Vec<CachedItem>, source: &str) -> (r: Vec<CachedItem>)
    ensures
        cached_views(r@) == without_source(cached_views(items@), source@, items@.len() as int),
{
    let mut out: Vec<CachedItem> = Vec::new();
    let ghost views = cached_views(items@);
    let mut i: usize = 0;
    assert(cached_views(out@) =~= Seq::<CachedItemView>::empty());
    while i < items.len()
        invariant
            views == cached_views(items@),
            i <= items@.len(),
            cached_views(out@) == without_source(views, source@, i as int),
        decreases items@.len() - i,
    {
        let ghost before = out@;
        assert(views[i as int] == items@[i as int]@);
        if !same_text(items[i].item.source.as_str(), source) {
            out.push(dup(&items[i]));
            assert(cached_views(out@) =~= cached_views(before).push(views[i as int]));
        }
        i = i + 1;
    }
    out
}

fn drop_id(items: &Vec<CachedItem>, id: &str) -> (r: Vec<CachedItem>)
    ensures
        cached_views(r@) == without_id(cached_views(items@), id@, items@.len() as int),
{
    let mut out: Vec<CachedItem> = Vec::new();
    let ghost views = cached_views(items@);
    let mut i: usize = 0;
    assert(cached_views(out@) =~= Seq::<CachedItemView>::empty());
    while i < items.len()
        invariant
            views == cached_views(items@),
            i <= items@.len(),
            cached_views(out@) == without_id(views, id@, i as int),
        decreases items@.len() - i,
    {
        let ghost before = out@;
        assert(views[i as int] == items@[i as int]@);
        if !same_text(items[i].item.id.as_str(), id) {
            out.push(dup(&items[i]));
            assert(cached_views(out@) =~= cached_views(before).push(views[i as int]));
        }
        i = i + 1;
    }
    out
}

// ---- health -----------------------------------------------------------------

/// The index of the record of a source at or after `k`.
pub open spec fn health_place(sources: Seq<SourceHealthView>, source: Seq<char>, k: int) -> Option<
    int,
>
    decreases sources.len() - k,
{
    if k < 0 || k >= sources.len() {
        None
    } else if sources[k].source == source {
        Some(k)
    } else {
        health_place(sources, source, k + 1)
    }
}

/// The health of a source: what is recorded, or that of a source that was never
/// reached.
pub open spec fn health_of(sources: Seq<SourceHealthView>, source: Seq<char>) -> SourceHealthView {
    match health_place(sources, source, 0) {
        Some(k) => sources[k],
        None => fresh_health(source),
    }
}

/// The records with that of one source set.
pub open spec fn with_health(
    sources: Seq<SourceHealthView>,
    health: SourceHealthView,
) -> Seq<SourceHealthView> {
    match health_place(sources, health.source, 0) {
        Some(k) => sources.update(k, health),
        None => sources.push(health),
    }
}

proof fn lemma_health_place(sources: Seq<SourceHealthView>, source: Seq<char>, k: int)
    requires
        0 <= k <= sources.len(),
    ensures
        match health_place(sources, source, k) {
            Some(i) => k <= i < sources.len() && sources[i].source == source && forall|j: int|
                k <= j < i ==> (#[trigger] sources[j]).source != source,
            None => forall|j: int| k <= j < sources.len() ==> (#[trigger] sources[j]).source
                != source,
        },
    decreases sources.len() - k,
{
    if k < sources.len() && sources[k].source != source {
        lemma_health_place(sources, source, k + 1);
    }
}

/// The health of a source names that source.
pub proof fn health_is_of_its_source(sources: Seq<SourceHealthView>, source: Seq<char>)
    ensures
        health_of(sources, source).source == source,
{
    lemma_health_place(sources, source, 0);
}

/// The health of a source reads back as it was set, and setting it leaves that
/// of every other source.
pub proof fn health_reads_back(
    sources: Seq<SourceHealthView>,
    health: SourceHealthView,
    other: Seq<char>,
)
    ensures
        health_of(with_health(sources, health), health.source) == health,
        other != health.source ==> health_of(with_health(sources, health), other) == health_of(
            sources,
            other,
        ),
{
    let after = with_health(sources, health);
    lemma_health_place(sources, health.source, 0);
    lemma_health_place(sources, other, 0);
    lemma_health_place(after, health.source, 0);
    lemma_health_place(after, other, 0);
    let at = match health_place(sources, health.source, 0) {
        Some(k) => k,
        None => sources.len() as int,
    };
    assert(after[at] == health);
    assert forall|j: int| 0 <= j < sources.len() && j != at implies after[j] == sources[j] by {}
    match health_place(after, health.source, 0) {
        Some(i) => {
            if i != at {
                assert(after[i] == sources[i]);
            }
        },
        None => {},
    }
    if other != health.source {
        match health_place(after, other, 0) {
            Some(i) => {
                assert(after[i] == sources[i]);
                match health_place(sources, other, 0) {
                    Some(j) => {
                        assert(after[j] == sources[j]);
                    },
                    None => {},
                }
            },
            None => {
                match health_place(sources, other, 0) {
                    Some(j) => {
                        assert(after[j] == sources[j]);
                    },
                    None => {},
                }
            },
        }
    }
}

impl Archive {
    /// Replace the cached items of one source. The items of every other source
    /// stay, but for one that a new item shares its id with.
    pub fn replace_feed_items(&mut self, source: &str, items: &Vec<FeedItem>, now_ms: i64)
        ensures
            final(self)@ == (ArchiveView {
                items: replaced(old(self)@.items, source@, item_views(items@), now_ms),
                ..old(self)@
            }),
            wf(old(self)@) ==> wf(final(self)@),
    {
        let ghost new = item_views(items@);
        let mut kept = drop_source(&self.items, source);
        let ghost base = cached_views(kept@);
        let mut k: usize = 0;
        while k < items.len()
            invariant
                new == item_views(items@),
                k <= items@.len(),
                cached_views(kept@) == stored(base, new, now_ms, k as int),
            decreases items@.len() - k,
        {
            assert(new[k as int] == items@[k as int]@);
            let mut next = drop_id(&kept, items[k].id.as_str());
            let ghost before = next@;
            next.push(CachedItem { item: items[k].copy(), fetched_ms: now_ms });
            assert(cached_views(next@) =~= cached_views(before).push(
                CachedItemView { item: new[k as int], fetched_ms: now_ms },
            ));
            assert(cached_views(kept@).len() == kept@.len());
            kept = next;
            k = k + 1;
        }
        self.items = kept;
    }

    /// The newest `limit` cached items, newest first.
    pub fn read_feed_items(&self, limit: usize) -> (r: Vec<FeedItem>)
        ensures
            item_views(r@) == newest_items(self@.items, limit as int),
    {
        let ghost views = self@.items;
        let mut keys: Vec<(i64, i64)> = Vec::new();
        let mut i: usize = 0;
        while i < self.items.len()
            invariant
                views == cached_views(self.items@),
                i <= self.items@.len(),
                keys@ == cache_keys(views).take(i as int),
            decreases self.items@.len() - i,
        {
            let at: i64 = match self.items[i].item.ts_ms {
                Some(ts) => ts,
                None => self.items[i].fetched_ms,
            };
            keys.push((0i64, at));
            proof {
                assert(views[i as int] == self.items@[i as int]@);
                let all = cache_keys(views);
                assert(all.take(i + 1) =~= all.take(i as int).push(all[i as int]));
            }
            i = i + 1;
        }
        assert(keys@ =~= cache_keys(views));
        let order = rank(&keys);
        let mut out: Vec<FeedItem> = Vec::new();
        let mut k: usize = 0;
        while k < order.len() && k < limit
            invariant
                views == cached_views(self.items@),
                order@.len() == self.items@.len(),
                crate::order::as_ints(order@) == ranked(cache_keys(views)),
                forall|j: int| 0 <= j < order@.len() ==> (#[trigger] order@[j]) < self.items@.len(),
                k <= order@.len(),
                k <= limit,
                item_views(out@) == newest_items(views, k as int),
            decreases order@.len() - k,
        {
            let ghost before = out@;
            let item = self.items[order[k]].item.copy();
            let ghost shown = item@;
            proof {
                assert(crate::order::as_ints(order@)[k as int] == order@[k as int] as int);
                assert(views[order@[k as int] as int] == self.items@[order@[k as int] as int]@);
            }
            out.push(item);
            assert(item_views(out@) =~= item_views(before).push(shown));
            assert(item_views(out@) =~= newest_items(views, k + 1));
            k = k + 1;
        }
        assert(item_views(out@) =~= newest_items(views, limit as int));
        out
    }

    /// The health of a source; that of one never reached where none is recorded.
    pub fn feed_source(&self, source: &str) -> (r: SourceHealth)
        ensures
            r@ == health_of(self@.sources, source@),
    {
        let mut k: usize = 0;
        while k < self.sources.len()
            invariant
                k <= self.sources@.len(),
                health_place(self@.sources, source@, 0) == health_place(
                    self@.sources,
                    source@,
                    k as int,
                ),
            decreases self.sources@.len() - k,
        {
            assert(self@.sources[k as int] == self.sources@[k as int]@);
            if same_text(self.sources[k].source.as_str(), source) {
                return self.sources[k].copy();
            }
            k = k + 1;
        }
        SourceHealth::fresh(source)
    }

    /// Record the health of a source.
    pub fn set_feed_source(&mut self, health: &SourceHealth)
        ensures
            final(self)@ == (ArchiveView {
                sources: with_health(old(self)@.sources, health@),
                ..old(self)@
            }),
            wf(old(self)@) ==> wf(final(self)@),
    {
        let ghost start = self@;
        let ghost sources0 = self.sources@;
        let mut k: usize = 0;
        while k < self.sources.len()
            invariant
                start == old(self)@,
                self@ == start,
                self.sources@ == sources0,
                start.sources == health_views(sources0),
                k <= self.sources@.len(),
                health_place(start.sources, health@.source, 0) == health_place(
                    start.sources,
                    health@.source,
                    k as int,
                ),
            decreases self.sources@.len() - k,
        {
            assert(start.sources[k as int] == self.sources@[k as int]@);
            if same_text(self.sources[k].source.as_str(), health.source.as_str()) {
                self.sources.set(k, health.copy());
                assert(health_views(self.sources@) =~= health_views(sources0).update(
                    k as int,
                    health@,
                ));
                return;
            }
            k = k + 1;
        }
        self.sources.push(health.copy());
        assert(health_views(self.sources@) =~= health_views(sources0).push(health@));
    }

    /// The health of every source on record.
    pub fn all_feed_sources(&self) -> (r: Vec<SourceHealth>)
        ensures
            health_views(r@) == self@.sources,
    {
        let mut out: Vec<SourceHealth> = Vec::new();
        let mut k: usize = 0;
        assert(health_views(out@) =~= self@.sources.take(0));
        while k < self.sources.len()
            invariant
                k <= self.sources@.len(),
                health_views(out@) == self@.sources.take(k as int),
            decreases self.sources@.len() - k,
        {
            let ghost before = out@;
            out.push(self.sources[k].copy());
            proof {
                assert(self@.sources[k as int] == self.sources@[k as int]@);
                assert(health_views(out@) =~= health_views(before).push(
                    self@.sources[k as int],
                ));
                assert(health_views(out@) =~= self@.sources.take(k + 1));
            }
            k = k + 1;
        }
        assert(self@.sources.take(k as int) =~= self@.sources);
        out
    }
}

// ---- what replacing keeps ---------------------------------------------------

/// Whether an item is among the first `k`.
pub open spec fn among(items: Seq<CachedItemView>, x: CachedItemView, k: int) -> bool
    decreases k,
{
    if k <= 0 {
        false
    } else {
        items[k - 1] == x || among(items, x, k - 1)
    }
}

/// Whether a cache holds an item.
pub open spec fn holds(items: Seq<CachedItemView>, x: CachedItemView) -> bool {
    among(items, x, items.len() as int)
}

proof fn lemma_among_push(items: Seq<CachedItemView>, y: CachedItemView, x: CachedItemView, k: int)
    requires
        0 <= k <= items.len(),
    ensures
        among(items.push(y), x, k) == among(items, x, k),
    decreases k,
{
    if k > 0 {
        lemma_among_push(items, y, x, k - 1);
    }
}

proof fn lemma_holds_push(items: Seq<CachedItemView>, y: CachedItemView, x: CachedItemView)
    ensures
        holds(items.push(y), x) == (holds(items, x) || x == y),
{
    lemma_among_push(items, y, x, items.len() as int);
    assert(items.push(y)[items.len() as int] == y);
}

proof fn lemma_without_source(
    items: Seq<CachedItemView>,
    source: Seq<char>,
    x: CachedItemView,
    k: int,
)
    requires
        0 <= k <= items.len(),
    ensures
        holds(without_source(items, source, k), x) == (among(items, x, k) && x.item.source
            != source),
    decreases k,
{
    if k > 0 {
        lemma_without_source(items, source, x, k - 1);
        lemma_holds_push(without_source(items, source, k - 1), items[k - 1], x);
    }
}

proof fn lemma_without_id(items: Seq<CachedItemView>, id: Seq<char>, x: CachedItemView, k: int)
    requires
        0 <= k <= items.len(),
    ensures
        holds(without_id(items, id, k), x) == (among(items, x, k) && x.item.id != id),
    decreases k,
{
    if k > 0 {
        lemma_without_id(items, id, x, k - 1);
        lemma_holds_push(without_id(items, id, k - 1), items[k - 1], x);
    }
}

/// The last of the first `k` items that has an id.
pub open spec fn last_with_id(new: Seq<FeedItemView>, id: Seq<char>, k: int) -> Option<FeedItemView>
    decreases k,
{
    if k <= 0 {
        None
    } else if new[k - 1].id == id {
        Some(new[k - 1])
    } else {
        last_with_id(new, id, k - 1)
    }
}

proof fn lemma_stored(
    items: Seq<CachedItemView>,
    new: Seq<FeedItemView>,
    now_ms: i64,
    x: CachedItemView,
    k: int,
)
    requires
        0 <= k <= new.len(),
    ensures
        holds(stored(items, new, now_ms, k), x) == (match last_with_id(new, x.item.id, k) {
            Some(item) => x.item == item && x.fetched_ms == now_ms,
            None => holds(items, x),
        }),
    decreases k,
{
    if k > 0 {
        lemma_stored(items, new, now_ms, x, k - 1);
        let before = stored(items, new, now_ms, k - 1);
        let id = new[k - 1].id;
        let thin = without_id(before, id, before.len() as int);
        lemma_without_id(before, id, x, before.len() as int);
        lemma_holds_push(thin, CachedItemView { item: new[k - 1], fetched_ms: now_ms }, x);
    }
}

/// After the items of a source were replaced, the cache holds of each id that
/// the source reports the item that it reported last, and of every other id what
/// it held from other sources. So an item that the source no longer reports is
/// gone, and what came from other sources stays.
pub proof fn replacing_is_per_source(
    items: Seq<CachedItemView>,
    source: Seq<char>,
    new: Seq<FeedItemView>,
    now_ms: i64,
    x: CachedItemView,
)
    ensures
        holds(replaced(items, source, new, now_ms), x) == (match last_with_id(
            new,
            x.item.id,
            new.len() as int,
        ) {
            Some(item) => x.item == item && x.fetched_ms == now_ms,
            None => holds(items, x) && x.item.source != source,
        }),
{
    lemma_without_source(items, source, x, items.len() as int);
    lemma_stored(
        without_source(items, source, items.len() as int),
        new,
        now_ms,
        x,
        new.len() as int,
    );
}

/// A source without a record has never failed, was never synced, has no tag and is
/// not cooling down.
pub proof fn unrecorded_sources_are_fresh(sources: Seq<SourceHealthView>, source: Seq<char>)
    requires
        forall|i: int| 0 <= i < sources.len() ==> (#[trigger] sources[i]).source != source,
    ensures
        ({
            let h = health_of(sources, source);
            &&& h.source == source && h.failures == 0 && h.last_status.len() == 0
            &&& h.last_sync_ms is None && h.etag is None && h.circuit_until_ms is None
        }),
{
    lemma_health_place(sources, source, 0);
}

} // verus!
