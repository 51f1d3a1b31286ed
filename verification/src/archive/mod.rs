//! The local ad archive: every creative that was shown, every rotation of it,
//! the lifecycle events, and the cached feed.
//!
//! A rotation is recorded once, by its timestamp, which makes capture
//! idempotent: capturing on a tight loop never double counts.

use vstd::prelude::*;

use crate::feed::{FeedItem, FeedItemView, SourceHealth, SourceHealthView};
use crate::model::{advertiser_of, creative_id, AdRow, CliAd};
use crate::sources::{event_views, LogEvent, LogEventView};
use crate::text::{opt_view, same_text};

pub mod cache;
pub mod laws;
pub mod queries;

pub use queries::{AdvertiserStat, KillswitchEvent, LinkRow, Stats};

verus! {

/// One rotation of a creative.
#[derive(Debug)]
pub struct Sighting {
    pub ad_id: String,
    /// The extension's own timestamp of the rotation.
    pub rotation_ts: i64,
    /// When it was captured.
    pub observed_ms: i64,
}

/// A feed item with the time of the fetch that brought it.
#[derive(Debug)]
pub struct CachedItem {
    pub item: FeedItem,
    pub fetched_ms: i64,
}

/// The archive.
#[derive(Debug)]
pub struct Archive {
    /// One row for each creative, in the order of first capture.
    pub ads: Vec<AdRow>,
    /// Every rotation, in the order of capture.
    pub sightings: Vec<Sighting>,
    /// The lifecycle events, in the order of ingestion.
    pub events: Vec<LogEvent>,
    /// The hours since the epoch in which captures were running.
    pub hours: Vec<i64>,
    /// Small named values.
    pub meta: Vec<(String, String)>,
    pub items: Vec<CachedItem>,
    pub sources: Vec<SourceHealth>,
}

/// What a capture pass did.
#[derive(Debug)]
pub struct CaptureReport {
    pub advertiser: Option<String>,
    pub new_sighting: bool,
    pub new_events: usize,
}

// ---- the model --------------------------------------------------------------

/// What an ad row holds.
pub struct AdRowView {
    pub id: Seq<char>,
    pub advertiser: Seq<char>,
    pub ad_text: Seq<char>,
    pub click_url: Option<Seq<char>>,
    pub first_seen_ms: i64,
    pub last_seen_ms: i64,
    pub times_seen: int,
}

impl View for AdRow {
    type V = AdRowView;

    open spec fn view(&self) -> AdRowView {
        AdRowView {
            id: self.id@,
            advertiser: self.advertiser@,
            ad_text: self.ad_text@,
            click_url: opt_view(self.click_url),
            first_seen_ms: self.first_seen_ms,
            last_seen_ms: self.last_seen_ms,
            times_seen: self.times_seen as int,
        }
    }
}

/// What a sighting holds.
pub struct SightingView {
    pub ad_id: Seq<char>,
    pub rotation_ts: i64,
    pub observed_ms: i64,
}

impl View for Sighting {
    type V = SightingView;

    open spec fn view(&self) -> SightingView {
        SightingView {
            ad_id: self.ad_id@,
            rotation_ts: self.rotation_ts,
            observed_ms: self.observed_ms,
        }
    }
}

/// What a cached item holds.
pub struct CachedItemView {
    pub item: FeedItemView,
    pub fetched_ms: i64,
}

impl View for CachedItem {
    type V = CachedItemView;

    open spec fn view(&self) -> CachedItemView {
        CachedItemView { item: self.item@, fetched_ms: self.fetched_ms }
    }
}

/// What an archive holds.
pub struct ArchiveView {
    pub ads: Seq<AdRowView>,
    pub sightings: Seq<SightingView>,
    pub events: Seq<LogEventView>,
    pub hours: Seq<i64>,
    pub meta: Seq<(Seq<char>, Seq<char>)>,
    pub items: Seq<CachedItemView>,
    pub sources: Seq<SourceHealthView>,
}

/// What a sequence of ad rows holds.
pub open spec fn ad_views(v: Seq<AdRow>) -> Seq<AdRowView> {
    Seq::new(v.len(), |i: int| v[i]@)
}

/// What a sequence of sightings holds.
pub open spec fn sighting_views(v: Seq<Sighting>) -> Seq<SightingView> {
    Seq::new(v.len(), |i: int| v[i]@)
}

/// What a sequence of cached items holds.
pub open spec fn cached_views(v: Seq<CachedItem>) -> Seq<CachedItemView> {
    Seq::new(v.len(), |i: int| v[i]@)
}

/// What a sequence of named values holds.
pub open spec fn meta_views(v: Seq<(String, String)>) -> Seq<(Seq<char>, Seq<char>)> {
    Seq::new(v.len(), |i: int| (v[i].0@, v[i].1@))
}

impl View for Archive {
    type V = ArchiveView;

    open spec fn view(&self) -> ArchiveView {
        ArchiveView {
            ads: ad_views(self.ads@),
            sightings: sighting_views(self.sightings@),
            events: event_views(self.events@),
            hours: self.hours@,
            meta: meta_views(self.meta@),
            items: cached_views(self.items@),
            sources: crate::feed::health_views(self.sources@),
        }
    }
}

/// An archive without anything in it.
pub open spec fn empty_archive() -> ArchiveView {
    ArchiveView {
        ads: Seq::empty(),
        sightings: Seq::empty(),
        events: Seq::empty(),
        hours: Seq::empty(),
        meta: Seq::empty(),
        items: Seq::empty(),
        sources: Seq::empty(),
    }
}

/// The index of the first row of a creative at or after `k`.
pub open spec fn find_ad(ads: Seq<AdRowView>, id: Seq<char>, k: int) -> Option<int>
    decreases ads.len() - k,
{
    if k < 0 || k >= ads.len() {
        None
    } else if ads[k].id == id {
        Some(k)
    } else {
        find_ad(ads, id, k + 1)
    }
}

/// Whether a rotation of a creative is recorded.
pub open spec fn is_recorded(sightings: Seq<SightingView>, id: Seq<char>, rotation_ts: i64) -> bool {
    exists|i: int|
        0 <= i < sightings.len() && (#[trigger] sightings[i]).ad_id == id
            && sightings[i].rotation_ts == rotation_ts
}

/// Whether an archive has room for a rotation: it is recorded already, or one more
/// sighting can be counted.
pub open spec fn has_room(
    a: ArchiveView,
    ad_text: Seq<char>,
    click_url: Option<Seq<char>>,
    rotation_ts: i64,
) -> bool {
    is_recorded(a.sightings, creative_id(click_url, ad_text), rotation_ts) || a.sightings.len()
        < i64::MAX
}

/// How many of the first `k` sightings are of a creative.
pub open spec fn rotations_of(sightings: Seq<SightingView>, id: Seq<char>, k: int) -> int
    decreases k,
{
    if k <= 0 {
        0
    } else {
        rotations_of(sightings, id, k - 1) + if sightings[k - 1].ad_id == id {
            1int
        } else {
            0int
        }
    }
}

/// How often the first `k` rows say that they were seen, in all.
pub open spec fn total_times(ads: Seq<AdRowView>, k: int) -> int
    decreases k,
{
    if k <= 0 {
        0
    } else {
        total_times(ads, k - 1) + ads[k - 1].times_seen
    }
}

/// What every archive keeps: one row for each creative, one sighting for each
/// rotation of a creative that has a row, and on each row the number of the
/// sightings of its creative.
pub open spec fn wf(a: ArchiveView) -> bool {
    &&& forall|i: int, j: int|
        #![trigger a.ads[i], a.ads[j]]
        0 <= i < j < a.ads.len() ==> a.ads[i].id != a.ads[j].id
    &&& forall|i: int|
        0 <= i < a.sightings.len() ==> find_ad(a.ads, (#[trigger] a.sightings[i]).ad_id, 0) is Some
    &&& forall|i: int, j: int|
        #![trigger a.sightings[i], a.sightings[j]]
        0 <= i < j < a.sightings.len() ==> a.sightings[i].ad_id != a.sightings[j].ad_id
            || a.sightings[i].rotation_ts != a.sightings[j].rotation_ts
    &&& forall|i: int|
        #![trigger a.ads[i]]
        0 <= i < a.ads.len() ==> a.ads[i].times_seen >= 1 && a.ads[i].times_seen == rotations_of(
            a.sightings,
            a.ads[i].id,
            a.sightings.len() as int,
        )
    &&& total_times(a.ads, a.ads.len() as int) == a.sightings.len()
    &&& a.sightings.len() <= i64::MAX
}

/// The archive after a capture: unchanged where the rotation is recorded,
/// otherwise with one more sighting, counted on the row of its creative.
pub open spec fn captured(
    a: ArchiveView,
    ad_text: Seq<char>,
    click_url: Option<Seq<char>>,
    rotation_ts: i64,
    now_ms: i64,
) -> ArchiveView {
    let id = creative_id(click_url, ad_text);
    if is_recorded(a.sightings, id, rotation_ts) {
        a
    } else {
        ArchiveView {
            ads: match find_ad(a.ads, id, 0) {
                Some(k) => a.ads.update(
                    k,
                    AdRowView {
                        last_seen_ms: now_ms,
                        times_seen: a.ads[k].times_seen + 1,
                        ..a.ads[k]
                    },
                ),
                None => a.ads.push(
                    AdRowView {
                        id,
                        advertiser: advertiser_of(ad_text, click_url),
                        ad_text,
                        click_url,
                        first_seen_ms: now_ms,
                        last_seen_ms: now_ms,
                        times_seen: 1,
                    },
                ),
            },
            sightings: a.sightings.push(
                SightingView { ad_id: id, rotation_ts, observed_ms: now_ms },
            ),
            ..a
        }
    }
}

pub(crate) proof fn lemma_find_ad(ads: Seq<AdRowView>, id: Seq<char>, k: int)
    requires
        0 <= k <= ads.len(),
    ensures
        match find_ad(ads, id, k) {
            Some(i) => k <= i < ads.len() && ads[i].id == id && forall|j: int|
                k <= j < i ==> (#[trigger] ads[j]).id != id,
            None => forall|j: int| k <= j < ads.len() ==> (#[trigger] ads[j]).id != id,
        },
    decreases ads.len() - k,
{
    if k < ads.len() && ads[k].id != id {
        lemma_find_ad(ads, id, k + 1);
    }
}

proof fn lemma_find_ad_is_some(ads: Seq<AdRowView>, id: Seq<char>, k: int)
    requires
        0 <= k < ads.len(),
        ads[k].id == id,
    ensures
        find_ad(ads, id, 0) is Some,
{
    lemma_find_ad(ads, id, 0);
}

proof fn lemma_rotations_prefix(s: Seq<SightingView>, x: SightingView, id: Seq<char>, k: int)
    requires
        0 <= k <= s.len(),
    ensures
        rotations_of(s.push(x), id, k) == rotations_of(s, id, k),
    decreases k,
{
    if k > 0 {
        lemma_rotations_prefix(s, x, id, k - 1);
        assert(s.push(x)[k - 1] == s[k - 1]);
    }
}

proof fn lemma_rotations_nonneg(s: Seq<SightingView>, id: Seq<char>, k: int)
    ensures
        0 <= rotations_of(s, id, k),
        k >= 0 ==> rotations_of(s, id, k) <= k,
    decreases k,
{
    if k > 0 {
        lemma_rotations_nonneg(s, id, k - 1);
    }
}

proof fn lemma_no_rotations(s: Seq<SightingView>, id: Seq<char>, k: int)
    requires
        0 <= k <= s.len(),
        forall|i: int| 0 <= i < s.len() ==> (#[trigger] s[i]).ad_id != id,
    ensures
        rotations_of(s, id, k) == 0,
    decreases k,
{
    if k > 0 {
        lemma_no_rotations(s, id, k - 1);
    }
}

proof fn lemma_total_prefix(x: Seq<AdRowView>, y: Seq<AdRowView>, k: int)
    requires
        0 <= k <= x.len(),
        k <= y.len(),
        forall|i: int| 0 <= i < k ==> (#[trigger] x[i]).times_seen == y[i].times_seen,
    ensures
        total_times(x, k) == total_times(y, k),
    decreases k,
{
    if k > 0 {
        lemma_total_prefix(x, y, k - 1);
        assert(x[k - 1].times_seen == y[k - 1].times_seen);
    }
}

proof fn lemma_total_update(ads: Seq<AdRowView>, i: int, row: AdRowView, k: int)
    requires
        0 <= i < ads.len(),
        0 <= k <= ads.len(),
        row.times_seen == ads[i].times_seen + 1,
    ensures
        total_times(ads.update(i, row), k) == total_times(ads, k) + if i < k {
            1int
        } else {
            0int
        },
    decreases k,
{
    if k > 0 {
        lemma_total_update(ads, i, row, k - 1);
    }
}

/// The rows of an archive say in all how many sightings it has, and no row says
/// more.
pub proof fn lemma_row_within_total(ads: Seq<AdRowView>, i: int, k: int)
    requires
        0 <= i < k <= ads.len(),
        forall|j: int| 0 <= j < ads.len() ==> (#[trigger] ads[j]).times_seen >= 1,
    ensures
        ads[i].times_seen <= total_times(ads, k),
        k <= total_times(ads, k),
    decreases k,
{
    assert(ads[k - 1].times_seen >= 1);
    if i < k - 1 {
        lemma_row_within_total(ads, i, k - 1);
    } else {
        lemma_total_at_least(ads, k - 1);
    }
}

pub(crate) proof fn lemma_total_at_least(ads: Seq<AdRowView>, k: int)
    requires
        0 <= k <= ads.len(),
        forall|j: int| 0 <= j < ads.len() ==> (#[trigger] ads[j]).times_seen >= 1,
    ensures
        k <= total_times(ads, k),
    decreases k,
{
    if k > 0 {
        lemma_total_at_least(ads, k - 1);
        assert(ads[k - 1].times_seen >= 1);
    }
}

/// Every capture keeps what an archive keeps.
pub proof fn capture_keeps_wf(
    a: ArchiveView,
    ad_text: Seq<char>,
    click_url: Option<Seq<char>>,
    rotation_ts: i64,
    now_ms: i64,
)
    requires
        wf(a),
        has_room(a, ad_text, click_url, rotation_ts),
    ensures
        wf(captured(a, ad_text, click_url, rotation_ts, now_ms)),
{
    let id = creative_id(click_url, ad_text);
    let b = captured(a, ad_text, click_url, rotation_ts, now_ms);
    if !is_recorded(a.sightings, id, rotation_ts) {
        let n = a.sightings.len() as int;
        let x = SightingView { ad_id: id, rotation_ts, observed_ms: now_ms };
        lemma_find_ad(a.ads, id, 0);
        assert(b.sightings == a.sightings.push(x));
        assert forall|i: int, j: int|
            #![trigger b.ads[i], b.ads[j]]
            0 <= i < j < b.ads.len() implies b.ads[i].id != b.ads[j].id by {
            if i < a.ads.len() {
                assert(b.ads[i].id == a.ads[i].id);
            }
            if j < a.ads.len() {
                assert(b.ads[j].id == a.ads[j].id);
            }
        }
        assert forall|i: int| 0 <= i < b.sightings.len() implies find_ad(
            b.ads,
            (#[trigger] b.sightings[i]).ad_id,
            0,
        ) is Some by {
            if i < n {
                assert(b.sightings[i] == a.sightings[i]);
                lemma_find_ad(a.ads, a.sightings[i].ad_id, 0);
                let k = find_ad(a.ads, a.sightings[i].ad_id, 0)->0;
                assert(b.ads[k].id == a.ads[k].id);
                lemma_find_ad_is_some(b.ads, a.sightings[i].ad_id, k);
            } else {
                match find_ad(a.ads, id, 0) {
                    Some(k) => {
                        lemma_find_ad_is_some(b.ads, id, k);
                    },
                    None => {
                        lemma_find_ad_is_some(b.ads, id, a.ads.len() as int);
                    },
                }
            }
        }
        assert forall|i: int, j: int|
            #![trigger b.sightings[i], b.sightings[j]]
            0 <= i < j < b.sightings.len() implies b.sightings[i].ad_id != b.sightings[j].ad_id
            || b.sightings[i].rotation_ts != b.sightings[j].rotation_ts by {
            assert(b.sightings[i] == a.sightings[i]);
            if j < n {
                assert(b.sightings[j] == a.sightings[j]);
            }
        }
        assert forall|i: int|
            #![trigger b.ads[i]]
            0 <= i < b.ads.len() implies b.ads[i].times_seen >= 1 && b.ads[i].times_seen
            == rotations_of(b.sightings, b.ads[i].id, b.sightings.len() as int) by {
            let row = b.ads[i].id;
            lemma_rotations_prefix(a.sightings, x, row, n);
            assert(b.sightings[n] == x);
            if i < a.ads.len() {
                assert(a.ads[i].times_seen >= 1);
                assert(a.ads[i].id == row);
                match find_ad(a.ads, id, 0) {
                    Some(k) => {
                        if k != i {
                            assert(a.ads[k].id == id);
                            assert(a.ads[i].id != a.ads[k].id);
                        }
                    },
                    None => {
                        assert(a.ads[i].id != id);
                    },
                }
            } else {
                assert forall|j: int| 0 <= j < a.sightings.len() implies (
                #[trigger] a.sightings[j]).ad_id != id by {
                    lemma_find_ad(a.ads, a.sightings[j].ad_id, 0);
                }
                lemma_no_rotations(a.sightings, id, n);
            }
        }
        match find_ad(a.ads, id, 0) {
            Some(k) => {
                lemma_total_update(a.ads, k, b.ads[k], a.ads.len() as int);
            },
            None => {
                lemma_total_prefix(a.ads, b.ads, a.ads.len() as int);
            },
        }
    }
}

/// A captured rotation is on record.
pub proof fn capture_records(
    a: ArchiveView,
    ad_text: Seq<char>,
    click_url: Option<Seq<char>>,
    rotation_ts: i64,
    now_ms: i64,
)
    ensures
        is_recorded(
            captured(a, ad_text, click_url, rotation_ts, now_ms).sightings,
            creative_id(click_url, ad_text),
            rotation_ts,
        ),
{
    let id = creative_id(click_url, ad_text);
    let b = captured(a, ad_text, click_url, rotation_ts, now_ms);
    if !is_recorded(a.sightings, id, rotation_ts) {
        let n = a.sightings.len() as int;
        assert(b.sightings[n].ad_id == id && b.sightings[n].rotation_ts == rotation_ts);
    }
}

/// Capturing the same rotation again, at whatever time, changes nothing.
pub proof fn capture_is_idempotent(
    a: ArchiveView,
    ad_text: Seq<char>,
    click_url: Option<Seq<char>>,
    rotation_ts: i64,
    now_ms: i64,
    later_ms: i64,
)
    ensures
        captured(
            captured(a, ad_text, click_url, rotation_ts, now_ms),
            ad_text,
            click_url,
            rotation_ts,
            later_ms,
        ) == captured(a, ad_text, click_url, rotation_ts, now_ms),
{
    capture_records(a, ad_text, click_url, rotation_ts, now_ms);
}

/// Two rotations of one creative are one row, seen twice.
pub proof fn rotations_of_a_creative_share_a_row(
    a: ArchiveView,
    ad_text: Seq<char>,
    click_url: Option<Seq<char>>,
    first_ts: i64,
    second_ts: i64,
    now_ms: i64,
    later_ms: i64,
)
    requires
        wf(a),
        first_ts != second_ts,
        !is_recorded(a.sightings, creative_id(click_url, ad_text), first_ts),
        !is_recorded(a.sightings, creative_id(click_url, ad_text), second_ts),
    ensures
        ({
            let id = creative_id(click_url, ad_text);
            let b = captured(a, ad_text, click_url, first_ts, now_ms);
            let c = captured(b, ad_text, click_url, second_ts, later_ms);
            &&& c.ads.len() == b.ads.len()
            &&& find_ad(c.ads, id, 0) is Some
            &&& c.ads[find_ad(c.ads, id, 0)->0].times_seen == b.ads[find_ad(
                b.ads,
                id,
                0,
            )->0].times_seen + 1
            &&& c.sightings.len() == a.sightings.len() + 2
        }),
{
    let id = creative_id(click_url, ad_text);
    let b = captured(a, ad_text, click_url, first_ts, now_ms);
    let c = captured(b, ad_text, click_url, second_ts, later_ms);
    lemma_find_ad(a.ads, id, 0);
    lemma_find_ad(b.ads, id, 0);
    lemma_find_ad(c.ads, id, 0);
    match find_ad(a.ads, id, 0) {
        Some(k) => {
            assert(b.ads[k].id == id);
        },
        None => {
            assert(b.ads[a.ads.len() as int].id == id);
        },
    }
    if is_recorded(b.sightings, id, second_ts) {
        let i = choose|i: int|
            0 <= i < b.sightings.len() && (#[trigger] b.sightings[i]).ad_id == id
                && b.sightings[i].rotation_ts == second_ts;
        if i < a.sightings.len() {
            assert(b.sightings[i] == a.sightings[i]);
        }
        assert(false);
    }
    let k = find_ad(b.ads, id, 0)->0;
    assert(c.ads[k].id == id);
    let m = find_ad(c.ads, id, 0)->0;
    if m < k {
        assert(c.ads[m] == b.ads[m]);
    }
}

// ---- capture ----------------------------------------------------------------

impl Archive {
    /// An archive that lives in memory, without anything in it.
    pub fn open_in_memory() -> (r: Archive)
        ensures
            r@ == empty_archive(),
            wf(r@),
    {
        let r = Archive {
            ads: Vec::new(),
            sightings: Vec::new(),
            events: Vec::new(),
            hours: Vec::new(),
            meta: Vec::new(),
            items: Vec::new(),
            sources: Vec::new(),
        };
        assert(ad_views(r.ads@) =~= Seq::<AdRowView>::empty());
        assert(sighting_views(r.sightings@) =~= Seq::<SightingView>::empty());
        assert(event_views(r.events@) =~= Seq::<LogEventView>::empty());
        assert(meta_views(r.meta@) =~= Seq::<(Seq<char>, Seq<char>)>::empty());
        assert(cached_views(r.items@) =~= Seq::<CachedItemView>::empty());
        assert(crate::feed::health_views(r.sources@) =~= Seq::<SourceHealthView>::empty());
        r
    }

    fn row_of(&self, id: &str) -> (r: Option<usize>)
        ensures
            match r {
                Some(k) => find_ad(self@.ads, id@, 0) == Some(k as int) && k < self.ads@.len(),
                None => find_ad(self@.ads, id@, 0) is None,
            },
    {
        let mut k: usize = 0;
        while k < self.ads.len()
            invariant
                k <= self.ads@.len(),
                find_ad(self@.ads, id@, 0) == find_ad(self@.ads, id@, k as int),
            decreases self.ads@.len() - k,
        {
            assert(self@.ads[k as int] == self.ads@[k as int]@);
            if same_text(self.ads[k].id.as_str(), id) {
                return Some(k);
            }
            k = k + 1;
        }
        None
    }

    fn recorded(&self, id: &str, rotation_ts: i64) -> (r: bool)
        ensures
            r == is_recorded(self@.sightings, id@, rotation_ts),
    {
        let mut i: usize = 0;
        while i < self.sightings.len()
            invariant
                i <= self.sightings@.len(),
                forall|k: int|
                    0 <= k < i ==> (#[trigger] self@.sightings[k]).ad_id != id@
                        || self@.sightings[k].rotation_ts != rotation_ts,
            decreases self.sightings@.len() - i,
        {
            let s = &self.sightings[i];
            assert(self@.sightings[i as int] == s@);
            if s.rotation_ts == rotation_ts && same_text(s.ad_id.as_str(), id) {
                return true;
            }
            i = i + 1;
        }
        false
    }

    /// Record the current ad, once for each rotation. Returns whether this is a
    /// rotation that was not recorded before.
    pub fn capture_ad(&mut self, ad: &CliAd, now_ms: i64) -> (r: bool)
        requires
            wf(old(self)@),
            has_room(old(self)@, ad.ad_text@, opt_view(ad.click_url), ad.ts),
        ensures
            final(self)@ == captured(
                old(self)@,
                ad.ad_text@,
                opt_view(ad.click_url),
                ad.ts,
                now_ms,
            ),
            wf(final(self)@),
            r == !is_recorded(
                old(self)@.sightings,
                creative_id(opt_view(ad.click_url), ad.ad_text@),
                ad.ts,
            ),
    {
        proof {
            capture_keeps_wf(self@, ad.ad_text@, opt_view(ad.click_url), ad.ts, now_ms);
        }
        let ghost start = self@;
        let id = ad.id();
        if self.recorded(id.as_str(), ad.ts) {
            return false;
        }
        let ghost ads0 = self.ads@;
        match self.row_of(id.as_str()) {
            Some(k) => {
                proof {
                    assert(self@.ads[k as int] == self.ads@[k as int]@);
                    lemma_row_within_total(self@.ads, k as int, self@.ads.len() as int);
                }
                let row = AdRow {
                    id: self.ads[k].id.clone(),
                    advertiser: self.ads[k].advertiser.clone(),
                    ad_text: self.ads[k].ad_text.clone(),
                    click_url: crate::text::clone_opt(&self.ads[k].click_url),
                    first_seen_ms: self.ads[k].first_seen_ms,
                    last_seen_ms: now_ms,
                    times_seen: self.ads[k].times_seen + 1,
                };
                let ghost shown = row@;
                self.ads.set(k, row);
                assert(ad_views(self.ads@) =~= ad_views(ads0).update(k as int, shown));
            },
            None => {
                let row = AdRow {
                    id: id.clone(),
                    advertiser: ad.advertiser(),
                    ad_text: ad.ad_text.clone(),
                    click_url: crate::text::clone_opt(&ad.click_url),
                    first_seen_ms: now_ms,
                    last_seen_ms: now_ms,
                    times_seen: 1,
                };
                let ghost shown = row@;
                self.ads.push(row);
                assert(ad_views(self.ads@) =~= ad_views(ads0).push(shown));
            },
        }
        let ghost seen0 = self.sightings@;
        let sighting = Sighting { ad_id: id, rotation_ts: ad.ts, observed_ms: now_ms };
        let ghost shown = sighting@;
        self.sightings.push(sighting);
        assert(sighting_views(self.sightings@) =~= sighting_views(seen0).push(shown));
        true
    }

    /// Mark the hour of `at_ms` as one in which captures were running.
    pub fn record_observation(&mut self, at_ms: i64)
        ensures
            final(self)@ == observed(old(self)@, at_ms),
            wf(old(self)@) ==> wf(final(self)@),
    {
        let hour = hour_of(at_ms);
        let mut i: usize = 0;
        while i < self.hours.len()
            invariant
                self@ == old(self)@,
                hour == hour_number(at_ms),
                i <= self.hours@.len(),
                forall|k: int| 0 <= k < i ==> self.hours@[k] != hour,
            decreases self.hours@.len() - i,
        {
            if self.hours[i] == hour {
                assert(self.hours@.contains(hour));
                return;
            }
            i = i + 1;
        }
        self.hours.push(hour);
    }

    /// Ingest lifecycle events. Returns how many.
    pub fn record_events(&mut self, events: &Vec<LogEvent>) -> (r: usize)
        ensures
            final(self)@ == (ArchiveView {
                events: old(self)@.events + event_views(events@),
                ..old(self)@
            }),
            wf(old(self)@) ==> wf(final(self)@),
            r == events@.len(),
    {
        let ghost start = self@;
        let mut i: usize = 0;
        assert(event_views(self.events@) =~= start.events + event_views(events@).take(0));
        while i < events.len()
            invariant
                i <= events@.len(),
                self@ == (ArchiveView {
                    events: start.events + event_views(events@).take(i as int),
                    ..start
                }),
            decreases events@.len() - i,
        {
            let ghost before = self.events@;
            self.events.push(events[i].copy());
            proof {
                assert(event_views(self.events@) =~= event_views(before).push(
                    events@[i as int]@,
                ));
                assert(event_views(self.events@) =~= start.events + event_views(events@).take(
                    i + 1,
                ));
            }
            i = i + 1;
        }
        assert(event_views(events@).take(i as int) =~= event_views(events@));
        events.len()
    }

    /// The value of a named entry.
    pub fn meta_get(&self, key: &str) -> (r: Option<String>)
        ensures
            opt_view(r) == meta_value(self@.meta, key@, 0),
    {
        let mut i: usize = 0;
        while i < self.meta.len()
            invariant
                i <= self.meta@.len(),
                meta_value(self@.meta, key@, 0) == meta_value(self@.meta, key@, i as int),
            decreases self.meta@.len() - i,
        {
            if same_text(self.meta[i].0.as_str(), key) {
                return Some(self.meta[i].1.clone());
            }
            i = i + 1;
        }
        None
    }

    /// Set the value of a named entry.
    pub fn meta_set(&mut self, key: &str, value: &str)
        ensures
            final(self)@ == (ArchiveView {
                meta: with_meta(old(self)@.meta, key@, value@),
                ..old(self)@
            }),
            wf(old(self)@) ==> wf(final(self)@),
    {
        let ghost start = self@;
        let ghost meta0 = self.meta@;
        let mut i: usize = 0;
        while i < self.meta.len()
            invariant
                start == old(self)@,
                self@ == start,
                self.meta@ == meta0,
                start.meta == meta_views(meta0),
                i <= self.meta@.len(),
                meta_place(start.meta, key@, 0) == meta_place(start.meta, key@, i as int),
            decreases self.meta@.len() - i,
        {
            if same_text(self.meta[i].0.as_str(), key) {
                self.meta.set(i, (key.to_owned(), value.to_owned()));
                assert(meta_views(self.meta@) =~= meta_views(meta0).update(
                    i as int,
                    (key@, value@),
                ));
                return;
            }
            i = i + 1;
        }
        self.meta.push((key.to_owned(), value.to_owned()));
        assert(meta_views(self.meta@) =~= meta_views(meta0).push((key@, value@)));
    }
}

/// The milliseconds of an hour.
pub const HOUR_MS: i64 = 3_600_000;

/// The hour since the epoch that an instant lies in.
pub open spec fn hour_number(ms: i64) -> int {
    ms as int / 3_600_000
}

/// The hour since the epoch that `ms` lies in.
pub fn hour_of(ms: i64) -> (r: i64)
    ensures
        r == hour_number(ms),
        -3_000_000_000_000 < r < 3_000_000_000_000,
{
    if ms >= 0 {
        ms / HOUR_MS
    } else {
        -((-(ms + 1)) / HOUR_MS) - 1
    }
}

/// The archive with the hour of an instant marked as observed.
pub open spec fn observed(a: ArchiveView, at_ms: i64) -> ArchiveView {
    let hour = hour_number(at_ms) as i64;
    if a.hours.contains(hour) {
        a
    } else {
        ArchiveView { hours: a.hours.push(hour), ..a }
    }
}

/// The value of the first entry of a name at or after `k`.
pub open spec fn meta_value(
    meta: Seq<(Seq<char>, Seq<char>)>,
    key: Seq<char>,
    k: int,
) -> Option<Seq<char>>
    decreases meta.len() - k,
{
    if k < 0 || k >= meta.len() {
        None
    } else if meta[k].0 == key {
        Some(meta[k].1)
    } else {
        meta_value(meta, key, k + 1)
    }
}

/// The index of the first entry of a name at or after `k`.
pub open spec fn meta_place(
    meta: Seq<(Seq<char>, Seq<char>)>,
    key: Seq<char>,
    k: int,
) -> Option<int>
    decreases meta.len() - k,
{
    if k < 0 || k >= meta.len() {
        None
    } else if meta[k].0 == key {
        Some(k)
    } else {
        meta_place(meta, key, k + 1)
    }
}

/// The entries with one of them set.
pub open spec fn with_meta(
    meta: Seq<(Seq<char>, Seq<char>)>,
    key: Seq<char>,
    value: Seq<char>,
) -> Seq<(Seq<char>, Seq<char>)> {
    match meta_place(meta, key, 0) {
        Some(k) => meta.update(k, (key, value)),
        None => meta.push((key, value)),
    }
}

proof fn lemma_meta_set(
    meta: Seq<(Seq<char>, Seq<char>)>,
    key: Seq<char>,
    value: Seq<char>,
    other: Seq<char>,
    k: int,
)
    requires
        0 <= k <= meta.len(),
        meta_place(meta, key, k) == meta_place(meta, key, 0),
    ensures
        meta_value(with_meta(meta, key, value), key, k) == Some(value),
        other != key ==> meta_value(with_meta(meta, key, value), other, k) == meta_value(
            meta,
            other,
            k,
        ),
    decreases meta.len() - k,
{
    let m = with_meta(meta, key, value);
    if k < meta.len() {
        if meta[k].0 == key {
            assert(m[k] == (key, value));
            if other != key {
                lemma_meta_tail(meta, m, other, k + 1);
            }
        } else {
            lemma_meta_place_after(meta, key, k + 1);
            lemma_meta_set(meta, key, value, other, k + 1);
            assert(m[k] == meta[k]);
        }
    } else {
        assert(m[k] == (key, value));
        reveal_with_fuel(meta_value, 2);
    }
}

proof fn lemma_meta_place_after(meta: Seq<(Seq<char>, Seq<char>)>, key: Seq<char>, k: int)
    requires
        0 <= k,
    ensures
        match meta_place(meta, key, k) {
            Some(i) => k <= i < meta.len(),
            None => true,
        },
    decreases meta.len() - k,
{
    if k < meta.len() && meta[k].0 != key {
        lemma_meta_place_after(meta, key, k + 1);
    }
}

proof fn lemma_meta_tail(
    x: Seq<(Seq<char>, Seq<char>)>,
    y: Seq<(Seq<char>, Seq<char>)>,
    key: Seq<char>,
    k: int,
)
    requires
        0 <= k,
        x.len() == y.len(),
        forall|i: int| k <= i < x.len() ==> x[i] == y[i],
    ensures
        meta_value(x, key, k) == meta_value(y, key, k),
    decreases x.len() - k,
{
    if k < x.len() {
        lemma_meta_tail(x, y, key, k + 1);
    }
}

/// A named entry reads back as it was set, and setting it leaves the others.
pub proof fn meta_reads_back(
    meta: Seq<(Seq<char>, Seq<char>)>,
    key: Seq<char>,
    value: Seq<char>,
    other: Seq<char>,
)
    ensures
        meta_value(with_meta(meta, key, value), key, 0) == Some(value),
        other != key ==> meta_value(with_meta(meta, key, value), other, 0) == meta_value(
            meta,
            other,
            0,
        ),
{
    lemma_meta_set(meta, key, value, other, 0);
}

} // verus!
