//! Questions to the archive.

use vstd::prelude::*;

use crate::archive::laws::{
    ads_are_listed_most_recent_first, leaderboard_ranks_by_sightings, links_sum_up_their_ads,
    stats_count_what_they_say,
};
use crate::archive::{
    hour_number, hour_of, lemma_row_within_total, lemma_total_at_least, total_times, wf, AdRowView,
    Archive, ArchiveView, SightingView,
};
use crate::model::AdRow;
use crate::order::{rank, ranked};
use crate::sources::LogEventView;
use crate::text::same_text;

verus! {

// ---- rows -------------------------------------------------------------------

/// Summary numbers of an archive.
#[derive(Debug, Clone, Copy, PartialEq, Eq)]
pub struct Stats {
    pub distinct_ads: i64,
    pub advertisers: i64,
    pub total_sightings: i64,
    pub sightings_today: i64,
    pub sightings_week: i64,
    pub first_seen_ms: Option<i64>,
    pub last_seen_ms: Option<i64>,
}

/// The summary of an archive without anything in it.
pub open spec fn no_stats() -> Stats {
    Stats {
        distinct_ads: 0,
        advertisers: 0,
        total_sightings: 0,
        sightings_today: 0,
        sightings_week: 0,
        first_seen_ms: None,
        last_seen_ms: None,
    }
}

impl Default for Stats {
    fn default() -> (r: Stats)
        ensures
            r == no_stats(),
    {
        Stats {
            distinct_ads: 0,
            advertisers: 0,
            total_sightings: 0,
            sightings_today: 0,
            sightings_week: 0,
            first_seen_ms: None,
            last_seen_ms: None,
        }
    }
}

/// One advertiser of the leaderboard.
#[derive(Debug)]
pub struct AdvertiserStat {
    pub advertiser: String,
    pub distinct_ads: i64,
    pub sightings: i64,
}

/// What a row of the leaderboard holds.
pub struct AdvertiserView {
    pub advertiser: Seq<char>,
    pub distinct_ads: int,
    pub sightings: int,
}

impl View for AdvertiserStat {
    type V = AdvertiserView;

    open spec fn view(&self) -> AdvertiserView {
        AdvertiserView {
            advertiser: self.advertiser@,
            distinct_ads: self.distinct_ads as int,
            sightings: self.sightings as int,
        }
    }
}

/// One distinct destination.
#[derive(Debug)]
pub struct LinkRow {
    pub advertiser: String,
    pub url: String,
    pub last_seen_ms: i64,
    pub times_seen: i64,
}

/// What a link holds.
pub struct LinkView {
    pub advertiser: Seq<char>,
    pub url: Seq<char>,
    pub last_seen_ms: i64,
    pub times_seen: int,
}

impl View for LinkRow {
    type V = LinkView;

    open spec fn view(&self) -> LinkView {
        LinkView {
            advertiser: self.advertiser@,
            url: self.url@,
            last_seen_ms: self.last_seen_ms,
            times_seen: self.times_seen as int,
        }
    }
}

/// One turn of the killswitch.
#[derive(Debug)]
pub struct KillswitchEvent {
    pub ts_ms: i64,
    pub ts_iso: String,
    pub killed: bool,
}

/// What a turn of the killswitch holds.
pub struct KillswitchView {
    pub ts_ms: i64,
    pub ts_iso: Seq<char>,
    pub killed: bool,
}

impl View for KillswitchEvent {
    type V = KillswitchView;

    open spec fn view(&self) -> KillswitchView {
        KillswitchView { ts_ms: self.ts_ms, ts_iso: self.ts_iso@, killed: self.killed }
    }
}

/// What a sequence of leaderboard rows holds.
pub open spec fn board_views(v: Seq<AdvertiserStat>) -> Seq<AdvertiserView> {
    Seq::new(v.len(), |i: int| v[i]@)
}

/// What a sequence of links holds.
pub open spec fn link_views(v: Seq<LinkRow>) -> Seq<LinkView> {
    Seq::new(v.len(), |i: int| v[i]@)
}

/// What a sequence of killswitch turns holds.
pub open spec fn killswitch_views(v: Seq<KillswitchEvent>) -> Seq<KillswitchView> {
    Seq::new(v.len(), |i: int| v[i]@)
}

/// The first `limit` of `rows` in the order of their keys.
pub open spec fn top<T>(rows: Seq<T>, keys: Seq<(i64, i64)>, limit: int) -> Seq<T> {
    Seq::new(
        if limit < rows.len() {
            limit as nat
        } else {
            rows.len()
        },
        |i: int| rows[ranked(keys)[i]],
    )
}

// ---- counting ---------------------------------------------------------------

/// The milliseconds of a day.
pub const DAY_MS: i64 = 86_400_000;

/// The milliseconds of seven days.
pub const WEEK_MS: i64 = 604_800_000;

/// The day since the epoch that an instant lies in.
pub open spec fn day_number(ms: i64) -> int {
    ms as int / 86_400_000
}

fn day_of(ms: i64) -> (r: i64)
    ensures
        r == day_number(ms),
{
    if ms >= 0 {
        ms / DAY_MS
    } else {
        -((-(ms + 1)) / DAY_MS) - 1
    }
}

/// How many of the first `k` sightings were captured on a day.
pub open spec fn on_day(s: Seq<SightingView>, day: int, k: int) -> int
    decreases k,
{
    if k <= 0 {
        0
    } else {
        on_day(s, day, k - 1) + if day_number(s[k - 1].observed_ms) == day {
            1int
        } else {
            0int
        }
    }
}

/// How many of the first `k` sightings were captured at or after an instant.
pub open spec fn since(s: Seq<SightingView>, from: int, k: int) -> int
    decreases k,
{
    if k <= 0 {
        0
    } else {
        since(s, from, k - 1) + if s[k - 1].observed_ms >= from {
            1int
        } else {
            0int
        }
    }
}

/// How many of the first `k` sightings were captured in an hour.
pub open spec fn in_hour(s: Seq<SightingView>, hour: int, k: int) -> int
    decreases k,
{
    if k <= 0 {
        0
    } else {
        in_hour(s, hour, k - 1) + if hour_number(s[k - 1].observed_ms) == hour {
            1int
        } else {
            0int
        }
    }
}

/// The earliest first sighting among the first `k` rows.
pub open spec fn earliest(ads: Seq<AdRowView>, k: int) -> Option<i64>
    decreases k,
{
    if k <= 0 {
        None
    } else {
        match earliest(ads, k - 1) {
            Some(t) => if t <= ads[k - 1].first_seen_ms {
                Some(t)
            } else {
                Some(ads[k - 1].first_seen_ms)
            },
            None => Some(ads[k - 1].first_seen_ms),
        }
    }
}

/// The latest last sighting among the first `k` rows.
pub open spec fn latest(ads: Seq<AdRowView>, k: int) -> Option<i64>
    decreases k,
{
    if k <= 0 {
        None
    } else {
        match latest(ads, k - 1) {
            Some(t) => if t >= ads[k - 1].last_seen_ms {
                Some(t)
            } else {
                Some(ads[k - 1].last_seen_ms)
            },
            None => Some(ads[k - 1].last_seen_ms),
        }
    }
}

// ---- the leaderboard --------------------------------------------------------

/// The index of an advertiser on a board at or after `k`.
pub open spec fn board_place(board: Seq<AdvertiserView>, name: Seq<char>, k: int) -> Option<int>
    decreases board.len() - k,
{
    if k < 0 || k >= board.len() {
        None
    } else if board[k].advertiser == name {
        Some(k)
    } else {
        board_place(board, name, k + 1)
    }
}

/// The advertisers of the first `k` rows, each with how many creatives and how
/// many sightings it has, in the order of first capture.
pub open spec fn board_of(ads: Seq<AdRowView>, k: int) -> Seq<AdvertiserView>
    decreases k,
{
    if k <= 0 {
        Seq::empty()
    } else {
        let board = board_of(ads, k - 1);
        let ad = ads[k - 1];
        match board_place(board, ad.advertiser, 0) {
            Some(i) => board.update(
                i,
                AdvertiserView {
                    advertiser: ad.advertiser,
                    distinct_ads: board[i].distinct_ads + 1,
                    sightings: board[i].sightings + ad.times_seen,
                },
            ),
            None => board.push(
                AdvertiserView {
                    advertiser: ad.advertiser,
                    distinct_ads: 1,
                    sightings: ad.times_seen,
                },
            ),
        }
    }
}

/// All advertisers of an archive.
pub open spec fn full_board(a: ArchiveView) -> Seq<AdvertiserView> {
    board_of(a.ads, a.ads.len() as int)
}

/// The keys that rank a board: most sightings first.
pub open spec fn board_keys(board: Seq<AdvertiserView>) -> Seq<(i64, i64)> {
    Seq::new(board.len(), |i: int| (0i64, board[i].sightings as i64))
}

/// The sightings on the first `k` rows of a board, in all.
pub open spec fn board_total(board: Seq<AdvertiserView>, k: int) -> int
    decreases k,
{
    if k <= 0 {
        0
    } else {
        board_total(board, k - 1) + board[k - 1].sightings
    }
}

pub(crate) proof fn lemma_board_place(board: Seq<AdvertiserView>, name: Seq<char>, k: int)
    requires
        0 <= k <= board.len(),
    ensures
        match board_place(board, name, k) {
            Some(i) => k <= i < board.len() && board[i].advertiser == name,
            None => forall|j: int| k <= j < board.len() ==> (#[trigger] board[j]).advertiser
                != name,
        },
    decreases board.len() - k,
{
    if k < board.len() && board[k].advertiser != name {
        lemma_board_place(board, name, k + 1);
    }
}

proof fn lemma_board_total_step(
    old_board: Seq<AdvertiserView>,
    new_board: Seq<AdvertiserView>,
    at: int,
    by: int,
    k: int,
)
    requires
        0 <= k <= old_board.len(),
        new_board.len() >= old_board.len(),
        forall|i: int|
            0 <= i < old_board.len() ==> (#[trigger] new_board[i]).sightings
                == old_board[i].sightings + if i == at {
                by
            } else {
                0
            },
    ensures
        board_total(new_board, k) == board_total(old_board, k) + if 0 <= at < k {
            by
        } else {
            0
        },
    decreases k,
{
    if k > 0 {
        lemma_board_total_step(old_board, new_board, at, by, k - 1);
        assert(new_board[k - 1].sightings == old_board[k - 1].sightings + if k - 1 == at {
            by
        } else {
            0
        });
    }
}

pub(crate) proof fn lemma_board(ads: Seq<AdRowView>, k: int)
    requires
        0 <= k <= ads.len(),
        forall|j: int| 0 <= j < ads.len() ==> (#[trigger] ads[j]).times_seen >= 1,
    ensures
        ({
            let board = board_of(ads, k);
            &&& board.len() <= k
            &&& forall|i: int|
                #![trigger board[i]]
                0 <= i < board.len() ==> 1 <= board[i].distinct_ads <= k && 1 <= board[i].sightings
                    <= total_times(ads, k)
            &&& forall|i: int, j: int|
                #![trigger board[i], board[j]]
                0 <= i < j < board.len() ==> board[i].advertiser != board[j].advertiser
            &&& board_total(board, board.len() as int) == total_times(ads, k)
        }),
    decreases k,
{
    if k > 0 {
        lemma_board(ads, k - 1);
        lemma_total_at_least(ads, k - 1);
        let before = board_of(ads, k - 1);
        let board = board_of(ads, k);
        let ad = ads[k - 1];
        lemma_board_place(before, ad.advertiser, 0);
        match board_place(before, ad.advertiser, 0) {
            Some(i) => {
                lemma_board_total_step(before, board, i, ad.times_seen, before.len() as int);
            },
            None => {
                lemma_board_total_step(before, board, -1, 0, before.len() as int);
            },
        }
        assert forall|i: int, j: int|
            #![trigger board[i], board[j]]
            0 <= i < j < board.len() implies board[i].advertiser != board[j].advertiser by {
            if j < before.len() {
                assert(board[i].advertiser == before[i].advertiser);
                assert(board[j].advertiser == before[j].advertiser);
            } else {
                assert(board[i].advertiser == before[i].advertiser);
            }
        }
        assert forall|i: int|
            #![trigger board[i]]
            0 <= i < board.len() implies 1 <= board[i].distinct_ads <= k && 1
            <= board[i].sightings <= total_times(ads, k) by {
            if i < before.len() {
                assert(before[i].sightings <= total_times(ads, k - 1));
            }
        }
    }
}

/// The leaderboard names each advertiser once, and its sightings are all the
/// sightings of the archive.
pub proof fn leaderboard_accounts_for_every_sighting(a: ArchiveView)
    requires
        wf(a),
    ensures
        ({
            let board = full_board(a);
            &&& forall|i: int, j: int|
                #![trigger board[i], board[j]]
                0 <= i < j < board.len() ==> board[i].advertiser != board[j].advertiser
            &&& board_total(board, board.len() as int) == a.sightings.len()
        }),
{
    lemma_board(a.ads, a.ads.len() as int);
}

// ---- links ------------------------------------------------------------------

/// The index of a destination among links at or after `k`.
pub open spec fn link_place(links: Seq<LinkView>, url: Seq<char>, k: int) -> Option<int>
    decreases links.len() - k,
{
    if k < 0 || k >= links.len() {
        None
    } else if links[k].url == url {
        Some(k)
    } else {
        link_place(links, url, k + 1)
    }
}

/// The destinations of the first `k` rows, each with its latest sighting and how
/// often it was seen, in the order of first capture.
pub open spec fn links_of(ads: Seq<AdRowView>, k: int) -> Seq<LinkView>
    decreases k,
{
    if k <= 0 {
        Seq::empty()
    } else {
        let links = links_of(ads, k - 1);
        let ad = ads[k - 1];
        match ad.click_url {
            Some(url) => match link_place(links, url, 0) {
                Some(i) => links.update(
                    i,
                    LinkView {
                        advertiser: links[i].advertiser,
                        url,
                        last_seen_ms: if links[i].last_seen_ms >= ad.last_seen_ms {
                            links[i].last_seen_ms
                        } else {
                            ad.last_seen_ms
                        },
                        times_seen: links[i].times_seen + ad.times_seen,
                    },
                ),
                None => links.push(
                    LinkView {
                        advertiser: ad.advertiser,
                        url,
                        last_seen_ms: ad.last_seen_ms,
                        times_seen: ad.times_seen,
                    },
                ),
            },
            None => links,
        }
    }
}

/// All destinations of an archive.
pub open spec fn all_links(a: ArchiveView) -> Seq<LinkView> {
    links_of(a.ads, a.ads.len() as int)
}

/// The keys that rank links: most recent first.
pub open spec fn link_keys(links: Seq<LinkView>) -> Seq<(i64, i64)> {
    Seq::new(links.len(), |i: int| (0i64, links[i].last_seen_ms))
}

/// The keys that rank ads: most recent first.
pub open spec fn ad_keys(ads: Seq<AdRowView>) -> Seq<(i64, i64)> {
    Seq::new(ads.len(), |i: int| (0i64, ads[i].last_seen_ms))
}

pub(crate) proof fn lemma_link_place(links: Seq<LinkView>, url: Seq<char>, k: int)
    requires
        0 <= k <= links.len(),
    ensures
        match link_place(links, url, k) {
            Some(i) => k <= i < links.len() && links[i].url == url,
            None => forall|j: int| k <= j < links.len() ==> (#[trigger] links[j]).url != url,
        },
    decreases links.len() - k,
{
    if k < links.len() && links[k].url != url {
        lemma_link_place(links, url, k + 1);
    }
}

pub(crate) proof fn lemma_links(ads: Seq<AdRowView>, k: int)
    requires
        0 <= k <= ads.len(),
        forall|j: int| 0 <= j < ads.len() ==> (#[trigger] ads[j]).times_seen >= 1,
    ensures
        ({
            let links = links_of(ads, k);
            &&& links.len() <= k
            &&& forall|i: int|
                #![trigger links[i]]
                0 <= i < links.len() ==> 1 <= links[i].times_seen <= total_times(ads, k)
            &&& forall|i: int, j: int|
                #![trigger links[i], links[j]]
                0 <= i < j < links.len() ==> links[i].url != links[j].url
        }),
    decreases k,
{
    if k > 0 {
        lemma_links(ads, k - 1);
        lemma_total_at_least(ads, k - 1);
        let before = links_of(ads, k - 1);
        let links = links_of(ads, k);
        let ad = ads[k - 1];
        if let Some(url) = ad.click_url {
            lemma_link_place(before, url, 0);
        }
        assert forall|i: int, j: int|
            #![trigger links[i], links[j]]
            0 <= i < j < links.len() implies links[i].url != links[j].url by {
            assert(links[i].url == before[i].url);
            if j < before.len() {
                assert(links[j].url == before[j].url);
            }
        }
        assert forall|i: int|
            #![trigger links[i]]
            0 <= i < links.len() implies 1 <= links[i].times_seen <= total_times(ads, k) by {
            if i < before.len() {
                assert(before[i].times_seen <= total_times(ads, k - 1));
            }
        }
    }
}

/// No destination is listed twice.
pub proof fn links_are_distinct(a: ArchiveView)
    requires
        wf(a),
    ensures
        forall|i: int, j: int|
            #![trigger all_links(a)[i], all_links(a)[j]]
            0 <= i < j < all_links(a).len() ==> all_links(a)[i].url != all_links(a)[j].url,
{
    lemma_links(a.ads, a.ads.len() as int);
}

// ---- the killswitch ---------------------------------------------------------

/// Whether the killswitch was last reported as active by the first `k` events.
pub open spec fn was_killed(events: Seq<LogEventView>, k: int) -> bool
    decreases k,
{
    if k <= 0 {
        false
    } else if events[k - 1].name == "session.state"@ && events[k - 1].killed is Some {
        events[k - 1].killed->0
    } else {
        was_killed(events, k - 1)
    }
}

/// The turns of the killswitch in the first `k` events, oldest first.
pub open spec fn turns(events: Seq<LogEventView>, k: int) -> Seq<KillswitchView>
    decreases k,
{
    if k <= 0 {
        Seq::empty()
    } else if was_killed(events, k) != was_killed(events, k - 1) {
        turns(events, k - 1).push(
            KillswitchView {
                ts_ms: events[k - 1].ts_ms,
                ts_iso: events[k - 1].ts_iso,
                killed: was_killed(events, k),
            },
        )
    } else {
        turns(events, k - 1)
    }
}

/// The last `limit` of a sequence, last first.
pub open spec fn newest_first<T>(s: Seq<T>, limit: int) -> Seq<T> {
    Seq::new(
        if limit < s.len() {
            limit as nat
        } else {
            s.len()
        },
        |i: int| s[s.len() - 1 - i],
    )
}

proof fn lemma_turns_alternate(events: Seq<LogEventView>, k: int)
    requires
        0 <= k <= events.len(),
    ensures
        ({
            let t = turns(events, k);
            &&& t.len() > 0 ==> t[0].killed && t.last().killed == was_killed(events, k)
            &&& t.len() == 0 ==> !was_killed(events, k)
            &&& forall|i: int|
                #![trigger t[i]]
                0 <= i < t.len() - 1 ==> t[i].killed != t[i + 1].killed
        }),
    decreases k,
{
    if k > 0 {
        lemma_turns_alternate(events, k - 1);
        let before = turns(events, k - 1);
        let t = turns(events, k);
        assert forall|i: int|
            #![trigger t[i]]
            0 <= i < t.len() - 1 implies t[i].killed != t[i + 1].killed by {
            if i < before.len() - 1 {
                assert(t[i] == before[i]);
                assert(t[i + 1] == before[i + 1]);
            } else if i == before.len() - 1 && t.len() > before.len() {
                assert(t[i] == before.last());
            }
        }
    }
}

/// The timeline starts with a pause, and pauses and resumptions alternate.
pub proof fn killswitch_turns_alternate(events: Seq<LogEventView>)
    ensures
        ({
            let t = turns(events, events.len() as int);
            &&& t.len() > 0 ==> t[0].killed
            &&& forall|i: int|
                #![trigger t[i]]
                0 <= i < t.len() - 1 ==> t[i].killed != t[i + 1].killed
        }),
{
    lemma_turns_alternate(events, events.len() as int);
}

// ---- the summary ------------------------------------------------------------

/// The summary of an archive at an instant.
pub open spec fn stats_of(a: ArchiveView, now_ms: i64) -> Stats {
    let n = a.sightings.len() as int;
    Stats {
        distinct_ads: a.ads.len() as i64,
        advertisers: full_board(a).len() as i64,
        total_sightings: n as i64,
        sightings_today: on_day(a.sightings, day_number(now_ms), n) as i64,
        sightings_week: since(a.sightings, now_ms - WEEK_MS, n) as i64,
        first_seen_ms: earliest(a.ads, a.ads.len() as int),
        last_seen_ms: latest(a.ads, a.ads.len() as int),
    }
}

/// The activity of the last `hours` hours, oldest first: how many sightings each
/// had, or nothing for an hour in which no captures were running.
pub open spec fn activity(a: ArchiveView, now_ms: i64, hours: int) -> Seq<Option<u64>> {
    Seq::new(
        hours as nat,
        |i: int|
            {
                let hour = hour_number(now_ms) - (hours - 1 - i);
                if a.hours.contains(hour as i64) {
                    Some(in_hour(a.sightings, hour, a.sightings.len() as int) as u64)
                } else {
                    None
                }
            },
    )
}

impl Archive {
    /// Summary statistics at `now_ms`. Today is the day of `now_ms` in UTC, and
    /// the week is the seven days up to it.
    pub fn stats(&self, now_ms: i64) -> (r: Stats)
        requires
            wf(self@),
        ensures
            r == stats_of(self@, now_ms),
            r.distinct_ads == self@.ads.len(),
            r.advertisers == full_board(self@).len(),
            r.total_sightings == self@.sightings.len(),
            0 <= r.sightings_today <= r.total_sightings,
            0 <= r.sightings_week <= r.total_sightings,
            r.sightings_today == self@.sightings.filter(
                |x: SightingView|
                    x.observed_ms as int / 86_400_000 == now_ms as int / 86_400_000,
            ).len(),
            r.sightings_week == self@.sightings.filter(
                |x: SightingView| x.observed_ms >= now_ms - 604_800_000,
            ).len(),
    {
        proof {
            stats_count_what_they_say(self@, now_ms);
            lemma_board(self@.ads, self@.ads.len() as int);
            lemma_total_at_least(self@.ads, self@.ads.len() as int);
        }
        let board = self.board();
        let day = day_of(now_ms);
        let from: i64 = if now_ms >= i64::MIN + WEEK_MS {
            now_ms - WEEK_MS
        } else {
            i64::MIN
        };
        let mut today: i64 = 0;
        let mut week: i64 = 0;
        let mut i: usize = 0;
        while i < self.sightings.len()
            invariant
                wf(self@),
                day == day_number(now_ms),
                now_ms - WEEK_MS >= i64::MIN ==> from == now_ms - WEEK_MS,
                now_ms - WEEK_MS < i64::MIN ==> from == i64::MIN,
                i <= self.sightings@.len(),
                today == on_day(self@.sightings, day as int, i as int),
                week == since(self@.sightings, now_ms - WEEK_MS, i as int),
                0 <= today <= i,
                0 <= week <= i,
            decreases self.sightings@.len() - i,
        {
            let at: i64 = self.sightings[i].observed_ms;
            assert(self@.sightings[i as int] == self.sightings@[i as int]@);
            if day_of(at) == day {
                today = today + 1;
            }
            if at >= from {
                week = week + 1;
            }
            i = i + 1;
        }
        let mut first: Option<i64> = None;
        let mut last: Option<i64> = None;
        let mut j: usize = 0;
        while j < self.ads.len()
            invariant
                j <= self.ads@.len(),
                first == earliest(self@.ads, j as int),
                last == latest(self@.ads, j as int),
            decreases self.ads@.len() - j,
        {
            let row = &self.ads[j];
            assert(self@.ads[j as int] == row@);
            first = match first {
                Some(t) => if t <= row.first_seen_ms {
                    Some(t)
                } else {
                    Some(row.first_seen_ms)
                },
                None => Some(row.first_seen_ms),
            };
            last = match last {
                Some(t) => if t >= row.last_seen_ms {
                    Some(t)
                } else {
                    Some(row.last_seen_ms)
                },
                None => Some(row.last_seen_ms),
            };
            j = j + 1;
        }
        assert(board_views(board@).len() == board@.len());
        Stats {
            distinct_ads: self.ads.len() as i64,
            advertisers: board.len() as i64,
            total_sightings: self.sightings.len() as i64,
            sightings_today: today,
            sightings_week: week,
            first_seen_ms: first,
            last_seen_ms: last,
        }
    }

    /// Hourly activity over the last `hours` hours, oldest first. `None` marks
    /// an hour in which no captures were running.
    pub fn hourly_activity(&self, now_ms: i64, hours: u32) -> (r: Vec<Option<u64>>)
        ensures
            r@ == activity(self@, now_ms, hours as int),
    {
        let mut out: Vec<Option<u64>> = Vec::new();
        let end = hour_of(now_ms);
        let mut i: u32 = 0;
        while i < hours
            invariant
                end == hour_number(now_ms),
                -3_000_000_000_000 < end < 3_000_000_000_000,
                i <= hours,
                out@ == activity(self@, now_ms, hours as int).take(i as int),
            decreases hours - i,
        {
            let hour: i64 = end - ((hours - 1 - i) as i64);
            let mut watched: bool = false;
            let mut h: usize = 0;
            while h < self.hours.len()
                invariant
                    h <= self.hours@.len(),
                    watched == (exists|k: int| 0 <= k < h && self.hours@[k] == hour),
                decreases self.hours@.len() - h,
            {
                if self.hours[h] == hour {
                    watched = true;
                }
                h = h + 1;
            }
            let mut count: u64 = 0;
            let mut s: usize = 0;
            while s < self.sightings.len()
                invariant
                    s <= self.sightings@.len(),
                    count == in_hour(self@.sightings, hour as int, s as int),
                    count <= s,
                decreases self.sightings@.len() - s,
            {
                assert(self@.sightings[s as int] == self.sightings@[s as int]@);
                if hour_of(self.sightings[s].observed_ms) == hour {
                    count = count + 1;
                }
                s = s + 1;
            }
            proof {
                assert(watched == self@.hours.contains(hour));
                let all = activity(self@, now_ms, hours as int);
                assert(all.take(i + 1) =~= all.take(i as int).push(all[i as int]));
            }
            if watched {
                out.push(Some(count));
            } else {
                out.push(None);
            }
            i = i + 1;
        }
        assert(out@ =~= activity(self@, now_ms, hours as int));
        out
    }

    /// All advertisers, in the order of first capture.
    fn board(&self) -> (r: Vec<AdvertiserStat>)
        requires
            wf(self@),
        ensures
            board_views(r@) == full_board(self@),
    {
        let mut out: Vec<AdvertiserStat> = Vec::new();
        let mut k: usize = 0;
        assert(board_views(out@) =~= Seq::<AdvertiserView>::empty());
        while k < self.ads.len()
            invariant
                wf(self@),
                k <= self.ads@.len(),
                board_views(out@) == board_of(self@.ads, k as int),
            decreases self.ads@.len() - k,
        {
            let ad = &self.ads[k];
            let ghost before = out@;
            let ghost board = board_views(before);
            proof {
                assert(self@.ads[k as int] == ad@);
                lemma_board(self@.ads, k as int);
                lemma_board(self@.ads, k + 1);
                lemma_row_within_total(self@.ads, k as int, self@.ads.len() as int);
                lemma_totals_grow(self@.ads, k + 1, self@.ads.len() as int);
                lemma_board_place(board, ad.advertiser@, 0);
            }
            let mut i: usize = 0;
            while i < out.len() && !same_text(out[i].advertiser.as_str(), ad.advertiser.as_str())
                invariant
                    out@ == before,
                    board == board_views(before),
                    i <= out@.len(),
                    board_place(board, ad.advertiser@, 0) == board_place(
                        board,
                        ad.advertiser@,
                        i as int,
                    ),
                decreases out@.len() - i,
            {
                assert(board[i as int] == out@[i as int]@);
                i = i + 1;
            }
            if i < out.len() {
                assert(board[i as int] == out@[i as int]@);
                proof {
                    let next = board_of(self@.ads, k + 1);
                    assert(next[i as int].sightings <= total_times(self@.ads, k + 1));
                }
                let row = AdvertiserStat {
                    advertiser: ad.advertiser.clone(),
                    distinct_ads: out[i].distinct_ads + 1,
                    sightings: out[i].sightings + ad.times_seen,
                };
                let ghost shown = row@;
                out.set(i, row);
                assert(board_views(out@) =~= board.update(i as int, shown));
            } else {
                let row = AdvertiserStat {
                    advertiser: ad.advertiser.clone(),
                    distinct_ads: 1,
                    sightings: ad.times_seen,
                };
                let ghost shown = row@;
                out.push(row);
                assert(board_views(out@) =~= board.push(shown));
            }
            k = k + 1;
        }
        out
    }

    /// The `limit` advertisers with the most sightings, most first.
    pub fn advertiser_leaderboard(&self, limit: usize) -> (r: Vec<AdvertiserStat>)
        requires
            wf(self@),
        ensures
            board_views(r@) == top(full_board(self@), board_keys(full_board(self@)), limit as int),
            forall|i: int, j: int|
                #![trigger r@[i], r@[j]]
                0 <= i < j < r@.len() ==> r@[i].sightings >= r@[j].sightings,
            forall|x: int, i: int|
                #![trigger full_board(self@)[x], r@[i]]
                0 <= x < full_board(self@).len() && 0 <= i < r@.len() && !board_views(
                    r@,
                ).contains(full_board(self@)[x]) ==> full_board(self@)[x].sightings
                    <= r@[i].sightings,
    {
        let board = self.board();
        let ghost views = full_board(self@);
        let mut keys: Vec<(i64, i64)> = Vec::new();
        let mut i: usize = 0;
        while i < board.len()
            invariant
                views == board_views(board@),
                i <= board@.len(),
                keys@ == board_keys(views).take(i as int),
            decreases board@.len() - i,
        {
            keys.push((0i64, board[i].sightings));
            proof {
                assert(views[i as int] == board@[i as int]@);
                let all = board_keys(views);
                assert(all.take(i + 1) =~= all.take(i as int).push(all[i as int]));
            }
            i = i + 1;
        }
        assert(keys@ =~= board_keys(views));
        let order = rank(&keys);
        let mut out: Vec<AdvertiserStat> = Vec::new();
        let mut k: usize = 0;
        while k < order.len() && k < limit
            invariant
                views == board_views(board@),
                order@.len() == board@.len(),
                crate::order::as_ints(order@) == ranked(board_keys(views)),
                forall|j: int| 0 <= j < order@.len() ==> (#[trigger] order@[j]) < board@.len(),
                k <= order@.len(),
                k <= limit,
                board_views(out@) == top(views, board_keys(views), k as int),
            decreases order@.len() - k,
        {
            let ghost before = out@;
            let from = &board[order[k]];
            let row = AdvertiserStat {
                advertiser: from.advertiser.clone(),
                distinct_ads: from.distinct_ads,
                sightings: from.sightings,
            };
            let ghost shown = row@;
            proof {
                assert(crate::order::as_ints(order@)[k as int] == order@[k as int] as int);
                assert(views[order@[k as int] as int] == from@);
            }
            out.push(row);
            assert(board_views(out@) =~= board_views(before).push(shown));
            assert(board_views(out@) =~= top(views, board_keys(views), k + 1));
            k = k + 1;
        }
        assert(board_views(out@) =~= top(views, board_keys(views), limit as int));
        proof {
            leaderboard_ranks_by_sightings(self@, limit as int);
            let shown = board_views(out@);
            assert forall|i: int| 0 <= i < out@.len() implies shown[i] == (#[trigger] out@[i])@ by {}
            assert forall|i: int, j: int|
                #![trigger out@[i], out@[j]]
                0 <= i < j < out@.len() implies out@[i].sightings >= out@[j].sightings by {
                assert(shown[i] == out@[i]@ && shown[j] == out@[j]@);
            }
            assert forall|x: int, i: int|
                #![trigger full_board(self@)[x], out@[i]]
                0 <= x < full_board(self@).len() && 0 <= i < out@.len() && !board_views(
                    out@,
                ).contains(full_board(self@)[x]) implies full_board(self@)[x].sightings
                <= out@[i].sightings by {
                assert(shown[i] == out@[i]@);
            }
        }
        out
    }

    /// The `limit` ads seen last, most recent first.
    pub fn list_ads(&self, limit: usize) -> (r: Vec<AdRow>)
        ensures
            crate::archive::ad_views(r@) == top(self@.ads, ad_keys(self@.ads), limit as int),
            forall|i: int, j: int|
                #![trigger r@[i], r@[j]]
                0 <= i < j < r@.len() ==> r@[i].last_seen_ms >= r@[j].last_seen_ms,
    {
        let ghost views = self@.ads;
        let mut keys: Vec<(i64, i64)> = Vec::new();
        let mut i: usize = 0;
        while i < self.ads.len()
            invariant
                views == crate::archive::ad_views(self.ads@),
                i <= self.ads@.len(),
                keys@ == ad_keys(views).take(i as int),
            decreases self.ads@.len() - i,
        {
            keys.push((0i64, self.ads[i].last_seen_ms));
            proof {
                assert(views[i as int] == self.ads@[i as int]@);
                let all = ad_keys(views);
                assert(all.take(i + 1) =~= all.take(i as int).push(all[i as int]));
            }
            i = i + 1;
        }
        assert(keys@ =~= ad_keys(views));
        let order = rank(&keys);
        let mut out: Vec<AdRow> = Vec::new();
        let mut k: usize = 0;
        while k < order.len() && k < limit
            invariant
                views == crate::archive::ad_views(self.ads@),
                order@.len() == self.ads@.len(),
                crate::order::as_ints(order@) == ranked(ad_keys(views)),
                forall|j: int| 0 <= j < order@.len() ==> (#[trigger] order@[j]) < self.ads@.len(),
                k <= order@.len(),
                k <= limit,
                crate::archive::ad_views(out@) == top(views, ad_keys(views), k as int),
            decreases order@.len() - k,
        {
            let ghost before = out@;
            let row = self.ads[order[k]].copy();
            let ghost shown = row@;
            proof {
                assert(crate::order::as_ints(order@)[k as int] == order@[k as int] as int);
                assert(views[order@[k as int] as int] == self.ads@[order@[k as int] as int]@);
            }
            out.push(row);
            assert(crate::archive::ad_views(out@) =~= crate::archive::ad_views(before).push(
                shown,
            ));
            assert(crate::archive::ad_views(out@) =~= top(views, ad_keys(views), k + 1));
            k = k + 1;
        }
        assert(crate::archive::ad_views(out@) =~= top(views, ad_keys(views), limit as int));
        proof {
            ads_are_listed_most_recent_first(self@.ads, limit as int);
            let shown = crate::archive::ad_views(out@);
            assert forall|i: int| 0 <= i < out@.len() implies shown[i] == (#[trigger] out@[i])@ by {}
            assert forall|i: int, j: int|
                #![trigger out@[i], out@[j]]
                0 <= i < j < out@.len() implies out@[i].last_seen_ms >= out@[j].last_seen_ms by {
                assert(shown[i] == out@[i]@ && shown[j] == out@[j]@);
            }
        }
        out
    }

    /// All destinations, in the order of first capture.
    fn links(&self) -> (r: Vec<LinkRow>)
        requires
            wf(self@),
        ensures
            link_views(r@) == all_links(self@),
    {
        let mut out: Vec<LinkRow> = Vec::new();
        let mut k: usize = 0;
        assert(link_views(out@) =~= Seq::<LinkView>::empty());
        while k < self.ads.len()
            invariant
                wf(self@),
                k <= self.ads@.len(),
                link_views(out@) == links_of(self@.ads, k as int),
            decreases self.ads@.len() - k,
        {
            let ad = &self.ads[k];
            let ghost before = out@;
            let ghost links = link_views(before);
            proof {
                assert(self@.ads[k as int] == ad@);
                lemma_links(self@.ads, k as int);
                lemma_links(self@.ads, k + 1);
                lemma_row_within_total(self@.ads, k as int, self@.ads.len() as int);
                lemma_totals_grow(self@.ads, k + 1, self@.ads.len() as int);
            }
            if let Some(url) = &ad.click_url {
                proof {
                    lemma_link_place(links, url@, 0);
                }
                let mut i: usize = 0;
                while i < out.len() && !same_text(out[i].url.as_str(), url.as_str())
                    invariant
                        out@ == before,
                        links == link_views(before),
                        i <= out@.len(),
                        link_place(links, url@, 0) == link_place(links, url@, i as int),
                    decreases out@.len() - i,
                {
                    assert(links[i as int] == out@[i as int]@);
                    i = i + 1;
                }
                if i < out.len() {
                    assert(links[i as int] == out@[i as int]@);
                    proof {
                        let next = links_of(self@.ads, k + 1);
                        assert(next[i as int].times_seen <= total_times(self@.ads, k + 1));
                    }
                    let row = LinkRow {
                        advertiser: out[i].advertiser.clone(),
                        url: url.clone(),
                        last_seen_ms: if out[i].last_seen_ms >= ad.last_seen_ms {
                            out[i].last_seen_ms
                        } else {
                            ad.last_seen_ms
                        },
                        times_seen: out[i].times_seen + ad.times_seen,
                    };
                    let ghost shown = row@;
                    out.set(i, row);
                    assert(link_views(out@) =~= links.update(i as int, shown));
                } else {
                    let row = LinkRow {
                        advertiser: ad.advertiser.clone(),
                        url: url.clone(),
                        last_seen_ms: ad.last_seen_ms,
                        times_seen: ad.times_seen,
                    };
                    let ghost shown = row@;
                    out.push(row);
                    assert(link_views(out@) =~= links.push(shown));
                }
            }
            k = k + 1;
        }
        out
    }

    /// The `limit` distinct destinations seen last, most recent first.
    pub fn distinct_links(&self, limit: usize) -> (r: Vec<LinkRow>)
        requires
            wf(self@),
        ensures
            link_views(r@) == top(all_links(self@), link_keys(all_links(self@)), limit as int),
            forall|i: int, j: int|
                #![trigger r@[i], r@[j]]
                0 <= i < j < r@.len() ==> r@[i].last_seen_ms >= r@[j].last_seen_ms && r@[i].url@
                    != r@[j].url@,
    {
        let links = self.links();
        let ghost views = all_links(self@);
        let mut keys: Vec<(i64, i64)> = Vec::new();
        let mut i: usize = 0;
        while i < links.len()
            invariant
                views == link_views(links@),
                i <= links@.len(),
                keys@ == link_keys(views).take(i as int),
            decreases links@.len() - i,
        {
            keys.push((0i64, links[i].last_seen_ms));
            proof {
                assert(views[i as int] == links@[i as int]@);
                let all = link_keys(views);
                assert(all.take(i + 1) =~= all.take(i as int).push(all[i as int]));
            }
            i = i + 1;
        }
        assert(keys@ =~= link_keys(views));
        let order = rank(&keys);
        let mut out: Vec<LinkRow> = Vec::new();
        let mut k: usize = 0;
        while k < order.len() && k < limit
            invariant
                views == link_views(links@),
                order@.len() == links@.len(),
                crate::order::as_ints(order@) == ranked(link_keys(views)),
                forall|j: int| 0 <= j < order@.len() ==> (#[trigger] order@[j]) < links@.len(),
                k <= order@.len(),
                k <= limit,
                link_views(out@) == top(views, link_keys(views), k as int),
            decreases order@.len() - k,
        {
            let ghost before = out@;
            let from = &links[order[k]];
            let row = LinkRow {
                advertiser: from.advertiser.clone(),
                url: from.url.clone(),
                last_seen_ms: from.last_seen_ms,
                times_seen: from.times_seen,
            };
            let ghost shown = row@;
            proof {
                assert(crate::order::as_ints(order@)[k as int] == order@[k as int] as int);
                assert(views[order@[k as int] as int] == from@);
            }
            out.push(row);
            assert(link_views(out@) =~= link_views(before).push(shown));
            assert(link_views(out@) =~= top(views, link_keys(views), k + 1));
            k = k + 1;
        }
        assert(link_views(out@) =~= top(views, link_keys(views), limit as int));
        proof {
            links_sum_up_their_ads(self@, limit as int);
            let shown = link_views(out@);
            assert forall|i: int| 0 <= i < out@.len() implies shown[i] == (#[trigger] out@[i])@ by {}
            assert forall|i: int, j: int|
                #![trigger out@[i], out@[j]]
                0 <= i < j < out@.len() implies out@[i].last_seen_ms >= out@[j].last_seen_ms && out@[i].url@ != out@[j].url@ by {
                assert(shown[i] == out@[i]@ && shown[j] == out@[j]@);
            }
        }
        out
    }

    /// The last `limit` turns of the killswitch, newest first.
    pub fn killswitch_timeline(&self, limit: usize) -> (r: Vec<KillswitchEvent>)
        ensures
            killswitch_views(r@) == newest_first(
                turns(self@.events, self@.events.len() as int),
                limit as int,
            ),
    {
        let mut all: Vec<KillswitchEvent> = Vec::new();
        let mut killed: bool = false;
        let mut k: usize = 0;
        assert(killswitch_views(all@) =~= Seq::<KillswitchView>::empty());
        while k < self.events.len()
            invariant
                k <= self.events@.len(),
                killed == was_killed(self@.events, k as int),
                killswitch_views(all@) == turns(self@.events, k as int),
            decreases self.events@.len() - k,
        {
            let ev = &self.events[k];
            let ghost before = all@;
            assert(self@.events[k as int] == ev@);
            let now: bool = match ev.killed {
                Some(b) => if same_text(ev.name.as_str(), "session.state") {
                    b
                } else {
                    killed
                },
                None => killed,
            };
            assert(now == was_killed(self@.events, k + 1));
            if now != killed {
                let turn = KillswitchEvent {
                    ts_ms: ev.ts_ms,
                    ts_iso: ev.ts_iso.clone(),
                    killed: now,
                };
                let ghost shown = turn@;
                all.push(turn);
                assert(killswitch_views(all@) =~= killswitch_views(before).push(shown));
            }
            killed = now;
            k = k + 1;
        }
        let ghost t = turns(self@.events, self@.events.len() as int);
        let mut out: Vec<KillswitchEvent> = Vec::new();
        let mut i: usize = 0;
        while i < all.len() && i < limit
            invariant
                t == killswitch_views(all@),
                i <= all@.len(),
                i <= limit,
                killswitch_views(out@) == newest_first(t, i as int),
            decreases all@.len() - i,
        {
            let ghost before = out@;
            let from = &all[all.len() - 1 - i];
            let turn = KillswitchEvent {
                ts_ms: from.ts_ms,
                ts_iso: from.ts_iso.clone(),
                killed: from.killed,
            };
            let ghost shown = turn@;
            proof {
                assert(t[t.len() - 1 - i] == from@);
            }
            out.push(turn);
            assert(killswitch_views(out@) =~= killswitch_views(before).push(shown));
            assert(killswitch_views(out@) =~= newest_first(t, i + 1));
            i = i + 1;
        }
        assert(killswitch_views(out@) =~= newest_first(t, limit as int));
        out
    }
}

proof fn lemma_totals_grow(ads: Seq<AdRowView>, k: int, n: int)
    requires
        0 <= k <= n <= ads.len(),
        forall|j: int| 0 <= j < ads.len() ==> (#[trigger] ads[j]).times_seen >= 1,
    ensures
        total_times(ads, k) <= total_times(ads, n),
    decreases n,
{
    if k < n {
        lemma_totals_grow(ads, k, n - 1);
        assert(ads[n - 1].times_seen >= 1);
    }
}

} // verus!
