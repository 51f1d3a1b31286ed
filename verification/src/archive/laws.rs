//! What the archive's answers mean, stated over what it holds.

use vstd::prelude::*;

use crate::archive::cache::{cache_keys, newest_items};
use crate::archive::queries::{
    activity, ad_keys, all_links, board_keys, board_of, board_place, earliest, full_board, in_hour,
    latest, lemma_board, lemma_board_place, lemma_link_place, lemma_links, link_keys, link_place,
    links_of, newest_first, on_day, since, stats_of, top, turns, was_killed,
    KillswitchView, LinkView,
};
use crate::archive::{
    captured, find_ad, meta_value, observed, wf, AdRowView, ArchiveView, CachedItemView,
    SightingView,
};
use crate::model::{advertiser_of, creative_id};
use crate::order::{ranked, ranking_is_stable};
use crate::sources::LogEventView;

verus! {

// ---- counting ---------------------------------------------------------------

proof fn lemma_filter_push<T>(s: Seq<T>, x: T, keep: spec_fn(T) -> bool)
    ensures
        s.push(x).filter(keep).len() == s.filter(keep).len() + if keep(x) {
            1int
        } else {
            0int
        },
{
    reveal(Seq::filter);
    assert(s.push(x).drop_last() =~= s);
}

proof fn lemma_since(s: Seq<SightingView>, from: int, k: int)
    requires
        0 <= k <= s.len(),
    ensures
        since(s, from, k) == s.take(k).filter(|x: SightingView| x.observed_ms >= from).len(),
    decreases k,
{
    let keep = |x: SightingView| x.observed_ms >= from;
    if k == 0 {
        reveal(Seq::filter);
    } else {
        lemma_since(s, from, k - 1);
        assert(s.take(k) =~= s.take(k - 1).push(s[k - 1]));
        lemma_filter_push(s.take(k - 1), s[k - 1], keep);
    }
}

proof fn lemma_on_day(s: Seq<SightingView>, day: int, k: int)
    requires
        0 <= k <= s.len(),
    ensures
        on_day(s, day, k) == s.take(k).filter(
            |x: SightingView| x.observed_ms as int / 86_400_000 == day,
        ).len(),
    decreases k,
{
    let keep = |x: SightingView| x.observed_ms as int / 86_400_000 == day;
    if k == 0 {
        reveal(Seq::filter);
    } else {
        lemma_on_day(s, day, k - 1);
        assert(s.take(k) =~= s.take(k - 1).push(s[k - 1]));
        lemma_filter_push(s.take(k - 1), s[k - 1], keep);
    }
}

proof fn lemma_in_hour(s: Seq<SightingView>, hour: int, k: int)
    requires
        0 <= k <= s.len(),
    ensures
        in_hour(s, hour, k) == s.take(k).filter(
            |x: SightingView| x.observed_ms as int / 3_600_000 == hour,
        ).len(),
        0 <= in_hour(s, hour, k) <= k,
    decreases k,
{
    let keep = |x: SightingView| x.observed_ms as int / 3_600_000 == hour;
    if k == 0 {
        reveal(Seq::filter);
    } else {
        lemma_in_hour(s, hour, k - 1);
        assert(s.take(k) =~= s.take(k - 1).push(s[k - 1]));
        lemma_filter_push(s.take(k - 1), s[k - 1], keep);
    }
}

proof fn lemma_counts_bounded(s: Seq<SightingView>, from: int, day: int, k: int)
    requires
        0 <= k,
    ensures
        0 <= since(s, from, k) <= k,
        0 <= on_day(s, day, k) <= k,
    decreases k,
{
    if k > 0 {
        lemma_counts_bounded(s, from, day, k - 1);
    }
}

proof fn lemma_earliest(ads: Seq<AdRowView>, k: int)
    requires
        0 <= k <= ads.len(),
    ensures
        k == 0 <==> earliest(ads, k) is None,
        forall|i: int|
            0 <= i < k ==> earliest(ads, k)->0 <= (#[trigger] ads[i]).first_seen_ms,
        k > 0 ==> exists|i: int|
            0 <= i < k && (#[trigger] ads[i]).first_seen_ms == earliest(ads, k)->0,
    decreases k,
{
    if k > 0 {
        lemma_earliest(ads, k - 1);
        if earliest(ads, k)->0 == ads[k - 1].first_seen_ms {
        } else {
            let i = choose|i: int|
                0 <= i < k - 1 && (#[trigger] ads[i]).first_seen_ms == earliest(ads, k - 1)->0;
            assert(ads[i].first_seen_ms == earliest(ads, k)->0);
        }
    }
}

proof fn lemma_latest(ads: Seq<AdRowView>, k: int)
    requires
        0 <= k <= ads.len(),
    ensures
        k == 0 <==> latest(ads, k) is None,
        forall|i: int| 0 <= i < k ==> latest(ads, k)->0 >= (#[trigger] ads[i]).last_seen_ms,
        k > 0 ==> exists|i: int|
            0 <= i < k && (#[trigger] ads[i]).last_seen_ms == latest(ads, k)->0,
    decreases k,
{
    if k > 0 {
        lemma_latest(ads, k - 1);
        if latest(ads, k)->0 == ads[k - 1].last_seen_ms {
        } else {
            let i = choose|i: int|
                0 <= i < k - 1 && (#[trigger] ads[i]).last_seen_ms == latest(ads, k - 1)->0;
            assert(ads[i].last_seen_ms == latest(ads, k)->0);
        }
    }
}

/// The summary counts what its labels say: every creative, every sighting, the
/// sightings of the day of the clock in UTC, and those of the last seven days.
/// The first and the last sighting are the earliest and the latest of any ad.
pub proof fn stats_count_what_they_say(a: ArchiveView, now_ms: i64)
    requires
        wf(a),
    ensures
        ({
            let s = stats_of(a, now_ms);
            &&& s.distinct_ads == a.ads.len()
            &&& s.total_sightings == a.sightings.len()
            &&& s.sightings_today == a.sightings.filter(
                |x: SightingView|
                    x.observed_ms as int / 86_400_000 == now_ms as int / 86_400_000,
            ).len()
            &&& s.sightings_week == a.sightings.filter(
                |x: SightingView| x.observed_ms >= now_ms - 604_800_000,
            ).len()
            &&& s.first_seen_ms is None <==> a.ads.len() == 0
            &&& s.last_seen_ms is None <==> a.ads.len() == 0
            &&& forall|i: int|
                0 <= i < a.ads.len() ==> s.first_seen_ms->0 <= (#[trigger] a.ads[i]).first_seen_ms
                    && a.ads[i].last_seen_ms <= s.last_seen_ms->0
            &&& a.ads.len() > 0 ==> exists|i: int|
                0 <= i < a.ads.len() && (#[trigger] a.ads[i]).first_seen_ms == s.first_seen_ms->0
            &&& a.ads.len() > 0 ==> exists|i: int|
                0 <= i < a.ads.len() && (#[trigger] a.ads[i]).last_seen_ms == s.last_seen_ms->0
        }),
{
    let n = a.sightings.len() as int;
    let m = a.ads.len() as int;
    assert(a.sightings.take(n) =~= a.sightings);
    lemma_since(a.sightings, now_ms - 604_800_000, n);
    lemma_on_day(a.sightings, now_ms as int / 86_400_000, n);
    lemma_counts_bounded(a.sightings, now_ms - 604_800_000, now_ms as int / 86_400_000, n);
    lemma_earliest(a.ads, m);
    lemma_latest(a.ads, m);
    crate::archive::lemma_total_at_least(a.ads, m);
}

/// The advertisers that the summary counts are the distinct names on the ads.
pub proof fn stats_count_each_advertiser_once(a: ArchiveView, now_ms: i64)
    requires
        wf(a),
    ensures
        ({
            let names = Seq::new(full_board(a).len(), |i: int| full_board(a)[i].advertiser);
            &&& stats_of(a, now_ms).advertisers == names.len()
            &&& names.no_duplicates()
            &&& forall|i: int|
                0 <= i < a.ads.len() ==> names.contains((#[trigger] a.ads[i]).advertiser)
            &&& forall|k: int|
                0 <= k < names.len() ==> exists|i: int|
                    0 <= i < a.ads.len() && (#[trigger] a.ads[i]).advertiser == #[trigger] names[k]
        }),
{
    let m = a.ads.len() as int;
    let board = full_board(a);
    let names = Seq::new(board.len(), |i: int| board[i].advertiser);
    lemma_board(a.ads, m);
    crate::archive::lemma_total_at_least(a.ads, m);
    assert forall|i: int| 0 <= i < a.ads.len() implies names.contains(
        (#[trigger] a.ads[i]).advertiser,
    ) by {
        lemma_board_sums(a.ads, m);
        let k = choose|k: int|
            0 <= k < board.len() && (#[trigger] board[k]).advertiser == a.ads[i].advertiser;
        assert(names[k] == a.ads[i].advertiser);
    }
    assert forall|k: int| 0 <= k < names.len() implies exists|i: int|
        0 <= i < a.ads.len() && (#[trigger] a.ads[i]).advertiser == #[trigger] names[k] by {
        lemma_board_names(a.ads, m);
        assert(board[k].advertiser == names[k]);
        let i = choose|i: int|
            0 <= i < m && (#[trigger] a.ads[i]).advertiser == board[k].advertiser;
        assert(a.ads[i].advertiser == names[k]);
    }
}

/// Each hour of the activity is the hour that it stands for, the last that of the
/// clock: nothing where captures were not running in it, otherwise how many
/// sightings it had.
pub proof fn activity_counts_by_the_hour(a: ArchiveView, now_ms: i64, hours: int, i: int)
    requires
        wf(a),
        0 <= i < hours <= u32::MAX,
    ensures
        activity(a, now_ms, hours).len() == hours,
        ({
            let hour = now_ms as int / 3_600_000 - (hours - 1 - i);
            activity(a, now_ms, hours)[i] == if a.hours.contains(hour as i64) {
                Some(
                    a.sightings.filter(
                        |x: SightingView| x.observed_ms as int / 3_600_000 == hour,
                    ).len() as u64,
                )
            } else {
                None
            }
        }),
{
    let hour = now_ms as int / 3_600_000 - (hours - 1 - i);
    let n = a.sightings.len() as int;
    assert(a.sightings.take(n) =~= a.sightings);
    lemma_in_hour(a.sightings, hour, n);
}

// ---- rankings ---------------------------------------------------------------

proof fn lemma_top<T>(rows: Seq<T>, keys: Seq<(i64, i64)>, limit: int)
    requires
        keys.len() == rows.len(),
        0 <= limit,
        forall|i: int| 0 <= i < keys.len() ==> (#[trigger] keys[i]).0 == 0,
    ensures
        top(rows, keys, limit).len() == if limit < rows.len() {
            limit
        } else {
            rows.len() as int
        },
        forall|i: int|
            0 <= i < top(rows, keys, limit).len() ==> 0 <= #[trigger] ranked(keys)[i] < rows.len()
                && top(rows, keys, limit)[i] == rows[ranked(keys)[i]],
        forall|i: int, j: int|
            #![trigger ranked(keys)[i], ranked(keys)[j]]
            0 <= i < j < rows.len() ==> ranked(keys)[i] != ranked(keys)[j]
                && keys[ranked(keys)[i]].1 >= keys[ranked(keys)[j]].1,
        ranked(keys).len() == rows.len(),
        forall|x: int| 0 <= x < rows.len() ==> ranked(keys).contains(x),
{
    ranking_is_stable(keys);
    let order = ranked(keys);
    assert forall|i: int, j: int|
        #![trigger order[i], order[j]]
        0 <= i < j < rows.len() implies order[i] != order[j] && keys[order[i]].1
        >= keys[order[j]].1 by {
        assert(!crate::order::goes_before(keys[order[j]], keys[order[i]]));
    }
}

/// The sightings of an advertiser on the first `k` rows, in all.
pub open spec fn sightings_of(ads: Seq<AdRowView>, name: Seq<char>, k: int) -> int
    decreases k,
{
    if k <= 0 {
        0
    } else if ads[k - 1].advertiser == name {
        sightings_of(ads, name, k - 1) + ads[k - 1].times_seen
    } else {
        sightings_of(ads, name, k - 1)
    }
}

proof fn lemma_absent(ads: Seq<AdRowView>, name: Seq<char>, k: int)
    requires
        0 <= k <= ads.len(),
        forall|i: int| 0 <= i < k ==> (#[trigger] ads[i]).advertiser != name,
    ensures
        sightings_of(ads, name, k) == 0,
        ads.take(k).filter(|x: AdRowView| x.advertiser == name).len() == 0,
    decreases k,
{
    if k == 0 {
        reveal(Seq::filter);
    } else {
        lemma_absent(ads, name, k - 1);
        assert(ads[k - 1].advertiser != name);
        assert(ads.take(k) =~= ads.take(k - 1).push(ads[k - 1]));
        lemma_filter_push(ads.take(k - 1), ads[k - 1], |x: AdRowView| x.advertiser == name);
    }
}

proof fn lemma_board_sums(ads: Seq<AdRowView>, k: int)
    requires
        0 <= k <= ads.len(),
        forall|j: int| 0 <= j < ads.len() ==> (#[trigger] ads[j]).times_seen >= 1,
    ensures
        ({
            let board = board_of(ads, k);
            &&& forall|b: int|
                #![trigger board[b]]
                0 <= b < board.len() ==> board[b].sightings == sightings_of(
                    ads,
                    board[b].advertiser,
                    k,
                ) && board[b].distinct_ads == ads.take(k).filter(
                    |x: AdRowView| x.advertiser == board[b].advertiser,
                ).len()
            &&& forall|i: int|
                #![trigger ads[i]]
                0 <= i < k ==> exists|b: int|
                    0 <= b < board.len() && (#[trigger] board[b]).advertiser == ads[i].advertiser
        }),
    decreases k,
{
    if k > 0 {
        lemma_board_sums(ads, k - 1);
        lemma_board(ads, k - 1);
        let before = board_of(ads, k - 1);
        let board = board_of(ads, k);
        let ad = ads[k - 1];
        lemma_board_place(before, ad.advertiser, 0);
        assert(ads.take(k) =~= ads.take(k - 1).push(ad));
        let at = board_place(before, ad.advertiser, 0);
        assert forall|b: int|
            #![trigger board[b]]
            0 <= b < board.len() implies board[b].sightings == sightings_of(
            ads,
            board[b].advertiser,
            k,
        ) && board[b].distinct_ads == ads.take(k).filter(
            |x: AdRowView| x.advertiser == board[b].advertiser,
        ).len() by {
            let name = board[b].advertiser;
            let keep = |x: AdRowView| x.advertiser == name;
            lemma_filter_push(ads.take(k - 1), ad, keep);
            assert(ads.take(k).filter(keep) == ads.take(k).filter(
                |x: AdRowView| x.advertiser == board[b].advertiser,
            ));
            if b < before.len() {
                assert(before[b].advertiser == name);
                assert(ads.take(k - 1).filter(keep) == ads.take(k - 1).filter(
                    |x: AdRowView| x.advertiser == before[b].advertiser,
                ));
                if at is Some && b != at->0 {
                    assert(before[at->0].advertiser != before[b].advertiser);
                }
            } else {
                assert forall|i: int| 0 <= i < k - 1 implies (#[trigger] ads[i]).advertiser
                    != name by {
                    let q = choose|q: int|
                        0 <= q < before.len() && (#[trigger] before[q]).advertiser
                            == ads[i].advertiser;
                    assert(before[q].advertiser != name);
                }
                lemma_absent(ads, name, k - 1);
            }
        }
        assert forall|i: int|
            #![trigger ads[i]]
            0 <= i < k implies exists|b: int|
            0 <= b < board.len() && (#[trigger] board[b]).advertiser == ads[i].advertiser by {
            if i < k - 1 {
                let b = choose|b: int|
                    0 <= b < before.len() && (#[trigger] before[b]).advertiser
                        == ads[i].advertiser;
                assert(board[b].advertiser == ads[i].advertiser);
            } else {
                let b = match at {
                    Some(p) => p,
                    None => before.len() as int,
                };
                assert(board[b].advertiser == ads[i].advertiser);
            }
        }
    }
}

proof fn lemma_board_names(ads: Seq<AdRowView>, k: int)
    requires
        0 <= k <= ads.len(),
    ensures
        ({
            let board = board_of(ads, k);
            forall|b: int|
                #![trigger board[b]]
                0 <= b < board.len() ==> exists|i: int|
                    0 <= i < k && (#[trigger] ads[i]).advertiser == board[b].advertiser
        }),
    decreases k,
{
    if k > 0 {
        lemma_board_names(ads, k - 1);
        let before = board_of(ads, k - 1);
        let board = board_of(ads, k);
        let ad = ads[k - 1];
        lemma_board_place(before, ad.advertiser, 0);
        assert forall|b: int|
            #![trigger board[b]]
            0 <= b < board.len() implies exists|i: int|
            0 <= i < k && (#[trigger] ads[i]).advertiser == board[b].advertiser by {
            if b < before.len() {
                assert(before[b].advertiser == board[b].advertiser);
                let i = choose|i: int|
                    0 <= i < k - 1 && (#[trigger] ads[i]).advertiser == before[b].advertiser;
                assert(ads[i].advertiser == board[b].advertiser);
            } else {
                assert(ads[k - 1].advertiser == board[b].advertiser);
            }
        }
    }
}

/// The leaderboard lists advertisers by their sightings, most first, and its
/// limit leaves out none with more sightings than one that is listed. Each entry
/// has all the sightings and all the creatives of its advertiser.
pub proof fn leaderboard_ranks_by_sightings(a: ArchiveView, limit: int)
    requires
        wf(a),
        0 <= limit,
    ensures
        ({
            let board = full_board(a);
            let r = top(board, board_keys(board), limit);
            &&& r.len() == if limit < board.len() {
                limit
            } else {
                board.len() as int
            }
            &&& forall|i: int, j: int|
                #![trigger r[i], r[j]]
                0 <= i < j < r.len() ==> r[i].sightings >= r[j].sightings && r[i].advertiser
                    != r[j].advertiser
            &&& forall|x: int, i: int|
                #![trigger board[x], r[i]]
                0 <= x < board.len() && 0 <= i < r.len() && !r.contains(board[x])
                    ==> board[x].sightings <= r[i].sightings
            &&& forall|i: int|
                #![trigger r[i]]
                0 <= i < r.len() ==> r[i].sightings == sightings_of(
                    a.ads,
                    r[i].advertiser,
                    a.ads.len() as int,
                ) && r[i].distinct_ads == a.ads.filter(
                    |x: AdRowView| x.advertiser == r[i].advertiser,
                ).len()
        }),
{
    let m = a.ads.len() as int;
    let board = full_board(a);
    let keys = board_keys(board);
    let r = top(board, keys, limit);
    let order = ranked(keys);
    lemma_board(a.ads, m);
    crate::archive::lemma_total_at_least(a.ads, m);
    lemma_top(board, keys, limit);
    assert forall|i: int, j: int|
        #![trigger r[i], r[j]]
        0 <= i < j < r.len() implies r[i].sightings >= r[j].sightings && r[i].advertiser
        != r[j].advertiser by {
        let x = order[i];
        let y = order[j];
        assert(x != y && keys[x].1 >= keys[y].1);
        assert(r[i] == board[x] && r[j] == board[y]);
        if x < y {
            assert(board[x].advertiser != board[y].advertiser);
        } else {
            assert(board[y].advertiser != board[x].advertiser);
        }
    }
    assert forall|x: int, i: int|
        #![trigger board[x], r[i]]
        0 <= x < board.len() && 0 <= i < r.len() && !r.contains(board[x]) implies board[x].sightings
        <= r[i].sightings by {
        assert(order.contains(x));
        let p = choose|p: int| 0 <= p < order.len() && #[trigger] order[p] == x;
        if p < r.len() {
            assert(r[p] == board[x]);
        }
        assert(order[i] != order[p] && keys[order[i]].1 >= keys[order[p]].1);
    }
    assert forall|i: int|
        #![trigger r[i]]
        0 <= i < r.len() implies r[i].sightings == sightings_of(a.ads, r[i].advertiser, m)
        && r[i].distinct_ads == a.ads.filter(
        |x: AdRowView| x.advertiser == r[i].advertiser,
    ).len() by {
        let b = order[i];
        lemma_board_sums(a.ads, m);
        assert(a.ads.take(m) =~= a.ads);
        assert(r[i] == board[b]);
        assert(a.ads.filter(|x: AdRowView| x.advertiser == r[i].advertiser) == a.ads.filter(
            |x: AdRowView| x.advertiser == board[b].advertiser,
        ));
    }
}

/// The list of ads is most recent first, and its limit leaves out none that was
/// seen later than one that is listed. What it lists are ads of the archive.
pub proof fn ads_are_listed_most_recent_first(ads: Seq<AdRowView>, limit: int)
    requires
        0 <= limit,
    ensures
        ({
            let r = top(ads, ad_keys(ads), limit);
            &&& r.len() == if limit < ads.len() {
                limit
            } else {
                ads.len() as int
            }
            &&& forall|i: int| 0 <= i < r.len() ==> ads.contains(#[trigger] r[i])
            &&& forall|i: int, j: int|
                #![trigger r[i], r[j]]
                0 <= i < j < r.len() ==> r[i].last_seen_ms >= r[j].last_seen_ms
            &&& forall|x: int, i: int|
                #![trigger ads[x], r[i]]
                0 <= x < ads.len() && 0 <= i < r.len() && !r.contains(ads[x])
                    ==> ads[x].last_seen_ms <= r[i].last_seen_ms
        }),
{
    let keys = ad_keys(ads);
    let r = top(ads, keys, limit);
    let order = ranked(keys);
    lemma_top(ads, keys, limit);
    assert forall|i: int| 0 <= i < r.len() implies ads.contains(#[trigger] r[i]) by {
        assert(ads[order[i]] == r[i]);
    }
    assert forall|i: int, j: int|
        #![trigger r[i], r[j]]
        0 <= i < j < r.len() implies r[i].last_seen_ms >= r[j].last_seen_ms by {
        assert(keys[order[i]].1 >= keys[order[j]].1);
    }
    assert forall|x: int, i: int|
        #![trigger ads[x], r[i]]
        0 <= x < ads.len() && 0 <= i < r.len() && !r.contains(ads[x]) implies ads[x].last_seen_ms
        <= r[i].last_seen_ms by {
        assert(order.contains(x));
        let p = choose|p: int| 0 <= p < order.len() && #[trigger] order[p] == x;
        if p < r.len() {
            assert(r[p] == ads[x]);
        }
        assert(order[i] != order[p] && keys[order[i]].1 >= keys[order[p]].1);
    }
}

/// When an item of the cache happened: its own time, or that of its fetch.
pub open spec fn moment(c: CachedItemView) -> i64 {
    match c.item.ts_ms {
        Some(ts) => ts,
        None => c.fetched_ms,
    }
}

/// The feed is read newest first, and its limit leaves out no item that is newer
/// than one that is read. What is read are items of the cache.
pub proof fn feed_is_read_newest_first(items: Seq<CachedItemView>, limit: int) -> (at: Seq<int>)
    requires
        0 <= limit,
    ensures
        ({
            let r = newest_items(items, limit);
            &&& r.len() == if limit < items.len() {
                limit
            } else {
                items.len() as int
            }
            &&& at.len() == items.len()
            &&& forall|i: int|
                #![trigger at[i]]
                0 <= i < at.len() ==> 0 <= at[i] < items.len() && (i < r.len() ==> r[i]
                    == items[at[i]].item)
            &&& forall|i: int, j: int|
                #![trigger at[i], at[j]]
                0 <= i < j < at.len() ==> at[i] != at[j] && moment(items[at[i]]) >= moment(
                    items[at[j]],
                )
        }),
{
    let keys = cache_keys(items);
    lemma_top(items, keys, limit);
    ranking_is_stable(keys);
    let at = ranked(keys);
    assert forall|i: int, j: int|
        #![trigger at[i], at[j]]
        0 <= i < j < at.len() implies at[i] != at[j] && moment(items[at[i]]) >= moment(
        items[at[j]],
    ) by {
        assert(keys[at[i]].1 >= keys[at[j]].1);
    }
    at
}

// ---- links ------------------------------------------------------------------

/// How often the ads of a destination were seen on the first `k` rows, in all.
pub open spec fn visits_of(ads: Seq<AdRowView>, url: Seq<char>, k: int) -> int
    decreases k,
{
    if k <= 0 {
        0
    } else if ads[k - 1].click_url == Some(url) {
        visits_of(ads, url, k - 1) + ads[k - 1].times_seen
    } else {
        visits_of(ads, url, k - 1)
    }
}

proof fn lemma_no_visits(ads: Seq<AdRowView>, url: Seq<char>, k: int)
    requires
        0 <= k <= ads.len(),
        forall|i: int| 0 <= i < k ==> (#[trigger] ads[i]).click_url != Some(url),
    ensures
        visits_of(ads, url, k) == 0,
    decreases k,
{
    if k > 0 {
        lemma_no_visits(ads, url, k - 1);
        assert(ads[k - 1].click_url != Some(url));
    }
}

/// Whether the row at `i` is the first of a destination.
pub open spec fn is_first_of(ads: Seq<AdRowView>, url: Seq<char>, i: int) -> bool {
    &&& 0 <= i < ads.len() && ads[i].click_url == Some(url)
    &&& forall|j: int| 0 <= j < i ==> (#[trigger] ads[j]).click_url != Some(url)
}

/// Whether a link sums up the ads of its destination on the first `k` rows: how
/// often they were seen, when last, and whose the first of them is.
#[verifier::opaque]
pub open spec fn sums_up(l: LinkView, ads: Seq<AdRowView>, k: int) -> bool {
    &&& l.times_seen == visits_of(ads, l.url, k)
    &&& forall|i: int|
        0 <= i < k && (#[trigger] ads[i]).click_url == Some(l.url) ==> ads[i].last_seen_ms
            <= l.last_seen_ms
    &&& exists|i: int|
        0 <= i < k && (#[trigger] ads[i]).click_url == Some(l.url) && ads[i].last_seen_ms
            == l.last_seen_ms
    &&& exists|i: int| #[trigger]
        is_first_of(ads, l.url, i) && i < k && ads[i].advertiser == l.advertiser
}

proof fn lemma_links_sum(ads: Seq<AdRowView>, k: int)
    requires
        0 <= k <= ads.len(),
        forall|j: int| 0 <= j < ads.len() ==> (#[trigger] ads[j]).times_seen >= 1,
    ensures
        ({
            let links = links_of(ads, k);
            &&& forall|b: int| 0 <= b < links.len() ==> sums_up(#[trigger] links[b], ads, k)
            &&& forall|i: int|
                #![trigger ads[i]]
                0 <= i < k && ads[i].click_url is Some ==> exists|b: int|
                    0 <= b < links.len() && Some((#[trigger] links[b]).url) == ads[i].click_url
        }),
    decreases k,
{
    if k > 0 {
        lemma_links_sum(ads, k - 1);
        lemma_links(ads, k - 1);
        let before = links_of(ads, k - 1);
        let links = links_of(ads, k);
        let ad = ads[k - 1];
        let at = match ad.click_url {
            Some(url) => link_place(before, url, 0),
            None => None,
        };
        if let Some(url) = ad.click_url {
            lemma_link_place(before, url, 0);
        }
        assert forall|b: int| 0 <= b < links.len() implies sums_up(#[trigger] links[b], ads, k) by {
            reveal(sums_up);
            let l = links[b];
            if b < before.len() {
                let old_link = before[b];
                assert(sums_up(old_link, ads, k - 1));
                assert(l.url == old_link.url);
                let p = choose|p: int|
                    0 <= p < k - 1 && (#[trigger] ads[p]).click_url == Some(old_link.url)
                        && ads[p].last_seen_ms == old_link.last_seen_ms;
                let q = choose|q: int| #[trigger]
                    is_first_of(ads, old_link.url, q) && q < k - 1 && ads[q].advertiser
                        == old_link.advertiser;
                assert(is_first_of(ads, l.url, q) && ads[q].advertiser == l.advertiser);
                if at == Some(b) {
                    if l.last_seen_ms == old_link.last_seen_ms {
                        assert(ads[p].last_seen_ms == l.last_seen_ms);
                    } else {
                        assert(ads[k - 1].last_seen_ms == l.last_seen_ms);
                    }
                } else {
                    assert(l == old_link);
                    assert(ad.click_url != Some(l.url)) by {
                        if at is Some {
                            assert(before[at->0].url != before[b].url);
                        }
                    }
                    assert(ads[p].last_seen_ms == l.last_seen_ms);
                }
            } else {
                let url = ad.click_url->0;
                assert forall|i: int| 0 <= i < k - 1 implies (#[trigger] ads[i]).click_url != Some(
                    url,
                ) by {
                    if ads[i].click_url == Some(url) {
                        let c = choose|c: int|
                            0 <= c < before.len() && Some((#[trigger] before[c]).url)
                                == ads[i].click_url;
                        assert(before[c].url != url);
                    }
                }
                lemma_no_visits(ads, url, k - 1);
                assert(ads[k - 1].last_seen_ms == l.last_seen_ms);
                assert(is_first_of(ads, l.url, k - 1));
            }
        }
        assert forall|i: int|
            #![trigger ads[i]]
            0 <= i < k && ads[i].click_url is Some implies exists|b: int|
            0 <= b < links.len() && Some((#[trigger] links[b]).url) == ads[i].click_url by {
            if i < k - 1 {
                let b = choose|b: int|
                    0 <= b < before.len() && Some((#[trigger] before[b]).url)
                        == ads[i].click_url;
                assert(Some(links[b].url) == ads[i].click_url);
            } else {
                let b = match at {
                    Some(p) => p,
                    None => before.len() as int,
                };
                assert(Some(links[b].url) == ads[i].click_url);
            }
        }
    }
}

proof fn lemma_links_listed(a: ArchiveView, limit: int)
    requires
        wf(a),
        0 <= limit,
    ensures
        ({
            let links = all_links(a);
            let r = top(links, link_keys(links), limit);
            &&& r.len() == if limit < links.len() {
                limit
            } else {
                links.len() as int
            }
            &&& forall|i: int| 0 <= i < r.len() ==> links.contains(#[trigger] r[i])
            &&& forall|i: int, j: int|
                #![trigger r[i], r[j]]
                0 <= i < j < r.len() ==> r[i].last_seen_ms >= r[j].last_seen_ms && r[i].url
                    != r[j].url
            &&& forall|x: int, i: int|
                #![trigger links[x], r[i]]
                0 <= x < links.len() && 0 <= i < r.len() && !r.contains(links[x])
                    ==> links[x].last_seen_ms <= r[i].last_seen_ms
        }),
{
    let n = a.ads.len() as int;
    let links = all_links(a);
    let keys = link_keys(links);
    let r = top(links, keys, limit);
    let order = ranked(keys);
    lemma_links(a.ads, n);
    lemma_top(links, keys, limit);
    assert forall|i: int| 0 <= i < r.len() implies links.contains(#[trigger] r[i]) by {
        assert(links[order[i]] == r[i]);
    }
    assert forall|i: int, j: int|
        #![trigger r[i], r[j]]
        0 <= i < j < r.len() implies r[i].last_seen_ms >= r[j].last_seen_ms && r[i].url
        != r[j].url by {
        let x = order[i];
        let y = order[j];
        assert(x != y && keys[x].1 >= keys[y].1);
        if x < y {
            assert(links[x].url != links[y].url);
        } else {
            assert(links[y].url != links[x].url);
        }
    }
    assert forall|x: int, i: int|
        #![trigger links[x], r[i]]
        0 <= x < links.len() && 0 <= i < r.len() && !r.contains(links[x])
            implies links[x].last_seen_ms <= r[i].last_seen_ms by {
        assert(order.contains(x));
        let p = choose|p: int| 0 <= p < order.len() && #[trigger] order[p] == x;
        if p < r.len() {
            assert(r[p] == links[x]);
        }
        assert(order[i] != order[p] && keys[order[i]].1 >= keys[order[p]].1);
    }
}

/// The links are the destinations of the ads: each has an entry that sums up its
/// ads, and every entry stands for ads of the archive. They are listed most
/// recent first, and a limit leaves out none that was seen later than one that is
/// listed.
pub proof fn links_sum_up_their_ads(a: ArchiveView, limit: int)
    requires
        wf(a),
        0 <= limit,
    ensures
        ({
            let links = all_links(a);
            let n = a.ads.len() as int;
            let r = top(links, link_keys(links), limit);
            &&& forall|b: int| 0 <= b < links.len() ==> sums_up(#[trigger] links[b], a.ads, n)
            &&& forall|i: int|
                #![trigger a.ads[i]]
                0 <= i < n && a.ads[i].click_url is Some ==> exists|b: int|
                    0 <= b < links.len() && Some((#[trigger] links[b]).url) == a.ads[i].click_url
            &&& r.len() == if limit < links.len() {
                limit
            } else {
                links.len() as int
            }
            &&& forall|i: int| 0 <= i < r.len() ==> links.contains(#[trigger] r[i])
            &&& forall|i: int, j: int|
                #![trigger r[i], r[j]]
                0 <= i < j < r.len() ==> r[i].last_seen_ms >= r[j].last_seen_ms && r[i].url
                    != r[j].url
            &&& forall|x: int, i: int|
                #![trigger links[x], r[i]]
                0 <= x < links.len() && 0 <= i < r.len() && !r.contains(links[x])
                    ==> links[x].last_seen_ms <= r[i].last_seen_ms
        }),
{
    lemma_links_listed(a, limit);
    lemma_links_sum(a.ads, a.ads.len() as int);
}

// ---- the killswitch ---------------------------------------------------------

/// Whether an event says where the killswitch stands.
pub open spec fn reports_switch(e: LogEventView) -> bool {
    e.name == "session.state"@ && e.killed is Some
}

/// Whether the events before `k` leave the killswitch at `killed`: the last of
/// them that says where it stands says so, or none does and it is not thrown.
pub open spec fn known_before(events: Seq<LogEventView>, k: int, killed: bool) -> bool {
    ||| exists|j: int|
        0 <= j < k && reports_switch(#[trigger] events[j]) && events[j].killed == Some(killed)
            && forall|m: int| j < m < k ==> !reports_switch(#[trigger] events[m])
    ||| !killed && forall|m: int| 0 <= m < k ==> !reports_switch(#[trigger] events[m])
}

/// Whether event `k` turns the killswitch.
pub open spec fn is_turn(events: Seq<LogEventView>, k: int) -> bool {
    reports_switch(events[k]) && known_before(events, k, !events[k].killed->0)
}

proof fn lemma_was_killed(events: Seq<LogEventView>, k: int)
    requires
        0 <= k <= events.len(),
    ensures
        known_before(events, k, was_killed(events, k)),
        !known_before(events, k, !was_killed(events, k)),
    decreases k,
{
    if k > 0 {
        lemma_was_killed(events, k - 1);
        let b = was_killed(events, k);
        if reports_switch(events[k - 1]) {
            assert(events[k - 1].killed == Some(b));
        } else {
            if exists|j: int|
                0 <= j < k - 1 && reports_switch(#[trigger] events[j]) && events[j].killed == Some(
                    b,
                ) && forall|m: int| j < m < k - 1 ==> !reports_switch(#[trigger] events[m]) {
                let j = choose|j: int|
                    0 <= j < k - 1 && reports_switch(#[trigger] events[j]) && events[j].killed
                        == Some(b) && forall|m: int|
                        j < m < k - 1 ==> !reports_switch(#[trigger] events[m]);
                assert(reports_switch(events[j]));
            }
            if known_before(events, k, !b) {
                assert(known_before(events, k - 1, !b));
            }
        }
    }
}

/// The timeline holds every turn of the killswitch and nothing else: the events
/// at the indices `at`, in the order of the log, are those that report another
/// state than the last report before them. Read back, it is newest first, and a
/// limit leaves out the oldest.
pub proof fn timeline_is_every_turn(events: Seq<LogEventView>, limit: int) -> (at: Seq<int>)
    requires
        0 <= limit,
    ensures
        ({
            let t = turns(events, events.len() as int);
            let r = newest_first(t, limit);
            &&& at.len() == t.len()
            &&& forall|i: int|
                #![trigger at[i]]
                0 <= i < at.len() ==> 0 <= at[i] < events.len() && is_turn(events, at[i])
            &&& forall|i: int, j: int|
                #![trigger at[i], at[j]]
                0 <= i < j < at.len() ==> at[i] < at[j]
            &&& forall|k: int|
                0 <= k < events.len() && #[trigger] is_turn(events, k) ==> at.contains(k)
            &&& r.len() == if limit < at.len() {
                limit
            } else {
                at.len() as int
            }
            &&& forall|i: int|
                #![trigger r[i]]
                0 <= i < r.len() ==> {
                    let e = events[at[at.len() - 1 - i]];
                    r[i].ts_ms == e.ts_ms && r[i].ts_iso == e.ts_iso && Some(r[i].killed)
                        == e.killed
                }
        }),
{
    let at = lemma_turns(events, events.len() as int);
    let t = turns(events, events.len() as int);
    let r = newest_first(t, limit);
    assert forall|i: int|
        #![trigger r[i]]
        0 <= i < r.len() implies ({
        let e = events[at[at.len() - 1 - i]];
        r[i].ts_ms == e.ts_ms && r[i].ts_iso == e.ts_iso && Some(r[i].killed) == e.killed
    }) by {
        let x = at.len() - 1 - i;
        assert(r[i] == t[x]);
        assert(is_turn(events, at[x]));
    }
    at
}

proof fn lemma_turns(events: Seq<LogEventView>, k: int) -> (at: Seq<int>)
    requires
        0 <= k <= events.len(),
    ensures
        at.len() == turns(events, k).len(),
        forall|i: int|
            #![trigger at[i]]
            0 <= i < at.len() ==> 0 <= at[i] < k && is_turn(events, at[i]) && turns(events, k)[i]
                == (KillswitchView {
                ts_ms: events[at[i]].ts_ms,
                ts_iso: events[at[i]].ts_iso,
                killed: events[at[i]].killed->0,
            }),
        forall|i: int, j: int|
            #![trigger at[i], at[j]]
            0 <= i < j < at.len() ==> at[i] < at[j],
        forall|x: int| 0 <= x < k && #[trigger] is_turn(events, x) ==> at.contains(x),
    decreases k,
{
    if k <= 0 {
        Seq::empty()
    } else {
        let before = lemma_turns(events, k - 1);
        lemma_was_killed(events, k - 1);
        lemma_was_killed(events, k);
        if was_killed(events, k) != was_killed(events, k - 1) {
            let at = before.push(k - 1);
            assert(is_turn(events, k - 1));
            assert forall|x: int| 0 <= x < k && #[trigger] is_turn(events, x) implies at.contains(
                x,
            ) by {
                if x == k - 1 {
                    assert(at[before.len() as int] == x);
                } else {
                    assert(before.contains(x));
                    let i = choose|i: int| 0 <= i < before.len() && before[i] == x;
                    assert(at[i] == x);
                }
            }
            at
        } else {
            assert(!is_turn(events, k - 1));
            before
        }
    }
}

// ---- capture ----------------------------------------------------------------

/// A rotation that is on record changes nothing. Any other adds one sighting, at
/// the end, with the time of the capture; the row of its creative is seen once
/// more and last seen now, and a creative without a row gets one, at the end. No
/// other row changes, and nothing else does.
pub proof fn capture_touches_one_row(
    a: ArchiveView,
    ad_text: Seq<char>,
    click_url: Option<Seq<char>>,
    rotation_ts: i64,
    now_ms: i64,
)
    requires
        wf(a),
    ensures
        ({
            let id = creative_id(click_url, ad_text);
            let b = captured(a, ad_text, click_url, rotation_ts, now_ms);
            let known = exists|i: int|
                0 <= i < a.sightings.len() && (#[trigger] a.sightings[i]).ad_id == id
                    && a.sightings[i].rotation_ts == rotation_ts;
            let has_row = exists|i: int| 0 <= i < a.ads.len() && (#[trigger] a.ads[i]).id == id;
            &&& known ==> b == a
            &&& b.events == a.events && b.hours == a.hours && b.meta == a.meta && b.items
                == a.items && b.sources == a.sources
            &&& !known ==> b.sightings == a.sightings.push(
                SightingView { ad_id: id, rotation_ts, observed_ms: now_ms },
            )
            &&& !known ==> b.ads.len() == a.ads.len() + if has_row {
                0int
            } else {
                1int
            }
            &&& forall|i: int|
                0 <= i < a.ads.len() && (#[trigger] a.ads[i]).id != id ==> b.ads[i] == a.ads[i]
            &&& forall|i: int|
                !known && 0 <= i < a.ads.len() && (#[trigger] a.ads[i]).id == id ==> b.ads[i] == (
                AdRowView {
                    id,
                    advertiser: a.ads[i].advertiser,
                    ad_text: a.ads[i].ad_text,
                    click_url: a.ads[i].click_url,
                    first_seen_ms: a.ads[i].first_seen_ms,
                    last_seen_ms: now_ms,
                    times_seen: a.ads[i].times_seen + 1,
                })
            &&& !known && !has_row ==> b.ads[a.ads.len() as int] == (AdRowView {
                id,
                advertiser: advertiser_of(ad_text, click_url),
                ad_text,
                click_url,
                first_seen_ms: now_ms,
                last_seen_ms: now_ms,
                times_seen: 1,
            })
        }),
{
    let id = creative_id(click_url, ad_text);
    crate::archive::lemma_find_ad(a.ads, id, 0);
    if let Some(k) = find_ad(a.ads, id, 0) {
        assert forall|i: int| 0 <= i < a.ads.len() && (#[trigger] a.ads[i]).id == id implies i
            == k by {
            if i < k {
                assert(a.ads[i].id != a.ads[k].id);
            } else if k < i {
                assert(a.ads[k].id != a.ads[i].id);
            }
        }
    }
}

/// Marking an instant adds the hour that it lies in to those observed, once, and
/// changes nothing else.
pub proof fn observing_marks_the_hour(a: ArchiveView, at_ms: i64, x: i64)
    ensures
        ({
            let b = observed(a, at_ms);
            let hour = at_ms as int / 3_600_000;
            &&& b.hours.contains(x) <==> a.hours.contains(x) || x == hour
            &&& a.hours.no_duplicates() ==> b.hours.no_duplicates()
            &&& b.ads == a.ads && b.sightings == a.sightings && b.events == a.events
            &&& b.meta == a.meta && b.items == a.items && b.sources == a.sources
        }),
{
    let b = observed(a, at_ms);
    let hour = (at_ms as int / 3_600_000) as i64;
    if !a.hours.contains(hour) {
        assert(b.hours[a.hours.len() as int] == hour);
        if a.hours.contains(x) {
            let i = choose|i: int| 0 <= i < a.hours.len() && a.hours[i] == x;
            assert(b.hours[i] == x);
        }
    }
}

/// The value of a name is that of its first entry, and absent only where the name
/// has none.
pub proof fn the_first_entry_of_a_name_counts(
    meta: Seq<(Seq<char>, Seq<char>)>,
    key: Seq<char>,
    i: int,
)
    requires
        0 <= i < meta.len(),
        meta[i].0 == key,
        forall|j: int| 0 <= j < i ==> (#[trigger] meta[j]).0 != key,
    ensures
        meta_value(meta, key, 0) == Some(meta[i].1),
{
    lemma_first_entry(meta, key, i, 0);
}

proof fn lemma_first_entry(
    meta: Seq<(Seq<char>, Seq<char>)>,
    key: Seq<char>,
    i: int,
    k: int,
)
    requires
        0 <= k <= i < meta.len(),
        meta[i].0 == key,
        forall|j: int| 0 <= j < i ==> (#[trigger] meta[j]).0 != key,
    ensures
        meta_value(meta, key, k) == Some(meta[i].1),
    decreases i - k,
{
    if k < i {
        assert(meta[k].0 != key);
        lemma_first_entry(meta, key, i, k + 1);
    }
}

} // verus!
