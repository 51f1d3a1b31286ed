//! What the feed does with what came back, stated over the replies and the
//! records.

use vstd::prelude::*;

use crate::archive::cache::{
    health_is_of_its_source, health_of, health_reads_back, holds, last_with_id,
    replacing_is_per_source,
};
use crate::archive::{ArchiveView, CachedItemView};
use crate::feed::bulletin::{
    bodies_split_again, bulletin_item, clean_entries, distilled, entry_line, entry_lines, without_bold, Bulletin, Entry,
    ParsedBulletinView,
};
use crate::feed::cli::SEPARATOR;
use crate::feed::http::{error_text, remaining_of, reset_of, FetchError, Fetched, FetchedBody};
use crate::feed::sync::{
    after_bulletin, after_repo, after_version, bulletin_rows, circuit_open,
    cooldown, cooling_status, every_source_is_walked_as_planned, has_id, is_fresh, issue_rows,
    newest_sync, offline_because, outcome, payload, repo_rows, retry_at,
    settled_health, short_error, streak_cooldown, synced, version_rows, walked,
    walks_are_independent, with_static, OfflineReason, Replies, BULLETIN_SOURCE, ISSUES_SOURCE,
    REPO_SOURCE, VERSION_SOURCE,
};
use crate::feed::{
    display_keys, display_order, first_title, headline_of, kind_priority, latest_version_of,
    static_row, FeedItemView, FeedKind, SourceHealthView,
};
use crate::numbers::{decimal, int_text, numbers_read_back};
use crate::text::{contains, join, split, trim};
use crate::util::sanitized;

verus! {

// ---- the network ------------------------------------------------------------

/// The network may be used only where nothing forbids it; the environment is
/// named first, the flag next, the configuration last.
pub proof fn nothing_overrides_the_environment(flag: bool, enabled: bool, env: bool)
    ensures
        offline_because(flag, enabled, env) == Some(OfflineReason::Env) <==> env,
        offline_because(flag, enabled, env) == Some(OfflineReason::Flag) <==> !env && flag,
        offline_because(flag, enabled, env) == Some(OfflineReason::Config) <==> !env && !flag
            && !enabled,
        offline_because(flag, enabled, env) is None <==> !env && !flag && enabled,
{
}

/// A reported reset is kept where it lies from five to sixty-five minutes ahead,
/// and is moved to the nearer end otherwise; an absent one counts as past.
pub proof fn resets_are_held_in_a_window(reset: i64, now: i64)
    ensures
        now + 300_000 <= reset <= now + 3_900_000 ==> retry_at(Some(reset), now) == reset,
        reset < now + 300_000 ==> retry_at(Some(reset), now) == now + 300_000,
        reset > now + 3_900_000 ==> retry_at(Some(reset), now) == now + 3_900_000,
        retry_at(None, now) == now + 300_000,
{
}

/// The cooldown is five minutes up to the third failure in a row, and with each
/// further one twice what it was before, but never more than half an hour. Under
/// half a minute of jitter, taken off the clock, comes on top.
pub proof fn cooldowns_double_up_to_a_cap(failures: u32, now: i64)
    ensures
        failures <= 3 ==> streak_cooldown(failures) == 300_000,
        3 <= failures < u32::MAX ==> streak_cooldown((failures + 1) as u32) == if 2
            * streak_cooldown(failures) < 1_800_000 {
            2 * streak_cooldown(failures)
        } else {
            1_800_000
        },
        cooldown(failures, now) - streak_cooldown(failures) == (if now < 0 {
            -now
        } else {
            now as int
        }) % 30_000,
{
}

/// A source is left alone exactly while the clock is before the end of its
/// cooldown.
pub proof fn circuits_close_on_time(health: SourceHealthView, now: i64)
    ensures
        circuit_open(health, now) <==> exists|until: i64|
            health.circuit_until_ms == Some(until) && now < until,
{
}

// ---- one source -------------------------------------------------------------

/// A reply that succeeds ends the failure streak and is a sync: the tag is the one
/// that came with the body, and stays where none came or nothing was modified. A
/// budget under eight requests parks the source, and only that does.
pub proof fn successes_are_recorded(health: SourceHealthView, body: FetchedBody, now: i64)
    ensures
        ({
            let h = settled_health(health, Ok(Fetched::NotModified), now);
            &&& h.source == health.source && h.etag == health.etag && h.failures == 0
            &&& h.last_sync_ms == Some(now) && h.circuit_until_ms is None
            &&& h.last_status == "up to date"@
        }),
        ({
            let h = settled_health(health, Ok(Fetched::Body(body)), now);
            let low = body.rate_remaining is Some && body.rate_remaining->0 < 8;
            &&& h.source == health.source && h.failures == 0 && h.last_sync_ms == Some(now)
            &&& body.etag is Some ==> h.etag == Some(body.etag->0@)
            &&& body.etag is None ==> h.etag == health.etag
            &&& low <==> h.circuit_until_ms is Some
            &&& low ==> h.circuit_until_ms == Some(retry_at(body.rate_reset_ms, now) as i64)
            &&& h.last_status == if low {
                "rate limited"@
            } else {
                "ok"@
            }
        }),
{
}

/// A reply that fails adds one to the failure streak and says why; the tag and
/// the time of the last sync stay. The third failure in a row, and every one
/// after it, opens the circuit.
pub proof fn failures_are_recorded(health: SourceHealthView, err: FetchError, now: i64)
    ensures
        ({
            let h = settled_health(health, Err(err), now);
            &&& h.source == health.source && h.etag == health.etag
            &&& h.last_sync_ms == health.last_sync_ms
            &&& health.failures < u32::MAX ==> h.failures == health.failures + 1
            &&& health.failures == u32::MAX ==> h.failures == u32::MAX
            &&& h.last_status == "error: "@ + short_error(error_text(err))
            &&& h.circuit_until_ms is None <==> health.failures + 1 < 3
            &&& health.failures + 1 >= 3 ==> h.circuit_until_ms == Some(
                (now + cooldown(h.failures, now)) as i64,
            )
        }),
{
}

/// An error is shown on one line of at most forty characters, and in full where
/// it fits.
pub proof fn errors_are_shown_in_full_where_they_fit(text: Seq<char>)
    ensures
        short_error(text).len() <= 40,
        forall|i: int|
            0 <= i < short_error(text).len() ==> #[trigger] short_error(text)[i] != '\n'
                && short_error(text)[i] != '\r',
        text.len() <= 40 ==> short_error(text).len() == text.len() && forall|i: int|
            0 <= i < text.len() && text[i] != '\n' && text[i] != '\r' ==> #[trigger] short_error(
                text,
            )[i] == text[i],
{
}

/// While its circuit is open, a source keeps its items, whatever came back, and
/// of its record only the status changes: it tells the whole minutes that are
/// left, and at least one.
pub proof fn open_circuits_only_tell_the_time(
    a: ArchiveView,
    source: Seq<char>,
    fetched: Option<Result<Fetched, FetchError>>,
    items: Seq<FeedItemView>,
    now: i64,
    minutes: int,
)
    requires
        circuit_open(health_of(a.sources, source), now),
        minutes >= 1,
        ({
            let left = health_of(a.sources, source).circuit_until_ms->0 - now;
            minutes * 60_000 <= left < (minutes + 1) * 60_000 || (minutes == 1 && left < 60_000)
        }),
    ensures
        ({
            let b = walked(a, source, fetched, items, now);
            &&& b.items == a.items
            &&& health_of(b.sources, source) == (SourceHealthView {
                last_status: "cooling down ("@ + int_text(minutes) + "m)"@,
                ..health_of(a.sources, source)
            })
        }),
{
    let health = health_of(a.sources, source);
    let until = health.circuit_until_ms->0;
    health_is_of_its_source(a.sources, source);
    let left = (until - now) / 60_000;
    assert((if left < 1 { 1int } else { left }) == minutes);
    assert(cooling_status(until, now) == "cooling down ("@ + int_text(minutes) + "m)"@);
    health_reads_back(
        a.sources,
        SourceHealthView { last_status: cooling_status(until, now), ..health },
        source,
    );
}

/// A source that was not asked is left as it is.
pub proof fn unasked_sources_stay(
    a: ArchiveView,
    source: Seq<char>,
    items: Seq<FeedItemView>,
    now: i64,
)
    requires
        !circuit_open(health_of(a.sources, source), now),
    ensures
        walked(a, source, None, items, now) == a,
{
}

// ---- a whole cycle ----------------------------------------------------------

/// After a cycle the record of every source is what its own reply settles it to,
/// where its circuit was closed and it was asked, and what it was where it was
/// not asked.
pub proof fn every_reply_is_settled(a: ArchiveView, replies: Replies, now: i64)
    ensures
        ({
            let b = synced(a, replies, now);
            &&& is_settled(a, b, "bulletin"@, outcome(replies.bulletin), now)
            &&& is_settled(a, b, "github_repo"@, outcome(replies.repo), now)
            &&& is_settled(a, b, "github_version"@, outcome(replies.version), now)
            &&& is_settled(a, b, "github_issues"@, outcome(replies.issues), now)
        }),
{
    every_source_is_walked_as_planned(a, replies, now);
    reveal_strlit("bulletin");
    reveal_strlit("github_repo");
    reveal_strlit("github_version");
    reveal_strlit("github_issues");
    let b = after_bulletin(a, replies, now);
    let r = after_repo(a, replies, now);
    let v = after_version(a, replies, now);
    assert(BULLETIN_SOURCE@.len() == 8 && REPO_SOURCE@.len() == 11 && VERSION_SOURCE@.len() == 14
        && ISSUES_SOURCE@.len() == 13);
    let of_b = outcome(replies.bulletin);
    let of_r = outcome(replies.repo);
    let of_v = outcome(replies.version);
    let of_i = outcome(replies.issues);
    let new_b = bulletin_rows(payload(replies.bulletin));
    let new_r = repo_rows(payload(replies.repo));
    let new_v = version_rows(payload(replies.version));
    let new_i = issue_rows(payload(replies.issues));
    walks_are_independent(a, BULLETIN_SOURCE@, of_b, new_b, now, REPO_SOURCE@);
    walks_are_independent(b, REPO_SOURCE@, of_r, new_r, now, BULLETIN_SOURCE@);
    walks_are_independent(r, VERSION_SOURCE@, of_v, new_v, now, BULLETIN_SOURCE@);
    walks_are_independent(r, VERSION_SOURCE@, of_v, new_v, now, REPO_SOURCE@);
    walks_are_independent(v, ISSUES_SOURCE@, of_i, new_i, now, BULLETIN_SOURCE@);
    walks_are_independent(v, ISSUES_SOURCE@, of_i, new_i, now, REPO_SOURCE@);
    walks_are_independent(v, ISSUES_SOURCE@, of_i, new_i, now, VERSION_SOURCE@);
}

/// Whether the record of a source is what its reply settles it to.
pub open spec fn is_settled(
    before: ArchiveView,
    after: ArchiveView,
    source: Seq<char>,
    fetched: Option<Result<Fetched, FetchError>>,
    now: i64,
) -> bool {
    let h = health_of(before.sources, source);
    let closed = h.circuit_until_ms is None || h.circuit_until_ms->0 <= now;
    &&& closed && fetched is None ==> health_of(after.sources, source) == h
    &&& closed && fetched is Some ==> health_of(after.sources, source) == settled_health(
        h,
        fetched->0,
        now,
    )
}

/// What is cached after one source was walked, of an id that it does not report:
/// what was cached before, unless it came from that source and a fresh body
/// replaced it.
pub open spec fn outlives(
    a: ArchiveView,
    source: Seq<char>,
    fetched: Option<Result<Fetched, FetchError>>,
    x: CachedItemView,
    now: i64,
) -> bool {
    x.item.source != source || !is_fresh(fetched) || circuit_open(
        health_of(a.sources, source),
        now,
    )
}

proof fn lemma_outlives(
    a: ArchiveView,
    source: Seq<char>,
    fetched: Option<Result<Fetched, FetchError>>,
    items: Seq<FeedItemView>,
    x: CachedItemView,
    now: i64,
)
    requires
        forall|i: int| 0 <= i < items.len() ==> (#[trigger] items[i]).id != x.item.id,
    ensures
        holds(walked(a, source, fetched, items, now).items, x) == (holds(a.items, x) && outlives(
            a,
            source,
            fetched,
            x,
            now,
        )),
{
    lemma_no_id(items, x.item.id, items.len() as int);
    replacing_is_per_source(a.items, source, items, now, x);
}

proof fn lemma_no_id(items: Seq<FeedItemView>, id: Seq<char>, k: int)
    requires
        0 <= k <= items.len(),
        forall|i: int| 0 <= i < items.len() ==> (#[trigger] items[i]).id != id,
    ensures
        last_with_id(items, id, k) is None,
    decreases k,
{
    if k > 0 {
        lemma_no_id(items, id, k - 1);
        assert(items[k - 1].id != id);
    }
}

/// A cycle drops only what a source no longer reports: a cached item that no
/// reply reports again is kept exactly where its own source brought no fresh
/// body.
pub proof fn cycles_drop_only_what_is_gone(
    a: ArchiveView,
    replies: Replies,
    now: i64,
    x: CachedItemView,
)
    requires
        forall|i: int|
            0 <= i < bulletin_rows(payload(replies.bulletin)).len() ==> (#[trigger] bulletin_rows(
                payload(replies.bulletin),
            )[i]).id != x.item.id,
        forall|i: int|
            0 <= i < repo_rows(payload(replies.repo)).len() ==> (#[trigger] repo_rows(
                payload(replies.repo),
            )[i]).id != x.item.id,
        forall|i: int|
            0 <= i < version_rows(payload(replies.version)).len() ==> (#[trigger] version_rows(
                payload(replies.version),
            )[i]).id != x.item.id,
        forall|i: int|
            0 <= i < issue_rows(payload(replies.issues)).len() ==> (#[trigger] issue_rows(
                payload(replies.issues),
            )[i]).id != x.item.id,
    ensures
        holds(synced(a, replies, now).items, x) == (holds(a.items, x) && outlives(
            a,
            "bulletin"@,
            outcome(replies.bulletin),
            x,
            now,
        ) && outlives(a, "github_repo"@, outcome(replies.repo), x, now) && outlives(
            a,
            "github_version"@,
            outcome(replies.version),
            x,
            now,
        ) && outlives(a, "github_issues"@, outcome(replies.issues), x, now)),
{
    every_source_is_walked_as_planned(a, replies, now);
    let b = after_bulletin(a, replies, now);
    let r = after_repo(a, replies, now);
    let v = after_version(a, replies, now);
    lemma_outlives(
        a,
        BULLETIN_SOURCE@,
        outcome(replies.bulletin),
        bulletin_rows(payload(replies.bulletin)),
        x,
        now,
    );
    lemma_outlives(
        b,
        REPO_SOURCE@,
        outcome(replies.repo),
        repo_rows(payload(replies.repo)),
        x,
        now,
    );
    lemma_outlives(
        r,
        VERSION_SOURCE@,
        outcome(replies.version),
        version_rows(payload(replies.version)),
        x,
        now,
    );
    lemma_outlives(
        v,
        ISSUES_SOURCE@,
        outcome(replies.issues),
        issue_rows(payload(replies.issues)),
        x,
        now,
    );
}

// ---- what is read -----------------------------------------------------------

proof fn lemma_has_id(items: Seq<FeedItemView>, id: Seq<char>, k: int)
    requires
        0 <= k <= items.len(),
    ensures
        has_id(items, id, k) <==> exists|i: int| 0 <= i < k && (#[trigger] items[i]).id == id,
    decreases k,
{
    if k > 0 {
        lemma_has_id(items, id, k - 1);
        if has_id(items, id, k - 1) {
            let i = choose|i: int| 0 <= i < k - 1 && (#[trigger] items[i]).id == id;
            assert(items[i].id == id);
        }
        if items[k - 1].id == id {
            assert(has_id(items, id, k));
        }
    }
}

/// The static row comes after the cached items, once: those that carry it already
/// stay as they are.
pub proof fn the_static_row_comes_last(items: Seq<FeedItemView>)
    ensures
        (exists|i: int| 0 <= i < items.len() && (#[trigger] items[i]).id == static_row().id)
            ==> with_static(items) == items,
        (forall|i: int| 0 <= i < items.len() ==> (#[trigger] items[i]).id != static_row().id)
            ==> with_static(items) == items.push(static_row()),
{
    lemma_has_id(items, static_row().id, items.len() as int);
}

proof fn lemma_newest_sync(sources: Seq<SourceHealthView>, k: int)
    requires
        0 <= k <= sources.len(),
    ensures
        forall|i: int|
            0 <= i < k && (#[trigger] sources[i]).last_sync_ms is Some ==> newest_sync(
                sources,
                k,
            ) is Some && sources[i].last_sync_ms->0 <= newest_sync(sources, k)->0,
        newest_sync(sources, k) is Some ==> exists|i: int|
            0 <= i < k && (#[trigger] sources[i]).last_sync_ms == newest_sync(sources, k),
    decreases k,
{
    if k > 0 {
        lemma_newest_sync(sources, k - 1);
        let before = newest_sync(sources, k - 1);
        let after = newest_sync(sources, k);
        if after is Some {
            if sources[k - 1].last_sync_ms == after {
            } else {
                let i = choose|i: int|
                    0 <= i < k - 1 && (#[trigger] sources[i]).last_sync_ms == before;
                assert(sources[i].last_sync_ms == after);
            }
        }
    }
}

/// The last sync of a feed is the latest of any source, and absent only where no
/// source was ever synced.
pub proof fn the_latest_sync_counts(sources: Seq<SourceHealthView>)
    ensures
        ({
            let last = newest_sync(sources, sources.len() as int);
            &&& forall|i: int|
                0 <= i < sources.len() && (#[trigger] sources[i]).last_sync_ms is Some
                    ==> last is Some && sources[i].last_sync_ms->0 <= last->0
            &&& last is Some ==> exists|i: int|
                0 <= i < sources.len() && (#[trigger] sources[i]).last_sync_ms == last
        }),
{
    lemma_newest_sync(sources, sources.len() as int);
}

// ---- what is shown ----------------------------------------------------------

/// A feed shows bulletins first, the version next, the repository's numbers, the
/// issues, and the links last.
pub proof fn kinds_are_shown_in_order()
    ensures
        kind_priority(FeedKind::Bulletin) < kind_priority(FeedKind::Version),
        kind_priority(FeedKind::Version) < kind_priority(FeedKind::Stat),
        kind_priority(FeedKind::Stat) < kind_priority(FeedKind::Issue),
        kind_priority(FeedKind::Issue) < kind_priority(FeedKind::Link),
{
}

proof fn lemma_first_title(
    items: Seq<FeedItemView>,
    order: Seq<int>,
    kind: FeedKind,
    k: int,
) -> (at: int)
    requires
        0 <= k <= order.len(),
    ensures
        k <= at <= order.len(),
        forall|j: int| k <= j < at ==> items[#[trigger] order[j]].kind != kind,
        at < order.len() ==> items[order[at]].kind == kind && first_title(items, order, kind, k)
            == Some(items[order[at]].title),
        at == order.len() ==> first_title(items, order, kind, k) is None,
    decreases order.len() - k,
{
    if k < order.len() && items[order[k]].kind != kind {
        lemma_first_title(items, order, kind, k + 1)
    } else {
        k
    }
}

/// Whether an item is of a kind and none of that kind has a later time.
pub open spec fn is_newest_of(items: Seq<FeedItemView>, x: int, kind: FeedKind) -> bool {
    &&& items[x].kind == kind
    &&& forall|y: int|
        0 <= y < items.len() && (#[trigger] items[y]).kind == kind && items[y].ts_ms is Some
            && items[y].ts_ms->0 > i64::MIN ==> items[x].ts_ms is Some && items[y].ts_ms->0
            <= items[x].ts_ms->0
}

proof fn lemma_is_newest(items: Seq<FeedItemView>, kind: FeedKind, i: int)
    requires
        0 <= i < display_order(items).len(),
        items[display_order(items)[i]].kind == kind,
        forall|j: int| 0 <= j < i ==> items[#[trigger] display_order(items)[j]].kind != kind,
    ensures
        is_newest_of(items, display_order(items)[i], kind),
{
    let order = display_order(items);
    let keys = display_keys(items);
    let x = order[i];
    assert forall|y: int|
        0 <= y < items.len() && (#[trigger] items[y]).kind == kind && items[y].ts_ms is Some
            && items[y].ts_ms->0 > i64::MIN implies items[x].ts_ms is Some && items[y].ts_ms->0
        <= items[x].ts_ms->0 by {
        let j = lemma_is_shown(items, y);
        if j < i {
            assert(items[order[j]].kind != kind);
        } else if j > i {
            lemma_shown_before(items, i, j);
            assert(keys[x].0 == keys[y].0);
            assert(keys[x].1 >= keys[y].1);
        }
    }
}

proof fn lemma_is_shown(items: Seq<FeedItemView>, y: int) -> (j: int)
    requires
        0 <= y < items.len(),
    ensures
        0 <= j < display_order(items).len(),
        display_order(items)[j] == y,
{
    let order = display_order(items);
    crate::order::ranking_is_stable(display_keys(items));
    assert(order.contains(y));
    choose|j: int| 0 <= j < order.len() && order[j] == y
}

proof fn lemma_shown_before(items: Seq<FeedItemView>, i: int, j: int)
    requires
        0 <= i < j < display_order(items).len(),
    ensures
        0 <= display_order(items)[i] < items.len(),
        0 <= display_order(items)[j] < items.len(),
        ({
            let a = display_keys(items)[display_order(items)[i]];
            let b = display_keys(items)[display_order(items)[j]];
            a.0 < b.0 || (a.0 == b.0 && a.1 >= b.1)
        }),
{
    crate::order::ranking_is_stable(display_keys(items));
}

proof fn lemma_newest_title(items: Seq<FeedItemView>, kind: FeedKind)
    ensures
        match first_title(items, display_order(items), kind, 0) {
            Some(title) => exists|x: int|
                0 <= x < items.len() && #[trigger] is_newest_of(items, x, kind) && items[x].title
                    == title,
            None => forall|x: int| 0 <= x < items.len() ==> (#[trigger] items[x]).kind != kind,
        },
{
    let order = display_order(items);
    let at = lemma_first_title(items, order, kind, 0);
    if at < order.len() {
        lemma_is_newest(items, kind, at);
        assert(0 <= order[at] < items.len()) by {
            crate::order::ranking_is_stable(display_keys(items));
        }
    } else {
        assert forall|x: int| 0 <= x < items.len() implies (#[trigger] items[x]).kind != kind by {
            let j = lemma_is_shown(items, x);
            assert(items[order[j]].kind != kind);
        }
    }
}

/// The headline is the title of a newest bulletin, and the version is what the
/// title of a newest version item ends in; each is absent only where the feed has
/// no such item, or its title does not tell a version.
pub proof fn the_newest_of_a_kind_is_told(items: Seq<FeedItemView>)
    ensures
        match headline_of(items) {
            Some(title) => exists|x: int|
                0 <= x < items.len() && #[trigger] is_newest_of(items, x, FeedKind::Bulletin)
                    && items[x].title == title,
            None => forall|x: int|
                0 <= x < items.len() ==> (#[trigger] items[x]).kind != FeedKind::Bulletin,
        },
        match latest_version_of(items) {
            Some(v) => exists|x: int|
                0 <= x < items.len() && #[trigger] is_newest_of(items, x, FeedKind::Version)
                    && items[x].title == "Extension synced to v"@ + v,
            None => (forall|x: int|
                0 <= x < items.len() ==> (#[trigger] items[x]).kind != FeedKind::Version) || (
            exists|x: int|
                0 <= x < items.len() && #[trigger] is_newest_of(items, x, FeedKind::Version)
                    && !crate::text::starts_with(items[x].title, "Extension synced to v"@)),
        },
{
    lemma_newest_title(items, FeedKind::Bulletin);
    lemma_newest_title(items, FeedKind::Version);
    let title = first_title(items, display_order(items), FeedKind::Version, 0);
    if title is Some {
        let x = choose|x: int|
            0 <= x < items.len() && #[trigger] is_newest_of(items, x, FeedKind::Version)
                && items[x].title == title->0;
        let mark = "Extension synced to v"@;
        if let Some(v) = latest_version_of(items) {
            assert(items[x].title =~= mark + v);
        }
        assert(is_newest_of(items, x, FeedKind::Version));
    }
}

// ---- headers ----------------------------------------------------------------

/// A rate header that writes a number is read as that number: the budget as it
/// stands, the reset from seconds to milliseconds. One that does not fit is not
/// read, and a reset past the range is held at its end.
pub proof fn rate_headers_are_read(n: nat, secs: int)
    ensures
        n <= u32::MAX ==> remaining_of(Some(decimal(n))) == Some(n as u32),
        n > u32::MAX ==> remaining_of(Some(decimal(n))) is None,
        remaining_of(None) is None,
        i64::MIN <= secs * 1000 <= i64::MAX ==> reset_of(Some(int_text(secs))) == Some(
            (secs * 1000) as i64,
        ),
        secs <= i64::MAX < secs * 1000 ==> reset_of(Some(int_text(secs))) == Some(i64::MAX),
        reset_of(None) is None,
{
    numbers_read_back(n, secs);
}

// ---- bulletins --------------------------------------------------------------

proof fn lemma_entries(items: Seq<Entry>, k: int) -> (at: Seq<int>)
    requires
        0 <= k <= items.len(),
    ensures
        at.len() == entry_lines(items, k).len(),
        forall|i: int|
            #![trigger at[i]]
            0 <= i < at.len() ==> 0 <= at[i] < k && trim(items[at[i]].text@).len() > 0
                && entry_lines(items, k)[i] == entry_line(items[at[i]]),
        forall|i: int, j: int|
            #![trigger at[i], at[j]]
            0 <= i < j < at.len() ==> at[i] < at[j],
        forall|x: int|
            #![trigger items[x]]
            0 <= x < k && trim(items[x].text@).len() > 0 ==> at.contains(x),
    decreases k,
{
    if k <= 0 {
        Seq::empty()
    } else {
        let before = lemma_entries(items, k - 1);
        if trim(items[k - 1].text@).len() == 0 {
            before
        } else {
            let at = before.push(k - 1);
            assert forall|x: int|
                #![trigger items[x]]
                0 <= x < k && trim(items[x].text@).len() > 0 implies at.contains(x) by {
                if x == k - 1 {
                    assert(at[before.len() as int] == x);
                } else {
                    assert(before.contains(x));
                    let i = choose|i: int| 0 <= i < before.len() && before[i] == x;
                    assert(at[i] == x);
                }
            }
            at
        }
    }
}

/// A bulletin is told exactly where it is active and has a headline. All its
/// entries with a text are kept, in order, each after its time, or after its
/// glyph where it has no time; a bulletin without a tag gets one.
pub proof fn bulletins_keep_their_entries(b: Bulletin) -> (at: Seq<int>)
    ensures
        distilled(b) is Some <==> b.active && trim(without_bold(b.headline@)).len() > 0,
        distilled(b) matches Some(p) ==> {
            &&& p.id == b.id@ && p.published == b.ts@ && p.headline == without_bold(b.headline@)
            &&& b.tag@.len() > 0 ==> p.tag == b.tag@
            &&& b.tag@.len() == 0 ==> p.tag == "service bulletin"@
            &&& at.len() == p.entries.len()
            &&& forall|i: int, j: int|
                #![trigger at[i], at[j]]
                0 <= i < j < at.len() ==> at[i] < at[j]
            &&& forall|x: int|
                #![trigger b.items@[x]]
                0 <= x < b.items@.len() && trim(b.items@[x].text@).len() > 0 ==> at.contains(x)
            &&& forall|i: int|
                #![trigger at[i]]
                0 <= i < at.len() ==> {
                    let e = b.items@[at[i]];
                    let text = without_bold(e.text@);
                    &&& 0 <= at[i] < b.items@.len()
                    &&& trim(e.text@).len() > 0
                    &&& e.ts is Some && trim(e.ts->0@).len() > 0 ==> p.entries[i] == trim(
                        e.ts->0@,
                    ) + " \u{2014} "@ + text
                    &&& e.ts is Some && trim(e.ts->0@).len() == 0 ==> p.entries[i] == text
                    &&& e.ts is None && e.icon is Some && trim(e.icon->0@).len() > 0
                        ==> p.entries[i] == trim(e.icon->0@) + " \u{2014} "@ + text
                    &&& e.ts is None && (e.icon is None || trim(e.icon->0@).len() == 0)
                        ==> p.entries[i] == text
                }
        },
{
    crate::text_laws::trim_takes_white_ends(Seq::empty());
    assert(trim(Seq::<char>::empty()).len() == 0);
    lemma_entries(b.items@, b.items@.len() as int)
}

/// The item of a bulletin is titled by its headline and links to the homepage. Its
/// body splits again into its clean entries, or tells when it was published where
/// the entries say nothing.
pub proof fn bulletin_items_show_their_entries(b: ParsedBulletinView)
    ensures
        ({
            let item = bulletin_item(b);
            &&& item.kind == FeedKind::Bulletin && item.title == sanitized(b.headline)
            &&& item.url == Some("https://kickbacks.ai/"@) && item.ts_ms is None
            &&& item.source == "bulletin"@
            &&& join(b.entries, "  \u{b7}  "@).len() == 0 ==> item.body == sanitized(b.published)
            &&& join(b.entries, "  \u{b7}  "@).len() > 0 ==> split(item.body, "  \u{b7}  "@)
                == Seq::new(b.entries.len(), |i: int| sanitized(b.entries[i]))
        }),
{
    if join(b.entries, SEPARATOR@).len() > 0 {
        bodies_split_again(b.entries);
        assert(clean_entries(b.entries) =~= Seq::new(
            b.entries.len(),
            |i: int| sanitized(b.entries[i]),
        ));
    }
}

/// Only the bold marks are dropped from a text, and all of them.
pub proof fn only_bold_marks_are_dropped(s: Seq<char>)
    ensures
        without_bold(s) == join(split(s, "**"@), Seq::empty()),
        !contains(s, "**"@) ==> without_bold(s) == s,
{
    reveal_strlit("**");
    reveal_strlit("");
    assert(""@ =~= Seq::<char>::empty());
    crate::text_laws::replace_joins_the_parts(s, "**"@, ""@);
    if !contains(s, "**"@) {
        crate::text::lemma_find_from(s, "**"@, 0);
        assert(s.skip(0) =~= s);
    }
}

// ---- limits -----------------------------------------------------------------

/// A feed shows the forty newest items of the cache and the static row, which may
/// be among them.
pub proof fn feeds_show_forty_items(
    snapshot: crate::feed::FeedSnapshot,
    a: ArchiveView,
    offline: bool,
)
    requires
        crate::feed::sync::shows_cache(snapshot, a, offline),
    ensures
        ({
            let cached = crate::archive::cache::newest_items(a.items, 40);
            let shown = crate::feed::item_views(snapshot.items@);
            &&& cached.len() <= 40
            &&& shown.take(cached.len() as int) == cached
            &&& shown.len() <= cached.len() + 1
            &&& snapshot.offline == offline
            &&& crate::feed::health_views(snapshot.sources@) == a.sources
        }),
{
    let cached = crate::archive::cache::newest_items(a.items, 40);
    assert(with_static(cached).take(cached.len() as int) =~= cached);
}

/// A cycle keeps at most eight issues.
pub proof fn cycles_keep_eight_issues(issues: Vec<crate::feed::github::Issue>)
    ensures
        issue_rows(Some(issues)) == crate::feed::github::issue_items(
            issues@,
            8,
            "github_issues"@,
            issues@.len() as int,
        ),
        issue_rows(Some(issues)).len() <= 8,
{
    crate::feed::github::real_issues_are_kept_in_order(issues@, 8, "github_issues"@);
}

// ---- identifiers ------------------------------------------------------------

/// The identifier of an item is that of its kind, its URL and its clean title on a
/// line each; neither its body nor its time changes it.
pub proof fn item_ids_are_of_kind_url_and_title(
    kind: FeedKind,
    title: Seq<char>,
    body: Seq<char>,
    url: Option<Seq<char>>,
    ts_ms: Option<i64>,
    source: Seq<char>,
)
    ensures
        ({
            let item = crate::feed::built_item(kind, title, body, url, ts_ms, source);
            let lines = crate::feed::kind_tag(kind).push('\n') + crate::text::or_empty(url).push(
                '\n',
            ) + sanitized(title);
            &&& item.id == crate::digest::short_id(vstd::utf8::encode_utf8(lines))
            &&& item.kind == kind && item.url == url && item.ts_ms == ts_ms && item.source == source
            &&& item.title == sanitized(title) && item.body == sanitized(body)
        }),
{
    let tag = crate::feed::kind_tag(kind);
    let u = crate::text::or_empty(url);
    let nl = seq!['\n'];
    let t = sanitized(title);
    crate::digest::texts_are_encoded_in_order(tag, nl);
    crate::digest::texts_are_encoded_in_order(tag + nl, u);
    crate::digest::texts_are_encoded_in_order(tag + nl + u, nl);
    crate::digest::texts_are_encoded_in_order(tag + nl + u + nl, t);
    let lines = tag.push('\n') + u.push('\n') + t;
    assert(lines =~= tag + nl + u + nl + t);
    assert(crate::feed::item_bytes(kind, url, t) =~= vstd::utf8::encode_utf8(lines));
}

// ---- what a body brings -----------------------------------------------------

/// A commit log brings the version of its first commit that syncs one, and nothing
/// exactly where none does.
pub proof fn a_log_brings_its_first_sync(commits: Vec<crate::feed::github::CommitItem>, i: int)
    requires
        0 <= i < commits@.len(),
        forall|j: int|
            0 <= j < i ==> crate::feed::github::sync_version(
                (#[trigger] commits@[j]).commit.message@,
            ) is None,
    ensures
        crate::feed::github::sync_version(commits@[i].commit.message@) matches Some(v)
            ==> version_rows(Some(commits)).len() == 1 && version_rows(Some(commits))[0].title
            == sanitized("Extension synced to v"@ + v) && version_rows(Some(commits))[0].ts_ms
            == crate::feed::github::instant_of(commits@[i].commit.author.date),
        i == commits@.len() - 1 && crate::feed::github::sync_version(
            commits@[i].commit.message@,
        ) is None ==> version_rows(Some(commits)).len() == 0,
{
    crate::feed::github::the_first_sync_decides(commits@, i);
}

/// A bulletin brings one item exactly where it is active and has a headline; the
/// statistics of a repository always bring one. What could not be read brings
/// nothing.
pub proof fn bodies_bring_their_items(b: Bulletin, repo: crate::feed::github::Repo)
    ensures
        b.active && trim(without_bold(b.headline@)).len() > 0 ==> bulletin_rows(Some(b)).len() == 1
            && bulletin_rows(Some(b))[0].title == sanitized(without_bold(b.headline@)),
        !b.active || trim(without_bold(b.headline@)).len() == 0 ==> bulletin_rows(Some(b)).len()
            == 0,
        repo_rows(Some(repo)).len() == 1,
        repo_rows(Some(repo))[0].kind == FeedKind::Stat,
        repo_rows(Some(repo))[0].ts_ms == crate::feed::github::instant_of(repo.pushed_at),
        bulletin_rows(None).len() == 0 && repo_rows(None).len() == 0,
        version_rows(None).len() == 0 && issue_rows(None).len() == 0,
{
}

} // verus!
