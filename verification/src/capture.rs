//! The single capture pass shared by every surface that captures.
//!
//! One pass folds the current ad and any new lifecycle events into the archive.
//! It is idempotent: running it on a tight loop never double counts, because
//! de-duplication lives in the archive (rotation timestamp for ads, a watermark
//! for events).

use vstd::prelude::*;

use crate::archive::{
    captured, has_room, is_recorded, meta_value, wf, with_meta, Archive, ArchiveView, CaptureReport,
};
use crate::model::{advertiser_of, creative_id, opt_ad, CliAd, CliAdView};
use crate::sources::{
    event_views, events_of_lines, events_since, is_after, log_event, read_events_since, LogEvent,
    LogEventView,
};
use crate::text::{comes_before, lex_before, opt_str, opt_view};

verus! {

/// The archive's entry that holds the ISO timestamp of the last ingested log
/// line.
pub const WATERMARK_KEY: &'static str = "debug_log_watermark";

/// The archive after the current ad, if any, was captured.
pub open spec fn with_ad(a: ArchiveView, ad: Option<CliAdView>, now_ms: i64) -> ArchiveView {
    match ad {
        Some(ad) => captured(a, ad.ad_text, ad.click_url, ad.ts, now_ms),
        None => a,
    }
}

/// The events of a log that the archive has not ingested yet.
pub open spec fn fresh_events(a: ArchiveView, log: Option<Seq<char>>) -> Seq<LogEventView> {
    match log {
        Some(text) => events_since(text, meta_value(a.meta, WATERMARK_KEY@, 0)),
        None => Seq::empty(),
    }
}

/// The latest timestamp among events.
pub open spec fn newest_ts(events: Seq<LogEventView>) -> Seq<char>
    decreases events.len(),
{
    if events.len() <= 1 {
        events[0].ts_iso
    } else {
        let before = newest_ts(events.drop_last());
        if lex_before(before, events.last().ts_iso) {
            events.last().ts_iso
        } else {
            before
        }
    }
}

/// The archive after the new events of a log, if any, were ingested.
pub open spec fn with_log(a: ArchiveView, log: Option<Seq<char>>) -> ArchiveView {
    let events = fresh_events(a, log);
    if events.len() == 0 {
        a
    } else {
        ArchiveView {
            events: a.events + events,
            meta: with_meta(a.meta, WATERMARK_KEY@, newest_ts(events)),
            ..a
        }
    }
}

/// Whether an archive has room for the current ad, if there is one.
pub open spec fn has_room_for(a: ArchiveView, ad: Option<CliAdView>) -> bool {
    ad matches Some(ad) ==> has_room(a, ad.ad_text, ad.click_url, ad.ts)
}

/// The archive after a capture pass.
pub open spec fn passed(
    a: ArchiveView,
    ad: Option<CliAdView>,
    log: Option<Seq<char>>,
    now_ms: i64,
) -> ArchiveView {
    with_log(with_ad(a, ad, now_ms), log)
}

fn newest_of(events: &Vec<LogEvent>) -> (r: String)
    requires
        events@.len() > 0,
    ensures
        r@ == newest_ts(event_views(events@)),
{
    let ghost views = event_views(events@);
    let mut best = events[0].ts_iso.clone();
    let mut i: usize = 1;
    assert(views.take(1)[0] == events@[0]@);
    while i < events.len()
        invariant
            views == event_views(events@),
            1 <= i <= events@.len(),
            best@ == newest_ts(views.take(i as int)),
        decreases events@.len() - i,
    {
        proof {
            let next = views.take(i + 1);
            assert(next.drop_last() =~= views.take(i as int));
            assert(next.last() == events@[i as int]@);
        }
        if comes_before(best.as_str(), events[i].ts_iso.as_str()) {
            best = events[i].ts_iso.clone();
        }
        i = i + 1;
    }
    assert(views.take(i as int) =~= views);
    best
}

/// Perform one capture pass: the current ad, if there is one, and the text of
/// the lifecycle log, if there is one, are folded into the archive.
pub fn capture_pass(
    archive: &mut Archive,
    ad: Option<&CliAd>,
    log: Option<&str>,
    now_ms: i64,
) -> (r: CaptureReport)
    requires
        wf(old(archive)@),
        has_room_for(old(archive)@, opt_ad(ad)),
    ensures
        wf(final(archive)@),
        final(archive)@ == passed(old(archive)@, opt_ad(ad), opt_str(log), now_ms),
        opt_view(r.advertiser) == (match ad {
            Some(ad) => Some(advertiser_of(ad@.ad_text, ad@.click_url)),
            None => None,
        }),
        r.new_sighting == (match ad {
            Some(ad) => !is_recorded(
                old(archive)@.sightings,
                creative_id(ad@.click_url, ad@.ad_text),
                ad@.ts,
            ),
            None => false,
        }),
        r.new_events == fresh_events(old(archive)@, opt_str(log)).len(),
{
    let mut advertiser: Option<String> = None;
    let mut new_sighting: bool = false;
    if let Some(ad) = ad {
        advertiser = Some(ad.advertiser());
        new_sighting = archive.capture_ad(ad, now_ms);
    }
    let ghost mid = archive@;
    let watermark = archive.meta_get(WATERMARK_KEY);
    let events = match &watermark {
        Some(w) => read_events_since(log, Some(w.as_str())),
        None => read_events_since(log, None),
    };
    assert(event_views(events@) == fresh_events(mid, opt_str(log)));
    assert(event_views(events@).len() == events@.len());
    let mut new_events: usize = 0;
    if events.len() > 0 {
        let newest = newest_of(&events);
        new_events = archive.record_events(&events);
        archive.meta_set(WATERMARK_KEY, newest.as_str());
    }
    CaptureReport { advertiser, new_sighting, new_events }
}

// ---- idempotence ------------------------------------------------------------

proof fn lemma_newest_bounds(
    lines: Seq<Seq<char>>,
    after: Option<Seq<char>>,
    k: int,
    line: int,
)
    requires
        0 <= k <= lines.len(),
        events_of_lines(lines, after, k).len() > 0,
    ensures
        after is Some ==> lex_before(after->0, newest_ts(events_of_lines(lines, after, k))),
        0 <= line < k && log_event(lines[line]) is Some && is_after(
            log_event(lines[line])->0,
            after,
        ) ==> !lex_before(
            newest_ts(events_of_lines(lines, after, k)),
            log_event(lines[line])->0.ts_iso,
        ),
    decreases k,
{
    let events = events_of_lines(lines, after, k);
    let before = events_of_lines(lines, after, k - 1);
    let top = newest_ts(events);
    if k > 0 {
        let here = log_event(lines[k - 1]);
        if here is Some && is_after(here->0, after) {
            let ts = here->0.ts_iso;
            assert(events.drop_last() =~= before);
            assert(events.last() == here->0);
            crate::text::lex_before_is_total_order(ts, ts, ts);
            if before.len() > 0 {
                lemma_newest_bounds(lines, after, k - 1, line);
                let prev = newest_ts(before);
                if 0 <= line < k - 1 && log_event(lines[line]) is Some {
                    let t = log_event(lines[line])->0.ts_iso;
                    crate::text::lex_before_is_total_order(prev, ts, t);
                }
                crate::text::lex_before_is_total_order(prev, ts, ts);
            } else {
                assert(events[0] == here->0);
                lemma_no_events(lines, after, k - 1, line);
            }
        } else {
            assert(events == before);
            lemma_newest_bounds(lines, after, k - 1, line);
        }
    }
}

proof fn lemma_no_events(lines: Seq<Seq<char>>, after: Option<Seq<char>>, k: int, line: int)
    requires
        0 <= k <= lines.len(),
        events_of_lines(lines, after, k).len() == 0,
    ensures
        0 <= line < k && log_event(lines[line]) is Some ==> !is_after(
            log_event(lines[line])->0,
            after,
        ),
    decreases k,
{
    if k > 0 {
        lemma_no_events(lines, after, k - 1, line);
    }
}

proof fn lemma_nothing_after(
    lines: Seq<Seq<char>>,
    after: Option<Seq<char>>,
    n: int,
    k: int,
)
    requires
        0 <= k <= n <= lines.len(),
        events_of_lines(lines, after, n).len() > 0,
    ensures
        events_of_lines(
            lines,
            Some(newest_ts(events_of_lines(lines, after, n))),
            k,
        ).len() == 0,
    decreases k,
{
    if k > 0 {
        lemma_nothing_after(lines, after, n, k - 1);
        lemma_newest_bounds(lines, after, n, k - 1);
        let top = newest_ts(events_of_lines(lines, after, n));
        let here = log_event(lines[k - 1]);
        if here is Some && !is_after(here->0, after) {
            crate::text::lex_before_is_total_order(after->0, top, here->0.ts_iso);
        }
    }
}

/// Reading a log again brings no event in a second time.
pub proof fn log_is_ingested_once(a: ArchiveView, log: Option<Seq<char>>)
    ensures
        fresh_events(with_log(a, log), log).len() == 0,
        with_log(with_log(a, log), log) == with_log(a, log),
{
    let events = fresh_events(a, log);
    if events.len() > 0 {
        let text = log->0;
        let lines = crate::text::lines(text);
        let after = meta_value(a.meta, WATERMARK_KEY@, 0);
        crate::archive::meta_reads_back(
            a.meta,
            WATERMARK_KEY@,
            newest_ts(events),
            WATERMARK_KEY@,
        );
        lemma_nothing_after(lines, after, lines.len() as int, lines.len() as int);
    }
}

/// A pass over the same ad and the same log, run again at whatever time, can
/// always be made, changes nothing, and reports neither a new sighting nor a new
/// event: polling fast never double counts.
pub proof fn capture_pass_is_idempotent(
    a: ArchiveView,
    ad: Option<CliAdView>,
    log: Option<Seq<char>>,
    now_ms: i64,
    later_ms: i64,
)
    ensures
        passed(passed(a, ad, log, now_ms), ad, log, later_ms) == passed(a, ad, log, now_ms),
        fresh_events(passed(a, ad, log, now_ms), log).len() == 0,
        has_room_for(passed(a, ad, log, now_ms), ad),
        ad matches Some(x) ==> is_recorded(
            passed(a, ad, log, now_ms).sightings,
            creative_id(x.click_url, x.ad_text),
            x.ts,
        ),
{
    let b = with_ad(a, ad, now_ms);
    let c = with_log(b, log);
    if let Some(x) = ad {
        crate::archive::capture_is_idempotent(
            a,
            x.ad_text,
            x.click_url,
            x.ts,
            now_ms,
            later_ms,
        );
        crate::archive::capture_records(a, x.ad_text, x.click_url, x.ts, now_ms);
        assert(c.sightings == b.sightings);
    }
    assert(with_ad(c, ad, later_ms) == c);
    log_is_ingested_once(b, log);
}

// ---- what a pass brings in --------------------------------------------------

/// The newest timestamp is that of an event, and no event has a later one.
pub proof fn the_newest_timestamp_is_the_latest(events: Seq<LogEventView>)
    requires
        events.len() > 0,
    ensures
        exists|i: int|
            0 <= i < events.len() && (#[trigger] events[i]).ts_iso == newest_ts(events),
        forall|i: int|
            0 <= i < events.len() ==> !lex_before(newest_ts(events), (#[trigger] events[i]).ts_iso),
    decreases events.len(),
{
    let top = newest_ts(events);
    let last = events.last().ts_iso;
    crate::text::lex_before_is_total_order(last, last, last);
    if events.len() == 1 {
        assert(events[0].ts_iso == top);
    } else {
        let front = events.drop_last();
        the_newest_timestamp_is_the_latest(front);
        let before = newest_ts(front);
        let k = choose|k: int|
            0 <= k < front.len() && (#[trigger] front[k]).ts_iso == newest_ts(front);
        assert(events[k] == front[k]);
        assert(events[events.len() - 1].ts_iso == last);
        if lex_before(before, last) {
            assert(events[events.len() - 1].ts_iso == top);
        } else {
            assert(events[k].ts_iso == top);
        }
        assert forall|i: int| 0 <= i < events.len() implies !lex_before(
            top,
            (#[trigger] events[i]).ts_iso,
        ) by {
            if i < front.len() {
                assert(front[i] == events[i]);
                crate::text::lex_before_is_total_order(before, last, events[i].ts_iso);
                crate::text::lex_before_is_total_order(before, events[i].ts_iso, last);
            }
        }
    }
}

/// A pass appends the new events to those on record and moves the watermark to
/// the latest of them; it leaves every other named value, the hours, the feed and
/// the records of its sources. Without a new event the watermark stays.
pub proof fn a_pass_appends_the_new_events(
    a: ArchiveView,
    ad: Option<CliAdView>,
    log: Option<Seq<char>>,
    now_ms: i64,
    key: Seq<char>,
)
    ensures
        ({
            let b = passed(a, ad, log, now_ms);
            let mark = meta_value(a.meta, "debug_log_watermark"@, 0);
            let new = match log {
                Some(text) => events_since(text, mark),
                None => Seq::empty(),
            };
            &&& b.events == a.events + new
            &&& b.hours == a.hours && b.items == a.items && b.sources == a.sources
            &&& new.len() > 0 ==> meta_value(b.meta, "debug_log_watermark"@, 0) == Some(
                newest_ts(new),
            )
            &&& new.len() == 0 || key != "debug_log_watermark"@ ==> meta_value(b.meta, key, 0)
                == meta_value(a.meta, key, 0)
            &&& ad is None ==> b.ads == a.ads && b.sightings == a.sightings
            &&& ad matches Some(x) ==> {
                let c = captured(a, x.ad_text, x.click_url, x.ts, now_ms);
                b.ads == c.ads && b.sightings == c.sightings
            }
        }),
{
    let c = with_ad(a, ad, now_ms);
    let new = fresh_events(c, log);
    assert(c.meta == a.meta && c.events == a.events);
    if new.len() > 0 {
        crate::archive::meta_reads_back(a.meta, WATERMARK_KEY@, newest_ts(new), key);
    } else {
        assert(a.events + new =~= a.events);
    }
}

} // verus!
