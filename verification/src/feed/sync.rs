//! The fetch orchestrator: it decides whether the network may be used, walks
//! each public source behind a per-source circuit breaker, turns fresh bodies
//! into feed items, and keeps everything in the archive's cache. Read surfaces
//! use [`read_cached`] and never the network.
//!
//! Stale-while-revalidate is the rule: a failed or skipped source keeps its last
//! good cached items, so the feed always shows the best data there is, and a
//! transient outage degrades to "last synced 12m ago" rather than an empty pane.

use vstd::prelude::*;

use crate::archive::cache::{
    health_of, health_reads_back, holds, last_with_id, newest_items, replaced,
    replacing_is_per_source, with_health,
};
use crate::archive::{wf, Archive, ArchiveView, CachedItemView};
use crate::config::Config;
use crate::feed::bulletin::{self, Bulletin};
use crate::feed::github::{self, CommitItem, Issue, Repo};
use crate::feed::http::{condition, error_text, FetchError, Fetched, FetchedBody};
use crate::feed::{
    health_views, item_views, static_items, static_row, FeedItem, FeedItemView, FeedSnapshot,
    SourceHealthView,
};
use crate::numbers::{int_text, signed_text};
use crate::text::{chars_of, clone_opt, concat, opt_view, same_text, text_between};
use crate::util::{truncate, truncated};

verus! {

/// Open the circuit after this many consecutive failures.
pub const FAILURE_THRESHOLD: u32 = 3;

/// Base cooldown once the circuit opens; grows with continued failure.
pub const COOLDOWN_BASE_MS: i64 = 300_000;

/// The growth of the cooldown stops here, so a long outage still retries
/// periodically.
pub const COOLDOWN_MAX_MS: i64 = 1_800_000;

/// Back off briefly when the remaining request budget runs low.
pub const RATE_FLOOR: u32 = 8;

/// A rate-limit cooldown is capped here (just over an hourly reset), so a
/// malformed or hostile reset time cannot park a source indefinitely.
pub const RATE_LIMIT_MAX_MS: i64 = 3_900_000;

/// How many feed items to keep / show.
pub const FEED_LIMIT: usize = 40;

/// How many issues the feed shows.
pub const ISSUE_LIMIT: usize = 8;

// ---- whether the network may be used ----------------------------------------

/// Reasons the network is unavailable for this process, for an honest message.
#[derive(Debug, Clone, Copy, PartialEq, Eq, Structural)]
pub enum OfflineReason {
    /// `--offline` flag, or a non-fetching surface.
    Flag,
    /// `feed.enabled = false` in the config.
    Config,
    /// `KICKBACKS_KIT_OFFLINE` is set in the environment.
    Env,
}

/// Why the network may not be used, if it may not.
pub open spec fn offline_because(
    cli_offline: bool,
    feed_enabled: bool,
    env_offline: bool,
) -> Option<OfflineReason> {
    if env_offline {
        Some(OfflineReason::Env)
    } else if cli_offline {
        Some(OfflineReason::Flag)
    } else if !feed_enabled {
        Some(OfflineReason::Config)
    } else {
        None
    }
}

/// Decide whether the feed may use the network. `cli_offline` is the per-command
/// `--offline` flag; `env_offline` says whether the environment kill switch is
/// set, which wins over everything.
pub fn offline_reason(cli_offline: bool, cfg: &Config, env_offline: bool) -> (r: Option<
    OfflineReason,
>)
    ensures
        r == offline_because(cli_offline, cfg.feed.enabled, env_offline),
{
    if env_offline {
        return Some(OfflineReason::Env);
    }
    if cli_offline {
        return Some(OfflineReason::Flag);
    }
    if !cfg.feed.enabled {
        return Some(OfflineReason::Config);
    }
    None
}

/// The User-Agent to send. GitHub requires a non-empty one and asks tools to
/// identify themselves; this is honest about who is calling.
pub fn user_agent(version: &str) -> (r: String)
    ensures
        r@ == "kickbacks-kit/"@ + version@ + " (+https://github.com/"@ + github::SELF_REPO@
            + ")"@,
{
    let mut out = concat("kickbacks-kit/", version);
    out.push_str(" (+https://github.com/");
    out.push_str(github::SELF_REPO);
    out.push_str(")");
    out
}

// ---- backing off ------------------------------------------------------------

/// When to retry a rate-limited source: at the reported reset, held within a
/// window after `now`.
pub open spec fn retry_at(reset_ms: Option<i64>, now: i64) -> int {
    let floor = now + COOLDOWN_BASE_MS;
    let ceil = now + RATE_LIMIT_MAX_MS;
    match reset_ms {
        Some(reset) => if reset < floor {
            floor
        } else if reset > ceil {
            ceil
        } else {
            reset as int
        },
        None => floor,
    }
}

/// When to retry a rate-limited source. Trusts the server's reset time, but
/// clamps it into a sane window: at least `COOLDOWN_BASE_MS` out (so an absent
/// or already-past reset still parks the source, instead of leaving the circuit
/// closed and hammering a near-empty budget), and at most `RATE_LIMIT_MAX_MS`
/// (so a hostile or broken reset time cannot park a source forever).
pub fn rate_limit_until(reset_ms: Option<i64>, now: i64) -> (r: i64)
    requires
        now + RATE_LIMIT_MAX_MS <= i64::MAX,
    ensures
        r == retry_at(reset_ms, now),
        now + COOLDOWN_BASE_MS <= r <= now + RATE_LIMIT_MAX_MS,
{
    let floor: i64 = now + COOLDOWN_BASE_MS;
    let ceil: i64 = now + RATE_LIMIT_MAX_MS;
    match reset_ms {
        Some(reset) => if reset < floor {
            floor
        } else if reset > ceil {
            ceil
        } else {
            reset
        },
        None => floor,
    }
}

/// The cooldown of a failure streak: the base, doubled with each failure past
/// the threshold, up to the maximum.
pub open spec fn streak_cooldown(failures: u32) -> int {
    if failures <= FAILURE_THRESHOLD {
        COOLDOWN_BASE_MS as int
    } else if failures == FAILURE_THRESHOLD + 1 {
        2 * COOLDOWN_BASE_MS
    } else if failures == FAILURE_THRESHOLD + 2 {
        4 * COOLDOWN_BASE_MS
    } else {
        COOLDOWN_MAX_MS as int
    }
}

/// The distance of a clock reading from the epoch.
pub open spec fn distance(now: i64) -> int {
    if now < 0 {
        -now
    } else {
        now as int
    }
}

/// The cooldown of a failure streak with its jitter.
pub open spec fn cooldown(failures: u32, now: i64) -> int {
    streak_cooldown(failures) + distance(now) % 30_000
}

/// Cooldown that grows with the failure streak, jittered so many installs do
/// not retry in lockstep, capped so a long outage still retries.
pub fn cooldown_for(failures: u32, now: i64) -> (r: i64)
    ensures
        r == cooldown(failures, now),
        COOLDOWN_BASE_MS <= r < COOLDOWN_MAX_MS + 30_000,
{
    let capped: i64 = if failures <= FAILURE_THRESHOLD {
        COOLDOWN_BASE_MS
    } else if failures == FAILURE_THRESHOLD + 1 {
        2 * COOLDOWN_BASE_MS
    } else if failures == FAILURE_THRESHOLD + 2 {
        4 * COOLDOWN_BASE_MS
    } else {
        COOLDOWN_MAX_MS
    };
    // Jitter up to ~30s, derived from the clock.
    let wide: i128 = now as i128;
    let apart: i128 = if wide < 0 {
        0 - wide
    } else {
        wide
    };
    let jitter: i64 = (apart % 30_000) as i64;
    capped + jitter
}

/// A longer failure streak never cools down for less time, and no streak for
/// more than the maximum and its jitter.
pub proof fn cooldown_grows_with_the_streak(a: u32, b: u32, now: i64)
    requires
        a <= b,
    ensures
        COOLDOWN_BASE_MS <= cooldown(a, now) <= cooldown(b, now) < COOLDOWN_MAX_MS + 30_000,
{
}

/// Whether the circuit of a source is open: it is not to be asked yet.
pub open spec fn circuit_open(health: SourceHealthView, now: i64) -> bool {
    match health.circuit_until_ms {
        Some(until) => now < until,
        None => false,
    }
}

/// The status of a source that is cooling down.
pub open spec fn cooling_status(until: i64, now: i64) -> Seq<char> {
    let minutes = (until - now) / 60_000;
    "cooling down ("@ + int_text(
        if minutes < 1 {
            1
        } else {
            minutes
        },
    ) + "m)"@
}

/// A text with each line break made a space.
pub open spec fn on_one_line(s: Seq<char>) -> Seq<char> {
    Seq::new(
        s.len(),
        |i: int|
            if s[i] == '\n' || s[i] == '\r' {
                ' '
            } else {
                s[i]
            },
    )
}

/// The compact form of an error's text.
pub open spec fn short_error(text: Seq<char>) -> Seq<char> {
    truncated(on_one_line(text), 40)
}

/// A compact, single-line form of a fetch error for the status field.
pub fn short_err(err: &FetchError) -> (r: String)
    ensures
        r@ == short_error(error_text(*err)),
        r@.len() <= 40,
{
    let text = err.to_string();
    let chars = chars_of(text.as_str());
    let mut flat: Vec<char> = Vec::new();
    let mut i: usize = 0;
    while i < chars.len()
        invariant
            i <= chars@.len(),
            flat@ == on_one_line(chars@).take(i as int),
        decreases chars@.len() - i,
    {
        let c = chars[i];
        if c == '\n' || c == '\r' {
            flat.push(' ');
        } else {
            flat.push(c);
        }
        proof {
            let all = on_one_line(chars@);
            assert(all.take(i + 1) =~= all.take(i as int).push(all[i as int]));
        }
        i = i + 1;
    }
    assert(flat@ =~= on_one_line(chars@));
    let n: usize = flat.len();
    assert(flat@.subrange(0, n as int) =~= flat@);
    let line = text_between(&flat, 0, n);
    truncate(line.as_str(), 40)
}

// ---- one source -------------------------------------------------------------

/// A request to make.
#[derive(Debug)]
pub struct Request {
    pub url: String,
    /// The tag to send for a conditional request.
    pub etag: Option<String>,
}

/// The tag of a conditional request: the stored one, unless it is empty.
pub open spec fn tag_to_send(etag: Option<Seq<char>>) -> Option<Seq<char>> {
    match etag {
        Some(tag) => if tag.len() > 0 {
            Some(tag)
        } else {
            None
        },
        None => None,
    }
}

/// The request that a source is due for; none while its circuit is open.
pub fn request_for(archive: &Archive, source: &str, url: &str, now: i64) -> (r: Option<Request>)
    ensures
        r is None <==> circuit_open(health_of(archive@.sources, source@), now),
        r matches Some(q) ==> q.url@ == url@ && opt_view(q.etag) == tag_to_send(
            health_of(archive@.sources, source@).etag,
        ),
{
    let health = archive.feed_source(source);
    if let Some(until) = health.circuit_until_ms {
        if now < until {
            return None;
        }
    }
    let etag = match &health.etag {
        Some(tag) => condition(Some(tag.as_str())),
        None => None,
    };
    Some(Request { url: url.to_owned(), etag })
}

/// Whether a response reports a request budget that runs low.
pub open spec fn budget_is_low(body: FetchedBody) -> bool {
    match body.rate_remaining {
        Some(remaining) => remaining < RATE_FLOOR,
        None => false,
    }
}

/// The failure streak after one more failure.
pub open spec fn one_more_failure(failures: u32) -> u32 {
    if failures < u32::MAX {
        (failures + 1) as u32
    } else {
        failures
    }
}

/// The health of a source after it was asked.
pub open spec fn settled_health(
    health: SourceHealthView,
    fetched: Result<Fetched, FetchError>,
    now: i64,
) -> SourceHealthView {
    match fetched {
        Ok(Fetched::NotModified) => SourceHealthView {
            failures: 0,
            circuit_until_ms: None,
            last_status: "up to date"@,
            last_sync_ms: Some(now),
            ..health
        },
        Ok(Fetched::Body(body)) => SourceHealthView {
            failures: 0,
            last_sync_ms: Some(now),
            etag: if body.etag is Some {
                opt_view(body.etag)
            } else {
                health.etag
            },
            circuit_until_ms: if budget_is_low(body) {
                Some(retry_at(body.rate_reset_ms, now) as i64)
            } else {
                None
            },
            last_status: if budget_is_low(body) {
                "rate limited"@
            } else {
                "ok"@
            },
            ..health
        },
        Err(err) => SourceHealthView {
            failures: one_more_failure(health.failures),
            last_status: "error: "@ + short_error(error_text(err)),
            circuit_until_ms: if one_more_failure(health.failures) >= FAILURE_THRESHOLD {
                Some((now + cooldown(one_more_failure(health.failures), now)) as i64)
            } else {
                None
            },
            ..health
        },
    }
}

/// Whether a request brought a fresh body.
pub open spec fn is_fresh(fetched: Option<Result<Fetched, FetchError>>) -> bool {
    match fetched {
        Some(Ok(Fetched::Body(_))) => true,
        _ => false,
    }
}

/// The archive after one source was walked. While the circuit is open, only the
/// status changes; without a reply, nothing does.
pub open spec fn walked(
    a: ArchiveView,
    source: Seq<char>,
    fetched: Option<Result<Fetched, FetchError>>,
    items: Seq<FeedItemView>,
    now: i64,
) -> ArchiveView {
    let health = health_of(a.sources, source);
    if circuit_open(health, now) {
        ArchiveView {
            sources: with_health(
                a.sources,
                SourceHealthView {
                    last_status: cooling_status(health.circuit_until_ms->0, now),
                    ..health
                },
            ),
            ..a
        }
    } else {
        match fetched {
            None => a,
            Some(reply) => ArchiveView {
                items: if is_fresh(fetched) {
                    replaced(a.items, source, items, now)
                } else {
                    a.items
                },
                sources: with_health(a.sources, settled_health(health, reply, now)),
                ..a
            },
        }
    }
}

/// Whether a clock reading leaves room for every cooldown.
pub open spec fn is_clock(now: i64) -> bool {
    now <= i64::MAX - RATE_LIMIT_MAX_MS
}

/// Walk one source through its circuit breaker: on a fresh body, keep the items
/// that it holds in place of the source's cached ones; on anything else leave
/// the cached items in place. The health is updated either way. A reply to a
/// source whose circuit is open is not looked at.
pub fn fetch_into(
    archive: &mut Archive,
    source: &str,
    fetched: Option<&Result<Fetched, FetchError>>,
    items: &Vec<FeedItem>,
    now: i64,
)
    requires
        is_clock(now),
    ensures
        final(archive)@ == walked(
            old(archive)@,
            source@,
            (match fetched {
                Some(reply) => Some(*reply),
                None => None,
            }),
            item_views(items@),
            now,
        ),
        wf(old(archive)@) ==> wf(final(archive)@),
{
    let mut health = archive.feed_source(source);
    // Circuit open: skip the source entirely, keep cached items.
    if let Some(until) = health.circuit_until_ms {
        if now < until {
            let left: i128 = until as i128 - now as i128;
            let minutes: i128 = left / 60_000;
            let shown: i64 = if minutes < 1 {
                1
            } else {
                minutes as i64
            };
            let digits = signed_text(shown);
            let mut status = concat("cooling down (", digits.as_str());
            status.push_str("m)");
            health.last_status = status;
            archive.set_feed_source(&health);
            return;
        }
    }
    match fetched {
        None => {},
        Some(Ok(Fetched::NotModified)) => {
            health.failures = 0;
            health.circuit_until_ms = None;
            health.last_status = "up to date".to_owned();
            health.last_sync_ms = Some(now);
            archive.set_feed_source(&health);
        },
        Some(Ok(Fetched::Body(body))) => {
            archive.replace_feed_items(source, items, now);
            health.failures = 0;
            health.last_sync_ms = Some(now);
            if body.etag.is_some() {
                health.etag = clone_opt(&body.etag);
            }
            // Respect a low budget by parking the source until reset.
            let low = match body.rate_remaining {
                Some(remaining) => remaining < RATE_FLOOR,
                None => false,
            };
            if low {
                health.circuit_until_ms = Some(rate_limit_until(body.rate_reset_ms, now));
                health.last_status = "rate limited".to_owned();
            } else {
                health.circuit_until_ms = None;
                health.last_status = "ok".to_owned();
            }
            archive.set_feed_source(&health);
        },
        Some(Err(err)) => {
            if health.failures < u32::MAX {
                health.failures = health.failures + 1;
            }
            let text = short_err(err);
            health.last_status = concat("error: ", text.as_str());
            // Open the circuit only after the threshold; below it, clear any
            // stale cooldown so a past-expiry value never lingers in the record.
            health.circuit_until_ms = if health.failures >= FAILURE_THRESHOLD {
                Some(now + cooldown_for(health.failures, now))
            } else {
                None
            };
            // The cached items are left in place (stale-while-revalidate).
            archive.set_feed_source(&health);
        },
    }
}

// ---- what reading gives -----------------------------------------------------

/// Whether one of the first `k` items has an id.
pub open spec fn has_id(items: Seq<FeedItemView>, id: Seq<char>, k: int) -> bool
    decreases k,
{
    if k <= 0 {
        false
    } else {
        items[k - 1].id == id || has_id(items, id, k - 1)
    }
}

/// The items with the static row among them.
pub open spec fn with_static(items: Seq<FeedItemView>) -> Seq<FeedItemView> {
    if has_id(items, static_row().id, items.len() as int) {
        items
    } else {
        items.push(static_row())
    }
}

fn carries(items: &Vec<FeedItem>, id: &str) -> (r: bool)
    ensures
        r == has_id(item_views(items@), id@, items@.len() as int),
{
    let mut k: usize = 0;
    while k < items.len()
        invariant
            k <= items@.len(),
            !has_id(item_views(items@), id@, k as int),
        decreases items@.len() - k,
    {
        assert(item_views(items@)[k as int] == items@[k as int]@);
        if same_text(items[k].id.as_str(), id) {
            proof {
                lemma_has_id(item_views(items@), id@, k as int, items@.len() as int);
            }
            return true;
        }
        k = k + 1;
    }
    false
}

proof fn lemma_has_id(items: Seq<FeedItemView>, id: Seq<char>, i: int, k: int)
    requires
        0 <= i < k <= items.len(),
        items[i].id == id,
    ensures
        has_id(items, id, k),
    decreases k,
{
    if i < k - 1 {
        lemma_has_id(items, id, i, k - 1);
    }
}

/// Insert the static rows if the cache does not already carry them (it will not
/// on a cold start, since nothing has been fetched yet).
pub fn merge_static(items: &mut Vec<FeedItem>)
    ensures
        item_views(final(items)@) == with_static(item_views(old(items)@)),
{
    let ghost start = items@;
    let mut rows = static_items();
    proof {
        assert(item_views(rows@).len() == rows@.len());
        assert(item_views(rows@)[0] == rows@[0]@);
    }
    let row = rows.pop();
    if let Some(row) = row {
        assert(row@ == static_row());
        if !carries(items, row.id.as_str()) {
            items.push(row);
            assert(item_views(items@) =~= item_views(start).push(static_row()));
        }
    }
}

/// The later of two instants, where there are any.
pub open spec fn later(a: Option<i64>, b: Option<i64>) -> Option<i64> {
    match (a, b) {
        (Some(x), Some(y)) => if x < y {
            b
        } else {
            a
        },
        (None, _) => b,
        (_, None) => a,
    }
}

/// The most recent sync of the first `k` sources.
pub open spec fn newest_sync(sources: Seq<SourceHealthView>, k: int) -> Option<i64>
    decreases k,
{
    if k <= 0 {
        None
    } else {
        later(newest_sync(sources, k - 1), sources[k - 1].last_sync_ms)
    }
}

/// Whether a snapshot shows what an archive has cached: the newest items, the
/// static row among them; every source's health; and the most recent sync.
pub open spec fn shows_cache(snapshot: FeedSnapshot, a: ArchiveView, offline: bool) -> bool {
    &&& item_views(snapshot.items@) == with_static(newest_items(a.items, FEED_LIMIT as int))
    &&& health_views(snapshot.sources@) == a.sources
    &&& snapshot.last_sync_ms == newest_sync(a.sources, a.sources.len() as int)
    &&& snapshot.offline == offline
}

/// Read the feed entirely from cache (no network). Used by the status line,
/// snapshots, and `kb feed --offline`.
pub fn read_cached(archive: &Archive, offline: bool) -> (r: FeedSnapshot)
    ensures
        shows_cache(r, archive@, offline),
{
    let mut items = archive.read_feed_items(FEED_LIMIT);
    // Ensure the static rows are present even on a cold cache.
    merge_static(&mut items);
    let sources = archive.all_feed_sources();
    let mut last_sync_ms: Option<i64> = None;
    let mut k: usize = 0;
    while k < sources.len()
        invariant
            k <= sources@.len(),
            last_sync_ms == newest_sync(health_views(sources@), k as int),
        decreases sources@.len() - k,
    {
        assert(health_views(sources@)[k as int] == sources@[k as int]@);
        match (last_sync_ms, sources[k].last_sync_ms) {
            (Some(a), Some(b)) => {
                if a < b {
                    last_sync_ms = Some(b);
                }
            },
            (None, Some(b)) => {
                last_sync_ms = Some(b);
            },
            _ => {},
        }
        k = k + 1;
    }
    assert(health_views(sources@).len() == sources@.len());
    FeedSnapshot { items, sources, last_sync_ms, offline }
}

// ---- a whole cycle ----------------------------------------------------------

/// The key of the service bulletin in the cache.
pub const BULLETIN_SOURCE: &'static str = "bulletin";

/// The key of the upstream repo's statistics in the cache.
pub const REPO_SOURCE: &'static str = "github_repo";

/// The key of the upstream version in the cache.
pub const VERSION_SOURCE: &'static str = "github_version";

/// The key of the upstream issues in the cache.
pub const ISSUES_SOURCE: &'static str = "github_issues";

/// What came back for one source: the outcome of the request and, of a fresh
/// body, what it decodes to.
#[derive(Debug)]
pub struct Reply<T> {
    pub fetched: Result<Fetched, FetchError>,
    pub decoded: Option<T>,
}

/// What came back for each source; nothing for one that was not asked.
#[derive(Debug)]
pub struct Replies {
    pub bulletin: Option<Reply<Bulletin>>,
    pub repo: Option<Reply<Repo>>,
    pub version: Option<Reply<Vec<CommitItem>>>,
    pub issues: Option<Reply<Vec<Issue>>>,
}

/// The outcome of the request, if one was made.
pub open spec fn outcome<T>(reply: Option<Reply<T>>) -> Option<Result<Fetched, FetchError>> {
    match reply {
        Some(r) => Some(r.fetched),
        None => None,
    }
}

/// What the body decodes to, if there is one and it decodes.
pub open spec fn payload<T>(reply: Option<Reply<T>>) -> Option<T> {
    match reply {
        Some(r) => r.decoded,
        None => None,
    }
}

/// The items of a bulletin: one where one is active.
pub open spec fn bulletin_rows(decoded: Option<Bulletin>) -> Seq<FeedItemView> {
    match decoded {
        Some(b) => match bulletin::distilled(b) {
            Some(p) => seq![bulletin::bulletin_item(p)],
            None => Seq::empty(),
        },
        None => Seq::empty(),
    }
}

/// The items of the repository statistics.
pub open spec fn repo_rows(decoded: Option<Repo>) -> Seq<FeedItemView> {
    match decoded {
        Some(d) => seq![
            github::stat_item(
                d.stargazers_count as nat,
                d.forks_count as nat,
                d.open_issues_count as nat,
                github::instant_of(d.pushed_at),
                opt_view(d.html_url),
                REPO_SOURCE@,
            ),
        ],
        None => Seq::empty(),
    }
}

/// The items of the upstream version: one where a recent commit synced one.
pub open spec fn version_rows(decoded: Option<Vec<CommitItem>>) -> Seq<FeedItemView> {
    match decoded {
        Some(commits) => match github::sync_commit(commits@, 0) {
            Some(k) => seq![
                github::version_row(
                    github::sync_version(commits@[k].commit.message@)->0,
                    github::instant_of(commits@[k].commit.author.date),
                    VERSION_SOURCE@,
                ),
            ],
            None => Seq::empty(),
        },
        None => Seq::empty(),
    }
}

/// The items of the upstream issues.
pub open spec fn issue_rows(decoded: Option<Vec<Issue>>) -> Seq<FeedItemView> {
    match decoded {
        Some(issues) => github::issue_items(
            issues@,
            ISSUE_LIMIT as int,
            ISSUES_SOURCE@,
            issues@.len() as int,
        ),
        None => Seq::empty(),
    }
}

/// The archive after the bulletin was walked.
pub open spec fn after_bulletin(a: ArchiveView, replies: Replies, now: i64) -> ArchiveView {
    walked(
        a,
        BULLETIN_SOURCE@,
        outcome(replies.bulletin),
        bulletin_rows(payload(replies.bulletin)),
        now,
    )
}

/// The archive after the repository statistics were walked too.
pub open spec fn after_repo(a: ArchiveView, replies: Replies, now: i64) -> ArchiveView {
    walked(
        after_bulletin(a, replies, now),
        REPO_SOURCE@,
        outcome(replies.repo),
        repo_rows(payload(replies.repo)),
        now,
    )
}

/// The archive after the upstream version was walked too.
pub open spec fn after_version(a: ArchiveView, replies: Replies, now: i64) -> ArchiveView {
    walked(
        after_repo(a, replies, now),
        VERSION_SOURCE@,
        outcome(replies.version),
        version_rows(payload(replies.version)),
        now,
    )
}

/// The archive after every source was walked.
pub open spec fn synced(a: ArchiveView, replies: Replies, now: i64) -> ArchiveView {
    walked(
        after_version(a, replies, now),
        ISSUES_SOURCE@,
        outcome(replies.issues),
        issue_rows(payload(replies.issues)),
        now,
    )
}

/// The requests that a cycle makes.
#[derive(Debug)]
pub struct Plan {
    pub bulletin: Option<Request>,
    pub repo: Option<Request>,
    pub version: Option<Request>,
    pub issues: Option<Request>,
}

/// Whether a planned request is what a source is due for.
pub open spec fn is_due(
    q: Option<Request>,
    a: ArchiveView,
    source: Seq<char>,
    url: Seq<char>,
    now: i64,
) -> bool {
    let health = health_of(a.sources, source);
    match q {
        Some(q) => !circuit_open(health, now) && q.url@ == url && opt_view(q.etag) == tag_to_send(
            health.etag,
        ),
        None => circuit_open(health, now),
    }
}

/// The requests that a cycle is to make: one per source whose circuit is closed,
/// and none at all where the network may not be used.
pub fn plan(archive: &Archive, cfg: &Config, cli_offline: bool, env_offline: bool, now: i64) -> (r:
    Option<Plan>)
    ensures
        r is None <==> offline_because(cli_offline, cfg.feed.enabled, env_offline) is Some,
        r matches Some(p) ==> {
            &&& is_due(p.bulletin, archive@, BULLETIN_SOURCE@, bulletin::BULLETIN_URL@, now)
            &&& is_due(
                p.repo,
                archive@,
                REPO_SOURCE@,
                "https://api.github.com/repos/"@ + github::UPSTREAM_REPO@,
                now,
            )
            &&& is_due(
                p.version,
                archive@,
                VERSION_SOURCE@,
                "https://api.github.com/repos/"@ + github::UPSTREAM_REPO@
                    + "/commits?per_page=5"@,
                now,
            )
            &&& is_due(
                p.issues,
                archive@,
                ISSUES_SOURCE@,
                "https://api.github.com/repos/"@ + github::UPSTREAM_REPO@
                    + "/issues?state=open&sort=created&direction=desc&per_page=20"@,
                now,
            )
        },
{
    if offline_reason(cli_offline, cfg, env_offline).is_some() {
        return None;
    }
    let repo_url = github::repo_url(github::UPSTREAM_REPO);
    let commits_url = github::commits_url(github::UPSTREAM_REPO);
    let issues_url = github::issues_url(github::UPSTREAM_REPO);
    Some(
        Plan {
            bulletin: request_for(archive, BULLETIN_SOURCE, bulletin::BULLETIN_URL, now),
            repo: request_for(archive, REPO_SOURCE, repo_url.as_str(), now),
            version: request_for(archive, VERSION_SOURCE, commits_url.as_str(), now),
            issues: request_for(archive, ISSUES_SOURCE, issues_url.as_str(), now),
        },
    )
}

fn one(item: FeedItem) -> (r: Vec<FeedItem>)
    ensures
        item_views(r@) == seq![item@],
{
    let mut out: Vec<FeedItem> = Vec::new();
    let ghost shown = item@;
    out.push(item);
    assert(item_views(out@) =~= seq![shown]);
    out
}

fn no_items() -> (r: Vec<FeedItem>)
    ensures
        item_views(r@) == Seq::<FeedItemView>::empty(),
{
    let out: Vec<FeedItem> = Vec::new();
    assert(item_views(out@) =~= Seq::<FeedItemView>::empty());
    out
}

/// The feed items of a decoded bulletin response.
pub fn bulletin_items(decoded: Option<Bulletin>) -> (r: Vec<FeedItem>)
    ensures
        item_views(r@) == bulletin_rows(decoded),
{
    match bulletin::parse(decoded) {
        Some(b) => one(bulletin::to_item(&b)),
        None => no_items(),
    }
}

/// The feed items of a decoded repository response.
pub fn repo_items(decoded: Option<Repo>) -> (r: Vec<FeedItem>)
    ensures
        item_views(r@) == repo_rows(decoded),
{
    match github::parse_repo(decoded) {
        Some(stats) => one(github::upstream_stat_item(&stats, REPO_SOURCE)),
        None => no_items(),
    }
}

/// The feed items of a decoded commits response.
pub fn version_items(decoded: Option<Vec<CommitItem>>) -> (r: Vec<FeedItem>)
    ensures
        item_views(r@) == version_rows(decoded),
{
    match github::parse_latest_version(decoded) {
        Some(v) => one(github::version_item(&v, VERSION_SOURCE)),
        None => no_items(),
    }
}

/// Run one fetch cycle across all sources with what came back for them, then
/// return the refreshed cache. Honors the offline decision; on offline it just
/// returns the cache.
pub fn sync(
    archive: &mut Archive,
    cfg: &Config,
    cli_offline: bool,
    env_offline: bool,
    replies: Replies,
    now: i64,
) -> (r: FeedSnapshot)
    requires
        offline_because(cli_offline, cfg.feed.enabled, env_offline) is None ==> is_clock(now),
    ensures
        offline_because(cli_offline, cfg.feed.enabled, env_offline) is Some ==> {
            &&& final(archive)@ == old(archive)@
            &&& shows_cache(r, old(archive)@, true)
        },
        offline_because(cli_offline, cfg.feed.enabled, env_offline) is None ==> {
            &&& final(archive)@ == synced(old(archive)@, replies, now)
            &&& shows_cache(r, final(archive)@, false)
        },
        wf(old(archive)@) ==> wf(final(archive)@),
{
    if offline_reason(cli_offline, cfg, env_offline).is_some() {
        return read_cached(archive, true);
    }
    // The bulletin: the official status channel, one item.
    match replies.bulletin {
        Some(reply) => {
            let items = bulletin_items(reply.decoded);
            fetch_into(archive, BULLETIN_SOURCE, Some(&reply.fetched), &items, now);
        },
        None => {
            let items = no_items();
            fetch_into(archive, BULLETIN_SOURCE, None, &items, now);
        },
    }
    assert(archive@ == after_bulletin(old(archive)@, replies, now));
    // Upstream repo stats. Each builder stamps the item's source with the same
    // key the cache deletes by, so a refresh replaces rather than duplicates.
    match replies.repo {
        Some(reply) => {
            let items = repo_items(reply.decoded);
            fetch_into(archive, REPO_SOURCE, Some(&reply.fetched), &items, now);
        },
        None => {
            let items = no_items();
            fetch_into(archive, REPO_SOURCE, None, &items, now);
        },
    }
    assert(archive@ == after_repo(old(archive)@, replies, now));
    // Upstream version (from the commit log; no releases/tags exist).
    match replies.version {
        Some(reply) => {
            let items = version_items(reply.decoded);
            fetch_into(archive, VERSION_SOURCE, Some(&reply.fetched), &items, now);
        },
        None => {
            let items = no_items();
            fetch_into(archive, VERSION_SOURCE, None, &items, now);
        },
    }
    assert(archive@ == after_version(old(archive)@, replies, now));
    // Upstream issues.
    match replies.issues {
        Some(reply) => {
            let items = github::parse_issues(reply.decoded, ISSUE_LIMIT, ISSUES_SOURCE);
            fetch_into(archive, ISSUES_SOURCE, Some(&reply.fetched), &items, now);
        },
        None => {
            let items = no_items();
            fetch_into(archive, ISSUES_SOURCE, None, &items, now);
        },
    }
    read_cached(archive, false)
}

// ---- what holds of every cycle ----------------------------------------------

/// An empty cache shows the static row and nothing else.
pub proof fn an_empty_cache_shows_only_the_static_row(
    snapshot: FeedSnapshot,
    a: ArchiveView,
    offline: bool,
)
    requires
        shows_cache(snapshot, a, offline),
        a.items.len() == 0,
    ensures
        item_views(snapshot.items@) == seq![static_row()],
        static_row().source == "static"@,
{
    let none = newest_items(a.items, FEED_LIMIT as int);
    assert(none =~= Seq::empty());
    assert(with_static(none) =~= seq![static_row()]);
}

/// The static row is in every feed, also on a cold cache.
pub proof fn static_row_is_always_present(items: Seq<FeedItemView>)
    ensures
        has_id(with_static(items), static_row().id, with_static(items).len() as int),
{
    if !has_id(items, static_row().id, items.len() as int) {
        lemma_has_id(with_static(items), static_row().id, items.len() as int, (items.len() + 1) as int);
    }
}

/// A source that failed, was unchanged, was skipped or was not asked keeps its
/// last good cached items, and a walk never touches the captured ads.
pub proof fn stale_while_revalidate(
    a: ArchiveView,
    source: Seq<char>,
    fetched: Option<Result<Fetched, FetchError>>,
    items: Seq<FeedItemView>,
    now: i64,
)
    ensures
        !is_fresh(fetched) || circuit_open(health_of(a.sources, source), now) ==> walked(
            a,
            source,
            fetched,
            items,
            now,
        ).items == a.items,
        walked(a, source, fetched, items, now) == (ArchiveView {
            items: walked(a, source, fetched, items, now).items,
            sources: walked(a, source, fetched, items, now).sources,
            ..a
        }),
{
}

/// Once a source that is asked gives a fresh body, the cache holds of it what
/// that body reports: an item that the source no longer reports is gone, and
/// items of other sources stay, but for one that a reported item shares its id
/// with.
pub proof fn fresh_body_replaces_its_source(
    a: ArchiveView,
    source: Seq<char>,
    fetched: Option<Result<Fetched, FetchError>>,
    items: Seq<FeedItemView>,
    now: i64,
    x: CachedItemView,
)
    requires
        is_fresh(fetched),
        !circuit_open(health_of(a.sources, source), now),
    ensures
        holds(walked(a, source, fetched, items, now).items, x) == (match last_with_id(
            items,
            x.item.id,
            items.len() as int,
        ) {
            Some(item) => x.item == item && x.fetched_ms == now,
            None => holds(a.items, x) && x.item.source != source,
        }),
{
    replacing_is_per_source(a.items, source, items, now, x);
}

/// Walking one source leaves the health of every other, and records its own as
/// the outcome settles it.
pub proof fn walks_are_independent(
    a: ArchiveView,
    source: Seq<char>,
    fetched: Option<Result<Fetched, FetchError>>,
    items: Seq<FeedItemView>,
    now: i64,
    other: Seq<char>,
)
    ensures
        other != source ==> health_of(walked(a, source, fetched, items, now).sources, other)
            == health_of(a.sources, other),
        fetched is Some && !circuit_open(health_of(a.sources, source), now) ==> health_of(
            walked(a, source, fetched, items, now).sources,
            source,
        ) == settled_health(health_of(a.sources, source), fetched->0, now),
{
    let health = health_of(a.sources, source);
    crate::archive::cache::health_is_of_its_source(a.sources, source);
    if circuit_open(health, now) {
        health_reads_back(
            a.sources,
            SourceHealthView {
                last_status: cooling_status(health.circuit_until_ms->0, now),
                ..health
            },
            other,
        );
    } else if fetched is Some {
        health_reads_back(a.sources, settled_health(health, fetched->0, now), other);
    }
}

/// When the turn of a source comes in a cycle, its health is what it was when
/// the cycle was planned.
pub proof fn every_source_is_walked_as_planned(a: ArchiveView, replies: Replies, now: i64)
    ensures
        health_of(after_bulletin(a, replies, now).sources, REPO_SOURCE@) == health_of(
            a.sources,
            REPO_SOURCE@,
        ),
        health_of(after_repo(a, replies, now).sources, VERSION_SOURCE@) == health_of(
            a.sources,
            VERSION_SOURCE@,
        ),
        health_of(after_version(a, replies, now).sources, ISSUES_SOURCE@) == health_of(
            a.sources,
            ISSUES_SOURCE@,
        ),
{
    reveal_strlit("bulletin");
    reveal_strlit("github_repo");
    reveal_strlit("github_version");
    reveal_strlit("github_issues");
    let b = after_bulletin(a, replies, now);
    let r = after_repo(a, replies, now);
    assert(BULLETIN_SOURCE@.len() == 8 && REPO_SOURCE@.len() == 11 && VERSION_SOURCE@.len() == 14
        && ISSUES_SOURCE@.len() == 13);
    let of_bulletin = outcome(replies.bulletin);
    let of_repo = outcome(replies.repo);
    let of_version = outcome(replies.version);
    let bulletin_new = bulletin_rows(payload(replies.bulletin));
    let repo_new = repo_rows(payload(replies.repo));
    let version_new = version_rows(payload(replies.version));
    walks_are_independent(a, BULLETIN_SOURCE@, of_bulletin, bulletin_new, now, REPO_SOURCE@);
    walks_are_independent(a, BULLETIN_SOURCE@, of_bulletin, bulletin_new, now, VERSION_SOURCE@);
    walks_are_independent(a, BULLETIN_SOURCE@, of_bulletin, bulletin_new, now, ISSUES_SOURCE@);
    walks_are_independent(b, REPO_SOURCE@, of_repo, repo_new, now, VERSION_SOURCE@);
    walks_are_independent(b, REPO_SOURCE@, of_repo, repo_new, now, ISSUES_SOURCE@);
    walks_are_independent(r, VERSION_SOURCE@, of_version, version_new, now, ISSUES_SOURCE@);
}

/// A failure that reaches the threshold opens the circuit for at least the base
/// cooldown and at most the maximum and its jitter; one below it leaves the
/// circuit closed. A reply of either other kind ends the streak.
pub proof fn failures_open_the_circuit(
    health: SourceHealthView,
    fetched: Result<Fetched, FetchError>,
    now: i64,
    at: i64,
)
    requires
        is_clock(now),
    ensures
        fetched is Err && health.failures + 1 >= FAILURE_THRESHOLD && at < now
            + COOLDOWN_BASE_MS ==> circuit_open(settled_health(health, fetched, now), at),
        fetched is Err && at >= now + COOLDOWN_MAX_MS + 30_000 ==> !circuit_open(
            settled_health(health, fetched, now),
            at,
        ),
        fetched is Err && health.failures + 1 < FAILURE_THRESHOLD ==> !circuit_open(
            settled_health(health, fetched, now),
            at,
        ),
        fetched is Ok ==> settled_health(health, fetched, now).failures == 0,
{
}

/// A response that reports a low budget parks its source for at least the base
/// cooldown and at most the rate limit's maximum, whatever reset it reports; any
/// other response leaves the circuit closed.
pub proof fn a_low_budget_parks_the_source(
    health: SourceHealthView,
    body: FetchedBody,
    now: i64,
    at: i64,
)
    requires
        is_clock(now),
    ensures
        ({
            let after = settled_health(health, Ok(Fetched::Body(body)), now);
            &&& budget_is_low(body) && at < now + COOLDOWN_BASE_MS ==> circuit_open(after, at)
            &&& budget_is_low(body) && at >= now + RATE_LIMIT_MAX_MS ==> !circuit_open(after, at)
            &&& !budget_is_low(body) ==> !circuit_open(after, at)
        }),
{
}

/// Every item that the walk of a source brings carries the key that the cache
/// replaces that source by, so an item that is no longer reported is purged.
pub proof fn items_carry_their_source(
    of_bulletin: Option<Bulletin>,
    of_repo: Option<Repo>,
    of_version: Option<Vec<CommitItem>>,
    of_issues: Option<Vec<Issue>>,
)
    ensures
        forall|i: int|
            0 <= i < bulletin_rows(of_bulletin).len() ==> (#[trigger] bulletin_rows(
                of_bulletin,
            )[i]).source == BULLETIN_SOURCE@,
        forall|i: int|
            0 <= i < repo_rows(of_repo).len() ==> (#[trigger] repo_rows(of_repo)[i]).source
                == REPO_SOURCE@,
        forall|i: int|
            0 <= i < version_rows(of_version).len() ==> (#[trigger] version_rows(
                of_version,
            )[i]).source == VERSION_SOURCE@,
        forall|i: int|
            0 <= i < issue_rows(of_issues).len() ==> (#[trigger] issue_rows(of_issues)[i]).source
                == ISSUES_SOURCE@,
{
    if let Some(issues) = of_issues {
        lemma_issue_sources(issues@, ISSUE_LIMIT as int, ISSUES_SOURCE@, issues@.len() as int);
    }
}

proof fn lemma_issue_sources(issues: Seq<Issue>, limit: int, source: Seq<char>, k: int)
    ensures
        forall|i: int|
            0 <= i < github::issue_items(issues, limit, source, k).len() ==> (
            #[trigger] github::issue_items(issues, limit, source, k)[i]).source == source,
    decreases k,
{
    if k > 0 {
        lemma_issue_sources(issues, limit, source, k - 1);
    }
}

} // verus!
