//! The state of the dashboard.

use vstd::prelude::*;

use crate::archive::queries::{
    activity, ad_keys, all_links, board_keys, board_views, full_board, link_keys, link_views,
    stats_of, top,
};
use crate::archive::{
    ad_views, captured, empty_archive, observed, wf, AdvertiserStat, Archive, ArchiveView, LinkRow,
    Stats,
};
use crate::chart::ChartStyle;
use crate::feed::sync::OfflineReason;
use crate::feed::{display_order, item_views, FeedSnapshot};
use crate::model::{AdRow, CliAd};
use crate::sources::{live_state, read_live_state, LiveState, LiveStateView};
use crate::text::{clone_opt, opt_str, opt_view};
use crate::theme::{all_themes, dark_palette, palette_of, Palette, Theme};

verus! {

// ---- tabs -------------------------------------------------------------------

/// The tabs of the dashboard.
#[derive(Debug, Clone, Copy, PartialEq, Eq, Structural)]
pub enum Tab {
    Dashboard,
    Feed,
    Links,
}

/// The tab after or before another, round and round.
pub open spec fn next_tab(tab: Tab, forward: bool) -> Tab {
    match (tab, forward) {
        (Tab::Dashboard, true) => Tab::Feed,
        (Tab::Feed, true) => Tab::Links,
        (Tab::Links, true) => Tab::Dashboard,
        (Tab::Dashboard, false) => Tab::Links,
        (Tab::Feed, false) => Tab::Dashboard,
        (Tab::Links, false) => Tab::Feed,
    }
}

impl Tab {
    /// The next tab, or the one before; the last is followed by the first.
    pub fn cycle(self, forward: bool) -> (r: Tab)
        ensures
            r == next_tab(self, forward),
    {
        match (self, forward) {
            (Tab::Dashboard, true) => Tab::Feed,
            (Tab::Feed, true) => Tab::Links,
            (Tab::Links, true) => Tab::Dashboard,
            (Tab::Dashboard, false) => Tab::Links,
            (Tab::Feed, false) => Tab::Dashboard,
            (Tab::Links, false) => Tab::Feed,
        }
    }
}

impl Default for Tab {
    fn default() -> (r: Tab)
        ensures
            r == Tab::Dashboard,
    {
        Tab::Dashboard
    }
}

/// Cycling back undoes cycling forward, and three steps go all the way round.
pub proof fn tabs_cycle(tab: Tab, forward: bool)
    ensures
        next_tab(next_tab(tab, forward), !forward) == tab,
        next_tab(next_tab(next_tab(tab, forward), forward), forward) == tab,
        next_tab(tab, forward) != tab,
{
}

// ---- the theme picker -------------------------------------------------------

/// State of the theme picker overlay. Present only while the picker is open. The
/// dashboard behind it renders with the previewed theme so the user sees the
/// change live before committing.
#[derive(Debug)]
pub struct ThemePicker {
    pub options: Vec<Theme>,
    pub cursor: usize,
    /// The theme that was active when the picker opened, restored on cancel.
    pub original: Theme,
}

/// Whether a picker's cursor is on one of its options.
pub open spec fn picker_wf(p: ThemePicker) -> bool {
    p.cursor < p.options@.len()
}

/// The place of a theme among those that are offered.
pub open spec fn theme_place(theme: Theme) -> int {
    match theme {
        Theme::Auto => 0,
        Theme::Dark => 1,
        Theme::Light => 2,
        Theme::Terminal => 3,
    }
}

impl ThemePicker {
    /// Open the picker with the cursor on the currently active theme.
    pub fn open(current: Theme) -> (r: ThemePicker)
        ensures
            r.options@ == all_themes(),
            r.options@[r.cursor as int] == current,
            r.cursor == theme_place(current),
            r.original == current,
            picker_wf(r),
    {
        let options = Theme::all();
        let mut cursor: usize = 0;
        let mut k: usize = 0;
        proof {
            crate::theme::every_theme_is_offered(current, false);
            let all = all_themes();
            assert(all[0] == Theme::Auto && all[1] == Theme::Dark && all[2] == Theme::Light
                && all[3] == Theme::Terminal);
        }
        while k < options.len()
            invariant_except_break
                options@ == all_themes(),
                k <= options@.len(),
                cursor == 0,
                forall|i: int| 0 <= i < k ==> options@[i] != current,
                all_themes().contains(current),
            ensures
                options@ == all_themes(),
                cursor < options@.len(),
                options@[cursor as int] == current,
            decreases options@.len() - k,
        {
            if options[k] == current {
                cursor = k;
                break;
            }
            k = k + 1;
        }
        ThemePicker { options, cursor, original: current }
    }

    /// The theme currently under the cursor (the live preview).
    pub fn selected(&self) -> (r: Theme)
        requires
            picker_wf(*self),
        ensures
            r == self.options@[self.cursor as int],
    {
        self.options[self.cursor]
    }

    /// Move the cursor up; at the first option it stays.
    pub fn up(&mut self)
        ensures
            *final(self) == (ThemePicker {
                cursor: stepped(old(self).cursor, old(self).options@.len() as int, false),
                ..*old(self)
            }),
            picker_wf(*old(self)) ==> picker_wf(*final(self)),
    {
        if self.cursor > 0 {
            self.cursor = self.cursor - 1;
        }
    }

    /// Move the cursor down; at the last option it stays.
    pub fn down(&mut self)
        ensures
            *final(self) == (ThemePicker {
                cursor: stepped(old(self).cursor, old(self).options@.len() as int, true),
                ..*old(self)
            }),
            picker_wf(*old(self)) ==> picker_wf(*final(self)),
    {
        if self.cursor < self.options.len() && self.cursor + 1 < self.options.len() {
            self.cursor = self.cursor + 1;
        }
    }
}

/// A cursor after a step down or up a list; at either end it stays.
pub open spec fn stepped(cursor: usize, len: int, down: bool) -> usize {
    if down {
        if cursor + 1 < len {
            (cursor + 1) as usize
        } else {
            cursor
        }
    } else if cursor > 0 {
        (cursor - 1) as usize
    } else {
        cursor
    }
}

/// However a cursor moves, it stays on the list; and inside the list a step up
/// undoes a step down.
pub proof fn steps_stay_on_the_list(cursor: usize, len: int, down: bool)
    ensures
        cursor < len ==> stepped(cursor, len, down) < len,
        cursor + 1 < len <= usize::MAX ==> stepped(stepped(cursor, len, true), len, false) == cursor,
{
}

// ---- the dashboard ----------------------------------------------------------

/// Everything the dashboard shows.
pub struct App {
    pub now_ms: i64,
    pub stats: Stats,
    /// Hourly activity, oldest first. `None` = captures were not running that
    /// hour.
    pub sparkline: Vec<Option<u64>>,
    pub leaderboard: Vec<AdvertiserStat>,
    pub recent: Vec<AdRow>,
    pub live: LiveState,
    pub current: Option<CliAd>,
    pub demo: bool,
    /// The active theme selection (shown in the keybind line, saved to config).
    pub theme: Theme,
    /// Concrete colors to draw with, derived from `theme`.
    pub palette: Palette,
    /// Whether the terminal itself is light.
    pub light_terminal: bool,
    /// Some while the theme picker overlay is open.
    pub picker: Option<ThemePicker>,
    pub tab: Tab,
    pub chart_style: ChartStyle,
    pub feed: FeedSnapshot,
    pub feed_cursor: usize,
    pub links: Vec<LinkRow>,
    pub link_cursor: usize,
    /// Why the network is not used, where it is not.
    pub offline: Option<OfflineReason>,
    /// Whether the feed is being fetched.
    pub fetching: bool,
}

impl Default for App {
    fn default() -> (r: App)
        ensures
            r.now_ms == 0,
            r.stats == crate::archive::queries::no_stats(),
            r.sparkline@.len() == 0,
            r.leaderboard@.len() == 0,
            r.recent@.len() == 0,
            r.live@ == crate::sources::unknown_state(),
            r.current is None,
            !r.demo,
            r.theme == Theme::Auto,
            r.palette == dark_palette(),
            !r.light_terminal,
            r.picker is None,
            r.tab == Tab::Dashboard,
            r.chart_style == ChartStyle::Heat,
            r.feed.items@.len() == 0,
            r.feed.sources@.len() == 0,
            r.feed.last_sync_ms is None,
            !r.feed.offline,
            r.feed_cursor == 0,
            r.links@.len() == 0,
            r.link_cursor == 0,
            r.offline is None,
            !r.fetching,
    {
        App {
            now_ms: 0,
            stats: Stats::default(),
            sparkline: Vec::new(),
            leaderboard: Vec::new(),
            recent: Vec::new(),
            live: LiveState::default(),
            current: None,
            demo: false,
            theme: Theme::Auto,
            palette: Palette::dark(),
            light_terminal: false,
            picker: None,
            tab: Tab::Dashboard,
            chart_style: ChartStyle::Heat,
            feed: FeedSnapshot::default(),
            feed_cursor: 0,
            links: Vec::new(),
            link_cursor: 0,
            offline: None,
            fetching: false,
        }
    }
}

/// The app with a theme applied.
pub open spec fn with_theme(app: App, theme: Theme) -> App {
    App { theme, palette: palette_of(theme, app.light_terminal), ..app }
}

/// A cursor held to a list.
pub open spec fn clamped(cursor: usize, len: int) -> usize {
    if len == 0 {
        0
    } else if cursor < len {
        cursor
    } else {
        (len - 1) as usize
    }
}

fn clamp(cursor: usize, len: usize) -> (r: usize)
    ensures
        r == clamped(cursor, len as int),
{
    if len == 0 {
        0
    } else if cursor < len {
        cursor
    } else {
        len - 1
    }
}

/// The app with both cursors held to their lists.
pub open spec fn with_clamped_cursors(app: App) -> App {
    App {
        feed_cursor: clamped(app.feed_cursor, app.feed.items@.len() as int),
        link_cursor: clamped(app.link_cursor, app.links@.len() as int),
        ..app
    }
}

/// The app after its cursor moved down or up: that of the tab that shows.
pub open spec fn with_moved_cursor(app: App, down: bool) -> App {
    match app.tab {
        Tab::Dashboard => app,
        Tab::Feed => App {
            feed_cursor: stepped(app.feed_cursor, app.feed.items@.len() as int, down),
            ..app
        },
        Tab::Links => App {
            link_cursor: stepped(app.link_cursor, app.links@.len() as int, down),
            ..app
        },
    }
}

/// The URL under the cursor of the tab that shows.
pub open spec fn url_under_cursor(app: App) -> Option<Seq<char>> {
    match app.tab {
        Tab::Dashboard => None,
        Tab::Feed => if app.feed_cursor < app.feed.items@.len() {
            let order = display_order(item_views(app.feed.items@));
            opt_view(app.feed.items@[order[app.feed_cursor as int]].url)
        } else {
            None
        },
        Tab::Links => if app.link_cursor < app.links@.len() {
            Some(app.links@[app.link_cursor as int].url@)
        } else {
            None
        },
    }
}

/// Whether the panels show what an archive holds at an instant.
pub open spec fn shows_archive(app: App, a: ArchiveView, now_ms: i64) -> bool {
    &&& app.now_ms == now_ms
    &&& app.stats == stats_of(a, now_ms)
    &&& app.sparkline@ == activity(a, now_ms, 24)
    &&& board_views(app.leaderboard@) == top(full_board(a), board_keys(full_board(a)), 8)
    &&& ad_views(app.recent@) == top(a.ads, ad_keys(a.ads), 8)
    &&& link_views(app.links@) == top(
        all_links(a),
        link_keys(all_links(a)),
        crate::links::LIMIT as int,
    )
}

/// The app with other panels and everything else as it was.
pub open spec fn same_but_panels(before: App, after: App) -> bool {
    before == App {
        now_ms: before.now_ms,
        stats: before.stats,
        sparkline: before.sparkline,
        leaderboard: before.leaderboard,
        recent: before.recent,
        links: before.links,
        ..after
    }
}

impl App {
    /// Apply a theme: store it and resolve its concrete palette.
    pub fn set_theme(&mut self, theme: Theme)
        ensures
            *final(self) == with_theme(*old(self), theme),
    {
        self.theme = theme;
        self.palette = theme.palette(self.light_terminal);
    }

    /// Refresh only the archive-backed panels, relative to `now_ms`. The demo
    /// path uses this with a fixed clock so the output is stable.
    pub fn refresh_from_archive(&mut self, archive: &Archive, now_ms: i64)
        requires
            wf(archive@),
        ensures
            shows_archive(*final(self), archive@, now_ms),
            same_but_panels(*old(self), *final(self)),
    {
        self.now_ms = now_ms;
        self.stats = archive.stats(now_ms);
        self.sparkline = archive.hourly_activity(now_ms, 24);
        self.leaderboard = archive.advertiser_leaderboard(8);
        self.recent = archive.list_ads(8);
        self.links = archive.distinct_links(crate::links::LIMIT);
    }

    /// Refresh everything: the archive's panels, the live state that the debug
    /// log tells, and the current ad.
    pub fn refresh(
        &mut self,
        archive: &Archive,
        now_ms: i64,
        log: Option<&str>,
        current: Option<CliAd>,
    )
        requires
            wf(archive@),
        ensures
            shows_archive(*final(self), archive@, now_ms),
            final(self).live@ == (match opt_str(log) {
                Some(text) => live_state(crate::sources::events_since(text, None)),
                None => crate::sources::unknown_state(),
            }),
            final(self).current == current,
            same_but_panels(
                *old(self),
                (App { live: old(self).live, current: old(self).current, ..*final(self) }),
            ),
    {
        self.refresh_from_archive(archive, now_ms);
        self.live = read_live_state(log);
        self.current = current;
    }

    /// Keep both cursors on their lists, after a list changed.
    pub fn clamp_cursors(&mut self)
        ensures
            *final(self) == with_clamped_cursors(*old(self)),
    {
        self.feed_cursor = clamp(self.feed_cursor, self.feed.items.len());
        self.link_cursor = clamp(self.link_cursor, self.links.len());
    }

    /// Move the cursor of the tab that shows; at either end of its list it stays.
    pub fn move_cursor(&mut self, down: bool)
        ensures
            *final(self) == with_moved_cursor(*old(self), down),
    {
        match self.tab {
            Tab::Dashboard => {},
            Tab::Feed => {
                let n: usize = self.feed.items.len();
                self.feed_cursor = step(self.feed_cursor, n, down);
            },
            Tab::Links => {
                let n: usize = self.links.len();
                self.link_cursor = step(self.link_cursor, n, down);
            },
        }
    }

    /// The URL of the current selection, if any.
    pub fn selected_url(&self) -> (r: Option<String>)
        ensures
            opt_view(r) == url_under_cursor(*self),
    {
        match self.tab {
            Tab::Dashboard => None,
            Tab::Feed => {
                let ordered = self.feed.ordered();
                if self.feed_cursor < ordered.len() {
                    clone_opt(&ordered[self.feed_cursor].url)
                } else {
                    None
                }
            },
            Tab::Links => {
                if self.link_cursor < self.links.len() {
                    Some(self.links[self.link_cursor].url.clone())
                } else {
                    None
                }
            },
        }
    }
}

fn step(cursor: usize, len: usize, down: bool) -> (r: usize)
    ensures
        r == stepped(cursor, len as int, down),
{
    if down {
        if cursor < len && cursor + 1 < len {
            cursor + 1
        } else {
            cursor
        }
    } else if cursor > 0 {
        cursor - 1
    } else {
        cursor
    }
}

// ---- demo data --------------------------------------------------------------

/// Fixed demo clock so generated assets are reproducible.
pub const DEMO_NOW_MS: i64 = 1_781_210_000_000;

/// An hour.
pub const HOUR_MS: i64 = 3_600_000;

/// Hourly sighting counts for the demo, oldest first.
pub open spec fn demo_hours() -> Seq<u64> {
    seq![1, 2, 1, 3, 4, 6, 5, 7, 6, 8, 6, 9, 7, 5, 4, 6, 8, 7, 5, 3, 4, 6, 5, 2]
}

/// The demo's creatives, by their number below sixteen: text and URL.
pub open spec fn demo_creative(k: int) -> (Seq<char>, Seq<char>) {
    if k == 0 {
        ("Tailscale \u{b7} the VPN that disappears"@, "https://tailscale.com/"@)
    } else if k == 1 {
        ("Tailscale \u{b7} zero-config mesh networking"@, "https://tailscale.com/"@)
    } else if k == 2 {
        ("Linear \u{b7} issues you actually close"@, "https://linear.app/"@)
    } else if k == 3 {
        ("Linear \u{b7} built for speed"@, "https://linear.app/"@)
    } else if k == 4 {
        ("Vercel \u{b7} ship in seconds"@, "https://vercel.com/"@)
    } else if k == 5 {
        ("Vercel \u{b7} previews for every push"@, "https://vercel.com/"@)
    } else if k == 6 {
        ("Neon \u{b7} Postgres that scales to zero"@, "https://neon.tech/"@)
    } else if k == 7 {
        ("Neon \u{b7} branch your database"@, "https://neon.tech/"@)
    } else if k == 8 {
        ("Sentry \u{b7} catch errors before users do"@, "https://sentry.io/"@)
    } else if k == 9 {
        ("Sentry \u{b7} trace every release"@, "https://sentry.io/"@)
    } else if k == 10 {
        ("Supabase \u{b7} the open source Firebase"@, "https://supabase.com/"@)
    } else if k == 11 {
        ("Supabase \u{b7} auth in five minutes"@, "https://supabase.com/"@)
    } else if k == 12 {
        ("Fly.io \u{b7} run your app close to users"@, "https://fly.io/"@)
    } else if k == 13 {
        ("Fly.io \u{b7} machines that boot in millis"@, "https://fly.io/"@)
    } else if k == 14 {
        ("Cloudflare \u{b7} the network is the computer"@, "https://cloudflare.com/"@)
    } else {
        ("Cloudflare \u{b7} cache everything"@, "https://cloudflare.com/"@)
    }
}

fn creative(k: usize) -> (r: (&'static str, &'static str))
    ensures
        r.0@ == demo_creative(k as int).0,
        r.1@ == demo_creative(k as int).1,
{
    if k == 0 {
        ("Tailscale \u{b7} the VPN that disappears", "https://tailscale.com/")
    } else if k == 1 {
        ("Tailscale \u{b7} zero-config mesh networking", "https://tailscale.com/")
    } else if k == 2 {
        ("Linear \u{b7} issues you actually close", "https://linear.app/")
    } else if k == 3 {
        ("Linear \u{b7} built for speed", "https://linear.app/")
    } else if k == 4 {
        ("Vercel \u{b7} ship in seconds", "https://vercel.com/")
    } else if k == 5 {
        ("Vercel \u{b7} previews for every push", "https://vercel.com/")
    } else if k == 6 {
        ("Neon \u{b7} Postgres that scales to zero", "https://neon.tech/")
    } else if k == 7 {
        ("Neon \u{b7} branch your database", "https://neon.tech/")
    } else if k == 8 {
        ("Sentry \u{b7} catch errors before users do", "https://sentry.io/")
    } else if k == 9 {
        ("Sentry \u{b7} trace every release", "https://sentry.io/")
    } else if k == 10 {
        ("Supabase \u{b7} the open source Firebase", "https://supabase.com/")
    } else if k == 11 {
        ("Supabase \u{b7} auth in five minutes", "https://supabase.com/")
    } else if k == 12 {
        ("Fly.io \u{b7} run your app close to users", "https://fly.io/")
    } else if k == 13 {
        ("Fly.io \u{b7} machines that boot in millis", "https://fly.io/")
    } else if k == 14 {
        ("Cloudflare \u{b7} the network is the computer", "https://cloudflare.com/")
    } else {
        ("Cloudflare \u{b7} cache everything", "https://cloudflare.com/")
    }
}

/// How many ads the first `i` hours of the demo show.
pub open spec fn shown_before(i: int) -> int
    decreases i,
{
    if i <= 0 {
        0
    } else {
        shown_before(i - 1) + demo_hours()[i - 1]
    }
}

/// The whole hours of a clock reading, toward the epoch, in milliseconds.
pub open spec fn whole_hours(now_ms: i64) -> int {
    if now_ms >= 0 {
        now_ms as int / 3_600_000 * 3_600_000
    } else {
        -(-(now_ms as int) / 3_600_000 * 3_600_000)
    }
}

/// The start of an hour of the demo; the last is that of the clock.
pub open spec fn demo_hour_start(now_ms: i64, i: int) -> int {
    whole_hours(now_ms) - (23 - i) * 3_600_000
}

/// When an ad of an hour of the demo was observed.
pub open spec fn demo_moment(now_ms: i64, i: int, j: int) -> int {
    demo_hour_start(now_ms, i) + j * 60_000 + 5_000
}

/// An archive after the first `j` ads of an hour of the demo.
pub open spec fn after_ads(a: ArchiveView, now_ms: i64, i: int, j: int) -> ArchiveView
    decreases j,
{
    if j <= 0 {
        a
    } else {
        let (text, url) = demo_creative((shown_before(i) + j - 1) % 16);
        let at = demo_moment(now_ms, i, j - 1) as i64;
        captured(after_ads(a, now_ms, i, j - 1), text, Some(url), at, at)
    }
}

/// The demo's archive after its first `i` hours.
pub open spec fn after_hours(now_ms: i64, i: int) -> ArchiveView
    decreases i,
{
    if i <= 0 {
        empty_archive()
    } else {
        after_ads(
            observed(after_hours(now_ms, i - 1), demo_hour_start(now_ms, i - 1) as i64),
            now_ms,
            i - 1,
            demo_hours()[i - 1] as int,
        )
    }
}

/// Seed an in-memory archive with representative data. Goes through the exact
/// same capture path as real ads.
pub fn demo_archive(now_ms: i64) -> (r: Archive)
    requires
        i64::MIN + 24 * HOUR_MS <= now_ms <= i64::MAX - HOUR_MS,
    ensures
        r@ == after_hours(now_ms, 24),
        wf(r@),
{
    let mut archive = Archive::open_in_memory();
    let hours: Vec<u64> = vec![
        1, 2, 1, 3, 4, 6, 5, 7, 6, 8, 6, 9, 7, 5, 4, 6, 8, 7, 5, 3, 4, 6, 5, 2,
    ];
    assert(hours@ =~= demo_hours());
    let end_hour: i64 = if now_ms >= 0 {
        now_ms / HOUR_MS * HOUR_MS
    } else {
        let back: i64 = 0 - now_ms;
        0 - back / HOUR_MS * HOUR_MS
    };
    let mut k: usize = 0;
    let mut i: usize = 0;
    while i < 24
        invariant
            end_hour == whole_hours(now_ms),
            i64::MIN + 24 * HOUR_MS <= end_hour <= i64::MAX - HOUR_MS,
            hours@ == demo_hours(),
            i <= 24,
            k == shown_before(i as int),
            k <= 9 * i,
            wf(archive@),
            archive@.sightings.len() <= k,
            archive@ == after_hours(now_ms, i as int),
        decreases 24 - i,
    {
        let hour_start: i64 = end_hour - (23 - i as i64) * HOUR_MS;
        assert(hour_start == demo_hour_start(now_ms, i as int));
        let ghost before = archive@;
        archive.record_observation(hour_start);
        let ghost base = archive@;
        assert(base == observed(before, hour_start));
        let count = hours[i];
        assert(count <= 9);
        let mut j: u64 = 0;
        while j < count
            invariant
                i64::MIN + 24 * HOUR_MS <= end_hour <= i64::MAX - HOUR_MS,
                i < 24,
                count <= 9,
                count == demo_hours()[i as int],
                hour_start == demo_hour_start(now_ms, i as int),
                hour_start == end_hour - (23 - i) * HOUR_MS,
                j <= count,
                k == shown_before(i as int) + j,
                k <= 9 * i + j,
                wf(archive@),
                archive@.sightings.len() <= k,
                archive@ == after_ads(base, now_ms, i as int, j as int),
            decreases count - j,
        {
            let (text, url) = creative(k % 16);
            k = k + 1;
            let at: i64 = hour_start + (j as i64) * 60_000 + 5_000;
            assert(at == demo_moment(now_ms, i as int, j as int));
            let ad = CliAd {
                ad_text: text.to_owned(),
                click_url: Some(url.to_owned()),
                icon_url: None,
                icon_ref: None,
                ts: at,
            };
            archive.capture_ad(&ad, at);
            j = j + 1;
        }
        i = i + 1;
    }
    archive
}

/// Build the demo dashboard through the real refresh path. Clearly labelled
/// "demo data" in the header so it is never mistaken for real stats.
pub fn demo_app() -> (r: App)
    ensures
        r.demo,
        shows_archive(r, after_hours(DEMO_NOW_MS, 24), DEMO_NOW_MS),
        r.live@ == (LiveStateView {
            signed_in: Some(true),
            injection_on: Some(true),
            ..crate::sources::unknown_state()
        }),
        r.current is Some,
        r.current->0@ == (crate::model::CliAdView {
            ad_text: demo_creative(0).0,
            click_url: Some(demo_creative(0).1),
            icon_url: None,
            icon_ref: None,
            ts: (DEMO_NOW_MS - 12_000) as i64,
        }),
        r.theme == Theme::Auto,
        r.palette == dark_palette(),
        !r.light_terminal,
        r.picker is None,
        r.tab == Tab::Dashboard,
        r.chart_style == ChartStyle::Heat,
        r.feed.items@.len() == 0,
        r.feed_cursor == 0,
        r.link_cursor == 0,
        r.offline is None,
        !r.fetching,
{
    let mut app = App::default();
    app.demo = true;
    let archive = demo_archive(DEMO_NOW_MS);
    app.refresh_from_archive(&archive, DEMO_NOW_MS);
    app.live = LiveState {
        signed_in: Some(true),
        injection_on: Some(true),
        killed: None,
        has_ad: None,
        cc_version: None,
        last_ts_iso: None,
    };
    let (text, url) = creative(0);
    app.current = Some(
        CliAd {
            ad_text: text.to_owned(),
            click_url: Some(url.to_owned()),
            icon_url: None,
            icon_ref: None,
            ts: DEMO_NOW_MS - 12_000,
        },
    );
    app
}

// ---- what the controls do ---------------------------------------------------

/// A step moves a cursor by one, and not at all at the end that it would leave.
pub proof fn steps_move_by_one(cursor: usize, len: int)
    requires
        cursor < len <= usize::MAX,
    ensures
        cursor + 1 < len ==> stepped(cursor, len, true) == cursor + 1,
        cursor + 1 == len ==> stepped(cursor, len, true) == cursor,
        cursor > 0 ==> stepped(cursor, len, false) == cursor - 1,
        cursor == 0 ==> stepped(cursor, len, false) == 0,
{
}

/// A cursor on its list stays where it is; one past the end goes to the last
/// entry, or to the start of an empty list.
pub proof fn cursors_are_held_to_their_lists(app: App)
    ensures
        ({
            let after = with_clamped_cursors(app);
            let n = app.feed.items@.len();
            let m = app.links@.len();
            &&& after.feed == app.feed && after.links == app.links && after.tab == app.tab
            &&& app.feed_cursor < n ==> after.feed_cursor == app.feed_cursor
            &&& 0 < n <= app.feed_cursor ==> after.feed_cursor == n - 1
            &&& n == 0 ==> after.feed_cursor == 0
            &&& app.link_cursor < m ==> after.link_cursor == app.link_cursor
            &&& 0 < m <= app.link_cursor ==> after.link_cursor == m - 1
            &&& m == 0 ==> after.link_cursor == 0
        }),
{
}

/// The panels hold a day of hours, the eight advertisers with the most sightings,
/// the eight ads that were seen last, and the destinations, up to two thousand.
pub proof fn panels_hold_what_fits(app: App, a: ArchiveView, now_ms: i64)
    requires
        shows_archive(app, a, now_ms),
    ensures
        app.sparkline@.len() == 24,
        app.leaderboard@.len() == if full_board(a).len() < 8 {
            full_board(a).len()
        } else {
            8
        },
        app.recent@.len() == if a.ads.len() < 8 {
            a.ads.len()
        } else {
            8
        },
        app.links@.len() == if all_links(a).len() < 2000 {
            all_links(a).len()
        } else {
            2000
        },
{
    assert(board_views(app.leaderboard@).len() == app.leaderboard@.len());
    assert(ad_views(app.recent@).len() == app.recent@.len());
    assert(link_views(app.links@).len() == app.links@.len());
}

/// What opens is what the cursor of the tab that shows is on: on the links the
/// link at its index, on the feed the item that as many others are shown before;
/// on the dashboard nothing opens.
pub proof fn the_cursor_opens_what_it_is_on(app: App)
    ensures
        app.tab == Tab::Dashboard ==> url_under_cursor(app) is None,
        app.tab == Tab::Links && app.link_cursor < app.links@.len() ==> url_under_cursor(app)
            == Some(app.links@[app.link_cursor as int].url@),
        app.tab == Tab::Links && app.link_cursor >= app.links@.len() ==> url_under_cursor(
            app,
        ) is None,
        app.tab == Tab::Feed && app.feed_cursor < app.feed.items@.len() ==> {
            let items = item_views(app.feed.items@);
            url_under_cursor(app) == items[display_order(items)[app.feed_cursor as int]].url
        },
        app.tab == Tab::Feed && app.feed_cursor >= app.feed.items@.len() ==> url_under_cursor(
            app,
        ) is None,
{
    let items = item_views(app.feed.items@);
    crate::order::ranking_is_stable(crate::feed::display_keys(items));
    if app.feed_cursor < app.feed.items@.len() {
        let at = display_order(items)[app.feed_cursor as int];
        assert(items[at] == app.feed.items@[at]@);
    }
}

// ---- what the demo holds ----------------------------------------------------

/// The demo's hours are the twenty-four up to that of the clock, and its ads are a
/// minute apart in each, from five seconds after the hour on; each ad's creative
/// comes after that of the ad before it.
pub proof fn the_demo_ends_at_the_clock(now_ms: i64, i: int, j: int)
    requires
        0 <= now_ms,
        0 <= i < 24,
        0 <= j < 60,
    ensures
        demo_hour_start(now_ms, 23) <= now_ms < demo_hour_start(now_ms, 23) + 3_600_000,
        demo_hour_start(now_ms, 23) % 3_600_000 == 0,
        demo_hour_start(now_ms, i + 1) - demo_hour_start(now_ms, i) == 3_600_000,
        demo_moment(now_ms, i, 0) == demo_hour_start(now_ms, i) + 5_000,
        demo_moment(now_ms, i, j + 1) - demo_moment(now_ms, i, j) == 60_000,
        demo_hour_start(now_ms, i) <= demo_moment(now_ms, i, j) < demo_hour_start(now_ms, i + 1),
{
}

proof fn lemma_demo_ads(a: ArchiveView, now_ms: i64, i: int, j: int)
    requires
        i64::MIN + 24 * 3_600_000 <= now_ms <= i64::MAX - 3_600_000,
        0 <= i < 24,
        0 <= j < 60,
        forall|k: int|
            0 <= k < a.sightings.len() ==> (#[trigger] a.sightings[k]).rotation_ts
                < demo_hour_start(now_ms, i),
    ensures
        ({
            let b = after_ads(a, now_ms, i, j);
            &&& b.hours == a.hours
            &&& b.sightings.len() == a.sightings.len() + j
            &&& forall|k: int|
                0 <= k < a.sightings.len() ==> #[trigger] b.sightings[k] == a.sightings[k]
            &&& forall|k: int|
                a.sightings.len() <= k < b.sightings.len() ==> (#[trigger] b.sightings[k]).rotation_ts
                    == demo_moment(now_ms, i, k - a.sightings.len()) && b.sightings[k].observed_ms
                    == b.sightings[k].rotation_ts
        }),
    decreases j,
{
    if j > 0 {
        lemma_demo_ads(a, now_ms, i, j - 1);
        let before = after_ads(a, now_ms, i, j - 1);
        let at = demo_moment(now_ms, i, j - 1);
        let (text, url) = demo_creative((shown_before(i) + j - 1) % 16);
        let id = crate::model::creative_id(Some(url), text);
        assert(at == at as i64);
        assert(!crate::archive::is_recorded(before.sightings, id, at as i64)) by {
            assert forall|k: int| 0 <= k < before.sightings.len() implies (
            #[trigger] before.sightings[k]).rotation_ts != at by {
                if k < a.sightings.len() {
                    assert(before.sightings[k] == a.sightings[k]);
                }
            }
        }
    }
}

/// The demo's archive has a sighting for each ad that its hours show, each
/// observed at its moment, and every one of its hours was watched.
pub proof fn the_demo_shows_every_ad(now_ms: i64, i: int)
    requires
        i64::MIN + 24 * 3_600_000 <= now_ms <= i64::MAX - 3_600_000,
        0 <= i <= 24,
    ensures
        ({
            let a = after_hours(now_ms, i);
            &&& a.sightings.len() == shown_before(i)
            &&& forall|k: int|
                0 <= k < i ==> a.hours.contains(
                    #[trigger] (demo_hour_start(now_ms, k) / 3_600_000) as i64,
                )
            &&& forall|k: int|
                0 <= k < a.sightings.len() ==> (#[trigger] a.sightings[k]).rotation_ts
                    < demo_hour_start(now_ms, i)
        }),
    decreases i,
{
    if i > 0 {
        the_demo_shows_every_ad(now_ms, i - 1);
        let before = after_hours(now_ms, i - 1);
        let start = demo_hour_start(now_ms, i - 1);
        let mid = observed(before, start as i64);
        assert(start == start as i64);
        lemma_demo_ads(mid, now_ms, i - 1, demo_hours()[i - 1] as int);
        let a = after_hours(now_ms, i);
        assert forall|k: int| 0 <= k < i implies a.hours.contains(
            #[trigger] (demo_hour_start(now_ms, k) / 3_600_000) as i64,
        ) by {
            crate::archive::laws::observing_marks_the_hour(
                before,
                start as i64,
                (demo_hour_start(now_ms, k) / 3_600_000) as i64,
            );
        }
        assert forall|k: int| 0 <= k < a.sightings.len() implies (
        #[trigger] a.sightings[k]).rotation_ts < demo_hour_start(now_ms, i) by {
            if k < mid.sightings.len() {
                assert(a.sightings[k] == mid.sightings[k]);
            }
        }
    }
}

} // verus!
