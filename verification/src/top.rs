//! The live, interactive dashboard: what each key press, feed update and tick
//! does to it. The drawing lives in [`crate::render`].
//!
//! `t` opens a theme picker overlay, the arrow keys preview each theme live,
//! Enter saves the choice, and Esc reverts. The initial theme comes from a flag,
//! else the saved preferences (which default to auto-detect).

use vstd::prelude::*;

use crate::archive::{wf, Archive};
use crate::capture::{capture_pass, has_room_for, passed};
use crate::chart::{next_style, ChartStyle};
use crate::config::Config;
use crate::feed::sync::{offline_because, offline_reason, read_cached, shows_cache};
use crate::feed::FeedSnapshot;
use crate::model::CliAd;
use crate::render::app::{
    next_tab, picker_wf, same_but_panels, shows_archive, stepped, theme_place,
    with_clamped_cursors,
};
use crate::render::{demo_app, App, Tab, ThemePicker};
use crate::sources::{events_since, live_state, unknown_state};
use crate::text::opt_str;
use crate::theme::{all_themes, palette_of, Palette, Theme};

verus! {

/// How often the feed is refreshed in the background, in seconds.
pub const FEED_REFRESH_SECS: u64 = 900;

/// How often the dashboard refreshes itself, in milliseconds.
pub const TICK_MS: u64 = 1000;

/// A key.
#[derive(Debug, Clone, Copy, PartialEq, Eq, Structural)]
pub enum KeyCode {
    Char(char),
    Esc,
    Tab,
    BackTab,
    Left,
    Right,
    Up,
    Down,
    Enter,
    /// Any other key.
    Other,
}

/// A key press.
#[derive(Debug, Clone, Copy, PartialEq, Eq, Structural)]
pub struct KeyEvent {
    pub code: KeyCode,
    /// Whether the control key was held.
    pub ctrl: bool,
}

/// What a key press asks the loop to do beyond changing the app.
#[derive(Debug, Clone, Copy, PartialEq, Eq, Structural)]
pub enum Action {
    /// Nothing for the loop to do (the key was fully handled in the app).
    Nothing,
    /// Quit the dashboard.
    Quit,
    /// Re-capture and refresh now, and poke the feed thread.
    Refresh,
    /// Open the current selection's URL in a browser.
    Open,
    /// Save the theme and the chart style as preferences.
    Save(Theme, ChartStyle),
}

// ---- keys -------------------------------------------------------------------

/// What an open theme picker holds.
pub struct PickerView {
    pub options: Seq<Theme>,
    pub cursor: usize,
    pub original: Theme,
}

impl View for ThemePicker {
    type V = PickerView;

    open spec fn view(&self) -> PickerView {
        PickerView { options: self.options@, cursor: self.cursor, original: self.original }
    }
}

/// What keys can change.
pub struct Controls {
    pub tab: Tab,
    pub theme: Theme,
    pub palette: Palette,
    pub picker: Option<PickerView>,
    pub chart_style: ChartStyle,
    pub feed_cursor: usize,
    pub link_cursor: usize,
}

/// What keys depend on and cannot change.
pub struct Surroundings {
    pub light_terminal: bool,
    pub feed_len: int,
    pub link_len: int,
    /// Whether a choice is saved.
    pub persist: bool,
}

/// The controls of an app.
pub open spec fn controls(app: App) -> Controls {
    Controls {
        tab: app.tab,
        theme: app.theme,
        palette: app.palette,
        picker: match app.picker {
            Some(p) => Some(p@),
            None => None,
        },
        chart_style: app.chart_style,
        feed_cursor: app.feed_cursor,
        link_cursor: app.link_cursor,
    }
}

/// The surroundings of an app's controls.
pub open spec fn surroundings(app: App, persist: bool) -> Surroundings {
    Surroundings {
        light_terminal: app.light_terminal,
        feed_len: app.feed.items@.len() as int,
        link_len: app.links@.len() as int,
        persist,
    }
}

/// Whether an app changed in nothing but its controls.
pub open spec fn same_but_controls(before: App, after: App) -> bool {
    before == App {
        tab: before.tab,
        theme: before.theme,
        palette: before.palette,
        picker: before.picker,
        chart_style: before.chart_style,
        feed_cursor: before.feed_cursor,
        link_cursor: before.link_cursor,
        ..after
    }
}

/// The controls with a theme applied.
pub open spec fn themed(c: Controls, theme: Theme, s: Surroundings) -> Controls {
    Controls { theme, palette: palette_of(theme, s.light_terminal), ..c }
}

/// The controls after the picker's cursor moved, with the theme under it
/// previewed.
pub open spec fn previewed(c: Controls, p: PickerView, down: bool, s: Surroundings) -> Controls {
    let cursor = stepped(p.cursor, p.options.len() as int, down);
    themed(
        Controls { picker: Some(PickerView { cursor, ..p }), ..c },
        p.options[cursor as int],
        s,
    )
}

/// What a key does while the theme picker is open: it moves and previews,
/// commits, or reverts.
pub open spec fn picker_step(c: Controls, p: PickerView, code: KeyCode, s: Surroundings) -> (
    Controls,
    Action,
) {
    if code == KeyCode::Up || code == KeyCode::Char('k') {
        (previewed(c, p, false, s), Action::Nothing)
    } else if code == KeyCode::Down || code == KeyCode::Char('j') {
        (previewed(c, p, true, s), Action::Nothing)
    } else if code == KeyCode::Enter {
        let theme = p.options[p.cursor as int];
        (
            themed(Controls { picker: None, ..c }, theme, s),
            if s.persist {
                Action::Save(theme, c.chart_style)
            } else {
                Action::Nothing
            },
        )
    } else if code == KeyCode::Esc || code == KeyCode::Char('q') {
        (themed(Controls { picker: None, ..c }, p.original, s), Action::Nothing)
    } else {
        (c, Action::Nothing)
    }
}

/// The picker as it opens on a theme.
pub open spec fn opened_picker(theme: Theme) -> PickerView {
    PickerView { options: all_themes(), cursor: theme_place(theme) as usize, original: theme }
}

/// The controls after the cursor of the tab that shows moved.
pub open spec fn moved(c: Controls, down: bool, s: Surroundings) -> Controls {
    match c.tab {
        Tab::Dashboard => c,
        Tab::Feed => Controls { feed_cursor: stepped(c.feed_cursor, s.feed_len, down), ..c },
        Tab::Links => Controls { link_cursor: stepped(c.link_cursor, s.link_len, down), ..c },
    }
}

/// What a key does while no overlay is open.
pub open spec fn plain_step(c: Controls, code: KeyCode, s: Surroundings) -> (Controls, Action) {
    match code {
        KeyCode::Char('q') => (c, Action::Quit),
        KeyCode::Esc => if c.tab == Tab::Dashboard {
            (c, Action::Quit)
        } else {
            (Controls { tab: Tab::Dashboard, ..c }, Action::Nothing)
        },
        KeyCode::Tab => (Controls { tab: next_tab(c.tab, true), ..c }, Action::Nothing),
        KeyCode::Right => (Controls { tab: next_tab(c.tab, true), ..c }, Action::Nothing),
        KeyCode::Char('l') => (Controls { tab: next_tab(c.tab, true), ..c }, Action::Nothing),
        KeyCode::BackTab => (Controls { tab: next_tab(c.tab, false), ..c }, Action::Nothing),
        KeyCode::Left => (Controls { tab: next_tab(c.tab, false), ..c }, Action::Nothing),
        KeyCode::Char('h') => (Controls { tab: next_tab(c.tab, false), ..c }, Action::Nothing),
        KeyCode::Char('1') => (Controls { tab: Tab::Dashboard, ..c }, Action::Nothing),
        KeyCode::Char('2') => (Controls { tab: Tab::Feed, ..c }, Action::Nothing),
        KeyCode::Char('3') => (Controls { tab: Tab::Links, ..c }, Action::Nothing),
        KeyCode::Char('r') => (c, Action::Refresh),
        KeyCode::Down => (moved(c, true, s), Action::Nothing),
        KeyCode::Char('j') => (moved(c, true, s), Action::Nothing),
        KeyCode::Up => (moved(c, false, s), Action::Nothing),
        KeyCode::Char('k') => (moved(c, false, s), Action::Nothing),
        KeyCode::Char('o') => (c, Action::Open),
        KeyCode::Enter => (c, Action::Open),
        KeyCode::Char('t') => if c.tab == Tab::Dashboard {
            (Controls { picker: Some(opened_picker(c.theme)), ..c }, Action::Nothing)
        } else {
            (c, Action::Nothing)
        },
        KeyCode::Char('c') => if c.tab == Tab::Dashboard {
            let style = next_style(c.chart_style);
            (
                Controls { chart_style: style, ..c },
                if s.persist {
                    Action::Save(c.theme, style)
                } else {
                    Action::Nothing
                },
            )
        } else {
            (c, Action::Nothing)
        },
        _ => (c, Action::Nothing),
    }
}

/// What a key press does: control-C quits from anywhere; the theme picker
/// captures every other key while it is open.
pub open spec fn key_step(c: Controls, key: KeyEvent, s: Surroundings) -> (Controls, Action) {
    if key.ctrl && key.code == KeyCode::Char('c') {
        (c, Action::Quit)
    } else {
        match c.picker {
            Some(p) => picker_step(c, p, key.code, s),
            None => plain_step(c, key.code, s),
        }
    }
}

/// Whether the theme picker, where it is open, has its cursor on an option.
pub open spec fn picker_is_wf(app: App) -> bool {
    app.picker matches Some(p) ==> picker_wf(p)
}

/// Apply the theme currently under the picker cursor, so the dashboard behind
/// the overlay updates as the user navigates.
pub fn preview_selected(app: &mut App)
    requires
        picker_is_wf(*old(app)),
    ensures
        same_but_controls(*old(app), *final(app)),
        final(app).picker == old(app).picker,
        controls(*final(app)) == (match old(app).picker {
            Some(p) => themed(
                controls(*old(app)),
                p.options@[p.cursor as int],
                surroundings(*old(app), false),
            ),
            None => controls(*old(app)),
        }),
{
    let chosen = match &app.picker {
        Some(p) => Some(p.selected()),
        None => None,
    };
    if let Some(theme) = chosen {
        app.set_theme(theme);
    }
}

fn step_picker(app: &mut App, down: bool)
    requires
        old(app).picker is Some,
        picker_is_wf(*old(app)),
    ensures
        same_but_controls(*old(app), *final(app)),
        picker_is_wf(*final(app)),
        controls(*final(app)) == previewed(
            controls(*old(app)),
            old(app).picker->0@,
            down,
            surroundings(*old(app), false),
        ),
{
    let mut taken: Option<ThemePicker> = None;
    std::mem::swap(&mut taken, &mut app.picker);
    if let Some(mut p) = taken {
        if down {
            p.down();
        } else {
            p.up();
        }
        app.picker = Some(p);
    }
    preview_selected(app);
}

/// Drive the open theme picker. Arrow keys (or j/k) move the cursor and preview
/// the theme live; Enter commits (and asks to save when `persist`); Esc or q
/// reverts. Without an open picker nothing happens.
pub fn handle_picker(app: &mut App, code: KeyCode, persist: bool) -> (r: Action)
    requires
        picker_is_wf(*old(app)),
    ensures
        same_but_controls(*old(app), *final(app)),
        picker_is_wf(*final(app)),
        (controls(*final(app)), r) == (match old(app).picker {
            Some(p) => picker_step(
                controls(*old(app)),
                p@,
                code,
                surroundings(*old(app), persist),
            ),
            None => (controls(*old(app)), Action::Nothing),
        }),
{
    let (chosen, original) = match &app.picker {
        Some(p) => (p.selected(), p.original),
        None => return Action::Nothing,
    };
    match code {
        KeyCode::Up => {
            step_picker(app, false);
            Action::Nothing
        },
        KeyCode::Char('k') => {
            step_picker(app, false);
            Action::Nothing
        },
        KeyCode::Down => {
            step_picker(app, true);
            Action::Nothing
        },
        KeyCode::Char('j') => {
            step_picker(app, true);
            Action::Nothing
        },
        KeyCode::Enter => {
            app.set_theme(chosen);
            app.picker = None;
            if persist {
                Action::Save(chosen, app.chart_style)
            } else {
                Action::Nothing
            }
        },
        KeyCode::Esc => {
            app.set_theme(original);
            app.picker = None;
            Action::Nothing
        },
        KeyCode::Char('q') => {
            app.set_theme(original);
            app.picker = None;
            Action::Nothing
        },
        _ => Action::Nothing,
    }
}

/// Handle one key press, changing the app and returning an [`Action`] for the
/// things the loop must do (quit, refresh, open a URL, save). `persist` controls
/// whether confirming a theme or chart asks to save it (off for the demo).
pub fn handle_key(app: &mut App, key: KeyEvent, persist: bool) -> (r: Action)
    requires
        picker_is_wf(*old(app)),
    ensures
        same_but_controls(*old(app), *final(app)),
        picker_is_wf(*final(app)),
        (controls(*final(app)), r) == key_step(
            controls(*old(app)),
            key,
            surroundings(*old(app), persist),
        ),
{
    if key.ctrl && key.code == KeyCode::Char('c') {
        return Action::Quit;
    }
    // The theme picker captures all keys while open.
    if app.picker.is_some() {
        return handle_picker(app, key.code, persist);
    }
    match key.code {
        KeyCode::Char('q') => return Action::Quit,
        // Esc quits only from the dashboard; on a list tab it returns to it.
        KeyCode::Esc => {
            if app.tab == Tab::Dashboard {
                return Action::Quit;
            }
            app.tab = Tab::Dashboard;
        },
        KeyCode::Tab | KeyCode::Right | KeyCode::Char('l') => {
            app.tab = app.tab.cycle(true);
        },
        KeyCode::BackTab | KeyCode::Left | KeyCode::Char('h') => {
            app.tab = app.tab.cycle(false);
        },
        KeyCode::Char('1') => {
            app.tab = Tab::Dashboard;
        },
        KeyCode::Char('2') => {
            app.tab = Tab::Feed;
        },
        KeyCode::Char('3') => {
            app.tab = Tab::Links;
        },
        KeyCode::Char('r') => return Action::Refresh,
        KeyCode::Down | KeyCode::Char('j') => app.move_cursor(true),
        KeyCode::Up | KeyCode::Char('k') => app.move_cursor(false),
        KeyCode::Char('o') | KeyCode::Enter => return Action::Open,
        // `t` and `c` are dashboard controls; they are inert on the other tabs so
        // they cannot surprise the user with an off-screen change.
        KeyCode::Char('t') => {
            if app.tab == Tab::Dashboard {
                app.picker = Some(ThemePicker::open(app.theme));
            }
        },
        KeyCode::Char('c') => {
            if app.tab == Tab::Dashboard {
                app.chart_style = app.chart_style.next();
                if persist {
                    return Action::Save(app.theme, app.chart_style);
                }
            }
        },
        _ => {},
    }
    Action::Nothing
}

// ---- updates and ticks ------------------------------------------------------

/// A message from the background feed thread to the dashboard.
#[derive(Debug)]
pub enum FeedUpdate {
    /// A fetch has started (show the syncing indicator).
    Fetching,
    /// A fetch finished with this snapshot.
    Done(FeedSnapshot),
}

/// The app after a feed update.
pub open spec fn updated(app: App, update: FeedUpdate) -> App {
    match update {
        FeedUpdate::Fetching => App { fetching: true, ..app },
        FeedUpdate::Done(snapshot) => with_clamped_cursors(
            App { feed: snapshot, fetching: false, ..app },
        ),
    }
}

/// Take in a message from the background feed thread.
pub fn receive(app: &mut App, update: FeedUpdate)
    ensures
        *final(app) == updated(*old(app), update),
{
    match update {
        FeedUpdate::Fetching => {
            app.fetching = true;
        },
        FeedUpdate::Done(snapshot) => {
            app.feed = snapshot;
            app.fetching = false;
            app.clamp_cursors();
        },
    }
}

/// What the feed thread waited for.
#[derive(Debug, Clone, Copy, PartialEq, Eq, Structural)]
pub enum Wait {
    /// A refresh was asked for.
    Requested,
    /// The refresh interval passed.
    TimedOut,
    /// The dashboard is gone.
    Disconnected,
}

/// Whether the feed thread fetches again after a wait: on every request and
/// after the interval, until the dashboard is gone.
pub fn fetches_again(wait: Wait) -> (r: bool)
    ensures
        r == (wait != Wait::Disconnected),
{
    match wait {
        Wait::Requested => true,
        Wait::TimedOut => true,
        Wait::Disconnected => false,
    }
}

/// Whether a tick is due, this many milliseconds after the last.
pub fn tick_is_due(elapsed_ms: u64) -> (r: bool)
    ensures
        r == (elapsed_ms >= TICK_MS),
{
    elapsed_ms >= TICK_MS
}

/// The ad that an optional ad holds.
pub open spec fn shown_ad(current: Option<CliAd>) -> Option<crate::model::CliAdView> {
    match current {
        Some(ad) => Some(ad@),
        None => None,
    }
}

/// Capture what is showing, then refresh the dashboard: on every tick, and when
/// a refresh is asked for.
pub fn tick(
    app: &mut App,
    archive: &mut Archive,
    now_ms: i64,
    log: Option<&str>,
    current: Option<CliAd>,
)
    requires
        wf(old(archive)@),
        has_room_for(old(archive)@, shown_ad(current)),
    ensures
        wf(final(archive)@),
        final(archive)@ == passed(old(archive)@, shown_ad(current), opt_str(log), now_ms),
        shows_archive(*final(app), final(archive)@, now_ms),
        final(app).live@ == (match opt_str(log) {
            Some(text) => live_state(events_since(text, None)),
            None => unknown_state(),
        }),
        final(app).current == current,
        same_but_panels(
            *old(app),
            (App { live: old(app).live, current: old(app).current, ..*final(app) }),
        ),
{
    let shown = match &current {
        Some(ad) => Some(ad),
        None => None,
    };
    let _report = capture_pass(archive, shown, log, now_ms);
    app.refresh(archive, now_ms, log, current);
}

/// Start the dashboard: the flags decide the theme and the chart style, and the
/// saved preferences where they are absent. The feed shows what is cached, before
/// the first network round trip returns.
pub fn start(
    archive: &mut Archive,
    cfg: &Config,
    theme_arg: Option<Theme>,
    chart_arg: Option<ChartStyle>,
    light_terminal: bool,
    env_offline: bool,
    now_ms: i64,
    log: Option<&str>,
    current: Option<CliAd>,
) -> (r: App)
    requires
        wf(old(archive)@),
        has_room_for(old(archive)@, shown_ad(current)),
    ensures
        wf(final(archive)@),
        final(archive)@ == passed(old(archive)@, shown_ad(current), opt_str(log), now_ms),
        shows_archive(r, final(archive)@, now_ms),
        r.live@ == (match opt_str(log) {
            Some(text) => live_state(events_since(text, None)),
            None => unknown_state(),
        }),
        r.current == current,
        !r.demo,
        r.theme == (match theme_arg {
            Some(theme) => theme,
            None => cfg.theme,
        }),
        r.light_terminal == light_terminal,
        r.palette == palette_of(r.theme, light_terminal),
        r.picker is None,
        r.tab == Tab::Dashboard,
        r.chart_style == (match chart_arg {
            Some(chart) => chart,
            None => cfg.chart_style,
        }),
        r.offline == offline_because(false, cfg.feed.enabled, env_offline),
        shows_cache(r.feed, final(archive)@, r.offline is Some),
        r.feed_cursor == 0,
        r.link_cursor == 0,
        !r.fetching,
{
    let mut app = App::default();
    app.light_terminal = light_terminal;
    let theme = match theme_arg {
        Some(theme) => theme,
        None => cfg.theme,
    };
    app.set_theme(theme);
    app.chart_style = match chart_arg {
        Some(chart) => chart,
        None => cfg.chart_style,
    };
    tick(&mut app, archive, now_ms, log, current);
    app.offline = offline_reason(false, cfg, env_offline);
    app.feed = read_cached(archive, app.offline.is_some());
    app.clamp_cursors();
    app
}

/// Start the dashboard on sample data, so the layout can be seen without waiting
/// for real ads; dark, unless a flag says otherwise.
pub fn start_demo(theme_arg: Option<Theme>, chart_arg: Option<ChartStyle>) -> (r: App)
    ensures
        r.demo,
        shows_archive(
            r,
            crate::render::app::after_hours(crate::render::app::DEMO_NOW_MS, 24),
            crate::render::app::DEMO_NOW_MS,
        ),
        r.theme == (match theme_arg {
            Some(theme) => theme,
            None => Theme::Dark,
        }),
        r.palette == palette_of(r.theme, false),
        r.chart_style == (match chart_arg {
            Some(chart) => chart,
            None => ChartStyle::Heat,
        }),
        r.picker is None,
        r.tab == Tab::Dashboard,
{
    let mut app = demo_app();
    let theme = match theme_arg {
        Some(theme) => theme,
        None => Theme::Dark,
    };
    app.set_theme(theme);
    if let Some(chart) = chart_arg {
        app.chart_style = chart;
    }
    app
}

// ---- what holds of every key ------------------------------------------------

/// Control-C quits from anywhere, also with the picker open, and changes nothing.
pub proof fn control_c_always_quits(c: Controls, s: Surroundings)
    ensures
        key_step(c, KeyEvent { code: KeyCode::Char('c'), ctrl: true }, s) == (c, Action::Quit),
{
}

/// The controls after the picker's cursor moved down or up a number of times.
pub open spec fn after_moves(c: Controls, moves: Seq<bool>, s: Surroundings) -> Controls
    decreases moves.len(),
{
    if moves.len() == 0 {
        c
    } else {
        let before = after_moves(c, moves.drop_last(), s);
        let code = if moves.last() {
            KeyCode::Down
        } else {
            KeyCode::Up
        };
        key_step(before, KeyEvent { code, ctrl: false }, s).0
    }
}

proof fn lemma_after_moves(c: Controls, moves: Seq<bool>, s: Surroundings)
    requires
        c.picker is Some,
        c.picker->0.cursor < c.picker->0.options.len(),
        c.theme == c.picker->0.options[c.picker->0.cursor as int],
        c.palette == palette_of(c.theme, s.light_terminal),
    ensures
        ({
            let after = after_moves(c, moves, s);
            let p = after.picker->0;
            &&& after.picker is Some
            &&& p.options == c.picker->0.options
            &&& p.original == c.picker->0.original
            &&& p.cursor < p.options.len()
            &&& after == (Controls {
                picker: after.picker,
                theme: p.options[p.cursor as int],
                palette: palette_of(p.options[p.cursor as int], s.light_terminal),
                ..c
            })
        }),
    decreases moves.len(),
{
    if moves.len() > 0 {
        lemma_after_moves(c, moves.drop_last(), s);
    }
}

/// However the themes are previewed, cancelling the picker leaves everything as
/// it was before the picker opened.
pub proof fn cancelling_restores_the_theme(c: Controls, moves: Seq<bool>, s: Surroundings)
    requires
        c.picker is None,
        c.tab == Tab::Dashboard,
        c.palette == palette_of(c.theme, s.light_terminal),
    ensures
        ({
            let open = key_step(c, KeyEvent { code: KeyCode::Char('t'), ctrl: false }, s).0;
            let after = after_moves(open, moves, s);
            &&& open.picker is Some
            &&& key_step(after, KeyEvent { code: KeyCode::Esc, ctrl: false }, s) == (
                c,
                Action::Nothing,
            )
            &&& key_step(after, KeyEvent { code: KeyCode::Char('q'), ctrl: false }, s) == (
                c,
                Action::Nothing,
            )
        }),
{
    lemma_opened(c.theme);
    let open = key_step(c, KeyEvent { code: KeyCode::Char('t'), ctrl: false }, s).0;
    lemma_after_moves(open, moves, s);
}

/// Committing keeps the theme that was previewed last, and asks to save it where
/// choices are saved.
pub proof fn committing_keeps_the_preview(c: Controls, moves: Seq<bool>, s: Surroundings)
    requires
        c.picker is None,
        c.tab == Tab::Dashboard,
        c.palette == palette_of(c.theme, s.light_terminal),
    ensures
        ({
            let open = key_step(c, KeyEvent { code: KeyCode::Char('t'), ctrl: false }, s).0;
            let after = after_moves(open, moves, s);
            key_step(after, KeyEvent { code: KeyCode::Enter, ctrl: false }, s) == (
                Controls { picker: None, ..after },
                if s.persist {
                    Action::Save(after.theme, c.chart_style)
                } else {
                    Action::Nothing
                },
            )
        }),
{
    lemma_opened(c.theme);
    let open = key_step(c, KeyEvent { code: KeyCode::Char('t'), ctrl: false }, s).0;
    lemma_after_moves(open, moves, s);
}

proof fn lemma_opened(theme: Theme)
    ensures
        ({
            let p = opened_picker(theme);
            p.cursor < p.options.len() && p.options[p.cursor as int] == theme
        }),
{
    let all = all_themes();
    assert(all[0] == Theme::Auto && all[1] == Theme::Dark && all[2] == Theme::Light && all[3]
        == Theme::Terminal);
}

/// Off the dashboard neither the theme nor the chart style can change.
pub proof fn looks_change_only_on_the_dashboard(c: Controls, key: KeyEvent, s: Surroundings)
    requires
        c.tab != Tab::Dashboard,
        c.picker is None,
    ensures
        ({
            let after = key_step(c, key, s).0;
            &&& after.theme == c.theme && after.palette == c.palette
            &&& after.chart_style == c.chart_style && after.picker is None
        }),
{
}

/// No key moves a cursor off its list.
pub proof fn cursors_stay_on_their_lists(c: Controls, key: KeyEvent, s: Surroundings)
    ensures
        c.feed_cursor < s.feed_len ==> key_step(c, key, s).0.feed_cursor < s.feed_len,
        c.link_cursor < s.link_len ==> key_step(c, key, s).0.link_cursor < s.link_len,
{
}

/// Where choices are not saved, no key asks to save one.
pub proof fn the_demo_saves_nothing(c: Controls, key: KeyEvent, s: Surroundings)
    requires
        !s.persist,
    ensures
        !(key_step(c, key, s).1 is Save),
{
}

/// With no overlay open, Esc twice quits from any tab: the first leaves a list
/// for the dashboard.
pub proof fn escape_leads_out(c: Controls, s: Surroundings)
    requires
        c.picker is None,
    ensures
        ({
            let esc = KeyEvent { code: KeyCode::Esc, ctrl: false };
            let first = key_step(c, esc, s);
            &&& first.1 == Action::Quit <==> c.tab == Tab::Dashboard
            &&& first.0.tab == Tab::Dashboard
            &&& key_step(first.0, esc, s).1 == Action::Quit
        }),
{
}

// ---- what each key does -----------------------------------------------------

/// The press of a key alone.
pub open spec fn press(code: KeyCode) -> KeyEvent {
    KeyEvent { code, ctrl: false }
}

/// The letters do what the arrows do, and Tab and Shift-Tab what right and left
/// do, with the picker open or not.
pub proof fn letters_stand_for_arrows(c: Controls, s: Surroundings)
    ensures
        key_step(c, press(KeyCode::Char('j')), s) == key_step(c, press(KeyCode::Down), s),
        key_step(c, press(KeyCode::Char('k')), s) == key_step(c, press(KeyCode::Up), s),
        key_step(c, press(KeyCode::Char('l')), s) == key_step(c, press(KeyCode::Right), s),
        key_step(c, press(KeyCode::Char('h')), s) == key_step(c, press(KeyCode::Left), s),
        key_step(c, press(KeyCode::Tab), s) == key_step(c, press(KeyCode::Right), s),
        key_step(c, press(KeyCode::BackTab), s) == key_step(c, press(KeyCode::Left), s),
        c.picker is None ==> key_step(c, press(KeyCode::Char('o')), s) == key_step(
            c,
            press(KeyCode::Enter),
            s,
        ),
{
}

/// Right goes from the dashboard to the feed, to the links and round again, and
/// left undoes it; a digit goes to its tab from anywhere. Nothing else changes.
pub proof fn tabs_are_reached_by_key(c: Controls, s: Surroundings)
    requires
        c.picker is None,
    ensures
        ({
            let right = key_step(c, press(KeyCode::Right), s);
            &&& right.1 == Action::Nothing
            &&& right.0 == (Controls { tab: right.0.tab, ..c })
            &&& c.tab == Tab::Dashboard ==> right.0.tab == Tab::Feed
            &&& c.tab == Tab::Feed ==> right.0.tab == Tab::Links
            &&& c.tab == Tab::Links ==> right.0.tab == Tab::Dashboard
            &&& key_step(right.0, press(KeyCode::Left), s) == (c, Action::Nothing)
        }),
        key_step(c, press(KeyCode::Char('1')), s) == (
            Controls { tab: Tab::Dashboard, ..c },
            Action::Nothing,
        ),
        key_step(c, press(KeyCode::Char('2')), s) == (
            Controls { tab: Tab::Feed, ..c },
            Action::Nothing,
        ),
        key_step(c, press(KeyCode::Char('3')), s) == (
            Controls { tab: Tab::Links, ..c },
            Action::Nothing,
        ),
{
}

/// Down and up move the cursor of the list that shows by one, as far as the list
/// goes, and change nothing else; on the dashboard they change nothing.
pub proof fn arrows_move_the_cursor_that_shows(c: Controls, s: Surroundings)
    requires
        c.picker is None,
        0 <= s.feed_len <= usize::MAX,
        0 <= s.link_len <= usize::MAX,
    ensures
        ({
            let down = key_step(c, press(KeyCode::Down), s);
            let up = key_step(c, press(KeyCode::Up), s);
            &&& down.1 == Action::Nothing && up.1 == Action::Nothing
            &&& c.tab == Tab::Dashboard ==> down.0 == c && up.0 == c
            &&& c.tab == Tab::Feed ==> down.0 == (Controls {
                feed_cursor: if c.feed_cursor + 1 < s.feed_len {
                    (c.feed_cursor + 1) as usize
                } else {
                    c.feed_cursor
                },
                ..c
            })
            &&& c.tab == Tab::Feed && c.feed_cursor > 0 ==> up.0 == (Controls {
                feed_cursor: (c.feed_cursor - 1) as usize,
                ..c
            })
            &&& c.tab == Tab::Feed && c.feed_cursor == 0 ==> up.0 == c
            &&& c.tab == Tab::Links ==> down.0 == (Controls {
                link_cursor: if c.link_cursor + 1 < s.link_len {
                    (c.link_cursor + 1) as usize
                } else {
                    c.link_cursor
                },
                ..c
            })
            &&& c.tab == Tab::Links && c.link_cursor > 0 ==> up.0 == (Controls {
                link_cursor: (c.link_cursor - 1) as usize,
                ..c
            })
            &&& c.tab == Tab::Links && c.link_cursor == 0 ==> up.0 == c
        }),
{
}

/// With no overlay open, `q` quits, `r` refreshes and Enter opens what is
/// selected, from any tab; none of them changes the controls, and no other key
/// but Esc and control-C asks for one of these.
pub proof fn each_request_has_its_keys(c: Controls, key: KeyEvent, s: Surroundings)
    requires
        c.picker is None,
    ensures
        ({
            let (after, action) = key_step(c, key, s);
            let control_c = key.ctrl && key.code == KeyCode::Char('c');
            &&& action == Action::Quit <==> control_c || key.code == KeyCode::Char('q') || (
            key.code == KeyCode::Esc && c.tab == Tab::Dashboard)
            &&& action == Action::Refresh <==> key.code == KeyCode::Char('r')
            &&& action == Action::Open <==> key.code == KeyCode::Char('o') || key.code
                == KeyCode::Enter
            &&& action is Save ==> key.code == KeyCode::Char('c')
            &&& action == Action::Quit || action == Action::Refresh || action == Action::Open
                ==> after == c
        }),
{
}

/// On the dashboard `c` goes on to the next chart style and asks to save it with
/// the theme, where choices are saved; `t` opens the picker on the active theme.
pub proof fn the_dashboard_has_two_looks_keys(c: Controls, s: Surroundings)
    requires
        c.picker is None,
        c.tab == Tab::Dashboard,
    ensures
        ({
            let (after, action) = key_step(c, press(KeyCode::Char('c')), s);
            &&& after == (Controls { chart_style: after.chart_style, ..c })
            &&& after.chart_style != c.chart_style
            &&& s.persist ==> action == Action::Save(c.theme, after.chart_style)
            &&& !s.persist ==> action == Action::Nothing
        }),
        ({
            let (after, action) = key_step(c, press(KeyCode::Char('t')), s);
            &&& action == Action::Nothing
            &&& after == (Controls { picker: after.picker, ..c })
            &&& after.picker matches Some(p) && p.original == c.theme && p.cursor < p.options.len()
                && p.options[p.cursor as int] == c.theme && p.options == all_themes()
        }),
{
    lemma_opened(c.theme);
}

/// A key that has no meaning changes nothing and asks for nothing.
pub proof fn other_keys_do_nothing(c: Controls, code: KeyCode, s: Surroundings)
    requires
        code == KeyCode::Other || (code is Char && code != KeyCode::Char('q') && code
            != KeyCode::Char('h') && code != KeyCode::Char('j') && code != KeyCode::Char('k')
            && code != KeyCode::Char('l') && code != KeyCode::Char('1') && code != KeyCode::Char(
            '2',
        ) && code != KeyCode::Char('3') && code != KeyCode::Char('r') && code != KeyCode::Char('o')
            && code != KeyCode::Char('t') && code != KeyCode::Char('c')),
    ensures
        key_step(c, press(code), s) == (c, Action::Nothing),
{
}

/// While the picker is open, only moving, committing and cancelling do anything:
/// no other key changes the controls or asks for anything.
pub proof fn an_open_picker_takes_every_key(c: Controls, code: KeyCode, s: Surroundings)
    requires
        c.picker is Some,
        code != KeyCode::Up && code != KeyCode::Down && code != KeyCode::Enter && code
            != KeyCode::Esc && code != KeyCode::Char('k') && code != KeyCode::Char('j') && code
            != KeyCode::Char('q'),
    ensures
        key_step(c, press(code), s) == (c, Action::Nothing),
{
}

/// In the picker, down and up move by one option, as far as the options go, and
/// show the theme that they come to.
pub proof fn the_picker_previews_what_it_is_on(c: Controls, s: Surroundings, down: bool)
    requires
        c.picker is Some,
        c.picker->0.cursor < c.picker->0.options.len() <= usize::MAX,
    ensures
        ({
            let p = c.picker->0;
            let code = if down {
                KeyCode::Down
            } else {
                KeyCode::Up
            };
            let (after, action) = key_step(c, press(code), s);
            let at = if down && p.cursor + 1 < p.options.len() {
                p.cursor + 1
            } else if !down && p.cursor > 0 {
                p.cursor - 1
            } else {
                p.cursor as int
            };
            &&& action == Action::Nothing
            &&& after.picker == Some(PickerView { cursor: at as usize, ..p })
            &&& after.theme == p.options[at]
            &&& after.palette == palette_of(p.options[at], s.light_terminal)
            &&& after.tab == c.tab && after.chart_style == c.chart_style
            &&& after.feed_cursor == c.feed_cursor && after.link_cursor == c.link_cursor
        }),
{
}

/// A fetch that starts only shows that it does; one that is done replaces the
/// feed and stops showing it. Neither touches the links, the looks or the tab.
pub proof fn updates_touch_only_the_feed(app: App, snapshot: FeedSnapshot)
    ensures
        updated(app, FeedUpdate::Fetching) == (App { fetching: true, ..app }),
        ({
            let after = updated(app, FeedUpdate::Done(snapshot));
            &&& after.feed == snapshot && !after.fetching
            &&& after.feed_cursor < snapshot.items@.len() || after.feed_cursor == 0
            &&& app.feed_cursor < snapshot.items@.len() ==> after.feed_cursor == app.feed_cursor
            &&& after.links == app.links && after.tab == app.tab && after.theme == app.theme
            &&& after.stats == app.stats && after.live == app.live && after.current == app.current
        }),
{
}

} // verus!
