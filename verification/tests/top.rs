use kickbacks_kit::archive::{Archive, LinkRow};
use kickbacks_kit::chart::ChartStyle;
use kickbacks_kit::config::{Config, FeedConfig};
use kickbacks_kit::feed::sync::OfflineReason;
use kickbacks_kit::feed::{FeedItem, FeedKind, FeedSnapshot};
use kickbacks_kit::model::CliAd;
use kickbacks_kit::render::{App, Tab, ThemePicker};
use kickbacks_kit::theme::{Palette, Theme};
use kickbacks_kit::top::{
    fetches_again, handle_key, handle_picker, receive, start, start_demo, tick, tick_is_due,
    Action, FeedUpdate, KeyCode, KeyEvent, Wait,
};

fn press(code: KeyCode) -> KeyEvent {
    KeyEvent { code, ctrl: false }
}

fn feed_with(n: usize) -> FeedSnapshot {
    let items = (0..n)
        .map(|i| {
            FeedItem::new(
                FeedKind::Issue,
                &format!("#{i} issue"),
                "",
                Some(format!("https://example.com/{i}")),
                Some(i as i64),
                "github",
            )
        })
        .collect();
    FeedSnapshot {
        items,
        ..Default::default()
    }
}

#[test]
fn t_opens_and_esc_reverts_theme() {
    let mut app = App::default();
    app.set_theme(Theme::Dark);
    assert_eq!(
        handle_key(&mut app, press(KeyCode::Char('t')), false),
        Action::Nothing
    );
    assert!(app.picker.is_some());

    handle_picker(&mut app, KeyCode::Down, false); // dark -> light
    assert_eq!(app.theme, Theme::Light);
    handle_picker(&mut app, KeyCode::Esc, false);
    assert!(app.picker.is_none());
    assert_eq!(app.theme, Theme::Dark);
}

#[test]
fn enter_commits_previewed_theme() {
    let mut app = App::default();
    app.set_theme(Theme::Auto);
    app.picker = Some(ThemePicker::open(app.theme));
    handle_picker(&mut app, KeyCode::Down, false); // -> dark
    handle_picker(&mut app, KeyCode::Enter, false);
    assert!(app.picker.is_none());
    assert_eq!(app.theme, Theme::Dark);
}

#[test]
fn ctrl_c_quits_even_in_picker() {
    let mut app = App {
        picker: Some(ThemePicker::open(Theme::Dark)),
        ..Default::default()
    };
    let ctrl_c = KeyEvent {
        code: KeyCode::Char('c'),
        ctrl: true,
    };
    assert_eq!(handle_key(&mut app, ctrl_c, false), Action::Quit);
}

#[test]
fn c_cycles_chart_only_on_dashboard() {
    let mut app = App::default();
    assert_eq!(app.tab, Tab::Dashboard);
    assert_eq!(app.chart_style, ChartStyle::Heat);
    handle_key(&mut app, press(KeyCode::Char('c')), false);
    assert_eq!(app.chart_style, ChartStyle::Bars);
    // On the Feed tab, c is inert (no off-screen surprise).
    app.tab = Tab::Feed;
    handle_key(&mut app, press(KeyCode::Char('c')), false);
    assert_eq!(app.chart_style, ChartStyle::Bars);
}

#[test]
fn q_quits_outside_picker_but_closes_inside() {
    let mut app = App::default();
    app.set_theme(Theme::Dark);
    app.picker = Some(ThemePicker::open(Theme::Dark));
    assert_eq!(
        handle_key(&mut app, press(KeyCode::Char('q')), false),
        Action::Nothing
    );
    assert!(app.picker.is_none());
    assert_eq!(
        handle_key(&mut app, press(KeyCode::Char('q')), false),
        Action::Quit
    );
}

#[test]
fn tab_cycles_and_numbers_jump() {
    let mut app = App::default();
    handle_key(&mut app, press(KeyCode::Tab), false);
    assert_eq!(app.tab, Tab::Feed);
    handle_key(&mut app, press(KeyCode::Tab), false);
    assert_eq!(app.tab, Tab::Links);
    handle_key(&mut app, press(KeyCode::Tab), false);
    assert_eq!(app.tab, Tab::Dashboard); // wraps
    handle_key(&mut app, press(KeyCode::Char('2')), false);
    assert_eq!(app.tab, Tab::Feed);
}

#[test]
fn esc_returns_to_dashboard_then_quits() {
    let mut app = App {
        tab: Tab::Feed,
        ..Default::default()
    };
    // First Esc leaves the list tab for the dashboard.
    assert_eq!(
        handle_key(&mut app, press(KeyCode::Esc), false),
        Action::Nothing
    );
    assert_eq!(app.tab, Tab::Dashboard);
    // From the dashboard, Esc quits.
    assert_eq!(
        handle_key(&mut app, press(KeyCode::Esc), false),
        Action::Quit
    );
}

#[test]
fn feed_scroll_moves_and_clamps() {
    let mut app = App {
        tab: Tab::Feed,
        feed: feed_with(3),
        ..Default::default()
    };
    assert_eq!(app.feed_cursor, 0);
    handle_key(&mut app, press(KeyCode::Char('j')), false);
    handle_key(&mut app, press(KeyCode::Char('j')), false);
    handle_key(&mut app, press(KeyCode::Char('j')), false); // past the end
    assert_eq!(app.feed_cursor, 2); // clamped to last
    handle_key(&mut app, press(KeyCode::Char('k')), false);
    assert_eq!(app.feed_cursor, 1);
}

#[test]
fn open_returns_action_with_selected_url() {
    let mut app = App {
        tab: Tab::Feed,
        feed: feed_with(2),
        ..Default::default()
    };
    assert_eq!(
        handle_key(&mut app, press(KeyCode::Char('o')), false),
        Action::Open
    );
    // ordered() puts the newest item first; cursor 0 selects it.
    assert_eq!(app.selected_url().as_deref(), Some("https://example.com/1"));
}

#[test]
fn refresh_key_requests_refresh() {
    let mut app = App::default();
    assert_eq!(
        handle_key(&mut app, press(KeyCode::Char('r')), false),
        Action::Refresh
    );
}

#[test]
fn choices_are_saved_only_where_asked() {
    let mut app = App::default();
    app.set_theme(Theme::Dark);
    assert_eq!(
        handle_key(&mut app, press(KeyCode::Char('c')), true),
        Action::Save(Theme::Dark, ChartStyle::Bars)
    );
    assert_eq!(
        handle_key(&mut app, press(KeyCode::Char('c')), false),
        Action::Nothing
    );
    handle_key(&mut app, press(KeyCode::Char('t')), true);
    assert_eq!(
        handle_key(&mut app, press(KeyCode::Up), true),
        Action::Nothing
    );
    assert_eq!(
        handle_key(&mut app, press(KeyCode::Enter), true),
        Action::Save(Theme::Auto, ChartStyle::Heat)
    );
}

#[test]
fn previews_are_undone_by_cancelling() {
    let mut app = App {
        light_terminal: true,
        ..Default::default()
    };
    app.set_theme(Theme::Auto);
    handle_key(&mut app, press(KeyCode::Char('t')), false);
    for code in [KeyCode::Down, KeyCode::Char('j'), KeyCode::Down, KeyCode::Down, KeyCode::Up] {
        handle_key(&mut app, press(code), false);
    }
    assert_eq!(app.theme, Theme::Light);
    assert_eq!(handle_key(&mut app, press(KeyCode::Other), false), Action::Nothing);
    handle_key(&mut app, press(KeyCode::Esc), false);
    assert_eq!(app.theme, Theme::Auto);
    assert_eq!(app.palette, Palette::light());
}

#[test]
fn every_other_key_of_the_tabs() {
    let mut app = App::default();
    for (code, tab) in [
        (KeyCode::Right, Tab::Feed),
        (KeyCode::Char('l'), Tab::Links),
        (KeyCode::Left, Tab::Feed),
        (KeyCode::Char('h'), Tab::Dashboard),
        (KeyCode::BackTab, Tab::Links),
        (KeyCode::Char('1'), Tab::Dashboard),
        (KeyCode::Char('3'), Tab::Links),
        (KeyCode::Char('t'), Tab::Links),
        (KeyCode::Char('x'), Tab::Links),
    ] {
        assert_eq!(handle_key(&mut app, press(code), true), Action::Nothing);
        assert_eq!(app.tab, tab);
        assert!(app.picker.is_none());
    }
    assert_eq!(handle_key(&mut app, press(KeyCode::Enter), false), Action::Open);
    assert_eq!(app.selected_url(), None);
}

#[test]
fn links_scroll_and_open() {
    let link = |url: &str| LinkRow {
        advertiser: "a".to_string(),
        url: url.to_string(),
        last_seen_ms: 0,
        times_seen: 1,
    };
    let mut app = App {
        tab: Tab::Links,
        links: vec![link("https://a/"), link("https://b/")],
        ..Default::default()
    };
    handle_key(&mut app, press(KeyCode::Down), false);
    assert_eq!(app.selected_url().as_deref(), Some("https://b/"));
    app.links.pop();
    app.clamp_cursors();
    assert_eq!(app.link_cursor, 0);
    assert_eq!(app.selected_url().as_deref(), Some("https://a/"));
}

#[test]
fn feed_updates_are_taken_in() {
    let mut app = App {
        feed: feed_with(3),
        feed_cursor: 2,
        ..Default::default()
    };
    receive(&mut app, FeedUpdate::Fetching);
    assert!(app.fetching);
    receive(&mut app, FeedUpdate::Done(feed_with(1)));
    assert!(!app.fetching);
    assert_eq!(app.feed.items.len(), 1);
    assert_eq!(app.feed_cursor, 0);
}

#[test]
fn waits_and_ticks() {
    assert!(fetches_again(Wait::Requested));
    assert!(fetches_again(Wait::TimedOut));
    assert!(!fetches_again(Wait::Disconnected));
    assert!(!tick_is_due(999));
    assert!(tick_is_due(1000));
}

fn ad(ts: i64) -> CliAd {
    CliAd {
        ad_text: "Ramp · cards".to_string(),
        click_url: Some("https://ramp.com/".to_string()),
        icon_url: None,
        icon_ref: None,
        ts,
    }
}

#[test]
fn a_dashboard_starts_from_flags_then_preferences() {
    let mut archive = Archive::open_in_memory();
    let cfg = Config {
        feed: FeedConfig { enabled: false },
        theme: Theme::Light,
        chart_style: ChartStyle::Bars,
    };
    let log = r#"2026-06-11T10:00:00.000Z [ext] info - session.state {"signedIn":true}"#;
    let now = 1_781_210_000_000;
    let mut app = start(
        &mut archive,
        &cfg,
        None,
        None,
        false,
        false,
        now,
        Some(log),
        Some(ad(1)),
    );
    assert_eq!(app.theme, Theme::Light);
    assert_eq!(app.chart_style, ChartStyle::Bars);
    assert_eq!(app.offline, Some(OfflineReason::Config));
    assert!(app.feed.offline);
    assert_eq!(app.stats.total_sightings, 1);
    assert_eq!(app.live.signed_in, Some(true));
    assert_eq!(app.links.len(), 1);

    tick(&mut app, &mut archive, now + 1000, Some(log), Some(ad(2)));
    assert_eq!(app.stats.total_sightings, 2);
    assert_eq!(app.now_ms, now + 1000);
    assert_eq!(app.current.as_ref().unwrap().ts, 2);
    assert_eq!(archive.events.len(), 1);

    let app = start(
        &mut archive,
        &cfg,
        Some(Theme::Terminal),
        Some(ChartStyle::Heat),
        false,
        true,
        now,
        None,
        None,
    );
    assert_eq!(app.theme, Theme::Terminal);
    assert_eq!(app.chart_style, ChartStyle::Heat);
    assert_eq!(app.offline, Some(OfflineReason::Env));
}

#[test]
fn the_demo_is_dark_unless_asked_otherwise() {
    let app = start_demo(None, None);
    assert!(app.demo);
    assert_eq!(app.theme, Theme::Dark);
    assert_eq!(app.chart_style, ChartStyle::Heat);
    let app = start_demo(Some(Theme::Light), Some(ChartStyle::Bars));
    assert_eq!(app.theme, Theme::Light);
    assert_eq!(app.chart_style, ChartStyle::Bars);
}
