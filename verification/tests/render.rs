use kickbacks_kit::archive::{AdvertiserStat, Stats};
use kickbacks_kit::model::{AdRow, CliAd};
use kickbacks_kit::render::app::{demo_archive, DEMO_NOW_MS};
use kickbacks_kit::render::bars::bars;
use kickbacks_kit::render::layout::{
    centered, column_sizes, frame_inner, lay_out, lay_out_picker, left_sizes, right_sizes,
    split_two, Direction,
};
use kickbacks_kit::render::scene::{Constraint, Line, Op, Rect, Span, Style, Titles};
use kickbacks_kit::render::{
    bar_cell, column_eighths, demo_app, paint, ui, App, Places, Tab, ThemePicker,
};
use kickbacks_kit::sources::LiveState;
use kickbacks_kit::theme::{Color, Palette, Theme};
use ratatui::backend::TestBackend;
use ratatui::buffer::Buffer;
use ratatui::style::Modifier;
use ratatui::widgets::{Block, BorderType, Borders, Cell, Clear, Padding, Paragraph, Row, Table};
use ratatui::{Frame, Terminal};

// ---- putting a drawing on a canvas ------------------------------------------

fn color(c: Color) -> ratatui::style::Color {
    match c {
        Color::Reset => ratatui::style::Color::Reset,
        Color::Red => ratatui::style::Color::Red,
        Color::Green => ratatui::style::Color::Green,
        Color::Yellow => ratatui::style::Color::Yellow,
        Color::Cyan => ratatui::style::Color::Cyan,
        Color::DarkGray => ratatui::style::Color::DarkGray,
        Color::Rgb(r, g, b) => ratatui::style::Color::Rgb(r, g, b),
    }
}

fn style(s: Style) -> ratatui::style::Style {
    let mut out = ratatui::style::Style::default();
    if let Some(c) = s.fg {
        out = out.fg(color(c));
    }
    if let Some(c) = s.bg {
        out = out.bg(color(c));
    }
    if s.bold {
        out = out.add_modifier(Modifier::BOLD);
    }
    if s.italic {
        out = out.add_modifier(Modifier::ITALIC);
    }
    out
}

fn span(s: &Span) -> ratatui::text::Span<'static> {
    ratatui::text::Span::styled(s.text.clone(), style(s.style))
}

fn line(l: &Line) -> ratatui::text::Line<'static> {
    ratatui::text::Line::from(l.spans.iter().map(span).collect::<Vec<_>>())
}

fn rect(r: Rect) -> ratatui::layout::Rect {
    ratatui::layout::Rect {
        x: r.x,
        y: r.y,
        width: r.width,
        height: r.height,
    }
}

fn size(c: &Constraint) -> ratatui::layout::Constraint {
    match *c {
        Constraint::Length(n) => ratatui::layout::Constraint::Length(n),
        Constraint::Min(n) => ratatui::layout::Constraint::Min(n),
        Constraint::Percentage(n) => ratatui::layout::Constraint::Percentage(n),
    }
}

fn framed(border: Style, fill: Style, titles: &Titles) -> Block<'static> {
    let mut block = Block::default()
        .borders(Borders::ALL)
        .border_type(BorderType::Rounded)
        .border_style(style(border))
        .style(style(fill))
        .padding(Padding::new(1, 1, 0, 0))
        .title_top(line(&titles.top_left));
    if let Some(l) = &titles.top_right {
        block = block.title_top(line(l).right_aligned());
    }
    if let Some(l) = &titles.bottom_left {
        block = block.title_bottom(line(l));
    }
    if let Some(l) = &titles.bottom_right {
        block = block.title_bottom(line(l).right_aligned());
    }
    block
}

fn execute(frame: &mut Frame, ops: &[Op]) {
    for op in ops {
        match op {
            Op::Fill(area, s) => {
                frame.render_widget(Block::default().style(style(*s)), rect(*area))
            }
            Op::Clear(area) => frame.render_widget(Clear, rect(*area)),
            Op::Frame(area, border, fill, titles) => {
                frame.render_widget(framed(*border, *fill, titles), rect(*area))
            }
            Op::Text(area, lines) => {
                let text: Vec<_> = lines.iter().map(line).collect();
                frame.render_widget(Paragraph::new(text), rect(*area));
            }
            Op::Table(area, header, rows, widths) => {
                let row = |l: &Line| Row::new(l.spans.iter().map(|s| Cell::from(span(s))));
                let table = Table::new(rows.iter().map(row), widths.iter().map(size))
                    .header(row(header))
                    .column_spacing(1);
                frame.render_widget(table, rect(*area));
            }
        }
    }
}

fn area(width: u16, height: u16) -> Rect {
    Rect {
        x: 0,
        y: 0,
        width,
        height,
    }
}

fn buffer_of(app: &App) -> Buffer {
    let backend = TestBackend::new(90, 30);
    let mut terminal = Terminal::new(backend).unwrap();
    terminal
        .draw(|f| execute(f, &ui(app, area(90, 30))))
        .unwrap();
    terminal.backend().buffer().clone()
}

fn text_of(buf: &Buffer) -> String {
    buf.content.iter().map(|c| c.symbol()).collect()
}

fn rendered(app: &App) -> String {
    text_of(&buffer_of(app))
}

// ---- the dashboard ----------------------------------------------------------

#[test]
fn renders_empty_state_without_panicking() {
    let app = App::default();
    let out = rendered(&app);
    assert!(out.contains("kickbacks"));
    assert!(out.contains("NOW PLAYING"));
    assert!(out.contains("no ad right now"));
}

#[test]
fn renders_populated_state() {
    let app = App {
        now_ms: 1_781_210_400_000,
        stats: Stats {
            distinct_ads: 3,
            advertisers: 3,
            total_sightings: 5,
            sightings_today: 5,
            sightings_week: 5,
            first_seen_ms: Some(1_781_210_098_155),
            last_seen_ms: Some(1_781_210_380_000),
        },
        sparkline: vec![None, Some(1), Some(2), Some(3), Some(2), Some(1), Some(4)],
        leaderboard: vec![AdvertiserStat {
            advertiser: "Tailscale".to_string(),
            distinct_ads: 1,
            sightings: 2,
        }],
        recent: vec![AdRow {
            id: "abc".to_string(),
            advertiser: "Tailscale".to_string(),
            ad_text: "Tailscale · the VPN that disappears".to_string(),
            click_url: Some("https://tailscale.com/".to_string()),
            first_seen_ms: 1_781_210_098_155,
            last_seen_ms: 1_781_210_380_000,
            times_seen: 2,
        }],
        live: LiveState {
            signed_in: Some(true),
            injection_on: Some(true),
            ..Default::default()
        },
        current: Some(CliAd {
            ad_text: "Tailscale · the VPN that disappears".to_string(),
            click_url: Some("https://tailscale.com/".to_string()),
            icon_url: None,
            icon_ref: None,
            ts: 1_781_210_399_000,
        }),
        ..App::default()
    };
    let out = rendered(&app);
    assert!(out.contains("Tailscale"));
    assert!(out.contains("TOP ADVERTISERS"));
    assert!(out.contains("signed in"));
}

#[test]
fn sparkline_gaps_render_as_not_watching() {
    let app = App {
        now_ms: 1_781_210_400_000,
        sparkline: vec![None, Some(2), None, Some(4)],
        ..App::default()
    };
    let out = rendered(&app);
    assert!(out.contains("░"));
    assert!(out.contains("hours kb was not watching"));
}

#[test]
fn sparkline_all_unobserved_says_not_watching() {
    let app = App {
        sparkline: vec![None; 24],
        ..App::default()
    };
    let out = rendered(&app);
    assert!(out.contains("not watching — run kb watch"));
}

#[test]
fn bar_height_scales_and_never_vanishes() {
    assert_eq!(column_eighths(4, 4, 5), 40); // full value fills the column
    assert_eq!(column_eighths(1, 1000, 5), 1); // tiny value still shows 1/8
    assert_eq!(column_eighths(0, 4, 5), 0);
    assert_eq!(column_eighths(4, 0, 5), 0);
}

#[test]
fn bar_cells_fill_bottom_up() {
    // Column of 10/40 eighths: bottom cell full, next cell 2/8, rest empty.
    assert_eq!(bar_cell(10, 0), Some("█"));
    assert_eq!(bar_cell(10, 1), Some("▂"));
    assert_eq!(bar_cell(10, 2), None);
}

#[test]
fn gaps_only_mark_the_baseline_not_full_height() {
    // Mostly unobserved with one tall bar. Gap columns must show a single
    // baseline mark, never a full-height shaded slab (the old ugliness):
    // the shade-char count stays near one row, not rows times columns.
    let app = App {
        now_ms: 1,
        sparkline: {
            let mut d = vec![None; 24];
            d[23] = Some(10);
            d
        },
        ..App::default()
    };
    let text = rendered(&app);
    assert!(text.contains("█"), "the data bar should render");
    let shades = text.matches('░').count();
    assert!(shades <= 30, "shade slab regression: {shades}");
}

#[test]
fn demo_app_renders() {
    let out = rendered(&demo_app());
    assert!(out.contains("Tailscale"));
    assert!(out.contains("demo data"));
    assert!(out.contains("TOP ADVERTISERS"));
}

#[test]
fn earnings_pointer_is_honest_not_a_number() {
    // The dashboard must point to where earnings live, never show a
    // fabricated balance. This guards the honesty invariant.
    let out = rendered(&demo_app());
    assert!(out.contains("earnings"));
    assert!(out.contains("kickbacks.ai/me"));
    assert!(out.contains("does not read balances"));
}

#[test]
fn demo_app_is_internally_consistent() {
    // The demo flows through the real archive, so its numbers must agree
    // with each other: sightings = sum of the hourly sparkline.
    let app = demo_app();
    let spark_total: u64 = app.sparkline.iter().map(|v| v.unwrap_or(0)).sum();
    assert_eq!(app.stats.total_sightings as u64, spark_total);
    assert_eq!(app.stats.advertisers, 8);
    assert!(app.sparkline.iter().all(Option::is_some));
    assert!(!app.leaderboard.is_empty());
    assert!(!app.recent.is_empty());
}

// ---- theming ----------------------------------------------------------------

#[test]
fn every_theme_renders_without_panicking() {
    for theme in Theme::all() {
        let mut app = demo_app();
        app.set_theme(theme);
        let out = rendered(&app);
        assert!(out.contains("kickbacks"), "theme {:?} lost content", theme);
        assert!(out.contains("TOP ADVERTISERS"));
    }
}

#[test]
fn painted_theme_fills_the_canvas() {
    // Dark/light paint a background, so the top-left cell carries the
    // palette's bg color rather than the terminal default. This is the fix
    // for the washed-out-on-a-light-terminal bug.
    for theme in [Theme::Dark, Theme::Light] {
        let mut app = demo_app();
        app.set_theme(theme);
        let buf = buffer_of(&app);
        let bg = color(app.palette.bg.unwrap());
        assert_eq!(buf.content[0].bg, bg, "theme {:?} did not paint", theme);
    }
}

#[test]
fn terminal_theme_inherits_the_background() {
    let mut app = demo_app();
    app.set_theme(Theme::Terminal);
    let buf = buffer_of(&app);
    // No painted canvas: the cell keeps the default (reset) background.
    assert_eq!(buf.content[0].bg, ratatui::style::Color::Reset);
}

#[test]
fn theme_label_is_shown_in_the_keybind_line() {
    let mut app = demo_app();
    app.set_theme(Theme::Light);
    assert!(rendered(&app).contains("theme: light"));
}

#[test]
fn picker_overlay_lists_themes() {
    let mut app = demo_app();
    app.picker = Some(ThemePicker::open(app.theme));
    let out = rendered(&app);
    assert!(out.contains("choose a theme"));
    assert!(out.contains("auto"));
    assert!(out.contains("light"));
    assert!(out.contains("terminal"));
    assert!(out.contains("enter save"));
}

#[test]
fn picker_cursor_starts_on_current_theme() {
    let picker = ThemePicker::open(Theme::Light);
    assert_eq!(picker.selected(), Theme::Light);
    let picker = ThemePicker::open(Theme::Terminal);
    assert_eq!(picker.selected(), Theme::Terminal);
}

#[test]
fn picker_navigation_is_clamped() {
    let mut picker = ThemePicker::open(Theme::Auto); // cursor 0
    picker.up();
    assert_eq!(picker.cursor, 0);
    for _ in 0..10 {
        picker.down();
    }
    assert_eq!(picker.cursor, picker.options.len() - 1);
}

// ---- details ----------------------------------------------------------------

#[test]
fn columns_grow_and_stay_in_their_bounds() {
    let mut last = 0;
    for v in 0..=100u64 {
        let e = column_eighths(v, 100, 7);
        assert!(e >= last);
        assert!(e <= 56);
        last = e;
    }
    assert_eq!(last, 56);
    assert_eq!(column_eighths(50, 100, 7), 28);
    assert_eq!(column_eighths(51, 100, 7), 29);
    assert_eq!(column_eighths(1, 1, 8191), 65_528);
    assert_eq!(column_eighths(1, 1, 8192), 65_535);
    assert_eq!(column_eighths(1, u64::MAX, u16::MAX), 1);
    assert_eq!(column_eighths(u64::MAX, u64::MAX, 5), 40);
    assert_eq!(bar_cell(65_535, 8191), Some("▇"));
    assert_eq!(bar_cell(65_535, u16::MAX), None);
    assert_eq!(column_eighths(3, 3, 0), 0);
    assert_eq!(bar_cell(0, 0), None);
    assert_eq!(bar_cell(65_528, 8190), Some("█"));
    let glyphs: Vec<&str> = (1..=8).map(|n| bar_cell(n, 0).unwrap()).collect();
    assert_eq!(glyphs, vec!["▁", "▂", "▃", "▄", "▅", "▆", "▇", "█"]);
}

fn texts(lines: &[Line]) -> Vec<String> {
    lines
        .iter()
        .map(|l| l.spans.iter().map(|s| s.text.as_str()).collect())
        .collect()
}

#[test]
fn a_chart_in_full() {
    let data = vec![Some(9), None, Some(0), Some(1), Some(4)];
    let chart = bars(&data, area(4, 2), &Palette::dark());
    // The oldest hour does not fit, so four is the largest that shows.
    assert_eq!(texts(&chart), vec!["   █", "░ ▄█"]);
    assert_eq!(chart[1].spans[0].style.fg, Some(Palette::dark().dim));
    assert_eq!(chart[1].spans[3].style.fg, Some(Palette::dark().gold));
    assert!(bars(&data, area(0, 2), &Palette::dark()).is_empty());
    assert_eq!(bars(&data, area(9, 0), &Palette::dark()).len(), 1);
    assert!(bars(&Vec::new(), area(9, 3), &Palette::dark()).is_empty());
}

#[test]
fn the_killswitch_is_impossible_to_miss() {
    let mut app = demo_app();
    app.live.killed = Some(true);
    let out = rendered(&app);
    assert!(out.contains("● ADS PAUSED"));
    assert!(out.contains("● killed"));
    assert!(!out.contains("no ad right now"));
}

#[test]
fn now_playing_tells_the_ad() {
    let out = rendered(&demo_app());
    assert!(out.contains("the VPN that disappears"));
    assert!(out.contains("tailscale.com · 12s ago"));
    let mut stale = demo_app();
    stale.now_ms += 600_000;
    assert!(rendered(&stale).contains("no ad right now"));
}

#[test]
fn centered_areas_stay_inside() {
    assert_eq!(
        centered(area(90, 30), 46, 8),
        Rect {
            x: 22,
            y: 11,
            width: 46,
            height: 8
        }
    );
    assert_eq!(centered(area(10, 3), 46, 8), area(10, 3));
}

#[test]
fn frames_leave_what_the_widget_leaves() {
    let block = Block::default()
        .borders(Borders::ALL)
        .padding(Padding::new(1, 1, 0, 0))
        .title_top("t");
    for r in [
        area(90, 30),
        area(0, 0),
        area(1, 1),
        area(3, 2),
        area(4, 3),
        Rect {
            x: 65_535,
            y: 65_535,
            width: 0,
            height: 0,
        },
        Rect {
            x: 65_530,
            y: 65_534,
            width: 5,
            height: 1,
        },
    ] {
        assert_eq!(rect(frame_inner(r)), block.inner(rect(r)), "{r:?}");
    }
}

#[test]
fn lengths_that_fit_are_given() {
    let whole = Rect {
        x: 3,
        y: 2,
        width: 40,
        height: 20,
    };
    let (head, body) = split_two(
        whole,
        Direction::Vertical,
        Constraint::Length(1),
        Constraint::Min(0),
        0,
    );
    assert_eq!((head.y, head.height, head.width), (2, 1, 40));
    assert_eq!((body.y, body.height, body.x), (3, 19, 3));
    let (chart, legend) = split_two(
        whole,
        Direction::Vertical,
        Constraint::Min(0),
        Constraint::Length(1),
        0,
    );
    assert_eq!((chart.height, legend.y, legend.height), (19, 21, 1));
    let panes = lay_out(whole);
    assert_eq!(panes.now_playing.area.height, 7);
    assert_eq!(panes.totals.area.height, 13);
    assert_eq!(panes.activity.area.height, 7);
    assert_eq!(panes.leaderboard.area.height, 11);
    assert_eq!(panes.recent.area.height, 2);
    assert_eq!(panes.activity.body.y, panes.activity.head.y + 1);
}

#[test]
fn panes_keep_apart_on_every_canvas() {
    for width in 0..160u16 {
        for height in (0..60u16).step_by(7).chain([18, 19]) {
            let inner = Rect {
                x: 2,
                y: 3,
                width,
                height,
            };
            let p = lay_out(inner);
            let (left, right) = (p.now_playing.area, p.activity.area);
            assert_eq!(p.totals.area.x, left.x);
            assert_eq!(p.totals.area.width, left.width);
            assert_eq!(p.recent.area.x, right.x);
            assert_eq!(p.leaderboard.area.width, right.width);
            for s in [p.now_playing, p.totals, p.activity, p.leaderboard, p.recent] {
                assert!(s.area.x >= inner.x && s.area.x + s.area.width <= inner.x + width);
                assert!(s.area.y >= inner.y && s.area.y + s.area.height <= inner.y + height);
                if s.area.height >= 1 {
                    assert_eq!((s.head.y, s.head.height), (s.area.y, 1));
                    assert_eq!(s.body.y, s.area.y + 1);
                    assert_eq!(s.body.height, s.area.height - 1);
                }
            }
            assert_eq!((left.y, right.y), (inner.y, inner.y));
            assert_eq!(p.totals.area.y, left.y + left.height);
            assert_eq!(p.leaderboard.area.y, right.y + right.height);
            assert_eq!(
                p.recent.area.y,
                p.leaderboard.area.y + p.leaderboard.area.height
            );
            if width >= 1 {
                assert_eq!(left.x, inner.x);
                assert_eq!(right.x, left.x + left.width + 1, "{inner:?}");
                let off = |w: u16, percent: i32| i32::from(w) * 100 - percent * i32::from(width);
                assert!(off(left.width, 48).abs() <= 200, "{inner:?}");
                assert!(off(right.width, 52).abs() <= 200, "{inner:?}");
            }
            if height >= 18 {
                assert_eq!((left.height, right.height), (7, 7));
                assert_eq!(p.leaderboard.area.height, 11);
                assert_eq!(p.recent.area.y, inner.y + 18);
            }
            let body = p.activity.body;
            if body.height >= 1 {
                assert_eq!((p.chart.y, p.chart.height), (body.y, body.height - 1));
                assert_eq!((p.legend.y, p.legend.height), (body.y + body.height - 1, 1));
            }
        }
    }
}

#[test]
fn the_picker_lists_its_options_above_the_help() {
    let inner = Rect {
        x: 5,
        y: 6,
        width: 42,
        height: 6,
    };
    let (options, help) = lay_out_picker(inner, 4);
    assert_eq!((options.y, options.height), (6, 4));
    assert_eq!((help.y, help.height), (10, 1));
    assert_eq!(
        column_sizes(),
        (Constraint::Percentage(48), Constraint::Percentage(52), 1)
    );
    assert_eq!(left_sizes(), (Constraint::Length(7), Constraint::Min(0)));
    assert_eq!(
        right_sizes(),
        (Constraint::Length(7), Constraint::Length(11), Constraint::Min(0))
    );
}

#[test]
fn a_demo_at_any_time() {
    for now in [0, -1, -3_600_001, 1_781_210_000_000] {
        let archive = demo_archive(now);
        assert_eq!(archive.sightings.len(), 120);
        assert_eq!(archive.sightings[119].observed_ms, now / 3_600_000 * 3_600_000 + 65_000);
    }
}

#[test]
fn every_canvas_can_be_drawn_on() {
    for (w, h) in [(0, 0), (1, 1), (5, 3), (20, 10), (200, 60), (60, 9000)] {
        let ops = ui(&demo_app(), area(w, h));
        assert!(!ops.is_empty());
    }
}

#[test]
fn painting_in_given_places() {
    let app = demo_app();
    let at = Places {
        panes: lay_out(frame_inner(area(90, 30))),
        options: area(1, 1),
        help: area(1, 1),
    };
    let ops = paint(&app, area(90, 30), &at, Some("S"));
    // The canvas, the frame, and two operations for each of the five panels.
    assert_eq!(ops.len(), 12);
    match &ops[5] {
        Op::Text(_, lines) => {
            let all = texts(lines);
            assert_eq!(all[0], format!("ads seen    {}", app.stats.distinct_ads));
            assert_eq!(all[5], "since S");
            assert_eq!(all[8], "https://kickbacks.ai/me");
        }
        other => panic!("unexpected: {other:?}"),
    }
}

#[test]
fn the_demo_archive_goes_through_the_capture_path() {
    let archive = demo_archive(DEMO_NOW_MS);
    assert_eq!(archive.ads.len(), 16);
    assert_eq!(archive.sightings.len(), 120);
    assert_eq!(archive.hours.len(), 24);
    assert_eq!(demo_app().sparkline[0], Some(1));
    assert_eq!(demo_app().sparkline[23], Some(2));
}

#[test]
fn themes_resolve_by_the_terminal() {
    let mut app = App::default();
    app.set_theme(Theme::Auto);
    assert_eq!(app.palette, Palette::dark());
    app.light_terminal = true;
    app.set_theme(Theme::Auto);
    assert_eq!(app.palette, Palette::light());
    app.set_theme(Theme::Terminal);
    assert_eq!(app.palette.bg, None);
    let labels: Vec<&str> = Theme::all().iter().map(|t| t.label()).collect();
    assert_eq!(labels, vec!["auto", "dark", "light", "terminal"]);
    assert_eq!(app.tab, Tab::Dashboard);
}
