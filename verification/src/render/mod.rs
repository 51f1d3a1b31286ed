//! The shared dashboard renderer. Every surface draws through the single [`ui`]
//! function here, so that they can never disagree about what the dashboard looks
//! like. It gives a drawing: the operations that put the dashboard on a canvas.
//!
//! Colors come from a [`Palette`](crate::theme::Palette) carried on [`App`], so
//! the same renderer produces the dark, light, and terminal-native looks. When
//! the palette paints a background, the whole canvas is filled first so the
//! dashboard reads the same on any terminal.

pub mod app;
pub mod bars;
pub mod layout;
pub mod panels;
pub mod scene;

use vstd::prelude::*;

use crate::archive::ad_views;
use crate::archive::queries::board_views;
use crate::clock::is_label_of;
use crate::render::bars::bar_chart;
use crate::render::layout::{
    centered, frame_inner, in_the_middle, inside_frame, is_slice, lay_out, lay_out_picker, less,
    on_canvas, panes_fit, Direction, Panes, Section,
};
use crate::render::panels::{
    ad_view, age_fits, all_unobserved, any_gap, board_header, board_lines, board_widths, brand,
    brand_title, chips, ethic, ethic_line, has_gap, keybinds, keybinds_line, label_lines,
    leaderboard_header, leaderboard_rows, leaderboard_widths, none_observed, note, note_lines,
    now_playing, now_playing_lines, option_lines, picker_options, recent, recent_lines,
    section_label, status_chips, totals, totals_lines,
};
use crate::render::scene::{
    bg_style, fg, fg_bold, fg_italic, in_bold_color, in_color, in_italic_color, line_of,
    op_views, piece, plain_style, push_op, styled, surface, Op, OpView, Rect, Style,
    Titles, TitlesView,
};
use crate::text::opt_str;
use crate::theme::Palette;
use crate::util::fmt_datetime;

pub use crate::render::app::{demo_app, App, Tab, ThemePicker};
pub use crate::render::bars::{bar_cell, column_eighths};
pub use crate::report::PORTFOLIO_URL;

verus! {

/// Where everything goes: the panes, and the two parts of the theme picker.
#[derive(Debug, Clone, Copy, PartialEq, Eq, Structural)]
pub struct Places {
    pub panes: Panes,
    pub options: Rect,
    pub help: Rect,
}

/// The width of the theme picker.
pub const PICKER_WIDTH: u16 = 46;

/// The area of the theme picker: its options, a line of help, a border, and a
/// line to spare.
pub open spec fn picker_area(area: Rect, p: ThemePicker) -> Rect {
    in_the_middle(area, PICKER_WIDTH, (p.options@.len() + 4) as u16)
}

/// Whether everything lies where it should on a canvas.
pub open spec fn places_fit(at: Places, app: App, area: Rect) -> bool {
    &&& panes_fit(at.panes, inside_frame(area))
    &&& app.picker matches Some(p) ==> {
        let inner = inside_frame(picker_area(area, p));
        let count = p.options@.len() as int;
        &&& is_slice(at.options, inner, Direction::Vertical)
        &&& is_slice(at.help, inner, Direction::Vertical)
        &&& on_canvas(inner) && count + 1 <= inner.height ==> {
            &&& at.options.y == inner.y && at.options.height == count
            &&& at.help.y == inner.y + count && at.help.height == 1
        }
    }
}

// ---- the drawing ------------------------------------------------------------

/// The frame of the dashboard.
pub open spec fn frame_op(app: App, area: Rect) -> OpView {
    OpView::Frame(
        area,
        in_color(app.palette.frame),
        plain_style(),
        TitlesView {
            top_left: brand(app.palette, app.demo),
            top_right: Some(chips(app.palette, app.live@)),
            bottom_left: Some(keybinds(app.palette, app.theme)),
            bottom_right: Some(ethic(app.palette)),
        },
    )
}

/// The canvas and the frame. A palette that paints a background paints the whole
/// canvas, before anything else.
pub open spec fn base_ops(app: App, area: Rect) -> Seq<OpView> {
    if app.palette.bg is Some {
        seq![OpView::Fill(area, surface(app.palette)), frame_op(app, area)]
    } else {
        seq![frame_op(app, area)]
    }
}

/// The head of a section.
pub open spec fn head_op(s: Section, label: Seq<char>, pal: Palette) -> OpView {
    OpView::Text(s.head, section_label(pal, label))
}

/// The now-playing panel.
pub open spec fn now_playing_ops(app: App, s: Section) -> Seq<OpView> {
    seq![
        head_op(s, "NOW PLAYING"@, app.palette),
        OpView::Text(
            s.body,
            now_playing_lines(
                app.live@,
                ad_view(app.current),
                app.now_ms,
                s.area.width,
                app.palette,
            ),
        ),
    ]
}

/// The totals panel.
pub open spec fn totals_ops(app: App, s: Section, since: Option<Seq<char>>) -> Seq<OpView> {
    seq![
        head_op(s, "TOTALS"@, app.palette),
        OpView::Text(s.body, totals_lines(app.stats, since, app.palette)),
    ]
}

/// The activity panel: a hint where no hour was observed; otherwise the chart,
/// with a legend beneath it where an hour was not and there is room.
pub open spec fn activity_ops(app: App, panes: Panes) -> Seq<OpView> {
    let s = panes.activity;
    let pal = app.palette;
    let data = app.sparkline@;
    let head = head_op(s, "SIGHTINGS \u{b7} LAST 24H"@, pal);
    if all_unobserved(data) {
        seq![
            head,
            OpView::Text(
                s.body,
                note(
                    "not watching \u{2014} run kb watch or keep kb top open"@,
                    in_color(pal.dim),
                ),
            ),
        ]
    } else if has_gap(data) && s.body.height > 1 {
        seq![
            head,
            OpView::Text(
                panes.chart,
                bar_chart(data, panes.chart.width, panes.chart.height, pal),
            ),
            OpView::Text(
                panes.legend,
                note("\u{2591} hours kb was not watching"@, in_italic_color(pal.dim)),
            ),
        ]
    } else {
        seq![head, OpView::Text(s.body, bar_chart(data, s.body.width, s.body.height, pal))]
    }
}

/// The hint of a panel that has nothing to show.
pub open spec fn empty_op(s: Section, pal: Palette) -> OpView {
    OpView::Text(s.body, note("nothing captured yet"@, in_color(pal.dim)))
}

/// The leaderboard panel.
pub open spec fn leaderboard_ops(app: App, s: Section) -> Seq<OpView> {
    let pal = app.palette;
    let board = board_views(app.leaderboard@);
    seq![
        head_op(s, "TOP ADVERTISERS"@, pal),
        if board.len() == 0 {
            empty_op(s, pal)
        } else {
            OpView::Table(
                s.body,
                board_header(pal),
                board_lines(board, less(s.body.width, 14) as int, pal),
                board_widths(),
            )
        },
    ]
}

/// The panel of recent ads.
pub open spec fn recent_ops(app: App, s: Section) -> Seq<OpView> {
    let pal = app.palette;
    let ads = ad_views(app.recent@);
    seq![
        head_op(s, "RECENT ADS"@, pal),
        if ads.len() == 0 {
            empty_op(s, pal)
        } else {
            OpView::Text(s.body, recent_lines(ads, less(s.body.width, 2) as int, pal))
        },
    ]
}

/// The theme picker: an opaque overlay in the middle of the canvas.
pub open spec fn picker_ops(app: App, p: ThemePicker, area: Rect, at: Places) -> Seq<OpView> {
    let pal = app.palette;
    let rect = picker_area(area, p);
    seq![
        OpView::Clear(rect),
        OpView::Frame(
            rect,
            in_color(pal.gold),
            surface(pal),
            TitlesView {
                top_left: seq![piece(" choose a theme "@, in_bold_color(pal.gold))],
                top_right: None,
                bottom_left: None,
                bottom_right: None,
            },
        ),
        OpView::Text(at.options, option_lines(p, pal)),
        OpView::Text(
            at.help,
            note(
                "\u{2191}\u{2193} preview \u{b7} enter save \u{b7} esc cancel"@,
                in_italic_color(pal.dim),
            ),
        ),
    ]
}

/// The whole drawing, with the first sighting given as text.
pub open spec fn scene(app: App, area: Rect, at: Places, since: Option<Seq<char>>) -> Seq<OpView> {
    let panels = base_ops(app, area) + now_playing_ops(app, at.panes.now_playing) + totals_ops(
        app,
        at.panes.totals,
        since,
    ) + activity_ops(app, at.panes) + leaderboard_ops(app, at.panes.leaderboard) + recent_ops(
        app,
        at.panes.recent,
    );
    match app.picker {
        Some(p) => panels + picker_ops(app, p, area, at),
        None => panels,
    }
}

fn push_head(ops: &mut Vec<Op>, s: Section, label: &str, pal: &Palette)
    ensures
        op_views(final(ops)@) == op_views(old(ops)@).push(head_op(s, label@, *pal)),
{
    let lines = label_lines(pal, label);
    push_op(ops, Op::Text(s.head, lines));
}

fn push_note(ops: &mut Vec<Op>, area: Rect, text: &str, style: Style)
    ensures
        op_views(final(ops)@) == op_views(old(ops)@).push(OpView::Text(area, note(text@, style))),
{
    let lines = note_lines(text, style);
    push_op(ops, Op::Text(area, lines));
}

fn render_frame(ops: &mut Vec<Op>, app: &App, area: Rect)
    ensures
        op_views(final(ops)@) == op_views(old(ops)@) + base_ops(*app, area),
{
    let ghost before = op_views(ops@);
    let pal = &app.palette;
    // Paint the whole canvas once. Every other operation sets only a foreground,
    // so these background cells survive and the dashboard reads the same on a
    // light or dark terminal.
    if pal.bg.is_some() {
        push_op(ops, Op::Fill(area, bg_style(pal)));
    }
    let titles = Titles {
        top_left: brand_title(pal, app.demo),
        top_right: Some(status_chips(pal, &app.live)),
        bottom_left: Some(keybinds_line(pal, app.theme)),
        bottom_right: Some(ethic_line(pal)),
    };
    let surface = Style { fg: None, bg: None, bold: false, italic: false };
    push_op(ops, Op::Frame(area, fg(pal.frame), surface, titles));
    assert(op_views(ops@) =~= before + base_ops(*app, area));
}

fn render_now_playing(ops: &mut Vec<Op>, app: &App, s: Section)
    requires
        age_fits(app.current, app.now_ms),
    ensures
        op_views(final(ops)@) == op_views(old(ops)@) + now_playing_ops(*app, s),
{
    let ghost before = op_views(ops@);
    let pal = &app.palette;
    push_head(ops, s, "NOW PLAYING", pal);
    let lines = now_playing(&app.live, &app.current, app.now_ms, s.area.width, pal);
    push_op(ops, Op::Text(s.body, lines));
    assert(op_views(ops@) =~= before + now_playing_ops(*app, s));
}

fn render_totals(ops: &mut Vec<Op>, app: &App, s: Section, since: Option<&str>)
    ensures
        op_views(final(ops)@) == op_views(old(ops)@) + totals_ops(*app, s, opt_str(since)),
{
    let ghost before = op_views(ops@);
    let pal = &app.palette;
    push_head(ops, s, "TOTALS", pal);
    let lines = totals(&app.stats, since, pal);
    push_op(ops, Op::Text(s.body, lines));
    assert(op_views(ops@) =~= before + totals_ops(*app, s, opt_str(since)));
}

fn render_sparkline(ops: &mut Vec<Op>, app: &App, panes: &Panes)
    ensures
        op_views(final(ops)@) == op_views(old(ops)@) + activity_ops(*app, *panes),
{
    let ghost before = op_views(ops@);
    let pal = &app.palette;
    let s = panes.activity;
    push_head(ops, s, "SIGHTINGS \u{b7} LAST 24H", pal);
    if none_observed(&app.sparkline) {
        push_note(
            ops,
            s.body,
            "not watching \u{2014} run kb watch or keep kb top open",
            fg(pal.dim),
        );
        assert(op_views(ops@) =~= before + activity_ops(*app, *panes));
        return;
    }
    if any_gap(&app.sparkline) && s.body.height > 1 {
        let chart = bars::bars(&app.sparkline, panes.chart, pal);
        push_op(ops, Op::Text(panes.chart, chart));
        push_note(
            ops,
            panes.legend,
            "\u{2591} hours kb was not watching",
            fg_italic(pal.dim),
        );
    } else {
        let chart = bars::bars(&app.sparkline, s.body, pal);
        push_op(ops, Op::Text(s.body, chart));
    }
    assert(op_views(ops@) =~= before + activity_ops(*app, *panes));
}

fn render_leaderboard(ops: &mut Vec<Op>, app: &App, s: Section)
    ensures
        op_views(final(ops)@) == op_views(old(ops)@) + leaderboard_ops(*app, s),
{
    let ghost before = op_views(ops@);
    let pal = &app.palette;
    push_head(ops, s, "TOP ADVERTISERS", pal);
    if app.leaderboard.len() == 0 {
        push_note(ops, s.body, "nothing captured yet", fg(pal.dim));
    } else {
        let room: u16 = if s.body.width <= 14 {
            0
        } else {
            s.body.width - 14
        };
        let rows = leaderboard_rows(&app.leaderboard, room as usize, pal);
        push_op(ops, Op::Table(s.body, leaderboard_header(pal), rows, leaderboard_widths()));
    }
    assert(op_views(ops@) =~= before + leaderboard_ops(*app, s));
}

fn render_recent(ops: &mut Vec<Op>, app: &App, s: Section)
    ensures
        op_views(final(ops)@) == op_views(old(ops)@) + recent_ops(*app, s),
{
    let ghost before = op_views(ops@);
    let pal = &app.palette;
    push_head(ops, s, "RECENT ADS", pal);
    if app.recent.len() == 0 {
        push_note(ops, s.body, "nothing captured yet", fg(pal.dim));
    } else {
        let room: u16 = if s.body.width <= 2 {
            0
        } else {
            s.body.width - 2
        };
        let lines = recent(&app.recent, room as usize, pal);
        push_op(ops, Op::Text(s.body, lines));
    }
    assert(op_views(ops@) =~= before + recent_ops(*app, s));
}

fn render_theme_picker(ops: &mut Vec<Op>, app: &App, p: &ThemePicker, area: Rect, at: &Places)
    requires
        on_canvas(area),
        p.options@.len() + 4 <= u16::MAX,
    ensures
        op_views(final(ops)@) == op_views(old(ops)@) + picker_ops(*app, *p, area, *at),
{
    let ghost before = op_views(ops@);
    let pal = &app.palette;
    let rect = centered(area, PICKER_WIDTH, p.options.len() as u16 + 4);
    // Clear the region, then paint our own surface so the overlay is opaque.
    push_op(ops, Op::Clear(rect));
    let titles = Titles {
        top_left: line_of(styled(" choose a theme ", fg_bold(pal.gold))),
        top_right: None,
        bottom_left: None,
        bottom_right: None,
    };
    push_op(ops, Op::Frame(rect, fg(pal.gold), bg_style(pal), titles));
    let options = picker_options(p, pal);
    push_op(ops, Op::Text(at.options, options));
    push_note(
        ops,
        at.help,
        "\u{2191}\u{2193} preview \u{b7} enter save \u{b7} esc cancel",
        fg_italic(pal.dim),
    );
    assert(op_views(ops@) =~= before + picker_ops(*app, *p, area, *at));
}

/// Whether the picker's options can be counted.
pub open spec fn options_fit(app: App) -> bool {
    app.picker matches Some(p) ==> p.options@.len() + 4 <= u16::MAX
}

/// Draw the dashboard in given places, with the first sighting given as text.
pub fn paint(app: &App, area: Rect, at: &Places, since: Option<&str>) -> (r: Vec<Op>)
    requires
        on_canvas(area),
        age_fits(app.current, app.now_ms),
        options_fit(*app),
    ensures
        op_views(r@) == scene(*app, area, *at, opt_str(since)),
{
    let mut ops: Vec<Op> = Vec::new();
    assert(op_views(ops@) + base_ops(*app, area) =~= base_ops(*app, area));
    render_frame(&mut ops, app, area);
    render_now_playing(&mut ops, app, at.panes.now_playing);
    render_totals(&mut ops, app, at.panes.totals, since);
    render_sparkline(&mut ops, app, &at.panes);
    render_leaderboard(&mut ops, app, at.panes.leaderboard);
    render_recent(&mut ops, app, at.panes.recent);
    if let Some(p) = &app.picker {
        render_theme_picker(&mut ops, app, p, area, at);
    }
    ops
}

/// Whether the dashboard can be drawn on a canvas: its coordinates and the age
/// that it tells stay within their integers.
pub open spec fn drawable(app: App, area: Rect) -> bool {
    &&& on_canvas(area)
    &&& age_fits(app.current, app.now_ms)
    &&& options_fit(app)
}

/// Whether a label is that of the first sighting: there is one where there was a
/// sighting.
pub open spec fn since_is_label(since: Option<Seq<char>>, app: App) -> bool {
    &&& since is Some <==> app.stats.first_seen_ms is Some
    &&& since matches Some(s) ==> is_label_of(s, app.stats.first_seen_ms->0)
}

/// Draw the dashboard on a canvas: lay it out, and tell the first sighting in the
/// local time zone.
pub fn ui(app: &App, area: Rect) -> (r: Vec<Op>)
    requires
        drawable(*app, area),
    ensures
        exists|at: Places, since: Option<Seq<char>>| #[trigger]
            scene(*app, area, at, since) == op_views(r@) && places_fit(at, *app, area)
                && since_is_label(since, *app),
{
    let panes = lay_out(frame_inner(area));
    let (options, help) = match &app.picker {
        Some(p) => {
            let rect = centered(area, PICKER_WIDTH, p.options.len() as u16 + 4);
            lay_out_picker(frame_inner(rect), p.options.len() as u16)
        },
        None => (area, area),
    };
    let at = Places { panes, options, help };
    let since = match app.stats.first_seen_ms {
        Some(first) => Some(fmt_datetime(first)),
        None => None,
    };
    let label = match &since {
        Some(s) => Some(s.as_str()),
        None => None,
    };
    let r = paint(app, area, &at, label);
    assert(scene(*app, area, at, opt_str(label)) == op_views(r@));
    r
}

/// A palette that paints a background paints the whole canvas before anything
/// else, and one that does not paints nothing.
pub proof fn painted_themes_fill_the_canvas(
    app: App,
    area: Rect,
    at: Places,
    since: Option<Seq<char>>,
)
    ensures
        app.palette.bg is Some ==> scene(app, area, at, since)[0] == OpView::Fill(
            area,
            Style { fg: None, bg: app.palette.bg, bold: false, italic: false },
        ),
        app.palette.bg is None ==> scene(app, area, at, since)[0] == frame_op(app, area),
{
}

/// While the killswitch is active the now-playing panel says so, whatever ad
/// there is.
pub proof fn the_killswitch_cannot_be_missed(app: App, s: Section)
    requires
        app.live@.killed == Some(true),
    ensures
        now_playing_ops(app, s)[1] == OpView::Text(
            s.body,
            seq![
                seq![piece("\u{25cf} ADS PAUSED"@, in_bold_color(app.palette.red))],
                seq![piece("kickbacks killswitch active"@, in_color(app.palette.red))],
                seq![piece("server-side, not you"@, in_color(app.palette.dim))],
            ],
        ),
{
}

/// The activity panel shows a hint where no hour was observed, and otherwise the
/// chart of the hours; a legend explains the gaps exactly where there are some and
/// there is a row for it.
pub proof fn gaps_are_explained(app: App, panes: Panes)
    ensures
        ({
            let ops = activity_ops(app, panes);
            let data = app.sparkline@;
            let blind = forall|i: int| 0 <= i < data.len() ==> (#[trigger] data[i]) is None;
            let gap = exists|i: int| 0 <= i < data.len() && (#[trigger] data[i]) is None;
            let roomy = panes.activity.body.height > 1;
            &&& ops[0] == head_op(
                panes.activity,
                "SIGHTINGS \u{b7} LAST 24H"@,
                app.palette,
            )
            &&& blind ==> ops.len() == 2 && ops[1] == OpView::Text(
                panes.activity.body,
                note(
                    "not watching \u{2014} run kb watch or keep kb top open"@,
                    in_color(app.palette.dim),
                ),
            )
            &&& !blind && gap && roomy ==> ops.len() == 3 && ops[1] == OpView::Text(
                panes.chart,
                bar_chart(data, panes.chart.width, panes.chart.height, app.palette),
            ) && ops[2] == OpView::Text(
                panes.legend,
                note("\u{2591} hours kb was not watching"@, in_italic_color(app.palette.dim)),
            )
            &&& !blind && !(gap && roomy) ==> ops.len() == 2 && ops[1] == OpView::Text(
                panes.activity.body,
                bar_chart(
                    data,
                    panes.activity.body.width,
                    panes.activity.body.height,
                    app.palette,
                ),
            )
        }),
{
}

/// Every panel is drawn in its own place, and an open picker over all of them: it
/// clears its area after the last panel. With no picker nothing is cleared.
pub proof fn every_panel_is_drawn(app: App, area: Rect, at: Places, since: Option<Seq<char>>)
    ensures
        ({
            let ops = scene(app, area, at, since);
            let pal = app.palette;
            &&& ops.contains(frame_op(app, area))
            &&& ops.contains(head_op(at.panes.now_playing, "NOW PLAYING"@, pal))
            &&& ops.contains(head_op(at.panes.totals, "TOTALS"@, pal))
            &&& ops.contains(head_op(at.panes.leaderboard, "TOP ADVERTISERS"@, pal))
            &&& ops.contains(head_op(at.panes.recent, "RECENT ADS"@, pal))
            &&& ops.contains(
                OpView::Text(at.panes.totals.body, totals_lines(app.stats, since, pal)),
            )
            &&& ops.contains(
                OpView::Text(
                    at.panes.now_playing.body,
                    now_playing_lines(
                        app.live@,
                        ad_view(app.current),
                        app.now_ms,
                        at.panes.now_playing.area.width,
                        pal,
                    ),
                ),
            )
            &&& app.leaderboard@.len() > 0 ==> ops.contains(
                OpView::Table(
                    at.panes.leaderboard.body,
                    board_header(pal),
                    board_lines(
                        board_views(app.leaderboard@),
                        less(at.panes.leaderboard.body.width, 14) as int,
                        pal,
                    ),
                    board_widths(),
                ),
            )
            &&& app.recent@.len() > 0 ==> ops.contains(
                OpView::Text(
                    at.panes.recent.body,
                    recent_lines(
                        ad_views(app.recent@),
                        less(at.panes.recent.body.width, 2) as int,
                        pal,
                    ),
                ),
            )
            &&& app.picker matches Some(p) ==> ops.len() >= 4 && ops[ops.len() - 4]
                == OpView::Clear(picker_area(area, p)) && ops[ops.len() - 2] == OpView::Text(
                at.options,
                option_lines(p, pal),
            )
            &&& app.picker is None ==> forall|i: int|
                0 <= i < ops.len() ==> !((#[trigger] ops[i]) is Clear)
        }),
{
    let ops = scene(app, area, at, since);
    let b = base_ops(app, area).len() as int;
    let act = activity_ops(app, at.panes).len() as int;
    assert(ops[b - 1] == frame_op(app, area));
    assert(ops[b] == now_playing_ops(app, at.panes.now_playing)[0]);
    assert(ops[b + 1] == now_playing_ops(app, at.panes.now_playing)[1]);
    assert(ops[b + 2] == totals_ops(app, at.panes.totals, since)[0]);
    assert(ops[b + 3] == totals_ops(app, at.panes.totals, since)[1]);
    assert(ops[b + 4 + act] == leaderboard_ops(app, at.panes.leaderboard)[0]);
    assert(ops[b + 5 + act] == leaderboard_ops(app, at.panes.leaderboard)[1]);
    assert(ops[b + 6 + act] == recent_ops(app, at.panes.recent)[0]);
    assert(ops[b + 7 + act] == recent_ops(app, at.panes.recent)[1]);
    if let Some(p) = app.picker {
        assert(ops[ops.len() - 4] == picker_ops(app, p, area, at)[0]);
        assert(ops[ops.len() - 2] == picker_ops(app, p, area, at)[2]);
    } else {
        assert forall|i: int| 0 <= i < ops.len() implies !((#[trigger] ops[i]) is Clear) by {
            if b + 4 <= i < b + 4 + act {
                assert(ops[i] == activity_ops(app, at.panes)[i - b - 4]);
            }
        }
    }
}

} // verus!
