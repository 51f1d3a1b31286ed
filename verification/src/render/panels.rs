//! What the panels of the dashboard say.

use vstd::prelude::*;

use crate::archive::queries::{board_views, AdvertiserView};
use crate::archive::{ad_views, AdRowView, AdvertiserStat, Stats};
use crate::links::host_or_empty;
use crate::model::{advertiser_of, host, tagline_of, AdRow, CliAd, CliAdView};
use crate::numbers::{count_text, decimal, int_text, signed_text};
use crate::render::app::ThemePicker;
use crate::render::scene::{
    fg, fg_bold, fg_italic, in_bold_color, in_color, in_italic_color, line_of, line_views,
    no_lines, piece, push_line, push_span, raw, raw_piece, styled, Constraint, Line, Span,
    SpanView,
};
use crate::report::PORTFOLIO_URL;
use crate::sources::{is_set, LiveState, LiveStateView};
use crate::statusline::{ad_is_fresh, is_fresh};
use crate::text::{concat, left_aligned, or_empty, pad_left, pad_right, right_aligned};
use crate::theme::{theme_hint, theme_label, Palette, Theme};
use crate::util::{age, human_age, truncate, truncated};

verus! {

// ---- the frame --------------------------------------------------------------

/// The title of the dashboard.
pub open spec fn brand(pal: Palette, demo: bool) -> Seq<SpanView> {
    let name = seq![
        piece(" kickbacks"@, in_bold_color(pal.gold)),
        piece("-kit "@, in_bold_color(pal.fg)),
        piece("\u{b7} kbtop "@, in_color(pal.dim)),
    ];
    if demo {
        name.push(piece("\u{b7} demo data "@, in_italic_color(pal.dim)))
    } else {
        name
    }
}

/// The title; it says so where the data are the demo's.
pub fn brand_title(pal: &Palette, demo: bool) -> (r: Line)
    ensures
        r@ == brand(*pal, demo),
{
    let mut line = line_of(styled(" kickbacks", fg_bold(pal.gold)));
    push_span(&mut line, styled("-kit ", fg_bold(pal.fg)));
    push_span(&mut line, styled("\u{b7} kbtop ", fg(pal.dim)));
    if demo {
        push_span(&mut line, styled("\u{b7} demo data ", fg_italic(pal.dim)));
    }
    assert(line@ =~= brand(*pal, demo));
    line
}

/// A chip that says whether something is on.
pub open spec fn chip_span(pal: Palette, on: bool, yes: Seq<char>, no: Seq<char>) -> SpanView {
    if on {
        piece("\u{25cf} "@ + yes, in_color(pal.green))
    } else {
        piece("\u{25cb} "@ + no, in_color(pal.dim))
    }
}

/// A chip that says whether something is on.
pub fn chip(pal: &Palette, on: bool, yes: &str, no: &str) -> (r: Span)
    ensures
        r@ == chip_span(*pal, on, yes@, no@),
{
    if on {
        let text = concat("\u{25cf} ", yes);
        styled(text.as_str(), fg(pal.green))
    } else {
        let text = concat("\u{25cb} ", no);
        styled(text.as_str(), fg(pal.dim))
    }
}

/// The chips of the live state.
pub open spec fn chips(pal: Palette, live: LiveStateView) -> Seq<SpanView> {
    let switches = seq![
        chip_span(pal, live.signed_in == Some(true), "signed in"@, "signed out"@),
        raw_piece("  "@),
        chip_span(pal, live.injection_on == Some(true), "ads on"@, "ads off"@),
    ];
    let all = if live.killed == Some(true) {
        switches.push(raw_piece("  "@)).push(piece("\u{25cf} killed"@, in_color(pal.red)))
    } else {
        switches
    };
    all.push(raw_piece(" "@))
}

/// The chips of the live state: signed in, ads on, and the killswitch where it is
/// active.
pub fn status_chips(pal: &Palette, live: &LiveState) -> (r: Line)
    ensures
        r@ == chips(*pal, live@),
{
    let mut line = line_of(chip(pal, is_set(live.signed_in), "signed in", "signed out"));
    push_span(&mut line, raw("  "));
    push_span(&mut line, chip(pal, is_set(live.injection_on), "ads on", "ads off"));
    if is_set(live.killed) {
        push_span(&mut line, raw("  "));
        push_span(&mut line, styled("\u{25cf} killed", fg(pal.red)));
    }
    push_span(&mut line, raw(" "));
    assert(line@ =~= chips(*pal, live@));
    line
}

/// The key bindings.
pub open spec fn keybinds(pal: Palette, theme: Theme) -> Seq<SpanView> {
    seq![
        piece(" q "@, in_color(pal.gold)),
        piece("quit  "@, in_color(pal.dim)),
        piece("r "@, in_color(pal.gold)),
        piece("refresh  "@, in_color(pal.dim)),
        piece("t "@, in_color(pal.gold)),
        piece("theme: "@ + theme_label(theme) + " "@, in_color(pal.dim)),
    ]
}

/// The key bindings, with the theme that is active.
pub fn keybinds_line(pal: &Palette, theme: Theme) -> (r: Line)
    ensures
        r@ == keybinds(*pal, theme),
{
    let mut line = line_of(styled(" q ", fg(pal.gold)));
    push_span(&mut line, styled("quit  ", fg(pal.dim)));
    push_span(&mut line, styled("r ", fg(pal.gold)));
    push_span(&mut line, styled("refresh  ", fg(pal.dim)));
    push_span(&mut line, styled("t ", fg(pal.gold)));
    let mut label = concat("theme: ", theme.label());
    label.push_str(" ");
    push_span(&mut line, styled(label.as_str(), fg(pal.dim)));
    assert(line@ =~= keybinds(*pal, theme));
    line
}

/// The promise in the corner.
pub open spec fn ethic(pal: Palette) -> Seq<SpanView> {
    seq![piece(" read-only \u{b7} observes, never bills "@, in_italic_color(pal.dim))]
}

/// The promise in the corner.
pub fn ethic_line(pal: &Palette) -> (r: Line)
    ensures
        r@ == ethic(*pal),
{
    line_of(styled(" read-only \u{b7} observes, never bills ", fg_italic(pal.dim)))
}

/// The label of a section.
pub open spec fn section_label(pal: Palette, label: Seq<char>) -> Seq<Seq<SpanView>> {
    seq![seq![piece(label, in_bold_color(pal.teal))]]
}

/// The label of a section.
pub fn label_lines(pal: &Palette, label: &str) -> (r: Vec<Line>)
    ensures
        line_views(r@) == section_label(*pal, label@),
{
    let mut lines = no_lines();
    push_line(&mut lines, line_of(styled(label, fg_bold(pal.teal))));
    assert(line_views(lines@) =~= section_label(*pal, label@));
    lines
}

// ---- now playing ------------------------------------------------------------

/// What is playing now. The killswitch comes before everything else; then a
/// fresh ad; otherwise there is none.
pub open spec fn now_playing_lines(
    live: LiveStateView,
    current: Option<CliAdView>,
    now_ms: i64,
    width: u16,
    pal: Palette,
) -> Seq<Seq<SpanView>> {
    if live.killed == Some(true) {
        seq![
            seq![piece("\u{25cf} ADS PAUSED"@, in_bold_color(pal.red))],
            seq![piece("kickbacks killswitch active"@, in_color(pal.red))],
            seq![piece("server-side, not you"@, in_color(pal.dim))],
        ]
    } else if current is Some && is_fresh(current->0.ts, now_ms) {
        let ad = current->0;
        let site = match ad.click_url {
            Some(url) => or_empty(host(url)),
            None => Seq::empty(),
        };
        seq![
            seq![piece(advertiser_of(ad.ad_text, ad.click_url), in_bold_color(pal.gold))],
            seq![
                piece(
                    truncated(tagline_of(ad.ad_text), crate::render::layout::less(width, 2) as int),
                    in_color(pal.fg),
                ),
            ],
            seq![piece(site + " \u{b7} "@ + age(now_ms - ad.ts), in_color(pal.dim))],
        ]
    } else {
        seq![
            seq![piece("no ad right now"@, in_bold_color(pal.dim))],
            seq![piece("code with the extension running to see ads"@, in_color(pal.dim))],
        ]
    }
}

/// Whether the age of the current ad can be told.
pub open spec fn age_fits(current: Option<CliAd>, now_ms: i64) -> bool {
    match current {
        Some(ad) => i64::MIN <= now_ms - ad.ts <= i64::MAX,
        None => true,
    }
}

/// What the current ad holds, where there is one.
pub open spec fn ad_view(current: Option<CliAd>) -> Option<CliAdView> {
    match current {
        Some(ad) => Some(ad@),
        None => None,
    }
}

/// The lines of the now-playing panel, which is `width` cells wide.
pub fn now_playing(
    live: &LiveState,
    current: &Option<CliAd>,
    now_ms: i64,
    width: u16,
    pal: &Palette,
) -> (r: Vec<Line>)
    requires
        age_fits(*current, now_ms),
    ensures
        line_views(r@) == now_playing_lines(live@, ad_view(*current), now_ms, width, *pal),
{
    let ghost all = now_playing_lines(live@, ad_view(*current), now_ms, width, *pal);
    let mut lines = no_lines();
    // The killswitch is the surprising state: make it impossible to miss.
    if is_set(live.killed) {
        push_line(&mut lines, line_of(styled("\u{25cf} ADS PAUSED", fg_bold(pal.red))));
        push_line(&mut lines, line_of(styled("kickbacks killswitch active", fg(pal.red))));
        push_line(&mut lines, line_of(styled("server-side, not you", fg(pal.dim))));
        assert(line_views(lines@) =~= all);
        return lines;
    }
    match current {
        Some(ad) => {
            if ad_is_fresh(Some(ad), now_ms) {
                let advertiser = ad.advertiser();
                let tagline = ad.tagline();
                let room: u16 = if width <= 2 {
                    0
                } else {
                    width - 2
                };
                let short = truncate(tagline.as_str(), room as usize);
                let mut place = match &ad.click_url {
                    Some(url) => host_or_empty(url.as_str()),
                    None => String::new(),
                };
                place.push_str(" \u{b7} ");
                let ago = human_age(now_ms - ad.ts);
                place.push_str(ago.as_str());
                push_line(&mut lines, line_of(styled(advertiser.as_str(), fg_bold(pal.gold))));
                push_line(&mut lines, line_of(styled(short.as_str(), fg(pal.fg))));
                push_line(&mut lines, line_of(styled(place.as_str(), fg(pal.dim))));
                assert(line_views(lines@) =~= all);
                return lines;
            }
        },
        None => {},
    }
    push_line(&mut lines, line_of(styled("no ad right now", fg_bold(pal.dim))));
    push_line(
        &mut lines,
        line_of(styled("code with the extension running to see ads", fg(pal.dim))),
    );
    assert(line_views(lines@) =~= all);
    lines
}

// ---- totals -----------------------------------------------------------------

/// One figure of the totals.
pub open spec fn total_line(label: Seq<char>, value: int, pal: Palette) -> Seq<SpanView> {
    seq![
        piece(pad_right(label, 12), in_color(pal.dim)),
        piece(int_text(value), in_bold_color(pal.teal)),
    ]
}

fn total(label: &str, value: i64, pal: &Palette) -> (r: Line)
    ensures
        r@ == total_line(label@, value as int, *pal),
{
    let padded = left_aligned(label, 12);
    let digits = signed_text(value);
    let mut line = line_of(styled(padded.as_str(), fg(pal.dim)));
    push_span(&mut line, styled(digits.as_str(), fg_bold(pal.teal)));
    assert(line@ =~= total_line(label@, value as int, *pal));
    line
}

/// The figures of the totals.
pub open spec fn figures(s: Stats, pal: Palette) -> Seq<Seq<SpanView>> {
    seq![
        total_line("ads seen"@, s.distinct_ads as int, pal),
        total_line("advertisers"@, s.advertisers as int, pal),
        total_line("sightings"@, s.total_sightings as int, pal),
        total_line("today"@, s.sightings_today as int, pal),
        total_line("this week"@, s.sightings_week as int, pal),
    ]
}

/// Where earnings are to be found: off the screen.
pub open spec fn earnings_lines(pal: Palette) -> Seq<Seq<SpanView>> {
    seq![
        seq![raw_piece(""@)],
        seq![piece("$ earnings"@, in_color(pal.dim))],
        seq![piece(PORTFOLIO_URL@, in_color(pal.gold))],
        seq![piece("read-only \u{b7} kb does not read balances"@, in_italic_color(pal.dim))],
    ]
}

/// The totals, with the first sighting given as text.
pub open spec fn totals_lines(s: Stats, since: Option<Seq<char>>, pal: Palette) -> Seq<
    Seq<SpanView>,
> {
    match since {
        Some(label) => figures(s, pal).push(
            seq![piece("since "@ + label, in_italic_color(pal.dim))],
        ) + earnings_lines(pal),
        None => figures(s, pal) + earnings_lines(pal),
    }
}

/// The lines of the totals panel, with the first sighting given as text.
pub fn totals(s: &Stats, since: Option<&str>, pal: &Palette) -> (r: Vec<Line>)
    ensures
        line_views(r@) == totals_lines(*s, crate::text::opt_str(since), *pal),
{
    let mut lines = no_lines();
    push_line(&mut lines, total("ads seen", s.distinct_ads, pal));
    push_line(&mut lines, total("advertisers", s.advertisers, pal));
    push_line(&mut lines, total("sightings", s.total_sightings, pal));
    push_line(&mut lines, total("today", s.sightings_today, pal));
    push_line(&mut lines, total("this week", s.sightings_week, pal));
    assert(line_views(lines@) =~= figures(*s, *pal));
    if let Some(label) = since {
        let text = concat("since ", label);
        push_line(&mut lines, line_of(styled(text.as_str(), fg_italic(pal.dim))));
    }
    // Earnings deliberately live off-screen: point to the real number instead of
    // inventing one.
    push_line(&mut lines, line_of(raw("")));
    push_line(&mut lines, line_of(styled("$ earnings", fg(pal.dim))));
    push_line(&mut lines, line_of(styled(PORTFOLIO_URL, fg(pal.gold))));
    push_line(
        &mut lines,
        line_of(styled("read-only \u{b7} kb does not read balances", fg_italic(pal.dim))),
    );
    assert(line_views(lines@) =~= totals_lines(*s, crate::text::opt_str(since), *pal));
    lines
}

/// The totals never show an earnings figure: after the counts they end with a
/// pointer to the portfolio, whatever the archive holds.
pub proof fn earnings_are_pointed_at(s: Stats, since: Option<Seq<char>>, pal: Palette)
    ensures
        ({
            let lines = totals_lines(s, since, pal);
            lines.skip(lines.len() - 4) == earnings_lines(pal)
        }),
{
    let lines = totals_lines(s, since, pal);
    assert(lines.skip(lines.len() - 4) =~= earnings_lines(pal));
}

// ---- activity ---------------------------------------------------------------

/// Whether no hour was observed.
pub open spec fn all_unobserved(data: Seq<Option<u64>>) -> bool {
    forall|i: int| 0 <= i < data.len() ==> (#[trigger] data[i]) is None
}

/// Whether an hour was not observed.
pub open spec fn has_gap(data: Seq<Option<u64>>) -> bool {
    exists|i: int| 0 <= i < data.len() && (#[trigger] data[i]) is None
}

/// Whether no hour was observed.
pub fn none_observed(data: &Vec<Option<u64>>) -> (r: bool)
    ensures
        r == all_unobserved(data@),
{
    let mut i: usize = 0;
    while i < data.len()
        invariant
            i <= data@.len(),
            forall|k: int| 0 <= k < i ==> (#[trigger] data@[k]) is None,
        decreases data@.len() - i,
    {
        if data[i].is_some() {
            assert(data@[i as int] is Some);
            return false;
        }
        i = i + 1;
    }
    true
}

/// Whether an hour was not observed.
pub fn any_gap(data: &Vec<Option<u64>>) -> (r: bool)
    ensures
        r == has_gap(data@),
{
    let mut i: usize = 0;
    while i < data.len()
        invariant
            i <= data@.len(),
            forall|k: int| 0 <= k < i ==> (#[trigger] data@[k]) is Some,
        decreases data@.len() - i,
    {
        if data[i].is_none() {
            assert(data@[i as int] is None);
            return true;
        }
        i = i + 1;
    }
    false
}

/// One line in one style.
pub open spec fn note(text: Seq<char>, style: crate::render::scene::Style) -> Seq<Seq<SpanView>> {
    seq![seq![piece(text, style)]]
}

/// One line in one style.
pub fn note_lines(text: &str, style: crate::render::scene::Style) -> (r: Vec<Line>)
    ensures
        line_views(r@) == note(text@, style),
{
    let mut lines = no_lines();
    push_line(&mut lines, line_of(styled(text, style)));
    assert(line_views(lines@) =~= note(text@, style));
    lines
}

// ---- the leaderboard --------------------------------------------------------

/// The heads of the leaderboard's columns.
pub open spec fn board_header(pal: Palette) -> Seq<SpanView> {
    seq![
        raw_piece(""@),
        piece("advertiser"@, in_color(pal.dim)),
        piece("ads"@, in_color(pal.dim)),
        piece("seen"@, in_color(pal.dim)),
    ]
}

/// The heads of the leaderboard's columns.
pub fn leaderboard_header(pal: &Palette) -> (r: Line)
    ensures
        r@ == board_header(*pal),
{
    let mut line = line_of(raw(""));
    push_span(&mut line, styled("advertiser", fg(pal.dim)));
    push_span(&mut line, styled("ads", fg(pal.dim)));
    push_span(&mut line, styled("seen", fg(pal.dim)));
    assert(line@ =~= board_header(*pal));
    line
}

/// The widths of the leaderboard's columns.
pub open spec fn board_widths() -> Seq<Constraint> {
    seq![Constraint::Length(3), Constraint::Min(8), Constraint::Length(4), Constraint::Length(5)]
}

/// The widths of the leaderboard's columns.
pub fn leaderboard_widths() -> (r: Vec<Constraint>)
    ensures
        r@ == board_widths(),
{
    let out: Vec<Constraint> = vec![
        Constraint::Length(3),
        Constraint::Min(8),
        Constraint::Length(4),
        Constraint::Length(5),
    ];
    assert(out@ =~= board_widths());
    out
}

/// The row of an advertiser, who stands at place `i`.
pub open spec fn board_line(a: AdvertiserView, i: int, name_width: int, pal: Palette) -> Seq<
    SpanView,
> {
    seq![
        piece(pad_left(decimal((i + 1) as nat), 2), in_color(pal.dim)),
        piece(truncated(a.advertiser, name_width), in_color(pal.fg)),
        piece(int_text(a.distinct_ads), in_color(pal.dim)),
        piece(int_text(a.sightings), in_bold_color(pal.gold)),
    ]
}

/// The rows of the leaderboard.
pub open spec fn board_lines(board: Seq<AdvertiserView>, name_width: int, pal: Palette) -> Seq<
    Seq<SpanView>,
> {
    Seq::new(board.len(), |i: int| board_line(board[i], i, name_width, pal))
}

/// The rows of the leaderboard, with names of at most `name_width` characters.
pub fn leaderboard_rows(board: &Vec<AdvertiserStat>, name_width: usize, pal: &Palette) -> (r: Vec<
    Line,
>)
    ensures
        line_views(r@) == board_lines(board_views(board@), name_width as int, *pal),
{
    let ghost all = board_lines(board_views(board@), name_width as int, *pal);
    let mut lines = no_lines();
    let mut i: usize = 0;
    assert(all.take(0) =~= Seq::<Seq<SpanView>>::empty());
    while i < board.len()
        invariant
            all == board_lines(board_views(board@), name_width as int, *pal),
            i <= board@.len(),
            line_views(lines@) == all.take(i as int),
        decreases board@.len() - i,
    {
        let a = &board[i];
        let digits = count_text(i + 1);
        let place = right_aligned(digits.as_str(), 2);
        let name = truncate(a.advertiser.as_str(), name_width);
        let ads = signed_text(a.distinct_ads);
        let seen = signed_text(a.sightings);
        let mut line = line_of(styled(place.as_str(), fg(pal.dim)));
        push_span(&mut line, styled(name.as_str(), fg(pal.fg)));
        push_span(&mut line, styled(ads.as_str(), fg(pal.dim)));
        push_span(&mut line, styled(seen.as_str(), fg_bold(pal.gold)));
        assert(line@ =~= all[i as int]);
        push_line(&mut lines, line);
        assert(all.take(i + 1) =~= all.take(i as int).push(all[i as int]));
        i = i + 1;
    }
    assert(all.take(i as int) =~= all);
    lines
}

// ---- recent ads -------------------------------------------------------------

/// The recent ads, one per line.
pub open spec fn recent_lines(ads: Seq<AdRowView>, width: int, pal: Palette) -> Seq<Seq<SpanView>> {
    Seq::new(
        ads.len(),
        |i: int|
            seq![
                piece("\u{b7} "@, in_color(pal.gold)),
                piece(truncated(ads[i].ad_text, width), in_color(pal.fg)),
            ],
    )
}

/// The lines of the recent-ads panel, with texts of at most `width` characters.
pub fn recent(ads: &Vec<AdRow>, width: usize, pal: &Palette) -> (r: Vec<Line>)
    ensures
        line_views(r@) == recent_lines(ad_views(ads@), width as int, *pal),
{
    let ghost all = recent_lines(ad_views(ads@), width as int, *pal);
    let mut lines = no_lines();
    let mut i: usize = 0;
    assert(all.take(0) =~= Seq::<Seq<SpanView>>::empty());
    while i < ads.len()
        invariant
            all == recent_lines(ad_views(ads@), width as int, *pal),
            i <= ads@.len(),
            line_views(lines@) == all.take(i as int),
        decreases ads@.len() - i,
    {
        let text = truncate(ads[i].ad_text.as_str(), width);
        let mut line = line_of(styled("\u{b7} ", fg(pal.gold)));
        push_span(&mut line, styled(text.as_str(), fg(pal.fg)));
        assert(line@ =~= all[i as int]);
        push_line(&mut lines, line);
        assert(all.take(i + 1) =~= all.take(i as int).push(all[i as int]));
        i = i + 1;
    }
    assert(all.take(i as int) =~= all);
    lines
}

// ---- the theme picker -------------------------------------------------------

/// The line of a theme in the picker.
pub open spec fn option_line(theme: Theme, selected: bool, pal: Palette) -> Seq<SpanView> {
    seq![
        piece(
            if selected {
                "\u{203a} "@
            } else {
                "  "@
            },
            in_color(pal.gold),
        ),
        piece(
            pad_right(theme_label(theme), 9),
            if selected {
                in_bold_color(pal.gold)
            } else {
                in_color(pal.fg)
            },
        ),
        piece(theme_hint(theme), in_color(pal.dim)),
    ]
}

/// The lines of the picker's options.
pub open spec fn option_lines(p: ThemePicker, pal: Palette) -> Seq<Seq<SpanView>> {
    Seq::new(p.options@.len(), |i: int| option_line(p.options@[i], i == p.cursor, pal))
}

/// The lines of the picker's options; the one under the cursor is marked.
pub fn picker_options(p: &ThemePicker, pal: &Palette) -> (r: Vec<Line>)
    ensures
        line_views(r@) == option_lines(*p, *pal),
{
    let ghost all = option_lines(*p, *pal);
    let mut lines = no_lines();
    let mut i: usize = 0;
    assert(all.take(0) =~= Seq::<Seq<SpanView>>::empty());
    while i < p.options.len()
        invariant
            all == option_lines(*p, *pal),
            i <= p.options@.len(),
            line_views(lines@) == all.take(i as int),
        decreases p.options@.len() - i,
    {
        let theme = p.options[i];
        let name = left_aligned(theme.label(), 9);
        let mut line = if i == p.cursor {
            let mut line = line_of(styled("\u{203a} ", fg(pal.gold)));
            push_span(&mut line, styled(name.as_str(), fg_bold(pal.gold)));
            line
        } else {
            let mut line = line_of(styled("  ", fg(pal.gold)));
            push_span(&mut line, styled(name.as_str(), fg(pal.fg)));
            line
        };
        push_span(&mut line, styled(theme.hint(), fg(pal.dim)));
        assert(line@ =~= all[i as int]);
        push_line(&mut lines, line);
        assert(all.take(i + 1) =~= all.take(i as int).push(all[i as int]));
        i = i + 1;
    }
    assert(all.take(i as int) =~= all);
    lines
}

// ---- what the panels tell ---------------------------------------------------

/// A thrown killswitch hides the ad. Without one, an ad of the last ten minutes is
/// shown by its advertiser, its tagline, its host and its age; an older one, or
/// none, is no ad.
pub proof fn only_a_fresh_ad_is_playing(
    live: LiveStateView,
    current: Option<CliAdView>,
    now_ms: i64,
    width: u16,
    pal: Palette,
)
    ensures
        ({
            let lines = now_playing_lines(live, current, now_ms, width, pal);
            let killed = live.killed == Some(true);
            let fresh = current is Some && now_ms <= current->0.ts + 600_000;
            &&& lines[0][0].text == (if killed {
                "\u{25cf} ADS PAUSED"@
            } else if fresh {
                advertiser_of(current->0.ad_text, current->0.click_url)
            } else {
                "no ad right now"@
            })
            &&& !killed && fresh ==> {
                let site = match current->0.click_url {
                    Some(url) => or_empty(host(url)),
                    None => Seq::empty(),
                };
                &&& lines.len() == 3
                &&& width >= 2 ==> lines[1][0].text == truncated(
                    tagline_of(current->0.ad_text),
                    width - 2,
                )
                &&& lines[2][0].text == site + " \u{b7} "@ + age(now_ms - current->0.ts)
            }
        }),
{
}

/// The totals tell, from the top, the ads, the advertisers, the sightings, and
/// those of today and of the week; the first sighting comes after them, where it
/// is known.
pub proof fn totals_tell_each_figure(s: Stats, since: Option<Seq<char>>, pal: Palette)
    ensures
        ({
            let lines = totals_lines(s, since, pal);
            &&& lines[0][1].text == int_text(s.distinct_ads as int)
            &&& lines[1][1].text == int_text(s.advertisers as int)
            &&& lines[2][1].text == int_text(s.total_sightings as int)
            &&& lines[3][1].text == int_text(s.sightings_today as int)
            &&& lines[4][1].text == int_text(s.sightings_week as int)
            &&& lines[0][0].text == pad_right("ads seen"@, 12)
            &&& lines[1][0].text == pad_right("advertisers"@, 12)
            &&& lines[2][0].text == pad_right("sightings"@, 12)
            &&& lines[3][0].text == pad_right("today"@, 12)
            &&& lines[4][0].text == pad_right("this week"@, 12)
            &&& since is Some ==> lines[5][0].text == "since "@ + since->0 && lines.len() == 10
            &&& since is None ==> lines.len() == 9
        }),
{
}

/// The chips tell whether one is signed in and whether ads are on, each only where
/// it is known; the killswitch has a chip exactly where it is thrown.
pub proof fn chips_tell_what_is_known(pal: Palette, live: LiveStateView)
    ensures
        ({
            let line = chips(pal, live);
            &&& line[0].text == if live.signed_in == Some(true) {
                "\u{25cf} "@ + "signed in"@
            } else {
                "\u{25cb} "@ + "signed out"@
            }
            &&& line[2].text == if live.injection_on == Some(true) {
                "\u{25cf} "@ + "ads on"@
            } else {
                "\u{25cb} "@ + "ads off"@
            }
            &&& live.killed == Some(true) ==> line.len() == 6 && line[4].text
                == "\u{25cf} killed"@
            &&& live.killed != Some(true) ==> line.len() == 4
        }),
{
}

/// The rows of the leaderboard tell the place, counted from one, the advertiser,
/// its creatives and its sightings; those of the recent ads tell their texts.
pub proof fn rows_tell_their_columns(
    board: Seq<AdvertiserView>,
    ads: Seq<AdRowView>,
    i: int,
    width: int,
    pal: Palette,
)
    ensures
        0 <= i < board.len() ==> {
            let line = board_lines(board, width, pal)[i];
            &&& line[0].text == pad_left(decimal((i + 1) as nat), 2)
            &&& line[1].text == truncated(board[i].advertiser, width)
            &&& line[2].text == int_text(board[i].distinct_ads)
            &&& line[3].text == int_text(board[i].sightings)
        },
        0 <= i < ads.len() ==> recent_lines(ads, width, pal)[i][1].text == truncated(
            ads[i].ad_text,
            width,
        ),
        board_lines(board, width, pal).len() == board.len(),
        recent_lines(ads, width, pal).len() == ads.len(),
{
}

/// The picker lists its options in order and marks the one under its cursor, and
/// no other.
pub proof fn only_the_cursor_is_marked(p: ThemePicker, pal: Palette, i: int)
    requires
        0 <= i < p.options@.len(),
    ensures
        option_lines(p, pal).len() == p.options@.len(),
        option_lines(p, pal)[i][0].text == if i == p.cursor {
            "\u{203a} "@
        } else {
            "  "@
        },
        option_lines(p, pal)[i][1].text == pad_right(theme_label(p.options@[i]), 9),
        option_lines(p, pal)[i][2].text == theme_hint(p.options@[i]),
{
}

} // verus!
