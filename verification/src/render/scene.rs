//! What a drawing is made of: styled text, areas, and the operations that put
//! them on a canvas.

use vstd::prelude::*;

use crate::theme::{Color, Palette};

verus! {

/// An area of the canvas.
#[derive(Debug, Clone, Copy, PartialEq, Eq, Structural)]
pub struct Rect {
    pub x: u16,
    pub y: u16,
    pub width: u16,
    pub height: u16,
}

/// How text or an area looks.
#[derive(Debug, Clone, Copy, PartialEq, Eq, Structural)]
pub struct Style {
    pub fg: Option<Color>,
    pub bg: Option<Color>,
    pub bold: bool,
    pub italic: bool,
}

/// A piece of text in one style.
#[derive(Debug)]
pub struct Span {
    pub text: String,
    pub style: Style,
}

/// What a piece of text holds.
pub struct SpanView {
    pub text: Seq<char>,
    pub style: Style,
}

impl View for Span {
    type V = SpanView;

    open spec fn view(&self) -> SpanView {
        SpanView { text: self.text@, style: self.style }
    }
}

/// What a sequence of pieces holds.
pub open spec fn span_views(v: Seq<Span>) -> Seq<SpanView> {
    Seq::new(v.len(), |i: int| v[i]@)
}

/// One line of text.
#[derive(Debug)]
pub struct Line {
    pub spans: Vec<Span>,
}

impl View for Line {
    type V = Seq<SpanView>;

    open spec fn view(&self) -> Seq<SpanView> {
        span_views(self.spans@)
    }
}

/// What a sequence of lines holds.
pub open spec fn line_views(v: Seq<Line>) -> Seq<Seq<SpanView>> {
    Seq::new(v.len(), |i: int| v[i]@)
}

/// What an optional line holds.
pub open spec fn opt_line(o: Option<Line>) -> Option<Seq<SpanView>> {
    match o {
        Some(line) => Some(line@),
        None => None,
    }
}

/// How much of an area a part of it takes.
#[derive(Debug, Clone, Copy, PartialEq, Eq, Structural)]
pub enum Constraint {
    /// This many cells.
    Length(u16),
    /// At least this many cells.
    Min(u16),
    /// This share of the whole, in percent.
    Percentage(u16),
}

/// The titles of a frame.
#[derive(Debug)]
pub struct Titles {
    pub top_left: Line,
    pub top_right: Option<Line>,
    pub bottom_left: Option<Line>,
    pub bottom_right: Option<Line>,
}

/// What the titles of a frame hold.
pub struct TitlesView {
    pub top_left: Seq<SpanView>,
    pub top_right: Option<Seq<SpanView>>,
    pub bottom_left: Option<Seq<SpanView>>,
    pub bottom_right: Option<Seq<SpanView>>,
}

impl View for Titles {
    type V = TitlesView;

    open spec fn view(&self) -> TitlesView {
        TitlesView {
            top_left: self.top_left@,
            top_right: opt_line(self.top_right),
            bottom_left: opt_line(self.bottom_left),
            bottom_right: opt_line(self.bottom_right),
        }
    }
}

/// One operation of a drawing.
#[derive(Debug)]
pub enum Op {
    /// Give every cell of an area a style.
    Fill(Rect, Style),
    /// Make every cell of an area blank.
    Clear(Rect),
    /// A rounded frame round an area, in a style for its border and one for its
    /// surface.
    Frame(Rect, Style, Style, Titles),
    /// Lines of text from the top of an area down.
    Text(Rect, Vec<Line>),
    /// A table: the heads of its columns, its rows, and how wide the columns are,
    /// with one cell between them.
    Table(Rect, Line, Vec<Line>, Vec<Constraint>),
}

/// What an operation holds.
pub enum OpView {
    Fill(Rect, Style),
    Clear(Rect),
    Frame(Rect, Style, Style, TitlesView),
    Text(Rect, Seq<Seq<SpanView>>),
    Table(Rect, Seq<SpanView>, Seq<Seq<SpanView>>, Seq<Constraint>),
}

impl View for Op {
    type V = OpView;

    open spec fn view(&self) -> OpView {
        match *self {
            Op::Fill(area, style) => OpView::Fill(area, style),
            Op::Clear(area) => OpView::Clear(area),
            Op::Frame(area, border, fill, titles) => OpView::Frame(area, border, fill, titles@),
            Op::Text(area, lines) => OpView::Text(area, line_views(lines@)),
            Op::Table(area, header, rows, widths) => OpView::Table(
                area,
                header@,
                line_views(rows@),
                widths@,
            ),
        }
    }
}

/// What a drawing holds.
pub open spec fn op_views(v: Seq<Op>) -> Seq<OpView> {
    Seq::new(v.len(), |i: int| v[i]@)
}

// ---- styles -----------------------------------------------------------------

/// The style that changes nothing.
pub open spec fn plain_style() -> Style {
    Style { fg: None, bg: None, bold: false, italic: false }
}

/// A foreground and nothing else.
pub open spec fn in_color(color: Color) -> Style {
    Style { fg: Some(color), ..plain_style() }
}

/// A bold foreground.
pub open spec fn in_bold_color(color: Color) -> Style {
    Style { bold: true, ..in_color(color) }
}

/// An italic foreground.
pub open spec fn in_italic_color(color: Color) -> Style {
    Style { italic: true, ..in_color(color) }
}

/// The style of a surface: the palette's background, where it paints one.
pub open spec fn surface(pal: Palette) -> Style {
    Style { bg: pal.bg, ..plain_style() }
}

/// Foreground-only style. The background is handled once, by the canvas fill, so
/// individual spans never need to carry it.
pub fn fg(color: Color) -> (r: Style)
    ensures
        r == in_color(color),
{
    Style { fg: Some(color), bg: None, bold: false, italic: false }
}

/// A bold foreground.
pub fn fg_bold(color: Color) -> (r: Style)
    ensures
        r == in_bold_color(color),
{
    Style { fg: Some(color), bg: None, bold: true, italic: false }
}

/// An italic foreground.
pub fn fg_italic(color: Color) -> (r: Style)
    ensures
        r == in_italic_color(color),
{
    Style { fg: Some(color), bg: None, bold: false, italic: true }
}

/// A solid-background style for surfaces (the canvas, the picker overlay).
pub fn bg_style(pal: &Palette) -> (r: Style)
    ensures
        r == surface(*pal),
{
    Style { fg: None, bg: pal.bg, bold: false, italic: false }
}

// ---- text -------------------------------------------------------------------

/// A styled piece of text.
pub open spec fn piece(text: Seq<char>, style: Style) -> SpanView {
    SpanView { text, style }
}

/// An unstyled piece of text.
pub open spec fn raw_piece(text: Seq<char>) -> SpanView {
    SpanView { text, style: plain_style() }
}

/// A styled piece of text.
pub fn styled(text: &str, style: Style) -> (r: Span)
    ensures
        r@ == piece(text@, style),
{
    Span { text: text.to_owned(), style }
}

/// An unstyled piece of text.
pub fn raw(text: &str) -> (r: Span)
    ensures
        r@ == raw_piece(text@),
{
    Span {
        text: text.to_owned(),
        style: Style { fg: None, bg: None, bold: false, italic: false },
    }
}

/// A line of one piece.
pub fn line_of(span: Span) -> (r: Line)
    ensures
        r@ == seq![span@],
{
    let mut spans: Vec<Span> = Vec::new();
    let ghost shown = span@;
    spans.push(span);
    assert(span_views(spans@) =~= seq![shown]);
    Line { spans }
}

/// Adds a piece to a line.
pub fn push_span(line: &mut Line, span: Span)
    ensures
        final(line)@ == old(line)@.push(span@),
{
    let ghost before = line.spans@;
    let ghost shown = span@;
    line.spans.push(span);
    assert(span_views(line.spans@) =~= span_views(before).push(shown));
}

/// Adds a line to a text.
pub fn push_line(lines: &mut Vec<Line>, line: Line)
    ensures
        line_views(final(lines)@) == line_views(old(lines)@).push(line@),
{
    let ghost before = lines@;
    let ghost shown = line@;
    lines.push(line);
    assert(line_views(lines@) =~= line_views(before).push(shown));
}

/// A text without lines.
pub fn no_lines() -> (r: Vec<Line>)
    ensures
        line_views(r@) == Seq::<Seq<SpanView>>::empty(),
{
    let lines: Vec<Line> = Vec::new();
    assert(line_views(lines@) =~= Seq::<Seq<SpanView>>::empty());
    lines
}

/// Adds an operation to a drawing.
pub fn push_op(ops: &mut Vec<Op>, op: Op)
    ensures
        op_views(final(ops)@) == op_views(old(ops)@).push(op@),
{
    let ghost before = ops@;
    let ghost shown = op@;
    ops.push(op);
    assert(op_views(ops@) =~= op_views(before).push(shown));
}

} // verus!
