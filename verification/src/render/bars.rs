//! The activity chart: one rising column per hour.

use vstd::arithmetic::div_mod::{
    lemma_div_is_ordered, lemma_fundamental_div_mod, lemma_fundamental_div_mod_converse,
};
use vstd::prelude::*;

use crate::render::scene::{
    fg, in_color, line_views, no_lines, piece, push_line, push_span, raw, raw_piece, styled,
    Line, Rect, Span, SpanView,
};
use crate::theme::Palette;

verus! {

/// The eighth-height block glyphs for a bar column, 1/8 to 8/8.
pub open spec fn block_glyph(eighths: int) -> Seq<char> {
    if eighths == 1 {
        "\u{2581}"@
    } else if eighths == 2 {
        "\u{2582}"@
    } else if eighths == 3 {
        "\u{2583}"@
    } else if eighths == 4 {
        "\u{2584}"@
    } else if eighths == 5 {
        "\u{2585}"@
    } else if eighths == 6 {
        "\u{2586}"@
    } else if eighths == 7 {
        "\u{2587}"@
    } else {
        "\u{2588}"@
    }
}

fn block_of(eighths: u16) -> (r: &'static str)
    ensures
        r@ == block_glyph(eighths as int),
{
    if eighths == 1 {
        "\u{2581}"
    } else if eighths == 2 {
        "\u{2582}"
    } else if eighths == 3 {
        "\u{2583}"
    } else if eighths == 4 {
        "\u{2584}"
    } else if eighths == 5 {
        "\u{2585}"
    } else if eighths == 6 {
        "\u{2586}"
    } else if eighths == 7 {
        "\u{2587}"
    } else {
        "\u{2588}"
    }
}

/// A quotient, rounded up.
pub open spec fn rounded_up(a: int, b: int) -> int {
    (a + b - 1) / b
}

/// The most eighths that a column has: those of its cells, held at the limit of
/// their count.
pub open spec fn most_eighths(rows: int) -> int {
    if rows * 8 <= u16::MAX {
        rows * 8
    } else {
        u16::MAX as int
    }
}

/// The eighths to fill for a value against the largest, in a column of some
/// height: its share, rounded up, never less than one for a nonzero value, and
/// never more than the column has.
pub open spec fn eighths(value: int, max: int, rows: int) -> int {
    if value == 0 || max == 0 || rows == 0 {
        0
    } else {
        let share = rounded_up(value * (rows * 8), max);
        if share < 1 {
            1
        } else if share > most_eighths(rows) {
            most_eighths(rows)
        } else {
            share
        }
    }
}

/// Total eighths to fill for `value` against `max` in a column `rows` cells
/// high. Any nonzero value fills at least one eighth, so a real sighting never
/// renders as an empty column.
pub fn column_eighths(value: u64, max: u64, rows: u16) -> (r: u16)
    ensures
        r == eighths(value as int, max as int, rows as int),
        r <= rows * 8,
        value > 0 && max > 0 && rows > 0 ==> r >= 1,
{
    if value == 0 || max == 0 || rows == 0 {
        return 0;
    }
    let total: u32 = rows as u32 * 8;
    let most: u32 = if total <= 65_535 {
        total
    } else {
        65_535
    };
    assert(value * total <= u64::MAX * u32::MAX) by (nonlinear_arith)
        requires
            value <= u64::MAX,
            total <= u32::MAX,
    ;
    let whole: u128 = value as u128 * total as u128;
    let quotient: u128 = whole / max as u128;
    let rest: u128 = whole % max as u128;
    proof {
        lemma_rounded_up(whole as int, max as int);
    }
    // A quotient that fills the column needs no rounding.
    if quotient >= most as u128 {
        most as u16
    } else {
        let share: u128 = if rest > 0 {
            quotient + 1
        } else {
            quotient
        };
        if share < 1 {
            1
        } else {
            share as u16
        }
    }
}

proof fn lemma_rounded_up(a: int, b: int)
    requires
        0 <= a,
        0 < b,
    ensures
        rounded_up(a, b) == a / b + if a % b > 0 {
            1int
        } else {
            0int
        },
{
    lemma_fundamental_div_mod(a, b);
    let q = a / b;
    let r = a % b;
    if r > 0 {
        assert(a + b - 1 == b * (q + 1) + (r - 1)) by (nonlinear_arith)
            requires
                a == b * q + r,
        ;
        lemma_fundamental_div_mod_converse(a + b - 1, b, q + 1, r - 1);
    } else {
        assert(r == 0);
        assert(a + b - 1 == q * b + (b - 1)) by (nonlinear_arith)
            requires
                a == b * q + r,
                r == 0,
        ;
        lemma_fundamental_div_mod_converse(a + b - 1, b, q, b - 1);
    }
}

/// The glyph of a cell: its share of the column's eighths. None for a cell above
/// the top of the column.
pub open spec fn cell_glyph(col_eighths: int, row_from_bottom: int) -> Option<Seq<char>> {
    let left = col_eighths - row_from_bottom * 8;
    if left <= 0 {
        None
    } else if left >= 8 {
        Some(block_glyph(8))
    } else {
        Some(block_glyph(left))
    }
}

/// The glyph for one cell, given the column's total eighths and how many rows
/// up from the baseline the cell sits. `None` means an empty cell.
pub fn bar_cell(col_eighths: u16, row_from_bottom: u16) -> (r: Option<&'static str>)
    ensures
        crate::text::opt_str(r) == cell_glyph(col_eighths as int, row_from_bottom as int),
{
    let filled: u32 = col_eighths as u32;
    let base: u32 = row_from_bottom as u32 * 8;
    if filled <= base {
        return None;
    }
    let local: u32 = if filled - base < 8 {
        filled - base
    } else {
        8
    };
    Some(block_of(local as u16))
}

/// The largest of the first `k` observed values; zero where there is none.
pub open spec fn largest(data: Seq<Option<u64>>, k: int) -> int
    decreases k,
{
    if k <= 0 {
        0
    } else {
        let before = largest(data, k - 1);
        match data[k - 1] {
            Some(v) => if v > before {
                v as int
            } else {
                before
            },
            None => before,
        }
    }
}

/// The cell of an hour in a row of the chart. An unobserved hour marks the
/// baseline and nothing above it; a watched but quiet hour is blank.
pub open spec fn bar_span(
    hour: Option<u64>,
    max: int,
    rows: int,
    row: int,
    pal: Palette,
) -> SpanView {
    match hour {
        None => if row == 0 {
            piece("\u{2591}"@, in_color(pal.dim))
        } else {
            raw_piece(" "@)
        },
        Some(v) => if v > 0 {
            match cell_glyph(eighths(v as int, max, rows), row) {
                Some(glyph) => piece(glyph, in_color(pal.gold)),
                None => raw_piece(" "@),
            }
        } else {
            raw_piece(" "@)
        },
    }
}

/// A row of the chart, `row` rows up from the baseline.
pub open spec fn bar_row(
    visible: Seq<Option<u64>>,
    rows: int,
    row: int,
    pal: Palette,
) -> Seq<SpanView> {
    Seq::new(
        visible.len(),
        |i: int| bar_span(visible[i], largest(visible, visible.len() as int), rows, row, pal),
    )
}

/// The hours that an area has room for: the latest ones.
pub open spec fn visible_hours(data: Seq<Option<u64>>, width: u16) -> Seq<Option<u64>> {
    if width < data.len() {
        data.skip(data.len() - width)
    } else {
        data
    }
}

/// The height of a chart: at least one row.
pub open spec fn chart_rows(height: u16) -> int {
    if height < 1 {
        1
    } else {
        height as int
    }
}

/// The chart of an area, from its top row down.
pub open spec fn bar_chart(
    data: Seq<Option<u64>>,
    width: u16,
    height: u16,
    pal: Palette,
) -> Seq<Seq<SpanView>> {
    let visible = visible_hours(data, width);
    let rows = chart_rows(height);
    if visible.len() == 0 {
        Seq::empty()
    } else {
        Seq::new(rows as nat, |i: int| bar_row(visible, rows, rows - 1 - i, pal))
    }
}

fn span_of(hour: Option<u64>, max: u64, rows: u16, row: u16, pal: &Palette) -> (r: Span)
    ensures
        r@ == bar_span(hour, max as int, rows as int, row as int, *pal),
{
    match hour {
        None => if row == 0 {
            styled("\u{2591}", fg(pal.dim))
        } else {
            raw(" ")
        },
        Some(v) => if v > 0 {
            match bar_cell(column_eighths(v, max, rows), row) {
                Some(block) => styled(block, fg(pal.gold)),
                None => raw(" "),
            }
        } else {
            raw(" ")
        },
    }
}

/// Build the activity chart. Observed hours rise as gold bars scaled to the
/// busiest hour; unobserved hours show a single dim baseline mark instead of a
/// full-height shaded slab. Watched-but-quiet hours (`Some(0)`) stay blank, so
/// they read differently from unobserved ones.
pub fn bars(data: &Vec<Option<u64>>, area: Rect, pal: &Palette) -> (r: Vec<Line>)
    ensures
        line_views(r@) == bar_chart(data@, area.width, area.height, *pal),
{
    let n: usize = data.len();
    let skip: usize = if (area.width as usize) < n {
        n - area.width as usize
    } else {
        0
    };
    let rows: u16 = if area.height < 1 {
        1
    } else {
        area.height
    };
    let ghost visible = visible_hours(data@, area.width);
    let mut lines = no_lines();
    proof {
        assert(visible.len() == n - skip);
        assert forall|i: int| 0 <= i < visible.len() implies visible[i] == data@[skip + i] by {}
    }
    if skip == n {
        return lines;
    }
    let mut max: u64 = 0;
    let mut k: usize = skip;
    while k < n
        invariant
            n == data@.len(),
            skip <= k <= n,
            visible.len() == n - skip,
            forall|i: int| 0 <= i < visible.len() ==> #[trigger] visible[i] == data@[skip + i],
            max == largest(visible, k - skip),
        decreases n - k,
    {
        assert(visible[k - skip] == data@[k as int]);
        if let Some(v) = data[k] {
            if v > max {
                max = v;
            }
        }
        k = k + 1;
    }
    let ghost chart = bar_chart(data@, area.width, area.height, *pal);
    let mut done: u16 = 0;
    assert(chart.take(0) =~= Seq::<Seq<SpanView>>::empty());
    while done < rows
        invariant
            n == data@.len(),
            skip < n,
            visible.len() == n - skip,
            visible == visible_hours(data@, area.width),
            forall|i: int| 0 <= i < visible.len() ==> #[trigger] visible[i] == data@[skip + i],
            max == largest(visible, visible.len() as int),
            rows == chart_rows(area.height),
            done <= rows,
            chart == bar_chart(data@, area.width, area.height, *pal),
            line_views(lines@) == chart.take(done as int),
        decreases rows - done,
    {
        let row: u16 = rows - 1 - done;
        let ghost whole = bar_row(visible, rows as int, row as int, *pal);
        let mut line = Line { spans: Vec::new() };
        let mut k: usize = skip;
        assert(line@ =~= whole.take(0));
        while k < n
            invariant
                n == data@.len(),
                skip <= k <= n,
                visible.len() == n - skip,
                forall|i: int| 0 <= i < visible.len() ==> #[trigger] visible[i] == data@[skip + i],
                max == largest(visible, visible.len() as int),
                whole == bar_row(visible, rows as int, row as int, *pal),
                line@ == whole.take(k - skip),
            decreases n - k,
        {
            assert(visible[k - skip] == data@[k as int]);
            let span = span_of(data[k], max, rows, row, pal);
            push_span(&mut line, span);
            assert(whole.take(k - skip + 1) =~= whole.take(k - skip).push(whole[k - skip]));
            k = k + 1;
        }
        assert(whole.take(k - skip) =~= whole);
        push_line(&mut lines, line);
        assert(chart.take(done + 1) =~= chart.take(done as int).push(chart[done as int]));
        done = done + 1;
    }
    assert(chart.take(done as int) =~= chart);
    lines
}

// ---- what the chart shows ---------------------------------------------------

/// A nonzero value never vanishes and never overflows its column; the largest
/// value fills it, as far as eighths can be counted.
pub proof fn columns_are_bounded(value: int, max: int, rows: int)
    requires
        0 < value <= max,
        0 < rows,
    ensures
        1 <= eighths(value, max, rows) <= rows * 8,
        eighths(max, max, rows) == most_eighths(rows),
        rows <= 8191 ==> eighths(max, max, rows) == rows * 8,
{
    lemma_rounded_up(max * (rows * 8), max);
    vstd::arithmetic::div_mod::lemma_div_multiples_vanish(rows * 8, max);
    vstd::arithmetic::div_mod::lemma_mod_multiples_basic(rows * 8, max);
    assert(max * (rows * 8) == (rows * 8) * max) by (nonlinear_arith);
    assert(0 <= max * (rows * 8)) by (nonlinear_arith)
        requires
            0 < max,
            0 < rows,
    ;
}

/// A larger value never has a shorter column.
pub proof fn columns_grow_with_the_value(a: int, b: int, max: int, rows: int)
    requires
        0 <= a <= b <= max,
        0 <= rows,
    ensures
        eighths(a, max, rows) <= eighths(b, max, rows),
{
    if a > 0 && rows > 0 {
        assert(a * (rows * 8) <= b * (rows * 8)) by (nonlinear_arith)
            requires
                a <= b,
                0 < rows,
        ;
        lemma_div_is_ordered(a * (rows * 8) + max - 1, b * (rows * 8) + max - 1, max);
    } else if b > 0 && rows > 0 {
        columns_are_bounded(b, max, rows);
    }
}

/// A column fills from the bottom up: a cell with anything above it is full.
pub proof fn columns_fill_bottom_up(col_eighths: int, row: int, above: int)
    requires
        0 <= row < above,
        cell_glyph(col_eighths, above) is Some,
    ensures
        cell_glyph(col_eighths, row) == Some(block_glyph(8)),
{
}

/// The eighths of a column that one of its cells shows.
pub open spec fn cell_eighths(col_eighths: int, row: int) -> int {
    let left = col_eighths - row * 8;
    if left <= 0 {
        0
    } else if left >= 8 {
        8
    } else {
        left
    }
}

/// The eighths that the lowest `rows` cells of a column show, in all.
pub open spec fn shown_eighths(col_eighths: int, rows: int) -> int
    decreases rows,
{
    if rows <= 0 {
        0
    } else {
        shown_eighths(col_eighths, rows - 1) + cell_eighths(col_eighths, rows - 1)
    }
}

/// A cell's glyph is that of the eighths that it shows, and the cells of a column
/// show all its eighths.
pub proof fn cells_show_the_whole_column(col_eighths: int, rows: int, row: int)
    requires
        0 <= col_eighths,
        0 <= rows,
    ensures
        cell_glyph(col_eighths, row) == (if cell_eighths(col_eighths, row) == 0 {
            None
        } else {
            Some(block_glyph(cell_eighths(col_eighths, row)))
        }),
        col_eighths <= rows * 8 ==> shown_eighths(col_eighths, rows) == col_eighths,
{
    lemma_shown(col_eighths, rows);
}

proof fn lemma_shown(col_eighths: int, rows: int)
    requires
        0 <= col_eighths,
        0 <= rows,
    ensures
        shown_eighths(col_eighths, rows) == if col_eighths <= rows * 8 {
            col_eighths
        } else {
            rows * 8
        },
    decreases rows,
{
    if rows > 0 {
        lemma_shown(col_eighths, rows - 1);
    }
}

/// An unobserved hour marks the baseline alone, a quiet hour nothing, and an hour
/// with a sighting always shows at the baseline.
pub proof fn gaps_mark_only_the_baseline(
    hour: Option<u64>,
    max: int,
    rows: int,
    row: int,
    pal: Palette,
)
    requires
        hour matches Some(v) ==> v <= max,
        0 < rows,
        0 <= row < rows,
    ensures
        hour is None ==> bar_span(hour, max, rows, row, pal) == if row == 0 {
            piece("\u{2591}"@, in_color(pal.dim))
        } else {
            raw_piece(" "@)
        },
        hour == Some(0u64) ==> bar_span(hour, max, rows, row, pal) == raw_piece(" "@),
        hour is Some && hour->0 > 0 && row == 0 ==> bar_span(hour, max, rows, row, pal).style
            == in_color(pal.gold),
{
    if hour is Some && hour->0 > 0 {
        columns_are_bounded(hour->0 as int, max, rows);
    }
}

/// A column is the value's share of the column's eighths, rounded up: so many
/// eighths are at least the share, and one less would not be.
pub proof fn columns_round_up(value: int, max: int, rows: int)
    requires
        0 < value <= max,
        0 < rows <= 8191,
    ensures
        eighths(value, max, rows) * max >= value * (rows * 8),
        (eighths(value, max, rows) - 1) * max < value * (rows * 8),
{
    let a = value * (rows * 8);
    assert(0 < a) by (nonlinear_arith)
        requires
            a == value * (rows * 8),
            0 < value,
            0 < rows,
    ;
    assert(a <= max * (rows * 8)) by (nonlinear_arith)
        requires
            a == value * (rows * 8),
            value <= max,
            0 < rows,
    ;
    let q = rounded_up(a, max);
    vstd::arithmetic::div_mod::lemma_fundamental_div_mod(a + max - 1, max);
    vstd::arithmetic::div_mod::lemma_mod_bound(a + max - 1, max);
    assert(q * max >= a && (q - 1) * max < a) by (nonlinear_arith)
        requires
            a + max - 1 == max * q + (a + max - 1) % max,
            0 <= (a + max - 1) % max < max,
    ;
    assert(q >= 1) by (nonlinear_arith)
        requires
            q * max >= a,
            0 < a,
            0 < max,
    ;
    assert(q <= rows * 8) by (nonlinear_arith)
        requires
            (q - 1) * max < a,
            a <= max * (rows * 8),
            0 < max,
    ;
}

proof fn lemma_largest(data: Seq<Option<u64>>, k: int)
    requires
        0 <= k <= data.len(),
    ensures
        0 <= largest(data, k) <= u64::MAX,
        forall|i: int|
            0 <= i < k && (#[trigger] data[i]) is Some ==> data[i]->0 <= largest(data, k),
        largest(data, k) > 0 ==> exists|i: int|
            0 <= i < k && (#[trigger] data[i]) == Some(largest(data, k) as u64),
    decreases k,
{
    if k > 0 {
        lemma_largest(data, k - 1);
        let before = largest(data, k - 1);
        let after = largest(data, k);
        if after > 0 {
            if data[k - 1] == Some(after as u64) {
            } else {
                assert(after == before);
                let i = choose|i: int|
                    0 <= i < k - 1 && (#[trigger] data[i]) == Some(before as u64);
                assert(data[i] == Some(after as u64));
            }
        }
    }
}

/// Columns are scaled to the busiest observed hour, and to nothing where every
/// hour was quiet or unobserved.
pub proof fn the_busiest_hour_scales_the_chart(data: Seq<Option<u64>>)
    ensures
        ({
            let top = largest(data, data.len() as int);
            &&& forall|i: int|
                0 <= i < data.len() && (#[trigger] data[i]) is Some ==> data[i]->0 <= top
            &&& top > 0 ==> exists|i: int|
                0 <= i < data.len() && (#[trigger] data[i]) == Some(top as u64)
            &&& top >= 0
        }),
{
    lemma_largest(data, data.len() as int);
}

/// An area that has no room for every hour shows the latest ones, in order.
pub proof fn the_latest_hours_are_shown(data: Seq<Option<u64>>, width: u16)
    ensures
        ({
            let r = visible_hours(data, width);
            &&& r.len() == if width < data.len() {
                width as int
            } else {
                data.len() as int
            }
            &&& forall|i: int|
                0 <= i < r.len() ==> #[trigger] r[i] == data[data.len() - r.len() + i]
        }),
{
}

/// The chart is as high as its area, and each of its rows has a cell for every
/// hour: gold exactly where the hour's column reaches over the row's lower edge,
/// with the baseline at the bottom.
pub proof fn charts_draw_columns_upright(
    data: Seq<Option<u64>>,
    width: u16,
    height: u16,
    pal: Palette,
    line: int,
    i: int,
)
    requires
        0 < width,
        0 < height,
        0 <= i < visible_hours(data, width).len(),
        0 <= line < height,
    ensures
        ({
            let visible = visible_hours(data, width);
            let chart = bar_chart(data, width, height, pal);
            let top = largest(visible, visible.len() as int);
            let up = height - 1 - line;
            &&& chart.len() == height
            &&& chart[line].len() == visible.len()
            &&& visible[i] is Some ==> (eighths(visible[i]->0 as int, top, height as int) > up * 8
                <==> chart[line][i] != raw_piece(" "@))
            &&& visible[i] is Some && chart[line][i] != raw_piece(" "@) ==> chart[line][i].style
                == in_color(pal.gold)
            &&& visible[i] is None ==> (up == 0 <==> chart[line][i] != raw_piece(" "@))
        }),
{
    reveal_strlit(" ");
    reveal_strlit("\u{2591}");
    reveal_strlit("\u{2581}");
    reveal_strlit("\u{2582}");
    reveal_strlit("\u{2583}");
    reveal_strlit("\u{2584}");
    reveal_strlit("\u{2585}");
    reveal_strlit("\u{2586}");
    reveal_strlit("\u{2587}");
    reveal_strlit("\u{2588}");
    assert(" "@[0] == ' ');
    assert("\u{2591}"@[0] != ' ' && "\u{2581}"@[0] != ' ' && "\u{2582}"@[0] != ' '
        && "\u{2583}"@[0] != ' ' && "\u{2584}"@[0] != ' ' && "\u{2585}"@[0] != ' '
        && "\u{2586}"@[0] != ' ' && "\u{2587}"@[0] != ' ' && "\u{2588}"@[0] != ' ');
}

} // verus!
