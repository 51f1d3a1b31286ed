//! Where the parts of the dashboard go.

use vstd::prelude::*;

use crate::render::scene::{Constraint, Rect};

verus! {

/// Which way an area is split.
#[derive(Debug, Clone, Copy, PartialEq, Eq, Structural)]
pub enum Direction {
    /// Parts side by side.
    Horizontal,
    /// Parts above one another.
    Vertical,
}

/// Where an area starts along a direction.
pub open spec fn start_of(area: Rect, direction: Direction) -> int {
    match direction {
        Direction::Horizontal => area.x as int,
        Direction::Vertical => area.y as int,
    }
}

/// How long an area is along a direction.
pub open spec fn length_of(area: Rect, direction: Direction) -> int {
    match direction {
        Direction::Horizontal => area.width as int,
        Direction::Vertical => area.height as int,
    }
}

/// Whether an area ends within the canvas's limits.
pub open spec fn on_canvas(area: Rect) -> bool {
    area.x + area.width <= u16::MAX && area.y + area.height <= u16::MAX
}

/// Whether a part lies in an area and reaches across it.
pub open spec fn is_slice(part: Rect, area: Rect, direction: Direction) -> bool {
    &&& match direction {
        Direction::Horizontal => part.y == area.y && part.height == area.height,
        Direction::Vertical => part.x == area.x && part.width == area.width,
    }
    &&& length_of(part, direction) <= length_of(area, direction)
    &&& on_canvas(area) ==> {
        &&& start_of(area, direction) <= start_of(part, direction)
        &&& start_of(part, direction) + length_of(part, direction) <= start_of(area, direction)
            + length_of(area, direction)
    }
}

/// Whether every part is a slice of an area.
pub open spec fn are_slices(parts: Seq<Rect>, area: Rect, direction: Direction) -> bool {
    forall|i: int| 0 <= i < parts.len() ==> is_slice(#[trigger] parts[i], area, direction)
}

/// The cells that the first `k` lengths ask for.
pub open spec fn asked_for(sizes: Seq<Constraint>, k: int) -> int
    decreases k,
{
    if k <= 0 {
        0
    } else {
        asked_for(sizes, k - 1) + match sizes[k - 1] {
            Constraint::Length(n) => n as int,
            _ => 0,
        }
    }
}

/// Whether all sizes but the one at `open` are lengths, that one takes what they
/// leave, and together they fit an area. Where `open` is past the end, all are
/// lengths.
pub open spec fn is_stack(sizes: Seq<Constraint>, open: int, area: Rect, direction: Direction) -> bool {
    &&& 0 <= open <= sizes.len()
    &&& open < sizes.len() ==> sizes[open] == Constraint::Min(0)
    &&& forall|i: int| 0 <= i < sizes.len() && i != open ==> #[trigger] sizes[i] is Length
    &&& asked_for(sizes, sizes.len() as int) <= length_of(area, direction)
    &&& on_canvas(area)
}

/// Whether the parts of a stack follow one another from the start of an area,
/// each as long as it asked for, the one at `open` as long as the others leave.
pub open spec fn is_stacked(
    parts: Seq<Rect>,
    sizes: Seq<Constraint>,
    open: int,
    area: Rect,
    direction: Direction,
) -> bool {
    let rest = length_of(area, direction) - asked_for(sizes, sizes.len() as int);
    forall|i: int|
        #![trigger parts[i]]
        0 <= i < parts.len() ==> {
            &&& start_of(parts[i], direction) == start_of(area, direction) + asked_for(sizes, i)
                + if open < i {
                rest
            } else {
                0
            }
            &&& length_of(parts[i], direction) == match sizes[i] {
                Constraint::Length(n) => n as int,
                _ => rest,
            }
        }
}

/// Whether a few parts with some spacing between them have room in an area.
pub open spec fn has_room(count: int, spacing: u16, area: Rect, direction: Direction) -> bool {
    &&& 0 < count <= 8
    &&& spacing <= i16::MAX
    &&& (count - 1) * spacing <= length_of(area, direction)
    &&& on_canvas(area)
}

/// Whether parts follow one another from the start of an area, with some spacing
/// between each two.
pub open spec fn is_spaced(parts: Seq<Rect>, spacing: u16, area: Rect, direction: Direction) -> bool {
    &&& start_of(parts[0], direction) == start_of(area, direction)
    &&& forall|i: int|
        #![trigger parts[i]]
        0 < i < parts.len() ==> start_of(parts[i], direction) == start_of(parts[i - 1], direction)
            + length_of(parts[i - 1], direction) + spacing
}

/// Whether two sizes are percentages of at most a hundred in all.
pub open spec fn are_percentages(sizes: Seq<Constraint>) -> bool {
    &&& sizes[0] is Percentage && sizes[1] is Percentage
    &&& sizes[0]->Percentage_0 + sizes[1]->Percentage_0 <= 100
}

/// Whether each part has its percentage of an area, but for the cells that the
/// spacing takes and one for rounding.
pub open spec fn are_shares(
    parts: Seq<Rect>,
    sizes: Seq<Constraint>,
    spacing: u16,
    area: Rect,
    direction: Direction,
) -> bool {
    forall|i: int|
        #![trigger parts[i]]
        0 <= i < parts.len() ==> is_share(
            parts[i],
            sizes[i]->Percentage_0,
            (parts.len() - 1) * spacing + 1,
            area,
            direction,
        )
}

/// Whether a part has a percentage of an area, give or take some cells.
pub open spec fn is_share(
    part: Rect,
    percent: u16,
    cells: int,
    area: Rect,
    direction: Direction,
) -> bool {
    let off = length_of(part, direction) * 100 - percent * length_of(area, direction);
    -100 * cells <= off <= 100 * cells
}

/// `ratatui::layout::Layout::split`: one part per constraint, each as high or as
/// wide as the area across the direction of the split, and within it along that
/// direction. A few parts follow one another from the start of the area with the
/// spacing between them. Without spacing, lengths that fit are given as they were
/// asked for, and a single `Min(0)` takes what they leave. Two percentages of at
/// most a hundred in all are given, but for what the spacing and rounding take. In
/// every other case the solver behind it weighs the constraints against each
/// other and walks hash maps whose order differs from process to process, so how
/// the cells are shared out is not said.
#[verifier::external_body]
fn solve(area: Rect, direction: Direction, sizes: &Vec<Constraint>, spacing: u16) -> (r: Vec<Rect>)
    ensures
        r@.len() == sizes@.len(),
        are_slices(r@, area, direction),
        has_room(sizes@.len() as int, spacing, area, direction) ==> is_spaced(
            r@,
            spacing,
            area,
            direction,
        ),
        sizes@.len() == 2 && has_room(2, spacing, area, direction) && are_percentages(sizes@)
            ==> are_shares(r@, sizes@, spacing, area, direction),
        forall|open: int|
            spacing == 0 && #[trigger] is_stack(sizes@, open, area, direction) ==> is_stacked(
                r@,
                sizes@,
                open,
                area,
                direction,
            ),
{
    let sizes = sizes.iter().map(|c| match *c {
        Constraint::Length(n) => ratatui::layout::Constraint::Length(n),
        Constraint::Min(n) => ratatui::layout::Constraint::Min(n),
        Constraint::Percentage(n) => ratatui::layout::Constraint::Percentage(n),
    });
    let layout = match direction {
        Direction::Horizontal => ratatui::layout::Layout::horizontal(sizes),
        Direction::Vertical => ratatui::layout::Layout::vertical(sizes),
    };
    let Rect { x, y, width, height } = area;
    let parts = layout.spacing(spacing).split(ratatui::layout::Rect { x, y, width, height });
    parts.iter().map(|p| Rect { x: p.x, y: p.y, width: p.width, height: p.height }).collect()
}

/// Two sizes.
pub open spec fn two(first: Constraint, second: Constraint) -> Seq<Constraint> {
    seq![first, second]
}

/// Three sizes.
pub open spec fn three(first: Constraint, second: Constraint, third: Constraint) -> Seq<Constraint> {
    seq![first, second, third]
}

/// An area split in two.
pub fn split_two(
    area: Rect,
    direction: Direction,
    first: Constraint,
    second: Constraint,
    spacing: u16,
) -> (r: (Rect, Rect))
    ensures
        is_slice(r.0, area, direction),
        is_slice(r.1, area, direction),
        forall|open: int|
            spacing == 0 && #[trigger] is_stack(two(first, second), open, area, direction)
                ==> is_stacked(seq![r.0, r.1], two(first, second), open, area, direction),
        has_room(2, spacing, area, direction) ==> {
            &&& start_of(r.0, direction) == start_of(area, direction)
            &&& start_of(r.1, direction) == start_of(r.0, direction) + length_of(r.0, direction)
                + spacing
        },
        has_room(2, spacing, area, direction) && first is Percentage && second is Percentage
            && first->Percentage_0 + second->Percentage_0 <= 100 ==> {
            &&& is_share(r.0, first->Percentage_0, spacing + 1, area, direction)
            &&& is_share(r.1, second->Percentage_0, spacing + 1, area, direction)
        },
{
    let sizes: Vec<Constraint> = vec![first, second];
    let parts = solve(area, direction, &sizes, spacing);
    proof {
        assert(sizes@ =~= two(first, second));
        assert(parts@ =~= seq![parts@[0], parts@[1]]);
        assert(parts@[1 - 1] == parts@[0]);
    }
    (parts[0], parts[1])
}

/// An area split in three, from the top down.
pub fn split_three(area: Rect, first: Constraint, second: Constraint, third: Constraint) -> (r: (
    Rect,
    Rect,
    Rect,
))
    ensures
        is_slice(r.0, area, Direction::Vertical),
        is_slice(r.1, area, Direction::Vertical),
        is_slice(r.2, area, Direction::Vertical),
        forall|open: int| #[trigger]
            is_stack(three(first, second, third), open, area, Direction::Vertical) ==> is_stacked(
                seq![r.0, r.1, r.2],
                three(first, second, third),
                open,
                area,
                Direction::Vertical,
            ),
        on_canvas(area) ==> {
            &&& r.0.y == area.y
            &&& r.1.y == r.0.y + r.0.height
            &&& r.2.y == r.1.y + r.1.height
        },
{
    let sizes: Vec<Constraint> = vec![first, second, third];
    let parts = solve(area, Direction::Vertical, &sizes, 0);
    proof {
        assert(sizes@ =~= three(first, second, third));
        assert(parts@ =~= seq![parts@[0], parts@[1], parts@[2]]);
        if on_canvas(area) {
            assert(has_room(3, 0, area, Direction::Vertical));
            assert(parts@[1 - 1] == parts@[0] && parts@[2 - 1] == parts@[1]);
        }
    }
    (parts[0], parts[1], parts[2])
}

/// A coordinate, held at the canvas's limit.
pub open spec fn held(n: int) -> u16 {
    if n > u16::MAX {
        u16::MAX
    } else {
        n as u16
    }
}

/// A length that other cells were taken from.
pub open spec fn less(n: u16, taken: int) -> u16 {
    if n <= taken {
        0
    } else {
        (n - taken) as u16
    }
}

/// What a frame leaves of an area: a border of one cell on every side, and one
/// more cell of padding to the left and to the right.
pub open spec fn inside_frame(area: Rect) -> Rect {
    let right = held(area.x + area.width);
    let bottom = held(area.y + area.height);
    let x = held(area.x + 1);
    let y = held(area.y + 1);
    Rect {
        x: held(
            (if x < right {
                x
            } else {
                right
            }) + 1,
        ),
        y: if y < bottom {
            y
        } else {
            bottom
        },
        width: less(area.width, 4),
        height: less(area.height, 2),
    }
}

fn hold(n: u32) -> (r: u16)
    ensures
        r == held(n as int),
{
    if n > 65_535 {
        65_535
    } else {
        n as u16
    }
}

fn take_from(n: u16, taken: u16) -> (r: u16)
    ensures
        r == less(n, taken as int),
{
    if n <= taken {
        0
    } else {
        n - taken
    }
}

/// The area inside a frame.
pub fn frame_inner(area: Rect) -> (r: Rect)
    ensures
        r == inside_frame(area),
        on_canvas(area) ==> on_canvas(r),
{
    let right: u16 = hold(area.x as u32 + area.width as u32);
    let bottom: u16 = hold(area.y as u32 + area.height as u32);
    let x: u16 = hold(area.x as u32 + 1);
    let y: u16 = hold(area.y as u32 + 1);
    let left: u16 = if x < right {
        x
    } else {
        right
    };
    Rect {
        x: hold(left as u32 + 1),
        y: if y < bottom {
            y
        } else {
            bottom
        },
        width: take_from(area.width, 4),
        height: take_from(area.height, 2),
    }
}

/// The smaller of two lengths.
pub open spec fn at_most(n: u16, limit: u16) -> u16 {
    if n < limit {
        n
    } else {
        limit
    }
}

/// The area of a size in the middle of another, no larger than it.
pub open spec fn in_the_middle(area: Rect, w: u16, h: u16) -> Rect {
    let width = at_most(w, area.width);
    let height = at_most(h, area.height);
    Rect {
        x: (area.x + (area.width - width) / 2) as u16,
        y: (area.y + (area.height - height) / 2) as u16,
        width,
        height,
    }
}

/// A centered rect of the given size, clamped to `area`.
pub fn centered(area: Rect, w: u16, h: u16) -> (r: Rect)
    requires
        on_canvas(area),
    ensures
        r == in_the_middle(area, w, h),
{
    let width: u16 = if w < area.width {
        w
    } else {
        area.width
    };
    let height: u16 = if h < area.height {
        h
    } else {
        area.height
    };
    Rect {
        x: area.x + (area.width - width) / 2,
        y: area.y + (area.height - height) / 2,
        width,
        height,
    }
}

/// A centered area lies within the other, and is centered: what is left over on
/// the two sides differs by at most one cell.
pub proof fn centering_stays_within(area: Rect, w: u16, h: u16)
    requires
        on_canvas(area),
    ensures
        ({
            let r = in_the_middle(area, w, h);
            &&& area.x <= r.x && r.x + r.width <= area.x + area.width
            &&& area.y <= r.y && r.y + r.height <= area.y + area.height
            &&& 0 <= (area.x + area.width - r.x - r.width) - (r.x - area.x) <= 1
            &&& 0 <= (area.y + area.height - r.y - r.height) - (r.y - area.y) <= 1
            &&& w <= area.width ==> r.width == w
            &&& h <= area.height ==> r.height == h
        }),
{
}

// ---- the panes --------------------------------------------------------------

/// A section: its label line and the body beneath it.
#[derive(Debug, Clone, Copy, PartialEq, Eq, Structural)]
pub struct Section {
    pub area: Rect,
    pub head: Rect,
    pub body: Rect,
}

/// Where each part of the dashboard goes.
#[derive(Debug, Clone, Copy, PartialEq, Eq, Structural)]
pub struct Panes {
    pub now_playing: Section,
    pub totals: Section,
    pub activity: Section,
    /// The activity chart and its legend, where it has one.
    pub chart: Rect,
    pub legend: Rect,
    pub leaderboard: Section,
    pub recent: Section,
}

/// Whether the parts of a section are slices of it, and where there is room one
/// line for the label and the rest for the body.
pub open spec fn is_section(s: Section) -> bool {
    &&& is_slice(s.head, s.area, Direction::Vertical)
    &&& is_slice(s.body, s.area, Direction::Vertical)
    &&& on_canvas(s.area) && s.area.height >= 1 ==> {
        &&& s.head.y == s.area.y && s.head.height == 1
        &&& s.body.y == s.area.y + 1 && s.body.height == s.area.height - 1
    }
}

/// The parts of a stack of two of which the second takes the rest.
proof fn lemma_stack_two(area: Rect, n: u16, first: Rect, second: Rect)
    requires
        on_canvas(area),
        n <= area.height,
        forall|open: int| #[trigger]
            is_stack(
                two(Constraint::Length(n), Constraint::Min(0)),
                open,
                area,
                Direction::Vertical,
            ) ==> is_stacked(
                seq![first, second],
                two(Constraint::Length(n), Constraint::Min(0)),
                open,
                area,
                Direction::Vertical,
            ),
    ensures
        first.y == area.y,
        first.height == n,
        second.y == area.y + n,
        second.height == area.height - n,
{
    let sizes = two(Constraint::Length(n), Constraint::Min(0));
    reveal_with_fuel(asked_for, 3);
    assert(asked_for(sizes, 2) == n);
    assert(is_stack(sizes, 1, area, Direction::Vertical));
    let parts = seq![first, second];
    assert(parts[0] == first && parts[1] == second);
}

/// Whether an area lies within another.
pub open spec fn is_within(part: Rect, area: Rect) -> bool {
    &&& area.x <= part.x && part.x + part.width <= area.x + area.width
    &&& area.y <= part.y && part.y + part.height <= area.y + area.height
}

/// Whether a chart fills a body but for its last row, and the legend that row.
pub open spec fn is_chart(chart: Rect, legend: Rect, body: Rect) -> bool {
    &&& is_slice(chart, body, Direction::Vertical)
    &&& is_slice(legend, body, Direction::Vertical)
    &&& on_canvas(body) && body.height >= 1 ==> {
        &&& chart.y == body.y && chart.height == body.height - 1
        &&& legend.y == body.y + body.height - 1 && legend.height == 1
    }
}

/// Whether the two columns stand side by side in an area with the gap between
/// them, each of its percentage.
pub open spec fn are_columns(left: Rect, right: Rect, inner: Rect) -> bool {
    &&& is_slice(left, inner, Direction::Horizontal)
    &&& is_slice(right, inner, Direction::Horizontal)
    &&& on_canvas(inner) && inner.width >= COLUMN_GAP ==> {
        &&& left.x == inner.x
        &&& right.x == left.x + left.width + COLUMN_GAP
        &&& is_share(left, LEFT_PERCENT, COLUMN_GAP + 1, inner, Direction::Horizontal)
        &&& is_share(right, RIGHT_PERCENT, COLUMN_GAP + 1, inner, Direction::Horizontal)
    }
}

/// The areas of the left column from the top down: what is playing takes seven
/// rows where there is room, the totals what is left.
pub open spec fn is_left_column(now_playing: Rect, totals: Rect, left: Rect) -> bool {
    &&& is_slice(now_playing, left, Direction::Vertical)
    &&& is_slice(totals, left, Direction::Vertical)
    &&& on_canvas(left) ==> {
        &&& now_playing.y == left.y
        &&& totals.y == now_playing.y + now_playing.height
    }
    &&& on_canvas(left) && left.height >= 7 ==> {
        &&& now_playing.height == 7
        &&& totals.height == left.height - 7
    }
}

/// The areas of the right column from the top down: where there is room the
/// activity takes seven rows, the leaderboard eleven, the recent ads what is left.
pub open spec fn is_right_column(
    activity: Rect,
    leaderboard: Rect,
    recent: Rect,
    right: Rect,
) -> bool {
    &&& is_slice(activity, right, Direction::Vertical)
    &&& is_slice(leaderboard, right, Direction::Vertical)
    &&& is_slice(recent, right, Direction::Vertical)
    &&& on_canvas(right) ==> {
        &&& activity.y == right.y
        &&& leaderboard.y == activity.y + activity.height
        &&& recent.y == leaderboard.y + leaderboard.height
    }
    &&& on_canvas(right) && right.height >= 18 ==> {
        &&& activity.height == 7
        &&& leaderboard.height == 11
        &&& recent.height == right.height - 18
    }
}

/// The column that a section stands in, of the height of an area.
pub open spec fn column_of(s: Section, inner: Rect) -> Rect {
    Rect { x: s.area.x, y: inner.y, width: s.area.width, height: inner.height }
}

/// Whether the sections stand one above the other in two columns of an area.
pub open spec fn panes_fit(p: Panes, inner: Rect) -> bool {
    let left = column_of(p.now_playing, inner);
    let right = column_of(p.activity, inner);
    &&& is_section(p.now_playing) && is_section(p.totals) && is_section(p.activity)
    &&& is_section(p.leaderboard) && is_section(p.recent)
    &&& is_chart(p.chart, p.legend, p.activity.body)
    &&& are_columns(left, right, inner)
    &&& is_left_column(p.now_playing.area, p.totals.area, left)
    &&& is_right_column(p.activity.area, p.leaderboard.area, p.recent.area, right)
}

/// On a canvas every section lies within the area that it was laid out in, the
/// columns do not overlap, and no section overlaps the one beneath it. With
/// eighteen rows or more each stands at its own row.
pub proof fn panes_keep_apart(p: Panes, inner: Rect)
    requires
        panes_fit(p, inner),
        on_canvas(inner),
        inner.width >= COLUMN_GAP,
    ensures
        is_within(p.now_playing.area, inner) && is_within(p.totals.area, inner),
        is_within(p.activity.area, inner) && is_within(p.leaderboard.area, inner),
        is_within(p.recent.area, inner),
        p.now_playing.area.x + p.now_playing.area.width <= p.activity.area.x,
        p.now_playing.area.y + p.now_playing.area.height <= p.totals.area.y,
        p.activity.area.y + p.activity.area.height <= p.leaderboard.area.y,
        p.leaderboard.area.y + p.leaderboard.area.height <= p.recent.area.y,
        inner.height >= 18 ==> {
            &&& p.now_playing.area.y == p.activity.area.y == inner.y
            &&& p.totals.area.y == p.leaderboard.area.y == inner.y + 7
            &&& p.recent.area.y == inner.y + 18
        },
{
}

// ---- the sizes --------------------------------------------------------------

/// The cells between the two columns.
pub const COLUMN_GAP: u16 = 1;

/// The left column's share of the width, in percent.
pub const LEFT_PERCENT: u16 = 48;

/// The right column's share of the width, in percent.
pub const RIGHT_PERCENT: u16 = 52;

/// The widths of the two columns and the gap between them.
pub fn column_sizes() -> (r: (Constraint, Constraint, u16))
    ensures
        r == (Constraint::Percentage(48), Constraint::Percentage(52), 1u16),
{
    (Constraint::Percentage(LEFT_PERCENT), Constraint::Percentage(RIGHT_PERCENT), COLUMN_GAP)
}

/// The heights of the left column's sections.
pub fn left_sizes() -> (r: (Constraint, Constraint))
    ensures
        r == (Constraint::Length(7), Constraint::Min(0)),
{
    (Constraint::Length(7), Constraint::Min(0))
}

/// The heights of the right column's sections.
pub fn right_sizes() -> (r: (Constraint, Constraint, Constraint))
    ensures
        r == (Constraint::Length(7), Constraint::Length(11), Constraint::Min(0)),
{
    (Constraint::Length(7), Constraint::Length(11), Constraint::Min(0))
}

fn section(area: Rect) -> (r: Section)
    ensures
        r.area == area,
        is_section(r),
{
    let (head, body) = split_two(
        area,
        Direction::Vertical,
        Constraint::Length(1),
        Constraint::Min(0),
        0,
    );
    proof {
        if on_canvas(area) && area.height >= 1 {
            lemma_stack_two(area, 1, head, body);
        }
    }
    Section { area, head, body }
}

/// Lay the dashboard out inside its frame.
pub fn lay_out(inner: Rect) -> (r: Panes)
    ensures
        panes_fit(r, inner),
{
    let (first, second, gap) = column_sizes();
    let (left, right) = split_two(inner, Direction::Horizontal, first, second, gap);
    let (first, second) = left_sizes();
    let (now_playing, totals) = split_two(left, Direction::Vertical, first, second, 0);
    let (first, second, third) = right_sizes();
    let (activity, leaderboard, recent) = split_three(right, first, second, third);
    proof {
        if on_canvas(inner) && inner.width >= COLUMN_GAP {
            assert(has_room(2, COLUMN_GAP, inner, Direction::Horizontal));
        }
        if on_canvas(left) {
            assert(has_room(2, 0, left, Direction::Vertical));
            if left.height >= 7 {
                lemma_stack_two(left, 7, now_playing, totals);
            }
        }
        if on_canvas(right) && right.height >= 18 {
            let sizes = three(Constraint::Length(7), Constraint::Length(11), Constraint::Min(0));
            reveal_with_fuel(asked_for, 4);
            assert(asked_for(sizes, 3) == 18);
            assert(is_stack(sizes, 2, right, Direction::Vertical));
            let parts = seq![activity, leaderboard, recent];
            assert(parts[0] == activity && parts[1] == leaderboard && parts[2] == recent);
        }
    }
    let activity = section(activity);
    let (chart, legend) = split_two(
        activity.body,
        Direction::Vertical,
        Constraint::Min(0),
        Constraint::Length(1),
        0,
    );
    proof {
        let body = activity.body;
        if on_canvas(body) && body.height >= 1 {
            let sizes = two(Constraint::Min(0), Constraint::Length(1));
            reveal_with_fuel(asked_for, 3);
            assert(asked_for(sizes, 2) == 1);
            assert(asked_for(sizes, 1) == 0);
            assert(is_stack(sizes, 0, body, Direction::Vertical));
            let parts = seq![chart, legend];
            assert(parts[0] == chart && parts[1] == legend);
        }
    }
    let r = Panes {
        now_playing: section(now_playing),
        totals: section(totals),
        activity,
        chart,
        legend,
        leaderboard: section(leaderboard),
        recent: section(recent),
    };
    assert(column_of(r.now_playing, inner) == left);
    assert(column_of(r.activity, inner) == right);
    r
}

/// The areas of the theme picker's options and of the line of help beneath them,
/// inside its frame.
pub fn lay_out_picker(inner: Rect, options: u16) -> (r: (Rect, Rect))
    ensures
        is_slice(r.0, inner, Direction::Vertical),
        is_slice(r.1, inner, Direction::Vertical),
        on_canvas(inner) && options + 1 <= inner.height ==> {
            &&& r.0.y == inner.y && r.0.height == options
            &&& r.1.y == inner.y + options && r.1.height == 1
        },
{
    let (list, help) = split_two(
        inner,
        Direction::Vertical,
        Constraint::Length(options),
        Constraint::Length(1),
        0,
    );
    proof {
        if on_canvas(inner) && options + 1 <= inner.height {
            let sizes = two(Constraint::Length(options), Constraint::Length(1));
            reveal_with_fuel(asked_for, 3);
            assert(asked_for(sizes, 2) == options + 1);
            assert(is_stack(sizes, 2, inner, Direction::Vertical));
            let parts = seq![list, help];
            assert(parts[0] == list && parts[1] == help);
        }
    }
    (list, help)
}

/// A frame takes a cell above and below and two on either side, wherever the area
/// has that many.
pub proof fn frames_leave_the_middle(area: Rect)
    requires
        on_canvas(area),
        area.width >= 4,
        area.height >= 2,
    ensures
        ({
            let r = inside_frame(area);
            &&& r.x == area.x + 2 && r.x + r.width + 2 == area.x + area.width
            &&& r.y == area.y + 1 && r.y + r.height + 1 == area.y + area.height
        }),
{
}

} // verus!
