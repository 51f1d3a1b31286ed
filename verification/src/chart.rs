//! The styles in which hourly activity can be charted.

use vstd::prelude::*;

verus! {

/// How hourly activity is charted.
#[derive(Debug, Clone, Copy, PartialEq, Eq, Structural)]
pub enum ChartStyle {
    /// One shaded cell per hour.
    Heat,
    /// One rising column per hour.
    Bars,
}

/// The style that comes after another.
pub open spec fn next_style(style: ChartStyle) -> ChartStyle {
    match style {
        ChartStyle::Heat => ChartStyle::Bars,
        ChartStyle::Bars => ChartStyle::Heat,
    }
}

impl ChartStyle {
    /// The style after this one; the last is followed by the first.
    pub fn next(self) -> (r: ChartStyle)
        ensures
            r == next_style(self),
    {
        match self {
            ChartStyle::Heat => ChartStyle::Bars,
            ChartStyle::Bars => ChartStyle::Heat,
        }
    }
}

impl Default for ChartStyle {
    fn default() -> (r: ChartStyle)
        ensures
            r == ChartStyle::Heat,
    {
        ChartStyle::Heat
    }
}

/// Cycling through the styles comes back to where it began.
pub proof fn styles_cycle(style: ChartStyle)
    ensures
        next_style(next_style(style)) == style,
        next_style(style) != style,
{
}

} // verus!
