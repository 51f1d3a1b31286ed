//! The saved preferences.

use vstd::prelude::*;

use crate::chart::ChartStyle;
use crate::theme::Theme;

verus! {

/// Preferences of the live feed.
#[derive(Debug, Clone, Copy, PartialEq, Eq, Structural)]
pub struct FeedConfig {
    /// Whether the feed may use the network.
    pub enabled: bool,
}

impl Default for FeedConfig {
    fn default() -> (r: FeedConfig)
        ensures
            r.enabled,
    {
        FeedConfig { enabled: true }
    }
}

/// All preferences.
#[derive(Debug, Clone, Copy, PartialEq, Eq, Structural)]
pub struct Config {
    pub feed: FeedConfig,
    pub theme: Theme,
    pub chart_style: ChartStyle,
}

impl Default for Config {
    fn default() -> (r: Config)
        ensures
            r == (Config {
                feed: FeedConfig { enabled: true },
                theme: Theme::Auto,
                chart_style: ChartStyle::Heat,
            }),
    {
        Config {
            feed: FeedConfig { enabled: true },
            theme: Theme::Auto,
            chart_style: ChartStyle::Heat,
        }
    }
}

} // verus!
