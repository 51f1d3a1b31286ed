//! One compact line for a CLI status line.
//!
//! It keeps the ad front and center (prefix, hyperlink, control-character
//! stripping), appends the archive's own stats, and, when there is room, a single
//! status alert drawn from the cached feed (a service bulletin, or a new
//! extension version). The ad is never suppressed or shortened below
//! readability: showing it is what earns.
//!
//! The line is on the host's hot path, so nothing here needs the network: the
//! alert is read from the local cache, and with a cold cache there is simply no
//! alert.

use vstd::prelude::*;

use crate::archive::Stats;
use crate::feed::{headline_of, item_views, latest_version_of, FeedItemView, FeedSnapshot};
use crate::model::{CliAd, CliAdView};
use crate::numbers::{int_text, int_text_is_inert, parse_u64, signed_text, unsigned_value};
use crate::sources::{ad_status, status_of, AdStatus, LiveState};
use crate::text::{
    char_count, chars_of, concat, control, is_control, is_inert, opt_str, replace_first, replace_once,
    starts_with, text_between,
};
use crate::util::{
    rank_versions, truncate, truncated, truncating_keeps_inert, version_rank, Rank,
};

verus! {

/// Freshness window of the current ad.
pub const FRESH_MS: i64 = 600_000;

/// Visible separator between segments.
pub const SEP: &'static str = "  \u{b7}  ";

/// The columns of the separator.
pub const SEP_COLS: usize = 5;

/// The ad keeps at least this many columns even on narrow terminals.
pub const MIN_AD_COLS: usize = 16;

/// A feed alert is only shown when the ad still has at least this much room, so
/// the ad (which earns) always wins the width budget.
pub const AD_FLOOR_FOR_ALERT: usize = 24;

/// The longest a feed alert may grow before it is truncated.
pub const MAX_ALERT_COLS: usize = 38;

/// The width of the line where nothing says otherwise.
pub const DEFAULT_WIDTH: usize = 120;

/// A one-line status alert distilled from the cached feed.
#[derive(Debug)]
pub struct Alert {
    pub text: String,
    /// True for an urgent alert (a service bulletin), which is colored red.
    pub urgent: bool,
}

/// What an alert holds.
pub struct AlertView {
    pub text: Seq<char>,
    pub urgent: bool,
}

impl View for Alert {
    type V = AlertView;

    open spec fn view(&self) -> AlertView {
        AlertView { text: self.text@, urgent: self.urgent }
    }
}

// ---- the alert --------------------------------------------------------------

/// The alert of a feed: an active bulletin first, otherwise a version newer than
/// the installed one.
pub open spec fn alert_of(items: Seq<FeedItemView>, installed: Option<Seq<char>>) -> Option<
    AlertView,
> {
    match headline_of(items) {
        Some(headline) => Some(AlertView { text: "\u{25b2} "@ + headline, urgent: true }),
        None => match (installed, latest_version_of(items)) {
            (Some(have), Some(latest)) => if version_rank(have, latest) == Rank::Older {
                Some(AlertView { text: "\u{2191} ext v"@ + latest, urgent: false })
            } else {
                None
            },
            _ => None,
        },
    }
}

/// Distill a one-line alert from the cached feed: an active service bulletin
/// first (urgent), otherwise a newer extension version than the one installed.
pub fn feed_alert(snapshot: &FeedSnapshot, installed: Option<&str>) -> (r: Option<Alert>)
    ensures
        match r {
            Some(alert) => alert_of(item_views(snapshot.items@), opt_str(installed)) == Some(
                alert@,
            ),
            None => alert_of(item_views(snapshot.items@), opt_str(installed)) is None,
        },
{
    if let Some(headline) = snapshot.bulletin_headline() {
        return Some(Alert { text: concat("\u{25b2} ", headline.as_str()), urgent: true });
    }
    match (installed, snapshot.latest_version()) {
        (Some(have), Some(latest)) => {
            match rank_versions(have, latest.as_str()) {
                Rank::Older => Some(
                    Alert { text: concat("\u{2191} ext v", latest.as_str()), urgent: false },
                ),
                _ => None,
            }
        },
        _ => None,
    }
}

/// The alert segment.
pub open spec fn alert_segment(text: Seq<char>, urgent: bool, color: bool) -> Seq<char> {
    if color {
        SEP@ + "\x1b["@ + if urgent {
            "31"@
        } else {
            "33"@
        } + "m"@ + text + "\x1b[0m"@
    } else {
        SEP@ + text
    }
}

/// The alert segment, with its leading separator, colored when enabled.
pub fn styled_alert(text: &str, urgent: bool, color: bool) -> (r: String)
    ensures
        r@ == alert_segment(text@, urgent, color),
{
    if color {
        let mut out = concat(SEP, "\x1b[");
        if urgent {
            out.push_str("31");
        } else {
            out.push_str("33");
        }
        out.push_str("m");
        out.push_str(text);
        out.push_str("\x1b[0m");
        out
    } else {
        concat(SEP, text)
    }
}

// ---- the ad -----------------------------------------------------------------

/// A text without its control characters.
pub open spec fn stripped(s: Seq<char>) -> Seq<char>
    decreases s.len(),
{
    if s.len() == 0 {
        Seq::empty()
    } else if is_control(s.last()) {
        stripped(s.drop_last())
    } else {
        stripped(s.drop_last()).push(s.last())
    }
}

/// Remove C0, DEL, and C1 control characters so ad-supplied text can never
/// emit its own terminal escapes.
pub fn strip_controls(s: &str) -> (r: String)
    ensures
        r@ == stripped(s@),
{
    let chars = chars_of(s);
    let mut kept: Vec<char> = Vec::new();
    let mut i: usize = 0;
    assert(chars@.take(0) =~= Seq::<char>::empty());
    while i < chars.len()
        invariant
            i <= chars@.len(),
            kept@ == stripped(chars@.take(i as int)),
        decreases chars@.len() - i,
    {
        proof {
            let next = chars@.take(i + 1);
            assert(next.drop_last() =~= chars@.take(i as int));
            assert(next.last() == chars@[i as int]);
        }
        if !control(chars[i]) {
            kept.push(chars[i]);
        }
        i = i + 1;
    }
    assert(chars@.take(i as int) =~= chars@);
    let n: usize = kept.len();
    assert(kept@.subrange(0, n as int) =~= kept@);
    text_between(&kept, 0, n)
}

/// The ad's segment before it is fitted to the line.
pub open spec fn ad_words(ad_text: Seq<char>) -> Seq<char> {
    "ad\u{b7} "@ + stripped(ad_text)
}

/// The ad's segment as shown: with color, an OSC 8 hyperlink to its URL.
pub open spec fn ad_segment(text: Seq<char>, url: Option<Seq<char>>, color: bool) -> Seq<char> {
    match url {
        Some(url) => if color {
            "\x1b]8;;"@ + stripped(url) + "\x1b\\"@ + text + "\x1b]8;;\x1b\\"@
        } else {
            text
        },
        None => text,
    }
}

fn styled_ad(text: String, url: &Option<String>, color: bool) -> (r: String)
    ensures
        r@ == ad_segment(text@, crate::text::opt_view(*url), color),
{
    match url {
        Some(url) => if color {
            let target = strip_controls(url.as_str());
            let mut out = concat("\x1b]8;;", target.as_str());
            out.push_str("\x1b\\");
            out.push_str(text.as_str());
            out.push_str("\x1b]8;;\x1b\\");
            out
        } else {
            text
        },
        None => text,
    }
}

// ---- the stats --------------------------------------------------------------

/// The dot of a status.
pub open spec fn dot_of(status: AdStatus) -> Seq<char> {
    match status {
        AdStatus::Live => "\u{25cf}"@,
        AdStatus::Paused => "\u{25cf}"@,
        _ => "\u{25cb}"@,
    }
}

/// The word of a status.
pub open spec fn word_of(status: AdStatus) -> Seq<char> {
    match status {
        AdStatus::Live => "live"@,
        AdStatus::Idle => "idle"@,
        AdStatus::Paused => "paused"@,
        AdStatus::InjectionOff => "ads off"@,
        AdStatus::SignedOut => "signed out"@,
    }
}

/// The stats segment without color.
pub open spec fn stats_words(stats: Option<Stats>, status: AdStatus) -> Seq<char> {
    match stats {
        Some(s) => "kb "@ + int_text(s.sightings_today as int) + " today \u{b7} "@ + int_text(
            s.advertisers as int,
        ) + " advs \u{b7} "@ + dot_of(status) + " "@ + word_of(status),
        None => "kb "@ + dot_of(status) + " "@ + word_of(status),
    }
}

/// The color code of a status.
pub open spec fn code_of(status: AdStatus) -> Seq<char> {
    match status {
        AdStatus::Live => "\x1b[32m"@,
        AdStatus::Paused => "\x1b[31m"@,
        _ => "\x1b[33m"@,
    }
}

/// The stats segment as shown: with color, its dot is colored.
pub open spec fn stats_segment(words: Seq<char>, status: AdStatus, color: bool) -> Seq<char> {
    if color {
        replace_first(words, dot_of(status), code_of(status) + dot_of(status) + "\x1b[0m"@)
    } else {
        words
    }
}

fn stats_text(stats: Option<&Stats>, status: AdStatus) -> (r: String)
    ensures
        r@ == stats_words(
            (match stats {
                Some(s) => Some(*s),
                None => None,
            }),
            status,
        ),
{
    let (dot, label) = marks(status);
    let mut out = "kb ".to_owned();
    if let Some(s) = stats {
        let today = signed_text(s.sightings_today);
        out.push_str(today.as_str());
        out.push_str(" today \u{b7} ");
        let advertisers = signed_text(s.advertisers);
        out.push_str(advertisers.as_str());
        out.push_str(" advs \u{b7} ");
    }
    out.push_str(dot);
    out.push_str(" ");
    out.push_str(label);
    out
}

fn marks(status: AdStatus) -> (r: (&'static str, &'static str))
    ensures
        r.0@ == dot_of(status),
        r.1@ == word_of(status),
{
    match status {
        AdStatus::Live => ("\u{25cf}", "live"),
        AdStatus::Idle => ("\u{25cb}", "idle"),
        AdStatus::Paused => ("\u{25cf}", "paused"),
        AdStatus::InjectionOff => ("\u{25cb}", "ads off"),
        AdStatus::SignedOut => ("\u{25cb}", "signed out"),
    }
}

fn styled_stats(words: &str, status: AdStatus, color: bool) -> (r: String)
    ensures
        r@ == stats_segment(words@, status, color),
{
    if color {
        let (dot, _label) = marks(status);
        let mut colored = match status {
            AdStatus::Live => "\x1b[32m".to_owned(),
            AdStatus::Paused => "\x1b[31m".to_owned(),
            _ => "\x1b[33m".to_owned(),
        };
        colored.push_str(dot);
        colored.push_str("\x1b[0m");
        replace_once(words, dot, colored.as_str())
    } else {
        words.to_owned()
    }
}

// ---- the line ---------------------------------------------------------------

/// What stands on the line, each segment as long as it shows.
pub struct LinePlan {
    pub ad: Option<Seq<char>>,
    pub stats: Seq<char>,
    pub alert: Option<Seq<char>>,
}

/// What is left of a width.
pub open spec fn left_of(width: int, used: int) -> int {
    if used <= width {
        width - used
    } else {
        0
    }
}

/// The columns that an ad may take: what is left, but never less than the
/// minimum.
pub open spec fn ad_budget(room: int) -> int {
    if room < MIN_AD_COLS {
        MIN_AD_COLS as int
    } else {
        room
    }
}

/// The width ladder: the ad and the stats are always on the line. The alert is
/// added only where the ad keeps comfortable room beside it and is whole there:
/// it is dropped before the ad is truncated.
pub open spec fn line_plan(
    ad: Option<Seq<char>>,
    stats: Seq<char>,
    alert: Option<Seq<char>>,
    width: int,
) -> LinePlan {
    let used = stats.len() + SEP_COLS;
    match (ad, alert) {
        (Some(ad), Some(alert)) => {
            let text = truncated(alert, MAX_ALERT_COLS as int);
            let room = left_of(width, used + SEP_COLS + text.len());
            if room >= AD_FLOOR_FOR_ALERT && ad.len() <= room {
                LinePlan { ad: Some(ad), stats, alert: Some(text) }
            } else {
                LinePlan {
                    ad: Some(truncated(ad, ad_budget(left_of(width, used)))),
                    stats,
                    alert: None,
                }
            }
        },
        (Some(ad), None) => LinePlan {
            ad: Some(truncated(ad, ad_budget(left_of(width, used)))),
            stats,
            alert: None,
        },
        (None, Some(alert)) => {
            let text = truncated(alert, MAX_ALERT_COLS as int);
            if used + text.len() <= width {
                LinePlan { ad: None, stats, alert: Some(text) }
            } else {
                LinePlan { ad: None, stats, alert: None }
            }
        },
        (None, None) => LinePlan { ad: None, stats, alert: None },
    }
}

/// A planned line as it is printed.
pub open spec fn drawn(
    plan: LinePlan,
    url: Option<Seq<char>>,
    status: AdStatus,
    urgent: bool,
    color: bool,
) -> Seq<char> {
    let stats = stats_segment(plan.stats, status, color);
    let front = match plan.ad {
        Some(ad) => ad_segment(ad, url, color) + SEP@ + stats,
        None => stats,
    };
    match plan.alert {
        Some(alert) => front + alert_segment(alert, urgent, color),
        None => front,
    }
}

/// The line of an ad, the stats, a status and an alert.
pub open spec fn line_of(
    ad: Option<CliAdView>,
    stats: Option<Stats>,
    status: AdStatus,
    width: int,
    color: bool,
    alert: Option<AlertView>,
) -> Seq<char> {
    let words = match ad {
        Some(ad) => Some(ad_words(ad.ad_text)),
        None => None,
    };
    let url = match ad {
        Some(ad) => ad.click_url,
        None => None,
    };
    let text = match alert {
        Some(alert) => Some(alert.text),
        None => None,
    };
    let urgent = match alert {
        Some(alert) => alert.urgent,
        None => false,
    };
    drawn(line_plan(words, stats_words(stats, status), text, width), url, status, urgent, color)
}

/// What an optional alert holds.
pub open spec fn opt_alert(alert: Option<&Alert>) -> Option<AlertView> {
    match alert {
        Some(alert) => Some(alert@),
        None => None,
    }
}

fn room_beside(width: usize, used: u128) -> (r: usize)
    ensures
        r == left_of(width as int, used as int),
{
    if used <= width as u128 {
        (width as u128 - used) as usize
    } else {
        0
    }
}

/// Build the line. `color` adds the status dot color, the OSC 8 hyperlink on the
/// ad, and the alert color (escapes take no columns). The width ladder is: keep
/// the ad and the stats; add the alert only when the ad still has comfortable
/// room; drop the alert before truncating the ad.
pub fn format_line(
    ad: Option<&CliAd>,
    stats: Option<&Stats>,
    status: AdStatus,
    width: usize,
    color: bool,
    alert: Option<&Alert>,
) -> (r: String)
    ensures
        r@ == line_of(
            crate::model::opt_ad(ad),
            (match stats {
                Some(s) => Some(*s),
                None => None,
            }),
            status,
            width as int,
            color,
            opt_alert(alert),
        ),
{
    let words = stats_text(stats, status);
    let shown = styled_stats(words.as_str(), status, color);
    let used: u128 = char_count(words.as_str()) as u128 + SEP_COLS as u128;

    let ad = match ad {
        Some(ad) => ad,
        None => {
            // No ad: stats, then the alert if it fits at all.
            if let Some(alert) = alert {
                let text = truncate(alert.text.as_str(), MAX_ALERT_COLS);
                let need: u128 = used + char_count(text.as_str()) as u128;
                if need <= width as u128 {
                    let tail = styled_alert(text.as_str(), alert.urgent, color);
                    return concat(shown.as_str(), tail.as_str());
                }
            }
            return shown;
        },
    };

    let bare = strip_controls(ad.ad_text.as_str());
    let whole = concat("ad\u{b7} ", bare.as_str());
    if let Some(alert) = alert {
        // The alert is shown only where the ad stays whole, with room to spare.
        let text = truncate(alert.text.as_str(), MAX_ALERT_COLS);
        let room: usize = room_beside(
            width,
            used + SEP_COLS as u128 + char_count(text.as_str()) as u128,
        );
        if room >= AD_FLOOR_FOR_ALERT && char_count(whole.as_str()) <= room {
            let mut line = styled_ad(whole, &ad.click_url, color);
            line.push_str(SEP);
            line.push_str(shown.as_str());
            let tail = styled_alert(text.as_str(), alert.urgent, color);
            line.push_str(tail.as_str());
            return line;
        }
    }
    let room: usize = room_beside(width, used);
    let budget: usize = if room < MIN_AD_COLS {
        MIN_AD_COLS
    } else {
        room
    };
    let text = truncate(whole.as_str(), budget);
    let mut line = styled_ad(text, &ad.click_url, color);
    line.push_str(SEP);
    line.push_str(shown.as_str());
    line
}

// ---- what goes on the line --------------------------------------------------

/// Whether an ad is fresh: at most the freshness window old.
pub open spec fn is_fresh(ts: i64, now_ms: i64) -> bool {
    now_ms - ts <= FRESH_MS
}

/// Whether there is an ad that is fresh.
pub fn ad_is_fresh(ad: Option<&CliAd>, now_ms: i64) -> (r: bool)
    ensures
        r == (match ad {
            Some(ad) => is_fresh(ad.ts, now_ms),
            None => false,
        }),
{
    match ad {
        Some(ad) => now_ms as i128 - ad.ts as i128 <= FRESH_MS as i128,
        None => false,
    }
}

/// The line for the current ad and state: a stale ad is not shown.
pub fn compose(
    ad: Option<&CliAd>,
    state: &LiveState,
    stats: Option<&Stats>,
    alert: Option<&Alert>,
    now_ms: i64,
    width: usize,
    plain: bool,
) -> (r: String)
    ensures
        ({
            let fresh = match ad {
                Some(ad) => is_fresh(ad.ts, now_ms),
                None => false,
            };
            r@ == line_of(
                if fresh {
                    crate::model::opt_ad(ad)
                } else {
                    None
                },
                (match stats {
                    Some(s) => Some(*s),
                    None => None,
                }),
                status_of(state@, fresh),
                width as int,
                !plain,
                opt_alert(alert),
            )
        }),
{
    let fresh = ad_is_fresh(ad, now_ms);
    let status = ad_status(state, fresh);
    let shown = if fresh {
        ad
    } else {
        None
    };
    format_line(shown, stats, status, width, !plain, alert)
}

/// The width of the line: what was asked for, otherwise what the terminal
/// reports, otherwise a default.
pub open spec fn width_of(asked: Option<u16>, columns: Option<Seq<char>>) -> int {
    match asked {
        Some(w) => w as int,
        None => match columns {
            Some(text) => match unsigned_value(text) {
                Some(n) => if n <= usize::MAX {
                    n as int
                } else {
                    DEFAULT_WIDTH as int
                },
                None => DEFAULT_WIDTH as int,
            },
            None => DEFAULT_WIDTH as int,
        },
    }
}

/// Choose the width of the line: `asked` first, then the text of the terminal's
/// column count, then a default.
pub fn line_width(asked: Option<u16>, columns: Option<&str>) -> (r: usize)
    ensures
        r == width_of(asked, opt_str(columns)),
{
    if let Some(w) = asked {
        return w as usize;
    }
    if let Some(text) = columns {
        if let Some(n) = parse_u64(text) {
            if n <= usize::MAX as u64 {
                return n as usize;
            }
        }
    }
    DEFAULT_WIDTH
}

// ---- what holds of every line -----------------------------------------------

/// With an ad, the alert shows only where the ad is whole and has comfortable
/// room: it is dropped before the ad loses a column. The ad is never cut below
/// its minimum, and the stats are always there.
pub proof fn the_alert_yields_to_the_ad(
    ad: Seq<char>,
    stats: Seq<char>,
    alert: Option<Seq<char>>,
    width: int,
)
    ensures
        ({
            let plan = line_plan(Some(ad), stats, alert, width);
            &&& plan.stats == stats
            &&& plan.ad is Some
            &&& plan.alert is Some ==> alert is Some && stats.len() + SEP_COLS
                + AD_FLOOR_FOR_ALERT + SEP_COLS + plan.alert->0.len() <= width
            &&& plan.alert is Some ==> plan.ad == Some(ad)
            &&& ad.len() <= MIN_AD_COLS ==> plan.ad == Some(ad)
            &&& ad.len() > MIN_AD_COLS ==> plan.ad->0.len() >= MIN_AD_COLS
        }),
{
}

/// A plain line fits its width wherever the stats leave the ad its minimum, and
/// without an ad wherever the stats fit alone.
pub proof fn plain_lines_fit(
    ad: Option<CliAdView>,
    stats: Option<Stats>,
    status: AdStatus,
    width: int,
    alert: Option<AlertView>,
)
    ensures
        ad is Some && stats_words(stats, status).len() + SEP_COLS + MIN_AD_COLS <= width ==> line_of(
            ad,
            stats,
            status,
            width,
            false,
            alert,
        ).len() <= width,
        ad is None && stats_words(stats, status).len() <= width ==> line_of(
            ad,
            stats,
            status,
            width,
            false,
            alert,
        ).len() <= width,
{
    reveal_strlit("  \u{b7}  ");
    assert(SEP@.len() == SEP_COLS);
}

/// Wherever there is an ad, a plain line begins with it: its prefix, and then its
/// text, whole or cut short.
pub proof fn the_ad_leads_the_line(
    ad: CliAdView,
    stats: Option<Stats>,
    status: AdStatus,
    width: int,
    alert: Option<AlertView>,
)
    ensures
        starts_with(line_of(Some(ad), stats, status, width, false, alert), "ad\u{b7} "@),
{
    reveal_strlit("ad\u{b7} ");
    let words = ad_words(ad.ad_text);
    let text = match alert {
        Some(alert) => Some(alert.text),
        None => None,
    };
    let plan = line_plan(Some(words), stats_words(stats, status), text, width);
    let line = line_of(Some(ad), stats, status, width, false, alert);
    let front = plan.ad->0;
    assert(line.take(front.len() as int) =~= front);
    assert(front.take(4) =~= words.take(4));
    assert(words.take(4) =~= "ad\u{b7} "@);
    assert(line.take(4) =~= front.take(4));
}

proof fn lemma_stripped(s: Seq<char>)
    ensures
        is_inert(stripped(s)),
    decreases s.len(),
{
    if s.len() > 0 {
        lemma_stripped(s.drop_last());
    }
}

proof fn lemma_stats_words(stats: Option<Stats>, status: AdStatus)
    ensures
        is_inert(stats_words(stats, status)),
{
    reveal_strlit("kb ");
    reveal_strlit(" today \u{b7} ");
    reveal_strlit(" advs \u{b7} ");
    reveal_strlit(" ");
    reveal_strlit("\u{25cf}");
    reveal_strlit("\u{25cb}");
    reveal_strlit("live");
    reveal_strlit("idle");
    reveal_strlit("paused");
    reveal_strlit("ads off");
    reveal_strlit("signed out");
    assert(is_inert("kb "@));
    assert(is_inert(" today \u{b7} "@));
    assert(is_inert(" advs \u{b7} "@));
    assert(is_inert(" "@));
    assert(is_inert(dot_of(status)));
    assert(is_inert(word_of(status)));
    let tail = dot_of(status) + " "@ + word_of(status);
    assert(is_inert(tail));
    match stats {
        Some(s) => {
            int_text_is_inert(s.sightings_today as int);
            int_text_is_inert(s.advertisers as int);
            let a = "kb "@ + int_text(s.sightings_today as int);
            assert(is_inert(a));
            let b = a + " today \u{b7} "@;
            assert(is_inert(b));
            let c = b + int_text(s.advertisers as int);
            assert(is_inert(c));
            let d = c + " advs \u{b7} "@;
            assert(is_inert(d));
            assert(stats_words(stats, status) =~= d + tail);
        },
        None => {
            assert(stats_words(stats, status) =~= "kb "@ + tail);
        },
    }
}

/// A plain line carries no control character, whatever the ad holds, as long as
/// the alert carries none.
pub proof fn plain_lines_are_inert(
    ad: Option<CliAdView>,
    stats: Option<Stats>,
    status: AdStatus,
    width: int,
    alert: Option<AlertView>,
)
    requires
        alert matches Some(a) ==> is_inert(a.text),
    ensures
        is_inert(line_of(ad, stats, status, width, false, alert)),
{
    reveal_strlit("  \u{b7}  ");
    reveal_strlit("ad\u{b7} ");
    assert(is_inert(SEP@));
    lemma_stats_words(stats, status);
    let words = match ad {
        Some(ad) => Some(ad_words(ad.ad_text)),
        None => None,
    };
    let text = match alert {
        Some(alert) => Some(alert.text),
        None => None,
    };
    let plan = line_plan(words, stats_words(stats, status), text, width);
    if let Some(a) = alert {
        truncating_keeps_inert(a.text, MAX_ALERT_COLS as int);
    }
    if let Some(view) = ad {
        lemma_stripped(view.ad_text);
        assert(is_inert("ad\u{b7} "@));
        assert(is_inert(ad_words(view.ad_text)));
        let used = stats_words(stats, status).len() + SEP_COLS;
        truncating_keeps_inert(ad_words(view.ad_text), ad_budget(left_of(width, used)));
        assert(is_inert(plan.ad->0));
        assert(is_inert(plan.ad->0 + SEP@));
        assert(is_inert(plan.ad->0 + SEP@ + plan.stats));
    }
    if plan.alert is Some {
        assert(is_inert(plan.alert->0));
        assert(is_inert(SEP@ + plan.alert->0));
    }
}

/// The alert of a feed whose titles are clean carries no control character, as
/// none does that a built item has.
pub proof fn alerts_of_clean_feeds_are_inert(items: Seq<FeedItemView>, installed: Option<Seq<char>>)
    requires
        forall|i: int| 0 <= i < items.len() ==> is_inert((#[trigger] items[i]).title),
    ensures
        alert_of(items, installed) matches Some(a) ==> is_inert(a.text),
{
    reveal_strlit("\u{25b2} ");
    reveal_strlit("\u{2191} ext v");
    assert(is_inert("\u{25b2} "@));
    assert(is_inert("\u{2191} ext v"@));
    let order = crate::feed::display_order(items);
    crate::order::ranking_is_stable(crate::feed::display_keys(items));
    lemma_first_title(items, order, crate::feed::FeedKind::Bulletin, 0);
    lemma_first_title(items, order, crate::feed::FeedKind::Version, 0);
}

proof fn lemma_first_title(
    items: Seq<FeedItemView>,
    order: Seq<int>,
    kind: crate::feed::FeedKind,
    k: int,
)
    requires
        0 <= k <= order.len(),
        forall|i: int| 0 <= i < order.len() ==> 0 <= #[trigger] order[i] < items.len(),
        forall|i: int| 0 <= i < items.len() ==> is_inert((#[trigger] items[i]).title),
    ensures
        crate::feed::first_title(items, order, kind, k) matches Some(t) ==> is_inert(t),
    decreases order.len() - k,
{
    if k < order.len() && items[order[k]].kind != kind {
        lemma_first_title(items, order, kind, k + 1);
    }
}

proof fn lemma_no_title(
    items: Seq<FeedItemView>,
    order: Seq<int>,
    kind: crate::feed::FeedKind,
    k: int,
)
    requires
        0 <= k <= order.len(),
        forall|i: int| 0 <= i < order.len() ==> 0 <= #[trigger] order[i] < items.len(),
        forall|i: int| 0 <= i < items.len() ==> (#[trigger] items[i]).kind != kind,
    ensures
        crate::feed::first_title(items, order, kind, k) is None,
    decreases order.len() - k,
{
    if k < order.len() {
        lemma_no_title(items, order, kind, k + 1);
    }
}

/// A feed without a bulletin and without a version gives no alert: a cold cache
/// leaves the line as it is.
pub proof fn cold_caches_give_no_alert(items: Seq<FeedItemView>, installed: Option<Seq<char>>)
    requires
        forall|i: int|
            0 <= i < items.len() ==> (#[trigger] items[i]).kind != crate::feed::FeedKind::Bulletin
                && items[i].kind != crate::feed::FeedKind::Version,
    ensures
        alert_of(items, installed) is None,
{
    let order = crate::feed::display_order(items);
    crate::order::ranking_is_stable(crate::feed::display_keys(items));
    lemma_no_title(items, order, crate::feed::FeedKind::Bulletin, 0);
    lemma_no_title(items, order, crate::feed::FeedKind::Version, 0);
}

/// An active bulletin is always the alert, and urgent; without one, a version of
/// the feed is where the installed one is known to be older, and nothing else is.
pub proof fn alerts_have_one_cause(items: Seq<FeedItemView>, installed: Option<Seq<char>>)
    ensures
        ({
            let alert = alert_of(items, installed);
            let headline = headline_of(items);
            let latest = latest_version_of(items);
            let behind = installed is Some && latest is Some && version_rank(
                installed->0,
                latest->0,
            ) == Rank::Older;
            &&& headline is Some ==> alert == Some(
                AlertView { text: "\u{25b2} "@ + headline->0, urgent: true },
            )
            &&& headline is None && behind ==> alert == Some(
                AlertView { text: "\u{2191} ext v"@ + latest->0, urgent: false },
            )
            &&& headline is None && !behind ==> alert is None
        }),
{
}

/// An ad is fresh for ten minutes after its rotation, and not a moment longer.
pub proof fn ads_are_fresh_for_ten_minutes(ts: i64, now_ms: i64)
    ensures
        is_fresh(ts, now_ms) <==> now_ms <= ts + 600_000,
{
}

/// The width that was asked for counts before what the terminal reports, and that
/// before the default.
pub proof fn widths_have_an_order(asked: u16, columns: Option<Seq<char>>, n: nat)
    ensures
        width_of(Some(asked), columns) == asked,
        n <= usize::MAX ==> width_of(None, Some(crate::numbers::decimal(n))) == n,
        columns is Some && unsigned_value(columns->0) is None ==> width_of(None, columns) == 120,
        width_of(None, None) == 120,
{
    crate::numbers::numbers_read_back(n, 0);
}

/// Stripping drops the control characters, which are those below the space and
/// those from the delete character up to U+009F, and keeps all others in order.
pub proof fn stripping_drops_only_controls(s: Seq<char>, c: char)
    ensures
        stripped(s) == s.filter(|c: char| !is_control(c)),
        is_control(c) <==> c as u32 <= 31 || 127 <= c as u32 <= 159,
    decreases s.len(),
{
    reveal(Seq::filter);
    if s.len() > 0 {
        stripping_drops_only_controls(s.drop_last(), c);
    }
}

/// The alert is on the line exactly where there is room for it: beside an ad,
/// where the ad is whole and keeps at least twenty-four columns; without one,
/// where it fits beside the stats. It is cut at thirty-eight columns.
pub proof fn alerts_take_what_room_there_is(
    ad: Option<Seq<char>>,
    stats: Seq<char>,
    alert: Seq<char>,
    width: int,
)
    ensures
        ({
            let plan = line_plan(ad, stats, Some(alert), width);
            let cut = truncated(alert, 38);
            let beside = stats.len() + 5 + cut.len();
            &&& plan.alert is Some ==> plan.alert == Some(cut)
            &&& ad is Some ==> (plan.alert is Some <==> beside + 5 + 24 <= width && beside + 5
                + ad->0.len() <= width)
            &&& ad is None ==> (plan.alert is Some <==> beside <= width)
            &&& ad is None ==> plan.ad is None
        }),
{
}

/// Without an alert beside it, the ad takes all the columns that the stats leave,
/// and at least sixteen: it is cut only where it is longer than that.
pub proof fn the_ad_takes_what_is_left(
    ad: Seq<char>,
    stats: Seq<char>,
    alert: Option<Seq<char>>,
    width: int,
)
    ensures
        ({
            let plan = line_plan(Some(ad), stats, alert, width);
            let room = if width - stats.len() - 5 > 16 {
                width - stats.len() - 5
            } else {
                16int
            };
            &&& plan.alert is None ==> plan.ad == Some(truncated(ad, room))
            &&& alert is None ==> plan.alert is None
        }),
{
}

/// A plain line is its segments with the separator between them: the ad, the
/// stats, the alert. With color the same segments stand in the same order.
pub proof fn lines_are_their_segments(
    ad: Option<CliAdView>,
    stats: Option<Stats>,
    status: AdStatus,
    width: int,
    color: bool,
    alert: Option<AlertView>,
)
    ensures
        ({
            let plan = line_plan(
                match ad {
                    Some(ad) => Some("ad\u{b7} "@ + stripped(ad.ad_text)),
                    None => None,
                },
                stats_words(stats, status),
                match alert {
                    Some(alert) => Some(alert.text),
                    None => None,
                },
                width,
            );
            let line = line_of(ad, stats, status, width, color, alert);
            let sep = "  \u{b7}  "@;
            let middle = stats_segment(plan.stats, status, color);
            let last = match plan.alert {
                Some(text) => if !color {
                    sep + text
                } else if alert is Some && alert->0.urgent {
                    sep + "\x1b["@ + "31"@ + "m"@ + text + "\x1b[0m"@
                } else {
                    sep + "\x1b["@ + "33"@ + "m"@ + text + "\x1b[0m"@
                },
                None => Seq::<char>::empty(),
            };
            &&& plan.stats == stats_words(stats, status)
            &&& ad is None ==> line == middle + last
            &&& ad is Some ==> plan.ad is Some && line == (if color && ad->0.click_url is Some {
                "\x1b]8;;"@ + stripped(ad->0.click_url->0) + "\x1b\\"@ + plan.ad->0
                    + "\x1b]8;;\x1b\\"@
            } else {
                plan.ad->0
            }) + sep + middle + last
            &&& !color ==> middle == stats_words(stats, status)
        }),
{
    let line = line_of(ad, stats, status, width, color, alert);
    assert(line + Seq::<char>::empty() =~= line);
}

/// Each status has its own word; only a status that shows ads or pauses them has
/// a filled dot, and the two differ in color from each other and from the rest.
pub proof fn each_status_has_its_marks(status: AdStatus)
    ensures
        word_of(status) == (match status {
            AdStatus::Live => "live"@,
            AdStatus::Idle => "idle"@,
            AdStatus::Paused => "paused"@,
            AdStatus::InjectionOff => "ads off"@,
            AdStatus::SignedOut => "signed out"@,
        }),
        dot_of(status) == if status == AdStatus::Live || status == AdStatus::Paused {
            "\u{25cf}"@
        } else {
            "\u{25cb}"@
        },
        code_of(status) == if status == AdStatus::Live {
            "\x1b[32m"@
        } else if status == AdStatus::Paused {
            "\x1b[31m"@
        } else {
            "\x1b[33m"@
        },
{
}

proof fn lemma_no_dot(front: Seq<char>, status: AdStatus, rest: Seq<char>)
    requires
        forall|i: int|
            0 <= i < front.len() ==> #[trigger] front[i] != '\u{25cf}' && front[i] != '\u{25cb}',
    ensures
        stats_segment(front + dot_of(status) + rest, status, true) == front + (code_of(status)
            + dot_of(status) + "\x1b[0m"@) + rest,
{
    reveal_strlit("\u{25cf}");
    reveal_strlit("\u{25cb}");
    let dot = dot_of(status);
    let s = front + dot + rest;
    assert(dot.len() == 1 && (dot[0] == '\u{25cf}' || dot[0] == '\u{25cb}'));
    assert forall|k: int| 0 <= k < front.len() implies !crate::text::occurs_at(s, dot, k) by {
        if crate::text::occurs_at(s, dot, k) {
            assert(s.subrange(k, k + 1)[0] == s[k]);
            assert(s[k] == front[k]);
        }
    }
    crate::text_laws::cutting_parts_at_the_first(front, dot, rest);
}

/// With color the stats read as they do without, but that the dot of the status,
/// and nothing else, stands between the color of the status and its end.
pub proof fn only_the_dot_is_colored(stats: Option<Stats>, status: AdStatus) -> (front: Seq<char>)
    ensures
        stats_words(stats, status) == front + dot_of(status) + (" "@ + word_of(status)),
        stats_segment(stats_words(stats, status), status, true) == front + (code_of(status)
            + dot_of(status) + "\x1b[0m"@) + (" "@ + word_of(status)),
{
    reveal_strlit("kb ");
    reveal_strlit(" today \u{b7} ");
    reveal_strlit(" advs \u{b7} ");
    let rest = " "@ + word_of(status);
    let front = match stats {
        Some(s) => "kb "@ + int_text(s.sightings_today as int) + " today \u{b7} "@ + int_text(
            s.advertisers as int,
        ) + " advs \u{b7} "@,
        None => "kb "@,
    };
    if let Some(s) = stats {
        let a = int_text(s.sightings_today as int);
        let b = int_text(s.advertisers as int);
        crate::numbers::int_text_is_numeric(s.sightings_today as int);
        crate::numbers::int_text_is_numeric(s.advertisers as int);
        let x = 3 + a.len();
        let y = x + " today \u{b7} "@.len();
        let z = y + b.len();
        assert forall|i: int| 0 <= i < front.len() implies #[trigger] front[i] != '\u{25cf}'
            && front[i] != '\u{25cb}' by {
            if i < 3 {
                assert(front[i] == "kb "@[i]);
            } else if i < x {
                assert(front[i] == a[i - 3]);
            } else if i < y {
                assert(front[i] == " today \u{b7} "@[i - x]);
            } else if i < z {
                assert(front[i] == b[i - y]);
            } else {
                assert(front[i] == " advs \u{b7} "@[i - z]);
            }
        }
    }
    assert(stats_words(stats, status) =~= front + dot_of(status) + rest);
    lemma_no_dot(front, status, rest);
    front
}

} // verus!
