//! The archive's contents as lines for a terminal.

use vstd::prelude::*;

use crate::archive::queries::{
    ad_keys, board_keys, board_views, full_board, stats_of, top, AdvertiserView,
};
use crate::archive::{ad_views, wf, AdRowView, AdvertiserStat, Archive, Stats};
use crate::clock::is_label_of;
use crate::model::AdRow;
use crate::numbers::{count_text, decimal, int_text, signed_text};
use crate::style::{bold, dim, dimmed, in_bold};
use crate::text::{concat, left_aligned, opt_pair, pad_left, pad_right, right_aligned, views};
use crate::text_laws::{padding_fills_with_spaces, stacked, stacking_appends};
use crate::util::{fmt_datetime, truncate, truncated};

verus! {

/// What is shown where nothing was captured.
pub const NOTHING_YET: &'static str = "no ads captured yet \u{2014} run `kb setup`";

/// The line that is shown where nothing was captured.
pub open spec fn nothing_line() -> Seq<char> {
    dimmed(NOTHING_YET@, true) + "\n"@
}

fn nothing() -> (r: String)
    ensures
        r@ == nothing_line(),
{
    let mut out = dim(NOTHING_YET, true);
    out.push_str("\n");
    out
}

// ---- the captured ads -------------------------------------------------------

/// The heads of the columns.
pub open spec fn list_head() -> Seq<char> {
    in_bold("last seen"@, true) + "  "@ + in_bold("seen"@, true) + "  "@ + in_bold(
        "advertiser"@,
        true,
    ) + "  "@ + in_bold("ad"@, true) + "\n"@
}

/// The row of an ad.
pub open spec fn list_row(ad: AdRowView, last_seen: Seq<char>) -> Seq<char> {
    pad_right(last_seen, 18) + "  "@ + pad_left(int_text(ad.times_seen as int), 5) + "  "@
        + pad_right(truncated(ad.advertiser, 16), 16) + "  "@ + truncated(ad.ad_text, 52) + "\n"@
}

/// The head and the rows of the first `k` ads.
pub open spec fn list_rows(ads: Seq<AdRowView>, last_seen: Seq<Seq<char>>, k: int) -> Seq<char>
    decreases k,
{
    if k <= 0 {
        list_head()
    } else {
        list_rows(ads, last_seen, k - 1) + list_row(ads[k - 1], last_seen[k - 1])
    }
}

/// The captured ads, one per line, or a hint where there are none.
pub open spec fn list_text(ads: Seq<AdRowView>, last_seen: Seq<Seq<char>>) -> Seq<char> {
    if ads.len() == 0 {
        nothing_line()
    } else {
        list_rows(ads, last_seen, ads.len() as int)
    }
}

/// The captured ads, with the time each was last seen given as text.
pub fn list_with(ads: &Vec<AdRow>, last_seen: &Vec<String>) -> (r: String)
    requires
        ads@.len() == last_seen@.len(),
    ensures
        r@ == list_text(ad_views(ads@), views(last_seen@)),
{
    let ghost all = ad_views(ads@);
    let ghost times = views(last_seen@);
    if ads.len() == 0 {
        return nothing();
    }
    let mut out = bold("last seen", true);
    out.push_str("  ");
    let seen = bold("seen", true);
    out.push_str(seen.as_str());
    out.push_str("  ");
    let advertiser = bold("advertiser", true);
    out.push_str(advertiser.as_str());
    out.push_str("  ");
    let text = bold("ad", true);
    out.push_str(text.as_str());
    out.push_str("\n");
    let mut k: usize = 0;
    while k < ads.len()
        invariant
            all == ad_views(ads@),
            times == views(last_seen@),
            ads@.len() == last_seen@.len(),
            k <= ads@.len(),
            out@ == list_rows(all, times, k as int),
        decreases ads@.len() - k,
    {
        assert(all[k as int] == ads@[k as int]@);
        assert(times[k as int] == last_seen@[k as int]@);
        let ad = &ads[k];
        let mut row = left_aligned(last_seen[k].as_str(), 18);
        row.push_str("  ");
        let count = signed_text(ad.times_seen);
        let seen = right_aligned(count.as_str(), 5);
        row.push_str(seen.as_str());
        row.push_str("  ");
        let short = truncate(ad.advertiser.as_str(), 16);
        let name = left_aligned(short.as_str(), 16);
        row.push_str(name.as_str());
        row.push_str("  ");
        let text = truncate(ad.ad_text.as_str(), 52);
        row.push_str(text.as_str());
        row.push_str("\n");
        out.push_str(row.as_str());
        k = k + 1;
    }
    out
}

/// The captured ads, with the time each was last seen in the local time zone.
pub fn print_list(ads: &Vec<AdRow>) -> (r: String)
    ensures
        exists|times: Seq<Seq<char>>| #[trigger]
            list_text(ad_views(ads@), times) == r@ && times.len() == ads@.len() && forall|i: int|
                0 <= i < times.len() ==> is_label_of(#[trigger] times[i], ads@[i].last_seen_ms),
{
    let mut last_seen: Vec<String> = Vec::new();
    let mut k: usize = 0;
    while k < ads.len()
        invariant
            k <= ads@.len(),
            last_seen@.len() == k,
            forall|i: int|
                0 <= i < last_seen@.len() ==> is_label_of(
                    (#[trigger] last_seen@[i])@,
                    ads@[i].last_seen_ms,
                ),
        decreases ads@.len() - k,
    {
        last_seen.push(fmt_datetime(ads[k].last_seen_ms));
        k = k + 1;
    }
    let r = list_with(ads, &last_seen);
    assert(list_text(ad_views(ads@), views(last_seen@)) == r@);
    r
}

// ---- the summary ------------------------------------------------------------

/// One figure of the summary.
pub open spec fn figure(label: Seq<char>, value: Seq<char>) -> Seq<char> {
    "  "@ + dimmed(label, true) + in_bold(value, true) + "\n"@
}

/// The summary of an archive.
pub open spec fn stats_text(s: Stats, seen: Option<(Seq<char>, Seq<char>)>) -> Seq<char> {
    let counts = in_bold("kickbacks-kit \u{b7} archive stats"@, true) + "\n\n"@ + figure(
        "ads seen"@,
        int_text(s.distinct_ads as int),
    ) + figure("advertisers"@, int_text(s.advertisers as int)) + figure(
        "sightings"@,
        int_text(s.total_sightings as int),
    ) + figure("today"@, int_text(s.sightings_today as int)) + figure(
        "this week"@,
        int_text(s.sightings_week as int),
    );
    match seen {
        Some((first, last)) => counts + figure("first seen"@, first) + figure("last seen"@, last),
        None => counts,
    }
}

fn push_figure(out: &mut String, label: &str, value: &str)
    ensures
        final(out)@ == old(out)@ + figure(label@, value@),
{
    let faint = dim(label, true);
    let mut row = concat("  ", faint.as_str());
    let strong = bold(value, true);
    row.push_str(strong.as_str());
    row.push_str("\n");
    out.push_str(row.as_str());
}

/// The summary, with the first and the last sighting given as text.
pub fn stats_with(s: &Stats, seen: &Option<(String, String)>) -> (r: String)
    ensures
        r@ == stats_text(*s, opt_pair(*seen)),
{
    let mut out = bold("kickbacks-kit \u{b7} archive stats", true);
    out.push_str("\n\n");
    let ads = signed_text(s.distinct_ads);
    push_figure(&mut out, "ads seen", ads.as_str());
    let advertisers = signed_text(s.advertisers);
    push_figure(&mut out, "advertisers", advertisers.as_str());
    let sightings = signed_text(s.total_sightings);
    push_figure(&mut out, "sightings", sightings.as_str());
    let today = signed_text(s.sightings_today);
    push_figure(&mut out, "today", today.as_str());
    let week = signed_text(s.sightings_week);
    push_figure(&mut out, "this week", week.as_str());
    if let Some((first, last)) = seen {
        push_figure(&mut out, "first seen", first.as_str());
        push_figure(&mut out, "last seen", last.as_str());
    }
    out
}

/// Whether the texts of the first and the last sighting are the labels of their
/// own instants.
pub open spec fn seen_are_labels(seen: Option<(Seq<char>, Seq<char>)>, s: Stats) -> bool {
    seen matches Some(t) ==> is_label_of(t.0, s.first_seen_ms->0) && is_label_of(
        t.1,
        s.last_seen_ms->0,
    )
}

/// The summary, with the first and the last sighting in the local time zone.
pub fn print_stats(s: &Stats) -> (r: String)
    ensures
        exists|seen: Option<(Seq<char>, Seq<char>)>| #[trigger]
            stats_text(*s, seen) == r@ && (seen is Some <==> s.first_seen_ms is Some
                && s.last_seen_ms is Some) && seen_are_labels(seen, *s),
{
    let seen = match (s.first_seen_ms, s.last_seen_ms) {
        (Some(first), Some(last)) => Some((fmt_datetime(first), fmt_datetime(last))),
        _ => None,
    };
    let r = stats_with(s, &seen);
    assert(stats_text(*s, opt_pair(seen)) == r@);
    r
}

// ---- the leaderboard --------------------------------------------------------

/// The heads of the columns.
pub open spec fn board_head() -> Seq<char> {
    in_bold("#"@, true) + "  "@ + in_bold("advertiser"@, true) + "  "@ + in_bold("ads"@, true)
        + "  "@ + in_bold("seen"@, true) + "\n"@
}

/// The row of an advertiser, who stands at place `i`.
pub open spec fn board_row(a: AdvertiserView, i: int) -> Seq<char> {
    pad_left(decimal((i + 1) as nat), 3) + "  "@ + pad_right(truncated(a.advertiser, 22), 22)
        + "  "@ + pad_left(int_text(a.distinct_ads), 4) + "  "@ + pad_left(int_text(a.sightings), 5)
        + "\n"@
}

/// The head and the rows of the first `k` advertisers.
pub open spec fn board_rows(board: Seq<AdvertiserView>, k: int) -> Seq<char>
    decreases k,
{
    if k <= 0 {
        board_head()
    } else {
        board_rows(board, k - 1) + board_row(board[k - 1], k - 1)
    }
}

/// The leaderboard, one advertiser per line, or a hint where there are none.
pub open spec fn board_text(board: Seq<AdvertiserView>) -> Seq<char> {
    if board.len() == 0 {
        nothing_line()
    } else {
        board_rows(board, board.len() as int)
    }
}

/// The advertiser leaderboard.
pub fn print_leaderboard(board: &Vec<AdvertiserStat>) -> (r: String)
    ensures
        r@ == board_text(board_views(board@)),
{
    let ghost all = board_views(board@);
    if board.len() == 0 {
        return nothing();
    }
    let mut out = bold("#", true);
    out.push_str("  ");
    let advertiser = bold("advertiser", true);
    out.push_str(advertiser.as_str());
    out.push_str("  ");
    let ads = bold("ads", true);
    out.push_str(ads.as_str());
    out.push_str("  ");
    let seen = bold("seen", true);
    out.push_str(seen.as_str());
    out.push_str("\n");
    let mut k: usize = 0;
    while k < board.len()
        invariant
            all == board_views(board@),
            k <= board@.len(),
            out@ == board_rows(all, k as int),
        decreases board@.len() - k,
    {
        assert(all[k as int] == board@[k as int]@);
        let a = &board[k];
        let digits = count_text(k + 1);
        let mut row = right_aligned(digits.as_str(), 3);
        row.push_str("  ");
        let short = truncate(a.advertiser.as_str(), 22);
        let name = left_aligned(short.as_str(), 22);
        row.push_str(name.as_str());
        row.push_str("  ");
        let count = signed_text(a.distinct_ads);
        let ads = right_aligned(count.as_str(), 4);
        row.push_str(ads.as_str());
        row.push_str("  ");
        let sightings = signed_text(a.sightings);
        let seen = right_aligned(sightings.as_str(), 5);
        row.push_str(seen.as_str());
        row.push_str("\n");
        out.push_str(row.as_str());
        k = k + 1;
    }
    out
}

// ---- commands ---------------------------------------------------------------

/// A command on the archive.
#[derive(Debug, Clone, Copy, PartialEq, Eq, Structural)]
pub enum ArchiveCommand {
    /// List captured ads, most recent first, up to a limit.
    List(usize),
    /// Summary statistics.
    Stats,
    /// Advertiser leaderboard, up to a limit.
    Top(usize),
}

/// What a command on the archive prints.
pub fn run_archive(archive: &Archive, command: ArchiveCommand, now_ms: i64) -> (r: String)
    requires
        wf(archive@),
    ensures
        match command {
            ArchiveCommand::List(limit) => {
                let ads = top(archive@.ads, ad_keys(archive@.ads), limit as int);
                exists|times: Seq<Seq<char>>| #[trigger]
                    list_text(ads, times) == r@ && times.len() == ads.len() && forall|i: int|
                        0 <= i < times.len() ==> is_label_of(
                            #[trigger] times[i],
                            ads[i].last_seen_ms,
                        )
            },
            ArchiveCommand::Stats => {
                let s = stats_of(archive@, now_ms);
                exists|seen: Option<(Seq<char>, Seq<char>)>| #[trigger]
                    stats_text(s, seen) == r@ && (seen is Some <==> s.first_seen_ms is Some
                        && s.last_seen_ms is Some) && seen_are_labels(seen, s)
            },
            ArchiveCommand::Top(limit) => r@ == board_text(
                top(full_board(archive@), board_keys(full_board(archive@)), limit as int),
            ),
        },
{
    match command {
        ArchiveCommand::List(limit) => {
            let ads = archive.list_ads(limit);
            assert(ad_views(ads@).len() == ads@.len());
            print_list(&ads)
        },
        ArchiveCommand::Stats => {
            let stats = archive.stats(now_ms);
            print_stats(&stats)
        },
        ArchiveCommand::Top(limit) => {
            let board = archive.advertiser_leaderboard(limit);
            print_leaderboard(&board)
        },
    }
}

// ---- what the rows hold -----------------------------------------------------

proof fn lemma_list_rows(ads: Seq<AdRowView>, last_seen: Seq<Seq<char>>, k: int)
    requires
        0 <= k,
    ensures
        list_rows(ads, last_seen, k) == list_head() + stacked(Seq::new(k as nat, |i: int| list_row(ads[i], last_seen[i]))),
    decreases k,
{
    let rows = Seq::new(k as nat, |i: int| list_row(ads[i], last_seen[i]));
    if k == 0 {
        stacking_appends(rows, Seq::empty());
        assert(rows =~= Seq::empty());
        assert(list_rows(ads, last_seen, k) =~= list_head() + stacked(rows));
    } else {
        lemma_list_rows(ads, last_seen, k - 1);
        let before = Seq::new((k - 1) as nat, |i: int| list_row(ads[i], last_seen[i]));
        assert(rows =~= before.push(rows[k - 1]));
        stacking_appends(before, rows[k - 1]);
        assert(list_rows(ads, last_seen, k) =~= list_head() + stacked(rows));
    }
}

proof fn lemma_board_rows(board: Seq<AdvertiserView>, k: int)
    requires
        0 <= k,
    ensures
        board_rows(board, k) == board_head() + stacked(Seq::new(k as nat, |i: int| board_row(board[i], i))),
    decreases k,
{
    let rows = Seq::new(k as nat, |i: int| board_row(board[i], i));
    if k == 0 {
        stacking_appends(rows, Seq::empty());
        assert(rows =~= Seq::empty());
        assert(board_rows(board, k) =~= board_head() + stacked(rows));
    } else {
        lemma_board_rows(board, k - 1);
        let before = Seq::new((k - 1) as nat, |i: int| board_row(board[i], i));
        assert(rows =~= before.push(rows[k - 1]));
        stacking_appends(before, rows[k - 1]);
        assert(board_rows(board, k) =~= board_head() + stacked(rows));
    }
}

/// The lists hold every ad and every advertiser once, in the order given, each on
/// a row of its own.
pub proof fn every_row_is_listed(
    ads: Seq<AdRowView>,
    last_seen: Seq<Seq<char>>,
    board: Seq<AdvertiserView>,
)
    ensures
        ads.len() > 0 ==> list_text(ads, last_seen) == list_head() + stacked(
            Seq::new(ads.len(), |i: int| list_row(ads[i], last_seen[i])),
        ),
        board.len() > 0 ==> board_text(board) == board_head() + stacked(
            Seq::new(board.len(), |i: int| board_row(board[i], i)),
        ),
{
    lemma_list_rows(ads, last_seen, ads.len() as int);
    lemma_board_rows(board, board.len() as int);
}

/// The row of an ad has its columns side by side: when it was last seen, how often,
/// its advertiser and its text, with two spaces between.
pub proof fn list_rows_are_aligned(ad: AdRowView, last_seen: Seq<char>)
    requires
        last_seen.len() <= 18,
        int_text(ad.times_seen as int).len() <= 5,
    ensures
        ({
            let row = list_row(ad, last_seen);
            &&& row.subrange(0, 18) == pad_right(last_seen, 18)
            &&& row.subrange(20, 25) == pad_left(int_text(ad.times_seen as int), 5)
            &&& row.subrange(27, 43) == pad_right(truncated(ad.advertiser, 16), 16)
            &&& row.skip(45) == truncated(ad.ad_text, 52).push('\n')
        }),
{
    reveal_strlit("  ");
    reveal_strlit("\n");
    let row = list_row(ad, last_seen);
    padding_fills_with_spaces(last_seen, 18);
    padding_fills_with_spaces(int_text(ad.times_seen as int), 5);
    padding_fills_with_spaces(truncated(ad.advertiser, 16), 16);
    assert(row.subrange(0, 18) =~= pad_right(last_seen, 18));
    assert(row.subrange(20, 25) =~= pad_left(int_text(ad.times_seen as int), 5));
    assert(row.subrange(27, 43) =~= pad_right(truncated(ad.advertiser, 16), 16));
    assert(row.skip(45) =~= truncated(ad.ad_text, 52).push('\n'));
}

/// The row of an advertiser has its columns side by side: its place, counted from
/// one, its name, its creatives and its sightings, with two spaces between.
pub proof fn board_rows_are_aligned(a: AdvertiserView, i: int)
    requires
        0 <= i,
        decimal((i + 1) as nat).len() <= 3,
        int_text(a.distinct_ads).len() <= 4,
        int_text(a.sightings).len() <= 5,
    ensures
        ({
            let row = board_row(a, i);
            &&& row.len() == 41
            &&& row.subrange(0, 3) == pad_left(decimal((i + 1) as nat), 3)
            &&& row.subrange(5, 27) == pad_right(truncated(a.advertiser, 22), 22)
            &&& row.subrange(29, 33) == pad_left(int_text(a.distinct_ads), 4)
            &&& row.subrange(35, 40) == pad_left(int_text(a.sightings), 5)
            &&& row.last() == '\n'
        }),
{
    reveal_strlit("  ");
    reveal_strlit("\n");
    let row = board_row(a, i);
    padding_fills_with_spaces(decimal((i + 1) as nat), 3);
    padding_fills_with_spaces(truncated(a.advertiser, 22), 22);
    padding_fills_with_spaces(int_text(a.distinct_ads), 4);
    padding_fills_with_spaces(int_text(a.sightings), 5);
    assert(row.subrange(0, 3) =~= pad_left(decimal((i + 1) as nat), 3));
    assert(row.subrange(5, 27) =~= pad_right(truncated(a.advertiser, 22), 22));
    assert(row.subrange(29, 33) =~= pad_left(int_text(a.distinct_ads), 4));
    assert(row.subrange(35, 40) =~= pad_left(int_text(a.sightings), 5));
}

} // verus!
