//! Readers for the extension's local artifacts.
//!
//! These functions take the text of files that the extension wrote. Nothing here
//! writes to a file that it owns.

use vstd::prelude::*;

use crate::clock::{iso_to_ms, rfc3339_millis};
use crate::json::{
    bool_of, json_member, json_members, json_parses, text_of, Member, MemberView,
};
use crate::text::{
    char_count, clone_opt, comes_before, concat, cut, lines_of, opt_view, same_text, trimmed,
    views, without_prefix,
};
use crate::text_laws::{cutting_needs_a_separator, cutting_parts_at_the_first};
use crate::util::{rank_versions, version_rank, Rank};

verus! {

// ---- the lifecycle log ------------------------------------------------------

/// A parsed line from the extension lifecycle log.
///
/// Lines look like:
/// `2026-06-11T19:42:13.745Z [ext] info - session.state {"signedIn":true,...}`
#[derive(Debug, PartialEq)]
pub struct LogEvent {
    pub ts_iso: String,
    pub ts_ms: i64,
    pub name: String,
    pub signed_in: Option<bool>,
    pub has_ad: Option<bool>,
    pub injection_on: Option<bool>,
    pub killed: Option<bool>,
    pub cc_version: Option<String>,
    pub raw: String,
}

/// What a log event holds.
pub struct LogEventView {
    pub ts_iso: Seq<char>,
    pub ts_ms: i64,
    pub name: Seq<char>,
    pub signed_in: Option<bool>,
    pub has_ad: Option<bool>,
    pub injection_on: Option<bool>,
    pub killed: Option<bool>,
    pub cc_version: Option<Seq<char>>,
    pub raw: Seq<char>,
}

impl View for LogEvent {
    type V = LogEventView;

    open spec fn view(&self) -> LogEventView {
        LogEventView {
            ts_iso: self.ts_iso@,
            ts_ms: self.ts_ms,
            name: self.name@,
            signed_in: self.signed_in,
            has_ad: self.has_ad,
            injection_on: self.injection_on,
            killed: self.killed,
            cc_version: opt_view(self.cc_version),
            raw: self.raw@,
        }
    }
}

impl LogEvent {
    /// A copy of this event.
    pub fn copy(&self) -> (r: LogEvent)
        ensures
            r == *self,
    {
        LogEvent {
            ts_iso: self.ts_iso.clone(),
            ts_ms: self.ts_ms,
            name: self.name.clone(),
            signed_in: self.signed_in,
            has_ad: self.has_ad,
            injection_on: self.injection_on,
            killed: self.killed,
            cc_version: clone_opt(&self.cc_version),
            raw: self.raw.clone(),
        }
    }
}

/// The parts of a log line before any of them is interpreted.
#[derive(Debug)]
pub struct LogHead {
    pub ts_iso: String,
    pub name: String,
    /// The JSON object at the end of the line, or nothing.
    pub json: String,
    pub raw: String,
}

/// What the parts of a log line hold.
pub struct LogHeadView {
    pub ts_iso: Seq<char>,
    pub name: Seq<char>,
    pub json: Seq<char>,
    pub raw: Seq<char>,
}

impl View for LogHead {
    type V = LogHeadView;

    open spec fn view(&self) -> LogHeadView {
        LogHeadView { ts_iso: self.ts_iso@, name: self.name@, json: self.json@, raw: self.raw@ }
    }
}

/// The parts of `<ts> [src] <level> - <name> <json?>`; none where the trimmed
/// line has no space, no dash after it, or no name after the dash.
pub open spec fn log_head(line: Seq<char>) -> Option<LogHeadView> {
    let raw = crate::text::trim(line);
    match crate::text::split_once(raw, " "@) {
        Some((ts_iso, rest)) => match crate::text::split_once(rest, " - "@) {
            Some((_, after_dash)) => {
                let (name, json) = match crate::text::split_once(after_dash, " {"@) {
                    Some((n, j)) => (crate::text::trim(n), "{"@ + j),
                    None => (crate::text::trim(after_dash), Seq::<char>::empty()),
                };
                if name.len() == 0 {
                    None
                } else {
                    Some(LogHeadView { ts_iso, name, json, raw })
                }
            },
            None => None,
        },
        None => None,
    }
}

/// Takes a log line apart.
pub fn split_log_line(line: &str) -> (r: Option<LogHead>)
    ensures
        match r {
            Some(h) => log_head(line@) == Some(h@),
            None => log_head(line@) is None,
        },
{
    let raw = trimmed(line);
    match cut(raw.as_str(), " ") {
        Some((ts_iso, rest)) => match cut(rest.as_str(), " - ") {
            Some((_, after_dash)) => {
                let (name, json) = match cut(after_dash.as_str(), " {") {
                    Some((n, j)) => (trimmed(n.as_str()), concat("{", j.as_str())),
                    None => (trimmed(after_dash.as_str()), String::new()),
                };
                if char_count(name.as_str()) == 0 {
                    None
                } else {
                    Some(LogHead { ts_iso, name, json, raw })
                }
            },
            None => None,
        },
        None => None,
    }
}

/// The members of the JSON object that an event reads, in order.
pub open spec fn event_keys() -> Seq<Seq<char>> {
    seq!["signedIn"@, "hasAd"@, "injectionOn"@, "killed"@, "ccVersion"@]
}

/// The event that a line's parts make with an instant and five members of its
/// JSON object.
pub open spec fn event_of(
    head: LogHeadView,
    ts_ms: Option<i64>,
    members: Seq<MemberView>,
) -> LogEventView {
    LogEventView {
        ts_iso: head.ts_iso,
        ts_ms: match ts_ms {
            Some(ms) => ms,
            None => 0,
        },
        name: head.name,
        signed_in: bool_of(members[0]),
        has_ad: bool_of(members[1]),
        injection_on: bool_of(members[2]),
        killed: bool_of(members[3]),
        cc_version: text_of(members[4]),
        raw: head.raw,
    }
}

/// Makes an event of a line's parts. An instant that could not be read counts
/// as the epoch, and a member that could not be read is left out.
pub fn make_event(head: LogHead, ts_ms: Option<i64>, members: &Vec<Member>) -> (r: LogEvent)
    requires
        members@.len() == 5,
    ensures
        r@ == event_of(head@, ts_ms, Seq::new(5, |i: int| members@[i]@)),
{
    LogEvent {
        ts_iso: head.ts_iso,
        ts_ms: match ts_ms {
            Some(ms) => ms,
            None => 0,
        },
        name: head.name,
        signed_in: members[0].as_bool(),
        has_ad: members[1].as_bool(),
        injection_on: members[2].as_bool(),
        killed: members[3].as_bool(),
        cc_version: members[4].as_text(),
        raw: head.raw,
    }
}

/// The members of a line's JSON object; nothing is read of an absent one, nor of
/// a text that is no JSON document.
pub open spec fn event_members(json: Seq<char>) -> Seq<MemberView> {
    Seq::new(
        5,
        |i: int|
            if json.len() == 0 || !json_parses(json) {
                MemberView::Other
            } else {
                json_member(json, event_keys()[i])
            },
    )
}

/// The event that a log line writes.
pub open spec fn log_event(line: Seq<char>) -> Option<LogEventView> {
    match log_head(line) {
        Some(head) => Some(
            event_of(head, rfc3339_millis(head.ts_iso), event_members(head.json)),
        ),
        None => None,
    }
}

fn no_members() -> (r: Vec<Member>)
    ensures
        r@.len() == 5,
        forall|i: int| 0 <= i < 5 ==> (#[trigger] r@[i])@ == MemberView::Other,
{
    vec![Member::Other, Member::Other, Member::Other, Member::Other, Member::Other]
}

/// A line whose tail is absent or no JSON document is still an event: its head is
/// kept, and all five members are left out.
pub proof fn unreadable_tails_leave_members_out(line: Seq<char>)
    requires
        log_head(line) is Some,
        log_head(line)->0.json.len() == 0 || !json_parses(log_head(line)->0.json),
    ensures
        ({
            let head = log_head(line)->0;
            log_event(line) == Some(
                LogEventView {
                    ts_iso: head.ts_iso,
                    ts_ms: match rfc3339_millis(head.ts_iso) {
                        Some(ms) => ms,
                        None => 0,
                    },
                    name: head.name,
                    signed_in: None,
                    has_ad: None,
                    injection_on: None,
                    killed: None,
                    cc_version: None,
                    raw: head.raw,
                },
            )
        }),
{
}

/// Parse a single log line. Returns `None` for blank or malformed lines so the
/// caller can skip them without failing the whole read.
pub fn parse_log_line(line: &str) -> (r: Option<LogEvent>)
    ensures
        match r {
            Some(e) => log_event(line@) == Some(e@),
            None => log_event(line@) is None,
        },
{
    match split_log_line(line) {
        Some(head) => {
            let ts_ms = iso_to_ms(head.ts_iso.as_str());
            let mut keys: Vec<&str> = Vec::new();
            keys.push("signedIn");
            keys.push("hasAd");
            keys.push("injectionOn");
            keys.push("killed");
            keys.push("ccVersion");
            let members: Vec<Member> = if char_count(head.json.as_str()) == 0 {
                no_members()
            } else {
                match json_members(head.json.as_str(), &keys) {
                    Some(members) => members,
                    None => no_members(),
                }
            };
            proof {
                let m = Seq::new(5, |i: int| members@[i]@);
                assert forall|i: int| 0 <= i < 5 implies m[i] == event_members(head.json@)[i] by {
                    assert(keys@[i]@ == event_keys()[i]);
                    assert(members@[i]@ == m[i]);
                }
                assert(m =~= event_members(head.json@));
            }
            Some(make_event(head, ts_ms, &members))
        },
        None => None,
    }
}

/// What a sequence of events holds.
pub open spec fn event_views(v: Seq<LogEvent>) -> Seq<LogEventView> {
    Seq::new(v.len(), |i: int| v[i]@)
}

/// Whether an event comes strictly after a watermark.
pub open spec fn is_after(e: LogEventView, after_iso: Option<Seq<char>>) -> bool {
    match after_iso {
        Some(w) => crate::text::lex_before(w, e.ts_iso),
        None => true,
    }
}

/// The events of the first `k` lines that come after a watermark.
pub open spec fn events_of_lines(
    lines: Seq<Seq<char>>,
    after_iso: Option<Seq<char>>,
    k: int,
) -> Seq<LogEventView>
    decreases k,
{
    if k <= 0 {
        Seq::empty()
    } else {
        let before = events_of_lines(lines, after_iso, k - 1);
        match log_event(lines[k - 1]) {
            Some(e) => if is_after(e, after_iso) {
                before.push(e)
            } else {
                before
            },
            None => before,
        }
    }
}

/// The events of a log that come after a watermark, in the order of its lines.
pub open spec fn events_since(log: Seq<char>, after_iso: Option<Seq<char>>) -> Seq<LogEventView> {
    let lines = crate::text::lines(log);
    events_of_lines(lines, after_iso, lines.len() as int)
}

/// Read lifecycle events from the text of the log, returning only lines whose
/// ISO timestamp is strictly greater than `after_iso` (lexical compare, which is
/// correct for fixed-width Zulu ISO-8601). Pass `None` to read everything. An
/// absent log has no events.
pub fn read_events_since(log: Option<&str>, after_iso: Option<&str>) -> (r: Vec<LogEvent>)
    ensures
        event_views(r@) == (match log {
            Some(text) => events_since(text@, crate::text::opt_str(after_iso)),
            None => Seq::empty(),
        }),
{
    let mut out: Vec<LogEvent> = Vec::new();
    let text = match log {
        Some(text) => text,
        None => {
            assert(event_views(out@) =~= Seq::<LogEventView>::empty());
            return out;
        },
    };
    let lines = lines_of(text);
    let ghost after = crate::text::opt_str(after_iso);
    let mut i: usize = 0;
    assert(event_views(out@) =~= Seq::<LogEventView>::empty());
    while i < lines.len()
        invariant
            after == crate::text::opt_str(after_iso),
            views(lines@) == crate::text::lines(text@),
            i <= lines@.len(),
            event_views(out@) == events_of_lines(views(lines@), after, i as int),
        decreases lines@.len() - i,
    {
        let ghost before = out@;
        assert(views(lines@)[i as int] == lines@[i as int]@);
        if let Some(ev) = parse_log_line(lines[i].as_str()) {
            let keep: bool = match after_iso {
                Some(w) => comes_before(w, ev.ts_iso.as_str()),
                None => true,
            };
            assert(keep == is_after(ev@, after));
            if keep {
                out.push(ev);
                assert(event_views(out@) =~= event_views(before).push(ev@));
            }
        }
        i = i + 1;
    }
    assert(views(lines@).len() == lines@.len());
    out
}

proof fn lemma_lines_read(
    lines: Seq<Seq<char>>,
    after_iso: Option<Seq<char>>,
    k: int,
) -> (at: Seq<int>)
    requires
        0 <= k <= lines.len(),
    ensures
        at.len() == events_of_lines(lines, after_iso, k).len(),
        forall|i: int|
            #![trigger at[i]]
            0 <= i < at.len() ==> 0 <= at[i] < k && log_event(lines[at[i]]) == Some(
                events_of_lines(lines, after_iso, k)[i],
            ),
        forall|i: int, j: int|
            #![trigger at[i], at[j]]
            0 <= i < j < at.len() ==> at[i] < at[j],
        forall|x: int|
            #![trigger lines[x]]
            0 <= x < k ==> (at.contains(x) <==> log_event(lines[x]) is Some && (after_iso is None
                || crate::text::lex_before(after_iso->0, log_event(lines[x])->0.ts_iso))),
    decreases k,
{
    if k <= 0 {
        Seq::empty()
    } else {
        let before = lemma_lines_read(lines, after_iso, k - 1);
        let here = log_event(lines[k - 1]);
        let at = if here is Some && is_after(here->0, after_iso) {
            before.push(k - 1)
        } else {
            before
        };
        assert forall|x: int|
            #![trigger lines[x]]
            0 <= x < k implies (at.contains(x) <==> log_event(lines[x]) is Some && (
        after_iso is None || crate::text::lex_before(
            after_iso->0,
            log_event(lines[x])->0.ts_iso,
        ))) by {
            if x < k - 1 {
                if before.contains(x) {
                    let i = choose|i: int| 0 <= i < before.len() && before[i] == x;
                    assert(at[i] == x);
                }
                if at.contains(x) {
                    let i = choose|i: int| 0 <= i < at.len() && at[i] == x;
                    assert(before[i] == x);
                }
            } else if at.len() > before.len() {
                assert(at[before.len() as int] == x);
            } else if at.contains(x) {
                let i = choose|i: int| 0 <= i < at.len() && at[i] == x;
                assert(before[i] < k - 1);
            }
        }
        at
    }
}

/// Reading a log gives the events of its lines in their order: of every line that
/// is an event and, where there is a watermark, comes after it by its timestamp,
/// and of no other.
pub proof fn every_line_after_the_watermark_is_read(
    log: Seq<char>,
    after_iso: Option<Seq<char>>,
) -> (at: Seq<int>)
    ensures
        ({
            let lines = crate::text::lines(log);
            let r = events_since(log, after_iso);
            &&& at.len() == r.len()
            &&& forall|i: int|
                #![trigger at[i]]
                0 <= i < at.len() ==> 0 <= at[i] < lines.len() && log_event(lines[at[i]]) == Some(
                    r[i],
                )
            &&& forall|i: int, j: int|
                #![trigger at[i], at[j]]
                0 <= i < j < at.len() ==> at[i] < at[j]
            &&& forall|x: int|
                #![trigger lines[x]]
                0 <= x < lines.len() ==> (at.contains(x) <==> log_event(lines[x]) is Some && (
                after_iso is None || crate::text::lex_before(
                    after_iso->0,
                    log_event(lines[x])->0.ts_iso,
                )))
        }),
{
    let lines = crate::text::lines(log);
    lemma_lines_read(lines, after_iso, lines.len() as int)
}

/// What follows the name on a line.
pub open spec fn after_name(json: Option<Seq<char>>) -> Seq<char> {
    match json {
        Some(j) => " {"@ + j,
        None => Seq::empty(),
    }
}

/// A line reads `<ts> [src] <level> - <name> <json?>`: the timestamp is what
/// stands before its first space, the name starts after the first dash that
/// follows, and the JSON object is the rest from the first brace that a space
/// precedes. A line without a name is no event.
pub proof fn a_log_line_is_its_parts(
    line: Seq<char>,
    ts_iso: Seq<char>,
    level: Seq<char>,
    name: Seq<char>,
    json: Option<Seq<char>>,
)
    requires
        ({
            let after = name + after_name(json);
            let rest = level + " - "@ + after;
            &&& crate::text::trim(line) == ts_iso + " "@ + rest
            &&& forall|k: int|
                0 <= k < ts_iso.len() ==> !crate::text::occurs_at(ts_iso + " "@ + rest, " "@, k)
            &&& forall|k: int| 0 <= k < level.len() ==> !crate::text::occurs_at(rest, " - "@, k)
            &&& json is Some ==> forall|k: int|
                0 <= k < name.len() ==> !crate::text::occurs_at(
                    name + (" {"@ + json->0),
                    " {"@,
                    k,
                )
            &&& json is None ==> !crate::text::contains(name, " {"@)
        }),
    ensures
        match log_head(line) {
            Some(h) => {
                &&& crate::text::trim(name).len() > 0
                &&& h.ts_iso == ts_iso
                &&& h.name == crate::text::trim(name)
                &&& h.json == match json {
                    Some(j) => "{"@ + j,
                    None => Seq::<char>::empty(),
                }
                &&& h.raw == crate::text::trim(line)
            },
            None => crate::text::trim(name).len() == 0,
        },
{
    let after = name + after_name(json);
    let rest = level + " - "@ + after;
    cutting_parts_at_the_first(ts_iso, " "@, rest);
    cutting_parts_at_the_first(level, " - "@, after);
    match json {
        Some(j) => {
            assert(name + (" {"@ + j) =~= name + " {"@ + j);
            cutting_parts_at_the_first(name, " {"@, j);
        },
        None => {
            assert(after =~= name);
            cutting_needs_a_separator(name, " {"@, name);
        },
    }
}

/// A line without a space, or without a dash after its first space, is no event.
pub proof fn a_log_line_needs_a_dash(line: Seq<char>, ts_iso: Seq<char>, rest: Seq<char>)
    requires
        !crate::text::contains(crate::text::trim(line), " "@) || (crate::text::trim(line) == ts_iso
            + " "@ + rest && !crate::text::contains(rest, " - "@) && forall|k: int|
            0 <= k < ts_iso.len() ==> !crate::text::occurs_at(crate::text::trim(line), " "@, k)),
    ensures
        log_head(line) is None,
        log_event(line) is None,
{
    if !crate::text::contains(crate::text::trim(line), " "@) {
        cutting_needs_a_separator(crate::text::trim(line), " "@, rest);
    } else {
        cutting_parts_at_the_first(ts_iso, " "@, rest);
        cutting_needs_a_separator(rest, " - "@, rest);
    }
}

/// An event holds the members of its line's JSON object that carry its names.
pub proof fn members_are_read_by_name(line: Seq<char>)
    requires
        log_head(line) is Some,
        log_head(line)->0.json.len() > 0,
        json_parses(log_head(line)->0.json),
    ensures
        ({
            let h = log_head(line)->0;
            let e = log_event(line)->0;
            &&& log_event(line) is Some
            &&& e.ts_iso == h.ts_iso && e.name == h.name && e.raw == h.raw
            &&& Some(e.ts_ms) == rfc3339_millis(h.ts_iso) || (rfc3339_millis(h.ts_iso) is None
                && e.ts_ms == 0)
            &&& e.signed_in == bool_of(json_member(h.json, "signedIn"@))
            &&& e.has_ad == bool_of(json_member(h.json, "hasAd"@))
            &&& e.injection_on == bool_of(json_member(h.json, "injectionOn"@))
            &&& e.killed == bool_of(json_member(h.json, "killed"@))
            &&& e.cc_version == text_of(json_member(h.json, "ccVersion"@))
        }),
{
    let keys = event_keys();
    assert(keys[0] == "signedIn"@ && keys[1] == "hasAd"@ && keys[2] == "injectionOn"@);
    assert(keys[3] == "killed"@ && keys[4] == "ccVersion"@);
}

// ---- the live state ---------------------------------------------------------

/// The most recent lifecycle state, used by the dashboard header.
#[derive(Debug)]
pub struct LiveState {
    pub signed_in: Option<bool>,
    pub injection_on: Option<bool>,
    pub killed: Option<bool>,
    pub has_ad: Option<bool>,
    pub cc_version: Option<String>,
    pub last_ts_iso: Option<String>,
}

/// What a live state holds.
pub struct LiveStateView {
    pub signed_in: Option<bool>,
    pub injection_on: Option<bool>,
    pub killed: Option<bool>,
    pub has_ad: Option<bool>,
    pub cc_version: Option<Seq<char>>,
    pub last_ts_iso: Option<Seq<char>>,
}

impl View for LiveState {
    type V = LiveStateView;

    open spec fn view(&self) -> LiveStateView {
        LiveStateView {
            signed_in: self.signed_in,
            injection_on: self.injection_on,
            killed: self.killed,
            has_ad: self.has_ad,
            cc_version: opt_view(self.cc_version),
            last_ts_iso: opt_view(self.last_ts_iso),
        }
    }
}

/// The state before anything is known.
pub open spec fn unknown_state() -> LiveStateView {
    LiveStateView {
        signed_in: None,
        injection_on: None,
        killed: None,
        has_ad: None,
        cc_version: None,
        last_ts_iso: None,
    }
}

impl Default for LiveState {
    fn default() -> (r: LiveState)
        ensures
            r@ == unknown_state(),
    {
        LiveState {
            signed_in: None,
            injection_on: None,
            killed: None,
            has_ad: None,
            cc_version: None,
            last_ts_iso: None,
        }
    }
}

/// The newer of two optional values: the second where there is one.
pub open spec fn newer<T>(old: Option<T>, new: Option<T>) -> Option<T> {
    if new is Some {
        new
    } else {
        old
    }
}

/// The state after one more event: a `session.state` event replaces what it
/// reports and leaves the rest.
pub open spec fn state_after(st: LiveStateView, e: LogEventView) -> LiveStateView {
    if e.name == "session.state"@ {
        LiveStateView {
            signed_in: newer(st.signed_in, e.signed_in),
            injection_on: newer(st.injection_on, e.injection_on),
            killed: newer(st.killed, e.killed),
            has_ad: newer(st.has_ad, e.has_ad),
            cc_version: newer(st.cc_version, e.cc_version),
            last_ts_iso: Some(e.ts_iso),
        }
    } else {
        st
    }
}

/// The state after a sequence of events.
pub open spec fn live_state(events: Seq<LogEventView>) -> LiveStateView
    decreases events.len(),
{
    if events.len() == 0 {
        unknown_state()
    } else {
        state_after(live_state(events.drop_last()), events.last())
    }
}

/// Whether an event is a `session.state` event that reports something.
pub open spec fn is_report<T>(e: LogEventView, get: spec_fn(LogEventView) -> Option<T>) -> bool {
    e.name == "session.state"@ && get(e) is Some
}

/// Whether no event after the one at `i` reports something.
pub open spec fn none_after<T>(
    events: Seq<LogEventView>,
    get: spec_fn(LogEventView) -> Option<T>,
    i: int,
) -> bool {
    forall|j: int| i < j < events.len() ==> !is_report(#[trigger] events[j], get)
}

/// Whether a value is what the last report of it says: nothing exactly where no
/// event reports it, and otherwise what an event reports that no later report
/// follows.
pub open spec fn last_report_stands<T>(
    events: Seq<LogEventView>,
    get: spec_fn(LogEventView) -> Option<T>,
    value: Option<T>,
) -> bool {
    &&& value is None <==> none_after(events, get, -1)
    &&& forall|i: int|
        0 <= i < events.len() && is_report(events[i], get) && #[trigger] none_after(
            events,
            get,
            i,
        ) ==> value == get(events[i])
}

proof fn lemma_none_after<T>(
    events: Seq<LogEventView>,
    get: spec_fn(LogEventView) -> Option<T>,
    i: int,
)
    requires
        -1 <= i < events.len() - 1,
    ensures
        none_after(events, get, i) == (none_after(events.drop_last(), get, i) && !is_report(
            events.last(),
            get,
        )),
{
    let front = events.drop_last();
    let n = events.len() - 1;
    assert(events[n] == events.last());
    if none_after(events, get, i) {
        assert forall|j: int| i < j < front.len() implies !is_report(#[trigger] front[j], get) by {
            assert(front[j] == events[j]);
        }
    }
    if none_after(front, get, i) && !is_report(events.last(), get) {
        assert forall|j: int| i < j < events.len() implies !is_report(#[trigger] events[j], get) by {
            if j < n {
                assert(front[j] == events[j]);
            }
        }
    }
}

proof fn lemma_report_stands<T>(
    events: Seq<LogEventView>,
    get: spec_fn(LogEventView) -> Option<T>,
    before: Option<T>,
    value: Option<T>,
)
    requires
        events.len() > 0,
        last_report_stands(events.drop_last(), get, before),
        value == if is_report(events.last(), get) {
            get(events.last())
        } else {
            before
        },
    ensures
        last_report_stands(events, get, value),
{
    let n = events.len() - 1;
    let front = events.drop_last();
    assert(events[n] == events.last());
    lemma_none_after(events, get, -1);
    assert forall|i: int|
        0 <= i < events.len() && is_report(events[i], get) && #[trigger] none_after(
            events,
            get,
            i,
        ) implies value == get(events[i]) by {
        if i < n {
            lemma_none_after(events, get, i);
            assert(front[i] == events[i]);
        }
    }
}

/// Each part of the live state is what the last `session.state` event that
/// reports it says, and unknown only where none does. Other events say nothing.
pub proof fn the_last_report_of_each_flag_stands(events: Seq<LogEventView>)
    ensures
        ({
            let st = live_state(events);
            &&& last_report_stands(events, |e: LogEventView| e.signed_in, st.signed_in)
            &&& last_report_stands(events, |e: LogEventView| e.injection_on, st.injection_on)
            &&& last_report_stands(events, |e: LogEventView| e.killed, st.killed)
            &&& last_report_stands(events, |e: LogEventView| e.has_ad, st.has_ad)
            &&& last_report_stands(events, |e: LogEventView| e.cc_version, st.cc_version)
            &&& last_report_stands(events, |e: LogEventView| Some(e.ts_iso), st.last_ts_iso)
        }),
    decreases events.len(),
{
    if events.len() == 0 {
        assert(live_state(events) == unknown_state());
    } else {
        let front = events.drop_last();
        the_last_report_of_each_flag_stands(front);
        let a = live_state(front);
        let b = live_state(events);
        lemma_report_stands(events, |e: LogEventView| e.signed_in, a.signed_in, b.signed_in);
        lemma_report_stands(
            events,
            |e: LogEventView| e.injection_on,
            a.injection_on,
            b.injection_on,
        );
        lemma_report_stands(events, |e: LogEventView| e.killed, a.killed, b.killed);
        lemma_report_stands(events, |e: LogEventView| e.has_ad, a.has_ad, b.has_ad);
        lemma_report_stands(events, |e: LogEventView| e.cc_version, a.cc_version, b.cc_version);
        lemma_report_stands(
            events,
            |e: LogEventView| Some(e.ts_iso),
            a.last_ts_iso,
            b.last_ts_iso,
        );
    }
}

/// Fold events into the latest known `session.state`.
pub fn fold_state(events: &Vec<LogEvent>) -> (r: LiveState)
    ensures
        r@ == live_state(event_views(events@)),
        last_report_stands(event_views(events@), |e: LogEventView| e.signed_in, r.signed_in),
        last_report_stands(event_views(events@), |e: LogEventView| e.injection_on, r.injection_on),
        last_report_stands(event_views(events@), |e: LogEventView| e.killed, r.killed),
        last_report_stands(event_views(events@), |e: LogEventView| e.has_ad, r.has_ad),
        last_report_stands(event_views(events@), |e: LogEventView| e.cc_version, r@.cc_version),
        last_report_stands(
            event_views(events@),
            |e: LogEventView| Some(e.ts_iso),
            r@.last_ts_iso,
        ),
{
    proof {
        the_last_report_of_each_flag_stands(event_views(events@));
    }
    let mut st = LiveState::default();
    let mut i: usize = 0;
    while i < events.len()
        invariant
            i <= events@.len(),
            st@ == live_state(event_views(events@).take(i as int)),
        decreases events@.len() - i,
    {
        let ev = &events[i];
        proof {
            let next = event_views(events@).take(i + 1);
            assert(next.drop_last() =~= event_views(events@).take(i as int));
            assert(next.last() == ev@);
        }
        if same_text(ev.name.as_str(), "session.state") {
            if ev.signed_in.is_some() {
                st.signed_in = ev.signed_in;
            }
            if ev.injection_on.is_some() {
                st.injection_on = ev.injection_on;
            }
            if ev.killed.is_some() {
                st.killed = ev.killed;
            }
            if ev.has_ad.is_some() {
                st.has_ad = ev.has_ad;
            }
            if ev.cc_version.is_some() {
                st.cc_version = clone_opt(&ev.cc_version);
            }
            st.last_ts_iso = Some(ev.ts_iso.clone());
        }
        i = i + 1;
    }
    assert(event_views(events@).take(i as int) =~= event_views(events@));
    st
}

/// Fold the text of the log into the latest known `session.state`.
pub fn read_live_state(log: Option<&str>) -> (r: LiveState)
    ensures
        r@ == (match log {
            Some(text) => live_state(events_since(text@, None)),
            None => unknown_state(),
        }),
{
    let events = read_events_since(log, None);
    fold_state(&events)
}

// ---- why ads show or not ----------------------------------------------------

/// Why ads are or are not showing, derived purely from local signals.
#[derive(Debug, Clone, Copy, PartialEq, Eq, Structural)]
pub enum AdStatus {
    /// Not signed in, so nothing accrues.
    SignedOut,
    /// The killswitch is active (server-side pause).
    Paused,
    /// Ad injection is switched off locally.
    InjectionOff,
    /// An ad is being served right now.
    Live,
    /// Signed in and enabled, but no active session is rendering an ad.
    Idle,
}

/// The label of a status.
pub open spec fn status_label(s: AdStatus) -> Seq<char> {
    match s {
        AdStatus::SignedOut => "SIGNED OUT"@,
        AdStatus::Paused => "PAUSED (kickbacks killswitch active)"@,
        AdStatus::InjectionOff => "OFF (ad injection disabled)"@,
        AdStatus::Live => "LIVE (ad showing now)"@,
        AdStatus::Idle => "IDLE (no active coding session)"@,
    }
}

impl AdStatus {
    /// Short human label.
    pub fn label(self) -> (r: &'static str)
        ensures
            r@ == status_label(self),
    {
        match self {
            AdStatus::SignedOut => "SIGNED OUT",
            AdStatus::Paused => "PAUSED (kickbacks killswitch active)",
            AdStatus::InjectionOff => "OFF (ad injection disabled)",
            AdStatus::Live => "LIVE (ad showing now)",
            AdStatus::Idle => "IDLE (no active coding session)",
        }
    }

    /// True when ads are actually flowing.
    pub fn is_live(self) -> (r: bool)
        ensures
            r == (self == AdStatus::Live),
    {
        match self {
            AdStatus::Live => true,
            _ => false,
        }
    }
}

/// The status of the ads. Being signed out comes first, then the killswitch,
/// then the local switch; only then does it matter whether the ad is fresh.
pub open spec fn status_of(state: LiveStateView, ad_fresh: bool) -> AdStatus {
    if state.signed_in != Some(true) {
        AdStatus::SignedOut
    } else if state.killed == Some(true) {
        AdStatus::Paused
    } else if state.injection_on != Some(true) {
        AdStatus::InjectionOff
    } else if ad_fresh {
        AdStatus::Live
    } else {
        AdStatus::Idle
    }
}

/// Whether an optional flag is known to be set.
pub fn is_set(flag: Option<bool>) -> (r: bool)
    ensures
        r == (flag == Some(true)),
{
    match flag {
        Some(b) => b,
        None => false,
    }
}

/// Decide the ad status from the latest lifecycle state and whether the current
/// ad file is fresh. `killed` takes priority over everything except being signed
/// out, because that is the surprising case.
pub fn ad_status(state: &LiveState, ad_fresh: bool) -> (r: AdStatus)
    ensures
        r == status_of(state@, ad_fresh),
{
    if !is_set(state.signed_in) {
        return AdStatus::SignedOut;
    }
    if is_set(state.killed) {
        return AdStatus::Paused;
    }
    if !is_set(state.injection_on) {
        return AdStatus::InjectionOff;
    }
    if ad_fresh {
        AdStatus::Live
    } else {
        AdStatus::Idle
    }
}

/// What each status takes: ads are live only for somebody who is known to be
/// signed in, with the killswitch not known to be thrown, injection known to be
/// on, and a fresh ad; otherwise the first of these that is missing, in that
/// order, is the status.
pub proof fn each_status_has_one_cause(state: LiveStateView, ad_fresh: bool)
    ensures
        ({
            let s = status_of(state, ad_fresh);
            let signed_in = state.signed_in == Some(true);
            let killed = state.killed == Some(true);
            let on = state.injection_on == Some(true);
            &&& s == AdStatus::SignedOut <==> !signed_in
            &&& s == AdStatus::Paused <==> signed_in && killed
            &&& s == AdStatus::InjectionOff <==> signed_in && !killed && !on
            &&& s == AdStatus::Live <==> signed_in && !killed && on && ad_fresh
            &&& s == AdStatus::Idle <==> signed_in && !killed && on && !ad_fresh
        }),
{
}

// ---- the installed extension ------------------------------------------------

/// What the directory of an installed extension is named before its version.
pub const EXTENSION_PREFIX: &'static str = "kickbacksai.kickbacks-ai-";

/// The highest version among the first `k` directory names; the later of two
/// that rank the same.
pub open spec fn highest_version(names: Seq<Seq<char>>, k: int) -> Option<Seq<char>>
    decreases k,
{
    if k <= 0 {
        None
    } else {
        let best = highest_version(names, k - 1);
        match crate::text::strip_prefix(names[k - 1], EXTENSION_PREFIX@) {
            Some(v) => match best {
                Some(w) => if version_rank(w, v) == Rank::Newer {
                    Some(w)
                } else {
                    Some(v)
                },
                None => Some(v),
            },
            None => best,
        }
    }
}

/// Best-effort installed extension version, read from the names in the editor's
/// extensions directory (`kickbacksai.kickbacks-ai-<version>`). Returns the
/// highest version found, or `None` if the extension is not installed there.
pub fn installed_extension_version(names: &Vec<String>) -> (r: Option<String>)
    ensures
        opt_view(r) == highest_version(views(names@), names@.len() as int),
{
    let mut best: Option<String> = None;
    let mut i: usize = 0;
    while i < names.len()
        invariant
            i <= names@.len(),
            opt_view(best) == highest_version(views(names@), i as int),
        decreases names@.len() - i,
    {
        assert(views(names@)[i as int] == names@[i as int]@);
        if let Some(v) = without_prefix(names[i].as_str(), EXTENSION_PREFIX) {
            let keep: bool = match &best {
                Some(w) => match rank_versions(w.as_str(), v.as_str()) {
                    Rank::Newer => true,
                    _ => false,
                },
                None => false,
            };
            if !keep {
                best = Some(v);
            }
        }
        i = i + 1;
    }
    best
}

proof fn lemma_highest_version(names: Seq<Seq<char>>, k: int)
    requires
        0 <= k <= names.len(),
    ensures
        forall|i: int|
            #![trigger names[i]]
            0 <= i < k && crate::text::strip_prefix(names[i], EXTENSION_PREFIX@) is Some ==> {
                &&& highest_version(names, k) is Some
                &&& version_rank(
                    crate::text::strip_prefix(names[i], EXTENSION_PREFIX@)->0,
                    highest_version(names, k)->0,
                ) != Rank::Newer
            },
        highest_version(names, k) is Some ==> exists|i: int|
            0 <= i < k && crate::text::strip_prefix(#[trigger] names[i], EXTENSION_PREFIX@)
                == highest_version(names, k),
    decreases k,
{
    if k > 0 {
        lemma_highest_version(names, k - 1);
        let best = highest_version(names, k - 1);
        let top = highest_version(names, k);
        let here = crate::text::strip_prefix(names[k - 1], EXTENSION_PREFIX@);
        assert forall|i: int|
            #![trigger names[i]]
            0 <= i < k && crate::text::strip_prefix(names[i], EXTENSION_PREFIX@) is Some implies {
            &&& top is Some
            &&& version_rank(
                crate::text::strip_prefix(names[i], EXTENSION_PREFIX@)->0,
                top->0,
            ) != Rank::Newer
        } by {
            let v = crate::text::strip_prefix(names[i], EXTENSION_PREFIX@)->0;
            if i < k - 1 {
                if here is Some {
                    crate::util::version_rank_is_total_preorder(v, best->0, here->0);
                }
            } else {
                crate::util::version_rank_is_total_preorder(v, v, v);
                if best is Some {
                    crate::util::version_rank_is_total_preorder(best->0, v, v);
                }
            }
        }
        if top is Some {
            if top == here {
                assert(crate::text::strip_prefix(names[k - 1], EXTENSION_PREFIX@) == top);
            } else {
                let i = choose|i: int|
                    0 <= i < k - 1 && crate::text::strip_prefix(
                        #[trigger] names[i],
                        EXTENSION_PREFIX@,
                    ) == best;
                assert(crate::text::strip_prefix(names[i], EXTENSION_PREFIX@) == top);
            }
        }
    }
}

/// The installed version is one of those in the directory, and none of them is
/// newer; there is one exactly where the directory holds the extension.
pub proof fn installed_version_is_highest(names: Seq<Seq<char>>)
    ensures
        ({
            let top = highest_version(names, names.len() as int);
            &&& forall|i: int|
                #![trigger names[i]]
                0 <= i < names.len() && crate::text::strip_prefix(
                    names[i],
                    EXTENSION_PREFIX@,
                ) is Some ==> top is Some && version_rank(
                    crate::text::strip_prefix(names[i], EXTENSION_PREFIX@)->0,
                    top->0,
                ) != Rank::Newer
            &&& top is Some ==> exists|i: int|
                0 <= i < names.len() && crate::text::strip_prefix(
                    #[trigger] names[i],
                    EXTENSION_PREFIX@,
                ) == top
        }),
{
    lemma_highest_version(names, names.len() as int);
}

proof fn lemma_last_of_the_highest(names: Seq<Seq<char>>, k: int) -> (at: int)
    requires
        0 <= k <= names.len(),
        highest_version(names, k) is Some,
    ensures
        0 <= at < k,
        crate::text::strip_prefix(names[at], EXTENSION_PREFIX@) == highest_version(names, k),
        forall|j: int|
            at < j < k && crate::text::strip_prefix(#[trigger] names[j], EXTENSION_PREFIX@) is Some
                ==> version_rank(
                highest_version(names, k)->0,
                crate::text::strip_prefix(names[j], EXTENSION_PREFIX@)->0,
            ) == Rank::Newer,
    decreases k,
{
    let here = crate::text::strip_prefix(names[k - 1], EXTENSION_PREFIX@);
    let best = highest_version(names, k - 1);
    if here is Some && !(best is Some && version_rank(best->0, here->0) == Rank::Newer) {
        k - 1
    } else {
        lemma_last_of_the_highest(names, k - 1)
    }
}

/// Of directories that rank the same, the last counts: every one after that of
/// the installed version is of an older one.
pub proof fn the_last_of_the_highest_is_installed(names: Seq<Seq<char>>) -> (at: int)
    requires
        highest_version(names, names.len() as int) is Some,
    ensures
        ({
            let top = highest_version(names, names.len() as int)->0;
            &&& 0 <= at < names.len()
            &&& names[at] == "kickbacksai.kickbacks-ai-"@ + top
            &&& forall|j: int, v: Seq<char>|
                #![trigger names[j], version_rank(top, v)]
                at < j < names.len() && names[j] == "kickbacksai.kickbacks-ai-"@ + v
                    ==> version_rank(top, v) == Rank::Newer
        }),
{
    let at = lemma_last_of_the_highest(names, names.len() as int);
    let pre = "kickbacksai.kickbacks-ai-"@;
    let top = highest_version(names, names.len() as int)->0;
    assert(names[at] =~= pre + top);
    assert forall|j: int, v: Seq<char>|
        #![trigger names[j], version_rank(top, v)]
        at < j < names.len() && names[j] == pre + v implies version_rank(top, v) == Rank::Newer by {
        assert(names[j].take(pre.len() as int) =~= pre);
        assert(names[j].skip(pre.len() as int) =~= v);
        assert(crate::text::strip_prefix(names[j], pre) == Some(v));
    }
    at
}

} // verus!
