//! Small formatting helpers shared across commands.

use std::cmp::Ordering;

use vstd::prelude::*;

use crate::clock::{has_date, is_label_of, labels_have_their_shape, tells_minute};
use crate::numbers::{all_digits, digit_value, digits_of, digits_value, signed_text};
use crate::text::{
    char_count, chars_of, control, is_digit, is_inert, split_at_each, text_between, trimmed,
};

verus! {

// ---- ages -------------------------------------------------------------------

/// The compact human age of something `ms` milliseconds ago.
pub open spec fn age(ms: int) -> Seq<char> {
    let secs = ms / 1000;
    let mins = secs / 60;
    let hours = mins / 60;
    if ms < 0 {
        "just now"@
    } else if secs < 60 {
        crate::numbers::int_text(secs) + "s ago"@
    } else if mins < 60 {
        crate::numbers::int_text(mins) + "m ago"@
    } else if hours < 24 {
        crate::numbers::int_text(hours) + "h ago"@
    } else {
        crate::numbers::int_text(hours / 24) + "d ago"@
    }
}

/// The age as it stands in dense rows.
pub open spec fn age_short(ms: int) -> Seq<char> {
    let mins = ms / 60000;
    let hours = mins / 60;
    let days = hours / 24;
    if mins < 1 {
        "now"@
    } else if mins < 60 {
        crate::numbers::int_text(mins) + "m"@
    } else if hours < 24 {
        crate::numbers::int_text(hours) + "h"@
    } else if days < 7 {
        crate::numbers::int_text(days) + "d"@
    } else {
        crate::numbers::int_text(days / 7) + "w"@
    }
}

fn with_unit(n: i64, unit: &str) -> (r: String)
    ensures
        r@ == crate::numbers::int_text(n as int) + unit@,
{
    let mut out = signed_text(n);
    out.push_str(unit);
    out
}

/// Compact human age from a millisecond delta (`now - then`).
pub fn human_age(ms_ago: i64) -> (r: String)
    ensures
        r@ == age(ms_ago as int),
{
    if ms_ago < 0 {
        return "just now".to_owned();
    }
    let secs: i64 = ms_ago / 1000;
    if secs < 60 {
        return with_unit(secs, "s ago");
    }
    let mins: i64 = secs / 60;
    if mins < 60 {
        return with_unit(mins, "m ago");
    }
    let hours: i64 = mins / 60;
    if hours < 24 {
        return with_unit(hours, "h ago");
    }
    with_unit(hours / 24, "d ago")
}

/// Compact relative age for dense feed rows: `now`, `5m`, `3h`, `2d`. A
/// negative delta (a future timestamp, as clock skew gives) clamps to `now`.
pub fn human_age_short(ms_ago: i64) -> (r: String)
    ensures
        r@ == age_short(ms_ago as int),
{
    if ms_ago < 0 {
        return "now".to_owned();
    }
    let secs: i64 = ms_ago / 1000;
    if secs < 60 {
        return "now".to_owned();
    }
    let mins: i64 = secs / 60;
    if mins < 60 {
        return with_unit(mins, "m");
    }
    let hours: i64 = mins / 60;
    if hours < 24 {
        return with_unit(hours, "h");
    }
    let days: i64 = hours / 24;
    if days < 7 {
        return with_unit(days, "d");
    }
    with_unit(days / 7, "w")
}

/// `chrono::Local.timestamp_millis_opt`, then `format` of the instant that it
/// gives with `%Y-%m-%d %H:%M`. There is an instant exactly where its date is
/// within chrono's calendar, and the text tells the instant's minute on the
/// machine's clock, which is less than a day ahead or behind. Which clock that is
/// depends on the machine's time zone, so it is not said.
#[verifier::external_body]
fn local_minute(ms: i64) -> (r: Option<String>)
    ensures
        r is Some <==> has_date(ms),
        r is Some ==> tells_minute(r->0@, ms),
{
    match chrono::TimeZone::timestamp_millis_opt(&chrono::Local, ms).single() {
        Some(dt) => Some(dt.format("%Y-%m-%d %H:%M").to_string()),
        None => None,
    }
}

/// Format an epoch-millis instant in the local timezone, e.g. `2026-06-11 22:34`;
/// a dash where it has no such text.
pub fn fmt_datetime(ms: i64) -> (r: String)
    ensures
        is_label_of(r@, ms),
        has_date(ms) ==> r@.len() >= 16,
        -62_167_132_800_000 <= ms < 253_402_214_400_000 ==> {
            &&& r@.len() == 16
            &&& r@[4] == '-' && r@[7] == '-' && r@[10] == ' ' && r@[13] == ':'
        },
{
    let r = datetime_label(local_minute(ms));
    proof {
        if has_date(ms) {
            labels_have_their_shape(r@, ms);
        }
    }
    r
}

/// The text of an instant, or a dash where it has none.
pub fn datetime_label(formatted: Option<String>) -> (r: String)
    ensures
        match formatted {
            Some(s) => r@ == s@,
            None => r@ == "\u{2014}"@,
        },
{
    match formatted {
        Some(s) => s,
        None => "\u{2014}".to_owned(),
    }
}

// ---- text from outside ------------------------------------------------------

/// The characters that count as space in text from outside.
pub open spec fn is_gap(c: char) -> bool {
    c == ' ' || c == '\t' || c == '\n' || c == '\r'
}

/// What is written of `s` before its last space is dropped: the visible
/// characters, and one space for each run of gaps after the first of them.
pub open spec fn collapsed(s: Seq<char>) -> Seq<char>
    decreases s.len(),
{
    if s.len() == 0 {
        Seq::empty()
    } else {
        let head = collapsed(s.drop_last());
        let c = s.last();
        if is_gap(c) {
            if head.len() > 0 && head.last() != ' ' {
                head.push(' ')
            } else {
                head
            }
        } else if crate::text::is_control(c) {
            head
        } else {
            head.push(c)
        }
    }
}

/// `s` without control characters, with each run of gaps as one space and no
/// space at either end.
pub open spec fn sanitized(s: Seq<char>) -> Seq<char> {
    let t = collapsed(s);
    if t.len() > 0 && t.last() == ' ' {
        t.drop_last()
    } else {
        t
    }
}

/// Strip control characters from text that came from outside this process (an
/// ad creative, a remote feed item) and collapse whitespace runs to a single
/// space. Removes C0, DEL, and C1 controls, so that external text can never
/// emit its own terminal escapes, newlines, or tabs.
pub fn sanitize_text(s: &str) -> (r: String)
    ensures
        r@ == sanitized(s@),
{
    let v = chars_of(s);
    let mut out: Vec<char> = Vec::new();
    let mut i: usize = 0;
    while i < v.len()
        invariant
            v@ == s@,
            i <= v@.len(),
            out@ == collapsed(v@.take(i as int)),
        decreases v@.len() - i,
    {
        let c: char = v[i];
        proof {
            assert(v@.take(i + 1).drop_last() =~= v@.take(i as int));
            assert(v@.take(i + 1).last() == c);
        }
        if c == ' ' || c == '\t' || c == '\n' || c == '\r' {
            if out.len() > 0 && out[out.len() - 1] != ' ' {
                out.push(' ');
            }
        } else if !control(c) {
            out.push(c);
        }
        i = i + 1;
    }
    assert(v@.take(i as int) =~= s@);
    if out.len() > 0 && out[out.len() - 1] == ' ' {
        let n: usize = out.len() - 1;
        assert(out@.subrange(0, n as int) =~= out@.drop_last());
        text_between(&out, 0, n)
    } else {
        let n: usize = out.len();
        assert(out@.subrange(0, n as int) =~= out@);
        text_between(&out, 0, n)
    }
}

/// Whether a text is safe on one line of a terminal: no control character, no
/// space at either end, no two spaces in a row.
pub open spec fn is_clean(s: Seq<char>) -> bool {
    &&& forall|i: int| 0 <= i < s.len() ==> !crate::text::is_control(#[trigger] s[i])
    &&& s.len() > 0 ==> s[0] != ' ' && s.last() != ' '
    &&& forall|i: int| 0 <= i < s.len() - 1 ==> !(#[trigger] s[i] == ' ' && s[i + 1] == ' ')
}

proof fn lemma_collapsed_clean(s: Seq<char>)
    ensures
        ({
            let t = collapsed(s);
            &&& forall|i: int| 0 <= i < t.len() ==> !crate::text::is_control(#[trigger] t[i])
            &&& t.len() > 0 ==> t[0] != ' '
            &&& forall|i: int|
                0 <= i < t.len() - 1 ==> !(#[trigger] t[i] == ' ' && t[i + 1] == ' ')
        }),
    decreases s.len(),
{
    if s.len() > 0 {
        lemma_collapsed_clean(s.drop_last());
    }
}

proof fn lemma_collapsed_fixed(s: Seq<char>)
    requires
        forall|i: int| 0 <= i < s.len() ==> !crate::text::is_control(#[trigger] s[i]),
        s.len() > 0 ==> s[0] != ' ',
        forall|i: int| 0 <= i < s.len() - 1 ==> !(#[trigger] s[i] == ' ' && s[i + 1] == ' '),
    ensures
        collapsed(s) == s,
    decreases s.len(),
{
    if s.len() > 0 {
        let h = s.drop_last();
        assert forall|i: int| 0 <= i < h.len() implies !crate::text::is_control(
            #[trigger] h[i],
        ) by {
            assert(h[i] == s[i]);
        }
        assert forall|i: int| 0 <= i < h.len() - 1 implies !(#[trigger] h[i] == ' ' && h[i + 1]
            == ' ') by {
            assert(h[i] == s[i]);
        }
        lemma_collapsed_fixed(h);
        assert(!crate::text::is_control(s[s.len() - 1]));
        if h.len() > 0 && s.last() == ' ' {
            assert(s[h.len() - 1] == h.last());
        }
        assert(h.push(s.last()) =~= s);
    }
}

/// Sanitized text is clean: it can neither break a line nor emit an escape.
pub proof fn sanitized_is_clean(s: Seq<char>)
    ensures
        is_clean(sanitized(s)),
{
    lemma_collapsed_clean(s);
    let t = collapsed(s);
    let r = sanitized(s);
    assert forall|i: int| 0 <= i < r.len() implies !crate::text::is_control(#[trigger] r[i]) by {
        assert(r[i] == t[i]);
    }
    assert forall|i: int| 0 <= i < r.len() - 1 implies !(#[trigger] r[i] == ' ' && r[i + 1]
        == ' ') by {
        assert(r[i] == t[i]);
    }
    if r.len() > 0 {
        assert(r[0] == t[0]);
        if t.last() == ' ' {
            assert(t[t.len() - 2] == r.last());
        }
    }
}

/// Clean text is left as it is, so sanitizing twice is sanitizing once.
pub proof fn sanitizing_is_idempotent(s: Seq<char>)
    ensures
        is_clean(s) ==> sanitized(s) == s,
        sanitized(sanitized(s)) == sanitized(s),
{
    if is_clean(s) {
        lemma_collapsed_fixed(s);
    }
    sanitized_is_clean(s);
    lemma_collapsed_fixed(sanitized(s));
}

/// The visible characters of a text: neither gaps nor controls.
pub open spec fn visible(s: Seq<char>) -> Seq<char> {
    s.filter(|c: char| !is_gap(c) && !crate::text::is_control(c))
}

proof fn lemma_visible_push(s: Seq<char>, c: char)
    ensures
        visible(s.push(c)) == if is_gap(c) || crate::text::is_control(c) {
            visible(s)
        } else {
            visible(s).push(c)
        },
{
    reveal(Seq::filter);
    assert(s.push(c).drop_last() =~= s);
}

proof fn lemma_collapsed_keeps(s: Seq<char>)
    ensures
        visible(collapsed(s)) == visible(s),
    decreases s.len(),
{
    reveal(Seq::filter);
    if s.len() > 0 {
        let h = s.drop_last();
        lemma_collapsed_keeps(h);
        assert(s =~= h.push(s.last()));
        lemma_visible_push(h, s.last());
        lemma_visible_push(collapsed(h), s.last());
        lemma_visible_push(collapsed(h), ' ');
    }
}

/// Sanitizing keeps every visible character, in order.
pub proof fn sanitizing_keeps_what_is_visible(s: Seq<char>)
    ensures
        visible(sanitized(s)) == visible(s),
{
    lemma_collapsed_keeps(s);
    let t = collapsed(s);
    if t.len() > 0 && t.last() == ' ' {
        lemma_visible_push(t.drop_last(), ' ');
        assert(t =~= t.drop_last().push(' '));
    }
}

// ---- versions ---------------------------------------------------------------

/// How one version stands to another.
#[derive(Clone, Copy, Debug, PartialEq, Eq, Structural)]
pub enum Rank {
    Older,
    Same,
    Newer,
}

/// The number that one dotted component writes in decimal, however large; zero
/// where it is not a number.
pub open spec fn component(part: Seq<char>) -> nat {
    match crate::numbers::unsigned_value(crate::text::trim(part)) {
        Some(n) => n,
        None => 0,
    }
}

/// The number of one dotted component; zero where it is missing.
pub open spec fn version_part(v: Seq<char>, i: int) -> nat {
    let parts = crate::text::split(v, "."@);
    if 0 <= i < parts.len() {
        component(parts[i])
    } else {
        0
    }
}

/// How many dotted components a version has.
pub open spec fn version_len(v: Seq<char>) -> int {
    crate::text::split(v, "."@).len() as int
}

/// The order of two versions by their components from `i` up to `n`.
pub open spec fn rank_from(a: Seq<char>, b: Seq<char>, i: int, n: int) -> Rank
    decreases n - i,
{
    if i >= n {
        Rank::Same
    } else if version_part(a, i) < version_part(b, i) {
        Rank::Older
    } else if version_part(a, i) > version_part(b, i) {
        Rank::Newer
    } else {
        rank_from(a, b, i + 1, n)
    }
}

/// The order of two versions: by their first component that differs.
pub open spec fn version_rank(a: Seq<char>, b: Seq<char>) -> Rank {
    let n = if version_len(a) >= version_len(b) {
        version_len(a)
    } else {
        version_len(b)
    };
    rank_from(a, b, 0, n)
}

fn part_digits(parts: &Vec<String>, i: usize) -> (r: Vec<char>)
    ensures
        all_digits(r@),
        i < parts@.len() ==> digits_value(r@) == component(parts@[i as int]@),
        i >= parts@.len() ==> digits_value(r@) == 0,
{
    if i < parts.len() {
        let t = trimmed(parts[i].as_str());
        match digits_of(t.as_str()) {
            Some(digits) => digits,
            None => Vec::new(),
        }
    } else {
        Vec::new()
    }
}

/// The order of two numbers.
pub open spec fn number_rank(a: nat, b: nat) -> Rank {
    if a < b {
        Rank::Older
    } else if a > b {
        Rank::Newer
    } else {
        Rank::Same
    }
}

/// Ranks two numbers by their digits, of which there may be any number: the
/// shorter counts as if zeros led it.
pub fn rank_digits(a: &Vec<char>, b: &Vec<char>) -> (r: Rank)
    requires
        all_digits(a@),
        all_digits(b@),
    ensures
        r == number_rank(digits_value(a@), digits_value(b@)),
{
    let la: usize = a.len();
    let lb: usize = b.len();
    let n: usize = if la >= lb {
        la
    } else {
        lb
    };
    let mut rank = Rank::Same;
    let mut i: usize = 0;
    let mut x: usize = 0;
    let mut y: usize = 0;
    proof {
        assert(a@.take(0) =~= Seq::<char>::empty());
        assert(b@.take(0) =~= Seq::<char>::empty());
    }
    while i < n
        invariant
            la == a@.len(),
            lb == b@.len(),
            la <= n,
            lb <= n,
            n == la || n == lb,
            i <= n,
            all_digits(a@),
            all_digits(b@),
            x == if i >= n - la {
                i - (n - la)
            } else {
                0
            },
            y == if i >= n - lb {
                i - (n - lb)
            } else {
                0
            },
            rank == number_rank(digits_value(a@.take(x as int)), digits_value(b@.take(y as int))),
        decreases n - i,
    {
        let p: char = if i >= n - la {
            a[x]
        } else {
            '0'
        };
        let q: char = if i >= n - lb {
            b[y]
        } else {
            '0'
        };
        let ghost va = digits_value(a@.take(x as int));
        let ghost vb = digits_value(b@.take(y as int));
        if i >= n - la {
            proof {
                let next = a@.take(x + 1);
                assert(next.drop_last() =~= a@.take(x as int));
                assert(next.last() == a@[x as int]);
                assert(is_digit(a@[x as int]));
            }
            x = x + 1;
        }
        if i >= n - lb {
            proof {
                let next = b@.take(y + 1);
                assert(next.drop_last() =~= b@.take(y as int));
                assert(next.last() == b@[y as int]);
                assert(is_digit(b@[y as int]));
            }
            y = y + 1;
        }
        assert(digits_value(a@.take(x as int)) == va * 10 + digit_value(p));
        assert(digits_value(b@.take(y as int)) == vb * 10 + digit_value(q));
        if rank == Rank::Same {
            if p < q {
                rank = Rank::Older;
            } else if p > q {
                rank = Rank::Newer;
            }
        }
        i = i + 1;
    }
    proof {
        assert(a@.take(x as int) =~= a@);
        assert(b@.take(y as int) =~= b@);
    }
    rank
}

/// Ranks version `a` against version `b`.
pub fn rank_versions(a: &str, b: &str) -> (r: Rank)
    ensures
        r == version_rank(a@, b@),
{
    proof {
        reveal_strlit(".");
    }
    let x = split_at_each(a, ".");
    let y = split_at_each(b, ".");
    let n: usize = if x.len() >= y.len() {
        x.len()
    } else {
        y.len()
    };
    let mut i: usize = 0;
    while i < n
        invariant
            crate::text::views(x@) == crate::text::split(a@, "."@),
            crate::text::views(y@) == crate::text::split(b@, "."@),
            i <= n,
            version_rank(a@, b@) == rank_from(a@, b@, i as int, n as int),
        decreases n - i,
    {
        let p = part_digits(&x, i);
        let q = part_digits(&y, i);
        proof {
            assert(crate::text::views(x@).len() == x@.len());
            assert(crate::text::views(y@).len() == y@.len());
            if i < x@.len() {
                assert(crate::text::views(x@)[i as int] == x@[i as int]@);
            }
            if i < y@.len() {
                assert(crate::text::views(y@)[i as int] == y@[i as int]@);
            }
            assert(digits_value(p@) == version_part(a@, i as int));
            assert(digits_value(q@) == version_part(b@, i as int));
        }
        match rank_digits(&p, &q) {
            Rank::Older => return Rank::Older,
            Rank::Newer => return Rank::Newer,
            Rank::Same => {},
        }
        i = i + 1;
    }
    Rank::Same
}

/// Compare two dotted version strings numerically (`0.3.9 < 0.3.10`), treating
/// a missing or non-numeric component as zero.
pub fn version_cmp(a: &str, b: &str) -> (r: Ordering)
    ensures
        r == (match version_rank(a@, b@) {
            Rank::Older => Ordering::Less,
            Rank::Same => Ordering::Equal,
            Rank::Newer => Ordering::Greater,
        }),
{
    match rank_versions(a, b) {
        Rank::Older => Ordering::Less,
        Rank::Same => Ordering::Equal,
        Rank::Newer => Ordering::Greater,
    }
}

proof fn lemma_rank_extends(a: Seq<char>, b: Seq<char>, i: int, n: int, m: int)
    requires
        0 <= i,
        version_len(a) <= n,
        version_len(b) <= n,
        n <= m,
    ensures
        rank_from(a, b, i, n) == rank_from(a, b, i, m),
    decreases m - i,
{
    if i < m {
        lemma_rank_extends(a, b, i + 1, n, m);
        if i >= n {
            assert(version_part(a, i) == 0);
            assert(version_part(b, i) == 0);
        }
    }
}

proof fn lemma_rank_flips(a: Seq<char>, b: Seq<char>, i: int, n: int)
    ensures
        rank_from(a, b, i, n) == Rank::Older <==> rank_from(b, a, i, n) == Rank::Newer,
        rank_from(a, b, i, n) == Rank::Same <==> rank_from(b, a, i, n) == Rank::Same,
    decreases n - i,
{
    if i < n {
        lemma_rank_flips(a, b, i + 1, n);
    }
}

proof fn lemma_rank_chains(a: Seq<char>, b: Seq<char>, c: Seq<char>, i: int, n: int)
    ensures
        rank_from(a, b, i, n) != Rank::Newer && rank_from(b, c, i, n) != Rank::Newer ==> {
            &&& rank_from(a, c, i, n) != Rank::Newer
            &&& (rank_from(a, c, i, n) == Rank::Same ==> rank_from(a, b, i, n) == Rank::Same
                && rank_from(b, c, i, n) == Rank::Same)
        },
    decreases n - i,
{
    if i < n {
        lemma_rank_chains(a, b, c, i + 1, n);
    }
}

proof fn lemma_rank_same_parts(a: Seq<char>, b: Seq<char>, i: int, n: int)
    requires
        forall|k: int| #[trigger] version_part(a, k) == version_part(b, k),
    ensures
        rank_from(a, b, i, n) == Rank::Same,
    decreases n - i,
{
    if i < n {
        assert(version_part(a, i) == version_part(b, i));
        lemma_rank_same_parts(a, b, i + 1, n);
    }
}

/// A missing component counts as zero: a version with a zero component at its end
/// is the same version.
pub proof fn a_trailing_zero_changes_nothing(v: Seq<char>)
    ensures
        version_rank(v + ".0"@, v) == Rank::Same,
{
    reveal_strlit(".0");
    reveal_strlit(".");
    let zero = seq!['0'];
    let longer = v + ".0"@;
    assert(longer =~= v.push('.') + zero);
    assert("."@ =~= seq!['.']);
    crate::text::split_of_appended(v, zero, '.');
    let parts = crate::text::split(v, "."@);
    assert(crate::text::split(longer, "."@) == parts.push(zero));
    assert(component(zero) == 0) by {
        reveal_with_fuel(crate::text::skip_white, 2);
        reveal_with_fuel(crate::text::trim_end, 2);
        reveal_with_fuel(digits_value, 2);
        assert(zero.skip(0) =~= zero);
        assert(crate::text::trim(zero) =~= zero);
        assert(zero.drop_last() =~= Seq::<char>::empty());
    }
    assert forall|k: int| #[trigger] version_part(longer, k) == version_part(v, k) by {
        if 0 <= k < parts.len() {
            assert(parts.push(zero)[k] == parts[k]);
        }
    }
    let n = version_len(longer);
    lemma_rank_same_parts(longer, v, 0, n);
}

/// Ranking versions is a total preorder: a version is the same as itself,
/// swapping the two sides swaps the answer, and not being newer is transitive.
pub proof fn version_rank_is_total_preorder(a: Seq<char>, b: Seq<char>, c: Seq<char>)
    ensures
        version_rank(a, a) == Rank::Same,
        version_rank(a, b) == Rank::Older <==> version_rank(b, a) == Rank::Newer,
        version_rank(a, b) == Rank::Same <==> version_rank(b, a) == Rank::Same,
        version_rank(a, b) != Rank::Newer && version_rank(b, c) != Rank::Newer ==> version_rank(
            a,
            c,
        ) != Rank::Newer,
{
    let la = version_len(a);
    let lb = version_len(b);
    let lc = version_len(c);
    let m = la + lb + lc;
    lemma_rank_flips(a, a, 0, la);
    let nab = if la >= lb {
        la
    } else {
        lb
    };
    let nbc = if lb >= lc {
        lb
    } else {
        lc
    };
    let nac = if la >= lc {
        la
    } else {
        lc
    };
    lemma_rank_flips(a, b, 0, nab);
    lemma_rank_extends(a, b, 0, nab, m);
    lemma_rank_extends(b, c, 0, nbc, m);
    lemma_rank_extends(a, c, 0, nac, m);
    lemma_rank_chains(a, b, c, 0, m);
}

// ---- CSV --------------------------------------------------------------------

/// The characters that make a CSV field need quotes.
pub open spec fn is_csv_special(c: char) -> bool {
    c == ',' || c == '"' || c == '\n' || c == '\r'
}

/// Whether a CSV field needs quotes.
pub open spec fn csv_needs_quotes(s: Seq<char>) -> bool {
    exists|i: int| 0 <= i < s.len() && is_csv_special(#[trigger] s[i])
}

/// `s` with every quote doubled.
pub open spec fn doubled_quotes(s: Seq<char>) -> Seq<char>
    decreases s.len(),
{
    if s.len() == 0 {
        Seq::empty()
    } else {
        let head = doubled_quotes(s.drop_last());
        if s.last() == '"' {
            head.push('"').push('"')
        } else {
            head.push(s.last())
        }
    }
}

/// The CSV field that stands for `s`.
pub open spec fn csv_quoted(s: Seq<char>) -> Seq<char> {
    if csv_needs_quotes(s) {
        seq!['"'] + doubled_quotes(s) + seq!['"']
    } else {
        s
    }
}

/// Minimal RFC-4180 CSV field quoting: wrap the value in quotes and double any
/// internal quotes when it contains a comma, quote, carriage return, or
/// newline. Shared by every command that writes CSV.
pub fn csv_field(s: &str) -> (r: String)
    ensures
        r@ == csv_quoted(s@),
{
    let v = chars_of(s);
    let mut special: bool = false;
    let mut inner = String::new();
    let mut i: usize = 0;
    while i < v.len()
        invariant
            v@ == s@,
            i <= v@.len(),
            special == csv_needs_quotes(v@.take(i as int)),
            inner@ == doubled_quotes(v@.take(i as int)),
        decreases v@.len() - i,
    {
        let c: char = v[i];
        let ghost t = v@.take(i as int);
        let ghost u = v@.take(i + 1);
        proof {
            assert(u.drop_last() =~= t);
            assert(u.last() == c);
            if csv_needs_quotes(t) {
                let k = choose|k: int| 0 <= k < t.len() && is_csv_special(#[trigger] t[k]);
                assert(is_csv_special(u[k]));
            }
            if is_csv_special(c) {
                assert(is_csv_special(u[i as int]));
            }
            if csv_needs_quotes(u) {
                let k = choose|k: int| 0 <= k < u.len() && is_csv_special(#[trigger] u[k]);
                if k < i {
                    assert(is_csv_special(t[k]));
                }
            }
        }
        if c == ',' || c == '"' || c == '\n' || c == '\r' {
            special = true;
        }
        if c == '"' {
            inner.push('"');
        }
        inner.push(c);
        i = i + 1;
    }
    assert(v@.take(i as int) =~= s@);
    if special {
        let mut out = String::new();
        out.push('"');
        out.push_str(inner.as_str());
        out.push('"');
        assert(out@ =~= csv_quoted(s@));
        out
    } else {
        s.to_owned()
    }
}

/// `t` with each pair of quotes as one quote.
pub open spec fn halved_quotes(t: Seq<char>) -> Seq<char>
    decreases t.len(),
{
    if t.len() == 0 {
        Seq::empty()
    } else if t.len() >= 2 && t.last() == '"' && t[t.len() - 2] == '"' {
        halved_quotes(t.take(t.len() - 2)).push('"')
    } else {
        halved_quotes(t.drop_last()).push(t.last())
    }
}

/// The value that a CSV field stands for.
pub open spec fn csv_value(field: Seq<char>) -> Seq<char> {
    if field.len() >= 2 && field[0] == '"' {
        halved_quotes(field.subrange(1, field.len() - 1))
    } else {
        field
    }
}

proof fn lemma_halved_doubled(s: Seq<char>)
    ensures
        halved_quotes(doubled_quotes(s)) == s,
    decreases s.len(),
{
    if s.len() > 0 {
        let h = s.drop_last();
        let d = doubled_quotes(h);
        lemma_halved_doubled(h);
        assert(h.push(s.last()) =~= s);
        if s.last() == '"' {
            let t = d.push('"').push('"');
            assert(t.take(t.len() - 2) =~= d);
        } else {
            assert(d.push(s.last()).drop_last() =~= d);
        }
    }
}

/// Reading a CSV field gives back the value that it was written from.
pub proof fn csv_field_round_trips(s: Seq<char>)
    ensures
        csv_value(csv_quoted(s)) == s,
{
    if csv_needs_quotes(s) {
        let f = csv_quoted(s);
        assert(f.subrange(1, f.len() - 1) =~= doubled_quotes(s));
        lemma_halved_doubled(s);
    } else if s.len() > 0 {
        assert(!is_csv_special(s[0]));
    }
}

// ---- HTML -------------------------------------------------------------------

/// What stands for one character in HTML text and attribute values.
pub open spec fn html_entity(c: char) -> Seq<char> {
    if c == '&' {
        "&amp;"@
    } else if c == '<' {
        "&lt;"@
    } else if c == '>' {
        "&gt;"@
    } else if c == '"' {
        "&quot;"@
    } else if c == '\'' {
        "&#39;"@
    } else {
        seq![c]
    }
}

/// `s` with the five characters that matter in HTML escaped.
pub open spec fn html_escaped(s: Seq<char>) -> Seq<char>
    decreases s.len(),
{
    if s.len() == 0 {
        Seq::empty()
    } else {
        html_escaped(s.drop_last()) + html_entity(s.last())
    }
}

/// Escape the five characters that matter in HTML text and attribute values, so
/// captured ad text and URLs cannot inject markup into a generated report.
pub fn html_escape(s: &str) -> (r: String)
    ensures
        r@ == html_escaped(s@),
{
    let v = chars_of(s);
    let mut out = String::new();
    let mut i: usize = 0;
    while i < v.len()
        invariant
            v@ == s@,
            i <= v@.len(),
            out@ == html_escaped(v@.take(i as int)),
        decreases v@.len() - i,
    {
        let c: char = v[i];
        let ghost before = out@;
        proof {
            assert(v@.take(i + 1).drop_last() =~= v@.take(i as int));
            assert(v@.take(i + 1).last() == c);
        }
        if c == '&' {
            out.push_str("&amp;");
        } else if c == '<' {
            out.push_str("&lt;");
        } else if c == '>' {
            out.push_str("&gt;");
        } else if c == '"' {
            out.push_str("&quot;");
        } else if c == '\'' {
            out.push_str("&#39;");
        } else {
            out.push(c);
            assert(out@ =~= before + seq![c]);
        }
        i = i + 1;
    }
    assert(v@.take(i as int) =~= s@);
    out
}

/// Escaped text holds no character that could open a tag or end an attribute.
pub proof fn html_escaped_is_inert(s: Seq<char>)
    ensures
        forall|i: int|
            0 <= i < html_escaped(s).len() ==> {
                let c = #[trigger] html_escaped(s)[i];
                c != '<' && c != '>' && c != '"' && c != '\''
            },
    decreases s.len(),
{
    if s.len() > 0 {
        html_escaped_is_inert(s.drop_last());
        reveal_strlit("&amp;");
        reveal_strlit("&lt;");
        reveal_strlit("&gt;");
        reveal_strlit("&quot;");
        reveal_strlit("&#39;");
        let h = html_escaped(s.drop_last());
        let e = html_entity(s.last());
        assert forall|i: int| 0 <= i < html_escaped(s).len() implies {
            let c = #[trigger] html_escaped(s)[i];
            c != '<' && c != '>' && c != '"' && c != '\''
        } by {
            if i < h.len() {
                assert(html_escaped(s)[i] == h[i]);
            } else {
                assert(html_escaped(s)[i] == e[i - h.len()]);
            }
        }
    }
}

proof fn lemma_html_escaped_front(s: Seq<char>)
    requires
        s.len() > 0,
    ensures
        html_escaped(s) == html_entity(s[0]) + html_escaped(s.skip(1)),
    decreases s.len(),
{
    if s.len() == 1 {
        reveal_with_fuel(html_escaped, 2);
        assert(s.skip(1) =~= Seq::<char>::empty());
        assert(html_escaped(s) =~= html_entity(s[0]));
        assert(html_entity(s[0]) + html_escaped(s.skip(1)) =~= html_entity(s[0]));
    } else {
        let h = s.drop_last();
        lemma_html_escaped_front(h);
        assert(h.skip(1) =~= s.skip(1).drop_last());
        assert(html_escaped(s) =~= html_entity(s[0]) + (html_escaped(h.skip(1)) + html_entity(
            s.last(),
        )));
    }
}

/// The length of the entity at the start of `t`, and what it stands for.
pub open spec fn html_first(t: Seq<char>) -> (int, char) {
    if crate::text::starts_with(t, "&amp;"@) {
        (5, '&')
    } else if crate::text::starts_with(t, "&lt;"@) {
        (4, '<')
    } else if crate::text::starts_with(t, "&gt;"@) {
        (4, '>')
    } else if crate::text::starts_with(t, "&quot;"@) {
        (6, '"')
    } else if crate::text::starts_with(t, "&#39;"@) {
        (5, '\'')
    } else {
        (1, t[0])
    }
}

/// What a reader of HTML makes of `t`.
pub open spec fn html_unescaped(t: Seq<char>) -> Seq<char>
    decreases t.len(),
{
    if t.len() == 0 {
        Seq::empty()
    } else {
        let (n, c) = html_first(t);
        if 0 < n <= t.len() {
            seq![c] + html_unescaped(t.skip(n))
        } else {
            Seq::empty()
        }
    }
}

/// Reading escaped text gives back the text that was escaped.
pub proof fn html_escape_round_trips(s: Seq<char>)
    ensures
        html_unescaped(html_escaped(s)) == s,
    decreases s.len(),
{
    if s.len() > 0 {
        lemma_html_escaped_front(s);
        html_escape_round_trips(s.skip(1));
        reveal_strlit("&amp;");
        reveal_strlit("&lt;");
        reveal_strlit("&gt;");
        reveal_strlit("&quot;");
        reveal_strlit("&#39;");
        let t = html_escaped(s);
        let e = html_entity(s[0]);
        assert(t.take(e.len() as int) =~= e);
        assert(t.skip(e.len() as int) =~= html_escaped(s.skip(1)));
        assert(t[0] == e[0]);
        if e.len() > 1 {
            assert(t[1] == e[1]);
        }
        if s[0] != '&' && s[0] != '<' && s[0] != '>' && s[0] != '"' && s[0] != '\'' {
            assert(t[0] != '&');
            assert forall|p: Seq<char>| p.len() > 0 && p[0] == '&' implies
                !crate::text::starts_with(t, p) by {
                if crate::text::starts_with(t, p) {
                    assert(t.take(p.len() as int)[0] == t[0]);
                }
            }
        } else {
            assert forall|p: Seq<char>|
                p.len() > 1 && p[1] != t[1] implies !crate::text::starts_with(t, p) by {
                if crate::text::starts_with(t, p) {
                    assert(t.take(p.len() as int)[1] == t[1]);
                }
            }
            assert("&amp;"@[1] == 'a');
            assert("&lt;"@[1] == 'l');
            assert("&gt;"@[1] == 'g');
            assert("&quot;"@[1] == 'q');
            assert("&#39;"@[1] == '#');
        }
        assert(html_first(t) == (e.len() as int, s[0]));
        assert(seq![s[0]] + s.skip(1) =~= s);
    }
}

// ---- width ------------------------------------------------------------------

/// `s` cut to `max` characters, the last of them an ellipsis where it was cut.
pub open spec fn truncated(s: Seq<char>, max: int) -> Seq<char> {
    if max <= 0 {
        Seq::empty()
    } else if s.len() <= max {
        s
    } else {
        s.take(max - 1).push('\u{2026}')
    }
}

/// Truncate a string to `max` display columns, appending an ellipsis when cut.
/// Counts `char`s (good enough for the Latin + punctuation creatives here).
pub fn truncate(s: &str, max: usize) -> (r: String)
    ensures
        r@ == truncated(s@, max as int),
        r@.len() <= max,
{
    if max == 0 {
        return String::new();
    }
    if char_count(s) <= max {
        return s.to_owned();
    }
    let v = chars_of(s);
    let mut out = text_between(&v, 0, max - 1);
    assert(v@.subrange(0, max - 1) =~= v@.take(max - 1));
    out.push('\u{2026}');
    out
}

/// Cutting a text short brings in no control character.
pub proof fn truncating_keeps_inert(s: Seq<char>, max: int)
    requires
        is_inert(s),
    ensures
        is_inert(truncated(s, max)),
{
    let t = truncated(s, max);
    assert forall|i: int| 0 <= i < t.len() implies !crate::text::is_control(#[trigger] t[i]) by {
        if s.len() <= max || i < max - 1 {
            assert(t[i] == s[i]);
        }
    }
}

/// A text that fits is kept as it is; any other keeps as many of its first
/// characters as leave room for the ellipsis that ends it, and fills the width.
pub proof fn truncating_fills_the_width(s: Seq<char>, max: int)
    ensures
        0 <= max && s.len() <= max ==> truncated(s, max) == s,
        0 < max < s.len() ==> {
            &&& truncated(s, max).len() == max
            &&& truncated(s, max).last() == '\u{2026}'
            &&& forall|i: int| 0 <= i < max - 1 ==> #[trigger] truncated(s, max)[i] == s[i]
        },
        max <= 0 ==> truncated(s, max).len() == 0,
{
    if 0 <= max && s.len() <= max {
        assert(truncated(s, max) =~= s);
    }
}

// ---- what ages tell ---------------------------------------------------------

/// An age is told in whole seconds under a minute, in whole minutes under an
/// hour, in whole hours under a day and in whole days from there on, always
/// rounded down.
pub proof fn ages_are_rounded_down(ms: int, n: int)
    ensures
        ms < 0 ==> age(ms) == "just now"@,
        0 <= n < 60 && n * 1_000 <= ms < (n + 1) * 1_000 ==> age(ms) == crate::numbers::int_text(n)
            + "s ago"@,
        1 <= n < 60 && n * 60_000 <= ms < (n + 1) * 60_000 ==> age(ms)
            == crate::numbers::int_text(n) + "m ago"@,
        1 <= n < 24 && n * 3_600_000 <= ms < (n + 1) * 3_600_000 ==> age(ms)
            == crate::numbers::int_text(n) + "h ago"@,
        1 <= n && n * 86_400_000 <= ms < (n + 1) * 86_400_000 ==> age(ms)
            == crate::numbers::int_text(n) + "d ago"@,
{
}

/// A short age is told in whole minutes from the first on, then in whole hours,
/// days and, from seven days on, weeks, always rounded down.
pub proof fn short_ages_are_rounded_down(ms: int, n: int)
    ensures
        ms < 60_000 ==> age_short(ms) == "now"@,
        1 <= n < 60 && n * 60_000 <= ms < (n + 1) * 60_000 ==> age_short(ms)
            == crate::numbers::int_text(n) + "m"@,
        1 <= n < 24 && n * 3_600_000 <= ms < (n + 1) * 3_600_000 ==> age_short(ms)
            == crate::numbers::int_text(n) + "h"@,
        1 <= n < 7 && n * 86_400_000 <= ms < (n + 1) * 86_400_000 ==> age_short(ms)
            == crate::numbers::int_text(n) + "d"@,
        1 <= n && n * 604_800_000 <= ms < (n + 1) * 604_800_000 ==> age_short(ms)
            == crate::numbers::int_text(n) + "w"@,
{
}

// ---- what versions rank by --------------------------------------------------

proof fn lemma_rank_at(a: Seq<char>, b: Seq<char>, i: int, at: int, n: int)
    requires
        0 <= i <= at < n,
        forall|k: int| i <= k < at ==> #[trigger] version_part(a, k) == version_part(b, k),
        version_part(a, at) < version_part(b, at),
    ensures
        rank_from(a, b, i, n) == Rank::Older,
        rank_from(b, a, i, n) == Rank::Newer,
    decreases at - i,
{
    if i < at {
        assert(version_part(a, i) == version_part(b, i));
        lemma_rank_at(a, b, i + 1, at, n);
    }
}

/// Versions rank by the first component in which they differ, as numbers; with no
/// such component they are the same.
pub proof fn the_first_difference_ranks(a: Seq<char>, b: Seq<char>, at: int)
    requires
        0 <= at,
        forall|k: int| 0 <= k < at ==> #[trigger] version_part(a, k) == version_part(b, k),
    ensures
        version_part(a, at) < version_part(b, at) ==> version_rank(a, b) == Rank::Older
            && version_rank(b, a) == Rank::Newer,
        at >= version_len(a) && at >= version_len(b) ==> version_rank(a, b) == Rank::Same,
{
    let n = if version_len(a) >= version_len(b) {
        version_len(a)
    } else {
        version_len(b)
    };
    if version_part(a, at) < version_part(b, at) {
        assert(at < n);
        lemma_rank_at(a, b, 0, at, n);
    }
    if at >= n {
        assert forall|k: int| #[trigger] version_part(a, k) == version_part(b, k) by {}
        lemma_rank_same_parts(a, b, 0, n);
    }
}

/// A component that writes a number, with white space around it or not, counts as
/// that number, and one that is no number as zero.
pub proof fn components_are_numbers(lead: Seq<char>, n: nat, tail: Seq<char>)
    requires
        crate::text_laws::all_white(lead),
        crate::text_laws::all_white(tail),
    ensures
        component(lead + crate::numbers::decimal(n) + tail) == n,
        forall|s: Seq<char>|
            crate::numbers::unsigned_value(crate::text::trim(s)) is None ==> #[trigger] component(s)
                == 0,
{
    let d = crate::numbers::decimal(n);
    crate::numbers::numbers_read_back(n, 0);
    assert(d.len() > 0 && all_digits(d));
    assert(is_digit(d[0]) && is_digit(d[d.len() - 1]));
    crate::text_laws::trim_undoes_white_ends(lead, d, tail);
}

proof fn lemma_triple_parts(x: nat, y: nat, z: nat)
    ensures
        ({
            let v = crate::numbers::decimal(x).push('.') + crate::numbers::decimal(y).push('.')
                + crate::numbers::decimal(z);
            &&& version_len(v) == 3
            &&& version_part(v, 0) == x
            &&& version_part(v, 1) == y
            &&& version_part(v, 2) == z
        }),
{
    let a = crate::numbers::decimal(x);
    let b = crate::numbers::decimal(y);
    let c = crate::numbers::decimal(z);
    let none = Seq::<char>::empty();
    crate::numbers::numbers_read_back(x, 0);
    crate::numbers::numbers_read_back(y, 0);
    crate::numbers::numbers_read_back(z, 0);
    components_are_numbers(none, x, none);
    components_are_numbers(none, y, none);
    components_are_numbers(none, z, none);
    assert(none + a + none =~= a);
    assert(none + b + none =~= b);
    assert(none + c + none =~= c);
    reveal_strlit(".");
    assert("."@ =~= seq!['.']);
    let dot = seq!['.'];
    crate::text::lemma_find_from(a, dot, 0);
    if let Some(k) = crate::text::find_from(a, dot, 0) {
        assert(a.subrange(k, k + 1)[0] == a[k]);
        assert(dot[0] == '.');
        assert(is_digit(a[k]));
    }
    assert(a.skip(0) =~= a);
    assert(crate::text::split(a, dot) =~= seq![a]);
    crate::text::split_of_appended(a, b, '.');
    crate::text::split_of_appended(a.push('.') + b, c, '.');
    assert((a.push('.') + b).push('.') + c =~= a.push('.') + b.push('.') + c);
    let parts = crate::text::split(a.push('.') + b.push('.') + c, dot);
    assert(parts =~= seq![a, b, c]);
}

/// Of two dotted triples the one with the larger first number is newer, with equal
/// first numbers the one with the larger second, and then the larger third.
pub proof fn triples_rank_as_numbers(x: nat, y: nat, z: nat, p: nat, q: nat, r: nat)
    ensures
        ({
            let a = crate::numbers::decimal(x).push('.') + crate::numbers::decimal(y).push('.')
                + crate::numbers::decimal(z);
            let b = crate::numbers::decimal(p).push('.') + crate::numbers::decimal(q).push('.')
                + crate::numbers::decimal(r);
            &&& version_rank(a, b) == Rank::Older <==> x < p || (x == p && y < q) || (x == p && y
                == q && z < r)
            &&& version_rank(a, b) == Rank::Same <==> x == p && y == q && z == r
        }),
{
    let a = crate::numbers::decimal(x).push('.') + crate::numbers::decimal(y).push('.')
        + crate::numbers::decimal(z);
    let b = crate::numbers::decimal(p).push('.') + crate::numbers::decimal(q).push('.')
        + crate::numbers::decimal(r);
    lemma_triple_parts(x, y, z);
    lemma_triple_parts(p, q, r);
    reveal_with_fuel(rank_from, 5);
}

// ---- what sanitizing keeps --------------------------------------------------

proof fn lemma_collapsed_from(a: Seq<char>, b: Seq<char>)
    requires
        a.len() == 0 || is_gap(a.last()),
    ensures
        collapsed(a + b) == collapsed(a) + collapsed(b),
    decreases b.len(),
{
    lemma_gap_end(a);
    if b.len() == 0 {
        assert(a + b =~= a);
        assert(collapsed(a) + collapsed(b) =~= collapsed(a));
    } else {
        lemma_collapsed_from(a, b.drop_last());
        assert((a + b).drop_last() =~= a + b.drop_last());
        assert((a + b).last() == b.last());
        let head = collapsed(b.drop_last());
        let whole = collapsed(a) + head;
        if head.len() > 0 {
            assert(whole.last() == head.last());
        } else {
            assert(whole =~= collapsed(a));
        }
        assert(collapsed(a + b) =~= collapsed(a) + collapsed(b));
    }
}

proof fn lemma_gap_end(a: Seq<char>)
    requires
        a.len() == 0 || is_gap(a.last()),
    ensures
        collapsed(a).len() == 0 || collapsed(a).last() == ' ',
{
}

/// A gap between two texts is one space between what is left of them, and no space
/// where nothing is left of one.
pub proof fn gaps_become_one_space(a: Seq<char>, gap: char, b: Seq<char>)
    requires
        gap == ' ' || gap == '\t' || gap == '\n' || gap == '\r',
    ensures
        sanitized(a.push(gap) + b) == if sanitized(a).len() == 0 {
            sanitized(b)
        } else if sanitized(b).len() == 0 {
            sanitized(a)
        } else {
            sanitized(a).push(' ') + sanitized(b)
        },
{
    let front = a.push(gap);
    lemma_collapsed_from(front, b);
    assert(front.drop_last() =~= a);
    sanitized_is_clean(a);
    sanitized_is_clean(b);
    lemma_collapsed_clean(a);
    lemma_collapsed_clean(b);
    let x = collapsed(front);
    let y = collapsed(b);
    let whole = x + y;
    if collapsed(a).len() > 0 {
        if collapsed(a).last() == ' ' {
            assert(x == collapsed(a));
            assert(sanitized(a) =~= x.drop_last());
            assert(x =~= sanitized(a).push(' '));
        } else {
            assert(x =~= sanitized(a).push(' '));
        }
    }
    if y.len() == 0 {
        assert(whole =~= x);
        assert(sanitized(whole) == sanitized(whole));
        if x.len() > 0 {
            assert(x.drop_last() =~= sanitized(a));
        }
    } else {
        assert(whole.last() == y.last());
        if y.last() == ' ' {
            assert(whole.drop_last() =~= x + y.drop_last());
        }
        if x.len() == 0 {
            assert(whole =~= y);
        }
    }
}

/// A field is quoted exactly where it holds a comma, a quote or a line break, and
/// stands as it is otherwise.
pub proof fn only_special_fields_are_quoted(s: Seq<char>)
    ensures
        (forall|i: int|
            0 <= i < s.len() ==> #[trigger] s[i] != ',' && s[i] != '"' && s[i] != '\n' && s[i]
                != '\r') ==> csv_quoted(s) == s,
        (exists|i: int|
            0 <= i < s.len() && (#[trigger] s[i] == ',' || s[i] == '"' || s[i] == '\n' || s[i]
                == '\r')) ==> csv_quoted(s).len() >= 2 && csv_quoted(s)[0] == '"'
            && csv_quoted(s).last() == '"',
{
    if csv_needs_quotes(s) {
        let i = choose|i: int| 0 <= i < s.len() && is_csv_special(#[trigger] s[i]);
        assert(s[i] == ',' || s[i] == '"' || s[i] == '\n' || s[i] == '\r');
    } else {
        assert(forall|i: int| 0 <= i < s.len() ==> !is_csv_special(#[trigger] s[i]));
    }
}

} // verus!
