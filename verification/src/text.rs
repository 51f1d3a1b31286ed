//! Operations on text, stated over sequences of characters.

use vstd::prelude::*;

verus! {

/// `String::push_str` appends a string slice.
pub assume_specification[ String::push_str ](s: &mut String, string: &str)
    ensures
        final(s)@ == old(s)@ + string@,
;

/// `String::push` appends one character.
pub assume_specification[ String::push ](s: &mut String, ch: char)
    ensures
        final(s)@ == old(s)@.push(ch),
;

// ---- views ----------------------------------------------------------------

/// The texts of a sequence of strings.
pub open spec fn views(v: Seq<String>) -> Seq<Seq<char>> {
    Seq::new(v.len(), |i: int| v[i]@)
}

/// The text of an optional string.
pub open spec fn opt_view(o: Option<String>) -> Option<Seq<char>> {
    match o {
        Some(s) => Some(s@),
        None => None,
    }
}

/// The text of an optional string slice.
pub open spec fn opt_str(o: Option<&str>) -> Option<Seq<char>> {
    match o {
        Some(s) => Some(s@),
        None => None,
    }
}

/// The texts of an optional pair of strings.
pub open spec fn opt_pair(o: Option<(String, String)>) -> Option<(Seq<char>, Seq<char>)> {
    match o {
        Some((a, b)) => Some((a@, b@)),
        None => None,
    }
}

/// The text, or nothing where it is absent.
pub open spec fn or_empty(o: Option<Seq<char>>) -> Seq<char> {
    match o {
        Some(s) => s,
        None => Seq::empty(),
    }
}

/// A copy of an optional string.
pub fn clone_opt(o: &Option<String>) -> (r: Option<String>)
    ensures
        r == *o,
{
    match o {
        Some(s) => Some(s.clone()),
        None => None,
    }
}

/// The characters of a string slice, in order.
pub fn chars_of(s: &str) -> (r: Vec<char>)
    ensures
        r@ == s@,
{
    let mut out: Vec<char> = Vec::new();
    for c in it: s.chars()
        invariant
            it.seq() == s@,
            out@ == s@.take(it.index()),
    {
        out.push(c);
    }
    out
}

/// The string of the characters from `from` up to, but not at, `to`.
pub fn text_between(v: &Vec<char>, from: usize, to: usize) -> (r: String)
    requires
        from <= to <= v@.len(),
    ensures
        r@ == v@.subrange(from as int, to as int),
{
    let mut out = String::new();
    let mut i: usize = from;
    while i < to
        invariant
            from <= i <= to <= v@.len(),
            out@ == v@.subrange(from as int, i as int),
        decreases to - i,
    {
        out.push(v[i]);
        i = i + 1;
    }
    out
}

/// How many characters a text has.
pub fn char_count(s: &str) -> (r: usize)
    ensures
        r == s@.len(),
{
    s.unicode_len()
}

/// Whether two texts hold the same characters.
pub fn same_text(a: &str, b: &str) -> (r: bool)
    ensures
        r == (a@ == b@),
{
    let x = chars_of(a);
    let y = chars_of(b);
    if x.len() != y.len() {
        return false;
    }
    let mut i: usize = 0;
    while i < x.len()
        invariant
            x@ == a@,
            y@ == b@,
            x@.len() == y@.len(),
            i <= x@.len(),
            forall|k: int| 0 <= k < i ==> x@[k] == y@[k],
        decreases x@.len() - i,
    {
        if x[i] != y[i] {
            return false;
        }
        i = i + 1;
    }
    assert(a@ =~= b@);
    true
}

/// One text after another.
pub fn concat(a: &str, b: &str) -> (r: String)
    ensures
        r@ == a@ + b@,
{
    let mut out = a.to_owned();
    out.push_str(b);
    out
}

// ---- classes of characters ------------------------------------------------

/// A control character: C0, DEL or C1.
pub open spec fn is_control(c: char) -> bool {
    c <= '\u{1f}' || ('\u{7f}' <= c && c <= '\u{9f}')
}

/// Whether a text has no control character.
pub open spec fn is_inert(s: Seq<char>) -> bool {
    forall|i: int| 0 <= i < s.len() ==> !is_control(#[trigger] s[i])
}

/// A character with Unicode's white space property.
pub open spec fn is_white(c: char) -> bool {
    ||| ('\u{9}' <= c && c <= '\u{d}')
    ||| c == ' '
    ||| c == '\u{85}'
    ||| c == '\u{a0}'
    ||| c == '\u{1680}'
    ||| ('\u{2000}' <= c && c <= '\u{200a}')
    ||| c == '\u{2028}'
    ||| c == '\u{2029}'
    ||| c == '\u{202f}'
    ||| c == '\u{205f}'
    ||| c == '\u{3000}'
}

/// An ASCII digit.
pub open spec fn is_digit(c: char) -> bool {
    '0' <= c && c <= '9'
}

/// Tells whether `c` is a control character.
pub fn control(c: char) -> (r: bool)
    ensures
        r == is_control(c),
{
    c <= '\u{1f}' || ('\u{7f}' <= c && c <= '\u{9f}')
}

/// Tells whether `c` is white space.
pub fn white(c: char) -> (r: bool)
    ensures
        r == is_white(c),
{
    ('\u{9}' <= c && c <= '\u{d}') || c == ' ' || c == '\u{85}' || c == '\u{a0}' || c == '\u{1680}'
        || ('\u{2000}' <= c && c <= '\u{200a}') || c == '\u{2028}' || c == '\u{2029}' || c
        == '\u{202f}' || c == '\u{205f}' || c == '\u{3000}'
}

/// Tells whether `c` is an ASCII digit.
pub fn digit(c: char) -> (r: bool)
    ensures
        r == is_digit(c),
{
    '0' <= c && c <= '9'
}

// ---- searching ------------------------------------------------------------

/// Whether `pat` stands in `s` at index `i`.
pub open spec fn occurs_at(s: Seq<char>, pat: Seq<char>, i: int) -> bool {
    0 <= i && i + pat.len() <= s.len() && s.subrange(i, i + pat.len()) == pat
}

/// The first index at or after `from` at which `pat` stands in `s`.
pub open spec fn find_from(s: Seq<char>, pat: Seq<char>, from: int) -> Option<int>
    decreases s.len() + 1 - from,
{
    if from < 0 || from + pat.len() > s.len() {
        None
    } else if occurs_at(s, pat, from) {
        Some(from)
    } else {
        find_from(s, pat, from + 1)
    }
}

/// Whether `pat` occurs anywhere in `s`.
pub open spec fn contains(s: Seq<char>, pat: Seq<char>) -> bool {
    exists|i: int| occurs_at(s, pat, i)
}

/// What is found is an occurrence, and there is none before it.
pub proof fn lemma_find_from(s: Seq<char>, pat: Seq<char>, from: int)
    requires
        0 <= from,
    ensures
        match find_from(s, pat, from) {
            Some(i) => from <= i && occurs_at(s, pat, i) && forall|k: int|
                from <= k < i ==> !occurs_at(s, pat, k),
            None => forall|k: int| from <= k ==> !occurs_at(s, pat, k),
        },
    decreases s.len() + 1 - from,
{
    if from + pat.len() > s.len() {
    } else if occurs_at(s, pat, from) {
    } else {
        lemma_find_from(s, pat, from + 1);
        match find_from(s, pat, from) {
            Some(i) => {
                assert forall|k: int| from <= k < i implies !occurs_at(s, pat, k) by {
                    if k > from {
                        assert(from + 1 <= k);
                    }
                }
            },
            None => {
                assert forall|k: int| from <= k implies !occurs_at(s, pat, k) by {
                    if k > from {
                        assert(from + 1 <= k);
                    }
                }
            },
        }
    }
}

fn at(v: &Vec<char>, pat: &Vec<char>, i: usize) -> (r: bool)
    requires
        i + pat@.len() <= v@.len(),
    ensures
        r == occurs_at(v@, pat@, i as int),
{
    let n: usize = v.len();
    let mut k: usize = 0;
    while k < pat.len()
        invariant
            n == v@.len(),
            i + pat@.len() <= n,
            k <= pat@.len(),
            forall|j: int| 0 <= j < k ==> v@[i + j] == pat@[j],
        decreases pat@.len() - k,
    {
        if v[i + k] != pat[k] {
            assert(v@.subrange(i as int, i + pat@.len())[k as int] == v@[i + k]);
            return false;
        }
        k = k + 1;
    }
    assert(v@.subrange(i as int, i + pat@.len()) =~= pat@);
    true
}

/// Finds the first occurrence of `pat` in `v` at or after `from`.
pub fn find(v: &Vec<char>, pat: &Vec<char>, from: usize) -> (r: Option<usize>)
    requires
        from <= v@.len(),
    ensures
        match r {
            Some(i) => find_from(v@, pat@, from as int) == Some(i as int) && from <= i && i
                + pat@.len() <= v@.len(),
            None => find_from(v@, pat@, from as int) is None,
        },
{
    if pat.len() > v.len() {
        return None;
    }
    let last: usize = v.len() - pat.len();
    let mut i: usize = from;
    while i <= last
        invariant
            from <= i <= v@.len(),
            last == v@.len() - pat@.len(),
            find_from(v@, pat@, from as int) == find_from(v@, pat@, i as int),
        decreases v@.len() - i,
    {
        if at(v, pat, i) {
            return Some(i);
        }
        if i == last {
            assert(find_from(v@, pat@, i + 1) is None);
            return None;
        }
        i = i + 1;
    }
    None
}

/// Whether `pre` stands at the start of `s`.
pub open spec fn starts_with(s: Seq<char>, pre: Seq<char>) -> bool {
    pre.len() <= s.len() && s.take(pre.len() as int) == pre
}

/// What follows `pre` at the start of `s`.
pub open spec fn strip_prefix(s: Seq<char>, pre: Seq<char>) -> Option<Seq<char>> {
    if starts_with(s, pre) {
        Some(s.skip(pre.len() as int))
    } else {
        None
    }
}

/// Returns what follows `pre` at the start of `s`, where it starts so.
pub fn without_prefix(s: &str, pre: &str) -> (r: Option<String>)
    ensures
        opt_view(r) == strip_prefix(s@, pre@),
{
    let v = chars_of(s);
    let p = chars_of(pre);
    if p.len() > v.len() {
        return None;
    }
    proof {
        assert(v@.subrange(0, p@.len() as int) =~= v@.take(p@.len() as int));
        assert(v@.subrange(p@.len() as int, v@.len() as int) =~= v@.skip(p@.len() as int));
    }
    if at(&v, &p, 0) {
        Some(text_between(&v, p.len(), v.len()))
    } else {
        None
    }
}

// ---- splitting and joining ------------------------------------------------

/// The parts of `s` before and after the first `pat`.
pub open spec fn split_once(s: Seq<char>, pat: Seq<char>) -> Option<(Seq<char>, Seq<char>)> {
    match find_from(s, pat, 0) {
        Some(i) => Some((s.take(i), s.skip(i + pat.len()))),
        None => None,
    }
}

/// Splits `s` at the first `pat`.
pub fn cut(s: &str, pat: &str) -> (r: Option<(String, String)>)
    ensures
        match r {
            Some(p) => split_once(s@, pat@) == Some((p.0@, p.1@)),
            None => split_once(s@, pat@) is None,
        },
{
    let v = chars_of(s);
    let p = chars_of(pat);
    match find(&v, &p, 0) {
        Some(i) => {
            let n: usize = v.len();
            let head = text_between(&v, 0, i);
            let tail = text_between(&v, i + p.len(), n);
            proof {
                assert(v@.subrange(0, i as int) =~= v@.take(i as int));
                assert(v@.subrange(i + p@.len(), v@.len() as int) =~= v@.skip(i + p@.len()));
            }
            Some((head, tail))
        },
        None => None,
    }
}

/// The parts of `s` from `start` on, between the occurrences of `pat`.
pub open spec fn split_from(s: Seq<char>, pat: Seq<char>, start: int) -> Seq<Seq<char>>
    decreases s.len() - start,
{
    match find_from(s, pat, start) {
        Some(i) => if pat.len() > 0 && i >= start && i + pat.len() <= s.len() {
            seq![s.subrange(start, i)] + split_from(s, pat, i + pat.len())
        } else {
            seq![s.skip(start)]
        },
        None => seq![s.skip(start)],
    }
}

/// The parts of `s` between the occurrences of a nonempty `pat`.
pub open spec fn split(s: Seq<char>, pat: Seq<char>) -> Seq<Seq<char>> {
    split_from(s, pat, 0)
}

/// Splits `s` at every occurrence of `pat`.
pub fn split_at_each(s: &str, pat: &str) -> (r: Vec<String>)
    requires
        pat@.len() > 0,
    ensures
        views(r@) == split(s@, pat@),
        r@.len() > 0,
{
    let v = chars_of(s);
    let p = chars_of(pat);
    let n: usize = v.len();
    let mut out: Vec<String> = Vec::new();
    let mut start: usize = 0;
    loop
        invariant
            n == v@.len(),
            v@ == s@,
            p@ == pat@,
            p@.len() > 0,
            start <= v@.len(),
            split(s@, pat@) == views(out@) + split_from(s@, pat@, start as int),
        decreases v@.len() - start,
    {
        match find(&v, &p, start) {
            Some(i) => {
                let ghost before = out@;
                out.push(text_between(&v, start, i));
                proof {
                    assert(views(out@) =~= views(before).push(s@.subrange(start as int, i as int)));
                    assert(views(before) + (seq![s@.subrange(start as int, i as int)] + split_from(
                        s@,
                        pat@,
                        i + pat@.len(),
                    )) =~= views(out@) + split_from(s@, pat@, i + pat@.len()));
                }
                start = i + p.len();
            },
            None => {
                let ghost before = out@;
                out.push(text_between(&v, start, v.len()));
                proof {
                    assert(s@.subrange(start as int, s@.len() as int) =~= s@.skip(start as int));
                    assert(views(out@) =~= views(before) + seq![s@.skip(start as int)]);
                }
                return out;
            },
        }
    }
}

/// The texts in order, with `sep` between each two.
pub open spec fn join(parts: Seq<Seq<char>>, sep: Seq<char>) -> Seq<char>
    decreases parts.len(),
{
    if parts.len() == 0 {
        Seq::empty()
    } else if parts.len() == 1 {
        parts[0]
    } else {
        join(parts.drop_last(), sep) + sep + parts.last()
    }
}

/// Joins `parts` with `sep` between each two.
pub fn join_with(parts: &Vec<String>, sep: &str) -> (r: String)
    ensures
        r@ == join(views(parts@), sep@),
{
    if parts.len() == 0 {
        return String::new();
    }
    let mut out = parts[0].clone();
    let mut i: usize = 1;
    proof {
        assert(views(parts@).take(1) =~= seq![parts@[0]@]);
    }
    while i < parts.len()
        invariant
            1 <= i <= parts@.len(),
            out@ == join(views(parts@).take(i as int), sep@),
        decreases parts@.len() - i,
    {
        out.push_str(sep);
        out.push_str(parts[i].as_str());
        proof {
            let next = views(parts@).take(i + 1);
            assert(next.drop_last() =~= views(parts@).take(i as int));
            assert(next.last() == parts@[i as int]@);
        }
        i = i + 1;
    }
    proof {
        assert(views(parts@).take(i as int) =~= views(parts@));
    }
    out
}

/// `s` without one carriage return at its end.
pub open spec fn strip_cr(s: Seq<char>) -> Seq<char> {
    if s.len() > 0 && s.last() == '\r' {
        s.drop_last()
    } else {
        s
    }
}

/// The lines of `s` from `start` on. A line ends in a newline, before which one
/// carriage return is dropped; what follows the last newline is a line where
/// it is not empty, as it stands.
pub open spec fn lines_from(s: Seq<char>, start: int) -> Seq<Seq<char>>
    decreases s.len() - start,
{
    if start < 0 || start >= s.len() {
        Seq::empty()
    } else {
        match find_from(s, seq!['\n'], start) {
            Some(i) => if start <= i < s.len() {
                seq![strip_cr(s.subrange(start, i))] + lines_from(s, i + 1)
            } else {
                Seq::empty()
            },
            None => seq![s.skip(start)],
        }
    }
}

/// The lines of `s`.
pub open spec fn lines(s: Seq<char>) -> Seq<Seq<char>> {
    lines_from(s, 0)
}

/// Splits `s` into its lines.
pub fn lines_of(s: &str) -> (r: Vec<String>)
    ensures
        views(r@) == lines(s@),
{
    let v = chars_of(s);
    let mut nl: Vec<char> = Vec::new();
    nl.push('\n');
    assert(nl@ =~= seq!['\n']);
    let mut out: Vec<String> = Vec::new();
    let mut start: usize = 0;
    while start < v.len()
        invariant
            v@ == s@,
            nl@ == seq!['\n'],
            start <= v@.len(),
            lines(s@) == views(out@) + lines_from(s@, start as int),
        decreases v@.len() - start,
    {
        match find(&v, &nl, start) {
            Some(i) => {
                let ghost before = out@;
                let end: usize = if i > start && v[i - 1] == '\r' {
                    i - 1
                } else {
                    i
                };
                out.push(text_between(&v, start, end));
                proof {
                    let whole = s@.subrange(start as int, i as int);
                    assert(strip_cr(whole) =~= s@.subrange(start as int, end as int));
                    assert(views(out@) =~= views(before).push(strip_cr(whole)));
                    assert(views(before) + (seq![strip_cr(whole)] + lines_from(s@, i + 1))
                        =~= views(out@) + lines_from(s@, i + 1));
                }
                start = i + 1;
            },
            None => {
                let ghost before = out@;
                out.push(text_between(&v, start, v.len()));
                proof {
                    assert(s@.subrange(start as int, s@.len() as int) =~= s@.skip(start as int));
                    assert(views(out@) =~= views(before) + seq![s@.skip(start as int)]);
                }
                return out;
            },
        }
    }
    assert(views(out@) + lines_from(s@, start as int) =~= views(out@));
    out
}

/// The first index at or after `i` that holds no white space.
pub open spec fn skip_white(s: Seq<char>, i: int) -> int
    decreases s.len() - i,
{
    if 0 <= i < s.len() && is_white(s[i]) {
        skip_white(s, i + 1)
    } else {
        i
    }
}

/// The first index at or after `i` that holds white space, or the end.
pub open spec fn skip_word(s: Seq<char>, i: int) -> int
    decreases s.len() - i,
{
    if 0 <= i < s.len() && !is_white(s[i]) {
        skip_word(s, i + 1)
    } else {
        i
    }
}

/// Skipping moves forward and stays within the text.
pub proof fn lemma_skip_bounds(s: Seq<char>, i: int)
    requires
        0 <= i <= s.len(),
    ensures
        i <= skip_white(s, i) <= s.len(),
        i <= skip_word(s, i) <= s.len(),
        i < s.len() && !is_white(s[i]) ==> i < skip_word(s, i),
    decreases s.len() - i,
{
    if i < s.len() {
        lemma_skip_bounds(s, i + 1);
    }
}

/// The words of `s` from `i` on: its longest runs without white space.
pub open spec fn words_from(s: Seq<char>, i: int) -> Seq<Seq<char>>
    decreases s.len() - i,
{
    let a = skip_white(s, i);
    let b = skip_word(s, a);
    if 0 <= i <= a && a < b && b <= s.len() {
        seq![s.subrange(a, b)] + words_from(s, b)
    } else {
        Seq::empty()
    }
}

/// The words of `s`.
pub open spec fn words(s: Seq<char>) -> Seq<Seq<char>> {
    words_from(s, 0)
}

fn past_white(v: &Vec<char>, from: usize) -> (r: usize)
    requires
        from <= v@.len(),
    ensures
        r == skip_white(v@, from as int),
        from <= r <= v@.len(),
{
    let mut i: usize = from;
    while i < v.len() && white(v[i])
        invariant
            from <= i <= v@.len(),
            skip_white(v@, from as int) == skip_white(v@, i as int),
        decreases v@.len() - i,
    {
        i = i + 1;
    }
    i
}

fn past_word(v: &Vec<char>, from: usize) -> (r: usize)
    requires
        from <= v@.len(),
    ensures
        r == skip_word(v@, from as int),
        from <= r <= v@.len(),
{
    let mut i: usize = from;
    while i < v.len() && !white(v[i])
        invariant
            from <= i <= v@.len(),
            skip_word(v@, from as int) == skip_word(v@, i as int),
        decreases v@.len() - i,
    {
        i = i + 1;
    }
    i
}

/// Splits `s` into its words.
pub fn words_of(s: &str) -> (r: Vec<String>)
    ensures
        views(r@) == words(s@),
{
    let v = chars_of(s);
    let mut out: Vec<String> = Vec::new();
    let mut i: usize = 0;
    loop
        invariant
            v@ == s@,
            i <= v@.len(),
            words(s@) == views(out@) + words_from(s@, i as int),
        decreases v@.len() - i,
    {
        let a = past_white(&v, i);
        let b = past_word(&v, a);
        proof {
            lemma_skip_bounds(v@, a as int);
        }
        if b <= a {
            assert(views(out@) + words_from(s@, i as int) =~= views(out@));
            return out;
        }
        let ghost before = out@;
        out.push(text_between(&v, a, b));
        proof {
            assert(views(out@) =~= views(before).push(s@.subrange(a as int, b as int)));
            assert(views(before) + (seq![s@.subrange(a as int, b as int)] + words_from(
                s@,
                b as int,
            )) =~= views(out@) + words_from(s@, b as int));
        }
        i = b;
    }
}

// ---- parts of a text ----------------------------------------------------------

/// The first index at or after `i` whose character is one of `stops`, or the
/// end of `s`.
pub open spec fn stop_index(s: Seq<char>, stops: Seq<char>, i: int) -> int
    decreases s.len() - i,
{
    if 0 <= i < s.len() && !stops.contains(s[i]) {
        stop_index(s, stops, i + 1)
    } else {
        i
    }
}

/// `s` before the first character that is one of `stops`.
pub open spec fn until(s: Seq<char>, stops: Seq<char>) -> Seq<char> {
    s.take(stop_index(s, stops, 0))
}

/// Where the part of `s[..i]` after its last `c` starts.
pub open spec fn tail_start(s: Seq<char>, c: char, i: int) -> int
    decreases i,
{
    if 0 < i <= s.len() && s[i - 1] != c {
        tail_start(s, c, i - 1)
    } else {
        i
    }
}

/// `s` after its last `c`; all of it where there is none.
pub open spec fn after_last(s: Seq<char>, c: char) -> Seq<char> {
    s.skip(tail_start(s, c, s.len() as int))
}

fn one_of(c: char, stops: &Vec<char>) -> (r: bool)
    ensures
        r == stops@.contains(c),
{
    let mut i: usize = 0;
    while i < stops.len()
        invariant
            i <= stops@.len(),
            forall|k: int| 0 <= k < i ==> stops@[k] != c,
        decreases stops@.len() - i,
    {
        if stops[i] == c {
            return true;
        }
        i = i + 1;
    }
    false
}

/// Returns `s` up to the first character that is one of `stops`.
pub fn cut_at_any(s: &str, stops: &str) -> (r: String)
    ensures
        r@ == until(s@, stops@),
{
    let v = chars_of(s);
    let p = chars_of(stops);
    let mut i: usize = 0;
    while i < v.len() && !one_of(v[i], &p)
        invariant
            v@ == s@,
            p@ == stops@,
            i <= v@.len(),
            stop_index(s@, stops@, 0) == stop_index(s@, stops@, i as int),
        decreases v@.len() - i,
    {
        i = i + 1;
    }
    assert(v@.subrange(0, i as int) =~= s@.take(i as int));
    text_between(&v, 0, i)
}

/// Returns what follows the last `c` in `s`.
pub fn rest_after_last(s: &str, c: char) -> (r: String)
    ensures
        r@ == after_last(s@, c),
{
    let v = chars_of(s);
    let n: usize = v.len();
    let mut i: usize = n;
    while i > 0 && v[i - 1] != c
        invariant
            v@ == s@,
            n == v@.len(),
            i <= n,
            tail_start(s@, c, s@.len() as int) == tail_start(s@, c, i as int),
        decreases i,
    {
        i = i - 1;
    }
    assert(v@.subrange(i as int, n as int) =~= s@.skip(i as int));
    text_between(&v, i, n)
}

// ---- trimming, replacing, padding ------------------------------------------

/// `s` without the white space at its end.
pub open spec fn trim_end(s: Seq<char>) -> Seq<char>
    decreases s.len(),
{
    if s.len() > 0 && is_white(s.last()) {
        trim_end(s.drop_last())
    } else {
        s
    }
}

/// `s` without the white space at its start and at its end.
pub open spec fn trim(s: Seq<char>) -> Seq<char> {
    trim_end(s.skip(skip_white(s, 0)))
}

/// Removes the white space at both ends of `s`.
pub fn trimmed(s: &str) -> (r: String)
    ensures
        r@ == trim(s@),
{
    let v = chars_of(s);
    let a = past_white(&v, 0);
    let mut b: usize = v.len();
    assert(v@.subrange(a as int, b as int) =~= v@.skip(a as int));
    while b > a && white(v[b - 1])
        invariant
            v@ == s@,
            a <= b <= v@.len(),
            trim(s@) == trim_end(v@.subrange(a as int, b as int)),
        decreases b,
    {
        proof {
            let t = v@.subrange(a as int, b as int);
            assert(t.last() == v@[b - 1]);
            assert(t.drop_last() =~= v@.subrange(a as int, b - 1));
        }
        b = b - 1;
    }
    proof {
        let t = v@.subrange(a as int, b as int);
        if b > a {
            assert(t.last() == v@[b - 1]);
        }
        assert(trim_end(t) == t);
    }
    text_between(&v, a, b)
}

/// Whether `s` holds nothing but white space.
pub fn blank(s: &str) -> (r: bool)
    ensures
        r == (trim(s@).len() == 0),
{
    let t = trimmed(s);
    char_count(t.as_str()) == 0
}

/// `s` from `start` on, with every `pat` replaced by `with`.
pub open spec fn replace_from(
    s: Seq<char>,
    pat: Seq<char>,
    with: Seq<char>,
    start: int,
) -> Seq<char>
    decreases s.len() - start,
{
    match find_from(s, pat, start) {
        Some(i) => if pat.len() > 0 && i >= start && i + pat.len() <= s.len() {
            s.subrange(start, i) + with + replace_from(s, pat, with, i + pat.len())
        } else {
            s.skip(start)
        },
        None => s.skip(start),
    }
}

/// `s` with every occurrence of a nonempty `pat` replaced by `with`.
pub open spec fn replace(s: Seq<char>, pat: Seq<char>, with: Seq<char>) -> Seq<char> {
    replace_from(s, pat, with, 0)
}

/// Replaces every occurrence of `pat` in `s` by `with`.
pub fn replace_all(s: &str, pat: &str, with: &str) -> (r: String)
    requires
        pat@.len() > 0,
    ensures
        r@ == replace(s@, pat@, with@),
{
    let v = chars_of(s);
    let p = chars_of(pat);
    let n: usize = v.len();
    let mut out = String::new();
    let mut start: usize = 0;
    assert(out@ + replace_from(s@, pat@, with@, 0) =~= replace_from(s@, pat@, with@, 0));
    loop
        invariant
            n == v@.len(),
            v@ == s@,
            p@ == pat@,
            p@.len() > 0,
            start <= n,
            replace(s@, pat@, with@) == out@ + replace_from(s@, pat@, with@, start as int),
        decreases n - start,
    {
        match find(&v, &p, start) {
            Some(i) => {
                let ghost before = out@;
                let piece = text_between(&v, start, i);
                out.push_str(piece.as_str());
                out.push_str(with);
                proof {
                    let rest = replace_from(s@, pat@, with@, i + pat@.len());
                    let mid = s@.subrange(start as int, i as int);
                    assert(before + (mid + with@ + rest) =~= before + mid + with@ + rest);
                }
                start = i + p.len();
            },
            None => {
                let piece = text_between(&v, start, n);
                out.push_str(piece.as_str());
                proof {
                    assert(s@.subrange(start as int, s@.len() as int) =~= s@.skip(start as int));
                }
                return out;
            },
        }
    }
}

/// `s` with its first `pat` replaced by `with`.
pub open spec fn replace_first(s: Seq<char>, pat: Seq<char>, with: Seq<char>) -> Seq<char> {
    match find_from(s, pat, 0) {
        Some(i) => s.take(i) + with + s.skip(i + pat.len()),
        None => s,
    }
}

/// Replaces the first occurrence of `pat` in `s` by `with`.
pub fn replace_once(s: &str, pat: &str, with: &str) -> (r: String)
    ensures
        r@ == replace_first(s@, pat@, with@),
{
    match cut(s, pat) {
        Some((head, tail)) => {
            let mut out = head;
            out.push_str(with);
            out.push_str(tail.as_str());
            out
        },
        None => s.to_owned(),
    }
}

/// `n` spaces.
pub open spec fn spaces(n: int) -> Seq<char> {
    Seq::new(if n > 0 { n as nat } else { 0 }, |i: int| ' ')
}

/// `s` with spaces after it up to a width of `w` characters.
pub open spec fn pad_right(s: Seq<char>, w: int) -> Seq<char> {
    s + spaces(w - s.len())
}

/// `s` with spaces before it up to a width of `w` characters.
pub open spec fn pad_left(s: Seq<char>, w: int) -> Seq<char> {
    spaces(w - s.len()) + s
}

fn blanks(n: usize) -> (r: String)
    ensures
        r@ == spaces(n as int),
{
    let mut out = String::new();
    let mut i: usize = 0;
    while i < n
        invariant
            i <= n,
            out@ == spaces(i as int),
        decreases n - i,
    {
        out.push(' ');
        i = i + 1;
        assert(spaces(i - 1).push(' ') =~= spaces(i as int));
    }
    out
}

/// Fills `s` with spaces on the right up to `w` characters.
pub fn left_aligned(s: &str, w: usize) -> (r: String)
    ensures
        r@ == pad_right(s@, w as int),
{
    let n = char_count(s);
    let mut out = s.to_owned();
    if n < w {
        let fill = blanks(w - n);
        out.push_str(fill.as_str());
    } else {
        assert(pad_right(s@, w as int) =~= s@);
    }
    out
}

/// Fills `s` with spaces on the left up to `w` characters.
pub fn right_aligned(s: &str, w: usize) -> (r: String)
    ensures
        r@ == pad_left(s@, w as int),
{
    let n = char_count(s);
    if n < w {
        let mut out = blanks(w - n);
        out.push_str(s);
        out
    } else {
        assert(pad_left(s@, w as int) =~= s@);
        s.to_owned()
    }
}

// ---- order ----------------------------------------------------------------

/// Whether `a` from `i` on comes before `b` from `i` on, character by
/// character; a text comes before every longer text that it starts.
pub open spec fn lex_before_from(a: Seq<char>, b: Seq<char>, i: int) -> bool
    decreases b.len() - i,
{
    if i < 0 || i >= b.len() {
        false
    } else if i >= a.len() {
        true
    } else if a[i] == b[i] {
        lex_before_from(a, b, i + 1)
    } else {
        a[i] < b[i]
    }
}

/// The lexical order of texts by the numbers of their characters, which is
/// also the order of their UTF-8 bytes.
pub open spec fn lex_before(a: Seq<char>, b: Seq<char>) -> bool {
    lex_before_from(a, b, 0)
}

/// Tells whether `a` comes strictly before `b` in lexical order.
pub fn comes_before(a: &str, b: &str) -> (r: bool)
    ensures
        r == lex_before(a@, b@),
{
    let x = chars_of(a);
    let y = chars_of(b);
    let mut i: usize = 0;
    while i < y.len()
        invariant
            x@ == a@,
            y@ == b@,
            i <= y@.len(),
            lex_before(a@, b@) == lex_before_from(a@, b@, i as int),
        decreases y@.len() - i,
    {
        if i >= x.len() {
            return true;
        }
        if x[i] != y[i] {
            return x[i] < y[i];
        }
        i = i + 1;
    }
    false
}

proof fn lemma_lex_before_asym(a: Seq<char>, b: Seq<char>, i: int)
    ensures
        lex_before_from(a, b, i) ==> !lex_before_from(b, a, i),
    decreases b.len() - i,
{
    if 0 <= i < b.len() && i < a.len() && a[i] == b[i] {
        lemma_lex_before_asym(a, b, i + 1);
    }
}

proof fn lemma_lex_before_trans(a: Seq<char>, b: Seq<char>, c: Seq<char>, i: int)
    ensures
        lex_before_from(a, b, i) && lex_before_from(b, c, i) ==> lex_before_from(a, c, i),
    decreases c.len() - i,
{
    if 0 <= i < c.len() && i < b.len() && i < a.len() && a[i] == b[i] && b[i] == c[i] {
        lemma_lex_before_trans(a, b, c, i + 1);
    }
}

proof fn lemma_lex_before_total(a: Seq<char>, b: Seq<char>, i: int)
    requires
        0 <= i <= a.len(),
        i <= b.len(),
        a.take(i) == b.take(i),
    ensures
        lex_before_from(a, b, i) || lex_before_from(b, a, i) || a == b,
    decreases b.len() - i,
{
    if i < b.len() && i < a.len() {
        if a[i] == b[i] {
            assert(a.take(i + 1) =~= a.take(i).push(a[i]));
            assert(b.take(i + 1) =~= b.take(i).push(b[i]));
            lemma_lex_before_total(a, b, i + 1);
        }
    } else if i >= b.len() && i >= a.len() {
        assert(a =~= a.take(i));
        assert(b =~= b.take(i));
    }
}

/// The lexical order is a strict total order.
pub proof fn lex_before_is_total_order(a: Seq<char>, b: Seq<char>, c: Seq<char>)
    ensures
        !lex_before(a, a),
        lex_before(a, b) ==> !lex_before(b, a),
        lex_before(a, b) && lex_before(b, c) ==> lex_before(a, c),
        lex_before(a, b) || lex_before(b, a) || a == b,
{
    lemma_lex_before_asym(a, a, 0);
    lemma_lex_before_asym(a, b, 0);
    lemma_lex_before_trans(a, b, c, 0);
    assert(a.take(0) =~= b.take(0));
    lemma_lex_before_total(a, b, 0);
}

// ---- counting -----------------------------------------------------------------

/// How often a character stands in a text.
pub open spec fn count_of(s: Seq<char>, c: char) -> int
    decreases s.len(),
{
    if s.len() == 0 {
        0
    } else {
        count_of(s.drop_last(), c) + if s.last() == c {
            1int
        } else {
            0int
        }
    }
}

/// The count of two texts together is the sum of their counts.
pub proof fn lemma_count_add(a: Seq<char>, b: Seq<char>, c: char)
    ensures
        count_of(a + b, c) == count_of(a, c) + count_of(b, c),
    decreases b.len(),
{
    if b.len() == 0 {
        assert(a + b =~= a);
    } else {
        lemma_count_add(a, b.drop_last(), c);
        assert((a + b).drop_last() =~= a + b.drop_last());
    }
}

/// A text without a character counts none of it.
pub proof fn lemma_count_none(s: Seq<char>, c: char)
    requires
        forall|i: int| 0 <= i < s.len() ==> #[trigger] s[i] != c,
    ensures
        count_of(s, c) == 0,
    decreases s.len(),
{
    if s.len() > 0 {
        let h = s.drop_last();
        assert forall|i: int| 0 <= i < h.len() implies #[trigger] h[i] != c by {
            assert(h[i] == s[i]);
        }
        lemma_count_none(h, c);
        assert(s[s.len() - 1] != c);
    }
}

// ---- splitting what was appended -----------------------------------------------

proof fn lemma_split_appended(s: Seq<char>, tail: Seq<char>, pat: char, start: int)
    requires
        0 <= start <= s.len(),
        forall|i: int| 0 <= i < tail.len() ==> #[trigger] tail[i] != pat,
    ensures
        split_from(s.push(pat) + tail, seq![pat], start) == split_from(s, seq![pat], start).push(
            tail,
        ),
    decreases s.len() - start,
{
    let t = s.push(pat) + tail;
    let sep = seq![pat];
    lemma_find_from(s, sep, start);
    lemma_find_from(t, sep, start);
    assert forall|i: int| 0 <= i < t.len() implies #[trigger] occurs_at(t, sep, i) == (t[i]
        == pat) by {
        assert(t.subrange(i, i + 1) =~= seq![t[i]]);
        assert(seq![t[i]][0] == t[i] && sep[0] == pat);
    }
    assert forall|i: int| 0 <= i < s.len() implies #[trigger] occurs_at(s, sep, i) == (t[i]
        == pat) by {
        assert(s.subrange(i, i + 1) =~= seq![s[i]]);
        assert(t[i] == s[i]);
        assert(seq![s[i]][0] == s[i] && sep[0] == pat);
    }
    assert(t[s.len() as int] == pat);
    assert(occurs_at(t, sep, s.len() as int));
    let i = find_from(t, sep, start)->0;
    match find_from(s, sep, start) {
        Some(k) => {
            assert(occurs_at(s, sep, k));
            assert(0 <= k < s.len());
            assert(occurs_at(t, sep, k));
            assert(i <= k);
            assert(occurs_at(t, sep, i));
            assert(occurs_at(s, sep, i));
            assert(i == k);
            lemma_split_appended(s, tail, pat, k + 1);
            assert(t.subrange(start, k) =~= s.subrange(start, k));
            let rest = split_from(s, sep, k + 1);
            assert(seq![s.subrange(start, k)] + rest.push(tail) =~= (seq![s.subrange(start, k)]
                + rest).push(tail));
        },
        None => {
            if i < s.len() {
                assert(occurs_at(s, sep, i));
            }
            assert(i == s.len());
            lemma_find_from(t, sep, i + 1);
            let after = find_from(t, sep, i + 1);
            if after is Some {
                let j = after->0;
                assert(t[j] == tail[j - s.len() - 1]);
            }
            assert(t.subrange(start, i) =~= s.skip(start));
            assert(t.skip(i + 1) =~= tail);
            assert(split_from(t, sep, i + 1) =~= seq![tail]);
            assert(seq![s.skip(start)] + seq![tail] =~= seq![s.skip(start)].push(tail));
        },
    }
}

/// Appending a separator and a text without one appends a part.
pub proof fn split_of_appended(s: Seq<char>, tail: Seq<char>, pat: char)
    requires
        forall|i: int| 0 <= i < tail.len() ==> #[trigger] tail[i] != pat,
    ensures
        split(s.push(pat) + tail, seq![pat]) == split(s, seq![pat]).push(tail),
{
    lemma_split_appended(s, tail, pat, 0);
}

} // verus!
