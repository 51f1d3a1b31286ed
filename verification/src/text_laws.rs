//! What the operations on text do, stated over the texts that go in and come
//! out.

use vstd::prelude::*;

use crate::text::{
    after_last, contains, find_from, is_white, join, lemma_find_from, lemma_skip_bounds,
    lex_before, lex_before_from, lines, lines_from, occurs_at, pad_left, pad_right, replace, replace_first,
    replace_from, skip_white, skip_word, split, split_from, split_once, stop_index, tail_start, trim, trim_end, until, words, words_from,
};

verus! {

// ---- ends -------------------------------------------------------------------

/// Whether a text is white space throughout.
pub open spec fn all_white(s: Seq<char>) -> bool {
    forall|i: int| 0 <= i < s.len() ==> is_white(#[trigger] s[i])
}

/// Whether neither end of a text is white space.
pub open spec fn ends_are_dark(s: Seq<char>) -> bool {
    s.len() > 0 ==> !is_white(s[0]) && !is_white(s.last())
}

proof fn lemma_skip_white(s: Seq<char>, i: int)
    requires
        0 <= i <= s.len(),
    ensures
        i <= skip_white(s, i) <= s.len(),
        forall|k: int| i <= k < skip_white(s, i) ==> is_white(#[trigger] s[k]),
        skip_white(s, i) < s.len() ==> !is_white(s[skip_white(s, i)]),
    decreases s.len() - i,
{
    if i < s.len() && is_white(s[i]) {
        lemma_skip_white(s, i + 1);
    }
}

proof fn lemma_skip_word(s: Seq<char>, i: int)
    requires
        0 <= i <= s.len(),
    ensures
        i <= skip_word(s, i) <= s.len(),
        forall|k: int| i <= k < skip_word(s, i) ==> !is_white(#[trigger] s[k]),
        skip_word(s, i) < s.len() ==> is_white(s[skip_word(s, i)]),
    decreases s.len() - i,
{
    if i < s.len() && !is_white(s[i]) {
        lemma_skip_word(s, i + 1);
    }
}

proof fn lemma_trim_end(s: Seq<char>) -> (tail: Seq<char>)
    ensures
        s == trim_end(s) + tail,
        all_white(tail),
        trim_end(s).len() > 0 ==> !is_white(trim_end(s).last()),
    decreases s.len(),
{
    if s.len() > 0 && is_white(s.last()) {
        let tail = lemma_trim_end(s.drop_last());
        let out = tail.push(s.last());
        assert(s =~= s.drop_last().push(s.last()));
        assert(s =~= trim_end(s) + out);
        out
    } else {
        assert(s =~= s + Seq::<char>::empty());
        Seq::empty()
    }
}

/// Trimming takes white space off both ends and nothing else, and leaves none
/// there.
pub proof fn trim_takes_white_ends(s: Seq<char>) -> (r: (Seq<char>, Seq<char>))
    ensures
        s == r.0 + trim(s) + r.1,
        all_white(r.0),
        all_white(r.1),
        ends_are_dark(trim(s)),
{
    let a = skip_white(s, 0);
    lemma_skip_white(s, 0);
    let lead = s.take(a);
    let rest = s.skip(a);
    let tail = lemma_trim_end(rest);
    assert(s =~= lead + rest);
    assert(s =~= lead + trim(s) + tail);
    if trim(s).len() > 0 {
        assert(trim(s)[0] == rest[0]);
        assert(rest[0] == s[a]);
    }
    (lead, tail)
}

/// A text whose ends are not white space is what trimming leaves of it with any
/// white space around it.
pub proof fn trim_undoes_white_ends(lead: Seq<char>, s: Seq<char>, tail: Seq<char>)
    requires
        all_white(lead),
        all_white(tail),
        ends_are_dark(s),
    ensures
        trim(lead + s + tail) == s,
{
    let t = lead + s + tail;
    let (l, r) = trim_takes_white_ends(t);
    let m = trim(t);
    let n = s.len() as int;
    assert forall|i: int| 0 <= i < t.len() implies #[trigger] t[i] == (if i < lead.len() {
        lead[i]
    } else if i < lead.len() + n {
        s[i - lead.len()]
    } else {
        tail[i - lead.len() - n]
    }) by {}
    assert forall|i: int| 0 <= i < t.len() implies #[trigger] t[i] == (if i < l.len() {
        l[i]
    } else if i < l.len() + m.len() {
        m[i - l.len()]
    } else {
        r[i - l.len() - m.len()]
    }) by {}
    assert(t.len() == l.len() + m.len() + r.len());
    if n > 0 {
        let first = lead.len() as int;
        let last = lead.len() + n - 1;
        assert(t[first] == s[0]);
        assert(t[last] == s.last());
        assert(l.len() <= first);
        if l.len() < first {
            if m.len() > 0 {
                assert(t[l.len() as int] == m[0]);
                assert(t[l.len() as int] == lead[l.len() as int]);
            } else {
                assert(t[first] == r[first - l.len()]);
            }
        }
        assert(l.len() + m.len() > last) by {
            if l.len() + m.len() <= last {
                assert(t[last] == r[last - l.len() - m.len()]);
            }
        }
        if l.len() + m.len() > last + 1 {
            let e = l.len() + m.len() - 1;
            assert(t[e] == m.last());
            assert(t[e] == tail[e - lead.len() - n]);
        }
        assert(m.len() == n);
        assert forall|i: int| 0 <= i < n implies m[i] == #[trigger] s[i] by {
            assert(t[first + i] == m[i]);
            assert(t[first + i] == s[i]);
        }
        assert(m =~= s);
    } else {
        if m.len() > 0 {
            assert(t[l.len() as int] == m[0]);
        }
        assert(m =~= s);
    }
}

// ---- splitting --------------------------------------------------------------

proof fn lemma_join_front(parts: Seq<Seq<char>>, sep: Seq<char>)
    requires
        parts.len() >= 2,
    ensures
        join(parts, sep) == parts[0] + sep + join(parts.skip(1), sep),
    decreases parts.len(),
{
    let back = parts.drop_last();
    if parts.len() == 2 {
        assert(parts.skip(1).len() == 1);
        assert(parts.skip(1)[0] == parts[1]);
        assert(back.len() == 1 && back[0] == parts[0]);
        assert(join(back, sep) == parts[0]);
    } else {
        lemma_join_front(back, sep);
        assert(back.skip(1) =~= parts.skip(1).drop_last());
        assert(parts.skip(1).last() == parts.last());
        let mid = join(back.skip(1), sep);
        assert((parts[0] + sep + mid) + sep + parts.last() =~= parts[0] + sep + (mid + sep
            + parts.last()));
    }
}

proof fn lemma_split_joins(s: Seq<char>, pat: Seq<char>, with: Seq<char>, start: int)
    requires
        pat.len() > 0,
        0 <= start <= s.len(),
    ensures
        split_from(s, pat, start).len() > 0,
        join(split_from(s, pat, start), pat) == s.skip(start),
        join(split_from(s, pat, start), with) == replace_from(s, pat, with, start),
        forall|i: int, k: int|
            #![trigger occurs_at(split_from(s, pat, start)[i], pat, k)]
            0 <= i < split_from(s, pat, start).len() ==> !occurs_at(
                split_from(s, pat, start)[i],
                pat,
                k,
            ),
    decreases s.len() - start,
{
    lemma_find_from(s, pat, start);
    let parts = split_from(s, pat, start);
    match find_from(s, pat, start) {
        Some(i) => {
            let next = i + pat.len();
            lemma_split_joins(s, pat, with, next);
            let rest = split_from(s, pat, next);
            let head = s.subrange(start, i);
            assert(parts == seq![head] + rest);
            assert(parts.skip(1) =~= rest);
            assert(parts[0] == head);
            lemma_join_front(parts, pat);
            lemma_join_front(parts, with);
            assert(s.subrange(i, next) == pat);
            assert(s.skip(start) =~= head + s.subrange(i, next) + s.skip(next));
            assert forall|q: int, k: int|
                #![trigger occurs_at(parts[q], pat, k)]
                0 <= q < parts.len() implies !occurs_at(parts[q], pat, k) by {
                if q == 0 {
                    if occurs_at(head, pat, k) {
                        assert(s.subrange(start + k, start + k + pat.len()) =~= head.subrange(
                            k,
                            k + pat.len(),
                        ));
                        assert(occurs_at(s, pat, start + k));
                    }
                } else {
                    assert(parts[q] == rest[q - 1]);
                    assert(!occurs_at(rest[q - 1], pat, k));
                }
            }
        },
        None => {
            assert(parts.len() == 1 && parts[0] == s.skip(start));
            assert forall|q: int, k: int|
                #![trigger occurs_at(parts[q], pat, k)]
                0 <= q < parts.len() implies !occurs_at(parts[q], pat, k) by {
                if occurs_at(parts[0], pat, k) {
                    assert(s.subrange(start + k, start + k + pat.len()) =~= s.skip(
                        start,
                    ).subrange(k, k + pat.len()));
                    assert(occurs_at(s, pat, start + k));
                }
            }
        },
    }
}

/// Joining the parts of a text with what it was split at gives the text back, and
/// no part holds that.
pub proof fn split_is_undone_by_join(s: Seq<char>, pat: Seq<char>)
    requires
        pat.len() > 0,
    ensures
        split(s, pat).len() > 0,
        join(split(s, pat), pat) == s,
        forall|i: int| 0 <= i < split(s, pat).len() ==> !contains(#[trigger] split(s, pat)[i], pat),
{
    lemma_split_joins(s, pat, pat, 0);
    assert(s.skip(0) =~= s);
}

/// Replacing puts the new text wherever the old one parted the text.
pub proof fn replace_joins_the_parts(s: Seq<char>, pat: Seq<char>, with: Seq<char>)
    requires
        pat.len() > 0,
    ensures
        replace(s, pat, with) == join(split(s, pat), with),
{
    lemma_split_joins(s, pat, with, 0);
}

/// A text cut at the first separator: the parts before and after, where it has
/// one, and nothing otherwise.
pub proof fn cutting_parts_at_the_first(head: Seq<char>, pat: Seq<char>, tail: Seq<char>)
    requires
        forall|k: int| 0 <= k < head.len() ==> !occurs_at(head + pat + tail, pat, k),
    ensures
        find_from(head + pat + tail, pat, 0) == Some(head.len() as int),
        split_once(head + pat + tail, pat) == Some((head, tail)),
        forall|with: Seq<char>|
            #[trigger] replace_first(head + pat + tail, pat, with) == head + with + tail,
{
    let s = head + pat + tail;
    let n = head.len() as int;
    assert(s.subrange(n, n + pat.len()) =~= pat);
    assert(occurs_at(s, pat, n));
    lemma_find_from(s, pat, 0);
    assert(s.take(n) =~= head);
    assert(s.skip(n + pat.len()) =~= tail);
}

/// A text without the separator has nothing to cut or to replace.
pub proof fn cutting_needs_a_separator(s: Seq<char>, pat: Seq<char>, with: Seq<char>)
    requires
        !contains(s, pat),
    ensures
        split_once(s, pat) is None,
        replace_first(s, pat, with) == s,
{
    lemma_find_from(s, pat, 0);
}

// ---- words ------------------------------------------------------------------

/// Whether a text is one word: not empty, and without white space.
pub open spec fn is_word(s: Seq<char>) -> bool {
    s.len() > 0 && forall|i: int| 0 <= i < s.len() ==> !is_white(#[trigger] s[i])
}

proof fn lemma_words_within(s: Seq<char>, i: int)
    requires
        0 <= i <= s.len(),
    ensures
        forall|k: int| 0 <= k < words_from(s, i).len() ==> is_word(#[trigger] words_from(s, i)[k]),
    decreases s.len() - i,
{
    lemma_skip_white(s, i);
    let a = skip_white(s, i);
    lemma_skip_word(s, a);
    let b = skip_word(s, a);
    if a < b {
        lemma_words_within(s, b);
        let w = s.subrange(a, b);
        assert forall|k: int| 0 <= k < w.len() implies !is_white(#[trigger] w[k]) by {
            assert(w[k] == s[a + k]);
        }
        let all = words_from(s, i);
        assert(all == seq![w] + words_from(s, b));
        assert forall|k: int| 0 <= k < all.len() implies is_word(#[trigger] all[k]) by {
            if k == 0 {
                assert(all[0] == w);
            } else {
                assert(all[k] == words_from(s, b)[k - 1]);
            }
        }
    }
}

proof fn lemma_skip_at(s: Seq<char>, i: int, a: int)
    requires
        0 <= i <= a <= s.len(),
        forall|k: int| i <= k < a ==> is_white(#[trigger] s[k]),
        a < s.len() ==> !is_white(s[a]),
    ensures
        skip_white(s, i) == a,
    decreases a - i,
{
    if i < a {
        assert(is_white(s[i]));
        lemma_skip_at(s, i + 1, a);
    }
}

proof fn lemma_skip_word_at(s: Seq<char>, i: int, b: int)
    requires
        0 <= i <= b <= s.len(),
        forall|k: int| i <= k < b ==> !is_white(#[trigger] s[k]),
        b < s.len() ==> is_white(s[b]),
    ensures
        skip_word(s, i) == b,
    decreases b - i,
{
    if i < b {
        assert(!is_white(s[i]));
        lemma_skip_word_at(s, i + 1, b);
    }
}

proof fn lemma_words_shift(pre: Seq<char>, s: Seq<char>, i: int)
    requires
        0 <= i <= s.len(),
    ensures
        words_from(pre + s, pre.len() + i) == words_from(s, i),
    decreases s.len() - i,
{
    let t = pre + s;
    let n = pre.len() as int;
    lemma_skip_white(s, i);
    let a = skip_white(s, i);
    assert forall|k: int| n + i <= k < n + a implies is_white(#[trigger] t[k]) by {
        assert(t[k] == s[k - n]);
    }
    lemma_skip_at(t, n + i, n + a);
    lemma_skip_word(s, a);
    let b = skip_word(s, a);
    assert forall|k: int| n + a <= k < n + b implies !is_white(#[trigger] t[k]) by {
        assert(t[k] == s[k - n]);
    }
    lemma_skip_word_at(t, n + a, n + b);
    if a < b {
        lemma_words_shift(pre, s, b);
        assert(t.subrange(n + a, n + b) =~= s.subrange(a, b));
    }
}

proof fn lemma_words_cut(s: Seq<char>, c: char, tail: Seq<char>, i: int)
    requires
        0 <= i <= s.len(),
        is_white(c),
    ensures
        words_from(s.push(c) + tail, i) == words_from(s, i) + words(tail),
    decreases s.len() - i,
{
    let t = s.push(c) + tail;
    let n = s.len() as int;
    assert(forall|k: int| 0 <= k < n ==> t[k] == s[k]);
    assert(t[n] == c);
    lemma_skip_white(s, i);
    let a = skip_white(s, i);
    lemma_skip_word(s, a);
    let b = skip_word(s, a);
    if a < b {
        lemma_skip_at(t, i, a);
        lemma_skip_word_at(t, a, b);
        lemma_words_cut(s, c, tail, b);
        assert(t.subrange(a, b) =~= s.subrange(a, b));
        assert(seq![s.subrange(a, b)] + (words_from(s, b) + words(tail)) =~= seq![s.subrange(a, b)]
            + words_from(s, b) + words(tail));
    } else {
        assert(a == n) by {
            if a < n {
                assert(b > a) by {
                    lemma_skip_bounds(s, a);
                }
            }
        }
        let pre = s.push(c);
        lemma_words_shift(pre, tail, 0);
        lemma_words_skip(t, i, n + 1);
        assert(words_from(s, i) =~= Seq::<Seq<char>>::empty());
        assert(Seq::<Seq<char>>::empty() + words(tail) =~= words(tail));
    }
}

proof fn lemma_words_skip(s: Seq<char>, i: int, j: int)
    requires
        0 <= i <= j <= s.len(),
        forall|k: int| i <= k < j ==> is_white(#[trigger] s[k]),
    ensures
        words_from(s, i) == words_from(s, j),
{
    lemma_skip_white(s, j);
    let a = skip_white(s, j);
    lemma_skip_at(s, i, a);
    lemma_skip_word(s, a);
}

/// White space parts words: the words of two texts with white space between them
/// are those of the first and those of the second; a text without white space is
/// one word, and an empty one has none.
pub proof fn words_are_parted_by_white(s: Seq<char>, c: char, tail: Seq<char>)
    ensures
        is_white(c) ==> words(s.push(c) + tail) == words(s) + words(tail),
        is_word(s) ==> words(s) == seq![s],
        s.len() == 0 ==> words(s).len() == 0,
        forall|k: int| 0 <= k < words(s).len() ==> is_word(#[trigger] words(s)[k]),
{
    lemma_words_within(s, 0);
    if is_white(c) {
        lemma_words_cut(s, c, tail, 0);
    }
    if is_word(s) {
        let n = s.len() as int;
        lemma_skip_at(s, 0, 0);
        lemma_skip_word_at(s, 0, n);
        assert(s.subrange(0, n) =~= s);
        lemma_skip_at(s, n, n);
        assert(words_from(s, n) =~= Seq::<Seq<char>>::empty());
        assert(seq![s] + Seq::<Seq<char>>::empty() =~= seq![s]);
    }
}

// ---- lines ------------------------------------------------------------------

proof fn lemma_newline(s: Seq<char>, i: int)
    ensures
        occurs_at(s, seq!['\n'], i) == (0 <= i < s.len() && s[i] == '\n'),
{
    if 0 <= i < s.len() {
        assert(s.subrange(i, i + 1) =~= seq![s[i]]);
        assert(seq![s[i]][0] == s[i]);
        assert(seq!['\n'][0] == '\n');
    }
}

proof fn lemma_lines_shift(pre: Seq<char>, s: Seq<char>, i: int)
    requires
        0 <= i <= s.len(),
    ensures
        lines_from(pre + s, pre.len() + i) == lines_from(s, i),
    decreases s.len() - i,
{
    let t = pre + s;
    let n = pre.len() as int;
    let nl = seq!['\n'];
    if i < s.len() {
        lemma_find_from(s, nl, i);
        lemma_find_from(t, nl, n + i);
        match find_from(s, nl, i) {
            Some(k) => {
                lemma_newline(s, k);
                lemma_newline(t, n + k);
                assert(t[n + k] == s[k]);
                let j = find_from(t, nl, n + i)->0;
                lemma_newline(t, j);
                assert(j <= n + k);
                lemma_newline(s, j - n);
                assert(t[j] == s[j - n]);
                assert(j == n + k);
                lemma_lines_shift(pre, s, k + 1);
                assert(t.subrange(n + i, n + k) =~= s.subrange(i, k));
            },
            None => {
                if find_from(t, nl, n + i) is Some {
                    let j = find_from(t, nl, n + i)->0;
                    lemma_newline(t, j);
                    lemma_newline(s, j - n);
                    assert(t[j] == s[j - n]);
                }
                assert(t.skip(n + i) =~= s.skip(i));
            },
        }
    }
}

/// A newline ends a line, and a carriage return right before it goes with it;
/// what follows the last newline is a line where it is not empty.
pub proof fn lines_end_in_newlines(line: Seq<char>, rest: Seq<char>)
    requires
        forall|i: int| 0 <= i < line.len() ==> #[trigger] line[i] != '\n',
    ensures
        lines(line.push('\n') + rest) == seq![
            if line.len() > 0 && line.last() == '\r' {
                line.drop_last()
            } else {
                line
            },
        ] + lines(rest),
        line.len() > 0 ==> lines(line) == seq![line],
        line.len() == 0 ==> lines(line).len() == 0,
{
    let pre = line.push('\n');
    let t = pre + rest;
    let n = line.len() as int;
    let nl = seq!['\n'];
    lemma_find_from(t, nl, 0);
    assert(t[n] == '\n');
    lemma_newline(t, n);
    let j = find_from(t, nl, 0)->0;
    lemma_newline(t, j);
    if j < n {
        assert(t[j] == line[j]);
    }
    assert(j == n);
    assert(t.subrange(0, n) =~= line);
    lemma_lines_shift(pre, rest, 0);
    assert(lines_from(t, n + 1) == lines(rest));
    lemma_find_from(line, nl, 0);
    if let Some(k) = find_from(line, nl, 0) {
        lemma_newline(line, k);
    }
    assert(line.skip(0) =~= line);
}

// ---- parts ------------------------------------------------------------------

proof fn lemma_stop_index(s: Seq<char>, stops: Seq<char>, i: int)
    requires
        0 <= i <= s.len(),
    ensures
        i <= stop_index(s, stops, i) <= s.len(),
        forall|k: int| i <= k < stop_index(s, stops, i) ==> !stops.contains(#[trigger] s[k]),
        stop_index(s, stops, i) < s.len() ==> stops.contains(s[stop_index(s, stops, i)]),
    decreases s.len() - i,
{
    if i < s.len() && !stops.contains(s[i]) {
        lemma_stop_index(s, stops, i + 1);
    }
}

/// A text cut at any of some characters is what stands before the first of them,
/// or all of it where there is none.
pub proof fn cut_is_at_the_first_stop(head: Seq<char>, tail: Seq<char>, stops: Seq<char>)
    requires
        forall|i: int| 0 <= i < head.len() ==> !stops.contains(#[trigger] head[i]),
        tail.len() > 0 ==> stops.contains(tail[0]),
    ensures
        until(head + tail, stops) == head,
{
    let s = head + tail;
    lemma_stop_index(s, stops, 0);
    let k = stop_index(s, stops, 0);
    if k < head.len() {
        assert(s[k] == head[k]);
    }
    if k > head.len() {
        assert(s[head.len() as int] == tail[0]);
    }
    assert(s.take(k) =~= head);
}

proof fn lemma_tail_start(s: Seq<char>, c: char, i: int)
    requires
        0 <= i <= s.len(),
    ensures
        0 <= tail_start(s, c, i) <= i,
        forall|k: int| tail_start(s, c, i) <= k < i ==> #[trigger] s[k] != c,
        tail_start(s, c, i) > 0 ==> s[tail_start(s, c, i) - 1] == c,
    decreases i,
{
    if 0 < i && s[i - 1] != c {
        lemma_tail_start(s, c, i - 1);
    }
}

/// What follows the last of a character is what stands after it, or all of the
/// text where it has none.
pub proof fn rest_is_after_the_last(head: Seq<char>, c: char, tail: Seq<char>)
    requires
        forall|i: int| 0 <= i < tail.len() ==> #[trigger] tail[i] != c,
    ensures
        after_last(head.push(c) + tail, c) == tail,
        after_last(tail, c) == tail,
{
    let s = head.push(c) + tail;
    let n = head.len() + 1;
    lemma_tail_start(s, c, s.len() as int);
    let k = tail_start(s, c, s.len() as int);
    assert(s[n - 1] == c);
    if k > n {
        assert(s[k - 1] == tail[k - 1 - n]);
    }
    assert(s.skip(k) =~= tail);
    lemma_tail_start(tail, c, tail.len() as int);
    assert(tail_start(tail, c, tail.len() as int) == 0);
    assert(tail.skip(0) =~= tail);
}

// ---- order ------------------------------------------------------------------

proof fn lemma_lex_after(a: Seq<char>, b: Seq<char>, i: int, k: int)
    requires
        0 <= i <= k <= a.len(),
        k <= b.len(),
        forall|x: int| i <= x < k ==> #[trigger] a[x] == b[x],
    ensures
        lex_before_from(a, b, i) == lex_before_from(a, b, k),
    decreases k - i,
{
    if i < k {
        assert(a[i] == b[i]);
        lemma_lex_after(a, b, i + 1, k);
    }
}

/// The lexical order is decided by the first character in which two texts
/// differ; where one starts the other, the shorter comes first.
pub proof fn first_difference_decides(same: Seq<char>, a: Seq<char>, b: Seq<char>)
    requires
        a.len() > 0 && b.len() > 0 ==> a[0] != b[0],
    ensures
        lex_before(same + a, same + b) == (b.len() > 0 && (a.len() == 0 || a[0] < b[0])),
{
    let x = same + a;
    let y = same + b;
    let n = same.len() as int;
    assert(forall|k: int| 0 <= k < n ==> x[k] == y[k]);
    lemma_lex_after(x, y, 0, n);
    if a.len() > 0 {
        assert(x[n] == a[0]);
    }
    if b.len() > 0 {
        assert(y[n] == b[0]);
    }
}

// ---- stacking ---------------------------------------------------------------

/// Texts one after another, in order.
pub open spec fn stacked(parts: Seq<Seq<char>>) -> Seq<char> {
    join(parts, Seq::empty())
}

/// One more text goes after the others.
pub proof fn stacking_appends(parts: Seq<Seq<char>>, last: Seq<char>)
    ensures
        stacked(parts.push(last)) == stacked(parts) + last,
        stacked(Seq::empty()).len() == 0,
{
    let all = parts.push(last);
    assert(all.drop_last() =~= parts);
    if parts.len() == 0 {
        assert(stacked(parts) + last =~= last);
    } else {
        assert(stacked(parts) + Seq::<char>::empty() + last =~= stacked(parts) + last);
    }
}

/// Padding keeps the text at the start or at the end of the columns and fills the
/// rest with spaces; a text as wide as the columns or wider stays as it is.
pub proof fn padding_fills_with_spaces(s: Seq<char>, w: int)
    ensures
        pad_right(s, w).len() == if s.len() < w {
            w
        } else {
            s.len() as int
        },
        pad_right(s, w).take(s.len() as int) == s,
        forall|i: int| s.len() <= i < w ==> #[trigger] pad_right(s, w)[i] == ' ',
        pad_left(s, w).len() == if s.len() < w {
            w
        } else {
            s.len() as int
        },
        pad_left(s, w).skip(pad_left(s, w).len() - s.len()) == s,
        forall|i: int| 0 <= i < w - s.len() ==> #[trigger] pad_left(s, w)[i] == ' ',
{
    assert(pad_right(s, w).take(s.len() as int) =~= s);
    assert(pad_left(s, w).skip(pad_left(s, w).len() - s.len()) =~= s);
}

} // verus!
