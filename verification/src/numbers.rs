//! Decimal text of integers, both ways.

use vstd::prelude::*;

use crate::text::{chars_of, is_inert};

verus! {

/// The character of a digit below ten.
pub open spec fn digit_char(d: int) -> char {
    if d == 0 {
        '0'
    } else if d == 1 {
        '1'
    } else if d == 2 {
        '2'
    } else if d == 3 {
        '3'
    } else if d == 4 {
        '4'
    } else if d == 5 {
        '5'
    } else if d == 6 {
        '6'
    } else if d == 7 {
        '7'
    } else if d == 8 {
        '8'
    } else {
        '9'
    }
}

/// The decimal digits of `n`, without leading zeros.
pub open spec fn decimal(n: nat) -> Seq<char>
    decreases n,
{
    if n < 10 {
        seq![digit_char(n as int)]
    } else {
        decimal(n / 10).push(digit_char((n % 10) as int))
    }
}

/// The decimal text of an integer, with a minus sign where it is negative.
pub open spec fn int_text(i: int) -> Seq<char> {
    if i < 0 {
        seq!['-'] + decimal((-i) as nat)
    } else {
        decimal(i as nat)
    }
}

fn char_of_digit(d: u64) -> (r: char)
    requires
        d < 10,
    ensures
        r == digit_char(d as int),
{
    if d == 0 {
        '0'
    } else if d == 1 {
        '1'
    } else if d == 2 {
        '2'
    } else if d == 3 {
        '3'
    } else if d == 4 {
        '4'
    } else if d == 5 {
        '5'
    } else if d == 6 {
        '6'
    } else if d == 7 {
        '7'
    } else if d == 8 {
        '8'
    } else {
        '9'
    }
}

/// Writes `n` in decimal.
pub fn unsigned_text(n: u64) -> (r: String)
    ensures
        r@ == decimal(n as nat),
    decreases n,
{
    if n < 10 {
        let mut out = String::new();
        out.push(char_of_digit(n));
        assert(out@ =~= decimal(n as nat));
        out
    } else {
        let mut out = unsigned_text(n / 10);
        out.push(char_of_digit(n % 10));
        out
    }
}

/// Writes a signed integer in decimal.
pub fn signed_text(n: i64) -> (r: String)
    ensures
        r@ == int_text(n as int),
{
    if n < 0 {
        let m: u64 = (-(n + 1)) as u64 + 1;
        let digits = unsigned_text(m);
        let mut out = String::new();
        out.push('-');
        out.push_str(digits.as_str());
        assert(out@ =~= int_text(n as int));
        out
    } else {
        unsigned_text(n as u64)
    }
}

/// Writes a count in decimal.
pub fn count_text(n: usize) -> (r: String)
    ensures
        r@ == decimal(n as nat),
{
    unsigned_text(n as u64)
}

// ---- reading ----------------------------------------------------------------

/// The number of a digit's character.
pub open spec fn digit_value(c: char) -> int {
    c as int - '0' as int
}

/// Whether `s` is made of digits alone.
pub open spec fn all_digits(s: Seq<char>) -> bool {
    forall|i: int| 0 <= i < s.len() ==> crate::text::is_digit(#[trigger] s[i])
}

/// The value of a sequence of digits.
pub open spec fn digits_value(s: Seq<char>) -> nat
    decreases s.len(),
{
    if s.len() == 0 {
        0
    } else {
        (digits_value(s.drop_last()) * 10 + digit_value(s.last())) as nat
    }
}

/// The natural number that `s` writes: one or more digits, nothing else.
pub open spec fn natural(s: Seq<char>) -> Option<nat> {
    if s.len() > 0 && all_digits(s) {
        Some(digits_value(s))
    } else {
        None
    }
}

/// The natural number that `s` writes, where a plus sign may lead.
pub open spec fn unsigned_value(s: Seq<char>) -> Option<nat> {
    if s.len() > 0 && s[0] == '+' {
        natural(s.skip(1))
    } else {
        natural(s)
    }
}

/// The integer that `s` writes, where a sign may lead.
pub open spec fn signed_value(s: Seq<char>) -> Option<int> {
    if s.len() > 0 && s[0] == '-' {
        match natural(s.skip(1)) {
            Some(n) => Some(-(n as int)),
            None => None,
        }
    } else {
        match unsigned_value(s) {
            Some(n) => Some(n as int),
            None => None,
        }
    }
}

/// Reads the digits of `v` from `from` on.
fn magnitude(v: &Vec<char>, from: usize) -> (r: Option<u64>)
    requires
        from <= v@.len(),
    ensures
        match natural(v@.skip(from as int)) {
            Some(n) => if n <= u64::MAX {
                r == Some(n as u64)
            } else {
                r is None
            },
            None => r is None,
        },
{
    let ghost s = v@.skip(from as int);
    if from == v.len() {
        return None;
    }
    let mut i: usize = from;
    let mut value: u64 = 0;
    let mut fits: bool = true;
    while i < v.len()
        invariant
            from <= i <= v@.len(),
            from < v@.len(),
            s == v@.skip(from as int),
            all_digits(s.take(i - from)),
            fits ==> value == digits_value(s.take(i - from)),
            !fits ==> digits_value(s.take(i - from)) > u64::MAX,
        decreases v@.len() - i,
    {
        let c: char = v[i];
        if !crate::text::digit(c) {
            assert(s[i - from] == c);
            return None;
        }
        proof {
            let next = s.take(i - from + 1);
            assert(next.drop_last() =~= s.take(i - from));
            assert(next.last() == c);
            assert forall|k: int| 0 <= k < next.len() implies crate::text::is_digit(
                #[trigger] next[k],
            ) by {
                if k < i - from {
                    assert(next[k] == s.take(i - from)[k]);
                }
            }
        }
        let d: u64 = (c as u32 - '0' as u32) as u64;
        if fits {
            if value > (u64::MAX - d) / 10 {
                fits = false;
            } else {
                value = value * 10 + d;
            }
        }
        i = i + 1;
    }
    proof {
        assert(s.take(i - from) =~= s);
    }
    if fits {
        Some(value)
    } else {
        None
    }
}

/// Reads an unsigned number: digits, with an optional plus sign before them.
/// Fails on anything else and on a number that does not fit.
pub fn parse_u64(text: &str) -> (r: Option<u64>)
    ensures
        match unsigned_value(text@) {
            Some(n) => if n <= u64::MAX {
                r == Some(n as u64)
            } else {
                r is None
            },
            None => r is None,
        },
{
    let v = chars_of(text);
    if v.len() > 0 && v[0] == '+' {
        magnitude(&v, 1)
    } else {
        assert(v@.skip(0) =~= v@);
        magnitude(&v, 0)
    }
}

/// The digits of an unsigned number, however many there are.
pub fn digits_of(text: &str) -> (r: Option<Vec<char>>)
    ensures
        match unsigned_value(text@) {
            Some(n) => r is Some && all_digits(r->0@) && digits_value(r->0@) == n,
            None => r is None,
        },
{
    let v = chars_of(text);
    let from: usize = if v.len() > 0 && v[0] == '+' {
        1
    } else {
        0
    };
    let ghost s = v@.skip(from as int);
    assert(v@.skip(0) =~= v@);
    if from == v.len() {
        return None;
    }
    let mut out: Vec<char> = Vec::new();
    let mut i: usize = from;
    while i < v.len()
        invariant
            from <= i <= v@.len(),
            s == v@.skip(from as int),
            unsigned_value(text@) == natural(s),
            out@ == s.take(i - from),
            all_digits(out@),
        decreases v@.len() - i,
    {
        let c: char = v[i];
        assert(s[i - from] == c);
        if !crate::text::digit(c) {
            return None;
        }
        out.push(c);
        assert(s.take(i - from + 1) =~= s.take(i - from).push(c));
        i = i + 1;
    }
    assert(s.take(i - from) =~= s);
    Some(out)
}

/// Reads an unsigned number of 32 bits.
pub fn parse_u32(text: &str) -> (r: Option<u32>)
    ensures
        match unsigned_value(text@) {
            Some(n) => if n <= u32::MAX {
                r == Some(n as u32)
            } else {
                r is None
            },
            None => r is None,
        },
{
    match parse_u64(text) {
        Some(n) => if n <= u32::MAX as u64 {
            Some(n as u32)
        } else {
            None
        },
        None => None,
    }
}

/// Reads a signed number: digits, with an optional sign before them. Fails on
/// anything else and on a number that does not fit.
pub fn parse_i64(text: &str) -> (r: Option<i64>)
    ensures
        match signed_value(text@) {
            Some(n) => if i64::MIN <= n <= i64::MAX {
                r == Some(n as i64)
            } else {
                r is None
            },
            None => r is None,
        },
{
    let v = chars_of(text);
    if v.len() > 0 && v[0] == '-' {
        match magnitude(&v, 1) {
            Some(m) => if m <= i64::MAX as u64 {
                Some(-(m as i64))
            } else if m == 9223372036854775808u64 {
                Some(i64::MIN)
            } else {
                None
            },
            None => None,
        }
    } else {
        match parse_u64(text) {
            Some(m) => if m <= i64::MAX as u64 {
                Some(m as i64)
            } else {
                None
            },
            None => None,
        }
    }
}

proof fn lemma_decimal_is_inert(n: nat)
    ensures
        is_inert(decimal(n)),
    decreases n,
{
    if n >= 10 {
        lemma_decimal_is_inert(n / 10);
    }
}

/// The text of a number has no control character.
pub proof fn int_text_is_inert(i: int)
    ensures
        is_inert(int_text(i)),
{
    if i < 0 {
        lemma_decimal_is_inert((-i) as nat);
    } else {
        lemma_decimal_is_inert(i as nat);
    }
}

proof fn lemma_decimal_digits(n: nat)
    ensures
        all_digits(decimal(n)),
    decreases n,
{
    if n >= 10 {
        lemma_decimal_digits(n / 10);
        assert forall|i: int| 0 <= i < decimal(n).len() implies crate::text::is_digit(
            #[trigger] decimal(n)[i],
        ) by {
            if i < decimal(n / 10).len() {
                assert(decimal(n)[i] == decimal(n / 10)[i]);
            }
        }
    }
}

/// The text of a number is made of digits and a minus sign alone.
pub proof fn int_text_is_numeric(n: int)
    ensures
        forall|i: int|
            0 <= i < int_text(n).len() ==> crate::text::is_digit(#[trigger] int_text(n)[i])
                || int_text(n)[i] == '-',
{
    if n < 0 {
        lemma_decimal_digits((-n) as nat);
    } else {
        lemma_decimal_digits(n as nat);
    }
    let s = int_text(n);
    assert forall|i: int| 0 <= i < s.len() implies crate::text::is_digit(#[trigger] s[i]) || s[i]
        == '-' by {
        if n < 0 && i > 0 {
            assert(s[i] == decimal((-n) as nat)[i - 1]);
        }
    }
}

proof fn lemma_decimal_value(n: nat)
    ensures
        decimal(n).len() > 0,
        digits_value(decimal(n)) == n,
    decreases n,
{
    if n < 10 {
        let d = seq![digit_char(n as int)];
        assert(d.drop_last() =~= Seq::<char>::empty());
        assert(digits_value(d.drop_last()) == 0);
        assert(d.last() == digit_char(n as int));
    } else {
        lemma_decimal_value(n / 10);
        let d = decimal(n);
        assert(d.drop_last() =~= decimal(n / 10));
        assert(d.last() == digit_char((n % 10) as int));
    }
}

/// A number reads back as it was written, also with a plus sign before it.
pub proof fn numbers_read_back(n: nat, i: int)
    ensures
        natural(decimal(n)) == Some(n),
        unsigned_value(decimal(n)) == Some(n),
        unsigned_value(seq!['+'] + decimal(n)) == Some(n),
        signed_value(int_text(i)) == Some(i),
{
    lemma_decimal_value(n);
    lemma_decimal_digits(n);
    assert(crate::text::is_digit(decimal(n)[0]));
    assert((seq!['+'] + decimal(n)).skip(1) =~= decimal(n));
    assert((seq!['+'] + decimal(n))[0] == '+');
    let m: nat = if i < 0 {
        (-i) as nat
    } else {
        i as nat
    };
    lemma_decimal_value(m);
    lemma_decimal_digits(m);
    assert(crate::text::is_digit(decimal(m)[0]));
    if i < 0 {
        assert(int_text(i).skip(1) =~= decimal(m));
        assert(int_text(i)[0] == '-');
    }
}

/// A text with anything but digits in it, a sign before them aside, is no number.
pub proof fn only_digits_are_numbers(s: Seq<char>, i: int)
    requires
        0 < i < s.len(),
        !crate::text::is_digit(s[i]),
    ensures
        unsigned_value(s) is None,
        signed_value(s) is None,
        natural(s) is None,
{
    let t = s.skip(1);
    assert(t[i - 1] == s[i]);
}

} // verus!
