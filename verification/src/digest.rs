//! Stable identifiers from a cryptographic digest.

use vstd::prelude::*;
use vstd::utf8::encode_utf8;

verus! {

/// The SHA-256 digest of a sequence of bytes.
pub uninterp spec fn sha256(data: Seq<u8>) -> Seq<u8>;

/// `sha2::Sha256::digest`: the digest of `data`, which has 32 bytes and depends
/// on the bytes alone.
#[verifier::external_body]
fn sha256_of(data: &Vec<u8>) -> (r: Vec<u8>)
    ensures
        r@ == sha256(data@),
        r@.len() == 32,
{
    <sha2::Sha256 as sha2::Digest>::digest(data.as_slice()).to_vec()
}

/// The lower-case hexadecimal digit of a number below sixteen.
pub open spec fn hex_digit(d: int) -> char {
    if d < 10 {
        crate::numbers::digit_char(d)
    } else if d == 10 {
        'a'
    } else if d == 11 {
        'b'
    } else if d == 12 {
        'c'
    } else if d == 13 {
        'd'
    } else if d == 14 {
        'e'
    } else {
        'f'
    }
}

/// Two hexadecimal digits for each byte.
pub open spec fn hex(bytes: Seq<u8>) -> Seq<char>
    decreases bytes.len(),
{
    if bytes.len() == 0 {
        Seq::empty()
    } else {
        let b = bytes.last() as int;
        hex(bytes.drop_last()).push(hex_digit(b / 16)).push(hex_digit(b % 16))
    }
}

/// The first sixteen hexadecimal digits of the digest of `data`.
pub open spec fn short_id(data: Seq<u8>) -> Seq<char> {
    hex(sha256(data).take(8))
}

fn char_of_nibble(d: u8) -> (r: char)
    requires
        d < 16,
    ensures
        r == hex_digit(d as int),
{
    if d == 0 {
        '0'
    } else if d == 1 {
        '1'
    } else if d == 2 {
        '2'
    } else if d == 3 {
        '3'
    } else if d == 4 {
        '4'
    } else if d == 5 {
        '5'
    } else if d == 6 {
        '6'
    } else if d == 7 {
        '7'
    } else if d == 8 {
        '8'
    } else if d == 9 {
        '9'
    } else if d == 10 {
        'a'
    } else if d == 11 {
        'b'
    } else if d == 12 {
        'c'
    } else if d == 13 {
        'd'
    } else if d == 14 {
        'e'
    } else {
        'f'
    }
}

/// Writes the first eight bytes of a digest in hexadecimal.
pub fn hex_prefix(digest: &Vec<u8>) -> (r: String)
    requires
        digest@.len() >= 8,
    ensures
        r@ == hex(digest@.take(8)),
        r@.len() == 16,
{
    let mut out = String::new();
    let mut i: usize = 0;
    while i < 8
        invariant
            i <= 8 <= digest@.len(),
            out@ == hex(digest@.take(i as int)),
            out@.len() == 2 * i,
        decreases 8 - i,
    {
        let b: u8 = digest[i];
        proof {
            assert(digest@.take(i + 1).drop_last() =~= digest@.take(i as int));
            assert(digest@.take(i + 1).last() == b);
        }
        out.push(char_of_nibble(b / 16));
        out.push(char_of_nibble(b % 16));
        i = i + 1;
    }
    out
}

/// Appends the UTF-8 bytes of `s`.
pub fn push_text(data: &mut Vec<u8>, s: &str)
    ensures
        final(data)@ == old(data)@ + encode_utf8(s@),
{
    let bytes = s.as_bytes();
    let ghost start = data@;
    let mut i: usize = 0;
    while i < bytes.len()
        invariant
            bytes@ == encode_utf8(s@),
            i <= bytes@.len(),
            data@ == start + bytes@.take(i as int),
        decreases bytes@.len() - i,
    {
        data.push(bytes[i]);
        proof {
            assert(bytes@.take(i + 1) =~= bytes@.take(i as int).push(bytes@[i as int]));
            assert(data@ =~= start + bytes@.take(i + 1));
        }
        i = i + 1;
    }
    assert(bytes@.take(i as int) =~= bytes@);
}

/// The short identifier of a sequence of bytes.
pub fn identify(data: &Vec<u8>) -> (r: String)
    ensures
        r@ == short_id(data@),
        r@.len() == 16,
{
    let digest = sha256_of(data);
    hex_prefix(&digest)
}

// ---- what identifiers tell apart --------------------------------------------

/// The bytes of two texts one after the other are those of the first and those of
/// the second; a line break is one byte.
pub proof fn texts_are_encoded_in_order(a: Seq<char>, b: Seq<char>)
    ensures
        encode_utf8(a + b) == encode_utf8(a) + encode_utf8(b),
        encode_utf8(seq!['\n']) == seq![10u8],
    decreases a.len(),
{
    let nl = seq!['\n'];
    assert(nl.drop_first() =~= Seq::<char>::empty());
    assert(encode_utf8(nl.drop_first()) =~= Seq::<u8>::empty());
    assert(nl[0] as u32 == 10u32);
    assert(vstd::utf8::leading_byte_width_1(10u32) == 10u8) by (bit_vector);
    assert(encode_utf8(nl) =~= seq![10u8]);
    if a.len() == 0 {
        assert(a + b =~= b);
        assert(encode_utf8(a) + encode_utf8(b) =~= encode_utf8(b));
    } else {
        texts_are_encoded_in_order(a.drop_first(), b);
        assert((a + b).drop_first() =~= a.drop_first() + b);
        assert((a + b)[0] == a[0]);
        assert(encode_utf8(a + b) =~= encode_utf8(a) + encode_utf8(b));
    }
}

/// Different texts have different bytes.
pub proof fn encodings_tell_texts_apart(a: Seq<char>, b: Seq<char>)
    requires
        encode_utf8(a) == encode_utf8(b),
    ensures
        a == b,
{
    vstd::utf8::encode_utf8_decode_utf8(a);
    vstd::utf8::encode_utf8_decode_utf8(b);
}

/// Two texts on a line each, the first without a line break, are told apart from
/// any other two such texts.
pub proof fn lines_tell_their_texts(a: Seq<char>, b: Seq<char>, c: Seq<char>, d: Seq<char>)
    requires
        !a.contains('\n'),
        !c.contains('\n'),
        a.push('\n') + b == c.push('\n') + d,
    ensures
        a == c,
        b == d,
{
    let x = a.push('\n') + b;
    let y = c.push('\n') + d;
    let n = a.len() as int;
    let m = c.len() as int;
    assert(x[n] == '\n');
    assert(y[m] == '\n');
    if n < m {
        assert(y[n] == c[n]);
        assert(c.contains(c[n]));
    }
    if m < n {
        assert(x[m] == a[m]);
        assert(a.contains(a[m]));
    }
    assert(forall|i: int| 0 <= i < n ==> x[i] == a[i] && y[i] == c[i]);
    assert(a =~= c);
    assert(forall|i: int| 0 <= i < b.len() ==> x[n + 1 + i] == b[i]);
    assert(forall|i: int| 0 <= i < d.len() ==> y[n + 1 + i] == d[i]);
    assert(x.len() == n + 1 + b.len() && y.len() == n + 1 + d.len());
    assert forall|i: int| 0 <= i < b.len() implies b[i] == d[i] by {
        assert(x[n + 1 + i] == y[n + 1 + i]);
    }
    assert(b =~= d);
}

/// Each byte is two hexadecimal digits, the higher first, and sixteen numbers have
/// sixteen digits.
pub proof fn hex_tells_each_byte(bytes: Seq<u8>, i: int, d: int, e: int)
    requires
        0 <= i < bytes.len(),
        0 <= d < 16,
        0 <= e < 16,
    ensures
        hex(bytes).len() == 2 * bytes.len(),
        hex(bytes)[2 * i] == hex_digit(bytes[i] as int / 16),
        hex(bytes)[2 * i + 1] == hex_digit(bytes[i] as int % 16),
        hex_digit(d) == hex_digit(e) ==> d == e,
    decreases bytes.len(),
{
    let front = bytes.drop_last();
    if front.len() == 0 {
        assert(hex(front) =~= Seq::<char>::empty());
    } else {
        hex_tells_each_byte(front, if i < front.len() { i } else { 0 }, d, e);
        if i < front.len() {
            assert(front[i] == bytes[i]);
        }
    }
}

} // verus!
