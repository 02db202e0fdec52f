//! Text building blocks: appending to strings, decimal integers, and the
//! byte-to-text conversions the device descriptors need.

use vstd::prelude::*;

verus! {

/// Append one character to `s`.
///
/// Wraps std's `String::push`, which appends the character's UTF-8 encoding;
/// as characters, the string gains `c` at its end.
#[verifier::external_body]
pub(crate) fn push_char(s: &mut String, c: char)
    ensures
        final(s)@ == old(s)@.push(c),
{
    s.push(c);
}

/// The ASCII decimal digit for `d` (0..=9).
pub open spec fn digit_char(d: int) -> char {
    (('0' as u32) + d) as char
}

/// Decimal digits of a natural number, most significant first, no leading
/// zeros (zero is `"0"`).
pub open spec fn nat_decimal(n: nat) -> Seq<char>
    decreases n,
{
    if n < 10 {
        seq![digit_char(n as int)]
    } else {
        nat_decimal(n / 10) + seq![digit_char((n % 10) as int)]
    }
}

/// Decimal text of an integer, with a leading `-` when negative (the form
/// Rust's `Display` gives integers).
pub open spec fn int_decimal(n: int) -> Seq<char> {
    if n < 0 {
        seq!['-'] + nat_decimal((-n) as nat)
    } else {
        nat_decimal(n as nat)
    }
}

/// Append the decimal digits of `n`.
pub fn push_nat_decimal(out: &mut String, n: u32)
    ensures
        final(out)@ == old(out)@ + nat_decimal(n as nat),
    decreases n,
{
    if n >= 10 {
        push_nat_decimal(out, n / 10);
    }
    let d = n % 10;
    push_char(out, digit(d));
    assert(out@ == old(out)@ + nat_decimal(n as nat));
}

/// The ASCII decimal digit for `d`.
fn digit(d: u32) -> (c: char)
    requires
        d < 10,
    ensures
        c == digit_char(d as int),
{
    if d == 0 {
        '0'
    } else if d == 1 {
        '1'
    } else if d == 2 {
        '2'
    } else if d == 3 {
        '3'
    } else if d == 4 {
        '4'
    } else if d == 5 {
        '5'
    } else if d == 6 {
        '6'
    } else if d == 7 {
        '7'
    } else if d == 8 {
        '8'
    } else {
        '9'
    }
}

/// Append the decimal text of `n`.
pub fn push_decimal(out: &mut String, n: i32)
    ensures
        final(out)@ == old(out)@ + int_decimal(n as int),
{
    if n < 0 {
        push_char(out, '-');
        let magnitude: u32 = (-(n as i64)) as u32;
        push_nat_decimal(out, magnitude);
        assert(out@ == old(out)@ + int_decimal(n as int));
    } else {
        push_nat_decimal(out, n as u32);
    }
}

/// The text std's `String::from_utf8_lossy` makes of `bytes`.
pub uninterp spec fn utf8_lossy(bytes: Seq<u8>) -> Seq<char>;

/// Decode bytes as UTF-8, replacing each invalid sequence with U+FFFD.
///
/// Wraps std's `String::from_utf8_lossy` (made owned). The result is named
/// by `utf8_lossy`; of it the contract states only what std documents for
/// valid input: well-formed UTF-8 decodes to exactly its characters. Where
/// the replacement characters fall for invalid input is left unsaid.
#[verifier::external_body]
pub(crate) fn string_from_utf8_lossy(bytes: &[u8]) -> (s: String)
    ensures
        s@ == utf8_lossy(bytes@),
        vstd::utf8::valid_utf8(bytes@) ==> s@ == vstd::utf8::decode_utf8(bytes@),
{
    String::from_utf8_lossy(bytes).into_owned()
}

/// Decode bytes as UTF-8, or `None` where they are not valid UTF-8.
///
/// Wraps std's `std::str::from_utf8`, which accepts exactly the
/// well-formed UTF-8 byte sequences (no overlong forms, no surrogates) and
/// decodes them to their characters.
#[verifier::external_body]
pub(crate) fn str_from_utf8(bytes: &[u8]) -> (s: Option<&str>)
    ensures
        s is Some <==> vstd::utf8::valid_utf8(bytes@),
        s matches Some(t) ==> t@ == vstd::utf8::decode_utf8(bytes@),
{
    std::str::from_utf8(bytes).ok()
}

/// Every character of `d` is an ASCII decimal digit.
pub open spec fn all_ascii_digits(d: Seq<char>) -> bool {
    forall|i: int| 0 <= i < d.len() ==> '0' <= #[trigger] d[i] && d[i] <= '9'
}

/// The value of a string of decimal digits, most significant first.
pub open spec fn decimal_value(d: Seq<char>) -> int
    decreases d.len(),
{
    if d.len() == 0 {
        0
    } else {
        decimal_value(d.drop_last()) * 10 + (d.last() as int - '0' as int)
    }
}

/// What `str::parse::<u32>` accepts: an optional `+`, then one or more
/// ASCII digits whose value fits in a `u32`.
pub open spec fn parse_u32_spec(t: Seq<char>) -> Option<u32> {
    let d = if t.len() > 0 && t[0] == '+' {
        t.drop_first()
    } else {
        t
    };
    if d.len() > 0 && all_ascii_digits(d) && decimal_value(d) <= u32::MAX {
        Some(decimal_value(d) as u32)
    } else {
        None
    }
}

/// The characters of `s`, in order.
pub fn chars_of(s: &str) -> (v: Vec<char>)
    ensures
        v@ == s@,
{
    let mut v: Vec<char> = Vec::new();
    let mut chars = s.chars();
    let ghost mut n: int = 0;
    for c in it: chars
        invariant
            it.seq() == s@,
            n == it.index(),
            v@ == s@.take(n),
    {
        assert(c == it.seq()[it.index() as int]);
        v.push(c);
        proof {
            assert(it.seq().take(it.index() + 1) =~= it.seq().take(it.index() as int).push(c));
            n = n + 1;
        }
    }
    assert(s@.take(n) =~= s@);
    v
}

/// Parse `t[start..]` as a `u32` the way `str::parse::<u32>` does.
pub fn parse_u32_from(t: &Vec<char>, start: usize) -> (r: Option<u32>)
    requires
        start <= t@.len(),
    ensures
        r == parse_u32_spec(t@.skip(start as int)),
{
    let ghost rest = t@.skip(start as int);
    let mut i = start;
    if i < t.len() && t[i] == '+' {
        i += 1;
    }
    let ghost d = t@.skip(i as int);
    assert(d == if rest.len() > 0 && rest[0] == '+' { rest.drop_first() } else { rest });
    if i == t.len() {
        return None;
    }
    let first = i;
    let limit: u64 = 0x1_0000_0000;
    let mut acc: u64 = 0;
    while i < t.len()
        invariant
            first <= i <= t@.len(),
            d == t@.skip(first as int),
            rest == t@.skip(start as int),
            d == if rest.len() > 0 && rest[0] == '+' {
                rest.drop_first()
            } else {
                rest
            },
            d.len() > 0,
            limit == 0x1_0000_0000,
            all_ascii_digits(t@.subrange(first as int, i as int)),
            acc as int == if decimal_value(t@.subrange(first as int, i as int)) < limit {
                decimal_value(t@.subrange(first as int, i as int))
            } else {
                limit as int
            },
        decreases t@.len() - i,
    {
        let c = t[i];
        if !('0' <= c && c <= '9') {
            assert(d[i - first] == c);
            assert(!all_ascii_digits(d));
            return None;
        }
        let digit = (c as u32) - ('0' as u32);
        let ghost prev = t@.subrange(first as int, i as int);
        let ghost next = t@.subrange(first as int, i + 1);
        assert(next.drop_last() =~= prev);
        assert(next.last() == c);
        let grown = acc * 10 + digit as u64;
        acc = if grown < limit { grown } else { limit };
        i += 1;
    }
    assert(t@.subrange(first as int, i as int) =~= d);
    if acc < limit {
        Some(acc as u32)
    } else {
        None
    }
}

/// The text of a C string's bytes: their UTF-8 decoding, or empty when they
/// are not valid UTF-8.
pub open spec fn utf8_or_empty_spec(bytes: Seq<u8>) -> Seq<char> {
    if vstd::utf8::valid_utf8(bytes) {
        vstd::utf8::decode_utf8(bytes)
    } else {
        Seq::empty()
    }
}

/// Decode a C string's bytes as UTF-8, falling back to the empty string.
pub fn utf8_or_empty(bytes: &[u8]) -> (s: String)
    ensures
        s@ == utf8_or_empty_spec(bytes@),
{
    match str_from_utf8(bytes) {
        Some(t) => String::from_str(t),
        None => String::new(),
    }
}

} // verus!
