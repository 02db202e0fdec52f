//! The sample library the Dart command-line example binds to.

use vstd::prelude::*;

use crate::text::{chars_of, push_char, utf8_or_empty_spec, utf8_or_empty};

verus! {

/// The sum of two 32-bit integers.
pub fn add(a: i32, b: i32) -> (sum: i32)
    requires
        i32::MIN <= a + b <= i32::MAX,
    ensures
        sum == a + b,
{
    a + b
}

/// The characters of a C string (decoded as UTF-8, or empty when it is not
/// valid UTF-8), in reverse order.
pub fn reverse_string(input: &[u8]) -> (reversed: String)
    ensures
        reversed@ == utf8_or_empty_spec(input@).reverse(),
{
    let s = utf8_or_empty(input);
    let chars = chars_of(s.as_str());
    let mut out = String::new();
    let mut i = chars.len();
    while i > 0
        invariant
            i <= chars@.len(),
            chars@ == s@,
            out@ == chars@.subrange(i as int, chars@.len() as int).reverse(),
        decreases i,
    {
        let ghost before = out@;
        i -= 1;
        push_char(&mut out, chars[i]);
        assert(chars@.subrange(i as int, chars@.len() as int).reverse() =~= before.push(chars@[i as int]));
    }
    assert(chars@.subrange(0, chars@.len() as int) =~= chars@);
    out
}

} // verus!
