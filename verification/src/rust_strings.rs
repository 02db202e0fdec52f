//! The sample string library of the full example app.

use vstd::prelude::*;

use crate::text::{utf8_or_empty, utf8_or_empty_spec};

verus! {

/// The text std's `str::to_uppercase` makes of `s`.
pub uninterp spec fn uppercase(s: Seq<char>) -> Seq<char>;

/// The Unicode uppercase of `s`.
///
/// Wraps std's `str::to_uppercase`, which maps each character by the
/// Unicode uppercase mapping (one character may become several). The
/// result is named by `uppercase`; the mapping itself is not restated.
#[verifier::external_body]
fn str_to_uppercase(s: &str) -> (upper: String)
    ensures
        upper@ == uppercase(s@),
{
    s.to_uppercase()
}

/// The uppercase of a C string (decoded as UTF-8, or empty when it is not
/// valid UTF-8).
pub fn to_uppercase(input: &[u8]) -> (upper: String)
    ensures
        upper@ == uppercase(utf8_or_empty_spec(input@)),
{
    let s = utf8_or_empty(input);
    str_to_uppercase(s.as_str())
}

/// `parts` joined, with `sep` between each two.
pub open spec fn join_with(parts: Seq<Seq<char>>, sep: Seq<char>) -> Seq<char>
    decreases parts.len(),
{
    if parts.len() == 0 {
        seq![]
    } else if parts.len() == 1 {
        parts[0]
    } else {
        join_with(parts.drop_last(), sep) + sep + parts.last()
    }
}

/// Collects string parts to be joined later.
pub struct StringBuilder {
    parts: Vec<String>,
}

impl View for StringBuilder {
    type V = Seq<Seq<char>>;

    closed spec fn view(&self) -> Seq<Seq<char>> {
        self.parts@.map_values(|p: String| p@)
    }
}

impl StringBuilder {
    /// A builder with no parts.
    pub fn new() -> (b: Self)
        ensures
            b@ == Seq::<Seq<char>>::empty(),
    {
        let b = StringBuilder { parts: Vec::new() };
        assert(b@ =~= Seq::<Seq<char>>::empty());
        b
    }

    /// Add a part, given as a C string (decoded as UTF-8, or empty when it
    /// is not valid UTF-8).
    pub fn append(&mut self, part: &[u8])
        ensures
            final(self)@ == old(self)@.push(utf8_or_empty_spec(part@)),
    {
        let s = utf8_or_empty(part);
        self.parts.push(s);
        assert(self@ =~= old(self)@.push(utf8_or_empty_spec(part@)));
    }

    /// The number of parts, as the C interface's 32-bit count (wrapping
    /// past `i32::MAX`).
    pub fn count(&self) -> (n: i32)
        ensures
            n == self@.len() as i32,
    {
        self.parts.len() as i32
    }

    /// The parts joined with `separator` (a C string, decoded as UTF-8, or
    /// empty when it is not valid UTF-8) between each two.
    pub fn build(&self, separator: &[u8]) -> (joined: String)
        ensures
            joined@ == join_with(self@, utf8_or_empty_spec(separator@)),
    {
        let sep = utf8_or_empty(separator);
        let mut out = String::new();
        let ghost parts = self@;
        let mut i: usize = 0;
        while i < self.parts.len()
            invariant
                i <= self.parts@.len(),
                parts == self@,
                parts.len() == self.parts@.len(),
                out@ == join_with(parts.take(i as int), sep@),
            decreases self.parts@.len() - i,
        {
            if i > 0 {
                out.append(sep.as_str());
            }
            out.append(self.parts[i].as_str());
            proof {
                assert(parts[i as int] == self.parts@[i as int]@);
                assert(parts.take(i + 1).drop_last() =~= parts.take(i as int));
            }
            i += 1;
        }
        assert(parts.take(i as int) =~= parts);
        out
    }
}

} // verus!
