//! Text helpers: building strings character by character, and label
//! truncation for canvas rendering.

use vstd::prelude::*;
use vstd::string::{StrSliceExecFns, StringExecFns};

verus! {

/// Appends one character to a string. Relies on `String::push` from std,
/// which vstd leaves unspecified.
#[verifier::external_body]
pub fn push_char(s: &mut String, c: char)
    ensures
        final(s)@ == old(s)@.push(c),
{
    s.push(c)
}

/// A `String` holding exactly the given characters.
pub fn string_from_chars(v: &Vec<char>) -> (s: String)
    ensures
        s@ == v@,
{
    let mut s = String::new();
    let mut i: usize = 0;
    while i < v.len()
        invariant
            0 <= i <= v@.len(),
            s@ == v@.take(i as int),
        decreases v@.len() - i,
    {
        push_char(&mut s, v[i]);
        proof {
            assert(s@ =~= v@.take(i + 1));
        }
        i = i + 1;
    }
    proof {
        assert(v@.take(v@.len() as int) =~= v@);
    }
    s
}

/// The characters of a string slice, in order.
pub fn chars_of(s: &str) -> (v: Vec<char>)
    ensures
        v@ == s@,
{
    let n = s.unicode_len();
    let mut v: Vec<char> = Vec::new();
    let mut i: usize = 0;
    while i < n
        invariant
            0 <= i <= n,
            n == s@.len(),
            v@ == s@.take(i as int),
        decreases n - i,
    {
        let c = s.get_char(i);
        v.push(c);
        proof {
            assert(v@ =~= s@.take(i + 1));
        }
        i = i + 1;
    }
    proof {
        assert(s@.take(n as int) =~= s@);
    }
    v
}

/// Truncation of a label to at most `max` characters: text within the limit
/// is kept whole; longer text is cut at the limit and marked with a
/// three-dot ellipsis. Counting is by Unicode scalar value, so a
/// multi-codepoint grapheme may be split.
pub open spec fn truncated(s: Seq<char>, max: nat) -> Seq<char> {
    if s.len() <= max {
        s
    } else {
        s.take(max as int) + "..."@
    }
}

/// Truncates a label for display; see `truncated`.
pub fn truncate_text(text: &str, max_len: usize) -> (r: String)
    ensures
        r@ == truncated(text@, max_len as nat),
{
    let n = text.unicode_len();
    if n <= max_len {
        text.to_owned()
    } else {
        let mut out = String::new();
        let mut i: usize = 0;
        while i < max_len
            invariant
                0 <= i <= max_len,
                max_len < n == text@.len(),
                out@ == text@.take(i as int),
            decreases max_len - i,
        {
            let c = text.get_char(i);
            push_char(&mut out, c);
            proof {
                assert(out@ =~= text@.take(i + 1));
            }
            i = i + 1;
        }
        out.append("...");
        out
    }
}

} // verus!
