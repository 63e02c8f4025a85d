//! The recursive-descent parser for the surface syntax, working over
//! character positions of the input text. Every parser takes the input
//! and a start position and returns the position after what it consumed,
//! together with the parsed value; its contract pins both to spec-level
//! functions of the text.

use vstd::prelude::*;
use vstd::string::StrSliceExecFns;

pub mod ast;
pub mod keyword;

verus! {

/// The characters that may be skipped before every token.
pub open spec fn is_space_char(c: char) -> bool {
    c == ' ' || c == '\n' || c == '\t' || c == '\r'
}

/// The characters that may start an identifier.
pub open spec fn is_alpha_char(c: char) -> bool {
    ('a' <= c && c <= 'z') || ('A' <= c && c <= 'Z')
}

/// The decimal digits.
pub open spec fn is_digit_char(c: char) -> bool {
    '0' <= c && c <= '9'
}

/// The characters that may continue an identifier.
pub open spec fn is_ident_char(c: char) -> bool {
    is_alpha_char(c) || is_digit_char(c) || c == '_'
}

/// The first position at or after `from` that does not hold a whitespace
/// character.
pub open spec fn ws_end(s: Seq<char>, from: int) -> int
    decreases s.len() - from,
{
    if 0 <= from < s.len() && is_space_char(s[from]) {
        ws_end(s, from + 1)
    } else {
        from
    }
}

/// The whitespace run starting inside a whitespace run ends at the same
/// place.
pub proof fn lemma_ws_same_end(s: Seq<char>, from: int, i: int)
    requires
        0 <= from <= i <= s.len(),
        forall|k: int| from <= k < i ==> is_space_char(s[k]),
    ensures
        ws_end(s, from) == ws_end(s, i),
    decreases i - from,
{
    if from < i {
        lemma_ws_same_end(s, from + 1, i);
    }
}

/// The whitespace run's end lies between its start and the text's end.
pub proof fn lemma_ws_end_bounds(s: Seq<char>, from: int)
    requires
        0 <= from <= s.len(),
    ensures
        from <= ws_end(s, from) <= s.len(),
    decreases s.len() - from,
{
    if from < s.len() && is_space_char(s[from]) {
        lemma_ws_end_bounds(s, from + 1);
    }
}

/// Skip whitespace: returns the first position at or after `from` that
/// does not hold a whitespace character.
pub fn skip_ws(input: &str, from: usize) -> (r: usize)
    requires
        from <= input@.len(),
    ensures
        from <= r <= input@.len(),
        r as int == ws_end(input@, from as int),
        forall|k: int| from <= k < r ==> is_space_char(input@[k]),
        r < input@.len() ==> !is_space_char(input@[r as int]),
{
    let len = input.unicode_len();
    let mut i: usize = from;
    while i < len
        invariant
            from <= i <= len,
            len == input@.len(),
            forall|k: int| from <= k < i ==> is_space_char(input@[k]),
        decreases len - i,
    {
        let c = input.get_char(i);
        if !(c == ' ' || c == '\n' || c == '\t' || c == '\r') {
            proof {
                lemma_ws_same_end(input@, from as int, i as int);
            }
            return i;
        }
        i += 1;
    }
    proof {
        lemma_ws_same_end(input@, from as int, i as int);
    }
    i
}

} // verus!
