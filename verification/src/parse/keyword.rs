//! The fixed tokens of the language. The word keywords match without
//! regard to case; the symbol tokens match exactly.

use vstd::prelude::*;
use vstd::string::StrSliceExecFns;

use crate::parse::ws_end;

verus! {

/// `loop`, in any case, stands at `from`.
pub open spec fn loop_at(s: Seq<char>, from: int) -> bool {
    &&& from + 4 <= s.len()
    &&& (s[from] == 'l' || s[from] == 'L')
    &&& (s[from + 1] == 'o' || s[from + 1] == 'O')
    &&& (s[from + 2] == 'o' || s[from + 2] == 'O')
    &&& (s[from + 3] == 'p' || s[from + 3] == 'P')
}

/// `do`, in any case, stands at `from`.
pub open spec fn do_at(s: Seq<char>, from: int) -> bool {
    &&& from + 2 <= s.len()
    &&& (s[from] == 'd' || s[from] == 'D')
    &&& (s[from + 1] == 'o' || s[from + 1] == 'O')
}

/// `end`, in any case, stands at `from`.
pub open spec fn end_at(s: Seq<char>, from: int) -> bool {
    &&& from + 3 <= s.len()
    &&& (s[from] == 'e' || s[from] == 'E')
    &&& (s[from + 1] == 'n' || s[from + 1] == 'N')
    &&& (s[from + 2] == 'd' || s[from + 2] == 'D')
}

/// `if`, in any case, stands at `from`.
pub open spec fn if_at(s: Seq<char>, from: int) -> bool {
    &&& from + 2 <= s.len()
    &&& (s[from] == 'i' || s[from] == 'I')
    &&& (s[from + 1] == 'f' || s[from + 1] == 'F')
}

/// `=` or `:=` stands at `from`.
pub open spec fn assign_at(s: Seq<char>, from: int) -> bool {
    (from + 1 <= s.len() && s[from] == '=') || (from + 2 <= s.len() && s[from] == ':' && s[from
        + 1] == '=')
}

/// Where the assignment token standing at `from` ends: `=` consumes one
/// character, `:=` two; negative where neither stands there.
pub open spec fn assign_end(s: Seq<char>, from: int) -> int {
    if from + 1 <= s.len() && s[from] == '=' {
        from + 1
    } else if from + 2 <= s.len() && s[from] == ':' && s[from + 1] == '=' {
        from + 2
    } else {
        -1
    }
}

/// `;` stands at `from`.
pub open spec fn semicolon_at(s: Seq<char>, from: int) -> bool {
    from + 1 <= s.len() && s[from] == ';'
}

pub struct Loop;

impl Loop {
    /// Match the keyword `loop`.
    pub fn parse(input: &str, from: usize) -> (r: Option<(usize, Self)>)
        requires
            from <= input@.len(),
        ensures
            match r {
                Some((p, _)) => loop_at(input@, from as int) && p == from + 4,
                None => !loop_at(input@, from as int),
            },
    {
        let len = input.unicode_len();
        if len - from < 4 {
            return None;
        }
        let c0 = input.get_char(from);
        let c1 = input.get_char(from + 1);
        let c2 = input.get_char(from + 2);
        let c3 = input.get_char(from + 3);
        if (c0 == 'l' || c0 == 'L') && (c1 == 'o' || c1 == 'O') && (c2 == 'o' || c2 == 'O') && (c3
            == 'p' || c3 == 'P') {
            Some((from + 4, Loop))
        } else {
            None
        }
    }

    /// Match the keyword `loop` after optional whitespace.
    pub fn parse_ws(input: &str, from: usize) -> (r: Option<(usize, Self)>)
        requires
            from <= input@.len(),
        ensures
            match r {
                Some((p, _)) => loop_at(input@, ws_end(input@, from as int)) && p as int == ws_end(
                    input@,
                    from as int,
                ) + 4 && from <= p <= input@.len(),
                None => !loop_at(input@, ws_end(input@, from as int)),
            },
    {
        let start = crate::parse::skip_ws(input, from);
        Self::parse(input, start)
    }
}

pub struct Do;

impl Do {
    /// Match the keyword `do`.
    pub fn parse(input: &str, from: usize) -> (r: Option<(usize, Self)>)
        requires
            from <= input@.len(),
        ensures
            match r {
                Some((p, _)) => do_at(input@, from as int) && p == from + 2,
                None => !do_at(input@, from as int),
            },
    {
        let len = input.unicode_len();
        if len - from < 2 {
            return None;
        }
        let c0 = input.get_char(from);
        let c1 = input.get_char(from + 1);
        if (c0 == 'd' || c0 == 'D') && (c1 == 'o' || c1 == 'O') {
            Some((from + 2, Do))
        } else {
            None
        }
    }

    /// Match the keyword `do` after optional whitespace.
    pub fn parse_ws(input: &str, from: usize) -> (r: Option<(usize, Self)>)
        requires
            from <= input@.len(),
        ensures
            match r {
                Some((p, _)) => do_at(input@, ws_end(input@, from as int)) && p as int == ws_end(
                    input@,
                    from as int,
                ) + 2 && from <= p <= input@.len(),
                None => !do_at(input@, ws_end(input@, from as int)),
            },
    {
        let start = crate::parse::skip_ws(input, from);
        Self::parse(input, start)
    }
}

pub struct End;

impl End {
    /// Match the keyword `end`.
    pub fn parse(input: &str, from: usize) -> (r: Option<(usize, Self)>)
        requires
            from <= input@.len(),
        ensures
            match r {
                Some((p, _)) => end_at(input@, from as int) && p == from + 3,
                None => !end_at(input@, from as int),
            },
    {
        let len = input.unicode_len();
        if len - from < 3 {
            return None;
        }
        let c0 = input.get_char(from);
        let c1 = input.get_char(from + 1);
        let c2 = input.get_char(from + 2);
        if (c0 == 'e' || c0 == 'E') && (c1 == 'n' || c1 == 'N') && (c2 == 'd' || c2 == 'D') {
            Some((from + 3, End))
        } else {
            None
        }
    }

    /// Match the keyword `end` after optional whitespace.
    pub fn parse_ws(input: &str, from: usize) -> (r: Option<(usize, Self)>)
        requires
            from <= input@.len(),
        ensures
            match r {
                Some((p, _)) => end_at(input@, ws_end(input@, from as int)) && p as int == ws_end(
                    input@,
                    from as int,
                ) + 3 && from <= p <= input@.len(),
                None => !end_at(input@, ws_end(input@, from as int)),
            },
    {
        let start = crate::parse::skip_ws(input, from);
        Self::parse(input, start)
    }
}

pub struct If;

impl If {
    /// Match the keyword `if`.
    pub fn parse(input: &str, from: usize) -> (r: Option<(usize, Self)>)
        requires
            from <= input@.len(),
        ensures
            match r {
                Some((p, _)) => if_at(input@, from as int) && p == from + 2,
                None => !if_at(input@, from as int),
            },
    {
        let len = input.unicode_len();
        if len - from < 2 {
            return None;
        }
        let c0 = input.get_char(from);
        let c1 = input.get_char(from + 1);
        if (c0 == 'i' || c0 == 'I') && (c1 == 'f' || c1 == 'F') {
            Some((from + 2, If))
        } else {
            None
        }
    }

    /// Match the keyword `if` after optional whitespace.
    pub fn parse_ws(input: &str, from: usize) -> (r: Option<(usize, Self)>)
        requires
            from <= input@.len(),
        ensures
            match r {
                Some((p, _)) => if_at(input@, ws_end(input@, from as int)) && p as int == ws_end(
                    input@,
                    from as int,
                ) + 2 && from <= p <= input@.len(),
                None => !if_at(input@, ws_end(input@, from as int)),
            },
    {
        let start = crate::parse::skip_ws(input, from);
        Self::parse(input, start)
    }
}

/// The assignment token: `=`, with `:=` accepted as well.
pub struct Assign;

impl Assign {
    /// Match `=` or `:=`.
    pub fn parse(input: &str, from: usize) -> (r: Option<(usize, Self)>)
        requires
            from <= input@.len(),
        ensures
            match r {
                Some((p, _)) => assign_at(input@, from as int) && p as int == assign_end(
                    input@,
                    from as int,
                ) && from < p <= input@.len(),
                None => !assign_at(input@, from as int) && assign_end(input@, from as int) < 0,
            },
    {
        let len = input.unicode_len();
        if len - from >= 1 && input.get_char(from) == '=' {
            return Some((from + 1, Assign));
        }
        if len - from >= 2 && input.get_char(from) == ':' && input.get_char(from + 1) == '=' {
            return Some((from + 2, Assign));
        }
        None
    }

    /// Match `=` or `:=` after optional whitespace.
    pub fn parse_ws(input: &str, from: usize) -> (r: Option<(usize, Self)>)
        requires
            from <= input@.len(),
        ensures
            match r {
                Some((p, _)) => p as int == assign_end(input@, ws_end(input@, from as int))
                    && from <= p <= input@.len(),
                None => assign_end(input@, ws_end(input@, from as int)) < 0,
            },
    {
        let start = crate::parse::skip_ws(input, from);
        Self::parse(input, start)
    }
}

pub struct Semicolon;

impl Semicolon {
    /// Match `;`.
    pub fn parse(input: &str, from: usize) -> (r: Option<(usize, Self)>)
        requires
            from <= input@.len(),
        ensures
            match r {
                Some((p, _)) => semicolon_at(input@, from as int) && p == from + 1,
                None => !semicolon_at(input@, from as int),
            },
    {
        let len = input.unicode_len();
        if len - from >= 1 && input.get_char(from) == ';' {
            Some((from + 1, Semicolon))
        } else {
            None
        }
    }

    /// Match `;` after optional whitespace.
    pub fn parse_ws(input: &str, from: usize) -> (r: Option<(usize, Self)>)
        requires
            from <= input@.len(),
        ensures
            match r {
                Some((p, _)) => semicolon_at(input@, ws_end(input@, from as int)) && p as int
                    == ws_end(input@, from as int) + 1 && from <= p <= input@.len(),
                None => !semicolon_at(input@, ws_end(input@, from as int)),
            },
    {
        let start = crate::parse::skip_ws(input, from);
        Self::parse(input, start)
    }
}

} // verus!
