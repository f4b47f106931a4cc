use vstd::prelude::*;
use vstd::string::*;
use crate::expr::same_text;

verus! {

/// `#t` is true and `#f` is false.
pub fn parse_bool(s: &str) -> (r: Option<bool>)
    ensures
        r == (if s@ == seq!['#', 't'] {
            Some(true)
        } else if s@ == seq!['#', 'f'] {
            Some(false)
        } else {
            None
        }),
{
    proof {
        reveal_strlit("#t");
        reveal_strlit("#f");
        assert("#t"@ =~= seq!['#', 't']);
        assert("#f"@ =~= seq!['#', 'f']);
    }
    if same_text(s, "#t") {
        Some(true)
    } else if same_text(s, "#f") {
        Some(false)
    } else {
        None
    }
}

/// A character literal: one character between single quotes.
pub fn parse_char(s: &str) -> (r: Option<char>)
    ensures
        r == (if s@.len() == 3 && s@[0] == '\'' && s@[2] == '\'' {
            Some(s@[1])
        } else {
            None
        }),
{
    if s.unicode_len() == 3 && s.get_char(0) == '\'' && s.get_char(2) == '\'' {
        Some(s.get_char(1))
    } else {
        None
    }
}

pub open spec fn is_digit(c: char) -> bool {
    '0' <= c && c <= '9'
}

/// Whether `s` is a decimal numeral: one or more digits `0` to `9`.
pub fn is_num(s: &str) -> (r: bool)
    ensures
        r == (s@.len() > 0 && forall|i: int| 0 <= i < s@.len() ==> is_digit(#[trigger] s@[i])),
{
    let n = s.unicode_len();
    if n == 0 {
        return false;
    }
    let mut i: usize = 0;
    while i < n
        invariant
            n == s@.len(),
            i <= n,
            forall|j: int| 0 <= j < i ==> is_digit(#[trigger] s@[j]),
        decreases n - i,
    {
        let c = s.get_char(i);
        if !('0' <= c && c <= '9') {
            return false;
        }
        i = i + 1;
    }
    true
}

} // verus!
