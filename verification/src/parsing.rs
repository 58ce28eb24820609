//! String parsing

use vstd::prelude::*;
use crate::errors::{ExampleError, ErrorModel, outcome};
use crate::text::{chars_of};

verus! {

/// Whether a token that starts with `c` is taken as quoted.
pub open spec fn is_quote(c: char) -> bool {
    c == '"' || c == '\''
}

/// The inside of a quoted token with its escapes resolved: a backslash
/// stands for the character after it, whatever that is. `None` where the
/// last character is a backslash with nothing after it.
pub open spec fn unescaped(s: Seq<char>) -> Option<Seq<char>>
    decreases s.len(),
{
    if s.len() == 0 {
        Some(Seq::<char>::empty())
    } else if s[0] != '\\' {
        match unescaped(s.skip(1)) {
            Some(rest) => Some(seq![s[0]] + rest),
            None => None,
        }
    } else if s.len() == 1 {
        None
    } else {
        match unescaped(s.skip(2)) {
            Some(rest) => Some(seq![s[1]] + rest),
            None => None,
        }
    }
}

/// What a token stands for. One that starts with a quote must end with the
/// same quote, a character of its own, and stands for its unescaped inside;
/// any other token stands for itself.
pub open spec fn parsed_if_quoted(s: Seq<char>) -> Result<Seq<char>, ErrorModel> {
    if s.len() > 0 && is_quote(s[0]) {
        if s.len() >= 2 && s.last() == s[0] {
            match unescaped(s.subrange(1, s.len() - 1)) {
                Some(inside) => Ok(inside),
                None => Err(ErrorModel::FormatError),
            }
        } else {
            Err(ErrorModel::FormatError)
        }
    } else {
        Ok(s)
    }
}

/// If a string starts with a quote, parse what's inside the quotes
pub fn parse_string_if_quoted(s: &str) -> (r: Result<String, ExampleError>)
    ensures
        outcome(r) == parsed_if_quoted(s@),
{
    let chars = chars_of(s);
    let n = chars.len();
    if n == 0 || !(chars[0] == '"' || chars[0] == '\'') {
        return Ok(s.to_owned());
    }
    if n < 2 || chars[n - 1] != chars[0] {
        return Err(ExampleError::FormatError);
    }
    let ghost inside = s@.subrange(1, n - 1);
    let mut output = String::new();
    let mut i: usize = 1;
    assert(inside.skip(0) =~= inside);
    assert(output@ + inside =~= inside);
    while i < n - 1
        invariant
            1 <= i <= n - 1,
            n == chars.len(),
            chars@ == s@,
            inside == s@.subrange(1, n - 1),
            is_quote(s@[0]),
            s@.last() == s@[0],
            unescaped(inside) == match unescaped(inside.skip(i - 1)) {
                Some(rest) => Some(output@ + rest),
                None => None,
            },
        decreases n - i,
    {
        let ghost rest = inside.skip(i - 1);
        let ghost before = output@;
        let c = chars[i];
        assert(rest[0] == c);
        if c == '\\' {
            if i + 1 == n - 1 {
                assert(rest.len() == 1);
                assert(unescaped(rest) is None);
                return Err(ExampleError::FormatError);
            }
            output.push(chars[i + 1]);
            proof {
                assert(rest[1] == chars@[i + 1]);
                assert(rest.skip(2) =~= inside.skip(i + 1));
                match unescaped(rest.skip(2)) {
                    Some(tail) => {
                        assert(before + (seq![rest[1]] + tail) =~= output@ + tail);
                    },
                    None => {},
                }
            }
            i += 2;
        } else {
            output.push(c);
            proof {
                assert(rest.skip(1) =~= inside.skip(i as int));
                match unescaped(rest.skip(1)) {
                    Some(tail) => {
                        assert(before + (seq![rest[0]] + tail) =~= output@ + tail);
                    },
                    None => {},
                }
            }
            i += 1;
        }
    }
    assert(inside.skip(n - 2).len() == 0);
    assert(output@ + Seq::<char>::empty() =~= output@);
    Ok(output)
}

} // verus!
