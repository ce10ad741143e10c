//! How values other than numbers are written out.
use vstd::prelude::*;
use crate::text::{decimal, push_char, push_decimal, push_str, string_of};

verus! {

/// The decimal notation of an integer, with a leading `-` when negative.
pub open spec fn signed_decimal(n: int) -> Seq<char> {
    if n < 0 { seq!['-'] + decimal((-n) as nat) } else { decimal(n as nat) }
}

/// The text of a range: `start..end`, or `start..=end` when it includes its end.
pub open spec fn range_spec(start: int, end: int, inclusive: bool) -> Seq<char> {
    signed_decimal(start) + (if inclusive { "..="@ } else { ".."@ }) + signed_decimal(end)
}

/// Appends the decimal notation of `n` to `s`.
fn push_signed_decimal(s: &mut String, n: i32)
    ensures
        final(s)@ == old(s)@ + signed_decimal(n as int),
{
    if n < 0 {
        push_char(s, '-');
        let magnitude: i64 = 0i64 - (n as i64);
        push_decimal(s, magnitude as usize);
        proof {
            assert(old(s)@.push('-') + decimal(magnitude as nat) =~= old(s)@ + (seq!['-'] + decimal((-n) as nat)));
        }
    } else {
        push_decimal(s, n as usize);
    }
}

/// The text of the range from `start` to `end`.
pub fn range_text(start: i32, end: i32, inclusive: bool) -> (s: String)
    ensures
        s@ == range_spec(start as int, end as int, inclusive),
{
    let mut s = String::new();
    push_signed_decimal(&mut s, start);
    if inclusive {
        push_str(&mut s, "..=");
    } else {
        push_str(&mut s, "..");
    }
    push_signed_decimal(&mut s, end);
    proof {
        assert(s@ =~= range_spec(start as int, end as int, inclusive));
    }
    s
}

/// The text of a function built into the language: `<native fn name>`.
pub fn native_fn_text(name: &str) -> (s: String)
    ensures
        s@ == "<native fn "@ + name@ + ">"@,
{
    let mut s = string_of("<native fn ");
    push_str(&mut s, name);
    push_str(&mut s, ">");
    s
}

/// The text of a function the program declares: `<fn name>`.
pub fn user_fn_text(name: &str) -> (s: String)
    ensures
        s@ == "<fn "@ + name@ + ">"@,
{
    let mut s = string_of("<fn ");
    push_str(&mut s, name);
    push_str(&mut s, ">");
    s
}

/// The text of a boolean.
pub fn bool_text(b: bool) -> (s: String)
    ensures
        s@ == (if b { "true"@ } else { "false"@ }),
{
    if b { string_of("true") } else { string_of("false") }
}

} // verus!
