//! Character rules of the LNMP text format: which characters a string may
//! hold unquoted, and how a quoted string escapes its characters.

use vstd::prelude::*;
use crate::error::chars_of;
use crate::numfmt::{push_char, push_str};

verus! {

/// A character a string may hold without quotes: an ASCII letter or digit,
/// `_`, `-` or `.`.
pub open spec fn is_safe_unquoted(c: char) -> bool {
    ('a' <= c && c <= 'z') || ('A' <= c && c <= 'Z') || ('0' <= c && c <= '9') || c == '_' || c == '-' || c == '.'
}

/// Whether `c` may stand in a string without quotes.
pub fn is_safe_unquoted_char(c: char) -> (r: bool)
    ensures
        r == is_safe_unquoted(c),
{
    ('a' <= c && c <= 'z') || ('A' <= c && c <= 'Z') || ('0' <= c && c <= '9') || c == '_' || c == '-' || c == '.'
}

/// Whether some character of `s` needs quotes.
pub fn has_unsafe_char(s: &str) -> (r: bool)
    ensures
        r == exists|i: int| 0 <= i < s@.len() && !is_safe_unquoted(#[trigger] s@[i]),
{
    let cs = chars_of(s);
    let mut i: usize = 0;
    while i < cs.len()
        invariant
            cs@ == s@,
            i <= cs@.len(),
            forall|j: int| 0 <= j < i ==> is_safe_unquoted(#[trigger] s@[j]),
        decreases cs.len() - i,
    {
        if !is_safe_unquoted_char(cs[i]) {
            assert(!is_safe_unquoted(s@[i as int]));
            return true;
        }
        i = i + 1;
    }
    false
}

/// How one character is written inside quotes: `"`, `\`, newline, carriage
/// return and tab escaped with a backslash, any other as it is.
pub open spec fn escape_char(c: char) -> Seq<char> {
    if c == '"' {
        seq!['\\', '"']
    } else if c == '\\' {
        seq!['\\', '\\']
    } else if c == '\n' {
        seq!['\\', 'n']
    } else if c == '\r' {
        seq!['\\', 'r']
    } else if c == '\t' {
        seq!['\\', 't']
    } else {
        seq![c]
    }
}

/// The characters of a string as written inside quotes.
pub open spec fn text_escape(s: Seq<char>) -> Seq<char>
    decreases s.len(),
{
    if s.len() == 0 {
        Seq::empty()
    } else {
        text_escape(s.drop_last()) + escape_char(s.last())
    }
}

/// The characters of `s` as written inside quotes.
pub fn escape_string(s: &str) -> (r: String)
    ensures
        r@ == text_escape(s@),
{
    let cs = chars_of(s);
    let mut out = String::new();
    let mut i: usize = 0;
    assert(s@.take(0) =~= Seq::<char>::empty());
    while i < cs.len()
        invariant
            cs@ == s@,
            i <= cs@.len(),
            out@ == text_escape(s@.take(i as int)),
        decreases cs.len() - i,
    {
        let c = cs[i];
        proof {
            reveal_strlit("\\\"");
            reveal_strlit("\\\\");
            reveal_strlit("\\n");
            reveal_strlit("\\r");
            reveal_strlit("\\t");
        }
        if c == '"' {
            push_str(&mut out, "\\\"");
        } else if c == '\\' {
            push_str(&mut out, "\\\\");
        } else if c == '\n' {
            push_str(&mut out, "\\n");
        } else if c == '\r' {
            push_str(&mut out, "\\r");
        } else if c == '\t' {
            push_str(&mut out, "\\t");
        } else {
            push_char(&mut out, c);
        }
        proof {
            assert(s@.take(i + 1).drop_last() =~= s@.take(i as int));
            assert(s@.take(i + 1).last() == c);
        }
        i = i + 1;
    }
    assert(s@.take(cs@.len() as int) =~= s@);
    out
}

} // verus!
