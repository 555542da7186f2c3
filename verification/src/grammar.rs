//! The fixed token grammar: single-letter identifiers, the unary connective
//! `!`, the binary connectives `&`, `|` and `>`, and the grouping marks
//! `(` and `)`. Whitespace is skipped by the reducer and is never a token.

use vstd::prelude::*;

verus! {

/// The whitespace characters the reducer skips: the Unicode White_Space
/// set, as `char::is_whitespace` draws it.
pub open spec fn is_space(c: char) -> bool {
    c == ' ' || c == '\t' || c == '\n' || c == '\r' || c == '\u{b}' || c == '\u{c}'
        || c == '\u{85}' || c == '\u{a0}' || c == '\u{1680}' || (0x2000 <= c as u32 && c as u32
        <= 0x200a) || c == '\u{2028}' || c == '\u{2029}' || c == '\u{202f}' || c == '\u{205f}'
        || c == '\u{3000}'
}

/// Identifier characters: single ASCII letters, lower or upper case.
pub open spec fn is_letter(c: char) -> bool {
    (97 <= c as u32 && c as u32 <= 122) || (65 <= c as u32 && c as u32 <= 90)
}

/// The binary connectives: conjunction `&`, disjunction `|`, and material
/// implication `>`. All three share one precedence class and associate to
/// the left; only `!` binds tighter.
pub open spec fn is_binary_op(c: char) -> bool {
    c == '&' || c == '|' || c == '>'
}

/// A token sequence with every whitespace character removed.
pub open spec fn strip_spaces(s: Seq<char>) -> Seq<char>
    decreases s.len(),
{
    if s.len() == 0 {
        Seq::empty()
    } else if is_space(s[0]) {
        strip_spaces(s.drop_first())
    } else {
        seq![s[0]] + strip_spaces(s.drop_first())
    }
}

pub fn space_char(c: char) -> (r: bool)
    ensures
        r == is_space(c),
{
    let u = c as u32;
    c == ' ' || c == '\t' || c == '\n' || c == '\r' || c == '\u{b}' || c == '\u{c}'
        || c == '\u{85}' || c == '\u{a0}' || c == '\u{1680}' || (0x2000 <= u && u <= 0x200a)
        || c == '\u{2028}' || c == '\u{2029}' || c == '\u{202f}' || c == '\u{205f}'
        || c == '\u{3000}'
}

pub fn letter_char(c: char) -> (r: bool)
    ensures
        r == is_letter(c),
{
    let u = c as u32;
    (97 <= u && u <= 122) || (65 <= u && u <= 90)
}

pub fn binary_op_char(c: char) -> (r: bool)
    ensures
        r == is_binary_op(c),
{
    c == '&' || c == '|' || c == '>'
}

} // verus!
