//! Character classes used by the lexer, as standalone predicates.
use vstd::prelude::*;

use crate::lexer::is_word_start;
use crate::text::is_digit;

verus! {

/// Whether `ch` is an ASCII digit (`0` to `9`).
pub fn is_digit_asm(ch: char) -> (r: bool)
    ensures
        r == is_digit(ch),
{
    '0' <= ch && ch <= '9'
}

/// Whether `ch` is an ASCII letter (`a` to `z`, `A` to `Z`) or an underscore.
pub fn is_alpha_asm(ch: char) -> (r: bool)
    ensures
        r == is_word_start(ch),
{
    if ch == '_' {
        return true;
    }
    ('a' <= ch && ch <= 'z') || ('A' <= ch && ch <= 'Z')
}

} // verus!
