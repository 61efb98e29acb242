//! The scanner as mathematics: what one call produces from a byte sequence
//! and a cursor, and where it leaves the cursor.

use vstd::prelude::*;
use crate::lexer::ScanError;
use crate::token::TokenView;

verus! {

/// The byte at `i`, or 0 (the "no character" value) outside the input.
pub open spec fn byte_at(s: Seq<u8>, i: int) -> u8 {
    if 0 <= i < s.len() {
        s[i]
    } else {
        0
    }
}

/// A byte that may stand in an identifier: an ASCII letter or `_`.
pub open spec fn is_letter(c: u8) -> bool {
    (('a' as u8) <= c <= ('z' as u8)) || (('A' as u8) <= c <= ('Z' as u8)) || c == ('_' as u8)
}

pub open spec fn is_digit(c: u8) -> bool {
    ('0' as u8) <= c <= ('9' as u8)
}

/// Space, tab, newline or carriage return.
pub open spec fn is_space(c: u8) -> bool {
    c == (' ' as u8) || c == ('\t' as u8) || c == ('\n' as u8) || c == ('\r' as u8)
}

/// The first position at or after `p` that holds no whitespace.
pub open spec fn skip_spaces(s: Seq<u8>, p: int) -> int
    decreases s.len() - p,
{
    if 0 <= p < s.len() && is_space(s[p]) {
        skip_spaces(s, p + 1)
    } else {
        p
    }
}

/// The end of the longest run of letters that starts at `p`.
pub open spec fn letters_end(s: Seq<u8>, p: int) -> int
    decreases s.len() - p,
{
    if 0 <= p < s.len() && is_letter(s[p]) {
        letters_end(s, p + 1)
    } else {
        p
    }
}

/// The end of the longest run of digits that starts at `p`.
pub open spec fn digits_end(s: Seq<u8>, p: int) -> int
    decreases s.len() - p,
{
    if 0 <= p < s.len() && is_digit(s[p]) {
        digits_end(s, p + 1)
    } else {
        p
    }
}

/// The base-10 value of a sequence of ASCII digits.
pub open spec fn digits_value(d: Seq<u8>) -> int
    decreases d.len(),
{
    if d.len() == 0 {
        0
    } else {
        10 * digits_value(d.drop_last()) + (d.last() - ('0' as u8))
    }
}

/// The characters of a sequence of ASCII bytes.
pub open spec fn ascii_chars(w: Seq<u8>) -> Seq<char> {
    w.map_values(|b: u8| b as char)
}

/// The keyword spelled by `w`, if `w` is one of the seven reserved words.
pub open spec fn keyword(w: Seq<char>) -> Option<TokenView> {
    if w =~= seq!['f', 'n'] {
        Some(TokenView::Function)
    } else if w =~= seq!['l', 'e', 't'] {
        Some(TokenView::Let)
    } else if w =~= seq!['i', 'f'] {
        Some(TokenView::If)
    } else if w =~= seq!['e', 'l', 's', 'e'] {
        Some(TokenView::Else)
    } else if w =~= seq!['t', 'r', 'u', 'e'] {
        Some(TokenView::True)
    } else if w =~= seq!['f', 'a', 'l', 's', 'e'] {
        Some(TokenView::False)
    } else if w =~= seq!['r', 'e', 't', 'u', 'r', 'n'] {
        Some(TokenView::Return)
    } else {
        None
    }
}

/// A run of letters: its keyword, or else an identifier with its exact text.
pub open spec fn word_token(w: Seq<u8>) -> TokenView {
    match keyword(ascii_chars(w)) {
        Some(k) => k,
        None => TokenView::Ident(ascii_chars(w)),
    }
}

/// The token of a byte that forms a token by itself (and is neither `=`
/// nor `!`), or `Illegal`.
pub open spec fn single_token(c: u8) -> TokenView {
    if c == (';' as u8) {
        TokenView::Semicolon
    } else if c == ('(' as u8) {
        TokenView::Lparen
    } else if c == (')' as u8) {
        TokenView::Rparen
    } else if c == (',' as u8) {
        TokenView::Comma
    } else if c == ('+' as u8) {
        TokenView::Plus
    } else if c == ('-' as u8) {
        TokenView::Minus
    } else if c == ('*' as u8) {
        TokenView::Asterisk
    } else if c == ('/' as u8) {
        TokenView::Slash
    } else if c == ('<' as u8) {
        TokenView::Lt
    } else if c == ('>' as u8) {
        TokenView::Gt
    } else if c == ('{' as u8) {
        TokenView::Lbrace
    } else if c == ('}' as u8) {
        TokenView::Rbrace
    } else {
        TokenView::Illegal
    }
}

/// One call of the scanner on the bytes `s` with the cursor at `p`: the
/// token (or error) it yields, and the cursor it leaves.
pub open spec fn scan(s: Seq<u8>, p: int) -> (Result<TokenView, ScanError>, int) {
    let q = skip_spaces(s, p);
    let c = byte_at(s, q);
    if q >= s.len() {
        (Ok(TokenView::Eof), q)
    } else if c == ('=' as u8) {
        if byte_at(s, q + 1) == ('=' as u8) {
            (Ok(TokenView::Equal), q + 2)
        } else {
            (Ok(TokenView::Assign), q + 1)
        }
    } else if c == ('!' as u8) {
        if byte_at(s, q + 1) == ('=' as u8) {
            (Ok(TokenView::NotEqual), q + 2)
        } else {
            (Ok(TokenView::Bang), q + 1)
        }
    } else if is_letter(c) {
        let e = letters_end(s, q);
        (Ok(word_token(s.subrange(q, e))), e)
    } else if is_digit(c) {
        let e = digits_end(s, q);
        let v = digits_value(s.subrange(q, e));
        if v <= i64::MAX {
            (Ok(TokenView::Number(v as i64)), e)
        } else {
            (Err(ScanError::IntegerOverflow), e)
        }
    } else {
        (Ok(single_token(c)), q + 1)
    }
}

/// Skipping whitespace a second time moves nothing, and never moves back.
pub proof fn lemma_skip_spaces(s: Seq<u8>, p: int)
    requires
        0 <= p <= s.len(),
    ensures
        p <= skip_spaces(s, p) <= s.len(),
        skip_spaces(s, skip_spaces(s, p)) == skip_spaces(s, p),
    decreases s.len() - p,
{
    if p < s.len() && is_space(s[p]) {
        lemma_skip_spaces(s, p + 1);
    }
}

} // verus!
