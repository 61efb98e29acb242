use vstd::prelude::*;
use vstd::utf8::encode_utf8;
use crate::model::{
    ascii_chars, byte_at, digits_end, digits_value, is_digit, is_letter, keyword, lemma_skip_spaces,
    letters_end, scan, single_token, skip_spaces,
};
use crate::token::{Token, TokenView};

verus! {

/// Why a token could not be produced.
#[derive(Debug, Clone, Copy, PartialEq, Eq, Structural)]
pub enum ScanError {
    /// A run of digits whose value does not fit in an `i64`.
    IntegerOverflow,
}

/// What a call of the scanner returned, with the token as its view.
pub open spec fn outcome(r: Result<Token, ScanError>) -> Result<TokenView, ScanError> {
    match r {
        Ok(t) => Ok(t@),
        Err(e) => Err(e),
    }
}

/// Relies on `String::push`: the character is appended to the end of the string.
#[verifier::external_body]
fn push_char(s: &mut String, c: char)
    ensures
        final(s)@ == old(s)@.push(c),
{
    s.push(c);
}

/// A scanner over one input text.
///
/// It holds the text's UTF-8 bytes, the offset of the current byte and the
/// current byte itself, which is 0 past the end; the next byte to read is at
/// `position + 1`.
pub struct Lexer {
    input: Vec<u8>,
    position: usize,
    ch: u8,
}

impl Lexer {
    /// The bytes being scanned.
    pub closed spec fn text(&self) -> Seq<u8> {
        self.input@
    }

    /// The offset of the current byte.
    pub closed spec fn cursor(&self) -> int {
        self.position as int
    }

    /// The cursor lies within the text (or just past it), and the current
    /// byte is the one under the cursor.
    pub closed spec fn wf(&self) -> bool {
        &&& self.position <= self.input.len()
        &&& self.ch == byte_at(self.input@, self.position as int)
    }

    /// A scanner at the first byte of `input`.
    pub fn new(input: String) -> (r: Lexer)
        ensures
            r.wf(),
            r.text() == encode_utf8(input@),
            r.cursor() == 0,
    {
        let bytes = input.as_str().as_bytes_vec();
        let ch = if bytes.len() > 0 {
            bytes[0]
        } else {
            0
        };
        Lexer { input: bytes, position: 0, ch }
    }

    /// Produces the next token and moves past it; at the end it returns
    /// `Eof` and stays where it is. A run of digits whose value does not fit
    /// in an `i64` gives `IntegerOverflow`, and scanning goes on after it.
    pub fn next_token(&mut self) -> (r: Result<Token, ScanError>)
        requires
            old(self).wf(),
        ensures
            final(self).wf(),
            final(self).text() == old(self).text(),
            final(self).cursor() <= final(self).text().len(),
            (outcome(r), final(self).cursor()) == scan(old(self).text(), old(self).cursor()),
    {
        proof {
            lemma_skip_spaces(self.input@, self.position as int);
        }
        self.skip_whitespace();
        let c = self.ch;
        let tok = if self.position >= self.input.len() {
            return Ok(Token::Eof);
        } else if c == ('=' as u8) {
            if self.peek_char() == ('=' as u8) {
                self.read_char();
                Token::Equal
            } else {
                Token::Assign
            }
        } else if c == ('!' as u8) {
            if self.peek_char() == ('=' as u8) {
                self.read_char();
                Token::NotEqual
            } else {
                Token::Bang
            }
        } else if is_letter_byte(c) {
            return Ok(self.read_identifier());
        } else if is_digit_byte(c) {
            return self.read_number();
        } else {
            single_byte_token(c)
        };
        self.read_char();
        Ok(tok)
    }

    /// Moves to the next byte.
    fn read_char(&mut self)
        requires
            old(self).wf(),
            old(self).cursor() < old(self).text().len(),
        ensures
            final(self).wf(),
            final(self).text() == old(self).text(),
            final(self).cursor() == old(self).cursor() + 1,
    {
        self.position = self.position + 1;
        if self.position >= self.input.len() {
            self.ch = 0;
        } else {
            self.ch = self.input[self.position];
        }
    }

    /// The byte after the current one, or 0 past the end; nothing moves.
    pub fn peek_char(&self) -> (r: u8)
        requires
            self.wf(),
        ensures
            r == byte_at(self.text(), self.cursor() + 1),
    {
        if self.input.len() - self.position <= 1 {
            0
        } else {
            self.input[self.position + 1]
        }
    }

    fn skip_whitespace(&mut self)
        requires
            old(self).wf(),
        ensures
            final(self).wf(),
            final(self).text() == old(self).text(),
            final(self).cursor() == skip_spaces(old(self).text(), old(self).cursor()),
    {
        while self.ch == (' ' as u8) || self.ch == ('\t' as u8) || self.ch == ('\n' as u8)
            || self.ch == ('\r' as u8)
            invariant
                self.wf(),
                self.text() == old(self).text(),
                skip_spaces(self.text(), self.cursor()) == skip_spaces(
                    old(self).text(),
                    old(self).cursor(),
                ),
            decreases self.text().len() - self.cursor(),
        {
            self.read_char();
        }
    }

    /// Reads the run of letters that starts at the current byte: a keyword
    /// if it spells a reserved word, else an identifier with its text.
    pub fn read_identifier(&mut self) -> (r: Token)
        requires
            old(self).wf(),
            is_letter(byte_at(old(self).text(), old(self).cursor())),
        ensures
            final(self).wf(),
            final(self).text() == old(self).text(),
            (outcome(Ok(r)), final(self).cursor()) == scan(old(self).text(), old(self).cursor()),
    {
        let start = self.position;
        let mut name = String::new();
        while is_letter_byte(self.ch)
            invariant
                self.wf(),
                self.text() == old(self).text(),
                start == old(self).cursor(),
                start <= self.position,
                letters_end(self.text(), self.cursor()) == letters_end(self.text(), start as int),
                name@ == ascii_chars(self.text().subrange(start as int, self.cursor())),
            decreases self.text().len() - self.cursor(),
        {
            proof {
                let s = self.text();
                assert(s.subrange(start as int, self.cursor() + 1) =~= s.subrange(
                    start as int,
                    self.cursor(),
                ).push(s[self.cursor()]));
                assert(ascii_chars(s.subrange(start as int, self.cursor() + 1)) =~= name@.push(
                    self.ch as char,
                ));
            }
            push_char(&mut name, self.ch as char);
            self.read_char();
        }
        match self.keyword_at(start) {
            Some(k) => k,
            None => Token::Ident(name),
        }
    }

    /// The keyword that the bytes from `start` to the cursor spell, if any.
    fn keyword_at(&self, start: usize) -> (r: Option<Token>)
        requires
            self.wf(),
            start <= self.cursor(),
        ensures
            r.is_some() == keyword(ascii_chars(self.text().subrange(start as int, self.cursor()))).is_some(),
            r.is_some() ==> keyword(ascii_chars(self.text().subrange(start as int, self.cursor())))
                == Some(r.unwrap()@),
    {
        let w = &self.input;
        let n = self.position - start;
        let ghost t = ascii_chars(self.text().subrange(start as int, self.cursor()));
        if n == 2 && w[start] == ('f' as u8) && w[start + 1] == ('n' as u8) {
            assert(t =~= seq!['f', 'n']);
            Some(Token::Function)
        } else if n == 3 && w[start] == ('l' as u8) && w[start + 1] == ('e' as u8) && w[start + 2]
            == ('t' as u8) {
            assert(t =~= seq!['l', 'e', 't']);
            Some(Token::Let)
        } else if n == 2 && w[start] == ('i' as u8) && w[start + 1] == ('f' as u8) {
            assert(t =~= seq!['i', 'f']);
            Some(Token::If)
        } else if n == 4 && w[start] == ('e' as u8) && w[start + 1] == ('l' as u8) && w[start + 2]
            == ('s' as u8) && w[start + 3] == ('e' as u8) {
            assert(t =~= seq!['e', 'l', 's', 'e']);
            Some(Token::Else)
        } else if n == 4 && w[start] == ('t' as u8) && w[start + 1] == ('r' as u8) && w[start + 2]
            == ('u' as u8) && w[start + 3] == ('e' as u8) {
            assert(t =~= seq!['t', 'r', 'u', 'e']);
            Some(Token::True)
        } else if n == 5 && w[start] == ('f' as u8) && w[start + 1] == ('a' as u8) && w[start + 2]
            == ('l' as u8) && w[start + 3] == ('s' as u8) && w[start + 4] == ('e' as u8) {
            assert(t =~= seq!['f', 'a', 'l', 's', 'e']);
            Some(Token::False)
        } else if n == 6 && w[start] == ('r' as u8) && w[start + 1] == ('e' as u8) && w[start + 2]
            == ('t' as u8) && w[start + 3] == ('u' as u8) && w[start + 4] == ('r' as u8)
            && w[start + 5] == ('n' as u8) {
            assert(t =~= seq!['r', 'e', 't', 'u', 'r', 'n']);
            Some(Token::Return)
        } else {
            None
        }
    }

    /// Reads the run of digits that starts at the current byte as a base-10
    /// `i64`, or gives `IntegerOverflow` where its value does not fit.
    pub fn read_number(&mut self) -> (r: Result<Token, ScanError>)
        requires
            old(self).wf(),
            is_digit(byte_at(old(self).text(), old(self).cursor())),
        ensures
            final(self).wf(),
            final(self).text() == old(self).text(),
            (outcome(r), final(self).cursor()) == scan(old(self).text(), old(self).cursor()),
    {
        let start = self.position;
        let mut value: i64 = 0;
        let mut overflow = false;
        while is_digit_byte(self.ch)
            invariant
                self.wf(),
                self.text() == old(self).text(),
                start == old(self).cursor(),
                start <= self.position,
                digits_end(self.text(), self.cursor()) == digits_end(self.text(), start as int),
                value >= 0,
                !overflow ==> value == digits_value(self.text().subrange(start as int, self.cursor())),
                overflow ==> digits_value(self.text().subrange(start as int, self.cursor()))
                    > i64::MAX,
            decreases self.text().len() - self.cursor(),
        {
            let d = (self.ch - ('0' as u8)) as i64;
            let ghost s = self.text();
            let ghost before = s.subrange(start as int, self.cursor());
            let ghost after = s.subrange(start as int, self.cursor() + 1);
            proof {
                assert(after.drop_last() =~= before);
                assert(digits_value(after) == 10 * digits_value(before) + d);
            }
            if !overflow {
                match value.checked_mul(10) {
                    Some(m) => match m.checked_add(d) {
                        Some(v) => {
                            value = v;
                        },
                        None => {
                            overflow = true;
                        },
                    },
                    None => {
                        overflow = true;
                    },
                }
            } else {
                assert(digits_value(after) > i64::MAX) by (nonlinear_arith)
                    requires
                        digits_value(after) == 10 * digits_value(before) + d,
                        digits_value(before) > i64::MAX,
                        d >= 0,
                ;
            }
            self.read_char();
        }
        if overflow {
            Err(ScanError::IntegerOverflow)
        } else {
            Ok(Token::Number(value))
        }
    }
}

/// The token of a byte that stands alone, or `Illegal`.
fn single_byte_token(c: u8) -> (r: Token)
    ensures
        r@ == single_token(c),
{
    if c == (';' as u8) {
        Token::Semicolon
    } else if c == ('(' as u8) {
        Token::Lparen
    } else if c == (')' as u8) {
        Token::Rparen
    } else if c == (',' as u8) {
        Token::Comma
    } else if c == ('+' as u8) {
        Token::Plus
    } else if c == ('-' as u8) {
        Token::Minus
    } else if c == ('*' as u8) {
        Token::Asterisk
    } else if c == ('/' as u8) {
        Token::Slash
    } else if c == ('<' as u8) {
        Token::Lt
    } else if c == ('>' as u8) {
        Token::Gt
    } else if c == ('{' as u8) {
        Token::Lbrace
    } else if c == ('}' as u8) {
        Token::Rbrace
    } else {
        Token::Illegal
    }
}

/// An ASCII letter or `_`.
fn is_letter_byte(c: u8) -> (r: bool)
    ensures
        r == is_letter(c),
{
    (('a' as u8) <= c && c <= ('z' as u8)) || (('A' as u8) <= c && c <= ('Z' as u8)) || c == ('_' as u8)
}

fn is_digit_byte(c: u8) -> (r: bool)
    ensures
        r == is_digit(c),
{
    ('0' as u8) <= c && c <= ('9' as u8)
}

} // verus!
