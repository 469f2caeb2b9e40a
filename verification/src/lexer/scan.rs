//! The tokenizer: what the next token of a byte sequence is, and the
//! function that reads it.

use vstd::prelude::*;
use vstd::string::StringExecFns;
use crate::text::{push_char, text_of};
use crate::lexer::tokens::{keyword_of, Keyword, Token, TokenView};

verus! {

/// The classes of bytes that the tokenizer reads runs of.
#[derive(Clone, Copy, PartialEq, Eq, Structural)]
pub enum ByteClass {
    /// Space, tab, carriage return and newline.
    Space,
    /// Letters, digits and the underscore.
    Word,
    /// The digits `0` to `9`.
    Digit,
    /// Every byte but the double quote.
    Unquoted,
}

/// Whether byte `b` may start an identifier: a letter or an underscore.
pub open spec fn is_word_start(b: u8) -> bool {
    (97 <= b <= 122) || (65 <= b <= 90) || b == 95
}

/// Whether byte `b` is a decimal digit.
pub open spec fn is_digit(b: u8) -> bool {
    48 <= b <= 57
}

/// Whether byte `b` belongs to class `c`.
pub open spec fn in_class(c: ByteClass, b: u8) -> bool {
    match c {
        ByteClass::Space => b == 32 || b == 10 || b == 9 || b == 13,
        ByteClass::Word => is_word_start(b) || is_digit(b),
        ByteClass::Digit => is_digit(b),
        ByteClass::Unquoted => b != 34,
    }
}

/// The end of the longest run of bytes of class `c` that starts at `pos`.
pub open spec fn span_end(input: Seq<u8>, pos: int, c: ByteClass) -> int
    decreases input.len() - pos,
{
    if 0 <= pos < input.len() && in_class(c, input[pos]) {
        span_end(input, pos + 1, c)
    } else {
        pos
    }
}

/// The token that a single byte forms when it starts no longer token.
pub open spec fn symbol(b: u8) -> TokenView {
    if b == 43 {
        TokenView::Plus
    } else if b == 45 {
        TokenView::Minus
    } else if b == 42 {
        TokenView::Star
    } else if b == 47 {
        TokenView::Slash
    } else if b == 62 {
        TokenView::Gt
    } else if b == 60 {
        TokenView::Lt
    } else if b == 44 {
        TokenView::Comma
    } else if b == 59 {
        TokenView::Semicolon
    } else if b == 40 {
        TokenView::LParen
    } else if b == 41 {
        TokenView::RParen
    } else if b == 123 {
        TokenView::LBrace
    } else if b == 125 {
        TokenView::RBrace
    } else if b == 91 {
        TokenView::LBracket
    } else if b == 93 {
        TokenView::RBracket
    } else if b == 58 {
        TokenView::Colon
    } else if b == 37 {
        TokenView::Percent
    } else if b == 0 {
        TokenView::Eof
    } else {
        TokenView::Illegal
    }
}

/// The token that a word is: a keyword where it spells one, else an
/// identifier.
pub open spec fn word_token(word: Seq<char>) -> TokenView {
    match keyword_of(word) {
        Some(k) => TokenView::Keyword(k),
        None => TokenView::Ident(word),
    }
}

/// The token that starts at byte `p` of `input`, where `p` is in range and
/// holds no whitespace, and the position behind it.
pub open spec fn token_at(input: Seq<u8>, p: int) -> (TokenView, int) {
    let b = input[p];
    if is_word_start(b) {
        let e = span_end(input, p, ByteClass::Word);
        (word_token(text_of(input.subrange(p, e))), e)
    } else if is_digit(b) {
        let e = span_end(input, p, ByteClass::Digit);
        (TokenView::Int(text_of(input.subrange(p, e))), e)
    } else if b == 34 {
        let q = span_end(input, p + 1, ByteClass::Unquoted);
        if q < input.len() {
            (TokenView::String(text_of(input.subrange(p + 1, q))), q + 1)
        } else {
            (TokenView::Illegal, q)
        }
    } else if b == 61 {
        if p + 1 < input.len() && input[p + 1] == 61 {
            (TokenView::Eq, p + 2)
        } else {
            (TokenView::Assign, p + 1)
        }
    } else if b == 33 {
        if p + 1 < input.len() && input[p + 1] == 61 {
            (TokenView::Neq, p + 2)
        } else {
            (TokenView::Bang, p + 1)
        }
    } else {
        (symbol(b), p + 1)
    }
}

/// The first token of `input` at or behind `pos`, and the position behind
/// that token; nothing where only whitespace is left.
pub open spec fn next_token(input: Seq<u8>, pos: int) -> Option<(TokenView, int)> {
    let p = span_end(input, pos, ByteClass::Space);
    if 0 <= p < input.len() {
        Some(token_at(input, p))
    } else {
        None
    }
}

/// A run ends between its start and the end of the input.
pub proof fn lemma_span_bounds(input: Seq<u8>, pos: int, c: ByteClass)
    requires
        0 <= pos <= input.len(),
    ensures
        pos <= span_end(input, pos, c) <= input.len(),
    decreases input.len() - pos,
{
    if pos < input.len() && in_class(c, input[pos]) {
        lemma_span_bounds(input, pos + 1, c);
    }
}

/// Every token takes at least one byte and ends within the input.
pub proof fn lemma_next_token_advances(input: Seq<u8>, pos: int)
    requires
        0 <= pos <= input.len(),
    ensures
        match next_token(input, pos) {
            Some((_, end)) => pos < end <= input.len(),
            None => true,
        },
{
    lemma_span_bounds(input, pos, ByteClass::Space);
    let p = span_end(input, pos, ByteClass::Space);
    if p < input.len() {
        lemma_span_bounds(input, p + 1, ByteClass::Word);
        lemma_span_bounds(input, p + 1, ByteClass::Digit);
        lemma_span_bounds(input, p + 1, ByteClass::Unquoted);
    }
}

fn byte_in_class(c: ByteClass, b: u8) -> (r: bool)
    ensures
        r == in_class(c, b),
{
    match c {
        ByteClass::Space => b == 32 || b == 10 || b == 9 || b == 13,
        ByteClass::Word => (97 <= b && b <= 122) || (65 <= b && b <= 90) || b == 95 || (48 <= b
            && b <= 57),
        ByteClass::Digit => 48 <= b && b <= 57,
        ByteClass::Unquoted => b != 34,
    }
}

fn byte_symbol(b: u8) -> (t: Token)
    ensures
        t@ == symbol(b),
{
    if b == 43 {
        Token::Plus
    } else if b == 45 {
        Token::Minus
    } else if b == 42 {
        Token::Star
    } else if b == 47 {
        Token::Slash
    } else if b == 62 {
        Token::Gt
    } else if b == 60 {
        Token::Lt
    } else if b == 44 {
        Token::Comma
    } else if b == 59 {
        Token::Semicolon
    } else if b == 40 {
        Token::LParen
    } else if b == 41 {
        Token::RParen
    } else if b == 123 {
        Token::LBrace
    } else if b == 125 {
        Token::RBrace
    } else if b == 91 {
        Token::LBracket
    } else if b == 93 {
        Token::RBracket
    } else if b == 58 {
        Token::Colon
    } else if b == 37 {
        Token::Percent
    } else if b == 0 {
        Token::Eof
    } else {
        Token::Illegal
    }
}

/// Reads tokens off a byte sequence, front to back.
pub struct Tokenizer {
    input: Vec<u8>,
    pos: usize,
}

impl Tokenizer {
    /// The bytes that are being read.
    pub closed spec fn bytes(&self) -> Seq<u8> {
        self.input@
    }

    /// The position of the first byte that has not been read.
    pub closed spec fn offset(&self) -> int {
        self.pos as int
    }

    /// The position lies within the input.
    pub closed spec fn wf(&self) -> bool {
        self.pos <= self.input.len()
    }

    /// A tokenizer at the start of `input`.
    pub fn new(input: Vec<u8>) -> (t: Self)
        ensures
            t.wf(),
            t.bytes() == input@,
            t.offset() == 0,
    {
        Self { input, pos: 0 }
    }

    /// The position of the first byte that has not been read.
    pub fn position(&self) -> (p: usize)
        ensures
            p == self.offset(),
    {
        self.pos
    }

    fn span(&self, from: usize, c: ByteClass) -> (end: usize)
        requires
            from <= self.input.len(),
        ensures
            end == span_end(self.input@, from as int, c),
            from <= end <= self.input.len(),
    {
        let mut i: usize = from;
        while i < self.input.len() && byte_in_class(c, self.input[i])
            invariant
                from <= i <= self.input.len(),
                span_end(self.input@, i as int, c) == span_end(self.input@, from as int, c),
            decreases self.input.len() - i,
        {
            i += 1;
        }
        i
    }

    fn text(&self, from: usize, to: usize) -> (s: String)
        requires
            from <= to <= self.input.len(),
        ensures
            s@ == text_of(self.input@.subrange(from as int, to as int)),
    {
        let mut s = String::new();
        let mut i: usize = from;
        while i < to
            invariant
                from <= i <= to <= self.input.len(),
                s@ == text_of(self.input@.subrange(from as int, i as int)),
            decreases to - i,
        {
            push_char(&mut s, self.input[i] as char);
            assert(s@ =~= text_of(self.input@.subrange(from as int, i + 1)));
            i += 1;
        }
        s
    }

    fn consume_whitespace(&mut self)
        requires
            old(self).wf(),
        ensures
            final(self).wf(),
            final(self).bytes() == old(self).bytes(),
            final(self).offset() == span_end(old(self).bytes(), old(self).offset(), ByteClass::Space),
            old(self).offset() <= final(self).offset(),
    {
        self.pos = self.span(self.pos, ByteClass::Space);
    }

    /// Reads the next token. Returns nothing once only whitespace is left.
    pub fn next(&mut self) -> (r: Option<Token>)
        requires
            old(self).wf(),
        ensures
            final(self).wf(),
            final(self).bytes() == old(self).bytes(),
            old(self).offset() <= final(self).offset() <= final(self).bytes().len(),
            match r {
                Some(t) => next_token(old(self).bytes(), old(self).offset()) == Some(
                    (t@, final(self).offset()),
                ) && old(self).offset() < final(self).offset(),
                None => next_token(old(self).bytes(), old(self).offset()) is None,
            },
    {
        self.consume_whitespace();
        let p: usize = self.pos;
        if p >= self.input.len() {
            return None;
        }
        let b: u8 = self.input[p];
        proof {
            lemma_span_bounds(self.input@, p + 1, ByteClass::Word);
            lemma_span_bounds(self.input@, p + 1, ByteClass::Digit);
        }
        if (97 <= b && b <= 122) || (65 <= b && b <= 90) || b == 95 {
            let e: usize = self.span(p, ByteClass::Word);
            let word = self.text(p, e);
            self.pos = e;
            match Keyword::from_str(word.as_str()) {
                Some(k) => Some(Token::Keyword(k)),
                None => Some(Token::Ident(word)),
            }
        } else if 48 <= b && b <= 57 {
            let e: usize = self.span(p, ByteClass::Digit);
            let digits = self.text(p, e);
            self.pos = e;
            Some(Token::Int(digits))
        } else if b == 34 {
            let q: usize = self.span(p + 1, ByteClass::Unquoted);
            if q < self.input.len() {
                let contents = self.text(p + 1, q);
                self.pos = q + 1;
                Some(Token::String(contents))
            } else {
                self.pos = q;
                Some(Token::Illegal)
            }
        } else if b == 61 {
            if p + 1 < self.input.len() && self.input[p + 1] == 61 {
                self.pos = p + 2;
                Some(Token::Eq)
            } else {
                self.pos = p + 1;
                Some(Token::Assign)
            }
        } else if b == 33 {
            if p + 1 < self.input.len() && self.input[p + 1] == 61 {
                self.pos = p + 2;
                Some(Token::Neq)
            } else {
                self.pos = p + 1;
                Some(Token::Bang)
            }
        } else {
            self.pos = p + 1;
            Some(byte_symbol(b))
        }
    }
}

} // verus!
