//! The lexer: a tokenizer with one token of lookahead.

use vstd::prelude::*;
use crate::lexer::scan::{lemma_next_token_advances, next_token, Tokenizer};
use crate::lexer::tokens::{Token, TokenView};

verus! {

/// Whether `f` can answer no to a token that reads as `t`.
pub open spec fn refuses<F: Fn(&Token) -> bool>(f: F, t: TokenView) -> bool {
    exists|token: Token| #[trigger] f.ensures((&token,), false) && token@ == t
}

/// A source of tokens that lets its reader look at the next token before
/// taking it.
pub struct Lexer {
    tokenizer: Tokenizer,
    peeked: Option<Option<Token>>,
    start: usize,
}

impl Lexer {
    /// The bytes that are being read.
    pub closed spec fn bytes(&self) -> Seq<u8> {
        self.tokenizer.bytes()
    }

    /// The position from which the next token will be read.
    pub closed spec fn offset(&self) -> int {
        self.start as int
    }

    /// The lookahead, where there is one, is the token at the position.
    pub closed spec fn wf(&self) -> bool {
        &&& self.tokenizer.wf()
        &&& 0 <= self.start <= self.tokenizer.offset() <= self.tokenizer.bytes().len()
        &&& match self.peeked {
            None => self.start == self.tokenizer.offset(),
            Some(Some(t)) => next_token(self.bytes(), self.start as int) == Some(
                (t@, self.tokenizer.offset()),
            ),
            Some(None) => next_token(self.bytes(), self.start as int) is None,
        }
    }

    /// The next token and the position behind it, or nothing at the end.
    pub open spec fn upcoming(&self) -> Option<(TokenView, int)> {
        next_token(self.bytes(), self.offset())
    }

    /// The position lies within the input.
    pub proof fn lemma_offset_in_range(&self)
        requires
            self.wf(),
        ensures
            0 <= self.offset() <= self.bytes().len(),
    {
    }

    /// A lexer at the start of `input`.
    pub fn new(input: Vec<u8>) -> (l: Self)
        ensures
            l.wf(),
            l.bytes() == input@,
            l.offset() == 0,
    {
        Self { tokenizer: Tokenizer::new(input), peeked: None, start: 0 }
    }

    fn fill(&mut self)
        requires
            old(self).wf(),
        ensures
            final(self).wf(),
            final(self).bytes() == old(self).bytes(),
            final(self).offset() == old(self).offset(),
            final(self).peeked is Some,
    {
        if self.peeked.is_none() {
            let t = self.tokenizer.next();
            self.peeked = Some(t);
        }
    }

    /// Looks at the next token without taking it.
    pub fn peek(&mut self) -> (r: Option<&Token>)
        requires
            old(self).wf(),
        ensures
            final(self).wf(),
            final(self).bytes() == old(self).bytes(),
            final(self).offset() == old(self).offset(),
            match r {
                Some(t) => old(self).upcoming() is Some && old(self).upcoming().unwrap().0 == t@,
                None => old(self).upcoming() is None,
            },
    {
        self.fill();
        match &self.peeked {
            Some(Some(t)) => Some(t),
            _ => None,
        }
    }

    /// Takes the next token. Returns nothing at the end of the input, and
    /// then stays where it is.
    pub fn next(&mut self) -> (r: Option<Token>)
        requires
            old(self).wf(),
        ensures
            final(self).wf(),
            final(self).bytes() == old(self).bytes(),
            match r {
                Some(t) => old(self).upcoming() == Some((t@, final(self).offset()))
                    && old(self).offset() < final(self).offset(),
                None => old(self).upcoming() is None && final(self).offset() == old(self).offset(),
            },
    {
        self.fill();
        proof {
            lemma_next_token_advances(self.bytes(), self.offset());
        }
        match self.peeked.take() {
            Some(Some(t)) => {
                self.start = self.tokenizer.position();
                Some(t)
            },
            _ => {
                self.peeked = Some(None);
                None
            },
        }
    }

    /// Takes the next token if it is the same token as `token`.
    pub fn next_if_eq(&mut self, token: &Token) -> (r: Option<Token>)
        requires
            old(self).wf(),
        ensures
            final(self).wf(),
            final(self).bytes() == old(self).bytes(),
            match r {
                Some(t) => t@ == token@ && old(self).upcoming() == Some(
                    (t@, final(self).offset()),
                ) && old(self).offset() < final(self).offset(),
                None => final(self).offset() == old(self).offset() && (match old(
                    self,
                ).upcoming() {
                    Some((t, _)) => t != token@,
                    None => true,
                }),
            },
    {
        self.fill();
        let matches = match &self.peeked {
            Some(Some(t)) => t.same(token),
            _ => false,
        };
        if matches {
            self.next()
        } else {
            None
        }
    }

    /// Takes the next token if `f` accepts it: `f` is asked about the next
    /// token, and the token is taken where the answer is yes. Nothing is
    /// taken, and the lexer stays where it is, at the end of the input and
    /// where `f` says no to the next token.
    pub fn next_if(&mut self, f: impl Fn(&Token) -> bool) -> (r: Option<Token>)
        requires
            old(self).wf(),
            forall|t: &Token| f.requires((t,)),
        ensures
            final(self).wf(),
            final(self).bytes() == old(self).bytes(),
            match r {
                Some(t) => f.ensures((&t,), true) && old(self).upcoming() == Some(
                    (t@, final(self).offset()),
                ) && old(self).offset() < final(self).offset(),
                None => final(self).offset() == old(self).offset() && (match old(
                    self,
                ).upcoming() {
                    Some((t, _)) => refuses(f, t),
                    None => true,
                }),
            },
    {
        self.fill();
        let accepted = match &self.peeked {
            Some(Some(t)) => f(t),
            _ => false,
        };
        proof {
            lemma_next_token_advances(self.bytes(), self.offset());
            if !accepted && self.peeked matches Some(Some(_)) {
                let ghost t = self.peeked->Some_0->Some_0;
                assert(f.ensures((&t,), false) && t@ == self.upcoming()->Some_0.0);
            }
        }
        if accepted {
            match self.peeked.take() {
                Some(Some(t)) => {
                    self.start = self.tokenizer.position();
                    Some(t)
                },
                _ => {
                    self.peeked = Some(None);
                    None
                },
            }
        } else {
            None
        }
    }
}

} // verus!
