//! Tokens and their mathematical view.

use vstd::prelude::*;
use vstd::string::StringExecFns;

verus! {

/// The reserved words of the language.
#[derive(Debug, PartialEq, Eq, PartialOrd, Ord, Clone, Copy, Structural)]
pub enum Keyword {
    Function,
    Let,
    If,
    Else,
    True,
    False,
    Return,
}

/// One token. Tokens carry no source location.
#[derive(Debug, Clone, PartialEq, Eq)]
pub enum Token {
    Keyword(Keyword),
    Ident(String),
    Int(String),
    String(String),
    Assign,
    Plus,
    Minus,
    Bang,
    Star,
    Slash,
    Eq,
    Neq,
    Gt,
    Lt,
    Percent,
    Comma,
    Semicolon,
    LParen,
    RParen,
    LBrace,
    RBrace,
    LBracket,
    RBracket,
    Colon,
    Illegal,
    Eof,
}

/// A token as a mathematical value: text is a sequence of characters.
pub enum TokenView {
    Keyword(Keyword),
    Ident(Seq<char>),
    Int(Seq<char>),
    String(Seq<char>),
    Assign,
    Plus,
    Minus,
    Bang,
    Star,
    Slash,
    Eq,
    Neq,
    Gt,
    Lt,
    Percent,
    Comma,
    Semicolon,
    LParen,
    RParen,
    LBrace,
    RBrace,
    LBracket,
    RBracket,
    Colon,
    Illegal,
    Eof,
}

impl View for Token {
    type V = TokenView;

    open spec fn view(&self) -> TokenView {
        match *self {
            Token::Keyword(k) => TokenView::Keyword(k),
            Token::Ident(s) => TokenView::Ident(s@),
            Token::Int(s) => TokenView::Int(s@),
            Token::String(s) => TokenView::String(s@),
            Token::Assign => TokenView::Assign,
            Token::Plus => TokenView::Plus,
            Token::Minus => TokenView::Minus,
            Token::Bang => TokenView::Bang,
            Token::Star => TokenView::Star,
            Token::Slash => TokenView::Slash,
            Token::Eq => TokenView::Eq,
            Token::Neq => TokenView::Neq,
            Token::Gt => TokenView::Gt,
            Token::Lt => TokenView::Lt,
            Token::Percent => TokenView::Percent,
            Token::Comma => TokenView::Comma,
            Token::Semicolon => TokenView::Semicolon,
            Token::LParen => TokenView::LParen,
            Token::RParen => TokenView::RParen,
            Token::LBrace => TokenView::LBrace,
            Token::RBrace => TokenView::RBrace,
            Token::LBracket => TokenView::LBracket,
            Token::RBracket => TokenView::RBracket,
            Token::Colon => TokenView::Colon,
            Token::Illegal => TokenView::Illegal,
            Token::Eof => TokenView::Eof,
        }
    }
}

/// The spelling of a keyword.
pub open spec fn keyword_text(k: Keyword) -> Seq<char> {
    match k {
        Keyword::Function => "fn"@,
        Keyword::Let => "let"@,
        Keyword::If => "if"@,
        Keyword::Else => "else"@,
        Keyword::True => "true"@,
        Keyword::False => "false"@,
        Keyword::Return => "return"@,
    }
}

/// The keyword that a word spells, if it spells one.
pub open spec fn keyword_of(word: Seq<char>) -> Option<Keyword> {
    if word == "fn"@ {
        Some(Keyword::Function)
    } else if word == "let"@ {
        Some(Keyword::Let)
    } else if word == "if"@ {
        Some(Keyword::If)
    } else if word == "else"@ {
        Some(Keyword::Else)
    } else if word == "true"@ {
        Some(Keyword::True)
    } else if word == "false"@ {
        Some(Keyword::False)
    } else if word == "return"@ {
        Some(Keyword::Return)
    } else {
        None
    }
}

/// The text that a token is printed as.
pub open spec fn token_text(t: TokenView) -> Seq<char> {
    match t {
        TokenView::Keyword(k) => keyword_text(k),
        TokenView::Ident(s) => s,
        TokenView::Int(s) => s,
        TokenView::String(s) => "'"@ + s + "'"@,
        TokenView::Assign => "="@,
        TokenView::Plus => "+"@,
        TokenView::Minus => "-"@,
        TokenView::Bang => "!"@,
        TokenView::Star => "*"@,
        TokenView::Slash => "/"@,
        TokenView::Eq => "=="@,
        TokenView::Neq => "!="@,
        TokenView::Gt => ">"@,
        TokenView::Lt => "<"@,
        TokenView::Percent => "%"@,
        TokenView::Comma => ","@,
        TokenView::Semicolon => ";"@,
        TokenView::LParen => "("@,
        TokenView::RParen => ")"@,
        TokenView::LBrace => "{"@,
        TokenView::RBrace => "}"@,
        TokenView::LBracket => "["@,
        TokenView::RBracket => "]"@,
        TokenView::Colon => ":"@,
        TokenView::Illegal => "Illegal"@,
        TokenView::Eof => ""@,
    }
}

impl Keyword {
    /// The keyword that `s` spells, or nothing where it spells none.
    pub fn from_str(s: &str) -> (r: Option<Keyword>)
        ensures
            r == keyword_of(s@),
    {
        let word = String::from_str(s);
        if word == String::from_str("fn") {
            Some(Keyword::Function)
        } else if word == String::from_str("let") {
            Some(Keyword::Let)
        } else if word == String::from_str("if") {
            Some(Keyword::If)
        } else if word == String::from_str("else") {
            Some(Keyword::Else)
        } else if word == String::from_str("true") {
            Some(Keyword::True)
        } else if word == String::from_str("false") {
            Some(Keyword::False)
        } else if word == String::from_str("return") {
            Some(Keyword::Return)
        } else {
            None
        }
    }

    /// The spelling of the keyword.
    pub fn to_string(&self) -> (s: String)
        ensures
            s@ == keyword_text(*self),
    {
        match self {
            Keyword::Function => String::from_str("fn"),
            Keyword::Let => String::from_str("let"),
            Keyword::If => String::from_str("if"),
            Keyword::Else => String::from_str("else"),
            Keyword::True => String::from_str("true"),
            Keyword::False => String::from_str("false"),
            Keyword::Return => String::from_str("return"),
        }
    }
}

impl Token {
    /// Whether two tokens are the same kind of token with the same text.
    pub fn same(&self, other: &Token) -> (r: bool)
        ensures
            r == (self@ == other@),
    {
        match (self, other) {
            (Token::Keyword(a), Token::Keyword(b)) => *a == *b,
            (Token::Ident(a), Token::Ident(b)) => *a == *b,
            (Token::Int(a), Token::Int(b)) => *a == *b,
            (Token::String(a), Token::String(b)) => *a == *b,
            (Token::Assign, Token::Assign) => true,
            (Token::Plus, Token::Plus) => true,
            (Token::Minus, Token::Minus) => true,
            (Token::Bang, Token::Bang) => true,
            (Token::Star, Token::Star) => true,
            (Token::Slash, Token::Slash) => true,
            (Token::Eq, Token::Eq) => true,
            (Token::Neq, Token::Neq) => true,
            (Token::Gt, Token::Gt) => true,
            (Token::Lt, Token::Lt) => true,
            (Token::Percent, Token::Percent) => true,
            (Token::Comma, Token::Comma) => true,
            (Token::Semicolon, Token::Semicolon) => true,
            (Token::LParen, Token::LParen) => true,
            (Token::RParen, Token::RParen) => true,
            (Token::LBrace, Token::LBrace) => true,
            (Token::RBrace, Token::RBrace) => true,
            (Token::LBracket, Token::LBracket) => true,
            (Token::RBracket, Token::RBracket) => true,
            (Token::Colon, Token::Colon) => true,
            (Token::Illegal, Token::Illegal) => true,
            (Token::Eof, Token::Eof) => true,
            _ => false,
        }
    }

    /// A copy of the token.
    pub fn duplicate(&self) -> (r: Token)
        ensures
            r@ == self@,
    {
        match self {
            Token::Keyword(k) => Token::Keyword(*k),
            Token::Ident(s) => Token::Ident(s.clone()),
            Token::Int(s) => Token::Int(s.clone()),
            Token::String(s) => Token::String(s.clone()),
            Token::Assign => Token::Assign,
            Token::Plus => Token::Plus,
            Token::Minus => Token::Minus,
            Token::Bang => Token::Bang,
            Token::Star => Token::Star,
            Token::Slash => Token::Slash,
            Token::Eq => Token::Eq,
            Token::Neq => Token::Neq,
            Token::Gt => Token::Gt,
            Token::Lt => Token::Lt,
            Token::Percent => Token::Percent,
            Token::Comma => Token::Comma,
            Token::Semicolon => Token::Semicolon,
            Token::LParen => Token::LParen,
            Token::RParen => Token::RParen,
            Token::LBrace => Token::LBrace,
            Token::RBrace => Token::RBrace,
            Token::LBracket => Token::LBracket,
            Token::RBracket => Token::RBracket,
            Token::Colon => Token::Colon,
            Token::Illegal => Token::Illegal,
            Token::Eof => Token::Eof,
        }
    }

    /// The text that the token is printed as.
    pub fn to_string(&self) -> (s: String)
        ensures
            s@ == token_text(self@),
    {
        match self {
            Token::Keyword(k) => k.to_string(),
            Token::Ident(i) => i.clone(),
            Token::Int(i) => i.clone(),
            Token::String(t) => {
                let mut s = String::from_str("'");
                s.append(t.as_str());
                s.append("'");
                s
            },
            Token::Assign => String::from_str("="),
            Token::Plus => String::from_str("+"),
            Token::Minus => String::from_str("-"),
            Token::Bang => String::from_str("!"),
            Token::Star => String::from_str("*"),
            Token::Slash => String::from_str("/"),
            Token::Eq => String::from_str("=="),
            Token::Neq => String::from_str("!="),
            Token::Gt => String::from_str(">"),
            Token::Lt => String::from_str("<"),
            Token::Percent => String::from_str("%"),
            Token::Comma => String::from_str(","),
            Token::Semicolon => String::from_str(";"),
            Token::LParen => String::from_str("("),
            Token::RParen => String::from_str(")"),
            Token::LBrace => String::from_str("{"),
            Token::RBrace => String::from_str("}"),
            Token::LBracket => String::from_str("["),
            Token::RBracket => String::from_str("]"),
            Token::Colon => String::from_str(":"),
            Token::Illegal => String::from_str("Illegal"),
            Token::Eof => String::from_str(""),
        }
    }
}

} // verus!
