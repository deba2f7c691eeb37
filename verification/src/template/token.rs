//! Tokens of the template language.

use vstd::prelude::*;

verus! {

/// A lexical token of the template language.
///
/// `Illegal` carries a character that no rule covers; the lexer reports it
/// as data and leaves rejection to the parser. `Eof` marks the end of the
/// input and is reported again on every further call.
#[derive(Debug, PartialEq, Eq)]
pub enum Tokens {
    Illegal(char),
    Eof,
    Ident(String),
    String(String),
    Number(String),
    Comment,
    Assign,
    Comma,
    Quote,
    LSBracket,
    RSBracket,
}

/// The mathematical model of a token: text payloads as character sequences.
pub enum Tok {
    Illegal(char),
    Eof,
    Ident(Seq<char>),
    Str(Seq<char>),
    Number(Seq<char>),
    Comment,
    Assign,
    Comma,
    Quote,
    LSBracket,
    RSBracket,
}

impl Clone for Tokens {
    /// Cloning keeps the token and its text.
    fn clone(&self) -> (r: Self)
        ensures
            r@ == self@,
    {
        match self {
            Tokens::Illegal(c) => Tokens::Illegal(*c),
            Tokens::Eof => Tokens::Eof,
            Tokens::Ident(s) => Tokens::Ident(s.clone()),
            Tokens::String(s) => Tokens::String(s.clone()),
            Tokens::Number(s) => Tokens::Number(s.clone()),
            Tokens::Comment => Tokens::Comment,
            Tokens::Assign => Tokens::Assign,
            Tokens::Comma => Tokens::Comma,
            Tokens::Quote => Tokens::Quote,
            Tokens::LSBracket => Tokens::LSBracket,
            Tokens::RSBracket => Tokens::RSBracket,
        }
    }
}

impl View for Tokens {
    type V = Tok;

    open spec fn view(&self) -> Tok {
        match self {
            Tokens::Illegal(c) => Tok::Illegal(*c),
            Tokens::Eof => Tok::Eof,
            Tokens::Ident(s) => Tok::Ident(s@),
            Tokens::String(s) => Tok::Str(s@),
            Tokens::Number(s) => Tok::Number(s@),
            Tokens::Comment => Tok::Comment,
            Tokens::Assign => Tok::Assign,
            Tokens::Comma => Tok::Comma,
            Tokens::Quote => Tok::Quote,
            Tokens::LSBracket => Tok::LSBracket,
            Tokens::RSBracket => Tok::RSBracket,
        }
    }
}

} // verus!
