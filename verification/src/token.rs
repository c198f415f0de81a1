use vstd::prelude::*;
use crate::numerics::{Float, Integer, Ratio};

verus! {

/// A lexical token.
#[derive(PartialEq, Debug)]
pub enum Token {
    Symbol(String),
    NamespacedSymbol(Vec<String>),
    Keyword(String),
    String(String),
    Integer(Integer),
    Float(Float),
    Ratio(Ratio),
    LeftParen,
    RightParen,
    LeftBracket,
    RightBracket,
    LeftBrace,
    RightBrace,
    Quote,
    Deref,
}

/// The mathematical content of a token: strings as character sequences,
/// numbers as their values.
pub enum SpecToken {
    Symbol(Seq<char>),
    NamespacedSymbol(Seq<Seq<char>>),
    Keyword(Seq<char>),
    String(Seq<char>),
    Integer(int),
    Float(Seq<char>),
    Ratio(int, int),
    LeftParen,
    RightParen,
    LeftBracket,
    RightBracket,
    LeftBrace,
    RightBrace,
    Quote,
    Deref,
}

pub open spec fn strings_view(v: Seq<String>) -> Seq<Seq<char>> {
    v.map_values(|s: String| s@)
}

impl View for Token {
    type V = SpecToken;

    open spec fn view(&self) -> SpecToken {
        match self {
            Token::Symbol(s) => SpecToken::Symbol(s@),
            Token::NamespacedSymbol(v) => SpecToken::NamespacedSymbol(strings_view(v@)),
            Token::Keyword(s) => SpecToken::Keyword(s@),
            Token::String(s) => SpecToken::String(s@),
            Token::Integer(i) => SpecToken::Integer(i.value()),
            Token::Float(f) => SpecToken::Float(f.literal_view()),
            Token::Ratio(r) => SpecToken::Ratio(r.numer_value(), r.denom_value()),
            Token::LeftParen => SpecToken::LeftParen,
            Token::RightParen => SpecToken::RightParen,
            Token::LeftBracket => SpecToken::LeftBracket,
            Token::RightBracket => SpecToken::RightBracket,
            Token::LeftBrace => SpecToken::LeftBrace,
            Token::RightBrace => SpecToken::RightBrace,
            Token::Quote => SpecToken::Quote,
            Token::Deref => SpecToken::Deref,
        }
    }
}

pub open spec fn tokens_view(v: Seq<Token>) -> Seq<SpecToken> {
    v.map_values(|t: Token| t@)
}

impl Token {
    pub fn clone(&self) -> (r: Token)
        ensures
            r@ == self@,
    {
        match self {
            Token::Symbol(s) => Token::Symbol(s.clone()),
            Token::NamespacedSymbol(v) => {
                let w = crate::strings::copy_strings(v);
                assert(strings_view(w@) =~= strings_view(v@));
                Token::NamespacedSymbol(w)
            },
            Token::Keyword(s) => Token::Keyword(s.clone()),
            Token::String(s) => Token::String(s.clone()),
            Token::Integer(i) => Token::Integer(i.clone()),
            Token::Float(f) => Token::Float(f.clone()),
            Token::Ratio(r) => Token::Ratio(r.clone()),
            Token::LeftParen => Token::LeftParen,
            Token::RightParen => Token::RightParen,
            Token::LeftBracket => Token::LeftBracket,
            Token::RightBracket => Token::RightBracket,
            Token::LeftBrace => Token::LeftBrace,
            Token::RightBrace => Token::RightBrace,
            Token::Quote => Token::Quote,
            Token::Deref => Token::Deref,
        }
    }
}

} // verus!
