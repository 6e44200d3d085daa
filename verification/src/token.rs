//! Lexical tokens of the source language.

use vstd::prelude::*;
use crate::utils::{Const, Position, str_eq};

verus! {

/// Binary operator tokens.
#[derive(Debug, Clone, Copy, PartialEq, Eq, Structural)]
pub enum Operator {
    ADD,
    SUB,
    MUL,
    DIV,
}

/// Reserved keywords of the language.
#[derive(Debug, Clone, Copy, PartialEq, Eq, Structural)]
pub enum Keyword {
    PRINT,
    LET,
}

/// The keyword denoted by the given word, if any.
pub open spec fn spec_as_keyword(s: Seq<char>) -> Option<Keyword> {
    if s == "print"@ {
        Some(Keyword::PRINT)
    } else if s == "let"@ {
        Some(Keyword::LET)
    } else {
        None
    }
}

pub fn as_keyword(k: &str) -> (r: Option<Keyword>)
    ensures
        r == spec_as_keyword(k@),
{
    if str_eq(k, "print") {
        Some(Keyword::PRINT)
    } else if str_eq(k, "let") {
        Some(Keyword::LET)
    } else {
        None
    }
}

/// One lexeme, including comments (the parser filters those out).
#[derive(Debug, Clone, PartialEq)]
pub enum TokenType {
    COMMENT(String),
    IDENT(String),
    CONST(Const),
    KEYWORD(Keyword),
    OPERATOR(Operator),
    ASSIGN,
    LPAREN,
    RPAREN,
    SEMICOLON,
}

/// Mathematical mirror of `TokenType`, with strings as character
/// sequences, used by contracts.
pub enum SpecTokenType {
    Comment(Seq<char>),
    Ident(Seq<char>),
    Const(Const),
    Keyword(Keyword),
    Operator(Operator),
    Assign,
    LParen,
    RParen,
    Semicolon,
}

impl View for TokenType {
    type V = SpecTokenType;

    open spec fn view(&self) -> SpecTokenType {
        match self {
            TokenType::COMMENT(s) => SpecTokenType::Comment(s@),
            TokenType::IDENT(s) => SpecTokenType::Ident(s@),
            TokenType::CONST(c) => SpecTokenType::Const(*c),
            TokenType::KEYWORD(k) => SpecTokenType::Keyword(*k),
            TokenType::OPERATOR(o) => SpecTokenType::Operator(*o),
            TokenType::ASSIGN => SpecTokenType::Assign,
            TokenType::LPAREN => SpecTokenType::LParen,
            TokenType::RPAREN => SpecTokenType::RParen,
            TokenType::SEMICOLON => SpecTokenType::Semicolon,
        }
    }
}

impl TokenType {
    /// An equal copy of this token type.
    pub fn duplicate(&self) -> (r: TokenType)
        ensures
            r == *self,
    {
        match self {
            TokenType::COMMENT(s) => TokenType::COMMENT(s.clone()),
            TokenType::IDENT(s) => TokenType::IDENT(s.clone()),
            TokenType::CONST(c) => TokenType::CONST(*c),
            TokenType::KEYWORD(k) => TokenType::KEYWORD(*k),
            TokenType::OPERATOR(o) => TokenType::OPERATOR(*o),
            TokenType::ASSIGN => TokenType::ASSIGN,
            TokenType::LPAREN => TokenType::LPAREN,
            TokenType::RPAREN => TokenType::RPAREN,
            TokenType::SEMICOLON => TokenType::SEMICOLON,
        }
    }
}

/// A token together with the position of its first character.
#[derive(Debug, Clone, PartialEq)]
pub struct Token {
    pub token: TokenType,
    pub pos: Position,
}

/// Mathematical mirror of `Token`.
pub struct SpecToken {
    pub token: SpecTokenType,
    pub pos: Position,
}

impl View for Token {
    type V = SpecToken;

    open spec fn view(&self) -> SpecToken {
        SpecToken { token: self.token@, pos: self.pos }
    }
}

} // verus!
