//! The token model: the fixed vocabulary of lexical categories and the token
//! value (kind, lexeme, 1-based source position).
use vstd::prelude::*;
use crate::hashing;

verus! {

#[derive(Clone, Copy, Debug, PartialEq, Eq, Structural)]
pub enum TokenType {
    Number,
    Id,
    Plus,
    Minus,
    Asterisk,
    Slash,
    OpenParenthesis,
    ClosingParenthesis,
    Unknown,
    EOF,
}

/// The mathematical model of a token.
#[verifier::ext_equal]
pub ghost struct STok {
    pub kind: TokenType,
    pub lexeme: Seq<char>,
    pub position: int,
}

#[derive(Debug)]
pub struct Token {
    pub position: usize,
    pub lexeme: String,
    pub token_type: TokenType,
}

impl View for Token {
    type V = STok;

    open spec fn view(&self) -> STok {
        STok { kind: self.token_type, lexeme: self.lexeme@, position: self.position as int }
    }
}

impl Clone for Token {
    fn clone(&self) -> (r: Self)
        ensures
            r@ == self@,
    {
        Token {
            position: self.position,
            lexeme: self.lexeme.clone(),
            token_type: self.token_type,
        }
    }
}

impl Token {
    /// The deterministic 64-bit hash that interns this token: it depends on
    /// the lexeme only, never on the kind or the position.
    pub fn get_default_hash(&self) -> (r: u64)
        ensures
            r == hashing::lexeme_hash(self.lexeme@),
    {
        hashing::hash_str(self.lexeme.as_str())
    }
}

/// The human-readable description of a token kind, used in diagnostics and in
/// parse-tree labels.
pub open spec fn spec_type_str(t: TokenType) -> Seq<char> {
    match t {
        TokenType::ClosingParenthesis => "close parenthesis"@,
        TokenType::OpenParenthesis => "open parenthesis"@,
        TokenType::Asterisk => "*"@,
        TokenType::Slash => "/"@,
        TokenType::Plus => "+"@,
        TokenType::Minus => "-"@,
        TokenType::Number => "number"@,
        TokenType::Id => "identifier"@,
        TokenType::EOF => "end of input"@,
        TokenType::Unknown => "unknown"@,
    }
}

pub fn type_to_string(t: &TokenType) -> (r: String)
    ensures
        r@ == spec_type_str(*t),
{
    match t {
        TokenType::ClosingParenthesis => String::from_str("close parenthesis"),
        TokenType::OpenParenthesis => String::from_str("open parenthesis"),
        TokenType::Asterisk => String::from_str("*"),
        TokenType::Slash => String::from_str("/"),
        TokenType::Plus => String::from_str("+"),
        TokenType::Minus => String::from_str("-"),
        TokenType::Number => String::from_str("number"),
        TokenType::Id => String::from_str("identifier"),
        TokenType::EOF => String::from_str("end of input"),
        TokenType::Unknown => String::from_str("unknown"),
    }
}

} // verus!
