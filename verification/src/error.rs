//! The two terminal error kinds of an analysis: a lookahead token that does
//! not match what the current production requires, and a token that cannot
//! start a factor.
use vstd::prelude::*;

verus! {

#[derive(Clone, Copy, Debug, PartialEq, Eq, Structural)]
pub enum ErrorKind {
    /// The lookahead token's kind does not match what the production required
    /// (including trailing input where end-of-input was required).
    LexicalMismatch,
    /// A token that is none of open-parenthesis, number, or identifier where a
    /// factor was required.
    SyntaxError,
}

/// The mathematical model of an analysis error.
#[verifier::ext_equal]
pub ghost struct SErr {
    pub kind: ErrorKind,
    pub character: Seq<char>,
    pub pos: int,
    pub expected: Seq<char>,
}

/// A structured analysis error: the offending lexeme, its 1-based source
/// position, and a human-readable description of what was expected there.
#[derive(Debug)]
pub struct AnalyzerError {
    pub kind: ErrorKind,
    pub character: String,
    pub pos: usize,
    pub expected: String,
}

impl View for AnalyzerError {
    type V = SErr;

    open spec fn view(&self) -> SErr {
        SErr {
            kind: self.kind,
            character: self.character@,
            pos: self.pos as int,
            expected: self.expected@,
        }
    }
}

impl Clone for AnalyzerError {
    fn clone(&self) -> (r: Self)
        ensures
            r@ == self@,
    {
        AnalyzerError {
            kind: self.kind,
            character: self.character.clone(),
            pos: self.pos,
            expected: self.expected.clone(),
        }
    }
}

impl AnalyzerError {
    pub fn new(kind: ErrorKind, character: &str, pos: usize, expected: &str) -> (r: Self)
        ensures
            r@ == (SErr { kind, character: character@, pos: pos as int, expected: expected@ }),
    {
        AnalyzerError {
            kind,
            character: String::from_str(character),
            pos,
            expected: String::from_str(expected),
        }
    }
}

} // verus!
