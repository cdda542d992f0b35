//! The token, intermediate and final tree types, and the error kinds of the parser.
use vstd::prelude::*;

verus! {

/// A finished term.
#[derive(Debug, PartialEq, Eq)]
pub enum LambdaToken {
    Var(char),
    Lambda(char, Box<LambdaToken>),
    App(Box<LambdaToken>, Box<LambdaToken>),
    /// A parenthesised term: transparent to reduction, kept for printing.
    Brackets(Box<LambdaToken>),
}

/// A node of the intermediate tree built by the first parsing stage. A sequence of
/// these is a left-to-right stream of sub-terms, with one `App` marker in front for
/// each application found between them.
#[derive(Debug, PartialEq, Eq)]
pub enum NotQuiteLambdaToken {
    Var(char),
    Lambda(char, Vec<NotQuiteLambdaToken>),
    App,
    Brackets(Vec<NotQuiteLambdaToken>),
}

/// One lexical token; each stands for one input character.
#[derive(Debug, Clone, Copy, PartialEq, Eq, Structural)]
pub enum LambdaNode {
    Lambda,
    Dot,
    Var(char),
    LParen,
    RParen,
    App,
    True,
    False,
    And,
    Or,
}

/// Why a text could not be parsed.
#[derive(Debug, Clone, Copy, PartialEq, Eq, Structural)]
pub enum ParseError {
    /// A lambda marker that is not followed by a variable.
    MissingVariable,
    /// A lambda header whose variable is not followed by a dot.
    MissingDot,
    /// A dot outside a lambda header.
    StrayDot,
    /// A closing parenthesis that closes nothing.
    ExtraParen,
    /// An opened parenthesis that is never closed.
    MissingParen,
    /// The input ended where a term or token was still required.
    UnexpectedEnd,
    /// A term left over after a complete one: two terms side by side with no space
    /// between them to apply one to the other.
    TrailingTerm,
}

/// A verified copy of a term.
pub fn copy_term(t: &LambdaToken) -> (r: LambdaToken)
    ensures
        r == *t,
    decreases t,
{
    match t {
        LambdaToken::Var(v) => LambdaToken::Var(*v),
        LambdaToken::Lambda(h, b) => LambdaToken::Lambda(*h, Box::new(copy_term(b))),
        LambdaToken::App(a, b) => LambdaToken::App(Box::new(copy_term(a)), Box::new(copy_term(b))),
        LambdaToken::Brackets(i) => LambdaToken::Brackets(Box::new(copy_term(i))),
    }
}

impl Clone for LambdaToken {
    fn clone(&self) -> (r: Self)
        ensures
            r == *self,
    {
        copy_term(self)
    }
}

} // verus!
