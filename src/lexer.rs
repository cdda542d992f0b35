//! Turning characters into tokens.
use vstd::prelude::*;
use vstd::string::*;
use crate::syntax::LambdaNode;

verus! {

/// The token that one character stands for, if any.
pub open spec fn token_of(c: char) -> Option<LambdaNode> {
    if c == '/' || c == '\u{3bb}' || c == '\\' {
        Some(LambdaNode::Lambda)
    } else if 'a' <= c && c <= 'z' {
        Some(LambdaNode::Var(c))
    } else if c == '.' {
        Some(LambdaNode::Dot)
    } else if c == ' ' {
        Some(LambdaNode::App)
    } else if c == '(' {
        Some(LambdaNode::LParen)
    } else if c == ')' {
        Some(LambdaNode::RParen)
    } else if c == 'T' {
        Some(LambdaNode::True)
    } else if c == 'F' {
        Some(LambdaNode::False)
    } else if c == '&' {
        Some(LambdaNode::And)
    } else if c == '|' {
        Some(LambdaNode::Or)
    } else {
        None
    }
}

/// The tokens of a text: one for each recognised character, in order; the other
/// characters are dropped.
pub open spec fn lex_spec(s: Seq<char>) -> Seq<LambdaNode>
    decreases s.len(),
{
    if s.len() == 0 {
        seq![]
    } else {
        let rest = lex_spec(s.drop_last());
        match token_of(s.last()) {
            Some(t) => rest.push(t),
            None => rest,
        }
    }
}

/// The characters of a text that stand for no token, in order.
pub open spec fn unrecognized_spec(s: Seq<char>) -> Seq<char>
    decreases s.len(),
{
    if s.len() == 0 {
        seq![]
    } else {
        let rest = unrecognized_spec(s.drop_last());
        match token_of(s.last()) {
            Some(_) => rest,
            None => rest.push(s.last()),
        }
    }
}

fn lex_char(c: char) -> (r: Option<LambdaNode>)
    ensures
        r == token_of(c),
{
    match c {
        '/' | '\u{3bb}' | '\\' => Some(LambdaNode::Lambda),
        'a'..='z' => Some(LambdaNode::Var(c)),
        '.' => Some(LambdaNode::Dot),
        ' ' => Some(LambdaNode::App),
        '(' => Some(LambdaNode::LParen),
        ')' => Some(LambdaNode::RParen),
        'T' => Some(LambdaNode::True),
        'F' => Some(LambdaNode::False),
        '&' => Some(LambdaNode::And),
        '|' => Some(LambdaNode::Or),
        _ => None,
    }
}

/// Splits a text into tokens, one per recognised character.
pub fn lex(string_to_parse: &str) -> (r: Vec<LambdaNode>)
    ensures
        r@ == lex_spec(string_to_parse@),
{
    let n = string_to_parse.unicode_len();
    let mut to_return: Vec<LambdaNode> = Vec::new();
    let mut i: usize = 0;
    while i < n
        invariant
            n == string_to_parse@.len(),
            i <= n,
            to_return@ == lex_spec(string_to_parse@.subrange(0, i as int)),
        decreases n - i,
    {
        let c = string_to_parse.get_char(i);
        assert(string_to_parse@.subrange(0, i + 1).drop_last() =~= string_to_parse@.subrange(
            0,
            i as int,
        ));
        match lex_char(c) {
            Some(t) => to_return.push(t),
            None => {},
        }
        i = i + 1;
    }
    assert(string_to_parse@.subrange(0, n as int) =~= string_to_parse@);
    to_return
}

/// The characters of a text that the lexer drops, in order, for a diagnostic.
pub fn unrecognized_characters(text: &str) -> (r: Vec<char>)
    ensures
        r@ == unrecognized_spec(text@),
{
    let n = text.unicode_len();
    let mut found: Vec<char> = Vec::new();
    let mut i: usize = 0;
    while i < n
        invariant
            n == text@.len(),
            i <= n,
            found@ == unrecognized_spec(text@.subrange(0, i as int)),
        decreases n - i,
    {
        let c = text.get_char(i);
        assert(text@.subrange(0, i + 1).drop_last() =~= text@.subrange(0, i as int));
        if lex_char(c).is_none() {
            found.push(c);
        }
        i = i + 1;
    }
    assert(text@.subrange(0, n as int) =~= text@);
    found
}

} // verus!
