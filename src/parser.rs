//! The two-stage parser: tokens to an intermediate tree that keeps application
//! markers in place, then that tree to a finished term.
use vstd::prelude::*;
use crate::intermediate::{inter_of, inters_of, lemma_inters_index, Inter};
use crate::lexer::{lex, lex_spec};
use crate::syntax::{LambdaNode, LambdaToken, NotQuiteLambdaToken, ParseError};

verus! {

/// Where the first stage is parsing, which decides what a closing parenthesis and
/// the end of input mean.
#[derive(Debug, Clone, Copy, PartialEq, Eq, Structural)]
pub enum Mode {
    /// The whole input: a closing parenthesis here closes nothing.
    Top,
    /// Inside parentheses: the next closing one ends the group, and it must come.
    Group,
    /// A lambda body that did not open with a parenthesis: it ends before a closing
    /// parenthesis, which is left for the enclosing level, or at the end of input.
    Body,
    /// A lambda body opened by the parenthesis right after the dot: the matching
    /// closing one ends it, and so may the end of input.
    BodyParen,
}

/// The intermediate node that a sugar token stands for: the Church encodings of
/// true, false, and, or.
pub open spec fn sugar_spec(t: LambdaNode) -> Inter {
    let p = Inter::Var('p');
    let q = Inter::Var('q');
    let body = match t {
        LambdaNode::True => seq![p],
        LambdaNode::False => seq![q],
        LambdaNode::And => seq![Inter::App, Inter::App, q, p, q],
        _ => seq![Inter::App, Inter::App, p, p, q],
    };
    Inter::Lambda('p', seq![Inter::Lambda('q', body)])
}

/// The tokens that stand for a fixed term.
pub open spec fn is_sugar(t: LambdaNode) -> bool {
    t is True || t is False || t is And || t is Or
}

/// The first stage from token `pos` on, in `mode`, with `acc` parsed so far at this
/// level: the nodes of this level and the position of the first token not consumed.
pub open spec fn group_spec(toks: Seq<LambdaNode>, pos: int, mode: Mode, acc: Seq<Inter>) -> Result<
    (Seq<Inter>, int),
    ParseError,
>
    decreases toks.len() - pos,
{
    if pos < 0 || pos >= toks.len() {
        if mode == Mode::Group {
            Err(ParseError::MissingParen)
        } else {
            Ok((acc, pos))
        }
    } else {
        match toks[pos] {
            LambdaNode::Lambda => if pos + 1 >= toks.len() {
                Err(ParseError::UnexpectedEnd)
            } else {
                match toks[pos + 1] {
                    LambdaNode::Var(c) => if pos + 2 >= toks.len() {
                        Err(ParseError::UnexpectedEnd)
                    } else if toks[pos + 2] != LambdaNode::Dot {
                        Err(ParseError::MissingDot)
                    } else {
                        let opens = pos + 3 < toks.len() && toks[pos + 3] == LambdaNode::LParen;
                        let start = if opens { pos + 4 } else { pos + 3 };
                        let m = if opens { Mode::BodyParen } else { Mode::Body };
                        match group_spec(toks, start, m, seq![]) {
                            Ok((body, next)) => if pos < next <= toks.len() {
                                group_spec(toks, next, mode, acc.push(Inter::Lambda(c, body)))
                            } else {
                                Err(ParseError::UnexpectedEnd)
                            },
                            Err(e) => Err(e),
                        }
                    },
                    _ => Err(ParseError::MissingVariable),
                }
            },
            LambdaNode::Dot => Err(ParseError::StrayDot),
            LambdaNode::Var(v) => group_spec(toks, pos + 1, mode, acc.push(Inter::Var(v))),
            LambdaNode::LParen => match group_spec(toks, pos + 1, Mode::Group, seq![]) {
                Ok((inner, next)) => if pos < next <= toks.len() {
                    group_spec(toks, next, mode, acc.push(Inter::Group(inner)))
                } else {
                    Err(ParseError::UnexpectedEnd)
                },
                Err(e) => Err(e),
            },
            LambdaNode::RParen => match mode {
                Mode::Top => Err(ParseError::ExtraParen),
                Mode::Body => Ok((acc, pos)),
                _ => Ok((acc, pos + 1)),
            },
            LambdaNode::App => group_spec(toks, pos + 1, mode, seq![Inter::App] + acc),
            t => group_spec(toks, pos + 1, mode, acc.push(sugar_spec(t))),
        }
    }
}

/// The second stage on a sequence: a leading application marker starts the folding
/// of markers and terms into applications; any other leading node is converted
/// alone. Either way every node must be used.
pub open spec fn finish_spec(s: Seq<Inter>) -> Result<LambdaToken, ParseError>
    decreases s, 2nat, 0int,
{
    if s.len() == 0 {
        Err(ParseError::UnexpectedEnd)
    } else {
        match s[0] {
            Inter::App => match resolve_spec(s, 1) {
                Ok((t, next)) => if next == s.len() {
                    Ok(t)
                } else {
                    Err(ParseError::TrailingTerm)
                },
                Err(e) => Err(e),
            },
            _ => match convert_spec(s[0]) {
                Ok(t) => if s.len() == 1 {
                    Ok(t)
                } else {
                    Err(ParseError::TrailingTerm)
                },
                Err(e) => Err(e),
            },
        }
    }
}

/// The finished term of one node that is not an application marker.
pub open spec fn convert_spec(n: Inter) -> Result<LambdaToken, ParseError>
    decreases n, 0nat, 0int,
{
    match n {
        Inter::Var(c) => Ok(LambdaToken::Var(c)),
        Inter::Lambda(h, body) => match finish_spec(body) {
            Ok(b) => Ok(LambdaToken::Lambda(h, Box::new(b))),
            Err(e) => Err(e),
        },
        Inter::Group(inner) => match finish_spec(inner) {
            Ok(i) => Ok(LambdaToken::Brackets(Box::new(i))),
            Err(e) => Err(e),
        },
        Inter::App => Err(ParseError::UnexpectedEnd),
    }
}

/// Folds markers and terms from `pos` on into one application: another marker
/// first folds the rest into the function side and then takes one term as the
/// argument; otherwise the next two terms are function and argument. Gives the
/// application and the position after the last node it read.
pub open spec fn resolve_spec(s: Seq<Inter>, pos: int) -> Result<(LambdaToken, int), ParseError>
    decreases s, 1nat, s.len() - pos,
{
    if pos < 0 || pos >= s.len() {
        Err(ParseError::UnexpectedEnd)
    } else {
        match s[pos] {
            Inter::App => match resolve_spec(s, pos + 1) {
                Ok((f, next)) => if 0 <= next < s.len() {
                    match convert_spec(s[next]) {
                        Ok(a) => Ok((LambdaToken::App(Box::new(f), Box::new(a)), next + 1)),
                        Err(e) => Err(e),
                    }
                } else {
                    Err(ParseError::UnexpectedEnd)
                },
                Err(e) => Err(e),
            },
            _ => match convert_spec(s[pos]) {
                Ok(f) => if pos + 1 < s.len() {
                    match convert_spec(s[pos + 1]) {
                        Ok(a) => Ok((LambdaToken::App(Box::new(f), Box::new(a)), pos + 2)),
                        Err(e) => Err(e),
                    }
                } else {
                    Err(ParseError::UnexpectedEnd)
                },
                Err(e) => Err(e),
            },
        }
    }
}

/// The result of parsing a token sequence: the first stage over all of it, then the
/// second stage over the nodes it gives.
pub open spec fn parse_tokens_spec(toks: Seq<LambdaNode>) -> Result<LambdaToken, ParseError> {
    match group_spec(toks, 0, Mode::Top, seq![]) {
        Ok((nodes, _)) => finish_spec(nodes),
        Err(e) => Err(e),
    }
}

/// The result of parsing a text.
pub open spec fn parse_spec(text: Seq<char>) -> Result<LambdaToken, ParseError> {
    parse_tokens_spec(lex_spec(text))
}

/// A cursor over the tokens.
struct NodeCounter {
    node_list: Vec<LambdaNode>,
    index: usize,
}

impl NodeCounter {
    fn new(node_list: Vec<LambdaNode>) -> (r: NodeCounter)
        ensures
            r.node_list@ == node_list@,
            r.index == 0,
    {
        NodeCounter { node_list, index: 0 }
    }

    fn next(&mut self) -> (r: LambdaNode)
        requires
            old(self).index < old(self).node_list.len(),
        ensures
            r == old(self).node_list@[old(self).index as int],
            final(self).node_list@ == old(self).node_list@,
            final(self).index == old(self).index + 1,
    {
        let to_return = self.node_list[self.index];
        self.index = self.index + 1;
        to_return
    }

    fn has_next(&self) -> (r: bool)
        ensures
            r == (self.index < self.node_list@.len()),
    {
        self.node_list.len() > self.index
    }

    fn step_back(&mut self)
        requires
            old(self).index > 0,
        ensures
            final(self).node_list@ == old(self).node_list@,
            final(self).index == old(self).index - 1,
    {
        self.index = self.index - 1;
    }
}

proof fn lemma_inters_push(s: Seq<NotQuiteLambdaToken>, x: NotQuiteLambdaToken)
    ensures
        inters_of(s.push(x)) == inters_of(s).push(inter_of(x)),
{
    assert(s.push(x).drop_last() =~= s);
}

proof fn lemma_inters_front_app(s: Seq<NotQuiteLambdaToken>)
    ensures
        inters_of(seq![NotQuiteLambdaToken::App] + s) == seq![Inter::App] + inters_of(s),
{
    let t = seq![NotQuiteLambdaToken::App] + s;
    lemma_inters_index(s);
    lemma_inters_index(t);
    assert(inters_of(t) =~= seq![Inter::App] + inters_of(s));
}

fn push_var(v: &mut Vec<NotQuiteLambdaToken>, c: char)
    ensures
        final(v)@ == old(v)@.push(NotQuiteLambdaToken::Var(c)),
{
    v.push(NotQuiteLambdaToken::Var(c));
}

/// The intermediate node of a sugar token, built directly rather than parsed from
/// its text each time.
fn sugar_node(t: LambdaNode) -> (r: NotQuiteLambdaToken)
    requires
        is_sugar(t),
    ensures
        inter_of(r) == sugar_spec(t),
{
    let mut body: Vec<NotQuiteLambdaToken> = Vec::new();
    match t {
        LambdaNode::True => {
            push_var(&mut body, 'p');
        },
        LambdaNode::False => {
            push_var(&mut body, 'q');
        },
        LambdaNode::And => {
            body.push(NotQuiteLambdaToken::App);
            body.push(NotQuiteLambdaToken::App);
            push_var(&mut body, 'q');
            push_var(&mut body, 'p');
            push_var(&mut body, 'q');
        },
        _ => {
            body.push(NotQuiteLambdaToken::App);
            body.push(NotQuiteLambdaToken::App);
            push_var(&mut body, 'p');
            push_var(&mut body, 'p');
            push_var(&mut body, 'q');
        },
    }
    let mut inner: Vec<NotQuiteLambdaToken> = Vec::new();
    inner.push(NotQuiteLambdaToken::Lambda('q', body));
    proof {
        lemma_inters_index(body@);
        lemma_inters_index(inner@);
        let bs = match t {
            LambdaNode::True => seq![Inter::Var('p')],
            LambdaNode::False => seq![Inter::Var('q')],
            LambdaNode::And => seq![
                Inter::App,
                Inter::App,
                Inter::Var('q'),
                Inter::Var('p'),
                Inter::Var('q'),
            ],
            _ => seq![Inter::App, Inter::App, Inter::Var('p'), Inter::Var('p'), Inter::Var('q')],
        };
        assert(inters_of(body@) =~= bs);
        assert(inters_of(inner@) =~= seq![Inter::Lambda('q', bs)]);
    }
    NotQuiteLambdaToken::Lambda('p', inner)
}

/// The first stage: parses one level from the cursor on, in `mode`, and leaves the
/// cursor at the first token it did not consume.
fn parse_body_helper(node_counter: &mut NodeCounter, mode: Mode) -> (r: Result<
    Vec<NotQuiteLambdaToken>,
    ParseError,
>)
    requires
        old(node_counter).index <= old(node_counter).node_list@.len(),
    ensures
        final(node_counter).node_list@ == old(node_counter).node_list@,
        ({
            let s = group_spec(
                old(node_counter).node_list@,
                old(node_counter).index as int,
                mode,
                seq![],
            );
            &&& r is Ok <==> s is Ok
            &&& r is Err ==> s == Err::<(Seq<Inter>, int), ParseError>(r->Err_0)
            &&& r is Ok ==> inters_of(r->Ok_0@) == s->Ok_0.0 && final(node_counter).index
                == s->Ok_0.1
        }),
        r is Ok ==> old(node_counter).index <= final(node_counter).index <= old(
            node_counter,
        ).node_list@.len(),
    decreases old(node_counter).node_list@.len() - old(node_counter).index,
{
    let ghost toks = node_counter.node_list@;
    let ghost start = node_counter.index as int;
    let mut to_return: Vec<NotQuiteLambdaToken> = Vec::new();
    while node_counter.has_next()
        invariant
            toks == old(node_counter).node_list@,
            start == old(node_counter).index,
            node_counter.node_list@ == toks,
            start <= node_counter.index <= toks.len(),
            group_spec(toks, start, mode, seq![]) == group_spec(
                toks,
                node_counter.index as int,
                mode,
                inters_of(to_return@),
            ),
        decreases toks.len() - node_counter.index,
    {
        let ghost pos = node_counter.index as int;
        let ghost acc = inters_of(to_return@);
        let n = node_counter.next();
        match n {
            LambdaNode::Lambda => {
                if !node_counter.has_next() {
                    return Err(ParseError::UnexpectedEnd);
                }
                let head = match node_counter.next() {
                    LambdaNode::Var(c) => c,
                    _ => {
                        return Err(ParseError::MissingVariable);
                    },
                };
                if !node_counter.has_next() {
                    return Err(ParseError::UnexpectedEnd);
                }
                if node_counter.next() != LambdaNode::Dot {
                    return Err(ParseError::MissingDot);
                }
                let mut body_mode = Mode::Body;
                if node_counter.has_next() {
                    if node_counter.next() == LambdaNode::LParen {
                        body_mode = Mode::BodyParen;
                    } else {
                        node_counter.step_back();
                    }
                }
                let body = match parse_body_helper(node_counter, body_mode) {
                    Ok(b) => b,
                    Err(e) => {
                        return Err(e);
                    },
                };
                let ghost before = to_return@;
                to_return.push(NotQuiteLambdaToken::Lambda(head, body));
                proof {
                    lemma_inters_push(before, NotQuiteLambdaToken::Lambda(head, body));
                }
            },
            LambdaNode::Dot => {
                return Err(ParseError::StrayDot);
            },
            LambdaNode::Var(v) => {
                let ghost before = to_return@;
                to_return.push(NotQuiteLambdaToken::Var(v));
                proof {
                    lemma_inters_push(before, NotQuiteLambdaToken::Var(v));
                }
            },
            LambdaNode::LParen => {
                let inner = match parse_body_helper(node_counter, Mode::Group) {
                    Ok(b) => b,
                    Err(e) => {
                        return Err(e);
                    },
                };
                let ghost before = to_return@;
                to_return.push(NotQuiteLambdaToken::Brackets(inner));
                proof {
                    lemma_inters_push(before, NotQuiteLambdaToken::Brackets(inner));
                }
            },
            LambdaNode::RParen => {
                match mode {
                    Mode::Top => {
                        return Err(ParseError::ExtraParen);
                    },
                    Mode::Body => {
                        node_counter.step_back();
                        return Ok(to_return);
                    },
                    _ => {
                        return Ok(to_return);
                    },
                }
            },
            LambdaNode::App => {
                let ghost before = to_return@;
                to_return.insert(0, NotQuiteLambdaToken::App);
                proof {
                    assert(to_return@ =~= seq![NotQuiteLambdaToken::App] + before);
                    lemma_inters_front_app(before);
                }
            },
            _ => {
                let ghost before = to_return@;
                let sugar = sugar_node(n);
                to_return.push(sugar);
                proof {
                    lemma_inters_push(before, sugar);
                }
            },
        }
    }
    if mode == Mode::Group {
        Err(ParseError::MissingParen)
    } else {
        Ok(to_return)
    }
}

fn not_quite_to_lambda_token(not_quite: &NotQuiteLambdaToken) -> (r: Result<
    LambdaToken,
    ParseError,
>)
    ensures
        r == convert_spec(inter_of(*not_quite)),
    decreases inter_of(*not_quite), 0nat, 0int,
{
    match not_quite {
        NotQuiteLambdaToken::Var(v) => Ok(LambdaToken::Var(*v)),
        NotQuiteLambdaToken::Lambda(head, body) => match finish_the_job(body) {
            Ok(b) => Ok(LambdaToken::Lambda(*head, Box::new(b))),
            Err(e) => Err(e),
        },
        NotQuiteLambdaToken::Brackets(v) => match finish_the_job(v) {
            Ok(i) => Ok(LambdaToken::Brackets(Box::new(i))),
            Err(e) => Err(e),
        },
        NotQuiteLambdaToken::App => Err(ParseError::UnexpectedEnd),
    }
}

fn resolve_application_nonsense(nodes: &Vec<NotQuiteLambdaToken>, pos: usize) -> (r: Result<
    (LambdaToken, usize),
    ParseError,
>)
    ensures
        ({
            let s = resolve_spec(inters_of(nodes@), pos as int);
            &&& r is Ok <==> s is Ok
            &&& r is Err ==> s == Err::<(LambdaToken, int), ParseError>(r->Err_0)
            &&& r is Ok ==> s->Ok_0 == (r->Ok_0.0, r->Ok_0.1 as int)
        }),
    decreases inters_of(nodes@), 1nat, nodes@.len() - pos,
{
    proof {
        lemma_inters_index(nodes@);
    }
    if pos >= nodes.len() {
        return Err(ParseError::UnexpectedEnd);
    }
    match &nodes[pos] {
        NotQuiteLambdaToken::App => {
            let (f, next) = match resolve_application_nonsense(nodes, pos + 1) {
                Ok(p) => p,
                Err(e) => {
                    return Err(e);
                },
            };
            if next >= nodes.len() {
                return Err(ParseError::UnexpectedEnd);
            }
            match not_quite_to_lambda_token(&nodes[next]) {
                Ok(a) => Ok((LambdaToken::App(Box::new(f), Box::new(a)), next + 1)),
                Err(e) => Err(e),
            }
        },
        n => {
            let f = match not_quite_to_lambda_token(n) {
                Ok(t) => t,
                Err(e) => {
                    return Err(e);
                },
            };
            if pos + 1 >= nodes.len() {
                return Err(ParseError::UnexpectedEnd);
            }
            match not_quite_to_lambda_token(&nodes[pos + 1]) {
                Ok(a) => Ok((LambdaToken::App(Box::new(f), Box::new(a)), pos + 2)),
                Err(e) => Err(e),
            }
        },
    }
}

/// The second stage: turns a sequence of intermediate nodes into a finished term.
fn finish_the_job(half_finished_ast: &Vec<NotQuiteLambdaToken>) -> (r: Result<
    LambdaToken,
    ParseError,
>)
    ensures
        r == finish_spec(inters_of(half_finished_ast@)),
    decreases inters_of(half_finished_ast@), 2nat, 0int,
{
    proof {
        lemma_inters_index(half_finished_ast@);
    }
    if half_finished_ast.len() == 0 {
        return Err(ParseError::UnexpectedEnd);
    }
    match &half_finished_ast[0] {
        NotQuiteLambdaToken::App => match resolve_application_nonsense(half_finished_ast, 1) {
            Ok((t, next)) => if next == half_finished_ast.len() {
                Ok(t)
            } else {
                Err(ParseError::TrailingTerm)
            },
            Err(e) => Err(e),
        },
        n => match not_quite_to_lambda_token(n) {
            Ok(t) => if half_finished_ast.len() == 1 {
                Ok(t)
            } else {
                Err(ParseError::TrailingTerm)
            },
            Err(e) => Err(e),
        },
    }
}

/// Parses a token sequence into a term.
pub fn parse_lexed(lexed_string_to_parse: Vec<LambdaNode>) -> (r: Result<
    Box<LambdaToken>,
    ParseError,
>)
    ensures
        r is Ok <==> parse_tokens_spec(lexed_string_to_parse@) is Ok,
        r is Ok ==> *r->Ok_0 == parse_tokens_spec(lexed_string_to_parse@)->Ok_0,
        r is Err ==> parse_tokens_spec(lexed_string_to_parse@) == Err::<LambdaToken, ParseError>(
            r->Err_0,
        ),
{
    let mut node_counter = NodeCounter::new(lexed_string_to_parse);
    let halfway = match parse_body_helper(&mut node_counter, Mode::Top) {
        Ok(h) => h,
        Err(e) => {
            return Err(e);
        },
    };
    match finish_the_job(&halfway) {
        Ok(t) => Ok(Box::new(t)),
        Err(e) => Err(e),
    }
}

/// Parses a text into a term. Characters that stand for no token are skipped.
pub fn parse_string(string_to_parse: String) -> (r: Result<Box<LambdaToken>, ParseError>)
    ensures
        r is Ok <==> parse_spec(string_to_parse@) is Ok,
        r is Ok ==> *r->Ok_0 == parse_spec(string_to_parse@)->Ok_0,
        r is Err ==> parse_spec(string_to_parse@) == Err::<LambdaToken, ParseError>(r->Err_0),
{
    let lexed_string = lex(string_to_parse.as_str());
    parse_lexed(lexed_string)
}

} // verus!
