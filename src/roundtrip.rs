//! Printing a reduced term and parsing the text back.
use vstd::prelude::*;
use crate::eval::{depth, is_normal, lemma_reduce_gives_normal, reduce_fuel};
use crate::intermediate::Inter;
use crate::lexer::{lex_spec, token_of};
use crate::parser::{
    convert_spec, finish_spec, group_spec, parse_spec, parse_tokens_spec, resolve_spec, Mode,
};
use crate::render::{render, LAMBDA_SIGN};
use crate::syntax::{LambdaNode, LambdaToken, ParseError};

verus! {

/// A character that the lexer reads as a variable.
pub open spec fn is_name(c: char) -> bool {
    'a' <= c && c <= 'z'
}

/// A term whose text parses back to its own shape: every name is a lowercase letter,
/// there are no parentheses, and no application has an application as its argument
/// (the text of `a (b c)` is `a b c`, which reads as `(a b) c`).
pub open spec fn printable(t: LambdaToken) -> bool
    decreases t,
{
    match t {
        LambdaToken::Var(v) => is_name(v),
        LambdaToken::Lambda(h, b) => is_name(h) && printable(*b),
        LambdaToken::App(f, a) => printable(*f) && printable(*a) && !(*a is App),
        LambdaToken::Brackets(_) => false,
    }
}

/// The tokens of the text of a term.
pub open spec fn render_toks(t: LambdaToken) -> Seq<LambdaNode>
    decreases t,
{
    match t {
        LambdaToken::Var(v) => seq![LambdaNode::Var(v)],
        LambdaToken::Lambda(h, b) => seq![
            LambdaNode::LParen,
            LambdaNode::Lambda,
            LambdaNode::Var(h),
            LambdaNode::Dot,
        ] + render_toks(*b) + seq![LambdaNode::RParen],
        LambdaToken::App(f, a) => render_toks(*f) + seq![LambdaNode::App] + render_toks(*a),
        LambdaToken::Brackets(i) => seq![LambdaNode::LParen] + render_toks(*i) + seq![
            LambdaNode::RParen,
        ],
    }
}

proof fn lemma_lex_append(a: Seq<char>, b: Seq<char>)
    ensures
        lex_spec(a + b) == lex_spec(a) + lex_spec(b),
    decreases b.len(),
{
    if b.len() == 0 {
        assert(a + b =~= a);
        assert(lex_spec(a) + lex_spec(b) =~= lex_spec(a));
    } else {
        assert((a + b).drop_last() =~= a + b.drop_last());
        assert((a + b).last() == b.last());
        lemma_lex_append(a, b.drop_last());
        match token_of(b.last()) {
            Some(t) => {
                assert(lex_spec(a) + lex_spec(b) =~= (lex_spec(a) + lex_spec(b.drop_last())).push(t));
            },
            None => {},
        }
    }
}

proof fn lemma_lex_chars(s: Seq<char>)
    requires
        forall|i: int| 0 <= i < s.len() ==> token_of(#[trigger] s[i]) is Some,
    ensures
        lex_spec(s) == s.map_values(|c: char| token_of(c)->0),
    decreases s.len(),
{
    if s.len() > 0 {
        lemma_lex_chars(s.drop_last());
        assert(s.map_values(|c: char| token_of(c)->0) =~= s.drop_last().map_values(
            |c: char| token_of(c)->0,
        ).push(token_of(s.last())->0));
    }
}

/// The text of a printable term lexes to its tokens.
proof fn lemma_lex_render(t: LambdaToken)
    requires
        printable(t),
    ensures
        lex_spec(render(t)) == render_toks(t),
    decreases t,
{
    match t {
        LambdaToken::Var(v) => {
            lemma_lex_chars(seq![v]);
            assert(seq![v].map_values(|c: char| token_of(c)->0) =~= render_toks(t));
        },
        LambdaToken::Lambda(h, b) => {
            let open = seq!['(', LAMBDA_SIGN, h, '.'];
            let close = seq![')'];
            lemma_lex_render(*b);
            lemma_lex_append(open + render(*b), close);
            lemma_lex_append(open, render(*b));
            lemma_lex_chars(open);
            lemma_lex_chars(close);
            assert(open.map_values(|c: char| token_of(c)->0) =~= seq![
                LambdaNode::LParen,
                LambdaNode::Lambda,
                LambdaNode::Var(h),
                LambdaNode::Dot,
            ]);
            assert(close.map_values(|c: char| token_of(c)->0) =~= seq![LambdaNode::RParen]);
        },
        LambdaToken::App(f, a) => {
            let sp = seq![' '];
            lemma_lex_render(*f);
            lemma_lex_render(*a);
            lemma_lex_append(render(*f) + sp, render(*a));
            lemma_lex_append(render(*f), sp);
            lemma_lex_chars(sp);
            assert(sp.map_values(|c: char| token_of(c)->0) =~= seq![LambdaNode::App]);
        },
        LambdaToken::Brackets(_) => {},
    }
}

/// The nodes that the first stage gives for the text of a term at a level of its own.
pub open spec fn spine_inters(t: LambdaToken) -> Seq<Inter>
    decreases t, 1nat,
{
    match t {
        LambdaToken::App(f, a) => seq![Inter::App] + spine_inters(*f).push(atom_inter(*a)),
        _ => seq![atom_inter(t)],
    }
}

/// The node that the first stage gives for the text of a variable or a lambda.
pub open spec fn atom_inter(t: LambdaToken) -> Inter
    decreases t, 0nat,
{
    match t {
        LambdaToken::Lambda(h, b) => Inter::Group(seq![Inter::Lambda(h, body_inters(*b))]),
        LambdaToken::Var(v) => Inter::Var(v),
        _ => Inter::App,
    }
}

/// The nodes that the first stage gives for the text of a lambda's body.
pub open spec fn body_inters(b: LambdaToken) -> Seq<Inter>
    decreases b, 2nat,
{
    match b {
        LambdaToken::Lambda(h, b2) => seq![Inter::Lambda(h, body_inters(*b2))],
        _ => spine_inters(b),
    }
}

/// `w` stands in `toks` from position `pos` on.
pub open spec fn occurs_at(toks: Seq<LambdaNode>, pos: int, w: Seq<LambdaNode>) -> bool {
    0 <= pos && pos + w.len() <= toks.len() && toks.subrange(pos, pos + w.len()) == w
}

proof fn lemma_occurs_part(toks: Seq<LambdaNode>, pos: int, w: Seq<LambdaNode>, i: int, j: int)
    requires
        occurs_at(toks, pos, w),
        0 <= i <= j <= w.len(),
    ensures
        occurs_at(toks, pos + i, w.subrange(i, j)),
        forall|k: int| i <= k < j ==> toks[pos + k] == #[trigger] w[k],
{
    assert forall|k: int| i <= k < j implies toks[pos + k] == #[trigger] w[k] by {
        assert(toks.subrange(pos, pos + w.len())[k] == toks[pos + k]);
    }
    assert(toks.subrange(pos + i, pos + j) =~= w.subrange(i, j));
}

proof fn lemma_render_toks_start(t: LambdaToken)
    requires
        printable(t),
        is_normal(t),
    ensures
        render_toks(t).len() > 0,
        t is Lambda ==> render_toks(t)[0] == LambdaNode::LParen,
        !(t is Lambda) ==> render_toks(t)[0] is Var,
    decreases t,
{
    if let LambdaToken::App(f, a) = t {
        lemma_render_toks_start(*f);
        lemma_render_toks_start(*a);
    }
}

proof fn lemma_spine(t: LambdaToken, toks: Seq<LambdaNode>, pos: int, m: Mode)
    requires
        printable(t),
        is_normal(t),
        occurs_at(toks, pos, render_toks(t)),
    ensures
        group_spec(toks, pos, m, seq![]) == group_spec(
            toks,
            pos + render_toks(t).len(),
            m,
            spine_inters(t),
        ),
    decreases t, 2nat,
{
    match t {
        LambdaToken::App(f, a) => {
            let rf = render_toks(*f);
            let ra = render_toks(*a);
            let w = render_toks(t);
            assert(w == rf + seq![LambdaNode::App] + ra);
            lemma_occurs_part(toks, pos, w, 0, rf.len() as int);
            assert(w.subrange(0, rf.len() as int) =~= rf);
            lemma_occurs_part(toks, pos, w, rf.len() as int, rf.len() as int + 1);
            lemma_occurs_part(toks, pos, w, rf.len() as int + 1, w.len() as int);
            assert(w.subrange(rf.len() as int + 1, w.len() as int) =~= ra);
            assert(w[rf.len() as int] == LambdaNode::App);
            lemma_spine(*f, toks, pos, m);
            let p1 = pos + rf.len();
            assert(toks[p1] == LambdaNode::App);
            assert(group_spec(toks, p1, m, spine_inters(*f)) == group_spec(
                toks,
                p1 + 1,
                m,
                seq![Inter::App] + spine_inters(*f),
            ));
            assert(is_normal(*a));
            assert(!(*a is Brackets));
            lemma_atom(*a, toks, p1 + 1, m, seq![Inter::App] + spine_inters(*f));
            assert((seq![Inter::App] + spine_inters(*f)).push(atom_inter(*a)) =~= spine_inters(
                t,
            ));
        },
        _ => {
            lemma_atom(t, toks, pos, m, seq![]);
            assert(seq![].push(atom_inter(t)) =~= spine_inters(t));
        },
    }
}

proof fn lemma_atom(a: LambdaToken, toks: Seq<LambdaNode>, pos: int, m: Mode, acc: Seq<Inter>)
    requires
        printable(a),
        is_normal(a),
        a is Var || a is Lambda,
        occurs_at(toks, pos, render_toks(a)),
    ensures
        group_spec(toks, pos, m, acc) == group_spec(
            toks,
            pos + render_toks(a).len(),
            m,
            acc.push(atom_inter(a)),
        ),
    decreases a, 1nat,
{
    let w = render_toks(a);
    lemma_occurs_part(toks, pos, w, 0, w.len() as int);
    match a {
        LambdaToken::Var(v) => {
            assert(w[0] == LambdaNode::Var(v));
            assert(toks[pos] == LambdaNode::Var(v));
        },
        LambdaToken::Lambda(h, b) => {
            let inner = w.subrange(1, w.len() as int);
            assert(inner =~= seq![LambdaNode::Lambda, LambdaNode::Var(h), LambdaNode::Dot]
                + render_toks(*b) + seq![LambdaNode::RParen]);
            lemma_occurs_part(toks, pos, w, 1, w.len() as int);
            assert(w[0] == LambdaNode::LParen);
            assert(toks[pos] == LambdaNode::LParen);
            lemma_lambda(h, *b, toks, pos + 1, Mode::Group, seq![]);
        },
        _ => {},
    }
}

proof fn lemma_lambda(
    h: char,
    b: LambdaToken,
    toks: Seq<LambdaNode>,
    p: int,
    m: Mode,
    acc: Seq<Inter>,
)
    requires
        is_name(h),
        printable(b),
        is_normal(b),
        m == Mode::Group || m == Mode::BodyParen,
        occurs_at(
            toks,
            p,
            seq![LambdaNode::Lambda, LambdaNode::Var(h), LambdaNode::Dot] + render_toks(b) + seq![
                LambdaNode::RParen,
            ],
        ),
    ensures
        group_spec(toks, p, m, acc) == Ok::<(Seq<Inter>, int), ParseError>(
            (acc.push(Inter::Lambda(h, body_inters(b))), p + 3 + render_toks(b).len() + 1),
        ),
    decreases b, 3nat,
{
    let rb = render_toks(b);
    let w = seq![LambdaNode::Lambda, LambdaNode::Var(h), LambdaNode::Dot] + rb + seq![
        LambdaNode::RParen,
    ];
    let end = p + 3 + rb.len();
    lemma_occurs_part(toks, p, w, 0, w.len() as int);
    lemma_render_toks_start(b);
    assert(w[0] == LambdaNode::Lambda);
    assert(w[1] == LambdaNode::Var(h));
    assert(w[2] == LambdaNode::Dot);
    assert(w[3] == rb[0]);
    assert(w[3 + rb.len() as int] == LambdaNode::RParen);
    assert(toks[p] == LambdaNode::Lambda);
    assert(toks[p + 1] == LambdaNode::Var(h));
    assert(toks[p + 2] == LambdaNode::Dot);
    assert(toks[p + 3] == rb[0]);
    assert(toks[end] == LambdaNode::RParen);
    lemma_occurs_part(toks, p, w, 3, 3 + rb.len() as int);
    assert(w.subrange(3, 3 + rb.len() as int) =~= rb);
    match b {
        LambdaToken::Lambda(h2, b2) => {
            let inner = rb.subrange(1, rb.len() as int);
            assert(inner =~= seq![LambdaNode::Lambda, LambdaNode::Var(h2), LambdaNode::Dot]
                + render_toks(*b2) + seq![LambdaNode::RParen]);
            lemma_occurs_part(toks, p + 3, rb, 1, rb.len() as int);
            assert(rb.len() == render_toks(*b2).len() + 5);
            assert(toks[p + 3] == LambdaNode::LParen);
            lemma_lambda(h2, *b2, toks, p + 4, Mode::BodyParen, seq![]);
            assert(seq![].push(Inter::Lambda(h2, body_inters(*b2))) =~= body_inters(b));
            assert(group_spec(toks, p + 4, Mode::BodyParen, seq![]) == Ok::<
                (Seq<Inter>, int),
                ParseError,
            >((body_inters(b), end)));
            let acc2 = acc.push(Inter::Lambda(h, body_inters(b)));
            assert(group_spec(toks, end, m, acc2) == Ok::<(Seq<Inter>, int), ParseError>(
                (acc2, end + 1),
            ));
            assert(group_spec(toks, p, m, acc) == group_spec(toks, end, m, acc2));
        },
        _ => {
            lemma_spine(b, toks, p + 3, Mode::Body);
            assert(group_spec(toks, end, Mode::Body, spine_inters(b)) == Ok::<
                (Seq<Inter>, int),
                ParseError,
            >((spine_inters(b), end)));
            assert(body_inters(b) == spine_inters(b));
            assert(toks[p + 3] != LambdaNode::LParen);
            let acc2 = acc.push(Inter::Lambda(h, body_inters(b)));
            assert(group_spec(toks, end, m, acc2) == Ok::<(Seq<Inter>, int), ParseError>(
                (acc2, end + 1),
            ));
            assert(p < end <= toks.len());
            assert(group_spec(toks, p, m, acc) == group_spec(toks, end, m, acc2));
        },
    }
}

/// The term that the text of a printable term parses to: each lambda outside a
/// lambda body gets the parentheses it was printed with.
pub open spec fn reparsed(t: LambdaToken) -> LambdaToken
    decreases t, 1nat,
{
    match t {
        LambdaToken::Lambda(h, b) => LambdaToken::Brackets(
            Box::new(LambdaToken::Lambda(h, Box::new(body_reparsed(*b)))),
        ),
        LambdaToken::App(f, a) => LambdaToken::App(Box::new(reparsed(*f)), Box::new(reparsed(*a))),
        _ => t,
    }
}

/// The term that the text of a lambda's body parses to.
pub open spec fn body_reparsed(b: LambdaToken) -> LambdaToken
    decreases b, 2nat,
{
    match b {
        LambdaToken::Lambda(h, b2) => LambdaToken::Lambda(h, Box::new(body_reparsed(*b2))),
        _ => reparsed(b),
    }
}

proof fn lemma_convert_atom(a: LambdaToken)
    requires
        printable(a),
        is_normal(a),
        a is Var || a is Lambda,
    ensures
        convert_spec(atom_inter(a)) == Ok::<LambdaToken, ParseError>(reparsed(a)),
    decreases a, 1nat,
{
    if let LambdaToken::Lambda(h, b) = a {
        lemma_finish_body(*b);
        let l = Inter::Lambda(h, body_inters(*b));
        assert(seq![l][0] == l);
        assert(finish_spec(seq![l]) == convert_spec(l));
    }
}

proof fn lemma_finish_body(b: LambdaToken)
    requires
        printable(b),
        is_normal(b),
    ensures
        finish_spec(body_inters(b)) == Ok::<LambdaToken, ParseError>(body_reparsed(b)),
    decreases b, 3nat,
{
    match b {
        LambdaToken::Lambda(h2, b2) => {
            lemma_finish_body(*b2);
            let l = Inter::Lambda(h2, body_inters(*b2));
            assert(seq![l][0] == l);
            assert(finish_spec(seq![l]) == convert_spec(l));
        },
        _ => {
            lemma_finish_spine(b);
        },
    }
}

proof fn lemma_finish_spine(t: LambdaToken)
    requires
        printable(t),
        is_normal(t),
    ensures
        finish_spec(spine_inters(t)) == Ok::<LambdaToken, ParseError>(reparsed(t)),
    decreases t, 2nat,
{
    let s = spine_inters(t);
    if t is App {
        assert(s.subrange(0, s.len() as int) =~= s);
        lemma_resolve(t, s, 0);
        assert(s[0] == Inter::App);
    } else {
        lemma_convert_atom(t);
        assert(s[0] == atom_inter(t));
    }
}

proof fn lemma_spine_len(t: LambdaToken)
    ensures
        spine_inters(t).len() >= 1,
        t is App ==> spine_inters(t)[0] == Inter::App,
    decreases t,
{
    if let LambdaToken::App(f, a) = t {
        lemma_spine_len(*f);
    }
}

proof fn lemma_resolve(t: LambdaToken, s: Seq<Inter>, o: int)
    requires
        t is App,
        printable(t),
        is_normal(t),
        0 <= o,
        o + spine_inters(t).len() <= s.len(),
        s.subrange(o, o + spine_inters(t).len()) == spine_inters(t),
    ensures
        resolve_spec(s, o + 1) == Ok::<(LambdaToken, int), ParseError>(
            (reparsed(t), o + spine_inters(t).len()),
        ),
    decreases t, 0nat,
{
    if let LambdaToken::App(f, a) = t {
        let sf = spine_inters(*f);
        let st = spine_inters(t);
        lemma_spine_len(*f);
        assert(st == seq![Inter::App] + sf.push(atom_inter(*a)));
        assert(st.len() == sf.len() + 2);
        assert forall|k: int| 0 <= k < st.len() implies s[o + k] == #[trigger] st[k] by {
            assert(s.subrange(o, o + st.len())[k] == s[o + k]);
        }
        let next = o + 1 + sf.len();
        assert(st[1 + sf.len() as int] == atom_inter(*a));
        assert(s[next] == atom_inter(*a));
        assert(is_normal(*a));
        assert(!(*a is Brackets));
        lemma_convert_atom(*a);
        if *f is App {
            assert(s.subrange(o + 1, o + 1 + sf.len()) =~= sf) by {
                assert forall|k: int| 0 <= k < sf.len() implies s.subrange(
                    o + 1,
                    o + 1 + sf.len(),
                )[k] == sf[k] by {
                    assert(st[1 + k] == sf[k]);
                }
            }
            lemma_resolve(*f, s, o + 1);
            assert(st[1] == Inter::App);
            assert(s[o + 1] == Inter::App);
        } else {
            assert(is_normal(*f));
            assert(*f is Var);
            assert(sf == seq![atom_inter(*f)]);
            assert(st[1] == atom_inter(*f));
            assert(s[o + 1] == atom_inter(*f));
            lemma_convert_atom(*f);
        }
    }
}

proof fn lemma_reduce_reparsed(t: LambdaToken, fuel: nat)
    requires
        printable(t),
        is_normal(t),
        fuel > depth(reparsed(t)),
    ensures
        reduce_fuel(reparsed(t), fuel) == Some(t),
    decreases t, 1nat,
{
    match t {
        LambdaToken::Lambda(h, b) => {
            let l = LambdaToken::Lambda(h, Box::new(body_reparsed(*b)));
            assert(depth(l) == 1 + depth(body_reparsed(*b)));
            assert(depth(reparsed(t)) == 1 + depth(l));
            lemma_reduce_body(*b, (fuel - 2) as nat);
            assert(reduce_fuel(l, (fuel - 1) as nat) == Some(t));
        },
        LambdaToken::App(f, a) => {
            assert(depth(reparsed(*f)) < depth(reparsed(t)));
            assert(depth(reparsed(*a)) < depth(reparsed(t)));
            assert(is_normal(*f) && is_normal(*a));
            lemma_reduce_reparsed(*f, (fuel - 1) as nat);
            lemma_reduce_reparsed(*a, (fuel - 1) as nat);
            assert(*f is Var || *f is App);
        },
        _ => {},
    }
}

proof fn lemma_reduce_body(b: LambdaToken, fuel: nat)
    requires
        printable(b),
        is_normal(b),
        fuel > depth(body_reparsed(b)),
    ensures
        reduce_fuel(body_reparsed(b), fuel) == Some(b),
    decreases b, 2nat,
{
    match b {
        LambdaToken::Lambda(h2, b2) => {
            lemma_reduce_body(*b2, (fuel - 1) as nat);
        },
        _ => {
            lemma_reduce_reparsed(b, fuel);
        },
    }
}

/// Printing a reduced term, parsing the text back and reducing again gives the same
/// term, when its names are lowercase letters and no application in it has an
/// application as its argument; the second reduction needs fuel deeper than the
/// parsed term.
pub proof fn lemma_render_parse_reduce(x: LambdaToken, fuel: nat, fuel2: nat)
    requires
        reduce_fuel(x, fuel) is Some,
        printable(reduce_fuel(x, fuel)->0),
        fuel2 > depth(parse_spec(render(reduce_fuel(x, fuel)->0))->Ok_0),
    ensures
        parse_spec(render(reduce_fuel(x, fuel)->0)) is Ok,
        reduce_fuel(parse_spec(render(reduce_fuel(x, fuel)->0))->Ok_0, fuel2) == reduce_fuel(
            x,
            fuel,
        ),
{
    let y = reduce_fuel(x, fuel)->0;
    lemma_reduce_gives_normal(x, fuel);
    lemma_lex_render(y);
    let toks = render_toks(y);
    assert(toks.subrange(0, toks.len() as int) =~= toks);
    lemma_spine(y, toks, 0, Mode::Top);
    assert(group_spec(toks, toks.len() as int, Mode::Top, spine_inters(y)) == Ok::<
        (Seq<Inter>, int),
        ParseError,
    >((spine_inters(y), toks.len() as int)));
    lemma_finish_spine(y);
    assert(parse_tokens_spec(toks) == Ok::<LambdaToken, ParseError>(reparsed(y)));
    lemma_reduce_reparsed(y, fuel2);
}

} // verus!
