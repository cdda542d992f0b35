use lambda::{
    beta_reduce, display_as_text, lex, parse_lexed, parse_string, substitute,
    unrecognized_characters, LambdaNode, LambdaToken, ParseError,
};

const FUEL: u64 = 1000;

fn var(c: char) -> Box<LambdaToken> {
    Box::new(LambdaToken::Var(c))
}

fn app(a: Box<LambdaToken>, b: Box<LambdaToken>) -> Box<LambdaToken> {
    Box::new(LambdaToken::App(a, b))
}

fn lam(h: char, b: Box<LambdaToken>) -> Box<LambdaToken> {
    Box::new(LambdaToken::Lambda(h, b))
}

fn parse(s: &str) -> Box<LambdaToken> {
    parse_string(String::from(s)).expect("parses")
}

fn reduce(t: Box<LambdaToken>) -> Box<LambdaToken> {
    beta_reduce(t, FUEL).expect("reaches a normal form")
}

fn eval_text(s: &str) -> String {
    display_as_text(reduce(parse(s)))
}

#[test]
fn parse_single_variable() {
    assert_eq!(parse_string(String::from("a")), Ok(var('a')));
}

#[test]
fn parse_lambda_with_parenthesised_body() {
    // The parenthesis right after the dot opens the body; it makes no group.
    assert_eq!(parse("/x.(x)"), lam('x', var('x')));
    assert_eq!(parse("\\x.(x)"), lam('x', var('x')));
    assert_eq!(parse("\u{3bb}x.(x)"), lam('x', var('x')));
}

#[test]
fn parse_group_keeps_brackets() {
    assert_eq!(parse("(a)"), Box::new(LambdaToken::Brackets(var('a'))));
}

#[test]
fn parse_applications_fold_to_the_left() {
    assert_eq!(parse("a b c"), app(app(var('a'), var('b')), var('c')));
    assert_eq!(
        parse("a (b c)"),
        app(var('a'), Box::new(LambdaToken::Brackets(app(var('b'), var('c')))))
    );
}

#[test]
fn parse_lambda_body_without_parenthesis_runs_to_the_end() {
    assert_eq!(parse("/x.x y"), lam('x', app(var('x'), var('y'))));
}

#[test]
fn parse_sugar_expands_to_church_encodings() {
    assert_eq!(parse("T"), lam('p', lam('q', var('p'))));
    assert_eq!(parse("F"), lam('p', lam('q', var('q'))));
    assert_eq!(parse("&"), lam('p', lam('q', app(app(var('q'), var('p')), var('q')))));
    assert_eq!(parse("|"), lam('p', lam('q', app(app(var('p'), var('p')), var('q')))));
    assert_eq!(parse("T"), parse("/p.(/q.(p))"));
    assert_eq!(parse("&"), parse("/p.(/q.(q p q))"));
}

#[test]
fn reduce_identity_application() {
    let t = app(lam('x', var('x')), var('a'));
    assert_eq!(beta_reduce(t, FUEL), Some(var('a')));
}

#[test]
fn church_true_selects_first() {
    let t = app(app(parse("T"), var('a')), var('b'));
    assert_eq!(display_as_text(reduce(t)), "a");
}

#[test]
fn church_false_selects_second() {
    let t = app(app(parse("F"), var('a')), var('b'));
    assert_eq!(display_as_text(reduce(t)), "b");
    assert_eq!(eval_text("F a b"), "b");
}

#[test]
fn and_of_true_and_false_is_false() {
    let r = reduce(parse("& T F"));
    assert_eq!(r, parse("F"));
    let text = display_as_text(r);
    assert_eq!(text, "(\u{3bb}p.(\u{3bb}q.q))");
    let again = app(app(parse(&text), var('a')), var('b'));
    assert_eq!(display_as_text(reduce(again)), "b");
}

#[test]
fn or_of_false_and_true_is_true() {
    assert_eq!(reduce(parse("| F T")), parse("T"));
}

#[test]
fn render_then_reparse_gives_same_normal_form() {
    for text in ["T a", "(/x.x) (/y.y z)", "a b (/x.x)", "& T F", "/x.(/y.(y x))"] {
        let r = reduce(parse(text));
        let again = reduce(parse(&display_as_text(r.clone())));
        assert_eq!(again, r);
    }
}

#[test]
fn reduce_is_idempotent() {
    for text in ["T a b", "(/x.x x) (/y.y)", "a (/x.(x)) b", "| T F"] {
        let r = reduce(parse(text));
        assert_eq!(reduce(r.clone()), r);
    }
}

#[test]
fn reduce_leaves_normal_forms_alone() {
    let t = app(app(var('a'), var('b')), var('c'));
    assert_eq!(reduce(t.clone()), t);
    let l = lam('x', app(var('x'), lam('y', var('y'))));
    assert_eq!(reduce(l.clone()), l);
}

#[test]
fn reduce_strips_brackets_and_reduces_under_lambda() {
    assert_eq!(reduce(parse("(a)")), var('a'));
    assert_eq!(reduce(parse("/x.((/y.y) x)")), lam('x', var('x')));
    assert_eq!(reduce(parse("a ((/x.x) b)")), app(var('a'), var('b')));
}

#[test]
fn reduce_runs_out_of_fuel_on_divergent_term() {
    assert_eq!(beta_reduce(parse("(/x.x x) (/x.x x)"), FUEL), None);
    assert_eq!(beta_reduce(var('a'), 0), None);
    assert_eq!(beta_reduce(var('a'), 1), Some(var('a')));
}

#[test]
fn substitution_is_not_capture_avoiding() {
    // y is free in the replacement, and the binder y captures it.
    let t = lam('y', var('x'));
    assert_eq!(substitute(t, 'x', &var('y')), lam('y', var('y')));
}

#[test]
fn substitution_leaves_other_variables_and_shadowing_binders() {
    assert_eq!(substitute(var('b'), 'a', &var('z')), var('b'));
    assert_eq!(substitute(var('a'), 'a', &var('z')), var('z'));
    let shadow = lam('a', app(var('a'), var('a')));
    assert_eq!(substitute(shadow.clone(), 'a', &var('z')), shadow);
    let inner = Box::new(LambdaToken::Brackets(app(var('a'), var('b'))));
    assert_eq!(
        substitute(inner, 'a', &var('z')),
        Box::new(LambdaToken::Brackets(app(var('z'), var('b'))))
    );
}

#[test]
fn render_formats() {
    assert_eq!(display_as_text(var('a')), "a");
    assert_eq!(display_as_text(lam('x', var('x'))), "(\u{3bb}x.x)");
    assert_eq!(display_as_text(app(var('a'), app(var('b'), var('c')))), "a b c");
    assert_eq!(display_as_text(Box::new(LambdaToken::Brackets(var('a')))), "(a)");
}

#[test]
fn lexer_drops_unknown_characters() {
    assert_eq!(lex("a1b"), vec![LambdaNode::Var('a'), LambdaNode::Var('b')]);
    assert_eq!(unrecognized_characters("a1b#"), vec!['1', '#']);
    assert_eq!(parse("a1"), var('a'));
    assert_eq!(parse("a 1b"), app(var('a'), var('b')));
    assert_eq!(
        lex("/x.( )T"),
        vec![
            LambdaNode::Lambda,
            LambdaNode::Var('x'),
            LambdaNode::Dot,
            LambdaNode::LParen,
            LambdaNode::App,
            LambdaNode::RParen,
            LambdaNode::True
        ]
    );
}

#[test]
fn parse_lexed_matches_parse_string() {
    assert_eq!(parse_lexed(lex("a b")), parse_string(String::from("a b")));
}

#[test]
fn parse_errors() {
    let err = |s: &str| parse_string(String::from(s)).err();
    assert_eq!(err("/"), Some(ParseError::UnexpectedEnd));
    assert_eq!(err("/x"), Some(ParseError::UnexpectedEnd));
    assert_eq!(err("/(x.x"), Some(ParseError::MissingVariable));
    assert_eq!(err("/x x"), Some(ParseError::MissingDot));
    assert_eq!(err("a.b"), Some(ParseError::StrayDot));
    assert_eq!(err("a)"), Some(ParseError::ExtraParen));
    assert_eq!(err("(a"), Some(ParseError::MissingParen));
    assert_eq!(err(""), Some(ParseError::UnexpectedEnd));
    assert_eq!(err("a  b"), Some(ParseError::UnexpectedEnd));
    assert_eq!(err("/x.()"), Some(ParseError::UnexpectedEnd));
    assert_eq!(err("ab"), Some(ParseError::TrailingTerm));
    assert_eq!(err("(a)b"), Some(ParseError::TrailingTerm));
    assert_eq!(err("a bc"), Some(ParseError::TrailingTerm));
    assert_eq!(err("/x.(xy)"), Some(ParseError::TrailingTerm));
}

#[test]
fn lambda_body_may_end_at_end_of_input() {
    assert_eq!(parse("/x.(x"), lam('x', var('x')));
}

#[test]
fn nested_argument_prints_flat_and_reads_back_left_nested() {
    let t = app(var('a'), app(var('b'), var('c')));
    let text = display_as_text(t.clone());
    assert_eq!(text, "a b c");
    assert_eq!(reduce(parse(&text)), app(app(var('a'), var('b')), var('c')));
}

#[test]
fn unused_divergent_argument_is_never_reduced() {
    assert_eq!(eval_text("T a ((/x.x x) (/x.x x))"), "a");
    assert_eq!(eval_text("(/x.y) ((/x.x x) (/x.x x))"), "y");
    assert_eq!(eval_text("F ((/x.x x) (/x.x x)) b"), "b");
}

#[test]
fn argument_is_substituted_unreduced() {
    // The argument (/z.z) w is copied into both places and reduced there.
    assert_eq!(eval_text("(/x.x x) ((/z.z) w)"), "w w");
}

#[test]
fn reduce_with_the_same_fuel_twice() {
    let t = parse("& T F a b");
    let fuel: u64 = 40;
    let r = beta_reduce(t, fuel).expect("reaches a normal form");
    assert_eq!(beta_reduce(r.clone(), fuel), Some(r));
}
