//! Printing a term back to text.
use vstd::prelude::*;
use crate::syntax::LambdaToken;

verus! {

/// The lambda sign that the renderer writes before a bound variable.
pub const LAMBDA_SIGN: char = '\u{3bb}';

/// The text of `t`: a lambda is always wrapped in parentheses, an application is
/// its two sides joined by one space, with no parentheses added.
pub open spec fn render(t: LambdaToken) -> Seq<char>
    decreases t,
{
    match t {
        LambdaToken::Var(v) => seq![v],
        LambdaToken::Lambda(h, b) => seq!['(', LAMBDA_SIGN, h, '.'] + render(*b) + seq![')'],
        LambdaToken::App(a, b) => render(*a) + seq![' '] + render(*b),
        LambdaToken::Brackets(i) => seq!['('] + render(*i) + seq![')'],
    }
}

fn render_into(t: &LambdaToken, out: &mut Vec<char>)
    ensures
        final(out)@ == old(out)@ + render(*t),
    decreases t,
{
    match t {
        LambdaToken::Var(v) => {
            out.push(*v);
        },
        LambdaToken::Lambda(h, b) => {
            out.push('(');
            out.push(LAMBDA_SIGN);
            out.push(*h);
            out.push('.');
            render_into(b, out);
            out.push(')');
        },
        LambdaToken::App(a, b) => {
            render_into(a, out);
            out.push(' ');
            render_into(b, out);
        },
        LambdaToken::Brackets(i) => {
            out.push('(');
            render_into(i, out);
            out.push(')');
        },
    }
    assert(final(out)@ =~= old(out)@ + render(*t));
}

/// Relies on `String: FromIterator<char>`: collecting characters gives the string
/// of exactly those characters, in order.
#[verifier::external_body]
fn string_from_chars(chars: Vec<char>) -> (r: String)
    ensures
        r@ == chars@,
{
    chars.into_iter().collect()
}

/// Renders a term as text; no reduction is performed.
pub fn display_as_text(calc: Box<LambdaToken>) -> (r: String)
    ensures
        r@ == render(*calc),
{
    let mut out: Vec<char> = Vec::new();
    render_into(&calc, &mut out);
    assert(out@ =~= render(*calc));
    string_from_chars(out)
}

} // verus!
