//! Substitution and normal-order beta reduction, bounded by a depth of fuel.
use vstd::prelude::*;
use crate::syntax::{copy_term, LambdaToken};

verus! {

/// `t` with every free occurrence of `name` replaced by `rep`. Bound variables are
/// not renamed, so a free variable of `rep` may be captured.
pub open spec fn subst(t: LambdaToken, name: char, rep: LambdaToken) -> LambdaToken
    decreases t,
{
    match t {
        LambdaToken::Var(v) => if v == name { rep } else { t },
        LambdaToken::Lambda(h, b) => if h == name {
            t
        } else {
            LambdaToken::Lambda(h, Box::new(subst(*b, name, rep)))
        },
        LambdaToken::App(a, b) => LambdaToken::App(
            Box::new(subst(*a, name, rep)),
            Box::new(subst(*b, name, rep)),
        ),
        LambdaToken::Brackets(i) => LambdaToken::Brackets(Box::new(subst(*i, name, rep))),
    }
}

/// The result of reducing `t` when every chain of nested reduction calls is at most
/// `fuel` deep; `None` when that is not enough.
pub open spec fn reduce_fuel(t: LambdaToken, fuel: nat) -> Option<LambdaToken>
    decreases fuel,
{
    if fuel == 0 {
        None
    } else {
        let f = (fuel - 1) as nat;
        match t {
            LambdaToken::Var(_) => Some(t),
            LambdaToken::Lambda(h, b) => match reduce_fuel(*b, f) {
                Some(rb) => Some(LambdaToken::Lambda(h, Box::new(rb))),
                None => None,
            },
            LambdaToken::Brackets(i) => reduce_fuel(*i, f),
            LambdaToken::App(a, b) => match *a {
                LambdaToken::Lambda(h, body) => reduce_fuel(subst(*body, h, *b), f),
                LambdaToken::Var(_) => match reduce_fuel(*b, f) {
                    Some(rb) => Some(LambdaToken::App(a, Box::new(rb))),
                    None => None,
                },
                _ => match reduce_fuel(*a, f) {
                    Some(ra) => match ra {
                        LambdaToken::Lambda(h, body) => reduce_fuel(subst(*body, h, *b), f),
                        _ => match reduce_fuel(*b, f) {
                            Some(rb) => Some(LambdaToken::App(Box::new(ra), Box::new(rb))),
                            None => None,
                        },
                    },
                    None => None,
                },
            },
        }
    }
}

/// A term with no redex and no parentheses left anywhere in it.
pub open spec fn is_normal(t: LambdaToken) -> bool
    decreases t,
{
    match t {
        LambdaToken::Var(_) => true,
        LambdaToken::Lambda(_, b) => is_normal(*b),
        LambdaToken::App(a, b) => !(*a is Lambda) && !(*a is Brackets) && is_normal(*a)
            && is_normal(*b),
        LambdaToken::Brackets(_) => false,
    }
}

/// The number of nodes on the longest path from the root of `t` to a leaf.
pub open spec fn depth(t: LambdaToken) -> nat
    decreases t,
{
    match t {
        LambdaToken::Var(_) => 1,
        LambdaToken::Lambda(_, b) => 1 + depth(*b),
        LambdaToken::App(a, b) => 1 + if depth(*a) >= depth(*b) { depth(*a) } else { depth(*b) },
        LambdaToken::Brackets(i) => 1 + depth(*i),
    }
}

/// A term in normal form reduces to itself, given fuel as deep as the term.
pub proof fn lemma_normal_form_is_fixed(t: LambdaToken, fuel: nat)
    requires
        is_normal(t),
        fuel >= depth(t),
    ensures
        reduce_fuel(t, fuel) == Some(t),
    decreases t,
{
    match t {
        LambdaToken::Var(_) => {},
        LambdaToken::Lambda(_, b) => {
            lemma_normal_form_is_fixed(*b, (fuel - 1) as nat);
        },
        LambdaToken::App(a, b) => {
            lemma_normal_form_is_fixed(*a, (fuel - 1) as nat);
            lemma_normal_form_is_fixed(*b, (fuel - 1) as nat);
        },
        LambdaToken::Brackets(_) => {},
    }
}

/// Whatever reduction returns is in normal form.
pub proof fn lemma_reduce_gives_normal(t: LambdaToken, fuel: nat)
    requires
        reduce_fuel(t, fuel) is Some,
    ensures
        is_normal(reduce_fuel(t, fuel)->0),
    decreases fuel,
{
    let f = (fuel - 1) as nat;
    match t {
        LambdaToken::Var(_) => {},
        LambdaToken::Lambda(_, b) => {
            lemma_reduce_gives_normal(*b, f);
        },
        LambdaToken::Brackets(i) => {
            lemma_reduce_gives_normal(*i, f);
        },
        LambdaToken::App(a, b) => match *a {
            LambdaToken::Lambda(h, body) => {
                lemma_reduce_gives_normal(subst(*body, h, *b), f);
            },
            LambdaToken::Var(_) => {
                lemma_reduce_gives_normal(*b, f);
                assert(is_normal(*a));
            },
            _ => {
                lemma_reduce_gives_normal(*a, f);
                let ra = reduce_fuel(*a, f)->0;
                if let LambdaToken::Lambda(h, body) = ra {
                    lemma_reduce_gives_normal(subst(*body, h, *b), f);
                } else {
                    lemma_reduce_gives_normal(*b, f);
                    let rb = reduce_fuel(*b, f)->0;
                    assert(!(ra is Brackets));
                    assert(is_normal(LambdaToken::App(Box::new(ra), Box::new(rb))));
                }
            },
        },
    }
}

/// A result of reduction is no deeper than the fuel that reached it.
pub proof fn lemma_reduce_depth(t: LambdaToken, fuel: nat)
    requires
        reduce_fuel(t, fuel) is Some,
    ensures
        depth(reduce_fuel(t, fuel)->0) <= fuel,
    decreases fuel,
{
    let f = (fuel - 1) as nat;
    match t {
        LambdaToken::Var(_) => {},
        LambdaToken::Lambda(_, b) => {
            lemma_reduce_depth(*b, f);
        },
        LambdaToken::Brackets(i) => {
            lemma_reduce_depth(*i, f);
        },
        LambdaToken::App(a, b) => match *a {
            LambdaToken::Lambda(h, body) => {
                lemma_reduce_depth(subst(*body, h, *b), f);
            },
            LambdaToken::Var(_) => {
                lemma_reduce_depth(*b, f);
                assert(depth(*a) == 1);
            },
            _ => {
                lemma_reduce_depth(*a, f);
                let ra = reduce_fuel(*a, f)->0;
                if let LambdaToken::Lambda(h, body) = ra {
                    lemma_reduce_depth(subst(*body, h, *b), f);
                } else {
                    lemma_reduce_depth(*b, f);
                }
            },
        },
    }
}

/// Reducing a result of reduction again, with the same fuel or any fuel as deep as
/// that result, changes nothing.
pub proof fn lemma_reduce_idempotent(x: LambdaToken, fuel: nat, fuel2: nat)
    requires
        reduce_fuel(x, fuel) is Some,
        fuel2 == fuel || fuel2 >= depth(reduce_fuel(x, fuel)->0),
    ensures
        reduce_fuel(reduce_fuel(x, fuel)->0, fuel2) == reduce_fuel(x, fuel),
{
    lemma_reduce_gives_normal(x, fuel);
    lemma_reduce_depth(x, fuel);
    lemma_normal_form_is_fixed(reduce_fuel(x, fuel)->0, fuel2);
}

/// More fuel never changes a result that was reached: the bound decides only
/// whether reduction finishes, never what it finishes with.
pub proof fn lemma_more_fuel_same_result(t: LambdaToken, fuel: nat, more: nat)
    requires
        reduce_fuel(t, fuel) is Some,
        fuel <= more,
    ensures
        reduce_fuel(t, more) == reduce_fuel(t, fuel),
    decreases fuel,
{
    let f = (fuel - 1) as nat;
    let g = (more - 1) as nat;
    match t {
        LambdaToken::Var(_) => {},
        LambdaToken::Lambda(_, b) => {
            lemma_more_fuel_same_result(*b, f, g);
        },
        LambdaToken::Brackets(i) => {
            lemma_more_fuel_same_result(*i, f, g);
        },
        LambdaToken::App(a, b) => match *a {
            LambdaToken::Lambda(h, body) => {
                lemma_more_fuel_same_result(subst(*body, h, *b), f, g);
            },
            LambdaToken::Var(_) => {
                lemma_more_fuel_same_result(*b, f, g);
            },
            _ => {
                lemma_more_fuel_same_result(*a, f, g);
                let ra = reduce_fuel(*a, f)->0;
                if let LambdaToken::Lambda(h, body) = ra {
                    lemma_more_fuel_same_result(subst(*body, h, *b), f, g);
                } else {
                    lemma_more_fuel_same_result(*b, f, g);
                }
            },
        },
    }
}

/// Substitution leaves a variable other than `name` alone, and leaves a lambda
/// that binds `name` whole, whatever its body holds.
pub proof fn lemma_substitute_untouched(v: char, body: LambdaToken, name: char, rep: LambdaToken)
    ensures
        v != name ==> subst(LambdaToken::Var(v), name, rep) == LambdaToken::Var(v),
        subst(LambdaToken::Lambda(name, Box::new(body)), name, rep) == LambdaToken::Lambda(
            name,
            Box::new(body),
        ),
{
}

/// Replaces the free occurrences of `from` in `thing_to_substitute` by `to`.
pub fn substitute(thing_to_substitute: Box<LambdaToken>, from: char, to: &Box<LambdaToken>) -> (r:
    Box<LambdaToken>)
    ensures
        *r == subst(*thing_to_substitute, from, **to),
    decreases thing_to_substitute,
{
    match *thing_to_substitute {
        LambdaToken::Var(v) => {
            if v == from {
                Box::new(copy_term(to))
            } else {
                thing_to_substitute
            }
        },
        LambdaToken::Lambda(head, body) => {
            if head == from {
                Box::new(LambdaToken::Lambda(head, body))
            } else {
                Box::new(LambdaToken::Lambda(head, substitute(body, from, to)))
            }
        },
        LambdaToken::App(a, b) => Box::new(
            LambdaToken::App(substitute(a, from, to), substitute(b, from, to)),
        ),
        LambdaToken::Brackets(i) => Box::new(LambdaToken::Brackets(substitute(i, from, to))),
    }
}

/// Reduces `calc` to its normal form by normal-order beta reduction: the function
/// side of an application is reduced first, and when it is a lambda the argument is
/// substituted as it stands, unreduced; otherwise the argument is reduced in place.
/// Parentheses are dropped, and lambda bodies are reduced too. Reduction may
/// not terminate, so it is bounded: `fuel` limits how deeply reduction calls nest,
/// and `None` is returned when that bound is reached.
pub fn beta_reduce(calc: Box<LambdaToken>, fuel: u64) -> (r: Option<Box<LambdaToken>>)
    ensures
        r is Some <==> reduce_fuel(*calc, fuel as nat) is Some,
        r is Some ==> *r->0 == reduce_fuel(*calc, fuel as nat)->0,
        r is Some ==> is_normal(*r->0),
    decreases fuel,
{
    if fuel == 0 {
        return None;
    }
    proof {
        if reduce_fuel(*calc, fuel as nat) is Some {
            lemma_reduce_gives_normal(*calc, fuel as nat);
        }
    }
    let f = fuel - 1;
    match *calc {
        LambdaToken::Var(v) => Some(Box::new(LambdaToken::Var(v))),
        LambdaToken::Lambda(h, b) => match beta_reduce(b, f) {
            Some(rb) => Some(Box::new(LambdaToken::Lambda(h, rb))),
            None => None,
        },
        LambdaToken::Brackets(i) => beta_reduce(i, f),
        LambdaToken::App(a, b) => match *a {
            LambdaToken::Lambda(h, body) => beta_reduce(substitute(body, h, &b), f),
            LambdaToken::Var(v) => match beta_reduce(b, f) {
                Some(rb) => Some(Box::new(LambdaToken::App(Box::new(LambdaToken::Var(v)), rb))),
                None => None,
            },
            head => match beta_reduce(Box::new(head), f) {
                Some(ra) => match *ra {
                    LambdaToken::Lambda(h2, body2) => beta_reduce(substitute(body2, h2, &b), f),
                    other => match beta_reduce(b, f) {
                        Some(rb) => Some(Box::new(LambdaToken::App(Box::new(other), rb))),
                        None => None,
                    },
                },
                None => None,
            },
        },
    }
}

} // verus!
