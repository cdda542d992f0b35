//! The mathematical model of the intermediate tree built by the first parsing stage.
use vstd::prelude::*;
use crate::syntax::NotQuiteLambdaToken;

verus! {

/// An intermediate node, with its children as a sequence.
pub enum Inter {
    Var(char),
    Lambda(char, Seq<Inter>),
    App,
    Group(Seq<Inter>),
}

/// The model of one intermediate node.
pub open spec fn inter_of(n: NotQuiteLambdaToken) -> Inter
    decreases n, 0nat,
{
    match n {
        NotQuiteLambdaToken::Var(c) => Inter::Var(c),
        NotQuiteLambdaToken::Lambda(c, v) => Inter::Lambda(c, inters_of(v@)),
        NotQuiteLambdaToken::App => Inter::App,
        NotQuiteLambdaToken::Brackets(v) => Inter::Group(inters_of(v@)),
    }
}

/// The model of a sequence of intermediate nodes, node by node.
pub open spec fn inters_of(s: Seq<NotQuiteLambdaToken>) -> Seq<Inter>
    decreases s, s.len(),
{
    if s.len() == 0 {
        seq![]
    } else {
        inters_of(s.drop_last()).push(inter_of(s.last()))
    }
}

/// The model of a sequence has one node for each node, each the model of its own.
pub proof fn lemma_inters_index(s: Seq<NotQuiteLambdaToken>)
    ensures
        inters_of(s).len() == s.len(),
        forall|i: int| 0 <= i < s.len() ==> #[trigger] inters_of(s)[i] == inter_of(s[i]),
    decreases s.len(),
{
    if s.len() > 0 {
        lemma_inters_index(s.drop_last());
    }
}

} // verus!
