//! Parameterised queries.

use vstd::prelude::*;
use crate::literal::literal_list_model;
use crate::literal::Literal;
use crate::literal::LiteralModel;
use crate::seqs;
use crate::seqs::Copied;
use crate::strmap;
use crate::strmap::StrMap;

verus! {

broadcast use vstd::string::group_string_axioms;

/// A query text with the values that travel beside it.
#[derive(Debug, PartialEq)]
pub struct CypherQuery {
    pub text: String,
    pub params: StrMap<Literal>,
}

pub struct CypherQueryModel {
    pub text: Seq<char>,
    pub params: Seq<(Seq<char>, LiteralModel)>,
}

impl DeepView for CypherQuery {
    type V = CypherQueryModel;

    open spec fn deep_view(&self) -> CypherQueryModel {
        CypherQueryModel { text: self.text@, params: self.params.deep_view() }
    }
}

impl Copied for CypherQuery {
    fn copied(&self) -> (r: Self) {
        CypherQuery { text: self.text.clone(), params: self.params.copied() }
    }
}

/// No parameters.
pub open spec fn no_params() -> Seq<(Seq<char>, LiteralModel)> {
    Seq::empty()
}

/// A single parameter.
pub open spec fn one_param(name: Seq<char>, value: LiteralModel) -> Seq<(Seq<char>, LiteralModel)> {
    strmap::assoc_insert(no_params(), name, value)
}

/// Texts as literals.
pub open spec fn text_literals(texts: Seq<Seq<char>>) -> Seq<LiteralModel> {
    Seq::new(texts.len(), |i: int| LiteralModel::Str(texts[i]))
}

/// Integers as literals.
pub open spec fn int_literals(ints: Seq<i64>) -> Seq<LiteralModel> {
    Seq::new(ints.len(), |i: int| LiteralModel::Int(ints[i]))
}

impl CypherQuery {
    /// A query from its parts.
    pub fn new(text: String, params: StrMap<Literal>) -> (r: Self)
        ensures
            r.deep_view() == (CypherQueryModel { text: text@, params: params.deep_view() }),
    {
        CypherQuery { text, params }
    }
}

/// A parameter list of one entry.
pub fn with_param(name: &str, value: Literal) -> (r: StrMap<Literal>)
    ensures
        r.deep_view() == one_param(name@, value.deep_view()),
        r.wf(),
{
    let mut params: StrMap<Literal> = StrMap::new();
    params.insert(name.to_owned(), value);
    params
}

/// A list literal of texts.
pub fn text_list(texts: &[String]) -> (r: Literal)
    ensures
        r.deep_view() == LiteralModel::List(text_literals(texts.deep_view())),
{
    let ghost all = texts.deep_view();
    let mut out: Vec<Literal> = seqs::no_items();
    let mut i: usize = 0;
    while i < texts.len()
        invariant
            all == texts.deep_view(),
            0 <= i <= texts@.len(),
            out.deep_view() == text_literals(all.take(i as int)),
        decreases texts@.len() - i,
    {
        seqs::push_item(&mut out, Literal::String(texts[i].clone()));
        assert(text_literals(all.take(i + 1)) =~= text_literals(all.take(i as int)).push(
            LiteralModel::Str(all[i as int]),
        ));
        i += 1;
    }
    proof {
        assert(all.take(i as int) =~= all);
        literal_list_model(out);
    }
    Literal::List(out)
}

/// A list literal of integers.
pub fn int_list(ints: &[i64]) -> (r: Literal)
    ensures
        r.deep_view() == LiteralModel::List(int_literals(ints@)),
{
    let mut out: Vec<Literal> = seqs::no_items();
    let mut i: usize = 0;
    while i < ints.len()
        invariant
            0 <= i <= ints@.len(),
            out.deep_view() == int_literals(ints@.take(i as int)),
        decreases ints@.len() - i,
    {
        seqs::push_item(&mut out, Literal::Int(ints[i]));
        assert(int_literals(ints@.take(i + 1)) =~= int_literals(ints@.take(i as int)).push(
            LiteralModel::Int(ints@[i as int]),
        ));
        i += 1;
    }
    proof {
        assert(ints@.take(i as int) =~= ints@);
        literal_list_model(out);
    }
    Literal::List(out)
}

} // verus!
