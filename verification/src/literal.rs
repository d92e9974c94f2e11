//! Query literals: the values that rows and parameters carry, and their order.

use vstd::prelude::*;
use crate::json::Float;
use crate::json::FloatModel;
use crate::strmap::StrMap;
use crate::text;

verus! {

broadcast use vstd::string::group_string_axioms;

/// A value in a query.
#[derive(Debug, PartialEq)]
pub enum Literal {
    Null,
    Bool(bool),
    Int(i64),
    Float(Float),
    String(String),
    List(Vec<Literal>),
    Object(StrMap<Literal>),
}

pub enum LiteralModel {
    Null,
    Bool(bool),
    Int(i64),
    Float(FloatModel),
    Str(Seq<char>),
    List(Seq<LiteralModel>),
    Object(Seq<(Seq<char>, LiteralModel)>),
}

/// What a literal says.
pub open spec fn literal_model(x: Literal) -> LiteralModel
    decreases x,
{
    match x {
        Literal::Null => LiteralModel::Null,
        Literal::Bool(b) => LiteralModel::Bool(b),
        Literal::Int(i) => LiteralModel::Int(i),
        Literal::Float(f) => LiteralModel::Float(f.deep_view()),
        Literal::String(s) => LiteralModel::Str(s@),
        Literal::List(v) => LiteralModel::List(
            Seq::new(
                v@.len(),
                |i: int|
                    if 0 <= i < v@.len() {
                        literal_model(v@[i])
                    } else {
                        LiteralModel::Null
                    },
            ),
        ),
        Literal::Object(m) => LiteralModel::Object(
            Seq::new(
                m.entries@.len(),
                |i: int|
                    if 0 <= i < m.entries@.len() {
                        (m.entries@[i].0@, literal_model(m.entries@[i].1))
                    } else {
                        (Seq::empty(), LiteralModel::Null)
                    },
            ),
        ),
    }
}

impl DeepView for Literal {
    type V = LiteralModel;

    open spec fn deep_view(&self) -> LiteralModel {
        literal_model(*self)
    }
}

/// A list says the values of its items.
pub broadcast proof fn literal_list_model(v: Vec<Literal>)
    ensures
        #[trigger] literal_model(Literal::List(v)) == LiteralModel::List(v.deep_view()),
{
    assert(literal_model(Literal::List(v))->List_0 =~= v.deep_view());
}

/// An object says its keys with their values.
pub broadcast proof fn literal_object_model(m: StrMap<Literal>)
    ensures
        #[trigger] literal_model(Literal::Object(m)) == LiteralModel::Object(m.deep_view()),
{
    assert(literal_model(Literal::Object(m))->Object_0 =~= m.deep_view());
}

pub broadcast group group_literal_models {
    literal_list_model,
    literal_object_model,
}

/// A list decreases to each of its items.
pub proof fn list_item_is_smaller(x: Literal, i: int)
    requires
        x is List,
        0 <= i < x->List_0@.len(),
    ensures
        decreases_to!(x => x->List_0@[i]),
{
    assert(decreases_to!(x => x->List_0));
    assert(decreases_to!(x->List_0 => x->List_0@));
    assert(decreases_to!(x->List_0@ => x->List_0@[i]));
}

/// An object decreases to each of its values.
pub proof fn object_literal_is_smaller(x: Literal, i: int)
    requires
        x is Object,
        0 <= i < x->Object_0.entries@.len(),
    ensures
        decreases_to!(x => x->Object_0.entries@[i].1),
{
    let m = x->Object_0;
    assert(decreases_to!(x => x->Object_0));
    assert(decreases_to!(m => m.entries));
    assert(decreases_to!(m.entries => m.entries@));
    assert(decreases_to!(m.entries@ => m.entries@[i]));
    assert(decreases_to!(m.entries@[i] => m.entries@[i].1));
}

/// A copy of the literal.
pub fn copy_literal(x: &Literal) -> (r: Literal)
    ensures
        r.deep_view() == x.deep_view(),
    decreases x,
{
    broadcast use group_literal_models;

    match x {
        Literal::Null => Literal::Null,
        Literal::Bool(b) => Literal::Bool(*b),
        Literal::Int(i) => Literal::Int(*i),
        Literal::Float(f) => Literal::Float(f.copy()),
        Literal::String(s) => Literal::String(s.clone()),
        Literal::List(v) => {
            let mut out: Vec<Literal> = Vec::new();
            let mut i: usize = 0;
            while i < v.len()
                invariant
                    *x == Literal::List(*v),
                    0 <= i <= v@.len(),
                    out.deep_view() == v.deep_view().take(i as int),
                decreases v@.len() - i,
            {
                proof {
                    list_item_is_smaller(*x, i as int);
                }
                let item = copy_literal(&v[i]);
                let ghost before = out.deep_view();
                out.push(item);
                assert(out.deep_view() =~= before.push(v.deep_view()[i as int]));
                i += 1;
                assert(out.deep_view() =~= v.deep_view().take(i as int));
            }
            assert(out.deep_view() =~= v.deep_view());
            Literal::List(out)
        },
        Literal::Object(m) => {
            let mut out: Vec<(String, Literal)> = Vec::new();
            let mut i: usize = 0;
            while i < m.entries.len()
                invariant
                    *x == Literal::Object(*m),
                    0 <= i <= m.entries@.len(),
                    out.deep_view() == m.deep_view().take(i as int),
                decreases m.entries@.len() - i,
            {
                proof {
                    object_literal_is_smaller(*x, i as int);
                }
                let value = copy_literal(&m.entries[i].1);
                let ghost before = out.deep_view();
                out.push((m.entries[i].0.clone(), value));
                assert(out.deep_view() =~= before.push(m.deep_view()[i as int]));
                i += 1;
                assert(out.deep_view() =~= m.deep_view().take(i as int));
            }
            assert(out.deep_view() =~= m.deep_view());
            Literal::Object(StrMap { entries: out })
        },
    }
}

/// The debug text of a string: quoted, with escapes for what does not print.
pub uninterp spec fn debug_string(s: Seq<char>) -> Seq<char>;

/// `<str as std::fmt::Debug>` formatting. Which characters print as they are
/// follows the Unicode tables of std, so the result has a name only.
#[verifier::external_body]
pub(crate) fn debug_of(s: &str) -> (r: String)
    ensures
        r@ == debug_string(s@),
{
    format!("{s:?}")
}

/// The debug text of a literal: its variant, and its content in brackets.
pub open spec fn debug_text(x: LiteralModel) -> Seq<char>
    decreases x,
{
    match x {
        LiteralModel::Null => seq!['N', 'u', 'l', 'l'],
        LiteralModel::Bool(b) => seq!['B', 'o', 'o', 'l', '('] + (if b {
            "true"@
        } else {
            "false"@
        }) + seq![')'],
        LiteralModel::Int(i) => seq!['I', 'n', 't', '('] + text::int_text(i as int) + seq![')'],
        LiteralModel::Float(f) => seq!['F', 'l', 'o', 'a', 't', '('] + f.debug + seq![')'],
        LiteralModel::Str(s) => seq!['S', 't', 'r', 'i', 'n', 'g', '('] + debug_string(s) + seq![
            ')',
        ],
        LiteralModel::List(items) => seq!['L', 'i', 's', 't', '(', '['] + debug_items(items) + seq![
            ']',
            ')',
        ],
        LiteralModel::Object(entries) => seq!['O', 'b', 'j', 'e', 'c', 't', '(', '{']
            + debug_entries(entries) + seq!['}', ')'],
    }
}

/// The debug texts of list items, separated by commas.
pub open spec fn debug_items(items: Seq<LiteralModel>) -> Seq<char>
    decreases items,
{
    if items.len() == 0 {
        Seq::empty()
    } else if items.len() == 1 {
        debug_text(items[0])
    } else {
        debug_items(items.drop_last()) + seq![',', ' '] + debug_text(items.last())
    }
}

/// The debug texts of object entries, separated by commas.
pub open spec fn debug_entries(entries: Seq<(Seq<char>, LiteralModel)>) -> Seq<char>
    decreases entries,
{
    if entries.len() == 0 {
        Seq::empty()
    } else if entries.len() == 1 {
        debug_string(entries[0].0) + seq![':', ' '] + debug_text(entries[0].1)
    } else {
        debug_entries(entries.drop_last()) + seq![',', ' '] + debug_string(entries.last().0) + seq![
            ':',
            ' ',
        ] + debug_text(entries.last().1)
    }
}

/// The debug text of a literal.
pub fn render_debug(x: &Literal) -> (r: String)
    ensures
        r@ == debug_text(x.deep_view()),
    decreases x,
{
    broadcast use group_literal_models;

    let mut out = String::new();
    match x {
        Literal::Null => {
            out.push('N');
            out.push('u');
            out.push('l');
            out.push('l');
            assert(out@ =~= debug_text(x.deep_view()));
        },
        Literal::Bool(b) => {
            out.push('B');
            out.push('o');
            out.push('o');
            out.push('l');
            out.push('(');
            out.append(if *b { "true" } else { "false" });
            out.push(')');
            assert(out@ =~= debug_text(x.deep_view()));
        },
        Literal::Int(i) => {
            out.push('I');
            out.push('n');
            out.push('t');
            out.push('(');
            out.append(text::i64_text(*i).as_str());
            out.push(')');
            assert(out@ =~= debug_text(x.deep_view()));
        },
        Literal::Float(f) => {
            out.push('F');
            out.push('l');
            out.push('o');
            out.push('a');
            out.push('t');
            out.push('(');
            out.append(f.debug.as_str());
            out.push(')');
            assert(out@ =~= debug_text(x.deep_view()));
        },
        Literal::String(s) => {
            out.push('S');
            out.push('t');
            out.push('r');
            out.push('i');
            out.push('n');
            out.push('g');
            out.push('(');
            out.append(debug_of(s.as_str()).as_str());
            out.push(')');
            assert(out@ =~= debug_text(x.deep_view()));
        },
        Literal::List(v) => {
            let ghost items = v.deep_view();
            let mut inner = String::new();
            let mut i: usize = 0;
            while i < v.len()
                invariant
                    *x == Literal::List(*v),
                    items == v.deep_view(),
                    0 <= i <= v@.len(),
                    inner@ == debug_items(items.take(i as int)),
                decreases v@.len() - i,
            {
                if i > 0 {
                    inner.push(',');
                    inner.push(' ');
                }
                proof {
                    list_item_is_smaller(*x, i as int);
                }
                inner.append(render_debug(&v[i]).as_str());
                proof {
                    let next = items.take(i + 1);
                    assert(next.drop_last() =~= items.take(i as int));
                    assert(next.last() == items[i as int]);
                    assert(inner@ =~= debug_items(next));
                }
                i += 1;
            }
            assert(items.take(i as int) =~= items);
            out.push('L');
            out.push('i');
            out.push('s');
            out.push('t');
            out.push('(');
            out.push('[');
            out.append(inner.as_str());
            out.push(']');
            out.push(')');
            assert(out@ =~= debug_text(x.deep_view()));
        },
        Literal::Object(m) => {
            let ghost items = m.deep_view();
            let mut inner = String::new();
            let mut i: usize = 0;
            while i < m.entries.len()
                invariant
                    *x == Literal::Object(*m),
                    items == m.deep_view(),
                    0 <= i <= m.entries@.len(),
                    inner@ == debug_entries(items.take(i as int)),
                decreases m.entries@.len() - i,
            {
                if i > 0 {
                    inner.push(',');
                    inner.push(' ');
                }
                inner.append(debug_of(m.entries[i].0.as_str()).as_str());
                inner.push(':');
                inner.push(' ');
                proof {
                    object_literal_is_smaller(*x, i as int);
                }
                inner.append(render_debug(&m.entries[i].1).as_str());
                proof {
                    let next = items.take(i + 1);
                    assert(next.drop_last() =~= items.take(i as int));
                    assert(next.last() == items[i as int]);
                    assert(inner@ =~= debug_entries(next));
                }
                i += 1;
            }
            assert(items.take(i as int) =~= items);
            out.push('O');
            out.push('b');
            out.push('j');
            out.push('e');
            out.push('c');
            out.push('t');
            out.push('(');
            out.push('{');
            out.append(inner.as_str());
            out.push('}');
            out.push(')');
            assert(out@ =~= debug_text(x.deep_view()));
        },
    }
    out
}

/// Are the literals the same value?
pub fn literal_same(a: &Literal, b: &Literal) -> (r: bool)
    ensures
        r == (a.deep_view() == b.deep_view()),
    decreases a,
{
    broadcast use group_literal_models;

    match (a, b) {
        (Literal::Null, Literal::Null) => true,
        (Literal::Bool(x), Literal::Bool(y)) => *x == *y,
        (Literal::Int(x), Literal::Int(y)) => *x == *y,
        (Literal::Float(x), Literal::Float(y)) => x.bits == y.bits && text::text_eq(
            x.text.as_str(),
            y.text.as_str(),
        ) && text::text_eq(x.debug.as_str(), y.debug.as_str()) && x.truncated == y.truncated
            && x.integral == y.integral,
        (Literal::String(x), Literal::String(y)) => text::text_eq(x.as_str(), y.as_str()),
        (Literal::List(x), Literal::List(y)) => {
            if x.len() != y.len() {
                assert(x.deep_view().len() != y.deep_view().len());
                return false;
            }
            let mut i: usize = 0;
            while i < x.len()
                invariant
                    *a == Literal::List(*x),
                    *b == Literal::List(*y),
                    x@.len() == y@.len(),
                    0 <= i <= x@.len(),
                    forall|j: int| 0 <= j < i ==> #[trigger] x.deep_view()[j] == y.deep_view()[j],
                decreases x@.len() - i,
            {
                proof {
                    list_item_is_smaller(*a, i as int);
                    assert(x.deep_view()[i as int] == x@[i as int].deep_view());
                    assert(y.deep_view()[i as int] == y@[i as int].deep_view());
                }
                if !literal_same(&x[i], &y[i]) {
                    proof {
                        literal_list_model(*x);
                        literal_list_model(*y);
                        assert(x.deep_view() != y.deep_view());
                    }
                    return false;
                }
                i += 1;
            }
            assert(x.deep_view() =~= y.deep_view());
            true
        },
        (Literal::Object(x), Literal::Object(y)) => {
            if x.entries.len() != y.entries.len() {
                assert(x.deep_view().len() != y.deep_view().len());
                return false;
            }
            let mut i: usize = 0;
            while i < x.entries.len()
                invariant
                    *a == Literal::Object(*x),
                    *b == Literal::Object(*y),
                    x.entries@.len() == y.entries@.len(),
                    0 <= i <= x.entries@.len(),
                    forall|j: int| 0 <= j < i ==> #[trigger] x.deep_view()[j] == y.deep_view()[j],
                decreases x.entries@.len() - i,
            {
                proof {
                    object_literal_is_smaller(*a, i as int);
                    assert(x.deep_view()[i as int] == x.entries@[i as int].deep_view());
                    assert(y.deep_view()[i as int] == y.entries@[i as int].deep_view());
                }
                if !text::text_eq(x.entries[i].0.as_str(), y.entries[i].0.as_str())
                    || !literal_same(&x.entries[i].1, &y.entries[i].1) {
                    proof {
                        literal_object_model(*x);
                        literal_object_model(*y);
                        assert(x.deep_view() != y.deep_view());
                    }
                    return false;
                }
                i += 1;
            }
            assert(x.deep_view() =~= y.deep_view());
            true
        },
        _ => false,
    }
}

/// Strict order of literals: by value within strings, integers and booleans,
/// else by debug text.
pub open spec fn literal_lt(a: LiteralModel, b: LiteralModel) -> bool {
    match (a, b) {
        (LiteralModel::Str(x), LiteralModel::Str(y)) => text::lex_lt(x, y),
        (LiteralModel::Int(x), LiteralModel::Int(y)) => x < y,
        (LiteralModel::Bool(x), LiteralModel::Bool(y)) => !x && y,
        (LiteralModel::Null, LiteralModel::Null) => false,
        _ => text::lex_lt(debug_text(a), debug_text(b)),
    }
}

/// `a` does not come after `b`.
pub open spec fn literal_le(a: LiteralModel, b: LiteralModel) -> bool {
    !literal_lt(b, a)
}

/// Does `a` come strictly before `b`?
pub fn literal_before(a: &Literal, b: &Literal) -> (r: bool)
    ensures
        r == literal_lt(a.deep_view(), b.deep_view()),
{
    match (a, b) {
        (Literal::String(x), Literal::String(y)) => text::text_lt(x.as_str(), y.as_str()),
        (Literal::Int(x), Literal::Int(y)) => *x < *y,
        (Literal::Bool(x), Literal::Bool(y)) => !*x && *y,
        (Literal::Null, Literal::Null) => false,
        _ => {
            let x = render_debug(a);
            let y = render_debug(b);
            text::text_lt(x.as_str(), y.as_str())
        },
    }
}

/// The first character of each variant's debug text.
spec fn variant_mark(x: LiteralModel) -> char {
    match x {
        LiteralModel::Null => 'N',
        LiteralModel::Bool(_) => 'B',
        LiteralModel::Int(_) => 'I',
        LiteralModel::Float(_) => 'F',
        LiteralModel::Str(_) => 'S',
        LiteralModel::List(_) => 'L',
        LiteralModel::Object(_) => 'O',
    }
}

proof fn debug_text_starts(x: LiteralModel)
    ensures
        debug_text(x).len() > 0,
        debug_text(x)[0] == variant_mark(x),
{
}

proof fn literal_lt_across(a: LiteralModel, b: LiteralModel)
    requires
        variant_mark(a) != variant_mark(b),
    ensures
        literal_lt(a, b) == (variant_mark(a) < variant_mark(b)),
{
    debug_text_starts(a);
    debug_text_starts(b);
}

/// The order of literals is total.
pub proof fn law_literal_order_is_total(a: LiteralModel, b: LiteralModel)
    ensures
        literal_le(a, b) || literal_le(b, a),
{
    if variant_mark(a) != variant_mark(b) {
        literal_lt_across(a, b);
        literal_lt_across(b, a);
    } else if a is Str {
        if text::lex_lt(a->Str_0, b->Str_0) {
            text::lex_lt_asymmetric(a->Str_0, b->Str_0);
        }
    } else if text::lex_lt(debug_text(a), debug_text(b)) {
        text::lex_lt_asymmetric(debug_text(a), debug_text(b));
    }
}

/// The order of literals chains.
pub proof fn law_literal_order_is_transitive(a: LiteralModel, b: LiteralModel, c: LiteralModel)
    requires
        literal_le(a, b),
        literal_le(b, c),
    ensures
        literal_le(a, c),
{
    let (x, y, z) = (variant_mark(a), variant_mark(b), variant_mark(c));
    if x != y {
        literal_lt_across(b, a);
    }
    if y != z {
        literal_lt_across(c, b);
    }
    if x != z {
        literal_lt_across(c, a);
    } else if x == y {
        if a is Str {
            text::lex_le_transitive(a->Str_0, b->Str_0, c->Str_0);
        } else if a is Float || a is List || a is Object {
            text::lex_le_transitive(debug_text(a), debug_text(b), debug_text(c));
        }
    }
}

/// Literals of one kind come in the order of their values: texts like words, integers and truth
/// values by size.
pub proof fn law_literals_come_by_value(a: Seq<char>, b: Seq<char>, x: i64, y: i64)
    ensures
        literal_lt(LiteralModel::Str(a), LiteralModel::Str(b)) <==> exists|k: int|
            #[trigger] text::first_differs_at(a, b, k),
        literal_lt(LiteralModel::Int(x), LiteralModel::Int(y)) <==> x < y,
        literal_lt(LiteralModel::Bool(false), LiteralModel::Bool(true)),
        !literal_lt(LiteralModel::Bool(true), LiteralModel::Bool(false)),
{
    text::law_texts_compare_like_words(a, b);
}

} // verus!
