//! The debug texts of JSON values and cells, as error messages show them.

use vstd::prelude::*;
use crate::db::DbValue;
use crate::db::DbValueModel;
use crate::json;
use crate::json::Json;
use crate::json::JsonModel;
use crate::literal;
use crate::strmap::StrMap;
use crate::text;

verus! {

broadcast use vstd::string::group_string_axioms;

/// A truth value as text.
pub open spec fn bool_text(b: bool) -> Seq<char> {
    if b {
        "true"@
    } else {
        "false"@
    }
}

/// The debug text of a JSON value: its kind, and its content.
pub open spec fn json_debug(j: JsonModel) -> Seq<char>
    decreases j,
{
    match j {
        JsonModel::Null => "Null"@,
        JsonModel::Bool(b) => "Bool("@ + bool_text(b) + ")"@,
        JsonModel::Number(n) => "Number("@ + json::number_text(n) + ")"@,
        JsonModel::Str(s) => "String("@ + literal::debug_string(s) + ")"@,
        JsonModel::Array(items) => "Array ["@ + items_debug(items) + "]"@,
        JsonModel::Object(entries) => "Object {"@ + entries_debug(entries) + "}"@,
    }
}

/// The debug texts of items, separated by commas.
pub open spec fn items_debug(items: Seq<JsonModel>) -> Seq<char>
    decreases items,
{
    if items.len() == 0 {
        Seq::empty()
    } else if items.len() == 1 {
        json_debug(items[0])
    } else {
        items_debug(items.drop_last()) + ", "@ + json_debug(items.last())
    }
}

/// The debug texts of entries, separated by commas.
pub open spec fn entries_debug(entries: Seq<(Seq<char>, JsonModel)>) -> Seq<char>
    decreases entries,
{
    if entries.len() == 0 {
        Seq::empty()
    } else if entries.len() == 1 {
        literal::debug_string(entries[0].0) + ": "@ + json_debug(entries[0].1)
    } else {
        entries_debug(entries.drop_last()) + ", "@ + literal::debug_string(entries.last().0)
            + ": "@ + json_debug(entries.last().1)
    }
}

/// The debug text of an object on its own.
pub open spec fn map_debug(entries: Seq<(Seq<char>, JsonModel)>) -> Seq<char> {
    "{"@ + entries_debug(entries) + "}"@
}

fn bool_name(b: bool) -> (r: &'static str)
    ensures
        r@ == bool_text(b),
{
    if b {
        "true"
    } else {
        "false"
    }
}

fn wrapped(head: &str, inner: &str, tail: &str) -> (r: String)
    ensures
        r@ == head@ + inner@ + tail@,
{
    let mut s = head.to_owned();
    s.append(inner);
    s.append(tail);
    s
}

/// The debug text of a JSON value.
pub fn render_json_debug(j: &Json) -> (r: String)
    ensures
        r@ == json_debug(j.deep_view()),
    decreases j,
{
    match j {
        Json::Null => "Null".to_owned(),
        Json::Bool(b) => wrapped("Bool(", bool_name(*b), ")"),
        Json::Number(n) => wrapped("Number(", json::render_number(n).as_str(), ")"),
        Json::Str(s) => wrapped("String(", literal::debug_of(s.as_str()).as_str(), ")"),
        Json::Array(v) => {
            let ghost items = v.deep_view();
            let mut inner = String::new();
            let mut i: usize = 0;
            while i < v.len()
                invariant
                    *j == Json::Array(*v),
                    items == v.deep_view(),
                    0 <= i <= v@.len(),
                    inner@ == items_debug(items.take(i as int)),
                decreases v@.len() - i,
            {
                if i > 0 {
                    inner.append(", ");
                }
                proof {
                    json::array_item_is_smaller(*j, i as int);
                }
                inner.append(render_json_debug(&v[i]).as_str());
                proof {
                    let next = items.take(i + 1);
                    assert(next.drop_last() =~= items.take(i as int));
                    assert(next.last() == v@[i as int].deep_view());
                    assert(inner@ =~= items_debug(next));
                }
                i += 1;
            }
            assert(items.take(i as int) =~= items);
            proof {
                json::json_array_model(*v);
            }
            wrapped("Array [", inner.as_str(), "]")
        },
        Json::Object(m) => {
            let ghost items = m.deep_view();
            let mut inner = String::new();
            let mut i: usize = 0;
            while i < m.entries.len()
                invariant
                    *j == Json::Object(*m),
                    items == m.deep_view(),
                    0 <= i <= m.entries@.len(),
                    inner@ == entries_debug(items.take(i as int)),
                decreases m.entries@.len() - i,
            {
                if i > 0 {
                    inner.append(", ");
                }
                inner.append(literal::debug_of(m.entries[i].0.as_str()).as_str());
                inner.append(": ");
                proof {
                    json::object_value_is_smaller(*j, i as int);
                }
                inner.append(render_json_debug(&m.entries[i].1).as_str());
                proof {
                    let next = items.take(i + 1);
                    assert(next.drop_last() =~= items.take(i as int));
                    assert(next.last() == m.entries@[i as int].deep_view());
                    assert(inner@ =~= entries_debug(next));
                }
                i += 1;
            }
            assert(items.take(i as int) =~= items);
            proof {
                json::json_object_model(*m);
            }
            wrapped("Object {", inner.as_str(), "}")
        },
    }
}

/// The debug text of an object on its own.
pub fn render_map_debug(m: &StrMap<Json>) -> (r: String)
    ensures
        r@ == map_debug(m.deep_view()),
{
    let ghost items = m.deep_view();
    let mut inner = String::new();
    let mut i: usize = 0;
    while i < m.entries.len()
        invariant
            items == m.deep_view(),
            0 <= i <= m.entries@.len(),
            inner@ == entries_debug(items.take(i as int)),
        decreases m.entries@.len() - i,
    {
        if i > 0 {
            inner.append(", ");
        }
        inner.append(literal::debug_of(m.entries[i].0.as_str()).as_str());
        inner.append(": ");
        inner.append(render_json_debug(&m.entries[i].1).as_str());
        proof {
            let next = items.take(i + 1);
            assert(next.drop_last() =~= items.take(i as int));
            assert(next.last() == m.entries@[i as int].deep_view());
            assert(inner@ =~= entries_debug(next));
        }
        i += 1;
    }
    assert(items.take(i as int) =~= items);
    wrapped("{", inner.as_str(), "}")
}

/// The debug text of a cell.
pub open spec fn cell_debug(v: DbValueModel) -> Seq<char> {
    match v {
        DbValueModel::Null => "Null"@,
        DbValueModel::Bool(b) => "Bool("@ + bool_text(b) + ")"@,
        DbValueModel::Int(i) => "Int("@ + text::int_text(i as int) + ")"@,
        DbValueModel::Float(f) => "Float("@ + f.debug + ")"@,
        DbValueModel::Str(s) => "String("@ + literal::debug_string(s) + ")"@,
        DbValueModel::Json(j) => "Json("@ + json_debug(j) + ")"@,
    }
}

/// The debug text of a cell.
pub fn render_cell_debug(v: &DbValue) -> (r: String)
    ensures
        r@ == cell_debug(v.deep_view()),
{
    match v {
        DbValue::Null => "Null".to_owned(),
        DbValue::Bool(b) => wrapped("Bool(", bool_name(*b), ")"),
        DbValue::Int(i) => wrapped("Int(", text::i64_text(*i).as_str(), ")"),
        DbValue::Float(f) => wrapped("Float(", f.debug.as_str(), ")"),
        DbValue::String(s) => wrapped("String(", literal::debug_of(s.as_str()).as_str(), ")"),
        DbValue::Json(j) => wrapped("Json(", render_json_debug(j).as_str(), ")"),
    }
}

} // verus!
