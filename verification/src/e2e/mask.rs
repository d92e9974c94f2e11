//! Keeping embedding vectors out of reports.

use vstd::prelude::*;
use crate::db;
use crate::db::DbValueModel;
use crate::db::QueryResult;
use crate::db::RowModel;
use crate::json;
use crate::json::Json;
use crate::json::JsonModel;
use crate::json::JsonNumber;
use crate::json::NumberModel;
use crate::literal;
use crate::literal::Literal;
use crate::literal::LiteralModel;
use crate::seqs;
use crate::seqs::Copied;
use crate::strmap::StrMap;
use crate::text;

verus! {

broadcast use vstd::string::group_string_axioms;

/// A list of this many numbers is taken for an embedding.
pub const MIN_VECTOR: usize = 16;

/// Is this the name of something that holds an embedding?
pub open spec fn names_embedding(name: Seq<char>) -> bool {
    let n = text::ascii_lower(name);
    text::has_substring(n, "embedding"@) || n == "emb"@ || n == "vec"@ || n == "vecs"@
        || text::has_suffix(n, "_emb"@) || text::has_suffix(n, "_vec"@) || text::has_suffix(
        n,
        "_embedding"@,
    )
}

/// Is this the name of something that holds an embedding?
pub fn is_masked_embedding_name(name: &str) -> (r: bool)
    ensures
        r == names_embedding(name@),
{
    let n = text::to_ascii_lower(name);
    let s = n.as_str();
    text::text_contains(s, "embedding") || text::text_eq(s, "emb") || text::text_eq(s, "vec")
        || text::text_eq(s, "vecs") || text::text_ends_with(s, "_emb") || text::text_ends_with(
        s,
        "_vec",
    ) || text::text_ends_with(s, "_embedding")
}

pub open spec fn all_numbers(items: Seq<JsonModel>) -> bool {
    forall|i: int| 0 <= i < items.len() ==> (#[trigger] items[i]) is Number
}

pub open spec fn all_arrays(items: Seq<JsonModel>) -> bool {
    forall|i: int| 0 <= i < items.len() ==> (#[trigger] items[i]) is Array
}

/// What stands in a report in place of an embedding.
pub open spec fn mask_of(value: JsonModel) -> JsonModel {
    match value {
        JsonModel::Array(items) => if all_numbers(items) {
            JsonModel::Str("<masked embedding len="@ + text::nat_text(items.len()) + ">"@)
        } else if all_arrays(items) {
            JsonModel::Str("<masked embedding matrix rows="@ + text::nat_text(items.len()) + ">"@)
        } else {
            JsonModel::Str("<masked embedding array len="@ + text::nat_text(items.len()) + ">"@)
        },
        _ => JsonModel::Str("<masked embedding>"@),
    }
}

fn numbers_only(items: &Vec<Json>) -> (r: bool)
    ensures
        r == all_numbers(items.deep_view()),
{
    let ghost all = items.deep_view();
    let mut i: usize = 0;
    while i < items.len()
        invariant
            all == items.deep_view(),
            0 <= i <= items@.len(),
            forall|k: int| 0 <= k < i ==> (#[trigger] all[k]) is Number,
        decreases items@.len() - i,
    {
        assert(all[i as int] == items@[i as int].deep_view());
        match &items[i] {
            Json::Number(_) => {},
            _ => {
                return false;
            },
        }
        i += 1;
    }
    true
}

fn arrays_only(items: &Vec<Json>) -> (r: bool)
    ensures
        r == all_arrays(items.deep_view()),
{
    let ghost all = items.deep_view();
    let mut i: usize = 0;
    while i < items.len()
        invariant
            all == items.deep_view(),
            0 <= i <= items@.len(),
            forall|k: int| 0 <= k < i ==> (#[trigger] all[k]) is Array,
        decreases items@.len() - i,
    {
        assert(all[i as int] == items@[i as int].deep_view());
        match &items[i] {
            Json::Array(_) => {},
            _ => {
                return false;
            },
        }
        i += 1;
    }
    true
}

/// What stands in a report in place of an embedding.
pub fn masked_embedding_value(value: &Json) -> (r: Json)
    ensures
        r.deep_view() == mask_of(value.deep_view()),
{
    match value {
        Json::Array(items) => {
            proof {
                json::json_array_model(*items);
                assert(items.deep_view().len() == items@.len());
            }
            let mut s = if numbers_only(items) {
                "<masked embedding len=".to_owned()
            } else if arrays_only(items) {
                "<masked embedding matrix rows=".to_owned()
            } else {
                "<masked embedding array len=".to_owned()
            };
            s.append(text::usize_text(items.len()).as_str());
            s.append(">");
            Json::Str(s)
        },
        _ => Json::Str("<masked embedding>".to_owned()),
    }
}

/// Is a list long enough, and made of numbers alone?
pub open spec fn vector_like(items: Seq<JsonModel>) -> bool {
    items.len() >= MIN_VECTOR && all_numbers(items)
}

/// Is a list long enough, and made of numbers alone?
pub fn is_numeric_vector(items: &Vec<Json>) -> (r: bool)
    ensures
        r == vector_like(items.deep_view()),
{
    assert(items.deep_view().len() == items@.len());
    items.len() >= MIN_VECTOR && numbers_only(items)
}

/// The value as it stands in a report. Fields that are named like embeddings are
/// masked, and with `positional` so is every list that looks like one.
pub open spec fn sanitized(value: JsonModel, positional: bool) -> JsonModel
    decreases value,
{
    match value {
        JsonModel::Array(items) => if positional && vector_like(items) {
            mask_of(value)
        } else {
            JsonModel::Array(
                Seq::new(
                    items.len(),
                    |i: int|
                        if 0 <= i < items.len() {
                            sanitized(items[i], positional)
                        } else {
                            JsonModel::Null
                        },
                ),
            )
        },
        JsonModel::Object(entries) => JsonModel::Object(
            Seq::new(
                entries.len(),
                |i: int|
                    if 0 <= i < entries.len() {
                        if names_embedding(entries[i].0) {
                            (entries[i].0, mask_of(entries[i].1))
                        } else {
                            (entries[i].0, sanitized(entries[i].1, positional))
                        }
                    } else {
                        (Seq::empty(), JsonModel::Null)
                    },
            ),
        ),
        other => other,
    }
}

/// The value as it stands in a report.
pub fn sanitize_report_json(value: &Json, positional: bool) -> (r: Json)
    ensures
        r.deep_view() == sanitized(value.deep_view(), positional),
    decreases value,
{
    match value {
        Json::Array(items) => {
            proof {
                json::json_array_model(*items);
            }
            if positional && is_numeric_vector(items) {
                return masked_embedding_value(value);
            }
            let ghost want = sanitized(value.deep_view(), positional)->Array_0;
            let mut out: Vec<Json> = seqs::no_items();
            let mut i: usize = 0;
            while i < items.len()
                invariant
                    *value == Json::Array(*items),
                    value.deep_view() == JsonModel::Array(items.deep_view()),
                    sanitized(value.deep_view(), positional) == JsonModel::Array(want),
                    !(positional && vector_like(items.deep_view())),
                    want.len() == items@.len(),
                    0 <= i <= items@.len(),
                    out.deep_view() == want.take(i as int),
                decreases items@.len() - i,
            {
                proof {
                    json::array_item_is_smaller(*value, i as int);
                    assert(items.deep_view()[i as int] == items@[i as int].deep_view());
                }
                seqs::push_item(&mut out, sanitize_report_json(&items[i], positional));
                i += 1;
                assert(out.deep_view() =~= want.take(i as int));
            }
            assert(out.deep_view() =~= want);
            proof {
                json::json_array_model(out);
            }
            Json::Array(out)
        },
        Json::Object(map) => {
            proof {
                json::json_object_model(*map);
            }
            let ghost want = sanitized(value.deep_view(), positional)->Object_0;
            let mut out: Vec<(String, Json)> = seqs::no_items();
            let mut i: usize = 0;
            while i < map.entries.len()
                invariant
                    *value == Json::Object(*map),
                    value.deep_view() == JsonModel::Object(map.deep_view()),
                    sanitized(value.deep_view(), positional) == JsonModel::Object(want),
                    want.len() == map.entries@.len(),
                    0 <= i <= map.entries@.len(),
                    out.deep_view() == want.take(i as int),
                decreases map.entries@.len() - i,
            {
                proof {
                    json::object_value_is_smaller(*value, i as int);
                    assert(map.deep_view()[i as int] == map.entries@[i as int].deep_view());
                }
                let shown = if is_masked_embedding_name(map.entries[i].0.as_str()) {
                    masked_embedding_value(&map.entries[i].1)
                } else {
                    sanitize_report_json(&map.entries[i].1, positional)
                };
                seqs::push_item(&mut out, (map.entries[i].0.clone(), shown));
                i += 1;
                assert(out.deep_view() =~= want.take(i as int));
            }
            assert(out.deep_view() =~= want);
            let m = StrMap { entries: out };
            proof {
                json::json_object_model(m);
            }
            Json::Object(m)
        },
        other => other.copied(),
    }
}

/// Does a value hold a list that looks like an embedding?
pub open spec fn holds_vector(value: JsonModel) -> bool
    decreases value,
{
    match value {
        JsonModel::Array(items) => vector_like(items) || exists|i: int|
            0 <= i < items.len() && holds_vector(#[trigger] items[i]),
        JsonModel::Object(entries) => exists|i: int|
            0 <= i < entries.len() && holds_vector((#[trigger] entries[i]).1),
        _ => false,
    }
}

/// Does a value hold, under a name of an embedding, anything but a text?
pub open spec fn shows_embedding(value: JsonModel) -> bool
    decreases value,
{
    match value {
        JsonModel::Array(items) => exists|i: int|
            0 <= i < items.len() && shows_embedding(#[trigger] items[i]),
        JsonModel::Object(entries) => exists|i: int|
            0 <= i < entries.len() && (shows_embedding((#[trigger] entries[i]).1) || (
            names_embedding(entries[i].0) && !(entries[i].1 is Str))),
        _ => false,
    }
}

/// With positional masking a report holds no list that looks like an embedding.
pub proof fn law_no_vector_is_reported(value: JsonModel)
    ensures
        !holds_vector(sanitized(value, true)),
    decreases value,
{
    match value {
        JsonModel::Array(items) => {
            if !vector_like(items) {
                let out = sanitized(value, true)->Array_0;
                assert forall|i: int| 0 <= i < out.len() implies !holds_vector(
                    #[trigger] out[i],
                ) by {
                    law_no_vector_is_reported(items[i]);
                }
                if vector_like(out) {
                    assert forall|i: int| 0 <= i < items.len() implies (
                    #[trigger] items[i]) is Number by {
                        assert(out[i] is Number);
                        assert(out[i] == sanitized(items[i], true));
                    }
                }
            }
        },
        JsonModel::Object(entries) => {
            let out = sanitized(value, true)->Object_0;
            assert forall|i: int| 0 <= i < out.len() implies !holds_vector(
                (#[trigger] out[i]).1,
            ) by {
                law_no_vector_is_reported(entries[i].1);
            }
        },
        _ => {},
    }
}

/// A report shows nothing but a text under a name of an embedding.
pub proof fn law_no_embedding_is_reported(value: JsonModel, positional: bool)
    ensures
        !shows_embedding(sanitized(value, positional)),
    decreases value,
{
    match value {
        JsonModel::Array(items) => {
            if !(positional && vector_like(items)) {
                let out = sanitized(value, positional)->Array_0;
                assert forall|i: int| 0 <= i < out.len() implies !shows_embedding(
                    #[trigger] out[i],
                ) by {
                    law_no_embedding_is_reported(items[i], positional);
                }
            }
        },
        JsonModel::Object(entries) => {
            let out = sanitized(value, positional)->Object_0;
            assert forall|i: int| 0 <= i < out.len() implies !shows_embedding(
                (#[trigger] out[i]).1,
            ) && !(names_embedding(out[i].0) && !(out[i].1 is Str)) by {
                law_no_embedding_is_reported(entries[i].1, positional);
            }
        },
        _ => {},
    }
}

/// A value under a name, as it stands in a report.
pub open spec fn shown(
    name: Seq<char>,
    value: JsonModel,
    include_embeddings: bool,
    positional: bool,
) -> JsonModel {
    if include_embeddings {
        value
    } else if names_embedding(name) {
        mask_of(value)
    } else {
        sanitized(value, positional)
    }
}

fn show(name: &str, value: Json, include_embeddings: bool, positional: bool) -> (r: Json)
    ensures
        r.deep_view() == shown(name@, value.deep_view(), include_embeddings, positional),
{
    if include_embeddings {
        value
    } else if is_masked_embedding_name(name) {
        masked_embedding_value(&value)
    } else {
        sanitize_report_json(&value, positional)
    }
}

/// A literal as JSON; a float that is not finite is null.
pub open spec fn literal_json(x: LiteralModel) -> JsonModel
    decreases x,
{
    match x {
        LiteralModel::Null => JsonModel::Null,
        LiteralModel::Bool(b) => JsonModel::Bool(b),
        LiteralModel::Int(i) => JsonModel::Number(NumberModel::Int(i)),
        LiteralModel::Float(f) => db::float_json(f),
        LiteralModel::Str(s) => JsonModel::Str(s),
        LiteralModel::List(items) => JsonModel::Array(
            Seq::new(
                items.len(),
                |i: int|
                    if 0 <= i < items.len() {
                        literal_json(items[i])
                    } else {
                        JsonModel::Null
                    },
            ),
        ),
        LiteralModel::Object(entries) => JsonModel::Object(
            Seq::new(
                entries.len(),
                |i: int|
                    if 0 <= i < entries.len() {
                        (entries[i].0, literal_json(entries[i].1))
                    } else {
                        (Seq::empty(), JsonModel::Null)
                    },
            ),
        ),
    }
}

/// A literal as JSON.
pub fn literal_to_json(x: &Literal) -> (r: Json)
    ensures
        r.deep_view() == literal_json(x.deep_view()),
    decreases x,
{
    match x {
        Literal::Null => Json::Null,
        Literal::Bool(b) => Json::Bool(*b),
        Literal::Int(i) => Json::Number(JsonNumber::Int(*i)),
        Literal::Float(f) => db::float_to_json(f),
        Literal::String(s) => Json::Str(s.clone()),
        Literal::List(items) => {
            proof {
                literal::literal_list_model(*items);
            }
            let ghost want = literal_json(x.deep_view())->Array_0;
            let mut out: Vec<Json> = seqs::no_items();
            let mut i: usize = 0;
            while i < items.len()
                invariant
                    *x == Literal::List(*items),
                    x.deep_view() == LiteralModel::List(items.deep_view()),
                    literal_json(x.deep_view()) == JsonModel::Array(want),
                    want.len() == items@.len(),
                    0 <= i <= items@.len(),
                    out.deep_view() == want.take(i as int),
                decreases items@.len() - i,
            {
                proof {
                    literal::list_item_is_smaller(*x, i as int);
                    assert(items.deep_view()[i as int] == items@[i as int].deep_view());
                }
                seqs::push_item(&mut out, literal_to_json(&items[i]));
                i += 1;
                assert(out.deep_view() =~= want.take(i as int));
            }
            assert(out.deep_view() =~= want);
            proof {
                json::json_array_model(out);
            }
            Json::Array(out)
        },
        Literal::Object(map) => {
            proof {
                literal::literal_object_model(*map);
            }
            let ghost want = literal_json(x.deep_view())->Object_0;
            let mut out: Vec<(String, Json)> = seqs::no_items();
            let mut i: usize = 0;
            while i < map.entries.len()
                invariant
                    *x == Literal::Object(*map),
                    x.deep_view() == LiteralModel::Object(map.deep_view()),
                    literal_json(x.deep_view()) == JsonModel::Object(want),
                    want.len() == map.entries@.len(),
                    0 <= i <= map.entries@.len(),
                    out.deep_view() == want.take(i as int),
                decreases map.entries@.len() - i,
            {
                proof {
                    literal::object_literal_is_smaller(*x, i as int);
                    assert(map.deep_view()[i as int] == map.entries@[i as int].deep_view());
                }
                let value = literal_to_json(&map.entries[i].1);
                seqs::push_item(&mut out, (map.entries[i].0.clone(), value));
                i += 1;
                assert(out.deep_view() =~= want.take(i as int));
            }
            assert(out.deep_view() =~= want);
            let m = StrMap { entries: out };
            proof {
                json::json_object_model(m);
            }
            Json::Object(m)
        },
    }
}

/// The parameters of a query as they stand in a report.
pub open spec fn masked_params(
    params: Seq<(Seq<char>, LiteralModel)>,
    include_embeddings: bool,
) -> Seq<(Seq<char>, JsonModel)> {
    Seq::new(
        params.len(),
        |i: int|
            (params[i].0, shown(params[i].0, literal_json(params[i].1), include_embeddings, true)),
    )
}

/// The parameters of a query as they stand in a report.
pub fn mask_cypher_params(params: &StrMap<Literal>, include_embeddings: bool) -> (r: StrMap<Json>)
    ensures
        r.deep_view() == masked_params(params.deep_view(), include_embeddings),
{
    let ghost want = masked_params(params.deep_view(), include_embeddings);
    let mut out: Vec<(String, Json)> = seqs::no_items();
    let mut i: usize = 0;
    while i < params.entries.len()
        invariant
            want == masked_params(params.deep_view(), include_embeddings),
            want.len() == params.entries@.len(),
            0 <= i <= params.entries@.len(),
            out.deep_view() == want.take(i as int),
        decreases params.entries@.len() - i,
    {
        assert(params.deep_view()[i as int] == params.entries@[i as int].deep_view());
        let name = params.entries[i].0.as_str();
        let value = show(name, literal_to_json(&params.entries[i].1), include_embeddings, true);
        seqs::push_item(&mut out, (params.entries[i].0.clone(), value));
        i += 1;
        assert(out.deep_view() =~= want.take(i as int));
    }
    assert(out.deep_view() =~= want);
    StrMap { entries: out }
}

/// The columns that the library adds to a result for itself.
pub open spec fn is_own_column(name: Seq<char>) -> bool {
    name == "sources"@ || name == "score"@
}

/// The cells of a row as they stand in a report.
pub open spec fn row_json(row: RowModel, include_embeddings: bool) -> Seq<(Seq<char>, JsonModel)>
    decreases row.len(),
{
    if row.len() == 0 {
        Seq::empty()
    } else {
        let before = row_json(row.drop_last(), include_embeddings);
        let (name, value) = row.last();
        if is_own_column(name) {
            before
        } else {
            before.push((name, shown(name, db::cell_json(value), include_embeddings, false)))
        }
    }
}

/// The rows of a result as they stand in a report.
pub open spec fn rows_json(rows: Seq<RowModel>, include_embeddings: bool) -> Seq<
    Seq<(Seq<char>, JsonModel)>,
> {
    Seq::new(rows.len(), |i: int| row_json(rows[i], include_embeddings))
}

fn row_to_json(row: &crate::db::Row, include_embeddings: bool) -> (r: StrMap<Json>)
    ensures
        r.deep_view() == row_json(row.deep_view(), include_embeddings),
{
    let ghost all = row.deep_view();
    let mut out: Vec<(String, Json)> = seqs::no_items();
    let mut i: usize = 0;
    while i < row.fields.entries.len()
        invariant
            all == row.deep_view(),
            all.len() == row.fields.entries@.len(),
            0 <= i <= row.fields.entries@.len(),
            out.deep_view() == row_json(all.take(i as int), include_embeddings),
        decreases row.fields.entries@.len() - i,
    {
        proof {
            assert(all.take(i + 1).drop_last() =~= all.take(i as int));
            assert(all.take(i + 1).last() == row.fields.entries@[i as int].deep_view());
        }
        let name = row.fields.entries[i].0.as_str();
        if !text::text_eq(name, "sources") && !text::text_eq(name, "score") {
            let value = show(name, row.fields.entries[i].1.to_json(), include_embeddings, false);
            seqs::push_item(&mut out, (row.fields.entries[i].0.clone(), value));
        }
        i += 1;
    }
    assert(all.take(i as int) =~= all);
    StrMap { entries: out }
}

/// The rows of a result as they stand in a report.
pub fn result_rows_json(result: &QueryResult, include_embeddings: bool) -> (r: Vec<StrMap<Json>>)
    ensures
        r.deep_view() == rows_json(result.deep_view().rows, include_embeddings),
{
    let ghost want = rows_json(result.deep_view().rows, include_embeddings);
    let mut out: Vec<StrMap<Json>> = seqs::no_items();
    let mut i: usize = 0;
    while i < result.rows.len()
        invariant
            want == rows_json(result.deep_view().rows, include_embeddings),
            want.len() == result.rows@.len(),
            0 <= i <= result.rows@.len(),
            out.deep_view() == want.take(i as int),
        decreases result.rows@.len() - i,
    {
        assert(result.deep_view().rows[i as int] == result.rows@[i as int].deep_view());
        seqs::push_item(&mut out, row_to_json(&result.rows[i], include_embeddings));
        i += 1;
        assert(out.deep_view() =~= want.take(i as int));
    }
    assert(out.deep_view() =~= want);
    out
}

/// Does a masked value keep all that is not an embedding: the same shape, the same names, and
/// every plain value as it is?
pub open spec fn keeps_the_rest(value: JsonModel, out: JsonModel, positional: bool) -> bool
    decreases value,
{
    match value {
        JsonModel::Array(items) => if positional && items.len() >= 16 && (forall|i: int|
            0 <= i < items.len() ==> (#[trigger] items[i]) is Number) {
            out is Str
        } else {
            out is Array && out->Array_0.len() == items.len() && forall|i: int|
                0 <= i < items.len() ==> keeps_the_rest(
                    #[trigger] items[i],
                    out->Array_0[i],
                    positional,
                )
        },
        JsonModel::Object(entries) => out is Object && out->Object_0.len() == entries.len()
            && forall|i: int|
            0 <= i < entries.len() ==> (#[trigger] entries[i]).0 == out->Object_0[i].0 && (
            if names_embedding(entries[i].0) {
                out->Object_0[i].1 is Str
            } else {
                keeps_the_rest(entries[i].1, out->Object_0[i].1, positional)
            }),
        other => out == other,
    }
}

/// Masking hides embeddings and nothing else.
pub proof fn law_masking_keeps_the_rest(value: JsonModel, positional: bool)
    ensures
        keeps_the_rest(value, sanitized(value, positional), positional),
    decreases value,
{
    match value {
        JsonModel::Array(items) => {
            if !(positional && vector_like(items)) {
                let out = sanitized(value, positional)->Array_0;
                assert forall|i: int| 0 <= i < items.len() implies keeps_the_rest(
                    #[trigger] items[i],
                    out[i],
                    positional,
                ) by {
                    law_masking_keeps_the_rest(items[i], positional);
                }
            }
        },
        JsonModel::Object(entries) => {
            let out = sanitized(value, positional)->Object_0;
            assert forall|i: int| 0 <= i < entries.len() implies (#[trigger] entries[i]).0
                == out[i].0 && (if names_embedding(entries[i].0) {
                out[i].1 is Str
            } else {
                keeps_the_rest(entries[i].1, out[i].1, positional)
            }) by {
                law_masking_keeps_the_rest(entries[i].1, positional);
            }
        },
        _ => {},
    }
}

/// A name that says embedding, whatever the case of its letters, is that of one; one that says
/// neither embedding nor vector in any way is not.
pub proof fn law_embeddings_are_known_by_name(name: Seq<char>)
    ensures
        text::has_substring(text::ascii_lower(name), "embedding"@) ==> names_embedding(name),
        text::has_suffix(text::ascii_lower(name), "_emb"@) ==> names_embedding(name),
        text::has_suffix(text::ascii_lower(name), "_vec"@) ==> names_embedding(name),
        !text::has_substring(text::ascii_lower(name), "emb"@) && !text::has_substring(
            text::ascii_lower(name),
            "vec"@,
        ) ==> !names_embedding(name),
{
    let n = text::ascii_lower(name);
    reveal_strlit("embedding");
    reveal_strlit("emb");
    reveal_strlit("vec");
    reveal_strlit("vecs");
    reveal_strlit("_emb");
    reveal_strlit("_vec");
    reveal_strlit("_embedding");
    if text::has_substring(n, "embedding"@) {
        let i = choose|i: int| #[trigger] text::occurs_at(n, "embedding"@, i);
        assert(n.subrange(i, i + 3) =~= n.subrange(i, i + 9).subrange(0, 3));
        assert(n.subrange(i, i + 3) =~= "emb"@);
        assert(text::occurs_at(n, "emb"@, i));
    }
    if n == "emb"@ {
        assert(n.subrange(0, 3) =~= "emb"@);
        assert(text::occurs_at(n, "emb"@, 0));
    }
    if n == "vec"@ || n == "vecs"@ {
        assert(n.subrange(0, 3) =~= "vec"@);
        assert(text::occurs_at(n, "vec"@, 0));
    }
    if text::has_suffix(n, "_emb"@) {
        let i = n.len() - 4;
        assert(n.subrange(i + 1, i + 4) =~= n.subrange(i, i + 4).subrange(1, 4));
        assert(n.subrange(i + 1, i + 4) =~= "emb"@);
        assert(text::occurs_at(n, "emb"@, i + 1));
    }
    if text::has_suffix(n, "_vec"@) {
        let i = n.len() - 4;
        assert(n.subrange(i + 1, i + 4) =~= n.subrange(i, i + 4).subrange(1, 4));
        assert(n.subrange(i + 1, i + 4) =~= "vec"@);
        assert(text::occurs_at(n, "vec"@, i + 1));
    }
    if text::has_suffix(n, "_embedding"@) {
        let i = n.len() - 10;
        assert(n.subrange(i + 1, i + 4) =~= n.subrange(i, i + 10).subrange(1, 4));
        assert(n.subrange(i + 1, i + 4) =~= "emb"@);
        assert(text::occurs_at(n, "emb"@, i + 1));
    }
}

/// A list stands for a vector where it is of sixteen numbers or more, and of nothing else.
pub proof fn law_vectors_are_lists_of_numbers(items: Seq<JsonModel>)
    ensures
        vector_like(items) <==> items.len() >= 16 && forall|i: int|
            0 <= i < items.len() ==> (#[trigger] items[i]) is Number,
{
}

/// A reported row holds the cells of its row as JSON, in their order, but for the sources and the
/// score; embeddings are left as they are only where they are wanted.
pub proof fn law_reported_rows_hold_their_cells(row: RowModel, include_embeddings: bool)
    ensures
        ({
            let open = row.filter(|c: (Seq<char>, DbValueModel)| c.0 != "sources"@ && c.0 != "score"@);
            let out = row_json(row, include_embeddings);
            &&& out.len() == open.len()
            &&& forall|i: int| 0 <= i < out.len() ==> (#[trigger] out[i]).0 == open[i].0
            &&& include_embeddings ==> forall|i: int|
                0 <= i < out.len() ==> (#[trigger] out[i]).1 == db::cell_json(open[i].1)
            &&& !include_embeddings ==> forall|i: int|
                0 <= i < out.len() && !names_embedding((#[trigger] out[i]).0) ==> out[i].1
                    == sanitized(db::cell_json(open[i].1), false)
        }),
    decreases row.len(),
{
    reveal(Seq::filter);
    if row.len() > 0 {
        law_reported_rows_hold_their_cells(row.drop_last(), include_embeddings);
    }
}

/// The rows of a report are those of the result, one by one, and so are its parameters, under their
/// names.
pub proof fn law_reports_hold_all(
    rows: Seq<RowModel>,
    params: Seq<(Seq<char>, LiteralModel)>,
    include_embeddings: bool,
    i: int,
)
    ensures
        rows_json(rows, include_embeddings).len() == rows.len(),
        0 <= i < rows.len() ==> rows_json(rows, include_embeddings)[i] == row_json(
            rows[i],
            include_embeddings,
        ),
        masked_params(params, include_embeddings).len() == params.len(),
        0 <= i < params.len() ==> masked_params(params, include_embeddings)[i].0 == params[i].0,
        0 <= i < params.len() && include_embeddings ==> masked_params(
            params,
            include_embeddings,
        )[i].1 == literal_json(params[i].1),
        0 <= i < params.len() && !include_embeddings && !names_embedding(params[i].0)
            ==> masked_params(params, include_embeddings)[i].1 == sanitized(
            literal_json(params[i].1),
            true,
        ),
{
}

/// Are all the floats of a literal finite?
pub open spec fn is_finite(x: LiteralModel) -> bool
    decreases x,
{
    match x {
        LiteralModel::Float(f) => json::is_finite_bits(f.bits),
        LiteralModel::List(items) => forall|i: int|
            0 <= i < items.len() ==> is_finite(#[trigger] items[i]),
        LiteralModel::Object(entries) => forall|i: int|
            0 <= i < entries.len() ==> is_finite((#[trigger] entries[i]).1),
        _ => true,
    }
}

/// A literal is itself again once it has gone through JSON and back.
pub proof fn law_literals_go_through_json(x: LiteralModel)
    requires
        is_finite(x),
    ensures
        crate::ingest::convert::literal_of_json(literal_json(x)) == x,
    decreases x,
{
    match x {
        LiteralModel::List(items) => {
            let back = crate::ingest::convert::literal_of_json(literal_json(x))->List_0;
            assert forall|i: int| 0 <= i < items.len() implies #[trigger] back[i] == items[i] by {
                law_literals_go_through_json(items[i]);
            }
            assert(back =~= items);
        },
        LiteralModel::Object(entries) => {
            let back = crate::ingest::convert::literal_of_json(literal_json(x))->Object_0;
            assert forall|i: int| 0 <= i < entries.len() implies #[trigger] back[i]
                == entries[i] by {
                law_literals_go_through_json(entries[i].1);
            }
            assert(back =~= entries);
        },
        _ => {},
    }
}

} // verus!
