//! Results of queries: rows of named cells.

use vstd::prelude::*;
use crate::floats;
use crate::json;
use crate::json::Float;
use crate::json::FloatModel;
use crate::json::Json;
use crate::json::JsonModel;
use crate::json::JsonNumber;
use crate::json::NumberModel;
use crate::seqs;
use crate::seqs::Copied;
use crate::strmap;
use crate::strmap::StrMap;
use crate::text;

verus! {

broadcast use vstd::string::group_string_axioms;

/// A cell.
#[derive(Debug, PartialEq)]
pub enum DbValue {
    Null,
    Bool(bool),
    Int(i64),
    Float(Float),
    String(String),
    Json(Json),
}

pub enum DbValueModel {
    Null,
    Bool(bool),
    Int(i64),
    Float(FloatModel),
    Str(Seq<char>),
    Json(JsonModel),
}

impl DeepView for DbValue {
    type V = DbValueModel;

    open spec fn deep_view(&self) -> DbValueModel {
        match self {
            DbValue::Null => DbValueModel::Null,
            DbValue::Bool(x) => DbValueModel::Bool(*x),
            DbValue::Int(x) => DbValueModel::Int(*x),
            DbValue::Float(x) => DbValueModel::Float(x.deep_view()),
            DbValue::String(x) => DbValueModel::Str(x@),
            DbValue::Json(x) => DbValueModel::Json(x.deep_view()),
        }
    }
}

/// A row: cells by column.
#[derive(Debug, PartialEq)]
pub struct Row {
    pub fields: StrMap<DbValue>,
}

pub type RowModel = Seq<(Seq<char>, DbValueModel)>;

impl DeepView for Row {
    type V = RowModel;

    open spec fn deep_view(&self) -> RowModel {
        self.fields.deep_view()
    }
}

impl Default for Row {
    fn default() -> (r: Row)
        ensures
            r.deep_view() == Seq::<(Seq<char>, DbValueModel)>::empty(),
    {
        Row { fields: StrMap::new() }
    }
}

/// A column of a result.
#[derive(Debug, PartialEq)]
pub struct Column {
    pub name: String,
}

impl DeepView for Column {
    type V = Seq<char>;

    open spec fn deep_view(&self) -> Seq<char> {
        self.name@
    }
}

impl Column {
    /// A column of a name.
    pub fn new(name: &str) -> (r: Self)
        ensures
            r.deep_view() == name@,
    {
        Column { name: name.to_owned() }
    }
}

/// The answer to a query.
#[derive(Debug, PartialEq)]
pub struct QueryResult {
    pub columns: Vec<Column>,
    pub rows: Vec<Row>,
}

pub struct QueryResultModel {
    pub columns: Seq<Seq<char>>,
    pub rows: Seq<RowModel>,
}

impl DeepView for QueryResult {
    type V = QueryResultModel;

    open spec fn deep_view(&self) -> QueryResultModel {
        QueryResultModel {
            columns: self.columns.deep_view(),
            rows: self.rows.deep_view(),
        }
    }
}

/// A float as JSON; what is not a finite number is null.
pub open spec fn float_json(f: FloatModel) -> JsonModel {
    if json::is_finite_bits(f.bits) {
        JsonModel::Number(NumberModel::Float(f))
    } else {
        JsonModel::Null
    }
}

/// A float as JSON.
pub fn float_to_json(f: &Float) -> (r: Json)
    ensures
        r.deep_view() == float_json(f.deep_view()),
{
    if (f.bits >> 52) & 0x7ff != 0x7ff {
        Json::Number(JsonNumber::Float(f.copy()))
    } else {
        Json::Null
    }
}

/// A cell as JSON.
pub open spec fn cell_json(v: DbValueModel) -> JsonModel {
    match v {
        DbValueModel::Null => JsonModel::Null,
        DbValueModel::Bool(b) => JsonModel::Bool(b),
        DbValueModel::Int(i) => JsonModel::Number(NumberModel::Int(i)),
        DbValueModel::Float(f) => float_json(f),
        DbValueModel::Str(s) => JsonModel::Str(s),
        DbValueModel::Json(j) => j,
    }
}

impl DbValue {
    /// The cell as JSON.
    pub fn to_json(&self) -> (r: Json)
        ensures
            r.deep_view() == cell_json(self.deep_view()),
    {
        match self {
            DbValue::Null => Json::Null,
            DbValue::Bool(b) => Json::Bool(*b),
            DbValue::Int(i) => Json::Number(JsonNumber::Int(*i)),
            DbValue::Float(f) => float_to_json(f),
            DbValue::String(s) => Json::Str(s.clone()),
            DbValue::Json(j) => j.copied(),
        }
    }
}

/// The text in a cell, plain or JSON.
pub open spec fn text_cell(v: Option<DbValueModel>) -> Option<Seq<char>> {
    match v {
        Some(DbValueModel::Str(s)) => Some(s),
        Some(DbValueModel::Json(JsonModel::Str(s))) => Some(s),
        _ => None,
    }
}

/// The integer in a cell; a float is cut to one.
pub open spec fn int_cell(v: Option<DbValueModel>) -> Option<i64> {
    match v {
        Some(DbValueModel::Int(i)) => Some(i),
        Some(DbValueModel::Float(f)) => Some(f.truncated),
        Some(DbValueModel::Json(JsonModel::Number(NumberModel::Int(i)))) => Some(i),
        _ => None,
    }
}

/// The truth value in a cell.
pub open spec fn bool_cell(v: Option<DbValueModel>) -> Option<bool> {
    match v {
        Some(DbValueModel::Bool(b)) => Some(b),
        Some(DbValueModel::Json(JsonModel::Bool(b))) => Some(b),
        _ => None,
    }
}

/// The id in a cell: a text, or a number as text.
pub open spec fn id_cell(v: Option<DbValueModel>) -> Option<Seq<char>> {
    match v {
        Some(DbValueModel::Str(s)) => Some(s),
        Some(DbValueModel::Int(i)) => Some(text::int_text(i as int)),
        Some(DbValueModel::Json(JsonModel::Str(s))) => Some(s),
        Some(DbValueModel::Json(JsonModel::Number(n))) => Some(json::number_text(n)),
        _ => None,
    }
}

/// The texts among JSON values.
pub open spec fn texts_in(items: Seq<JsonModel>) -> Seq<Seq<char>>
    decreases items.len(),
{
    if items.len() == 0 {
        Seq::empty()
    } else {
        match items.last() {
            JsonModel::Str(s) => texts_in(items.drop_last()).push(s),
            _ => texts_in(items.drop_last()),
        }
    }
}

/// The texts in a cell: those of a JSON array, or a single one.
pub open spec fn texts_cell(v: Option<DbValueModel>) -> Seq<Seq<char>> {
    match v {
        Some(DbValueModel::Json(JsonModel::Array(items))) => texts_in(items),
        Some(DbValueModel::Str(s)) => seq![s],
        _ => Seq::empty(),
    }
}

/// The bits of the number in a cell, as a float.
pub open spec fn float_cell(v: Option<DbValueModel>) -> Option<u64> {
    match v {
        Some(DbValueModel::Float(f)) => Some(f.bits),
        Some(DbValueModel::Int(i)) => Some(floats::int_bits(i as int) as u64),
        Some(DbValueModel::Json(JsonModel::Number(n))) => Some(floats::number_bits(n)),
        _ => None,
    }
}

/// The JSON object in a cell; none is empty.
pub open spec fn object_cell(v: Option<DbValueModel>) -> Seq<(Seq<char>, JsonModel)> {
    match v {
        Some(DbValueModel::Json(JsonModel::Object(m))) => m,
        _ => Seq::empty(),
    }
}

/// The cell of a column.
pub open spec fn cell(row: RowModel, name: Seq<char>) -> Option<DbValueModel> {
    strmap::assoc_get(row, name)
}

/// The text in a column.
pub fn string_field(row: &Row, name: &str) -> (r: Option<String>)
    ensures
        r.deep_view() == text_cell(cell(row.deep_view(), name@)),
{
    match row.fields.get(name) {
        Some(DbValue::String(s)) => Some(s.clone()),
        Some(DbValue::Json(Json::Str(s))) => Some(s.clone()),
        _ => None,
    }
}

/// The integer in a column.
pub fn int_field(row: &Row, name: &str) -> (r: Option<i64>)
    ensures
        r == int_cell(cell(row.deep_view(), name@)),
{
    match row.fields.get(name) {
        Some(DbValue::Int(i)) => Some(*i),
        Some(DbValue::Float(f)) => Some(f.truncated),
        Some(DbValue::Json(Json::Number(JsonNumber::Int(i)))) => Some(*i),
        _ => None,
    }
}

/// The bits of the number in a column, as a float.
pub fn float_field(row: &Row, name: &str) -> (r: Option<u64>)
    ensures
        r == float_cell(cell(row.deep_view(), name@)),
{
    match row.fields.get(name) {
        Some(DbValue::Float(f)) => Some(f.bits),
        Some(DbValue::Int(i)) => Some(floats::integer_bits(*i)),
        Some(DbValue::Json(Json::Number(n))) => Some(floats::bits_of_number(n)),
        _ => None,
    }
}

/// The truth value in a column.
pub fn bool_field(row: &Row, name: &str) -> (r: Option<bool>)
    ensures
        r == bool_cell(cell(row.deep_view(), name@)),
{
    match row.fields.get(name) {
        Some(DbValue::Bool(b)) => Some(*b),
        Some(DbValue::Json(Json::Bool(b))) => Some(*b),
        _ => None,
    }
}

/// The id in a column.
pub fn id_string_field(row: &Row, name: &str) -> (r: Option<String>)
    ensures
        r.deep_view() == id_cell(cell(row.deep_view(), name@)),
{
    match row.fields.get(name) {
        Some(DbValue::String(s)) => Some(s.clone()),
        Some(DbValue::Int(i)) => Some(text::i64_text(*i)),
        Some(DbValue::Json(Json::Str(s))) => Some(s.clone()),
        Some(DbValue::Json(Json::Number(n))) => Some(json::render_number(n)),
        _ => None,
    }
}

/// The texts among JSON values.
pub fn json_texts(items: &Vec<Json>) -> (r: Vec<String>)
    ensures
        r.deep_view() == texts_in(items.deep_view()),
{
    let ghost all = items.deep_view();
    let mut out: Vec<String> = seqs::no_items();
    let mut i: usize = 0;
    while i < items.len()
        invariant
            all == items.deep_view(),
            0 <= i <= items@.len(),
            out.deep_view() == texts_in(all.take(i as int)),
        decreases items@.len() - i,
    {
        proof {
            assert(all.take(i + 1).drop_last() =~= all.take(i as int));
            assert(all.take(i + 1).last() == items@[i as int].deep_view());
        }
        if let Json::Str(s) = &items[i] {
            seqs::push_item(&mut out, s.clone());
        }
        i += 1;
    }
    assert(all.take(i as int) =~= all);
    out
}

/// The texts in a column.
pub fn string_list_field(row: &Row, name: &str) -> (r: Vec<String>)
    ensures
        r.deep_view() == texts_cell(cell(row.deep_view(), name@)),
{
    match row.fields.get(name) {
        Some(DbValue::Json(Json::Array(items))) => {
            proof {
                json::json_array_model(*items);
            }
            json_texts(items)
        },
        Some(DbValue::String(s)) => {
            let mut out: Vec<String> = seqs::no_items();
            seqs::push_item(&mut out, s.clone());
            assert(out.deep_view() =~= seq![s@]);
            out
        },
        _ => seqs::no_items(),
    }
}

/// The JSON object in a column.
pub fn json_object_field(row: &Row, name: &str) -> (r: StrMap<Json>)
    ensures
        r.deep_view() == object_cell(cell(row.deep_view(), name@)),
{
    match row.fields.get(name) {
        Some(DbValue::Json(Json::Object(m))) => {
            proof {
                json::json_object_model(*m);
            }
            m.copied()
        },
        _ => StrMap::new(),
    }
}

/// A cell keeps its value as JSON, but for a float that is not a finite number, which is null.
pub proof fn law_cells_keep_their_values(b: bool, i: i64, s: Seq<char>, j: JsonModel, f: FloatModel)
    ensures
        cell_json(DbValueModel::Null) is Null,
        cell_json(DbValueModel::Bool(b)) == JsonModel::Bool(b),
        cell_json(DbValueModel::Int(i)) == JsonModel::Number(NumberModel::Int(i)),
        cell_json(DbValueModel::Str(s)) == JsonModel::Str(s),
        cell_json(DbValueModel::Json(j)) == j,
        json::is_finite_bits(f.bits) ==> cell_json(DbValueModel::Float(f)) == JsonModel::Number(
            NumberModel::Float(f),
        ),
        !json::is_finite_bits(f.bits) ==> cell_json(DbValueModel::Float(f)) is Null,
{
}

/// A cell and its JSON are read alike: the text, the truth value and the id in the one are those
/// in the other, and so is a whole number.
pub proof fn law_cells_are_read_as_their_json(v: DbValueModel)
    ensures
        ({
            let j = Some(DbValueModel::Json(cell_json(v)));
            &&& text_cell(j) == text_cell(Some(v))
            &&& bool_cell(j) == bool_cell(Some(v))
            &&& !(v is Float) ==> id_cell(j) == id_cell(Some(v)) && int_cell(j) == int_cell(Some(v))
        }),
{
}

/// The texts among values are those values that are texts, in their order.
pub proof fn law_texts_among_values(items: Seq<JsonModel>)
    ensures
        texts_in(items) == items.filter(|j: JsonModel| j is Str).map_values(
            |j: JsonModel| j->Str_0,
        ),
    decreases items.len(),
{
    reveal(Seq::filter);
    let p = |j: JsonModel| j is Str;
    let f = |j: JsonModel| j->Str_0;
    if items.len() > 0 {
        law_texts_among_values(items.drop_last());
        if items.last() is Str {
            assert(items.filter(p).map_values(f) =~= items.drop_last().filter(p).map_values(f).push(
                items.last()->Str_0,
            ));
        }
    } else {
        assert(items.filter(p).map_values(f) =~= Seq::<Seq<char>>::empty());
    }
}

} // verus!
