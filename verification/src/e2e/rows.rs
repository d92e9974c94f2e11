//! Holding rows and answers against what was expected of them.

use vstd::prelude::*;
use crate::db::DbValue;
use crate::db::DbValueModel;
use crate::db::QueryResult;
use crate::db::QueryResultModel;
use crate::db::Row;
use crate::db::RowModel;
use crate::db;
use crate::e2e::mask;
use crate::e2e::types::CellExpectation;
use crate::e2e::types::CellExpectationModel;
use crate::e2e::types::ExpectedRow;
use crate::e2e::types::ExpectedRowModel;
use crate::e2e::types::MatchMode;
use crate::e2e::types::NumericExpectation;
use crate::e2e::types::NumericExpectationModel;
use crate::e2e::types::NumericOp;
use crate::e2e::types::RowCountSpec;
use crate::e2e::types::RowCountSpecModel;
use crate::e2e::types::ValidationSpec;
use crate::e2e::types::ValidationSpecModel;
use crate::e2e::validate;
use crate::embeddings;
use crate::floats;
use crate::graph::canonical;
use crate::json::Json;
use crate::json::JsonModel;
use crate::json::JsonNumber;
use crate::json::NumberModel;
use crate::json;
use crate::seqs;
use crate::strmap::StrMap;
use crate::strmap;
use crate::text;

verus! {

broadcast use vstd::string::group_string_axioms;

/// A cell read as a number, beside an expected one: its bits, and whether the
/// two are closer than a billionth, or at least that far apart. Neither holds
/// where one of them is not a number.
#[derive(Debug, Clone, Copy, PartialEq)]
pub struct NumberReading {
    pub bits: u64,
    pub near: bool,
    pub apart: bool,
}

impl DeepView for NumberReading {
    type V = NumberReading;

    open spec fn deep_view(&self) -> NumberReading {
        *self
    }
}

/// What floating-point arithmetic says of a result: the pairs of an actual and an
/// expected number that are closer than a billionth, and for each numeric
/// expectation the readings of the cells that it looks at.
#[derive(Debug, PartialEq)]
pub struct Readings {
    pub near: Vec<(JsonNumber, JsonNumber)>,
    pub numbers: Vec<Vec<NumberReading>>,
}

pub struct ReadingsModel {
    pub near: Seq<(NumberModel, NumberModel)>,
    pub numbers: Seq<Seq<NumberReading>>,
}

impl DeepView for Readings {
    type V = ReadingsModel;

    open spec fn deep_view(&self) -> ReadingsModel {
        ReadingsModel { near: self.near.deep_view(), numbers: self.numbers.deep_view() }
    }
}

/// Are an actual and an expected number known to be close?
pub open spec fn close(
    near: Seq<(NumberModel, NumberModel)>,
    a: NumberModel,
    e: NumberModel,
) -> bool {
    exists|i: int|
        0 <= i < near.len() && json::numbers_equal((#[trigger] near[i]).0, a)
            && json::numbers_equal(near[i].1, e)
}

fn is_close(near: &Vec<(JsonNumber, JsonNumber)>, a: &JsonNumber, e: &JsonNumber) -> (r: bool)
    ensures
        r == close(near.deep_view(), a.deep_view(), e.deep_view()),
{
    let ghost all = near.deep_view();
    let mut i: usize = 0;
    while i < near.len()
        invariant
            all == near.deep_view(),
            0 <= i <= near@.len(),
            forall|k: int|
                0 <= k < i ==> !(json::numbers_equal((#[trigger] all[k]).0, a.deep_view())
                    && json::numbers_equal(all[k].1, e.deep_view())),
        decreases near@.len() - i,
    {
        assert(all[i as int] == near@[i as int].deep_view());
        if json::number_eq(&near[i].0, a) && json::number_eq(&near[i].1, e) {
            return true;
        }
        i += 1;
    }
    false
}

/// Does a value say what was expected? Numbers may differ a little, and other
/// values may differ in kind where their texts agree.
pub open spec fn says(
    near: Seq<(NumberModel, NumberModel)>,
    actual: JsonModel,
    expected: JsonModel,
) -> bool {
    json::json_equal(actual, expected) || match (actual, expected) {
        (JsonModel::Number(a), JsonModel::Number(e)) => close(near, a, e),
        _ => canonical::plain_text(actual) == canonical::plain_text(expected),
    }
}

/// Does a value say what was expected?
pub fn json_values_equal(
    near: &Vec<(JsonNumber, JsonNumber)>,
    actual: &Json,
    expected: &Json,
) -> (r: bool)
    ensures
        r == says(near.deep_view(), actual.deep_view(), expected.deep_view()),
{
    if json::json_eq(actual, expected) {
        return true;
    }
    match (actual, expected) {
        (Json::Number(a), Json::Number(e)) => is_close(near, a, e),
        _ => {
            let a = canonical::json_to_string(actual);
            let e = canonical::json_to_string(expected);
            text::text_eq(a.as_str(), e.as_str())
        },
    }
}

/// Does a cell hold what was expected?
pub open spec fn holds(
    near: Seq<(NumberModel, NumberModel)>,
    cell: DbValueModel,
    expected: JsonModel,
    mode: MatchMode,
) -> bool {
    match mode {
        MatchMode::Exact => says(near, db::cell_json(cell), expected),
        MatchMode::Contains => text::has_substring(
            text::lowercase(canonical::plain_text(db::cell_json(cell))),
            text::lowercase(canonical::plain_text(expected)),
        ),
    }
}

/// Does a cell hold what was expected?
pub fn cell_matches(
    near: &Vec<(JsonNumber, JsonNumber)>,
    cell: &DbValue,
    expected: &Json,
    mode: MatchMode,
) -> (r: bool)
    ensures
        r == holds(near.deep_view(), cell.deep_view(), expected.deep_view(), mode),
{
    let actual = cell.to_json();
    match mode {
        MatchMode::Exact => json_values_equal(near, &actual, expected),
        MatchMode::Contains => {
            let a = text::to_lowercase(canonical::json_to_string(&actual).as_str());
            let e = text::to_lowercase(canonical::json_to_string(expected).as_str());
            text::text_contains(a.as_str(), e.as_str())
        },
    }
}

/// Does some cell of a row hold what was expected, in the column that is looked
/// at?
pub open spec fn row_holds(
    near: Seq<(NumberModel, NumberModel)>,
    row: RowModel,
    e: CellExpectationModel,
) -> bool {
    if e.column == "*"@ {
        exists|i: int|
            0 <= i < row.len() && holds(near, (#[trigger] row[i]).1, e.value, e.mode)
    } else {
        db::cell(row, e.column) is Some && holds(
            near,
            db::cell(row, e.column)->0,
            e.value,
            e.mode,
        )
    }
}

fn row_has(near: &Vec<(JsonNumber, JsonNumber)>, row: &Row, e: &CellExpectation) -> (r: bool)
    ensures
        r == row_holds(near.deep_view(), row.deep_view(), e.deep_view()),
{
    if text::text_eq(e.column.as_str(), "*") {
        let ghost all = row.deep_view();
        let mut i: usize = 0;
        while i < row.fields.entries.len()
            invariant
                all == row.deep_view(),
                e.column@ == "*"@,
                0 <= i <= row.fields.entries@.len(),
                forall|k: int|
                    0 <= k < i ==> !holds(
                        near.deep_view(),
                        (#[trigger] all[k]).1,
                        e.value.deep_view(),
                        e.mode,
                    ),
            decreases row.fields.entries@.len() - i,
        {
            assert(all[i as int] == row.fields.entries@[i as int].deep_view());
            if cell_matches(near, &row.fields.entries[i].1, &e.value, e.mode) {
                return true;
            }
            i += 1;
        }
        false
    } else {
        match row.fields.get(e.column.as_str()) {
            Some(cell) => cell_matches(near, cell, &e.value, e.mode),
            None => false,
        }
    }
}

/// Does some row hold what was expected?
pub open spec fn result_holds(
    near: Seq<(NumberModel, NumberModel)>,
    rows: Seq<RowModel>,
    e: CellExpectationModel,
) -> bool {
    exists|i: int| 0 <= i < rows.len() && row_holds(near, #[trigger] rows[i], e)
}

/// Does some row hold what was expected?
pub fn result_contains(
    near: &Vec<(JsonNumber, JsonNumber)>,
    result: &QueryResult,
    e: &CellExpectation,
) -> (r: bool)
    ensures
        r == result_holds(near.deep_view(), result.deep_view().rows, e.deep_view()),
{
    let ghost all = result.deep_view().rows;
    let mut i: usize = 0;
    while i < result.rows.len()
        invariant
            all == result.deep_view().rows,
            0 <= i <= result.rows@.len(),
            forall|k: int|
                0 <= k < i ==> !row_holds(near.deep_view(), #[trigger] all[k], e.deep_view()),
        decreases result.rows@.len() - i,
    {
        assert(all[i as int] == result.rows@[i as int].deep_view());
        if row_has(near, &result.rows[i], e) {
            return true;
        }
        i += 1;
    }
    false
}

/// Is a column there, in the header or in some row?
pub open spec fn has_column(result: QueryResultModel) -> spec_fn(Seq<char>) -> bool {
    |x: Seq<char>|
        result.columns.contains(x) || exists|i: int|
            0 <= i < result.rows.len() && db::cell(#[trigger] result.rows[i], x) is Some
}

/// Is a column there, in the header or in some row?
pub fn result_has_column(result: &QueryResult, column: &str) -> (r: bool)
    ensures
        r == has_column(result.deep_view())(column@),
{
    let ghost m = result.deep_view();
    let mut i: usize = 0;
    while i < result.columns.len()
        invariant
            m == result.deep_view(),
            0 <= i <= result.columns@.len(),
            forall|k: int| 0 <= k < i ==> #[trigger] m.columns[k] != column@,
        decreases result.columns@.len() - i,
    {
        assert(m.columns[i as int] == result.columns@[i as int].deep_view());
        if text::text_eq(result.columns[i].name.as_str(), column) {
            return true;
        }
        i += 1;
    }
    assert(!m.columns.contains(column@));
    let mut i: usize = 0;
    while i < result.rows.len()
        invariant
            m == result.deep_view(),
            !m.columns.contains(column@),
            0 <= i <= result.rows@.len(),
            forall|k: int| 0 <= k < i ==> db::cell(#[trigger] m.rows[k], column@) is None,
        decreases result.rows@.len() - i,
    {
        assert(m.rows[i as int] == result.rows@[i as int].deep_view());
        if result.rows[i].fields.contains_key(column) {
            return true;
        }
        i += 1;
    }
    false
}

/// A row has all the expected fields.
pub open spec fn row_fits(
    near: Seq<(NumberModel, NumberModel)>,
    actual: Seq<(Seq<char>, JsonModel)>,
    expected: Seq<(Seq<char>, JsonModel)>,
) -> bool {
    forall|i: int|
        0 <= i < expected.len() ==> {
            let (column, value) = #[trigger] expected[i];
            strmap::assoc_get(actual, column) is Some && says(
                near,
                strmap::assoc_get(actual, column)->0,
                value,
            )
        }
}

/// Has a row all the expected fields?
pub fn row_matches(
    near: &Vec<(JsonNumber, JsonNumber)>,
    actual: &StrMap<Json>,
    expected: &StrMap<Json>,
) -> (r: bool)
    ensures
        r == row_fits(near.deep_view(), actual.deep_view(), expected.deep_view()),
{
    let ghost all = expected.deep_view();
    let mut i: usize = 0;
    while i < expected.entries.len()
        invariant
            all == expected.deep_view(),
            0 <= i <= expected.entries@.len(),
            forall|k: int|
                0 <= k < i ==> {
                    let (column, value) = #[trigger] all[k];
                    strmap::assoc_get(actual.deep_view(), column) is Some && says(
                        near.deep_view(),
                        strmap::assoc_get(actual.deep_view(), column)->0,
                        value,
                    )
                },
        decreases expected.entries@.len() - i,
    {
        assert(all[i as int] == expected.entries@[i as int].deep_view());
        let fits = match actual.get(expected.entries[i].0.as_str()) {
            Some(value) => json_values_equal(near, value, &expected.entries[i].1),
            None => false,
        };
        if !fits {
            return false;
        }
        i += 1;
    }
    true
}

/// The first row at or after a place that fits and is not used yet.
pub open spec fn free_row(
    near: Seq<(NumberModel, NumberModel)>,
    rows: Seq<Seq<(Seq<char>, JsonModel)>>,
    used: Seq<bool>,
    expected: Seq<(Seq<char>, JsonModel)>,
    from: int,
) -> Option<int>
    decreases rows.len() - from,
{
    if from < 0 || from >= rows.len() {
        None
    } else if !used[from] && row_fits(near, rows[from], expected) {
        Some(from)
    } else {
        free_row(near, rows, used, expected, from + 1)
    }
}

/// Which rows are used, and what was not found.
pub struct Matching {
    pub used: Seq<bool>,
    pub errors: Seq<Seq<char>>,
}

/// The complaint about a row that was not found.
pub open spec fn row_complaint(expected: ExpectedRowModel) -> Seq<char> {
    "no row matched expected subset: "@ + json::json_text(JsonModel::Object(expected.fields))
}

/// Each expected row takes the first fitting row that none before it took.
pub open spec fn matching(
    near: Seq<(NumberModel, NumberModel)>,
    rows: Seq<Seq<(Seq<char>, JsonModel)>>,
    expected: Seq<ExpectedRowModel>,
) -> Matching
    decreases expected.len(),
{
    if expected.len() == 0 {
        Matching { used: Seq::new(rows.len(), |i: int| false), errors: Seq::empty() }
    } else {
        let before = matching(near, rows, expected.drop_last());
        match free_row(near, rows, before.used, expected.last().fields, 0) {
            Some(i) => Matching { used: before.used.update(i, true), ..before },
            None => Matching {
                errors: before.errors.push(row_complaint(expected.last())),
                ..before
            },
        }
    }
}

proof fn free_row_is_free(
    near: Seq<(NumberModel, NumberModel)>,
    rows: Seq<Seq<(Seq<char>, JsonModel)>>,
    used: Seq<bool>,
    expected: Seq<(Seq<char>, JsonModel)>,
    from: int,
)
    requires
        0 <= from,
    ensures
        match free_row(near, rows, used, expected, from) {
            Some(i) => from <= i < rows.len() && !used[i] && row_fits(near, rows[i], expected),
            None => true,
        },
    decreases rows.len() - from,
{
    if from < rows.len() && !(!used[from] && row_fits(near, rows[from], expected)) {
        free_row_is_free(near, rows, used, expected, from + 1);
    }
}

/// How many are set.
pub open spec fn set_count(s: Seq<bool>) -> nat
    decreases s.len(),
{
    if s.len() == 0 {
        0
    } else {
        set_count(s.drop_last()) + if s.last() {
            1nat
        } else {
            0nat
        }
    }
}

proof fn count_after_set(s: Seq<bool>, i: int)
    requires
        0 <= i < s.len(),
        !s[i],
    ensures
        set_count(s.update(i, true)) == set_count(s) + 1,
    decreases s.len(),
{
    if i == s.len() - 1 {
        assert(s.update(i, true).drop_last() =~= s.drop_last());
    } else {
        assert(s.update(i, true).drop_last() =~= s.drop_last().update(i, true));
        count_after_set(s.drop_last(), i);
    }
}

proof fn none_set(n: nat)
    ensures
        set_count(Seq::new(n, |i: int| false)) == 0,
    decreases n,
{
    if n > 0 {
        assert(Seq::new(n, |i: int| false).drop_last() =~= Seq::new(
            (n - 1) as nat,
            |i: int| false,
        ));
        none_set((n - 1) as nat);
    }
}

/// No row answers two expectations: there are as many used rows as expectations
/// that were met.
pub proof fn law_rows_are_matched_once(
    near: Seq<(NumberModel, NumberModel)>,
    rows: Seq<Seq<(Seq<char>, JsonModel)>>,
    expected: Seq<ExpectedRowModel>,
)
    ensures
        matching(near, rows, expected).used.len() == rows.len(),
        set_count(matching(near, rows, expected).used) + matching(near, rows, expected).errors.len()
            == expected.len(),
    decreases expected.len(),
{
    if expected.len() == 0 {
        none_set(rows.len());
    } else {
        law_rows_are_matched_once(near, rows, expected.drop_last());
        let before = matching(near, rows, expected.drop_last());
        free_row_is_free(near, rows, before.used, expected.last().fields, 0);
        if let Some(i) = free_row(near, rows, before.used, expected.last().fields, 0) {
            count_after_set(before.used, i);
        }
    }
}

/// What was expected of rows and not found.
pub open spec fn row_errors(
    near: Seq<(NumberModel, NumberModel)>,
    expected: Seq<ExpectedRowModel>,
    rows: Seq<RowModel>,
) -> Seq<Seq<char>> {
    matching(near, mask::rows_json(rows, true), expected).errors
}

fn find_free_row(
    near: &Vec<(JsonNumber, JsonNumber)>,
    rows: &Vec<StrMap<Json>>,
    used: &Vec<bool>,
    expected: &StrMap<Json>,
) -> (r: Option<usize>)
    requires
        used@.len() == rows@.len(),
    ensures
        match r {
            Some(i) => i < rows@.len() && free_row(
                near.deep_view(),
                rows.deep_view(),
                used@,
                expected.deep_view(),
                0,
            ) == Some(i as int),
            None => free_row(
                near.deep_view(),
                rows.deep_view(),
                used@,
                expected.deep_view(),
                0,
            ) is None,
        },
{
    let ghost all = rows.deep_view();
    let mut i: usize = 0;
    while i < rows.len()
        invariant
            all == rows.deep_view(),
            used@.len() == rows@.len(),
            0 <= i <= rows@.len(),
            free_row(near.deep_view(), all, used@, expected.deep_view(), 0) == free_row(
                near.deep_view(),
                all,
                used@,
                expected.deep_view(),
                i as int,
            ),
        decreases rows@.len() - i,
    {
        assert(all[i as int] == rows@[i as int].deep_view());
        if !used[i] && row_matches(near, &rows[i], expected) {
            return Some(i);
        }
        i += 1;
    }
    None
}

/// What was expected of rows and not found.
pub fn validate_expected_rows(
    near: &Vec<(JsonNumber, JsonNumber)>,
    expected: &Vec<ExpectedRow>,
    result: &QueryResult,
) -> (r: Vec<String>)
    ensures
        r.deep_view() == row_errors(
            near.deep_view(),
            expected.deep_view(),
            result.deep_view().rows,
        ),
{
    let rows = mask::result_rows_json(result, true);
    let ghost all = rows.deep_view();
    let ghost want = expected.deep_view();
    let mut used: Vec<bool> = Vec::new();
    let mut i: usize = 0;
    while i < rows.len()
        invariant
            0 <= i <= rows@.len(),
            used@ == Seq::new(i as nat, |k: int| false),
        decreases rows@.len() - i,
    {
        used.push(false);
        i += 1;
        assert(used@ =~= Seq::new(i as nat, |k: int| false));
    }
    let mut errors: Vec<String> = seqs::no_items();
    proof {
        assert(all.len() == rows@.len());
        assert(used@ =~= matching(near.deep_view(), all, want.take(0)).used);
    }
    let mut i: usize = 0;
    while i < expected.len()
        invariant
            all == rows.deep_view(),
            want == expected.deep_view(),
            0 <= i <= expected@.len(),
            used@.len() == rows@.len(),
            used@ == matching(near.deep_view(), all, want.take(i as int)).used,
            errors.deep_view() == matching(near.deep_view(), all, want.take(i as int)).errors,
        decreases expected@.len() - i,
    {
        proof {
            assert(want.take(i + 1).drop_last() =~= want.take(i as int));
            assert(want.take(i + 1).last() == expected@[i as int].deep_view());
            json::json_object_model(expected@[i as int].fields);
        }
        match find_free_row(near, &rows, &used, &expected[i].fields) {
            Some(k) => {
                used.set(k, true);
            },
            None => {
                let mut s = "no row matched expected subset: ".to_owned();
                s.append(render_fields(&expected[i].fields).as_str());
                seqs::push_item(&mut errors, s);
            },
        }
        i += 1;
    }
    assert(want.take(i as int) =~= want);
    errors
}

fn render_fields(fields: &StrMap<Json>) -> (r: String)
    ensures
        r@ == json::json_text(JsonModel::Object(fields.deep_view())),
{
    let j = Json::Object(seqs::Copied::copied(fields));
    proof {
        json::json_object_model(j->Object_0);
    }
    json::render_json(&j)
}

/// The cells that a column names, row by row. The column `*` names them all.
pub open spec fn named_cells(rows: Seq<RowModel>, column: Seq<char>) -> Seq<DbValueModel>
    decreases rows.len(),
{
    if rows.len() == 0 {
        Seq::empty()
    } else {
        let before = named_cells(rows.drop_last(), column);
        if column == "*"@ {
            before + Seq::new(rows.last().len(), |i: int| rows.last()[i].1)
        } else {
            match db::cell(rows.last(), column) {
                Some(v) => before.push(v),
                None => before,
            }
        }
    }
}

/// The cells that a numeric expectation looks at.
pub fn numeric_cells<'a>(result: &'a QueryResult, column: &str) -> (r: Vec<&'a DbValue>)
    ensures
        r.deep_view() == named_cells(result.deep_view().rows, column@),
{
    let ghost all = result.deep_view().rows;
    let every = text::text_eq(column, "*");
    let mut out: Vec<&'a DbValue> = seqs::no_items();
    let mut i: usize = 0;
    while i < result.rows.len()
        invariant
            all == result.deep_view().rows,
            every == (column@ == "*"@),
            0 <= i <= result.rows@.len(),
            out.deep_view() == named_cells(all.take(i as int), column@),
        decreases result.rows@.len() - i,
    {
        let row = &result.rows[i];
        proof {
            assert(all.take(i + 1).drop_last() =~= all.take(i as int));
            assert(all.take(i + 1).last() == row.deep_view());
        }
        if every {
            let ghost before = out.deep_view();
            let ghost cells = Seq::new(row.deep_view().len(), |k: int| row.deep_view()[k].1);
            let mut k: usize = 0;
            while k < row.fields.entries.len()
                invariant
                    0 <= k <= row.fields.entries@.len(),
                    cells == Seq::new(row.deep_view().len(), |k: int| row.deep_view()[k].1),
                    cells.len() == row.fields.entries@.len(),
                    out.deep_view() == before + cells.take(k as int),
                decreases row.fields.entries@.len() - k,
            {
                assert(row.deep_view()[k as int] == row.fields.entries@[k as int].deep_view());
                seqs::push_item(&mut out, &row.fields.entries[k].1);
                k += 1;
                assert(out.deep_view() =~= before + cells.take(k as int));
            }
            assert(cells.take(k as int) =~= cells);
        } else if let Some(v) = row.fields.get(column) {
            seqs::push_item(&mut out, v);
        }
        i += 1;
    }
    assert(all.take(i as int) =~= all);
    out
}

/// Does a reading compare to an expected number as it should?
pub open spec fn compares(reading: NumberReading, op: NumericOp, expected: u64) -> bool {
    let up = embeddings::wide_at_least(reading.bits, expected);
    let down = embeddings::wide_at_least(expected, reading.bits);
    match op {
        NumericOp::Eq => reading.near,
        NumericOp::Neq => reading.apart,
        NumericOp::Gt => up && !down,
        NumericOp::Gte => up,
        NumericOp::Lt => down && !up,
        NumericOp::Lte => down,
    }
}

/// Does a reading compare to an expected number as it should?
pub fn compare_number(reading: NumberReading, op: NumericOp, expected: u64) -> (r: bool)
    ensures
        r == compares(reading, op, expected),
{
    let up = embeddings::double_at_least(reading.bits, expected);
    let down = embeddings::double_at_least(expected, reading.bits);
    match op {
        NumericOp::Eq => reading.near,
        NumericOp::Neq => reading.apart,
        NumericOp::Gt => up && !down,
        NumericOp::Gte => up,
        NumericOp::Lt => down && !up,
        NumericOp::Lte => down,
    }
}

/// Does some reading of those at a place compare as it should?
pub open spec fn satisfied(
    numbers: Seq<Seq<NumberReading>>,
    at: int,
    e: NumericExpectationModel,
) -> bool {
    0 <= at < numbers.len() && exists|i: int|
        0 <= i < numbers[at].len() && compares(#[trigger] numbers[at][i], e.op, e.value)
}

/// Does some reading of those at a place compare as it should?
pub fn result_satisfies_number(
    numbers: &Vec<Vec<NumberReading>>,
    at: usize,
    e: &NumericExpectation,
) -> (r: bool)
    ensures
        r == satisfied(numbers.deep_view(), at as int, e.deep_view()),
{
    assert(numbers.deep_view().len() == numbers@.len());
    if at >= numbers.len() {
        return false;
    }
    let list = &numbers[at];
    let ghost all = list.deep_view();
    assert(numbers.deep_view()[at as int] == all);
    let mut i: usize = 0;
    while i < list.len()
        invariant
            all == list.deep_view(),
            at < numbers.deep_view().len(),
            numbers.deep_view()[at as int] == all,
            0 <= i <= list@.len(),
            forall|k: int| 0 <= k < i ==> !compares(#[trigger] all[k], e.op, e.value),
        decreases list@.len() - i,
    {
        assert(all[i as int] == list@[i as int]);
        if compare_number(list[i], e.op, e.value) {
            return true;
        }
        i += 1;
    }
    false
}

/// The name of an operator.
pub open spec fn op_text(op: NumericOp) -> Seq<char> {
    match op {
        NumericOp::Eq => "Eq"@,
        NumericOp::Neq => "Neq"@,
        NumericOp::Gt => "Gt"@,
        NumericOp::Gte => "Gte"@,
        NumericOp::Lt => "Lt"@,
        NumericOp::Lte => "Lte"@,
    }
}

fn op_name(op: NumericOp) -> (r: &'static str)
    ensures
        r@ == op_text(op),
{
    match op {
        NumericOp::Eq => "Eq",
        NumericOp::Neq => "Neq",
        NumericOp::Gt => "Gt",
        NumericOp::Gte => "Gte",
        NumericOp::Lt => "Lt",
        NumericOp::Lte => "Lte",
    }
}

/// What is wrong with the number of rows.
pub open spec fn count_errors(spec: Option<RowCountSpecModel>, n: nat) -> Seq<Seq<char>> {
    match spec {
        Some(c) => validate::count_complaint(
            validate::other(c.exact, n),
            "row_count exact mismatch: expected "@,
            c.exact->0 as nat,
            n,
        ) + validate::count_complaint(
            validate::below(c.min, n),
            "row_count min mismatch: expected at least "@,
            c.min->0 as nat,
            n,
        ) + validate::count_complaint(
            validate::above(c.max, n),
            "row_count max mismatch: expected at most "@,
            c.max->0 as nat,
            n,
        ),
        None => Seq::empty(),
    }
}

fn check_count(spec: &Option<RowCountSpec>, n: usize) -> (r: Vec<String>)
    ensures
        r.deep_view() == count_errors(spec.deep_view(), n as nat),
{
    let mut errors: Vec<String> = seqs::no_items();
    if let Some(c) = spec {
        validate::complain_count(
            &mut errors,
            validate::is_other(c.exact, n),
            "row_count exact mismatch: expected ",
            validate::wanted(c.exact),
            n,
        );
        validate::complain_count(
            &mut errors,
            validate::is_below(c.min, n),
            "row_count min mismatch: expected at least ",
            validate::wanted(c.min),
            n,
        );
        validate::complain_count(
            &mut errors,
            validate::is_above(c.max, n),
            "row_count max mismatch: expected at most ",
            validate::wanted(c.max),
            n,
        );
    }
    assert(errors.deep_view() =~= count_errors(spec.deep_view(), n as nat));
    errors
}

/// What is wrong with the values of cells: with `wanted` those that are not there,
/// else those that are.
pub open spec fn value_errors(
    near: Seq<(NumberModel, NumberModel)>,
    expected: Seq<CellExpectationModel>,
    rows: Seq<RowModel>,
    wanted: bool,
) -> Seq<Seq<char>>
    decreases expected.len(),
{
    if expected.len() == 0 {
        Seq::empty()
    } else {
        let before = value_errors(near, expected.drop_last(), rows, wanted);
        let e = expected.last();
        if result_holds(near, rows, e) == wanted {
            before
        } else {
            let head = if wanted {
                "no row contains expected value in `"@
            } else {
                "unexpected value found in `"@
            };
            before.push(head + e.column + "`: "@ + json::json_text(e.value))
        }
    }
}

fn check_values(
    near: &Vec<(JsonNumber, JsonNumber)>,
    expected: &Vec<CellExpectation>,
    result: &QueryResult,
    wanted: bool,
) -> (r: Vec<String>)
    ensures
        r.deep_view() == value_errors(
            near.deep_view(),
            expected.deep_view(),
            result.deep_view().rows,
            wanted,
        ),
{
    let ghost all = expected.deep_view();
    let mut out: Vec<String> = seqs::no_items();
    let mut i: usize = 0;
    while i < expected.len()
        invariant
            all == expected.deep_view(),
            0 <= i <= expected@.len(),
            out.deep_view() == value_errors(
                near.deep_view(),
                all.take(i as int),
                result.deep_view().rows,
                wanted,
            ),
        decreases expected@.len() - i,
    {
        proof {
            assert(all.take(i + 1).drop_last() =~= all.take(i as int));
            assert(all.take(i + 1).last() == expected@[i as int].deep_view());
        }
        if result_contains(near, result, &expected[i]) != wanted {
            let mut s = if wanted {
                "no row contains expected value in `".to_owned()
            } else {
                "unexpected value found in `".to_owned()
            };
            s.append(expected[i].column.as_str());
            s.append("`: ");
            s.append(json::render_json(&expected[i].value).as_str());
            seqs::push_item(&mut out, s);
        }
        i += 1;
    }
    assert(all.take(i as int) =~= all);
    out
}

/// What is wrong with numbers.
pub open spec fn number_errors(
    numbers: Seq<Seq<NumberReading>>,
    expected: Seq<NumericExpectationModel>,
) -> Seq<Seq<char>>
    decreases expected.len(),
{
    if expected.len() == 0 {
        Seq::empty()
    } else {
        let before = number_errors(numbers, expected.drop_last());
        let e = expected.last();
        if satisfied(numbers, expected.len() - 1, e) {
            before
        } else {
            before.push(
                "no numeric value in `"@ + e.column + "` satisfies "@ + op_text(e.op) + " "@
                    + e.shown,
            )
        }
    }
}

fn check_numbers(numbers: &Vec<Vec<NumberReading>>, expected: &Vec<NumericExpectation>) -> (r: Vec<
    String,
>)
    ensures
        r.deep_view() == number_errors(numbers.deep_view(), expected.deep_view()),
{
    let ghost all = expected.deep_view();
    let mut out: Vec<String> = seqs::no_items();
    let mut i: usize = 0;
    while i < expected.len()
        invariant
            all == expected.deep_view(),
            0 <= i <= expected@.len(),
            out.deep_view() == number_errors(numbers.deep_view(), all.take(i as int)),
        decreases expected@.len() - i,
    {
        proof {
            assert(all.take(i + 1).drop_last() =~= all.take(i as int));
            assert(all.take(i + 1).last() == expected@[i as int].deep_view());
        }
        if !result_satisfies_number(numbers, i, &expected[i]) {
            let mut s = "no numeric value in `".to_owned();
            s.append(expected[i].column.as_str());
            s.append("` satisfies ");
            s.append(op_name(expected[i].op));
            s.append(" ");
            s.append(expected[i].shown.as_str());
            seqs::push_item(&mut out, s);
        }
        i += 1;
    }
    assert(all.take(i as int) =~= all);
    out
}

/// An answer in lower case contains a text, whatever its case.
pub open spec fn mentions(answer: Seq<char>) -> spec_fn(Seq<char>) -> bool {
    |x: Seq<char>| text::has_substring(answer, text::lowercase(x))
}

fn answer_mentions(answer: &String, needle: &str) -> (r: bool)
    ensures
        r == mentions(answer@)(needle@),
{
    text::text_contains(answer.as_str(), text::to_lowercase(needle).as_str())
}

/// What an answer should say and does not.
pub open spec fn answer_errors(expected: Seq<Seq<char>>, answer: Seq<char>) -> Seq<Seq<char>> {
    validate::complaints(
        expected,
        mentions(text::lowercase(answer)),
        "answer does not contain `"@,
    )
}

/// What an answer should say and does not.
pub fn validate_answer_contains(expected: &Vec<String>, answer: &str) -> (r: Vec<String>)
    ensures
        r.deep_view() == answer_errors(expected.deep_view(), answer@),
{
    let lower = text::to_lowercase(answer);
    let ghost ok = mentions(lower@);
    validate::complain(&lower, expected, answer_mentions, Ghost(ok), "answer does not contain `")
}

/// What is wrong with a result, and with the answer where there is one.
pub open spec fn result_errors(
    spec: ValidationSpecModel,
    result: QueryResultModel,
    readings: ReadingsModel,
    answer: Option<Seq<char>>,
) -> Seq<Seq<char>> {
    count_errors(spec.row_count, result.rows.len()) + row_errors(
        readings.near,
        spec.rows,
        result.rows,
    ) + validate::complaints(spec.columns, has_column(result), "missing expected column `"@)
        + value_errors(readings.near, spec.contains, result.rows, true) + value_errors(
        readings.near,
        spec.not_contains,
        result.rows,
        false,
    ) + number_errors(readings.numbers, spec.numbers) + (match answer {
        Some(a) => answer_errors(spec.answer_contains, a),
        None => Seq::empty(),
    })
}

/// What is wrong with a result, and with the answer where there is one.
pub fn validate_result(
    spec: &ValidationSpec,
    result: &QueryResult,
    readings: &Readings,
    answer: Option<&str>,
) -> (r: Vec<String>)
    ensures
        r.deep_view() == result_errors(
            spec.deep_view(),
            result.deep_view(),
            readings.deep_view(),
            answer.deep_view(),
        ),
{
    let n = result.rows.len();
    assert(result.deep_view().rows.len() == n);
    let mut errors = check_count(&spec.row_count, n);
    seqs::append_items(&mut errors, validate_expected_rows(&readings.near, &spec.rows, result));
    let ghost there = has_column(result.deep_view());
    let more = validate::complain(
        result,
        &spec.columns,
        result_has_column,
        Ghost(there),
        "missing expected column `",
    );
    seqs::append_items(&mut errors, more);
    seqs::append_items(&mut errors, check_values(&readings.near, &spec.contains, result, true));
    seqs::append_items(
        &mut errors,
        check_values(&readings.near, &spec.not_contains, result, false),
    );
    seqs::append_items(&mut errors, check_numbers(&readings.numbers, &spec.numbers));
    match answer {
        Some(a) => {
            seqs::append_items(&mut errors, validate_answer_contains(&spec.answer_contains, a));
        },
        None => {
            proof {
                let empty = Seq::<Seq<char>>::empty();
                assert(errors.deep_view() + empty =~= errors.deep_view());
            }
        },
    }
    errors
}

/// Numbers compare by their values. Of two numbers, exactly one of less, equal in value and
/// greater holds, "at least" is the opposite of "less" and "at most" that of "greater"; where
/// one of the two is not a number, no order holds between them. Equality is up to the
/// smallest of differences, as the reading says.
pub proof fn law_numbers_compare_by_value(reading: NumberReading, expected: u64)
    ensures
        ({
            let x = reading.bits;
            let numbers = !embeddings::is_wide_nan(x) && !embeddings::is_wide_nan(expected);
            &&& compares(reading, NumericOp::Gt, expected) <==> numbers && floats::wide_value(x)
                > floats::wide_value(expected)
            &&& compares(reading, NumericOp::Gte, expected) <==> numbers && floats::wide_value(x)
                >= floats::wide_value(expected)
            &&& compares(reading, NumericOp::Lt, expected) <==> numbers && floats::wide_value(x)
                < floats::wide_value(expected)
            &&& compares(reading, NumericOp::Lte, expected) <==> numbers && floats::wide_value(x)
                <= floats::wide_value(expected)
            &&& numbers ==> (compares(reading, NumericOp::Gte, expected) <==> !compares(
                reading,
                NumericOp::Lt,
                expected,
            ))
            &&& numbers ==> (compares(reading, NumericOp::Lte, expected) <==> !compares(
                reading,
                NumericOp::Gt,
                expected,
            ))
            &&& compares(reading, NumericOp::Eq, expected) <==> reading.near
            &&& compares(reading, NumericOp::Neq, expected) <==> reading.apart
        }),
{
    floats::law_wide_floats_compare_by_value(reading.bits, expected);
    floats::law_wide_floats_compare_by_value(expected, reading.bits);
}

/// A whole number compares with a whole number as integers do, where both fit in the digits
/// of a float.
pub proof fn law_whole_numbers_compare(reading: NumberReading, a: int, b: int)
    requires
        -0x20_0000_0000_0000 < a < 0x20_0000_0000_0000,
        -0x20_0000_0000_0000 < b < 0x20_0000_0000_0000,
        reading.bits == floats::int_bits(a) as u64,
    ensures
        compares(reading, NumericOp::Gt, floats::int_bits(b) as u64) <==> a > b,
        compares(reading, NumericOp::Gte, floats::int_bits(b) as u64) <==> a >= b,
        compares(reading, NumericOp::Lt, floats::int_bits(b) as u64) <==> a < b,
        compares(reading, NumericOp::Lte, floats::int_bits(b) as u64) <==> a <= b,
{
    law_numbers_compare_by_value(reading, floats::int_bits(b) as u64);
    floats::law_small_integers_are_exact(a);
    floats::law_small_integers_are_exact(b);
    let unit = vstd::arithmetic::power2::pow2(1074);
    vstd::arithmetic::power2::lemma_pow2_pos(1074);
    assert(a < b ==> a * unit < b * unit) by (nonlinear_arith)
        requires
            unit > 0,
    ;
    assert(a > b ==> a * unit > b * unit) by (nonlinear_arith)
        requires
            unit > 0,
    ;
}

proof fn value_errors_are_none(
    near: Seq<(NumberModel, NumberModel)>,
    expected: Seq<CellExpectationModel>,
    rows: Seq<RowModel>,
    wanted: bool,
)
    ensures
        value_errors(near, expected, rows, wanted).len() == 0 <==> forall|i: int|
            0 <= i < expected.len() ==> result_holds(near, rows, #[trigger] expected[i]) == wanted,
        value_errors(near, expected, rows, wanted).len() <= expected.len(),
    decreases expected.len(),
{
    if expected.len() > 0 {
        let rest = expected.drop_last();
        value_errors_are_none(near, rest, rows, wanted);
        if value_errors(near, expected, rows, wanted).len() == 0 {
            assert forall|i: int| 0 <= i < expected.len() implies result_holds(
                near,
                rows,
                #[trigger] expected[i],
            ) == wanted by {
                if i < rest.len() {
                    assert(rest[i] == expected[i]);
                }
            }
        } else if value_errors(near, rest, rows, wanted).len() > 0 {
            let k = choose|k: int|
                0 <= k < rest.len() && result_holds(near, rows, #[trigger] rest[k]) != wanted;
            assert(result_holds(near, rows, expected[k]) != wanted);
        } else {
            assert(result_holds(near, rows, expected[expected.len() - 1]) != wanted);
        }
    }
}

proof fn number_errors_are_none(
    numbers: Seq<Seq<NumberReading>>,
    expected: Seq<NumericExpectationModel>,
)
    ensures
        number_errors(numbers, expected).len() == 0 <==> forall|i: int|
            0 <= i < expected.len() ==> satisfied(numbers, i, #[trigger] expected[i]),
    decreases expected.len(),
{
    if expected.len() > 0 {
        let rest = expected.drop_last();
        number_errors_are_none(numbers, rest);
        if number_errors(numbers, expected).len() == 0 {
            assert forall|i: int| 0 <= i < expected.len() implies satisfied(
                numbers,
                i,
                #[trigger] expected[i],
            ) by {
                if i < rest.len() {
                    assert(rest[i] == expected[i]);
                }
            }
        } else if number_errors(numbers, rest).len() > 0 {
            let k = choose|k: int|
                0 <= k < rest.len() && !satisfied(numbers, k, #[trigger] rest[k]);
            assert(!satisfied(numbers, k, expected[k]));
        } else {
            assert(!satisfied(numbers, expected.len() - 1, expected[expected.len() - 1]));
        }
    }
}

/// Each expected row has a row of its own that fits it.
pub open spec fn rows_are_assigned(
    near: Seq<(NumberModel, NumberModel)>,
    rows: Seq<Seq<(Seq<char>, JsonModel)>>,
    expected: Seq<ExpectedRowModel>,
    assigned: Seq<int>,
) -> bool {
    &&& assigned.len() == expected.len()
    &&& assigned.no_duplicates()
    &&& forall|i: int|
        0 <= i < expected.len() ==> 0 <= #[trigger] assigned[i] < rows.len() && row_fits(
            near,
            rows[assigned[i]],
            expected[i].fields,
        )
}

proof fn matched_rows_are_assigned(
    near: Seq<(NumberModel, NumberModel)>,
    rows: Seq<Seq<(Seq<char>, JsonModel)>>,
    expected: Seq<ExpectedRowModel>,
) -> (assigned: Seq<int>)
    requires
        matching(near, rows, expected).errors.len() == 0,
    ensures
        rows_are_assigned(near, rows, expected, assigned),
        forall|k: int|
            0 <= k < rows.len() ==> (#[trigger] matching(near, rows, expected).used[k]
                <==> assigned.contains(k)),
        matching(near, rows, expected).used.len() == rows.len(),
    decreases expected.len(),
{
    let m = matching(near, rows, expected);
    if expected.len() == 0 {
        Seq::empty()
    } else {
        let before = matching(near, rows, expected.drop_last());
        let sofar = matched_rows_are_assigned(near, rows, expected.drop_last());
        let i = free_row(near, rows, before.used, expected.last().fields, 0)->0;
        free_row_is_free(near, rows, before.used, expected.last().fields, 0);
        let assigned = sofar.push(i);
        assert(!before.used[i]);
        assert(!sofar.contains(i));
        assert forall|a: int, b: int|
            0 <= a < assigned.len() && 0 <= b < assigned.len() && a != b implies assigned[a]
            != assigned[b] by {
            if a < sofar.len() && b < sofar.len() {
                assert(sofar[a] != sofar[b]);
            } else if a < sofar.len() {
                assert(sofar.contains(sofar[a]));
            } else {
                assert(sofar.contains(sofar[b]));
            }
        }
        assert forall|k: int| 0 <= k < expected.len() implies 0 <= #[trigger] assigned[k]
            < rows.len() && row_fits(near, rows[assigned[k]], expected[k].fields) by {
            if k < sofar.len() {
                assert(0 <= sofar[k] < rows.len());
                assert(expected.drop_last()[k] == expected[k]);
            }
        }
        assert forall|k: int| 0 <= k < rows.len() implies (#[trigger] m.used[k]
            <==> assigned.contains(k)) by {
            if sofar.contains(k) {
                let a = choose|a: int| 0 <= a < sofar.len() && sofar[a] == k;
                assert(assigned[a] == k);
            }
            if k == i {
                assert(assigned[sofar.len() as int] == k);
            } else if assigned.contains(k) {
                let a = choose|a: int| 0 <= a < assigned.len() && assigned[a] == k;
                assert(sofar[a] == k);
            }
            assert(before.used[k] <==> sofar.contains(k));
        }
        assigned
    }
}

proof fn unmatched_row_is_missed(
    near: Seq<(NumberModel, NumberModel)>,
    rows: Seq<Seq<(Seq<char>, JsonModel)>>,
    expected: Seq<ExpectedRowModel>,
    i: int,
)
    requires
        0 <= i < expected.len(),
        forall|k: int| 0 <= k < rows.len() ==> !row_fits(near, #[trigger] rows[k], expected[i].fields),
    ensures
        matching(near, rows, expected).errors.len() > 0,
    decreases expected.len(),
{
    let before = matching(near, rows, expected.drop_last());
    if i < expected.len() - 1 {
        assert(expected.drop_last()[i] == expected[i]);
        unmatched_row_is_missed(near, rows, expected.drop_last(), i);
    } else {
        free_row_is_free(near, rows, before.used, expected.last().fields, 0);
        match free_row(near, rows, before.used, expected.last().fields, 0) {
            Some(k) => {
                assert(!row_fits(near, rows[k], expected[i].fields));
            },
            None => {},
        }
    }
}

/// A result without errors has as many rows as it should, a row of its own for every
/// expected row, every column, every value that it should contain and none that it should
/// not, a number that compares as it should for every numeric expectation, and an answer
/// that says all that it should. Where one of these is missing there is an error: for the
/// expected rows, where no row fits one of them.
pub proof fn law_result_without_errors(
    spec: ValidationSpecModel,
    result: QueryResultModel,
    readings: ReadingsModel,
    answer: Option<Seq<char>>,
)
    ensures
        ({
            let n = result.rows.len();
            let rows = mask::rows_json(result.rows, true);
            let others = {
                &&& spec.row_count is Some ==> {
                    &&& spec.row_count->0.exact is Some ==> n == spec.row_count->0.exact->0
                    &&& spec.row_count->0.min is Some ==> n >= spec.row_count->0.min->0
                    &&& spec.row_count->0.max is Some ==> n <= spec.row_count->0.max->0
                }
                &&& forall|i: int|
                    0 <= i < spec.columns.len() ==> has_column(result)(#[trigger] spec.columns[i])
                &&& forall|i: int|
                    0 <= i < spec.contains.len() ==> result_holds(
                        readings.near,
                        result.rows,
                        #[trigger] spec.contains[i],
                    )
                &&& forall|i: int|
                    0 <= i < spec.not_contains.len() ==> !result_holds(
                        readings.near,
                        result.rows,
                        #[trigger] spec.not_contains[i],
                    )
                &&& forall|i: int|
                    0 <= i < spec.numbers.len() ==> satisfied(
                        readings.numbers,
                        i,
                        #[trigger] spec.numbers[i],
                    )
                &&& answer is Some ==> forall|i: int|
                    0 <= i < spec.answer_contains.len() ==> text::has_substring(
                        text::lowercase(answer->0),
                        text::lowercase(#[trigger] spec.answer_contains[i]),
                    )
            };
            let none = result_errors(spec, result, readings, answer).len() == 0;
            &&& none <==> others && row_errors(readings.near, spec.rows, result.rows).len() == 0
            &&& none ==> exists|assigned: Seq<int>|
                rows_are_assigned(readings.near, rows, spec.rows, assigned)
            &&& (exists|i: int|
                0 <= i < spec.rows.len() && fits_nowhere(readings.near, rows, #[trigger] spec.rows[i]))
                ==> !none
        }),
{
    let near = readings.near;
    let rows = mask::rows_json(result.rows, true);
    value_errors_are_none(near, spec.contains, result.rows, true);
    value_errors_are_none(near, spec.not_contains, result.rows, false);
    number_errors_are_none(readings.numbers, spec.numbers);
    validate::no_complaints(spec.columns, has_column(result), "missing expected column `"@);
    if answer is Some {
        let said = mentions(text::lowercase(answer->0));
        validate::no_complaints(spec.answer_contains, said, "answer does not contain `"@);
        assert forall|i: int| 0 <= i < spec.answer_contains.len() implies said(
            #[trigger] spec.answer_contains[i],
        ) == text::has_substring(
            text::lowercase(answer->0),
            text::lowercase(spec.answer_contains[i]),
        ) by {}
    }
    if row_errors(near, spec.rows, result.rows).len() == 0 {
        let assigned = matched_rows_are_assigned(near, rows, spec.rows);
    }
    if exists|i: int| 0 <= i < spec.rows.len() && fits_nowhere(near, rows, #[trigger] spec.rows[i]) {
        let i = choose|i: int|
            0 <= i < spec.rows.len() && fits_nowhere(near, rows, #[trigger] spec.rows[i]);
        unmatched_row_is_missed(near, rows, spec.rows, i);
    }
}

/// Is there no row that fits an expected one?
pub open spec fn fits_nowhere(
    near: Seq<(NumberModel, NumberModel)>,
    rows: Seq<Seq<(Seq<char>, JsonModel)>>,
    e: ExpectedRowModel,
) -> bool {
    forall|k: int| 0 <= k < rows.len() ==> !row_fits(near, #[trigger] rows[k], e.fields)
}

/// A text says what was expected exactly when it is that text, and contains it exactly when it
/// does so whatever the case. A truth value says itself and not its opposite; an integer says
/// another only where the two are equal or known to be close.
pub proof fn law_values_say_themselves(
    near: Seq<(NumberModel, NumberModel)>,
    a: Seq<char>,
    b: Seq<char>,
    x: i64,
    y: i64,
)
    ensures
        says(near, JsonModel::Str(a), JsonModel::Str(b)) <==> a == b,
        says(near, JsonModel::Bool(true), JsonModel::Bool(true)),
        says(near, JsonModel::Null, JsonModel::Null),
        x == y ==> says(
            near,
            JsonModel::Number(NumberModel::Int(x)),
            JsonModel::Number(NumberModel::Int(y)),
        ),
        x != y && near.len() == 0 ==> !says(
            near,
            JsonModel::Number(NumberModel::Int(x)),
            JsonModel::Number(NumberModel::Int(y)),
        ),
        holds(near, DbValueModel::Str(a), JsonModel::Str(b), MatchMode::Exact) <==> a == b,
        holds(near, DbValueModel::Str(a), JsonModel::Str(b), MatchMode::Contains)
            <==> text::has_substring(text::lowercase(a), text::lowercase(b)),
{
}

/// A column that is named is the one that is looked at; the column `*` is any.
pub proof fn law_columns_are_looked_at(
    near: Seq<(NumberModel, NumberModel)>,
    row: RowModel,
    e: CellExpectationModel,
)
    requires
        strmap::assoc_sorted(row),
    ensures
        row_holds(near, row, e) <==> exists|i: int|
            0 <= i < row.len() && (e.column == "*"@ || row[i].0 == e.column) && holds(
                near,
                (#[trigger] row[i]).1,
                e.value,
                e.mode,
            ),
{
    if e.column != "*"@ {
        if row_holds(near, row, e) {
            let i = strmap::get_is_an_entry(row, e.column);
            assert(holds(near, row[i].1, e.value, e.mode));
        }
        if exists|i: int|
            0 <= i < row.len() && (e.column == "*"@ || row[i].0 == e.column) && holds(
                near,
                (#[trigger] row[i]).1,
                e.value,
                e.mode,
            ) {
            let i = choose|i: int|
                0 <= i < row.len() && (e.column == "*"@ || row[i].0 == e.column) && holds(
                    near,
                    (#[trigger] row[i]).1,
                    e.value,
                    e.mode,
                );
            strmap::entry_is_read(row, i);
        }
    }
}

/// The cells that a numeric expectation looks at are those of its column, row by row, and all
/// cells where the column is `*`.
pub proof fn law_numeric_cells_are_of_the_column(rows: Seq<RowModel>, column: Seq<char>, v: DbValueModel)
    ensures
        named_cells(rows, column).contains(v) <==> exists|i: int|
            0 <= i < rows.len() && row_names(#[trigger] rows[i], column, v),
    decreases rows.len(),
{
    if rows.len() > 0 {
        let rest = rows.drop_last();
        law_numeric_cells_are_of_the_column(rest, column, v);
        let before = named_cells(rest, column);
        let all = named_cells(rows, column);
        let last = rows.last();
        assert(rows[rows.len() - 1] == last);
        if all.contains(v) {
            let k = choose|k: int| 0 <= k < all.len() && all[k] == v;
            if k < before.len() {
                assert(before[k] == v);
                assert(before.contains(v));
                let i = choose|i: int| 0 <= i < rest.len() && row_names(#[trigger] rest[i], column, v);
                assert(row_names(rows[i], column, v));
            } else if column == "*"@ {
                assert(last[k - before.len()].1 == v);
                assert(row_names(rows[rows.len() - 1], column, v));
            } else {
                assert(row_names(rows[rows.len() - 1], column, v));
            }
        }
        if exists|i: int| 0 <= i < rows.len() && row_names(#[trigger] rows[i], column, v) {
            let i = choose|i: int| 0 <= i < rows.len() && row_names(#[trigger] rows[i], column, v);
            if i < rest.len() {
                assert(row_names(rest[i], column, v));
                assert(before.contains(v));
                let k = choose|k: int| 0 <= k < before.len() && before[k] == v;
                assert(all[k] == v);
            } else if column == "*"@ {
                let k = choose|k: int| 0 <= k < last.len() && (#[trigger] last[k]).1 == v;
                assert(all[before.len() + k] == v);
            } else {
                assert(all[before.len() as int] == v);
            }
        }
    }
}

/// Has a row a cell under a column, or under any where the column is `*`?
pub open spec fn row_names(row: RowModel, column: Seq<char>, v: DbValueModel) -> bool {
    if column == "*"@ {
        exists|k: int| 0 <= k < row.len() && (#[trigger] row[k]).1 == v
    } else {
        strmap::assoc_get(row, column) == Some(v)
    }
}

/// Has a cell of the column, or of any where that is asked for, what is expected?
pub open spec fn cell_holds(
    near: Seq<(NumberModel, NumberModel)>,
    row: RowModel,
    e: CellExpectationModel,
) -> bool {
    if e.column == "*"@ {
        exists|i: int|
            0 <= i < row.len() && holds(near, (#[trigger] row[i]).1, e.value, e.mode)
    } else {
        match strmap::assoc_get(row, e.column) {
            Some(v) => holds(near, v, e.value, e.mode),
            None => false,
        }
    }
}

/// What is expected of a result is found in one of its rows; a column is one that the head names or
/// a row has; a numeric expectation is met by one of the numbers that were read for it.
pub proof fn law_expectations_are_met_by_a_row(
    near: Seq<(NumberModel, NumberModel)>,
    result: QueryResultModel,
    e: CellExpectationModel,
    name: Seq<char>,
    numbers: Seq<Seq<NumberReading>>,
    at: int,
    n: NumericExpectationModel,
)
    ensures
        result_holds(near, result.rows, e) <==> exists|i: int|
            0 <= i < result.rows.len() && cell_holds(near, #[trigger] result.rows[i], e),
        has_column(result)(name) <==> result.columns.contains(name) || exists|i: int|
            0 <= i < result.rows.len() && strmap::assoc_get(#[trigger] result.rows[i], name) is Some,
        0 <= at < numbers.len() ==> (satisfied(numbers, at, n) <==> exists|i: int|
            0 <= i < numbers[at].len() && compares(#[trigger] numbers[at][i], n.op, n.value)),
        at < 0 || at >= numbers.len() ==> !satisfied(numbers, at, n),
{
    assert forall|i: int| 0 <= i < result.rows.len() implies cell_holds(
        near,
        #[trigger] result.rows[i],
        e,
    ) == row_holds(near, result.rows[i], e) by {}
    if result_holds(near, result.rows, e) {
        let i = choose|i: int|
            0 <= i < result.rows.len() && row_holds(near, #[trigger] result.rows[i], e);
        assert(cell_holds(near, result.rows[i], e));
    }
    if exists|i: int|
        0 <= i < result.rows.len() && cell_holds(near, #[trigger] result.rows[i], e) {
        let i = choose|i: int|
            0 <= i < result.rows.len() && cell_holds(near, #[trigger] result.rows[i], e);
        assert(row_holds(near, result.rows[i], e));
    }
}

/// A row fits where every expected column has what is expected; further columns do not matter.
pub proof fn law_rows_fit_by_their_columns(
    near: Seq<(NumberModel, NumberModel)>,
    actual: Seq<(Seq<char>, JsonModel)>,
    expected: Seq<(Seq<char>, JsonModel)>,
    column: Seq<char>,
    value: JsonModel,
)
    ensures
        row_fits(near, actual, expected.push((column, value))) <==> row_fits(near, actual, expected)
            && match strmap::assoc_get(actual, column) {
            Some(v) => says(near, v, value),
            None => false,
        },
        row_fits(near, actual, Seq::empty()),
{
    let more = expected.push((column, value));
    if row_fits(near, actual, more) {
        assert forall|i: int| 0 <= i < expected.len() implies {
            let (c, v) = #[trigger] expected[i];
            strmap::assoc_get(actual, c) is Some && says(near, strmap::assoc_get(actual, c)->0, v)
        } by {
            assert(more[i] == expected[i]);
        }
        assert(more[expected.len() as int] == (column, value));
    }
    if row_fits(near, actual, expected) && strmap::assoc_get(actual, column) is Some && says(
        near,
        strmap::assoc_get(actual, column)->0,
        value,
    ) {
        assert forall|i: int| 0 <= i < more.len() implies {
            let (c, v) = #[trigger] more[i];
            strmap::assoc_get(actual, c) is Some && says(near, strmap::assoc_get(actual, c)->0, v)
        } by {
            if i < expected.len() {
                assert(more[i] == expected[i]);
            }
        }
    }
}

} // verus!
