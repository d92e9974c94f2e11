//! JSON values as the library holds them, and their compact text.

use vstd::prelude::*;
use crate::strmap::StrMap;
use crate::text;

verus! {

broadcast use vstd::string::group_string_axioms;

/// A floating-point number by what is read of it: its IEEE 754 bits, its text
/// in JSON, its debug text, its value cut to an integer, and whether that cut
/// is exact.
#[derive(Debug, PartialEq)]
pub struct Float {
    pub bits: u64,
    pub text: String,
    pub debug: String,
    pub truncated: i64,
    pub integral: bool,
}

pub struct FloatModel {
    pub bits: u64,
    pub text: Seq<char>,
    pub debug: Seq<char>,
    pub truncated: i64,
    pub integral: bool,
}

impl DeepView for Float {
    type V = FloatModel;

    open spec fn deep_view(&self) -> FloatModel {
        FloatModel {
            bits: self.bits,
            text: self.text@,
            debug: self.debug@,
            truncated: self.truncated,
            integral: self.integral,
        }
    }
}

impl Float {
    pub fn copy(&self) -> (r: Float)
        ensures
            r.deep_view() == self.deep_view(),
    {
        Float {
            bits: self.bits,
            text: self.text.clone(),
            debug: self.debug.clone(),
            truncated: self.truncated,
            integral: self.integral,
        }
    }
}

/// Neither infinite nor not a number.
pub open spec fn is_finite_bits(bits: u64) -> bool {
    (bits >> 52) & 0x7ff != 0x7ff
}

/// Numbers of finite bits in the order of their values: both zeros are `0`.
pub open spec fn float_rank(bits: u64) -> int {
    if bits < 0x8000_0000_0000_0000u64 {
        bits as int
    } else {
        0x8000_0000_0000_0000int - bits
    }
}

/// A JSON number: an integer of 64 bits with sign, an integer above those with
/// the float nearest to it, or a float.
#[derive(Debug, PartialEq)]
pub enum JsonNumber {
    Int(i64),
    Big(u64, Float),
    Float(Float),
}

pub enum NumberModel {
    Int(i64),
    Big(u64, FloatModel),
    Float(FloatModel),
}

impl DeepView for JsonNumber {
    type V = NumberModel;

    open spec fn deep_view(&self) -> NumberModel {
        match self {
            JsonNumber::Int(n) => NumberModel::Int(*n),
            JsonNumber::Big(n, x) => NumberModel::Big(*n, x.deep_view()),
            JsonNumber::Float(x) => NumberModel::Float(x.deep_view()),
        }
    }
}

/// A JSON value.
#[derive(Debug, PartialEq)]
pub enum Json {
    Null,
    Bool(bool),
    Number(JsonNumber),
    Str(String),
    Array(Vec<Json>),
    Object(StrMap<Json>),
}

pub enum JsonModel {
    Null,
    Bool(bool),
    Number(NumberModel),
    Str(Seq<char>),
    Array(Seq<JsonModel>),
    Object(Seq<(Seq<char>, JsonModel)>),
}

/// What a JSON value says.
pub open spec fn json_model(j: Json) -> JsonModel
    decreases j,
{
    match j {
        Json::Null => JsonModel::Null,
        Json::Bool(b) => JsonModel::Bool(b),
        Json::Number(n) => JsonModel::Number(n.deep_view()),
        Json::Str(s) => JsonModel::Str(s@),
        Json::Array(v) => JsonModel::Array(
            Seq::new(
                v@.len(),
                |i: int|
                    if 0 <= i < v@.len() {
                        json_model(v@[i])
                    } else {
                        JsonModel::Null
                    },
            ),
        ),
        Json::Object(m) => JsonModel::Object(
            Seq::new(
                m.entries@.len(),
                |i: int|
                    if 0 <= i < m.entries@.len() {
                        (m.entries@[i].0@, json_model(m.entries@[i].1))
                    } else {
                        (Seq::empty(), JsonModel::Null)
                    },
            ),
        ),
    }
}

impl DeepView for Json {
    type V = JsonModel;

    open spec fn deep_view(&self) -> JsonModel {
        json_model(*self)
    }
}

/// An array says the values of its items.
pub broadcast proof fn json_array_model(v: Vec<Json>)
    ensures
        #[trigger] json_model(Json::Array(v)) == JsonModel::Array(v.deep_view()),
{
    assert(json_model(Json::Array(v))->Array_0 =~= v.deep_view());
}

/// An object says its keys with their values.
pub broadcast proof fn json_object_model(m: StrMap<Json>)
    ensures
        #[trigger] json_model(Json::Object(m)) == JsonModel::Object(m.deep_view()),
{
    assert(json_model(Json::Object(m))->Object_0 =~= m.deep_view());
}

pub broadcast group group_json_models {
    json_array_model,
    json_object_model,
}

impl JsonNumber {
    pub fn copy(&self) -> (r: JsonNumber)
        ensures
            r.deep_view() == self.deep_view(),
    {
        match self {
            JsonNumber::Int(n) => JsonNumber::Int(*n),
            JsonNumber::Big(n, x) => JsonNumber::Big(*n, x.copy()),
            JsonNumber::Float(x) => JsonNumber::Float(x.copy()),
        }
    }
}

/// An array decreases to each of its items.
pub proof fn array_item_is_smaller(j: Json, i: int)
    requires
        j is Array,
        0 <= i < j->Array_0@.len(),
    ensures
        decreases_to!(j => j->Array_0@[i]),
{
    assert(decreases_to!(j => j->Array_0));
    assert(decreases_to!(j->Array_0 => j->Array_0@));
    assert(decreases_to!(j->Array_0@ => j->Array_0@[i]));
}

/// An object decreases to each of its values.
pub proof fn object_value_is_smaller(j: Json, i: int)
    requires
        j is Object,
        0 <= i < j->Object_0.entries@.len(),
    ensures
        decreases_to!(j => j->Object_0.entries@[i].1),
{
    let m = j->Object_0;
    assert(decreases_to!(j => j->Object_0));
    assert(decreases_to!(m => m.entries));
    assert(decreases_to!(m.entries => m.entries@));
    assert(decreases_to!(m.entries@ => m.entries@[i]));
    assert(decreases_to!(m.entries@[i] => m.entries@[i].1));
}

/// A copy of the value.
pub fn copy_json(j: &Json) -> (r: Json)
    ensures
        r.deep_view() == j.deep_view(),
    decreases j,
{
    broadcast use group_json_models;

    match j {
        Json::Null => Json::Null,
        Json::Bool(b) => Json::Bool(*b),
        Json::Number(n) => Json::Number(n.copy()),
        Json::Str(s) => Json::Str(s.clone()),
        Json::Array(v) => {
            let mut out: Vec<Json> = Vec::new();
            let mut i: usize = 0;
            while i < v.len()
                invariant
                    *j == Json::Array(*v),
                    0 <= i <= v@.len(),
                    out.deep_view() == v.deep_view().take(i as int),
                decreases v@.len() - i,
            {
                proof {
                    array_item_is_smaller(*j, i as int);
                }
                let item = copy_json(&v[i]);
                let ghost before = out.deep_view();
                out.push(item);
                assert(out.deep_view() =~= before.push(v.deep_view()[i as int]));
                i += 1;
                assert(out.deep_view() =~= v.deep_view().take(i as int));
            }
            assert(out.deep_view() =~= v.deep_view());
            Json::Array(out)
        },
        Json::Object(m) => {
            let mut out: Vec<(String, Json)> = Vec::new();
            let mut i: usize = 0;
            while i < m.entries.len()
                invariant
                    *j == Json::Object(*m),
                    0 <= i <= m.entries@.len(),
                    out.deep_view() == m.deep_view().take(i as int),
                decreases m.entries@.len() - i,
            {
                proof {
                    object_value_is_smaller(*j, i as int);
                }
                let value = copy_json(&m.entries[i].1);
                let ghost before = out.deep_view();
                out.push((m.entries[i].0.clone(), value));
                assert(out.deep_view() =~= before.push(m.deep_view()[i as int]));
                i += 1;
                assert(out.deep_view() =~= m.deep_view().take(i as int));
            }
            assert(out.deep_view() =~= m.deep_view());
            Json::Object(StrMap { entries: out })
        },
    }
}

/// The two lower-case hexadecimal digits of a number below 256.
pub open spec fn hex_char(d: nat) -> char {
    if d < 10 {
        text::digit_char(d)
    } else if d == 10 {
        'a'
    } else if d == 11 {
        'b'
    } else if d == 12 {
        'c'
    } else if d == 13 {
        'd'
    } else if d == 14 {
        'e'
    } else {
        'f'
    }
}

/// How one character is written inside a JSON string.
pub open spec fn escaped_char(c: char) -> Seq<char> {
    if c == '"' {
        seq!['\\', '"']
    } else if c == '\\' {
        seq!['\\', '\\']
    } else if c == '\u{8}' {
        seq!['\\', 'b']
    } else if c == '\t' {
        seq!['\\', 't']
    } else if c == '\n' {
        seq!['\\', 'n']
    } else if c == '\u{c}' {
        seq!['\\', 'f']
    } else if c == '\r' {
        seq!['\\', 'r']
    } else if (c as u32) < 32 {
        seq!['\\', 'u', '0', '0', hex_char(c as nat / 16), hex_char(c as nat % 16)]
    } else {
        seq![c]
    }
}

/// The characters of a JSON string between its quotes.
pub open spec fn escaped_text(s: Seq<char>) -> Seq<char>
    decreases s.len(),
{
    if s.len() == 0 {
        Seq::empty()
    } else {
        escaped_text(s.drop_last()) + escaped_char(s.last())
    }
}

/// A JSON string with its quotes.
pub open spec fn quoted_text(s: Seq<char>) -> Seq<char> {
    seq!['"'] + escaped_text(s) + seq!['"']
}

/// `serde_json::Value::to_string` on a string value: the text between double
/// quotes, where `"`, `\` and the control characters below U+0020 are escaped
/// and every other character stands for itself.
#[verifier::external_body]
pub(crate) fn quoted(s: &str) -> (r: String)
    ensures
        r@ == quoted_text(s@),
{
    serde_json::Value::String(s.to_owned()).to_string()
}

/// The text of a JSON number.
pub open spec fn number_text(n: NumberModel) -> Seq<char> {
    match n {
        NumberModel::Int(i) => text::int_text(i as int),
        NumberModel::Big(i, _) => text::nat_text(i as nat),
        NumberModel::Float(x) => x.text,
    }
}

/// The text of a JSON number.
pub fn render_number(n: &JsonNumber) -> (r: String)
    ensures
        r@ == number_text(n.deep_view()),
{
    match n {
        JsonNumber::Int(i) => text::i64_text(*i),
        JsonNumber::Big(i, _) => text::u64_text(*i),
        JsonNumber::Float(x) => x.text.clone(),
    }
}

/// The compact text of a JSON value.
pub open spec fn json_text(j: JsonModel) -> Seq<char>
    decreases j,
{
    match j {
        JsonModel::Null => "null"@,
        JsonModel::Bool(b) => if b {
            "true"@
        } else {
            "false"@
        },
        JsonModel::Number(n) => number_text(n),
        JsonModel::Str(s) => quoted_text(s),
        JsonModel::Array(items) => seq!['['] + items_text(items) + seq![']'],
        JsonModel::Object(entries) => seq!['{'] + entries_text(entries) + seq!['}'],
    }
}

/// Array items, separated by commas.
pub open spec fn items_text(items: Seq<JsonModel>) -> Seq<char>
    decreases items,
{
    if items.len() == 0 {
        Seq::empty()
    } else if items.len() == 1 {
        json_text(items[0])
    } else {
        items_text(items.drop_last()) + seq![','] + json_text(items.last())
    }
}

/// Object entries, separated by commas.
pub open spec fn entries_text(entries: Seq<(Seq<char>, JsonModel)>) -> Seq<char>
    decreases entries,
{
    if entries.len() == 0 {
        Seq::empty()
    } else if entries.len() == 1 {
        quoted_text(entries[0].0) + seq![':'] + json_text(entries[0].1)
    } else {
        entries_text(entries.drop_last()) + seq![','] + quoted_text(entries.last().0) + seq![':']
            + json_text(entries.last().1)
    }
}

/// The compact text of a JSON value.
pub fn render_json(j: &Json) -> (r: String)
    ensures
        r@ == json_text(j.deep_view()),
    decreases j,
{
    broadcast use group_json_models;

    match j {
        Json::Null => "null".to_owned(),
        Json::Bool(b) => if *b {
            "true".to_owned()
        } else {
            "false".to_owned()
        },
        Json::Number(n) => render_number(n),
        Json::Str(s) => quoted(s.as_str()),
        Json::Array(v) => {
            let ghost items = v.deep_view();
            let mut inner = String::new();
            let mut i: usize = 0;
            while i < v.len()
                invariant
                    *j == Json::Array(*v),
                    items == v.deep_view(),
                    0 <= i <= v@.len(),
                    inner@ == items_text(items.take(i as int)),
                decreases v@.len() - i,
            {
                if i > 0 {
                    inner.push(',');
                }
                proof {
                    array_item_is_smaller(*j, i as int);
                }
                inner.append(render_json(&v[i]).as_str());
                proof {
                    let next = items.take(i + 1);
                    assert(next.drop_last() =~= items.take(i as int));
                    assert(next.last() == items[i as int]);
                    assert(inner@ =~= items_text(next));
                }
                i += 1;
            }
            assert(items.take(i as int) =~= items);
            let mut out = String::new();
            out.push('[');
            out.append(inner.as_str());
            out.push(']');
            assert(out@ =~= seq!['['] + items_text(items) + seq![']']);
            out
        },
        Json::Object(m) => {
            let ghost items = m.deep_view();
            let mut inner = String::new();
            let mut i: usize = 0;
            while i < m.entries.len()
                invariant
                    *j == Json::Object(*m),
                    items == m.deep_view(),
                    0 <= i <= m.entries@.len(),
                    inner@ == entries_text(items.take(i as int)),
                decreases m.entries@.len() - i,
            {
                if i > 0 {
                    inner.push(',');
                }
                inner.append(quoted(m.entries[i].0.as_str()).as_str());
                inner.push(':');
                proof {
                    object_value_is_smaller(*j, i as int);
                }
                inner.append(render_json(&m.entries[i].1).as_str());
                proof {
                    let next = items.take(i + 1);
                    assert(next.drop_last() =~= items.take(i as int));
                    assert(next.last() == items[i as int]);
                    assert(inner@ =~= entries_text(next));
                }
                i += 1;
            }
            assert(items.take(i as int) =~= items);
            let mut out = String::new();
            out.push('{');
            out.append(inner.as_str());
            out.push('}');
            assert(out@ =~= seq!['{'] + entries_text(items) + seq!['}']);
            out
        },
    }
}

/// Do two JSON numbers say the same? An integer and a float never do; both
/// zeros do.
pub open spec fn numbers_equal(a: NumberModel, b: NumberModel) -> bool {
    match (a, b) {
        (NumberModel::Int(x), NumberModel::Int(y)) => x == y,
        (NumberModel::Big(x, _), NumberModel::Big(y, _)) => x == y,
        (NumberModel::Float(x), NumberModel::Float(y)) => float_rank(x.bits) == float_rank(y.bits),
        _ => false,
    }
}

/// Do two JSON values say the same?
pub open spec fn json_equal(a: JsonModel, b: JsonModel) -> bool
    decreases a,
{
    match (a, b) {
        (JsonModel::Null, JsonModel::Null) => true,
        (JsonModel::Bool(x), JsonModel::Bool(y)) => x == y,
        (JsonModel::Number(x), JsonModel::Number(y)) => numbers_equal(x, y),
        (JsonModel::Str(x), JsonModel::Str(y)) => x == y,
        (JsonModel::Array(x), JsonModel::Array(y)) => items_equal(x, y),
        (JsonModel::Object(x), JsonModel::Object(y)) => entries_equal(x, y),
        _ => false,
    }
}

/// Do the items say the same, one by one?
pub open spec fn items_equal(a: Seq<JsonModel>, b: Seq<JsonModel>) -> bool
    decreases a,
{
    if a.len() != b.len() {
        false
    } else if a.len() == 0 {
        true
    } else {
        items_equal(a.drop_last(), b.drop_last()) && json_equal(a.last(), b.last())
    }
}

/// Do the entries say the same, one by one?
pub open spec fn entries_equal(
    a: Seq<(Seq<char>, JsonModel)>,
    b: Seq<(Seq<char>, JsonModel)>,
) -> bool
    decreases a,
{
    if a.len() != b.len() {
        false
    } else if a.len() == 0 {
        true
    } else {
        entries_equal(a.drop_last(), b.drop_last()) && a.last().0 == b.last().0 && json_equal(
            a.last().1,
            b.last().1,
        )
    }
}

proof fn items_stay_unequal(a: Seq<JsonModel>, b: Seq<JsonModel>, n: int)
    requires
        a.len() == b.len(),
        0 <= n <= a.len(),
        !items_equal(a.take(n), b.take(n)),
    ensures
        !items_equal(a, b),
    decreases a.len(),
{
    if n == a.len() {
        assert(a.take(n) =~= a);
        assert(b.take(n) =~= b);
    } else {
        assert(a.drop_last().take(n) =~= a.take(n));
        assert(b.drop_last().take(n) =~= b.take(n));
        items_stay_unequal(a.drop_last(), b.drop_last(), n);
    }
}

proof fn entries_stay_unequal(
    a: Seq<(Seq<char>, JsonModel)>,
    b: Seq<(Seq<char>, JsonModel)>,
    n: int,
)
    requires
        a.len() == b.len(),
        0 <= n <= a.len(),
        !entries_equal(a.take(n), b.take(n)),
    ensures
        !entries_equal(a, b),
    decreases a.len(),
{
    if n == a.len() {
        assert(a.take(n) =~= a);
        assert(b.take(n) =~= b);
    } else {
        assert(a.drop_last().take(n) =~= a.take(n));
        assert(b.drop_last().take(n) =~= b.take(n));
        entries_stay_unequal(a.drop_last(), b.drop_last(), n);
    }
}

pub fn rank_of(bits: u64) -> (r: i128)
    ensures
        r == float_rank(bits),
{
    if bits < 0x8000_0000_0000_0000u64 {
        bits as i128
    } else {
        0x8000_0000_0000_0000i128 - bits as i128
    }
}

/// Do two JSON numbers say the same?
pub fn number_eq(a: &JsonNumber, b: &JsonNumber) -> (r: bool)
    ensures
        r == numbers_equal(a.deep_view(), b.deep_view()),
{
    match (a, b) {
        (JsonNumber::Int(x), JsonNumber::Int(y)) => *x == *y,
        (JsonNumber::Big(x, _), JsonNumber::Big(y, _)) => *x == *y,
        (JsonNumber::Float(x), JsonNumber::Float(y)) => rank_of(x.bits) == rank_of(y.bits),
        _ => false,
    }
}

/// Do two JSON values say the same?
pub fn json_eq(a: &Json, b: &Json) -> (r: bool)
    ensures
        r == json_equal(a.deep_view(), b.deep_view()),
    decreases a,
{
    broadcast use group_json_models;

    match (a, b) {
        (Json::Null, Json::Null) => true,
        (Json::Bool(x), Json::Bool(y)) => *x == *y,
        (Json::Number(x), Json::Number(y)) => number_eq(x, y),
        (Json::Str(x), Json::Str(y)) => text::text_eq(x.as_str(), y.as_str()),
        (Json::Array(x), Json::Array(y)) => {
            let ghost xs = x.deep_view();
            let ghost ys = y.deep_view();
            if x.len() != y.len() {
                return false;
            }
            let mut i: usize = 0;
            while i < x.len()
                invariant
                    *a == Json::Array(*x),
                    *b == Json::Array(*y),
                    xs == x.deep_view(),
                    ys == y.deep_view(),
                    x@.len() == y@.len(),
                    0 <= i <= x@.len(),
                    items_equal(xs.take(i as int), ys.take(i as int)),
                decreases x@.len() - i,
            {
                proof {
                    array_item_is_smaller(*a, i as int);
                    assert(xs.take(i + 1).drop_last() =~= xs.take(i as int));
                    assert(ys.take(i + 1).drop_last() =~= ys.take(i as int));
                    assert(xs.take(i + 1).last() == x@[i as int].deep_view());
                    assert(ys.take(i + 1).last() == y@[i as int].deep_view());
                }
                if !json_eq(&x[i], &y[i]) {
                    proof {
                        items_stay_unequal(xs, ys, i + 1);
                        json_array_model(*x);
                        json_array_model(*y);
                    }
                    return false;
                }
                i += 1;
            }
            assert(xs.take(i as int) =~= xs);
            assert(ys.take(i as int) =~= ys);
            true
        },
        (Json::Object(x), Json::Object(y)) => {
            let ghost xs = x.deep_view();
            let ghost ys = y.deep_view();
            if x.entries.len() != y.entries.len() {
                return false;
            }
            let mut i: usize = 0;
            while i < x.entries.len()
                invariant
                    *a == Json::Object(*x),
                    *b == Json::Object(*y),
                    xs == x.deep_view(),
                    ys == y.deep_view(),
                    x.entries@.len() == y.entries@.len(),
                    0 <= i <= x.entries@.len(),
                    entries_equal(xs.take(i as int), ys.take(i as int)),
                decreases x.entries@.len() - i,
            {
                proof {
                    object_value_is_smaller(*a, i as int);
                    assert(xs.take(i + 1).drop_last() =~= xs.take(i as int));
                    assert(ys.take(i + 1).drop_last() =~= ys.take(i as int));
                    assert(xs.take(i + 1).last() == x.entries@[i as int].deep_view());
                    assert(ys.take(i + 1).last() == y.entries@[i as int].deep_view());
                }
                if !text::text_eq(x.entries[i].0.as_str(), y.entries[i].0.as_str()) || !json_eq(
                    &x.entries[i].1,
                    &y.entries[i].1,
                ) {
                    proof {
                        entries_stay_unequal(xs, ys, i + 1);
                        json_object_model(*x);
                        json_object_model(*y);
                    }
                    return false;
                }
                i += 1;
            }
            assert(xs.take(i as int) =~= xs);
            assert(ys.take(i as int) =~= ys);
            true
        },
        _ => false,
    }
}

/// The text of an array has the texts of its items in their order, with commas between them and
/// brackets around them.
pub proof fn law_array_texts_join(a: Seq<JsonModel>, b: Seq<JsonModel>)
    requires
        a.len() > 0,
        b.len() > 0,
    ensures
        json_text(JsonModel::Array(a + b)) == seq!['['] + items_text(a) + seq![','] + items_text(b)
            + seq![']'],
        items_text(seq![a[0]]) == json_text(a[0]),
        json_text(JsonModel::Array(Seq::empty())) == seq!['[', ']'],
{
    items_join(a, b);
    assert(json_text(JsonModel::Array(a + b)) =~= seq!['['] + items_text(a) + seq![','] + items_text(
        b,
    ) + seq![']']);
    assert(items_text(Seq::empty()).len() == 0);
    assert(json_text(JsonModel::Array(Seq::empty())) =~= seq!['[', ']']);
}

proof fn items_join(a: Seq<JsonModel>, b: Seq<JsonModel>)
    requires
        a.len() > 0,
        b.len() > 0,
    ensures
        items_text(a + b) == items_text(a) + seq![','] + items_text(b),
    decreases b.len(),
{
    let all = a + b;
    assert(all.last() == b.last());
    if b.len() == 1 {
        assert(all.drop_last() =~= a);
        assert(b.last() == b[0]);
    } else {
        items_join(a, b.drop_last());
        assert(all.drop_last() =~= a + b.drop_last());
        assert(items_text(all) =~= items_text(a) + seq![','] + items_text(b));
    }
}

/// The text of an object has its entries in their order, each its name in quotes, a colon and its
/// value, with commas between them and braces around them.
pub proof fn law_object_texts_join(
    a: Seq<(Seq<char>, JsonModel)>,
    b: Seq<(Seq<char>, JsonModel)>,
)
    requires
        a.len() > 0,
        b.len() > 0,
    ensures
        json_text(JsonModel::Object(a + b)) == seq!['{'] + entries_text(a) + seq![',']
            + entries_text(b) + seq!['}'],
        entries_text(seq![a[0]]) == quoted_text(a[0].0) + seq![':'] + json_text(a[0].1),
        json_text(JsonModel::Object(Seq::empty())) == seq!['{', '}'],
{
    entries_join(a, b);
    assert(json_text(JsonModel::Object(a + b)) =~= seq!['{'] + entries_text(a) + seq![',']
        + entries_text(b) + seq!['}']);
    assert(entries_text(Seq::empty()).len() == 0);
    assert(json_text(JsonModel::Object(Seq::empty())) =~= seq!['{', '}']);
}

proof fn entries_join(a: Seq<(Seq<char>, JsonModel)>, b: Seq<(Seq<char>, JsonModel)>)
    requires
        a.len() > 0,
        b.len() > 0,
    ensures
        entries_text(a + b) == entries_text(a) + seq![','] + entries_text(b),
    decreases b.len(),
{
    let all = a + b;
    assert(all.last() == b.last());
    if b.len() == 1 {
        assert(all.drop_last() =~= a);
        assert(b.last() == b[0]);
        assert(entries_text(all) =~= entries_text(a) + seq![','] + entries_text(b));
    } else {
        entries_join(a, b.drop_last());
        assert(all.drop_last() =~= a + b.drop_last());
        assert(entries_text(all) =~= entries_text(a) + seq![','] + entries_text(b));
    }
}

/// Equal values are equal part by part: lists item by item, objects entry by entry, and a value of
/// one kind never equals one of another.
pub proof fn law_equal_json_is_equal_by_parts(
    a: Seq<JsonModel>,
    b: Seq<JsonModel>,
    x: Seq<(Seq<char>, JsonModel)>,
    y: Seq<(Seq<char>, JsonModel)>,
)
    ensures
        json_equal(JsonModel::Array(a), JsonModel::Array(b)) <==> a.len() == b.len() && forall|i:
            int| 0 <= i < a.len() ==> json_equal(#[trigger] a[i], b[i]),
        json_equal(JsonModel::Object(x), JsonModel::Object(y)) <==> x.len() == y.len() && forall|i:
            int|
            0 <= i < x.len() ==> (#[trigger] x[i]).0 == y[i].0 && json_equal(x[i].1, y[i].1),
        !json_equal(JsonModel::Array(a), JsonModel::Object(x)),
        !json_equal(JsonModel::Array(a), JsonModel::Null),
{
    items_by_parts(a, b);
    entries_by_parts(x, y);
}

proof fn items_by_parts(a: Seq<JsonModel>, b: Seq<JsonModel>)
    ensures
        items_equal(a, b) <==> a.len() == b.len() && forall|i: int|
            0 <= i < a.len() ==> json_equal(#[trigger] a[i], b[i]),
    decreases a.len(),
{
    if a.len() == b.len() && a.len() > 0 {
        let p = a.drop_last();
        let q = b.drop_last();
        items_by_parts(p, q);
        let n = a.len() - 1;
        assert(a[n] == a.last() && b[n] == b.last());
        if items_equal(a, b) {
            assert forall|i: int| 0 <= i < a.len() implies json_equal(#[trigger] a[i], b[i]) by {
                if i < n {
                    assert(json_equal(p[i], q[i]));
                }
            }
        }
        if forall|i: int| 0 <= i < a.len() ==> json_equal(#[trigger] a[i], b[i]) {
            assert forall|i: int| 0 <= i < p.len() implies json_equal(#[trigger] p[i], q[i]) by {
                assert(json_equal(a[i], b[i]));
            }
            assert(json_equal(a[n], b[n]));
        }
    }
}

proof fn entries_by_parts(x: Seq<(Seq<char>, JsonModel)>, y: Seq<(Seq<char>, JsonModel)>)
    ensures
        entries_equal(x, y) <==> x.len() == y.len() && forall|i: int|
            0 <= i < x.len() ==> (#[trigger] x[i]).0 == y[i].0 && json_equal(x[i].1, y[i].1),
    decreases x.len(),
{
    if x.len() == y.len() && x.len() > 0 {
        let p = x.drop_last();
        let q = y.drop_last();
        entries_by_parts(p, q);
        let n = x.len() - 1;
        assert(x[n] == x.last() && y[n] == y.last());
        if entries_equal(x, y) {
            assert forall|i: int| 0 <= i < x.len() implies (#[trigger] x[i]).0 == y[i].0
                && json_equal(x[i].1, y[i].1) by {
                if i < n {
                    assert(p[i].0 == q[i].0);
                }
            }
        }
        if forall|i: int|
            0 <= i < x.len() ==> (#[trigger] x[i]).0 == y[i].0 && json_equal(x[i].1, y[i].1) {
            assert forall|i: int| 0 <= i < p.len() implies (#[trigger] p[i]).0 == q[i].0
                && json_equal(p[i].1, q[i].1) by {
                assert(x[i].0 == y[i].0);
            }
            assert(x[n].0 == y[n].0);
        }
    }
}

/// Plain values are equal where they are the same; an integer never equals a float.
pub proof fn law_plain_json_is_equal_by_value(
    a: bool,
    b: bool,
    s: Seq<char>,
    t: Seq<char>,
    i: i64,
    j: i64,
    f: FloatModel,
)
    ensures
        json_equal(JsonModel::Null, JsonModel::Null),
        json_equal(JsonModel::Bool(a), JsonModel::Bool(b)) <==> a == b,
        json_equal(JsonModel::Str(s), JsonModel::Str(t)) <==> s == t,
        json_equal(
            JsonModel::Number(NumberModel::Int(i)),
            JsonModel::Number(NumberModel::Int(j)),
        ) <==> i == j,
        !json_equal(
            JsonModel::Number(NumberModel::Int(i)),
            JsonModel::Number(NumberModel::Float(f)),
        ),
        json_equal(
            JsonModel::Number(NumberModel::Float(f)),
            JsonModel::Number(NumberModel::Float(f)),
        ),
        !json_equal(JsonModel::Null, JsonModel::Bool(a)),
        !json_equal(JsonModel::Str(s), JsonModel::Number(NumberModel::Int(i))),
{
}

} // verus!
