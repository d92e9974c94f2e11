//! JSON values as literals of a declared type.

use vstd::prelude::*;
use crate::graph::canonical;
use crate::graph::canonical::json_to_string;
use crate::graph::schema::OntologyPropertyType;
use crate::graph::schema::PropertyType;
use crate::ingest::error;
use crate::ingest::error::IngestError;
use crate::ingest::error::IngestErrorModel;
use crate::json;
use crate::json::Float;
use crate::json::FloatModel;
use crate::json::Json;
use crate::json::JsonModel;
use crate::json::JsonNumber;
use crate::json::NumberModel;
use crate::literal;
use crate::literal::Literal;
use crate::literal::LiteralModel;
use crate::strmap;
use crate::strmap::StrMap;
use crate::text;

verus! {

broadcast use vstd::string::group_string_axioms;

/// What texts read as floating-point numbers: the number where a text writes
/// one, no entry where it does not.
pub type FloatTable = StrMap<Float>;

pub type FloatTableModel = Seq<(Seq<char>, FloatModel)>;

/// The name of a type in messages.
pub open spec fn type_word(t: PropertyType) -> Seq<char> {
    match t {
        OntologyPropertyType::Keyword => "Keyword"@,
        OntologyPropertyType::Text => "Text"@,
        OntologyPropertyType::Number => "Number"@,
        OntologyPropertyType::Bool => "Bool"@,
        OntologyPropertyType::Datetime => "Datetime"@,
        OntologyPropertyType::List => "List"@,
    }
}

pub fn name_of_type(t: PropertyType) -> (r: &'static str)
    ensures
        r@ == type_word(t),
{
    match t {
        OntologyPropertyType::Keyword => "Keyword",
        OntologyPropertyType::Text => "Text",
        OntologyPropertyType::Number => "Number",
        OntologyPropertyType::Bool => "Bool",
        OntologyPropertyType::Datetime => "Datetime",
        OntologyPropertyType::List => "List",
    }
}

/// A value that its declared type does not take.
pub open spec fn conversion_error(name: Seq<char>, t: PropertyType, actual: Seq<char>) ->
    IngestErrorModel {
    IngestErrorModel::Type(
        "property '"@ + name + "' with type "@ + type_word(t) + " cannot be converted from "@
            + actual,
    )
}

pub fn type_conversion_error(property_name: &str, property_type: PropertyType, actual: &str) -> (r:
    IngestError)
    ensures
        r.deep_view() == conversion_error(property_name@, property_type, actual@),
{
    let mut m = "property '".to_owned();
    m.append(property_name);
    m.append("' with type ");
    m.append(name_of_type(property_type));
    m.append(" cannot be converted from ");
    m.append(actual);
    IngestError::Type(m)
}

/// The kind of a JSON value in messages.
pub open spec fn kind_of(j: JsonModel) -> Seq<char> {
    match j {
        JsonModel::Null => "null"@,
        JsonModel::Bool(_) => "bool"@,
        JsonModel::Number(_) => "number"@,
        JsonModel::Str(_) => "string"@,
        JsonModel::Array(_) => "array"@,
        JsonModel::Object(_) => "object"@,
    }
}

pub fn json_kind(j: &Json) -> (r: &'static str)
    ensures
        r@ == kind_of(j.deep_view()),
{
    match j {
        Json::Null => "null",
        Json::Bool(_) => "bool",
        Json::Number(_) => "number",
        Json::Str(_) => "string",
        Json::Array(_) => "array",
        Json::Object(_) => "object",
    }
}

/// A finite float as a literal.
pub open spec fn finite_literal(x: FloatModel, name: Seq<char>) -> Result<
    LiteralModel,
    IngestErrorModel,
> {
    if json::is_finite_bits(x.bits) {
        Ok(LiteralModel::Float(x))
    } else {
        Err(conversion_error(name, OntologyPropertyType::Number, "non-finite number"@))
    }
}

fn finite_float(x: &Float, name: &str) -> (r: Result<Literal, IngestError>)
    ensures
        error::outcome_model(r) == finite_literal(x.deep_view(), name@),
{
    if (x.bits >> 52) & 0x7ff != 0x7ff {
        Ok(Literal::Float(x.copy()))
    } else {
        Err(type_conversion_error(name, OntologyPropertyType::Number, "non-finite number"))
    }
}

/// A value as a number: integers of 64 bits stay integers, other numbers become
/// floats, and text is read after trimming.
pub open spec fn number_literal(j: JsonModel, name: Seq<char>, floats: FloatTableModel) -> Result<
    LiteralModel,
    IngestErrorModel,
> {
    match j {
        JsonModel::Null => Ok(LiteralModel::Null),
        JsonModel::Number(n) => match n {
            NumberModel::Int(i) => Ok(LiteralModel::Int(i)),
            NumberModel::Big(_, x) => finite_literal(x, name),
            NumberModel::Float(x) => finite_literal(x, name),
        },
        JsonModel::Str(s) => {
            let t = text::trimmed(s);
            match text::i64_of(t) {
                Some(i) => Ok(LiteralModel::Int(i)),
                None => match strmap::assoc_get(floats, t) {
                    Some(x) => finite_literal(x, name),
                    None => Err(conversion_error(name, OntologyPropertyType::Number, "string"@)),
                },
            }
        },
        _ => Err(conversion_error(name, OntologyPropertyType::Number, kind_of(j))),
    }
}

/// A value as a number. `floats` says how texts read as floats.
pub fn json_to_number(value: &Json, property_name: &str, floats: &FloatTable) -> (r: Result<
    Literal,
    IngestError,
>)
    ensures
        error::outcome_model(r) == number_literal(
            value.deep_view(),
            property_name@,
            floats.deep_view(),
        ),
{
    match value {
        Json::Null => Ok(Literal::Null),
        Json::Number(n) => match n {
            JsonNumber::Int(i) => Ok(Literal::Int(*i)),
            JsonNumber::Big(_, x) => finite_float(x, property_name),
            JsonNumber::Float(x) => finite_float(x, property_name),
        },
        Json::Str(s) => {
            let t = text::trim(s.as_str());
            match text::parse_i64(t.as_str()) {
                Some(i) => Ok(Literal::Int(i)),
                None => match floats.get(t.as_str()) {
                    Some(x) => finite_float(x, property_name),
                    None => Err(
                        type_conversion_error(property_name, OntologyPropertyType::Number, "string"),
                    ),
                },
            }
        },
        _ => Err(
            type_conversion_error(property_name, OntologyPropertyType::Number, json_kind(value)),
        ),
    }
}

/// Texts that say yes.
pub open spec fn says_yes(s: Seq<char>) -> bool {
    s == "true"@ || s == "yes"@ || s == "y"@ || s == "1"@ || s == "on"@
}

/// Texts that say no.
pub open spec fn says_no(s: Seq<char>) -> bool {
    s == "false"@ || s == "no"@ || s == "n"@ || s == "0"@ || s == "off"@
}

/// A value as a boolean; text is read after trimming, in any case.
pub open spec fn bool_of(j: JsonModel, name: Seq<char>) -> Result<bool, IngestErrorModel> {
    match j {
        JsonModel::Bool(b) => Ok(b),
        JsonModel::Str(s) => {
            let t = text::ascii_lower(text::trimmed(s));
            if says_yes(t) {
                Ok(true)
            } else if says_no(t) {
                Ok(false)
            } else {
                Err(conversion_error(name, OntologyPropertyType::Bool, "string"@))
            }
        },
        _ => Err(conversion_error(name, OntologyPropertyType::Bool, kind_of(j))),
    }
}

/// A value as a boolean.
pub fn json_to_bool(value: &Json, property_name: &str) -> (r: Result<bool, IngestError>)
    ensures
        error::outcome_model(r) == bool_of(value.deep_view(), property_name@),
{
    match value {
        Json::Bool(b) => Ok(*b),
        Json::Str(s) => {
            let trimmed = text::trim(s.as_str());
            let lower = text::to_ascii_lower(trimmed.as_str());
            let t = lower.as_str();
            if text::text_eq(t, "true") || text::text_eq(t, "yes") || text::text_eq(t, "y")
                || text::text_eq(t, "1") || text::text_eq(t, "on") {
                Ok(true)
            } else if text::text_eq(t, "false") || text::text_eq(t, "no") || text::text_eq(t, "n")
                || text::text_eq(t, "0") || text::text_eq(t, "off") {
                Ok(false)
            } else {
                Err(type_conversion_error(property_name, OntologyPropertyType::Bool, "string"))
            }
        },
        _ => Err(
            type_conversion_error(property_name, OntologyPropertyType::Bool, json_kind(value)),
        ),
    }
}

/// A value as a literal of the same shape.
pub open spec fn literal_of_json(j: JsonModel) -> LiteralModel
    decreases j,
{
    match j {
        JsonModel::Null => LiteralModel::Null,
        JsonModel::Bool(b) => LiteralModel::Bool(b),
        JsonModel::Number(n) => match n {
            NumberModel::Int(i) => LiteralModel::Int(i),
            NumberModel::Big(_, x) => LiteralModel::Float(x),
            NumberModel::Float(x) => LiteralModel::Float(x),
        },
        JsonModel::Str(s) => LiteralModel::Str(s),
        JsonModel::Array(items) => LiteralModel::List(
            Seq::new(
                items.len(),
                |i: int|
                    if 0 <= i < items.len() {
                        literal_of_json(items[i])
                    } else {
                        LiteralModel::Null
                    },
            ),
        ),
        JsonModel::Object(entries) => LiteralModel::Object(
            Seq::new(
                entries.len(),
                |i: int|
                    if 0 <= i < entries.len() {
                        (entries[i].0, literal_of_json(entries[i].1))
                    } else {
                        (Seq::empty(), LiteralModel::Null)
                    },
            ),
        ),
    }
}

/// A value as a literal of the same shape.
pub fn literal_from_json_untyped(value: &Json) -> (r: Literal)
    ensures
        r.deep_view() == literal_of_json(value.deep_view()),
    decreases value,
{
    match value {
        Json::Null => Literal::Null,
        Json::Bool(b) => Literal::Bool(*b),
        Json::Number(n) => match n {
            JsonNumber::Int(i) => Literal::Int(*i),
            JsonNumber::Big(_, x) => Literal::Float(x.copy()),
            JsonNumber::Float(x) => Literal::Float(x.copy()),
        },
        Json::Str(s) => Literal::String(s.clone()),
        Json::Array(v) => {
            let mut out: Vec<Literal> = Vec::new();
            let mut i: usize = 0;
            while i < v.len()
                invariant
                    *value == Json::Array(*v),
                    0 <= i <= v@.len(),
                    out@.len() == i,
                    forall|j: int|
                        0 <= j < i ==> (#[trigger] out@[j]).deep_view() == literal_of_json(
                            v@[j].deep_view(),
                        ),
                decreases v@.len() - i,
            {
                proof {
                    json::array_item_is_smaller(*value, i as int);
                }
                out.push(literal_from_json_untyped(&v[i]));
                i += 1;
            }
            proof {
                json::json_array_model(*v);
                literal::literal_list_model(out);
                assert(out.deep_view() =~= literal_of_json(value.deep_view())->List_0);
            }
            Literal::List(out)
        },
        Json::Object(m) => {
            let mut out: Vec<(String, Literal)> = Vec::new();
            let mut i: usize = 0;
            while i < m.entries.len()
                invariant
                    *value == Json::Object(*m),
                    0 <= i <= m.entries@.len(),
                    out@.len() == i,
                    forall|j: int|
                        0 <= j < i ==> (#[trigger] out@[j]).deep_view() == (
                            m.entries@[j].0@,
                            literal_of_json(m.entries@[j].1.deep_view()),
                        ),
                decreases m.entries@.len() - i,
            {
                proof {
                    json::object_value_is_smaller(*value, i as int);
                }
                let x = literal_from_json_untyped(&m.entries[i].1);
                out.push((m.entries[i].0.clone(), x));
                i += 1;
            }
            let map = StrMap { entries: out };
            proof {
                json::json_object_model(*m);
                literal::literal_object_model(map);
                assert(map.deep_view() =~= literal_of_json(value.deep_view())->Object_0);
            }
            Literal::Object(map)
        },
    }
}

/// A value as a literal of a declared type.
pub open spec fn typed_literal(
    j: JsonModel,
    name: Seq<char>,
    t: PropertyType,
    floats: FloatTableModel,
) -> Result<LiteralModel, IngestErrorModel> {
    match t {
        OntologyPropertyType::Keyword => Ok(LiteralModel::Str(canonical::plain_text(j))),
        OntologyPropertyType::Text => Ok(LiteralModel::Str(canonical::plain_text(j))),
        OntologyPropertyType::Number => number_literal(j, name, floats),
        OntologyPropertyType::Bool => match bool_of(j, name) {
            Ok(b) => Ok(LiteralModel::Bool(b)),
            Err(e) => Err(e),
        },
        OntologyPropertyType::Datetime => match j {
            JsonModel::Null => Ok(LiteralModel::Null),
            JsonModel::Str(s) => Ok(LiteralModel::Str(s)),
            JsonModel::Number(n) => Ok(LiteralModel::Str(json::number_text(n))),
            _ => Err(conversion_error(name, t, kind_of(j))),
        },
        OntologyPropertyType::List => Ok(literal_of_json(j)),
    }
}

/// A value as a literal of a declared type.
pub fn literal_from_json_as_type(
    value: &Json,
    property_name: &str,
    property_type: PropertyType,
    floats: &FloatTable,
) -> (r: Result<Literal, IngestError>)
    ensures
        error::outcome_model(r) == typed_literal(
            value.deep_view(),
            property_name@,
            property_type,
            floats.deep_view(),
        ),
{
    match property_type {
        OntologyPropertyType::Keyword => Ok(Literal::String(json_to_string(value))),
        OntologyPropertyType::Text => Ok(Literal::String(json_to_string(value))),
        OntologyPropertyType::Number => json_to_number(value, property_name, floats),
        OntologyPropertyType::Bool => match json_to_bool(value, property_name) {
            Ok(b) => Ok(Literal::Bool(b)),
            Err(e) => Err(e),
        },
        OntologyPropertyType::Datetime => match value {
            Json::Null => Ok(Literal::Null),
            Json::Str(s) => Ok(Literal::String(s.clone())),
            Json::Number(_) => Ok(Literal::String(json::render_json(value))),
            _ => Err(type_conversion_error(property_name, property_type, json_kind(value))),
        },
        OntologyPropertyType::List => Ok(literal_from_json_untyped(value)),
    }
}

/// A value as a literal, of a declared type where there is one.
pub fn literal_from_json(
    value: &Json,
    property_name: &str,
    property_type: Option<PropertyType>,
    floats: &FloatTable,
) -> (r: Result<Literal, IngestError>)
    ensures
        error::outcome_model(r) == (match property_type {
            Some(t) => typed_literal(value.deep_view(), property_name@, t, floats.deep_view()),
            None => Ok(literal_of_json(value.deep_view())),
        }),
{
    match property_type {
        Some(t) => literal_from_json_as_type(value, property_name, t, floats),
        None => Ok(literal_from_json_untyped(value)),
    }
}

/// A value is stored as its declared type reads it. Texts stand as they are; numbers stay
/// numbers, and a text that writes an integer is that integer; truth values stay what they
/// are. What a type cannot read is an error, and never another value.
pub proof fn law_values_are_read_by_type(
    j: JsonModel,
    name: Seq<char>,
    t: PropertyType,
    floats: FloatTableModel,
)
    ensures
        ({
            let r = typed_literal(j, name, t, floats);
            match t {
                OntologyPropertyType::Keyword | OntologyPropertyType::Text => match j {
                    JsonModel::Str(s) => r == Ok::<LiteralModel, IngestErrorModel>(
                        LiteralModel::Str(s),
                    ),
                    _ => r == Ok::<LiteralModel, IngestErrorModel>(
                        LiteralModel::Str(json::json_text(j)),
                    ),
                },
                OntologyPropertyType::Number => match j {
                    JsonModel::Null => r == Ok::<LiteralModel, IngestErrorModel>(
                        LiteralModel::Null,
                    ),
                    JsonModel::Number(NumberModel::Int(i)) => r == Ok::<
                        LiteralModel,
                        IngestErrorModel,
                    >(LiteralModel::Int(i)),
                    JsonModel::Number(NumberModel::Float(x)) => if json::is_finite_bits(x.bits) {
                        r == Ok::<LiteralModel, IngestErrorModel>(LiteralModel::Float(x))
                    } else {
                        r is Err
                    },
                    JsonModel::Number(NumberModel::Big(_, x)) => if json::is_finite_bits(x.bits) {
                        r == Ok::<LiteralModel, IngestErrorModel>(LiteralModel::Float(x))
                    } else {
                        r is Err
                    },
                    JsonModel::Str(s) => match r {
                        Ok(LiteralModel::Int(i)) => text::i64_of(text::trimmed(s)) == Some(i),
                        Ok(LiteralModel::Float(x)) => text::i64_of(text::trimmed(s)) is None
                            && strmap::assoc_get(floats, text::trimmed(s)) == Some(x),
                        Ok(_) => false,
                        Err(_) => text::i64_of(text::trimmed(s)) is None,
                    },
                    _ => r is Err,
                },
                OntologyPropertyType::Bool => match j {
                    JsonModel::Bool(b) => r == Ok::<LiteralModel, IngestErrorModel>(
                        LiteralModel::Bool(b),
                    ),
                    JsonModel::Str(s) => match r {
                        Ok(LiteralModel::Bool(b)) => if b {
                            says_yes(text::ascii_lower(text::trimmed(s)))
                        } else {
                            says_no(text::ascii_lower(text::trimmed(s)))
                        },
                        Ok(_) => false,
                        Err(_) => !says_yes(text::ascii_lower(text::trimmed(s))) && !says_no(
                            text::ascii_lower(text::trimmed(s)),
                        ),
                    },
                    _ => r is Err,
                },
                OntologyPropertyType::Datetime => match j {
                    JsonModel::Null => r == Ok::<LiteralModel, IngestErrorModel>(
                        LiteralModel::Null,
                    ),
                    JsonModel::Str(s) => r == Ok::<LiteralModel, IngestErrorModel>(
                        LiteralModel::Str(s),
                    ),
                    JsonModel::Number(_) => r == Ok::<LiteralModel, IngestErrorModel>(
                        LiteralModel::Str(json::json_text(j)),
                    ),
                    _ => r is Err,
                },
                OntologyPropertyType::List => r is Ok && same_shape(j, r->Ok_0),
            }
        }),
{
    literal_keeps_shape(j);
}

/// The words for yes and no are the usual ones, and none is both.
pub proof fn law_yes_is_not_no(s: Seq<char>)
    ensures
        !(says_yes(s) && says_no(s)),
        says_yes("true"@) && says_yes("yes"@) && says_yes("y"@) && says_yes("1"@) && says_yes("on"@),
        says_no("false"@) && says_no("no"@) && says_no("n"@) && says_no("0"@) && says_no("off"@),
{
    reveal_strlit("true");
    reveal_strlit("yes");
    reveal_strlit("y");
    reveal_strlit("1");
    reveal_strlit("on");
    reveal_strlit("false");
    reveal_strlit("no");
    reveal_strlit("n");
    reveal_strlit("0");
    reveal_strlit("off");
    assert("true"@.len() == 4 && "yes"@.len() == 3 && "y"@.len() == 1 && "1"@.len() == 1
        && "on"@.len() == 2 && "false"@.len() == 5 && "no"@.len() == 2 && "n"@.len() == 1
        && "0"@.len() == 1 && "off"@.len() == 3);
    assert("yes"@[0] == 'y' && "off"@[0] == 'o' && "y"@[0] == 'y' && "n"@[0] == 'n' && "1"@[0]
        == '1' && "0"@[0] == '0' && "on"@[0] == 'o' && "no"@[0] == 'n');
}

/// An integer that is written out is read back as itself, also with white space around it.
pub proof fn law_written_numbers_are_read(i: i64, name: Seq<char>, floats: FloatTableModel)
    ensures
        typed_literal(
            JsonModel::Str(text::int_text(i as int)),
            name,
            OntologyPropertyType::Number,
            floats,
        ) == Ok::<LiteralModel, IngestErrorModel>(LiteralModel::Int(i)),
{
    text::law_written_integers_are_read(i);
    text::written_integer_has_no_white(i as int);
}

/// Has a literal the shape of a value: the same values, one for one, in lists and objects of
/// the same length, in the same order?
pub open spec fn same_shape(j: JsonModel, x: LiteralModel) -> bool
    decreases j,
{
    match (j, x) {
        (JsonModel::Null, LiteralModel::Null) => true,
        (JsonModel::Bool(a), LiteralModel::Bool(b)) => a == b,
        (JsonModel::Number(NumberModel::Int(a)), LiteralModel::Int(b)) => a == b,
        (JsonModel::Number(NumberModel::Float(a)), LiteralModel::Float(b)) => a == b,
        (JsonModel::Number(NumberModel::Big(_, a)), LiteralModel::Float(b)) => a == b,
        (JsonModel::Str(a), LiteralModel::Str(b)) => a == b,
        (JsonModel::Array(a), LiteralModel::List(b)) => a.len() == b.len() && forall|i: int|
            0 <= i < a.len() ==> same_shape(#[trigger] a[i], b[i]),
        (JsonModel::Object(a), LiteralModel::Object(b)) => a.len() == b.len() && forall|i: int|
            0 <= i < a.len() ==> a[i].0 == b[i].0 && same_shape((#[trigger] a[i]).1, b[i].1),
        _ => false,
    }
}

proof fn literal_keeps_shape(j: JsonModel)
    ensures
        same_shape(j, literal_of_json(j)),
    decreases j,
{
    match j {
        JsonModel::Array(a) => {
            let b = literal_of_json(j)->List_0;
            assert forall|i: int| 0 <= i < a.len() implies same_shape(#[trigger] a[i], b[i]) by {
                literal_keeps_shape(a[i]);
            }
        },
        JsonModel::Object(a) => {
            let b = literal_of_json(j)->Object_0;
            assert forall|i: int| 0 <= i < a.len() implies a[i].0 == b[i].0 && same_shape(
                (#[trigger] a[i]).1,
                b[i].1,
            ) by {
                literal_keeps_shape(a[i].1);
            }
        },
        _ => {},
    }
}

/// A type is read from its own name, and from that of the handler which stores it; only lists,
/// which are stored plainly, share the handler of another type.
pub proof fn law_types_are_read_from_their_names(t: PropertyType)
    ensures
        crate::graph::schema::type_of_spelling(type_word(t)) == Some(t),
        crate::graph::schema::type_of_spelling(crate::graph::schema::handler_of(t)) == Some(t) || t
            == OntologyPropertyType::List,
        crate::graph::schema::query_handler_of(t) is Some && t != OntologyPropertyType::List
            ==> crate::graph::schema::query_handler_of(t) == Some(
            crate::graph::schema::handler_of(t),
        ),
        crate::graph::schema::query_handler_of(t) is None <==> t == OntologyPropertyType::Number || t
            == OntologyPropertyType::Bool,
{
    reveal_strlit("Keyword");
    reveal_strlit("String");
    reveal_strlit("Text");
    reveal_strlit("SemanticText");
    reveal_strlit("Number");
    reveal_strlit("Int");
    reveal_strlit("Float");
    reveal_strlit("Bool");
    reveal_strlit("Boolean");
    reveal_strlit("Datetime");
    reveal_strlit("DateTime");
    reveal_strlit("Date");
    reveal_strlit("Timestamp");
    reveal_strlit("List");
    assert("Number"@ != "String"@) by {
        assert("Number"@[0] != "String"@[0]);
    }
    assert("Boolean"@ != "Keyword"@) by {
        assert("Boolean"@[0] != "Keyword"@[0]);
    }
    assert("Bool"@ != "Text"@) by {
        assert("Bool"@[0] != "Text"@[0]);
    }
    assert("List"@ != "Text"@ && "List"@ != "Bool"@ && "List"@ != "Date"@) by {
        assert("List"@[0] != "Text"@[0]);
        assert("List"@[0] != "Bool"@[0]);
        assert("List"@[0] != "Date"@[0]);
    }
    assert("Text"@.len() == 4 && "Keyword"@.len() == 7 && "String"@.len() == 6);
    assert("Number"@.len() == 6 && "Int"@.len() == 3 && "Float"@.len() == 5);
    assert("SemanticText"@.len() == 12 && "Bool"@.len() == 4 && "Boolean"@.len() == 7);
    assert("Datetime"@.len() == 8 && "Timestamp"@.len() == 9 && "List"@.len() == 4);
    assert("DateTime"@.len() == 8 && "Date"@.len() == 4);
}

/// Where a value cannot be read as a type, the error names the property and the type that it was
/// declared with, and says at the end what the value is.
pub proof fn law_conversion_errors_name_the_property(
    j: JsonModel,
    name: Seq<char>,
    t: PropertyType,
    floats: FloatTableModel,
)
    ensures
        match typed_literal(j, name, t, floats) {
            Err(IngestErrorModel::Type(m)) => {
                &&& text::has_prefix(
                    m,
                    "property '"@ + name + "' with type "@ + type_word(t)
                        + " cannot be converted from "@,
                )
                &&& j is Array ==> text::has_suffix(m, "array"@)
                &&& j is Object ==> text::has_suffix(m, "object"@)
                &&& j is Str ==> text::has_suffix(m, "string"@) || text::has_suffix(m, "number"@)
                &&& j is Null ==> text::has_suffix(m, "null"@)
            },
            Err(_) => false,
            Ok(_) => true,
        },
{
    let head = "property '"@ + name + "' with type "@ + type_word(t)
        + " cannot be converted from "@;
    reveal_strlit("non-finite number");
    reveal_strlit("number");
    let odd = "non-finite number"@;
    assert(odd.subrange(11, 17) =~= "number"@);
    error_says(head, "non-finite number"@);
    error_says(head, "string"@);
    error_says(head, kind_of(j));
    let m = head + odd;
    assert(m.subrange(m.len() - 6, m.len() as int) =~= odd.subrange(11, 17));
}

proof fn error_says(head: Seq<char>, actual: Seq<char>)
    ensures
        text::has_prefix(head + actual, head),
        text::has_suffix(head + actual, actual),
{
    let m = head + actual;
    assert(m.subrange(0, head.len() as int) =~= head);
    assert(m.subrange(m.len() - actual.len(), m.len() as int) =~= actual);
}

} // verus!
