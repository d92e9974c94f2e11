//! Properties by kind, and the label that names an entity's type.

use vstd::prelude::*;
use crate::explore::dto;
use crate::explore::dto::PropertyGroups;
use crate::explore::dto::PropertyGroupsModel;
use crate::graph::ontology;
use crate::graph::ontology::CatalogModel;
use crate::graph::ontology::OntologyCatalog;
use crate::graph::schema::OntologyPropertyType;
use crate::graph::scope;
use crate::graph::scope::Scope;
use crate::json::Json;
use crate::json::JsonModel;
use crate::json::JsonNumber;
use crate::json::NumberModel;
use crate::seqs;
use crate::seqs::Copied;
use crate::strmap;
use crate::strmap::StrMap;
use crate::text;

verus! {

broadcast use vstd::string::group_string_axioms;

/// A property that is never shown.
pub open spec fn is_system(name: Seq<char>) -> bool {
    text::has_prefix(name, "_"@)
}

/// Is the property one that is never shown?
pub fn is_system_property(name: &str) -> (r: bool)
    ensures
        r == is_system(name@),
{
    text::text_starts_with(name, "_")
}

/// Where a property is shown.
#[derive(Debug, Clone, Copy, PartialEq, Eq, Structural)]
pub enum Bucket {
    Identifiers,
    Descriptions,
    Facts,
    Dates,
    Other,
}

/// The bucket of a property: by its declared type, else by the shape of its
/// value.
pub open spec fn bucket_of(t: Option<OntologyPropertyType>, value: JsonModel) -> Bucket {
    match t {
        Some(OntologyPropertyType::Keyword) => Bucket::Identifiers,
        Some(OntologyPropertyType::List) => Bucket::Identifiers,
        Some(OntologyPropertyType::Text) => Bucket::Descriptions,
        Some(OntologyPropertyType::Number) => Bucket::Facts,
        Some(OntologyPropertyType::Bool) => Bucket::Facts,
        Some(OntologyPropertyType::Datetime) => Bucket::Dates,
        None => match value {
            JsonModel::Number(_) => Bucket::Facts,
            JsonModel::Bool(_) => Bucket::Facts,
            _ => Bucket::Other,
        },
    }
}

/// The declared type of a property, where there is a catalog that declares it.
pub open spec fn declared_type(
    catalog: Option<CatalogModel>,
    entity_type: Seq<char>,
    name: Seq<char>,
) -> Option<OntologyPropertyType> {
    match catalog {
        Some(c) => match ontology::catalog_property(c, entity_type, name) {
            Some(p) => Some(p.property_type),
            None => None,
        },
        None => None,
    }
}

/// The groups with one more property.
pub open spec fn put_in(
    g: PropertyGroupsModel,
    b: Bucket,
    name: Seq<char>,
    value: JsonModel,
) -> PropertyGroupsModel {
    match b {
        Bucket::Identifiers => PropertyGroupsModel {
            identifiers: strmap::assoc_insert(g.identifiers, name, value),
            ..g
        },
        Bucket::Descriptions => PropertyGroupsModel {
            descriptions: strmap::assoc_insert(g.descriptions, name, value),
            ..g
        },
        Bucket::Facts => PropertyGroupsModel {
            facts: strmap::assoc_insert(g.facts, name, value),
            ..g
        },
        Bucket::Dates => PropertyGroupsModel {
            dates: strmap::assoc_insert(g.dates, name, value),
            ..g
        },
        Bucket::Other => PropertyGroupsModel {
            other: strmap::assoc_insert(g.other, name, value),
            ..g
        },
    }
}

/// The properties in their buckets, system properties left out.
pub open spec fn classified(
    entity_type: Seq<char>,
    props: Seq<(Seq<char>, JsonModel)>,
    catalog: Option<CatalogModel>,
) -> PropertyGroupsModel
    decreases props.len(),
{
    if props.len() == 0 {
        dto::empty_groups()
    } else {
        let before = classified(entity_type, props.drop_last(), catalog);
        let (name, value) = props.last();
        if is_system(name) {
            before
        } else {
            put_in(
                before,
                bucket_of(declared_type(catalog, entity_type, name), value),
                name,
                value,
            )
        }
    }
}

/// The bucket of a property.
pub fn bucket(t: Option<OntologyPropertyType>, value: &Json) -> (r: Bucket)
    ensures
        r == bucket_of(t, value.deep_view()),
{
    match t {
        Some(OntologyPropertyType::Keyword) => Bucket::Identifiers,
        Some(OntologyPropertyType::List) => Bucket::Identifiers,
        Some(OntologyPropertyType::Text) => Bucket::Descriptions,
        Some(OntologyPropertyType::Number) => Bucket::Facts,
        Some(OntologyPropertyType::Bool) => Bucket::Facts,
        Some(OntologyPropertyType::Datetime) => Bucket::Dates,
        None => match value {
            Json::Number(_) => Bucket::Facts,
            Json::Bool(_) => Bucket::Facts,
            _ => Bucket::Other,
        },
    }
}

/// Split the properties of an entity into what a display shows apart.
pub fn classify_properties(
    entity_type: &str,
    props: StrMap<Json>,
    catalog: Option<&OntologyCatalog>,
) -> (r: PropertyGroups)
    ensures
        r.deep_view() == classified(entity_type@, props.deep_view(), catalog.deep_view()),
{
    let ghost all = props.deep_view();
    let mut groups = PropertyGroups::default();
    let mut i: usize = 0;
    while i < props.entries.len()
        invariant
            all == props.deep_view(),
            0 <= i <= props.entries@.len(),
            groups.deep_view() == classified(
                entity_type@,
                all.take(i as int),
                catalog.deep_view(),
            ),
        decreases props.entries@.len() - i,
    {
        proof {
            assert(all.take(i + 1).drop_last() =~= all.take(i as int));
            assert(all.take(i + 1).last() == props.entries@[i as int].deep_view());
        }
        let name = &props.entries[i].0;
        let value = &props.entries[i].1;
        if !is_system_property(name.as_str()) {
            let declared = match catalog {
                Some(c) => match c.get_property(entity_type, name.as_str()) {
                    Some(p) => Some(p.property_type),
                    None => None,
                },
                None => None,
            };
            match bucket(declared, value) {
                Bucket::Identifiers => groups.identifiers.insert(name.clone(), value.copied()),
                Bucket::Descriptions => groups.descriptions.insert(name.clone(), value.copied()),
                Bucket::Facts => groups.facts.insert(name.clone(), value.copied()),
                Bucket::Dates => groups.dates.insert(name.clone(), value.copied()),
                Bucket::Other => groups.other.insert(name.clone(), value.copied()),
            }
        }
        i += 1;
    }
    assert(all.take(i as int) =~= all);
    groups
}

/// The groups hold `value` under `name`, in the bucket `b`.
pub open spec fn held_in(g: PropertyGroupsModel, b: Bucket, name: Seq<char>) -> Option<JsonModel> {
    match b {
        Bucket::Identifiers => strmap::assoc_get(g.identifiers, name),
        Bucket::Descriptions => strmap::assoc_get(g.descriptions, name),
        Bucket::Facts => strmap::assoc_get(g.facts, name),
        Bucket::Dates => strmap::assoc_get(g.dates, name),
        Bucket::Other => strmap::assoc_get(g.other, name),
    }
}

proof fn put_changes_one(
    g: PropertyGroupsModel,
    t: Bucket,
    n: Seq<char>,
    v: JsonModel,
    b: Bucket,
    name: Seq<char>,
)
    ensures
        held_in(put_in(g, t, n, v), b, name) == (if t == b && n == name {
            Some(v)
        } else {
            held_in(g, b, name)
        }),
{
    let held = match t {
        Bucket::Identifiers => g.identifiers,
        Bucket::Descriptions => g.descriptions,
        Bucket::Facts => g.facts,
        Bucket::Dates => g.dates,
        Bucket::Other => g.other,
    };
    if n == name {
        strmap::law_get_after_insert(held, n, v);
    } else {
        strmap::law_get_other_after_insert(held, n, v, name);
    }
}

/// Whatever its type, a system property is in no group.
pub proof fn law_system_properties_are_hidden(
    entity_type: Seq<char>,
    props: Seq<(Seq<char>, JsonModel)>,
    catalog: Option<CatalogModel>,
    name: Seq<char>,
    b: Bucket,
)
    requires
        is_system(name),
    ensures
        held_in(classified(entity_type, props, catalog), b, name) is None,
    decreases props.len(),
{
    if props.len() > 0 {
        law_system_properties_are_hidden(entity_type, props.drop_last(), catalog, name, b);
        let before = classified(entity_type, props.drop_last(), catalog);
        let (n, v) = props.last();
        put_changes_one(
            before,
            bucket_of(declared_type(catalog, entity_type, n), v),
            n,
            v,
            b,
            name,
        );
    }
}

proof fn strangers_are_not_grouped(
    entity_type: Seq<char>,
    props: Seq<(Seq<char>, JsonModel)>,
    catalog: Option<CatalogModel>,
    name: Seq<char>,
    b: Bucket,
)
    requires
        forall|i: int| 0 <= i < props.len() ==> (#[trigger] props[i]).0 != name,
    ensures
        held_in(classified(entity_type, props, catalog), b, name) is None,
    decreases props.len(),
{
    if props.len() > 0 {
        let rest = props.drop_last();
        assert forall|i: int| 0 <= i < rest.len() implies (#[trigger] rest[i]).0 != name by {
            assert(props[i].0 != name);
        }
        strangers_are_not_grouped(entity_type, rest, catalog, name, b);
        let (n, v) = props.last();
        assert(props[props.len() - 1].0 != name);
        put_changes_one(
            classified(entity_type, rest, catalog),
            bucket_of(declared_type(catalog, entity_type, n), v),
            n,
            v,
            b,
            name,
        );
    }
}

/// Every other property is in the group of its type with its value, and in no other
/// group.
pub proof fn law_properties_are_grouped_once(
    entity_type: Seq<char>,
    props: Seq<(Seq<char>, JsonModel)>,
    catalog: Option<CatalogModel>,
    i: int,
    b: Bucket,
)
    requires
        strmap::assoc_sorted(props),
        0 <= i < props.len(),
        !is_system(props[i].0),
    ensures
        held_in(classified(entity_type, props, catalog), b, props[i].0) == (if b == bucket_of(
            declared_type(catalog, entity_type, props[i].0),
            props[i].1,
        ) {
            Some(props[i].1)
        } else {
            None
        }),
    decreases props.len(),
{
    let rest = props.drop_last();
    let (n, v) = props.last();
    let name = props[i].0;
    let before = classified(entity_type, rest, catalog);
    let t = bucket_of(declared_type(catalog, entity_type, n), v);
    assert forall|j: int, k: int| 0 <= j < k < rest.len() implies #[trigger] text::lex_lt(
        rest[j].0,
        rest[k].0,
    ) by {
        assert(text::lex_lt(props[j].0, props[k].0));
    }
    put_changes_one(before, t, n, v, b, name);
    if i < rest.len() {
        assert(text::lex_lt(props[i].0, props[props.len() - 1].0));
        text::lex_lt_irreflexive(name);
        assert(rest[i] == props[i]);
        law_properties_are_grouped_once(entity_type, rest, catalog, i, b);
    } else {
        assert forall|j: int| 0 <= j < rest.len() implies (#[trigger] rest[j]).0 != name by {
            assert(text::lex_lt(props[j].0, props[i].0));
            text::lex_lt_irreflexive(name);
        }
        strangers_are_not_grouped(entity_type, rest, catalog, name, b);
    }
}

/// A label that may name the type: neither the prefix, nor a scope, nor a
/// domain.
pub open spec fn is_candidate(
    label: Seq<char>,
    prefix: Option<Seq<char>>,
    catalog: Option<CatalogModel>,
) -> bool {
    Some(label) != prefix && scope::scope_of(label) is None && !(catalog is Some
        && strmap::assoc_get(catalog->0, label) is Some)
}

/// The labels that may name the type.
pub open spec fn candidates(
    labels: Seq<Seq<char>>,
    prefix: Option<Seq<char>>,
    catalog: Option<CatalogModel>,
) -> Seq<Seq<char>>
    decreases labels.len(),
{
    if labels.len() == 0 {
        Seq::empty()
    } else if is_candidate(labels.last(), prefix, catalog) {
        candidates(labels.drop_last(), prefix, catalog).push(labels.last())
    } else {
        candidates(labels.drop_last(), prefix, catalog)
    }
}

/// Does the catalog declare the label as an entity type?
pub open spec fn is_declared(catalog: Option<CatalogModel>) -> spec_fn(Seq<char>) -> bool {
    |l: Seq<char>| catalog is Some && ontology::catalog_entity(catalog->0, l) is Some
}

/// The label that names the type: the first candidate that the catalog
/// declares, else the first candidate.
pub open spec fn primary_of(
    labels: Seq<Seq<char>>,
    prefix: Option<Seq<char>>,
    catalog: Option<CatalogModel>,
) -> Seq<char> {
    let found = candidates(labels, prefix, catalog);
    match seqs::first_where(found, is_declared(catalog)) {
        Some(l) => l,
        None => if found.len() > 0 {
            found[0]
        } else {
            "Unknown"@
        },
    }
}

/// The label that names an entity's type.
pub fn primary_label(
    labels: &[String],
    prefix_label: Option<&str>,
    catalog: Option<&OntologyCatalog>,
) -> (r: String)
    ensures
        r@ == primary_of(labels.deep_view(), prefix_label.deep_view(), catalog.deep_view()),
{
    let ghost all = labels.deep_view();
    let ghost p = prefix_label.deep_view();
    let ghost c = catalog.deep_view();
    let mut found: Vec<String> = seqs::no_items();
    let mut i: usize = 0;
    while i < labels.len()
        invariant
            all == labels.deep_view(),
            p == prefix_label.deep_view(),
            c == catalog.deep_view(),
            0 <= i <= labels@.len(),
            found.deep_view() == candidates(all.take(i as int), p, c),
        decreases labels@.len() - i,
    {
        proof {
            assert(all.take(i + 1).drop_last() =~= all.take(i as int));
            assert(all.take(i + 1).last() == labels@[i as int]@);
        }
        let label = labels[i].as_str();
        let is_prefix = match prefix_label {
            Some(x) => text::text_eq(label, x),
            None => false,
        };
        let is_domain = match catalog {
            Some(x) => x.get(label).is_some(),
            None => false,
        };
        if !is_prefix && Scope::from_cypher_label(label).is_none() && !is_domain {
            seqs::push_item(&mut found, label.to_owned());
        }
        i += 1;
    }
    assert(all.take(i as int) =~= all);
    let ghost names = found.deep_view();
    if let Some(x) = catalog {
        let mut k: usize = 0;
        while k < found.len()
            invariant
                names == found.deep_view(),
                names == candidates(labels.deep_view(), prefix_label.deep_view(), c),
                c == catalog.deep_view(),
                catalog == Some(x),
                0 <= k <= found@.len(),
                forall|j: int| 0 <= j < k ==> !is_declared(c)(#[trigger] names[j]),
            decreases found@.len() - k,
        {
            assert(names[k as int] == found@[k as int]@);
            if x.get_entity(found[k].as_str()).is_some() {
                proof {
                    seqs::first_where_at(names, is_declared(c), k as int);
                }
                return found[k].clone();
            }
            k += 1;
        }
        proof {
            seqs::first_where_none(names, is_declared(c));
        }
    } else {
        proof {
            seqs::first_where_none(names, is_declared(c));
        }
    }
    if found.len() > 0 {
        assert(names[0] == found@[0]@);
        found[0].clone()
    } else {
        "Unknown".to_owned()
    }
}

/// The value of a key, where it is a text that is not blank.
pub open spec fn shown_text(props: Seq<(Seq<char>, JsonModel)>, key: Seq<char>) -> Option<
    Seq<char>,
> {
    match strmap::assoc_get(props, key) {
        Some(JsonModel::Str(s)) => if text::trimmed(s).len() > 0 {
            Some(s)
        } else {
            None
        },
        _ => None,
    }
}

/// The name to show: the name, else the title, else the id.
pub open spec fn display_name_of(props: Seq<(Seq<char>, JsonModel)>, id: Seq<char>) -> Seq<char> {
    match shown_text(props, "name"@) {
        Some(s) => s,
        None => match shown_text(props, "title"@) {
            Some(s) => s,
            None => id,
        },
    }
}

fn shown(props: &StrMap<Json>, key: &str) -> (r: Option<String>)
    ensures
        r.deep_view() == shown_text(props.deep_view(), key@),
{
    if let Some(Json::Str(s)) = props.get(key) {
        if !text::is_empty_text(text::trim(s.as_str()).as_str()) {
            return Some(s.clone());
        }
    }
    None
}

/// The name to show for a node.
pub fn display_name(props: &StrMap<Json>, id: &str) -> (r: String)
    ensures
        r@ == display_name_of(props.deep_view(), id@),
{
    if let Some(s) = shown(props, "name") {
        return s;
    }
    if let Some(s) = shown(props, "title") {
        return s;
    }
    id.to_owned()
}

/// The number under `confidence`.
pub open spec fn confidence_of(props: Seq<(Seq<char>, JsonModel)>) -> Option<NumberModel> {
    match strmap::assoc_get(props, "confidence"@) {
        Some(JsonModel::Number(n)) => Some(n),
        _ => None,
    }
}

/// The confidence that the data states; it is never computed.
pub fn confidence(props: &StrMap<Json>) -> (r: Option<JsonNumber>)
    ensures
        r.deep_view() == confidence_of(props.deep_view()),
{
    match props.get("confidence") {
        Some(Json::Number(n)) => Some(n.copy()),
        _ => None,
    }
}

} // verus!
