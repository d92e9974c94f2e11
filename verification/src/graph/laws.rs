//! What merging ontologies and projecting a schema onto them keep, and what they drop.

use vstd::prelude::*;
use crate::graph::ontology;
use crate::graph::ontology::CatalogModel;
use crate::graph::ontology::DomainModel;
use crate::graph::ontology::PropertySpecModel;
use crate::graph::ontology::TypeModel;
use crate::graph::projection;
use crate::prompt::GraphSchemaModel;
use crate::prompt::NodeKindModel;
use crate::prompt::PropertyModel;
use crate::prompt::RelKindModel;
use crate::seqs;
use crate::sorting;
use crate::strmap;
use crate::text;

verus! {

broadcast use vstd::string::group_string_axioms;

/// Is there a type of a name?
pub open spec fn has_type(types: Seq<TypeModel>, name: Seq<char>) -> bool {
    exists|i: int| 0 <= i < types.len() && (#[trigger] types[i]).name == name
}

/// Is a type the last of its name?
pub open spec fn is_last_of_name(types: Seq<TypeModel>, t: TypeModel) -> bool {
    exists|i: int|
        0 <= i < types.len() && #[trigger] types[i] == t && forall|j: int|
            i < j < types.len() ==> (#[trigger] types[j]).name != t.name
}

proof fn others_are_kept(types: Seq<TypeModel>, name: Seq<char>, t: TypeModel)
    ensures
        ontology::others(types, name).contains(t) <==> types.contains(t) && t.name != name,
    decreases types.len(),
{
    if types.len() > 0 {
        let rest = types.drop_last();
        others_are_kept(rest, name, t);
        let o = ontology::others(types, name);
        let r = ontology::others(rest, name);
        if o.contains(t) {
            let i = choose|i: int| 0 <= i < o.len() && o[i] == t;
            if i < r.len() {
                assert(r[i] == t);
                let k = choose|k: int| 0 <= k < rest.len() && rest[k] == t;
                assert(types[k] == t);
            } else {
                assert(types[types.len() - 1] == t);
            }
        }
        if types.contains(t) && t.name != name {
            let k = choose|k: int| 0 <= k < types.len() && types[k] == t;
            if k < rest.len() {
                assert(rest[k] == t);
                let i = choose|i: int| 0 <= i < r.len() && r[i] == t;
                assert(o[i] == t);
            } else {
                assert(o[r.len() as int] == t);
            }
        }
    }
}

/// Merging types by name keeps every type whose name does not come in, and of those that come in
/// the last of each name; it keeps nothing else.
pub proof fn law_types_are_merged_by_name(
    types: Seq<TypeModel>,
    incoming: Seq<TypeModel>,
    t: TypeModel,
)
    ensures
        ontology::types_merged(types, incoming).contains(t) <==> is_last_of_name(incoming, t) || (
        types.contains(t) && !has_type(incoming, t.name)),
    decreases incoming.len(),
{
    if incoming.len() > 0 {
        let rest = incoming.drop_last();
        let x = incoming.last();
        let before = ontology::types_merged(types, rest);
        let o = ontology::others(before, x.name);
        let m = ontology::types_merged(types, incoming);
        law_types_are_merged_by_name(types, rest, t);
        others_are_kept(before, x.name, t);
        assert(incoming[incoming.len() - 1] == x);
        if m.contains(t) {
            let i = choose|i: int| 0 <= i < m.len() && m[i] == t;
            if i < o.len() {
                assert(o[i] == t);
                if is_last_of_name(rest, t) {
                    let k = choose|k: int|
                        0 <= k < rest.len() && #[trigger] rest[k] == t && forall|j: int|
                            k < j < rest.len() ==> (#[trigger] rest[j]).name != t.name;
                    assert(incoming[k] == t);
                    assert forall|j: int| k < j < incoming.len() implies (
                    #[trigger] incoming[j]).name != t.name by {
                        if j < rest.len() {
                            assert(rest[j] == incoming[j]);
                        }
                    }
                } else if has_type(incoming, t.name) {
                    let k = choose|k: int|
                        0 <= k < incoming.len() && (#[trigger] incoming[k]).name == t.name;
                    assert(rest[k].name == t.name);
                }
            } else {
                assert(incoming[incoming.len() - 1] == t);
            }
        }
        if is_last_of_name(incoming, t) {
            let k = choose|k: int|
                0 <= k < incoming.len() && #[trigger] incoming[k] == t && forall|j: int|
                    k < j < incoming.len() ==> (#[trigger] incoming[j]).name != t.name;
            if k < rest.len() {
                assert(rest[k] == t);
                assert forall|j: int| k < j < rest.len() implies (#[trigger] rest[j]).name
                    != t.name by {
                    assert(rest[j] == incoming[j]);
                }
                assert(is_last_of_name(rest, t));
                assert(incoming[incoming.len() - 1].name != t.name);
                let i = choose|i: int| 0 <= i < o.len() && o[i] == t;
                assert(m[i] == t);
            } else {
                assert(m[o.len() as int] == t);
            }
        }
        if types.contains(t) && !has_type(incoming, t.name) {
            if has_type(rest, t.name) {
                let k = choose|k: int| 0 <= k < rest.len() && (#[trigger] rest[k]).name == t.name;
                assert(incoming[k].name == t.name);
            }
            assert(x.name != t.name);
            let i = choose|i: int| 0 <= i < o.len() && o[i] == t;
            assert(m[i] == t);
        }
    } else if ontology::types_merged(types, incoming).contains(t) {
        assert(!has_type(incoming, t.name));
    }
}

/// Merging a catalog in: a domain that comes in is there under its key and by its name, with its
/// description, and with its types merged into those that were there by name; every other domain
/// is as it was.
pub proof fn law_catalogs_are_merged_by_domain(
    c: CatalogModel,
    other: CatalogModel,
    key: Seq<char>,
)
    requires
        strmap::assoc_sorted(other),
    ensures
        match strmap::assoc_get(other, key) {
            None => strmap::assoc_get(ontology::catalog_merged(c, other), key)
                == strmap::assoc_get(c, key),
            Some(incoming) => ({
                let r = strmap::assoc_get(ontology::catalog_merged(c, other), key);
                let known = strmap::assoc_get(c, key);
                let none = Seq::<TypeModel>::empty();
                &&& r is Some
                &&& r->0.name == Some(key)
                &&& r->0.description == incoming.description
                &&& r->0.entity_types == ontology::types_merged(
                    if known is Some {
                        known->0.entity_types
                    } else {
                        none
                    },
                    incoming.entity_types,
                )
                &&& r->0.relation_types == ontology::types_merged(
                    if known is Some {
                        known->0.relation_types
                    } else {
                        none
                    },
                    incoming.relation_types,
                )
            }),
        },
    decreases other.len(),
{
    if other.len() > 0 {
        let rest = other.drop_last();
        let (k, incoming) = other.last();
        assert(strmap::assoc_sorted(rest)) by {
            assert forall|i: int, j: int| 0 <= i < j < rest.len() implies #[trigger] text::lex_lt(
                rest[i].0,
                rest[j].0,
            ) by {
                assert(text::lex_lt(other[i].0, other[j].0));
            }
        }
        let before = ontology::catalog_merged(c, rest);
        let d = ontology::domain_merged(ontology::domain_or_empty(before, k), k, incoming);
        law_catalogs_are_merged_by_domain(c, rest, key);
        let last = other.len() - 1;
        assert(other[last] == (k, incoming));
        if k == key {
            strmap::law_get_after_insert(before, k, d);
            strmap::entry_is_read(other, last);
            if strmap::assoc_get(rest, key) is Some {
                let i = strmap::get_is_an_entry(rest, key);
                assert(text::lex_lt(other[i].0, other[last].0));
                text::lex_lt_irreflexive(key);
            }
        } else {
            strmap::law_get_other_after_insert(before, k, d, key);
            if strmap::assoc_get(rest, key) is Some {
                let i = strmap::get_is_an_entry(rest, key);
                assert(other[i] == rest[i]);
                strmap::entry_is_read(other, i);
            } else if strmap::assoc_get(other, key) is Some {
                let i = strmap::get_is_an_entry(other, key);
                assert(rest[i] == other[i]);
                strmap::entry_is_read(rest, i);
            }
        }
    }
}

/// Describing a type fills in a description where the type has none, keeps one that is there,
/// and adds a type that is not known; no other type changes, and none comes or goes.
pub proof fn law_descriptions_are_filled_in(
    types: Seq<TypeModel>,
    name: Seq<char>,
    description: Seq<char>,
)
    ensures
        ({
            let r = ontology::described(types, name, description);
            let first = ontology::type_named(r, name);
            &&& first is Some
            &&& !has_type(types, name) ==> r.len() == types.len() + 1 && r.take(types.len() as int)
                == types && first->0.description == Some(description) && first->0.properties.len()
                == 0
            &&& has_type(types, name) ==> ({
                let old_one = ontology::type_named(types, name);
                &&& old_one is Some
                &&& r.len() == types.len()
                &&& first->0.properties == old_one->0.properties
                &&& first->0.description == (if old_one->0.description is Some
                    && old_one->0.description->0.len() > 0 {
                    old_one->0.description
                } else {
                    Some(description)
                })
                &&& forall|i: int|
                    0 <= i < types.len() && (#[trigger] types[i]).name != name ==> r[i] == types[i]
            })
        }),
    decreases types.len(),
{
    let r = ontology::described(types, name, description);
    let p = |t: TypeModel| t.name == name;
    if types.len() == 0 {
        assert(r[0].name == name);
        assert(r.take(0) =~= types);
        assert(ontology::type_named(r, name) == Some(r[0]));
    } else if types[0].name == name {
        assert(has_type(types, name));
        assert(ontology::type_named(types, name) == Some(types[0]));
        assert(r[0].name == name);
        assert(ontology::type_named(r, name) == Some(r[0]));
    } else {
        let rest = types.drop_first();
        law_descriptions_are_filled_in(rest, name, description);
        let u = ontology::described(rest, name, description);
        assert(r =~= seq![types[0]] + u);
        assert(r.drop_first() =~= u);
        assert(ontology::type_named(r, name) == ontology::type_named(u, name));
        assert(ontology::type_named(types, name) == ontology::type_named(rest, name));
        if has_type(rest, name) {
            let k = choose|k: int| 0 <= k < rest.len() && (#[trigger] rest[k]).name == name;
            assert(types[k + 1].name == name);
            assert forall|i: int| 0 <= i < types.len() && (#[trigger] types[i]).name
                != name implies r[i] == types[i] by {
                if i > 0 {
                    assert(rest[i - 1] == types[i]);
                    assert(u[i - 1] == rest[i - 1]);
                }
            }
        } else {
            if has_type(types, name) {
                let k = choose|k: int| 0 <= k < types.len() && (#[trigger] types[k]).name == name;
                assert(rest[k - 1].name == name);
            }
            assert(u.take(rest.len() as int) == rest);
            assert forall|i: int| 0 <= i < types.len() implies r[i] == types[i] by {
                if i > 0 {
                    assert(u[i - 1] == u.take(rest.len() as int)[i - 1]);
                }
            }
            assert(r.take(types.len() as int) =~= types);
        }
    }
}

/// Looking an entity type up finds it where a domain declares it: a type of that name, declared
/// by the domain that is named, and by no domain before it.
pub proof fn law_entity_types_are_found(c: CatalogModel, name: Seq<char>)
    ensures
        match ontology::catalog_entity(c, name) {
            None => forall|i: int| 0 <= i < c.len() ==> !has_type((#[trigger] c[i]).1.entity_types, name),
            Some((domain, t)) => t.name == name && exists|i: int|
                0 <= i < c.len() && (#[trigger] c[i]).0 == domain && c[i].1.entity_types.contains(t)
                    && forall|j: int| 0 <= j < i ==> !has_type((#[trigger] c[j]).1.entity_types, name),
        },
    decreases c.len(),
{
    if c.len() > 0 {
        let p = |t: TypeModel| t.name == name;
        let types = c[0].1.entity_types;
        if ontology::type_named(types, name) is Some {
            let k = seqs::first_where_holds(types, p);
            assert(types.contains(types[k]));
            assert(c[0].1.entity_types.contains(types[k]));
        } else {
            assert(!has_type(types, name)) by {
                if has_type(types, name) {
                    lookup_finds(types, name);
                }
            }
            let rest = c.drop_first();
            law_entity_types_are_found(rest, name);
            match ontology::catalog_entity(c, name) {
                None => {
                    assert forall|i: int| 0 <= i < c.len() implies !has_type(
                        (#[trigger] c[i]).1.entity_types,
                        name,
                    ) by {
                        if i > 0 {
                            assert(rest[i - 1] == c[i]);
                        }
                    }
                },
                Some((domain, t)) => {
                    let i = choose|i: int|
                        0 <= i < rest.len() && (#[trigger] rest[i]).0 == domain
                            && rest[i].1.entity_types.contains(t) && forall|j: int|
                            0 <= j < i ==> !has_type((#[trigger] rest[j]).1.entity_types, name);
                    assert(c[i + 1] == rest[i]);
                    assert forall|j: int| 0 <= j < i + 1 implies !has_type(
                        (#[trigger] c[j]).1.entity_types,
                        name,
                    ) by {
                        if j > 0 {
                            assert(rest[j - 1] == c[j]);
                        }
                    }
                },
            }
        }
    }
}

/// The same of relation types.
pub proof fn law_relation_types_are_found(c: CatalogModel, name: Seq<char>)
    ensures
        match ontology::catalog_relation(c, name) {
            None => forall|i: int|
                0 <= i < c.len() ==> !has_type((#[trigger] c[i]).1.relation_types, name),
            Some((domain, t)) => t.name == name && exists|i: int|
                0 <= i < c.len() && (#[trigger] c[i]).0 == domain
                    && c[i].1.relation_types.contains(t) && forall|j: int|
                    0 <= j < i ==> !has_type((#[trigger] c[j]).1.relation_types, name),
        },
    decreases c.len(),
{
    if c.len() > 0 {
        let p = |t: TypeModel| t.name == name;
        let types = c[0].1.relation_types;
        if ontology::type_named(types, name) is Some {
            let k = seqs::first_where_holds(types, p);
            assert(types.contains(types[k]));
            assert(c[0].1.relation_types.contains(types[k]));
        } else {
            assert(!has_type(types, name)) by {
                if has_type(types, name) {
                    lookup_finds(types, name);
                }
            }
            let rest = c.drop_first();
            law_relation_types_are_found(rest, name);
            match ontology::catalog_relation(c, name) {
                None => {
                    assert forall|i: int| 0 <= i < c.len() implies !has_type(
                        (#[trigger] c[i]).1.relation_types,
                        name,
                    ) by {
                        if i > 0 {
                            assert(rest[i - 1] == c[i]);
                        }
                    }
                },
                Some((domain, t)) => {
                    let i = choose|i: int|
                        0 <= i < rest.len() && (#[trigger] rest[i]).0 == domain
                            && rest[i].1.relation_types.contains(t) && forall|j: int|
                            0 <= j < i ==> !has_type((#[trigger] rest[j]).1.relation_types, name);
                    assert(c[i + 1] == rest[i]);
                    assert forall|j: int| 0 <= j < i + 1 implies !has_type(
                        (#[trigger] c[j]).1.relation_types,
                        name,
                    ) by {
                        if j > 0 {
                            assert(rest[j - 1] == c[j]);
                        }
                    }
                },
            }
        }
    }
}

proof fn lookup_finds(types: Seq<TypeModel>, name: Seq<char>)
    requires
        has_type(types, name),
    ensures
        ontology::type_named(types, name) is Some,
    decreases types.len(),
{
    let k = choose|k: int| 0 <= k < types.len() && (#[trigger] types[k]).name == name;
    if types[0].name != name {
        assert(types.drop_first()[k - 1].name == name);
        lookup_finds(types.drop_first(), name);
    }
}

/// A property that is looked up has the name and is declared by a type of that kind, an entity
/// type where one declares it, else a relation type.
pub proof fn law_properties_are_of_their_kind(d: DomainModel, kind: Seq<char>, property: Seq<char>)
    ensures
        match ontology::domain_property(d, kind, property) {
            Some(p) => p.name == property && exists|t: TypeModel|
                (d.entity_types.contains(t) || d.relation_types.contains(t)) && t.name == kind
                    && #[trigger] t.properties.contains(p),
            None => forall|i: int|
                is_first_of_name(d.entity_types, i, kind) ==> !declares(
                    (#[trigger] d.entity_types[i]).properties,
                    property,
                ),
        },
        ontology::domain_property(d, kind, property) is None ==> forall|i: int|
            is_first_of_name(d.relation_types, i, kind) ==> !declares(
                (#[trigger] d.relation_types[i]).properties,
                property,
            ),
{
    let named = |p: PropertySpecModel| p.name == property;
    let typed = |t: TypeModel| t.name == kind;
    if let Some(t) = ontology::type_named(d.entity_types, kind) {
        let i = seqs::first_where_holds(d.entity_types, typed);
        assert(d.entity_types.contains(t));
        if ontology::property_named(t.properties, property) is Some {
            let j = seqs::first_where_holds(t.properties, named);
            assert(t.properties.contains(t.properties[j]));
        }
    }
    if let Some(t) = ontology::type_named(d.relation_types, kind) {
        let i = seqs::first_where_holds(d.relation_types, typed);
        assert(d.relation_types.contains(t));
        if ontology::property_named(t.properties, property) is Some {
            let j = seqs::first_where_holds(t.properties, named);
            assert(t.properties.contains(t.properties[j]));
        }
    }
    if ontology::domain_property(d, kind, property) is None {
        assert forall|i: int| is_first_of_name(d.entity_types, i, kind) implies !declares(
            (#[trigger] d.entity_types[i]).properties,
            property,
        ) by {
            first_of_name_is_found(d.entity_types, i, kind);
            property_lookup(d.entity_types[i].properties, property);
        }
        assert forall|i: int| is_first_of_name(d.relation_types, i, kind) implies !declares(
            (#[trigger] d.relation_types[i]).properties,
            property,
        ) by {
            first_of_name_is_found(d.relation_types, i, kind);
            property_lookup(d.relation_types[i].properties, property);
        }
    }
}

/// Is the type at a place the first of a name?
pub open spec fn is_first_of_name(types: Seq<TypeModel>, i: int, name: Seq<char>) -> bool {
    &&& 0 <= i < types.len()
    &&& types[i].name == name
    &&& forall|j: int| 0 <= j < i ==> (#[trigger] types[j]).name != name
}

proof fn first_of_name_is_found(types: Seq<TypeModel>, i: int, name: Seq<char>)
    requires
        is_first_of_name(types, i, name),
    ensures
        ontology::type_named(types, name) == Some(types[i]),
{
    seqs::first_where_at(types, |t: TypeModel| t.name == name, i);
}

/// Is a name declared among properties?
pub open spec fn declares(declared: Seq<PropertySpecModel>, name: Seq<char>) -> bool {
    exists|i: int| 0 <= i < declared.len() && (#[trigger] declared[i]).name == name
}

proof fn property_lookup(declared: Seq<PropertySpecModel>, name: Seq<char>)
    ensures
        ontology::property_named(declared, name) is Some <==> declares(declared, name),
{
    let p = |x: PropertySpecModel| x.name == name;
    if ontology::property_named(declared, name) is Some {
        let k = seqs::first_where_holds(declared, p);
        assert(declared[k].name == name);
    } else if declares(declared, name) {
        property_is_met(declared, name);
    }
}

proof fn property_is_met(declared: Seq<PropertySpecModel>, name: Seq<char>)
    requires
        declares(declared, name),
    ensures
        ontology::property_named(declared, name) is Some,
    decreases declared.len(),
{
    let k = choose|k: int| 0 <= k < declared.len() && (#[trigger] declared[k]).name == name;
    if declared[0].name != name {
        assert(declared.drop_first()[k - 1].name == name);
        property_is_met(declared.drop_first(), name);
    }
}

/// Of the properties of a node those stay that its type declares, in their order: as many of them
/// as there are declared ones, each under its name and with its type.
pub proof fn law_declared_properties_stay(
    props: Seq<PropertyModel>,
    declared: Seq<PropertySpecModel>,
)
    ensures
        ({
            let kept = projection::properties_kept(props, declared);
            let named = props.filter(|p: PropertyModel| declares(declared, p.name));
            &&& kept.len() == named.len()
            &&& forall|i: int|
                0 <= i < kept.len() ==> (#[trigger] kept[i]).name == named[i].name
                    && kept[i].ty == named[i].ty
        }),
    decreases props.len(),
{
    reveal(Seq::filter);
    if props.len() > 0 {
        let rest = props.drop_last();
        law_declared_properties_stay(rest, declared);
        property_lookup(declared, props.last().name);
    }
}

/// Is there a kept node for an entity type of a domain, described as the type is?
pub open spec fn is_kept_for(
    kept: Seq<NodeKindModel>,
    domain: Seq<char>,
    label: Seq<char>,
) -> bool {
    exists|i: int|
        0 <= i < kept.len() && (#[trigger] kept[i]).domain == Some(domain) && kept[i].label
            == label
}

proof fn domain_nodes_grow(
    kept: Seq<NodeKindModel>,
    source: Seq<NodeKindModel>,
    domains: Seq<DomainModel>,
    d: DomainModel,
    n: nat,
)
    ensures
        kept.len() <= projection::nodes_of_domain(kept, source, domains, d, n).len(),
        forall|i: int|
            0 <= i < kept.len() ==> #[trigger] projection::nodes_of_domain(
                kept,
                source,
                domains,
                d,
                n,
            )[i] == kept[i],
    decreases n,
{
    if d.name is Some && n > 0 {
        domain_nodes_grow(kept, source, domains, d, (n - 1) as nat);
    }
}

proof fn domain_type_is_kept(
    kept: Seq<NodeKindModel>,
    source: Seq<NodeKindModel>,
    domains: Seq<DomainModel>,
    d: DomainModel,
    n: nat,
    t: int,
    k: int,
)
    requires
        d.name is Some,
        0 <= t < n <= d.entity_types.len(),
        0 <= k < source.len(),
        source[k].label == d.entity_types[t].name,
        projection::node_in_domain(source[k], d.name->0, domains),
    ensures
        is_kept_for(
            projection::nodes_of_domain(kept, source, domains, d, n),
            d.name->0,
            d.entity_types[t].name,
        ),
    decreases n,
{
    let m = (n - 1) as nat;
    let before = projection::nodes_of_domain(kept, source, domains, d, m);
    let after = projection::nodes_of_domain(kept, source, domains, d, n);
    let label = d.entity_types[t].name;
    if t < m {
        domain_type_is_kept(kept, source, domains, d, m, t, k);
        let i = choose|i: int|
            0 <= i < before.len() && (#[trigger] before[i]).domain == Some(d.name->0)
                && before[i].label == label;
        assert(after[i] == before[i]);
    } else {
        let ty = d.entity_types[t];
        let p = |x: NodeKindModel|
            x.label == ty.name && projection::node_in_domain(x, d.name->0, domains);
        assert(p(source[k]));
        found_where_met(source, p, k);
        let j = seqs::first_where_holds(source, p);
        if projection::node_kept(before, d.name->0, source[j].label) {
            let i = choose|i: int|
                0 <= i < before.len() && (#[trigger] before[i]).domain == Some(d.name->0)
                    && before[i].label == source[j].label;
            assert(after[i] == before[i]);
        } else {
            assert(after[before.len() as int].label == label);
        }
    }
}

proof fn found_where_met<T>(s: Seq<T>, p: spec_fn(T) -> bool, k: int)
    requires
        0 <= k < s.len(),
        p(s[k]),
    ensures
        seqs::first_where(s, p) is Some,
    decreases s.len(),
{
    if !p(s[0]) {
        assert(s.drop_first()[k - 1] == s[k]);
        found_where_met(s.drop_first(), p, k - 1);
    }
}

/// An entity type that a domain declares, and of which the schema has a node in that domain, is
/// kept by the projection.
pub proof fn law_projection_keeps_all_declared(
    s: GraphSchemaModel,
    domains: Seq<DomainModel>,
    d: int,
    t: int,
    k: int,
)
    requires
        0 <= d < domains.len(),
        domains[d].name is Some,
        0 <= t < domains[d].entity_types.len(),
        0 <= k < s.nodes.len(),
        s.nodes[k].label == domains[d].entity_types[t].name,
        s.nodes[k].domain is Some ==> s.nodes[k].domain == domains[d].name,
        s.nodes[k].domain is None ==> s.nodes[k].extra_labels.contains(domains[d].name->0)
            || s.nodes[k].extra_labels.len() == 0,
    ensures
        is_kept_for(
            projection::schema_projected(s, domains).nodes,
            domains[d].name->0,
            domains[d].entity_types[t].name,
        ),
{
    projected_type_is_kept(s.nodes, domains, domains.len(), d, t, k);
}

proof fn projected_type_is_kept(
    source: Seq<NodeKindModel>,
    domains: Seq<DomainModel>,
    n: nat,
    d: int,
    t: int,
    k: int,
)
    requires
        0 <= d < n <= domains.len(),
        domains[d].name is Some,
        0 <= t < domains[d].entity_types.len(),
        0 <= k < source.len(),
        source[k].label == domains[d].entity_types[t].name,
        projection::node_in_domain(source[k], domains[d].name->0, domains),
    ensures
        is_kept_for(
            projection::nodes_projected(source, domains, n),
            domains[d].name->0,
            domains[d].entity_types[t].name,
        ),
    decreases n,
{
    let before = projection::nodes_projected(source, domains, (n - 1) as nat);
    let x = domains[n - 1];
    let after = projection::nodes_projected(source, domains, n);
    let label = domains[d].entity_types[t].name;
    if d < n - 1 {
        projected_type_is_kept(source, domains, (n - 1) as nat, d, t, k);
        domain_nodes_grow(before, source, domains, x, x.entity_types.len());
        let i = choose|i: int|
            0 <= i < before.len() && (#[trigger] before[i]).domain == Some(domains[d].name->0)
                && before[i].label == label;
        assert(after[i] == before[i]);
    } else {
        domain_type_is_kept(before, source, domains, x, x.entity_types.len(), t, k);
    }
}

/// Is there a relation among relations with the same type and ends in a domain?
pub open spec fn rel_is_kept(
    kept: Seq<RelKindModel>,
    domain: Seq<char>,
    rel: RelKindModel,
) -> bool {
    exists|i: int|
        0 <= i < kept.len() && (#[trigger] kept[i]).domain == Some(domain) && kept[i].label
            == rel.label && kept[i].from == rel.from && kept[i].to == rel.to
}

proof fn type_rels_grow(
    kept: Seq<RelKindModel>,
    source: Seq<RelKindModel>,
    nodes: Seq<NodeKindModel>,
    domain: Seq<char>,
    t: TypeModel,
    n: nat,
    x: Seq<char>,
    rel: RelKindModel,
)
    requires
        rel_is_kept(kept, x, rel),
    ensures
        rel_is_kept(
            projection::rels_of_type(kept, source, nodes, domain, t, n),
            x,
            rel,
        ),
    decreases n,
{
    if n > 0 {
        let before = projection::rels_of_type(kept, source, nodes, domain, t, (n - 1) as nat);
        let after = projection::rels_of_type(kept, source, nodes, domain, t, n);
        type_rels_grow(kept, source, nodes, domain, t, (n - 1) as nat, x, rel);
        let i = choose|i: int|
            0 <= i < before.len() && (#[trigger] before[i]).domain == Some(x) && before[i].label
                == rel.label && before[i].from == rel.from && before[i].to == rel.to;
        assert(after[i] == before[i]);
    }
}

proof fn type_rel_is_kept(
    kept: Seq<RelKindModel>,
    source: Seq<RelKindModel>,
    nodes: Seq<NodeKindModel>,
    domain: Seq<char>,
    t: TypeModel,
    n: nat,
    k: int,
)
    requires
        0 <= k < n <= source.len(),
        projection::rel_declared(source[k], domain, t, nodes),
    ensures
        rel_is_kept(
            projection::rels_of_type(kept, source, nodes, domain, t, n),
            domain,
            source[k],
        ),
    decreases n,
{
    let before = projection::rels_of_type(kept, source, nodes, domain, t, (n - 1) as nat);
    let after = projection::rels_of_type(kept, source, nodes, domain, t, n);
    if k < n - 1 {
        type_rel_is_kept(kept, source, nodes, domain, t, (n - 1) as nat, k);
        let i = choose|i: int|
            0 <= i < before.len() && (#[trigger] before[i]).domain == Some(domain)
                && before[i].label == source[k].label && before[i].from == source[k].from
                && before[i].to == source[k].to;
        assert(after[i] == before[i]);
    } else if projection::rel_kept(before, domain, source[k]) {
        assert(after == before);
    } else {
        assert(after[before.len() as int].label == source[k].label);
    }
}

proof fn domain_rels_keep(
    kept: Seq<RelKindModel>,
    source: Seq<RelKindModel>,
    nodes: Seq<NodeKindModel>,
    d: DomainModel,
    n: nat,
    x: Seq<char>,
    rel: RelKindModel,
)
    requires
        rel_is_kept(kept, x, rel),
        n <= d.relation_types.len(),
    ensures
        rel_is_kept(projection::rels_of_domain(kept, source, nodes, d, n), x, rel),
    decreases n,
{
    if d.name is Some && n > 0 {
        domain_rels_keep(kept, source, nodes, d, (n - 1) as nat, x, rel);
        type_rels_grow(
            projection::rels_of_domain(kept, source, nodes, d, (n - 1) as nat),
            source,
            nodes,
            d.name->0,
            d.relation_types[n - 1],
            source.len(),
            x,
            rel,
        );
    }
}

proof fn domain_rel_is_kept(
    kept: Seq<RelKindModel>,
    source: Seq<RelKindModel>,
    nodes: Seq<NodeKindModel>,
    d: DomainModel,
    n: nat,
    t: int,
    k: int,
)
    requires
        d.name is Some,
        0 <= t < n <= d.relation_types.len(),
        0 <= k < source.len(),
        projection::rel_declared(source[k], d.name->0, d.relation_types[t], nodes),
    ensures
        rel_is_kept(
            projection::rels_of_domain(kept, source, nodes, d, n),
            d.name->0,
            source[k],
        ),
    decreases n,
{
    let m = (n - 1) as nat;
    let before = projection::rels_of_domain(kept, source, nodes, d, m);
    let ty = d.relation_types[n - 1];
    if t < m {
        domain_rel_is_kept(kept, source, nodes, d, m, t, k);
        type_rels_grow(before, source, nodes, d.name->0, ty, source.len(), d.name->0, source[k]);
    } else {
        type_rel_is_kept(before, source, nodes, d.name->0, ty, source.len(), k);
    }
}

proof fn projected_rel_is_kept(
    source: Seq<RelKindModel>,
    nodes: Seq<NodeKindModel>,
    domains: Seq<DomainModel>,
    n: nat,
    d: int,
    t: int,
    k: int,
)
    requires
        0 <= d < n <= domains.len(),
        domains[d].name is Some,
        0 <= t < domains[d].relation_types.len(),
        0 <= k < source.len(),
        projection::rel_declared(source[k], domains[d].name->0, domains[d].relation_types[t], nodes),
    ensures
        rel_is_kept(
            projection::rels_projected(source, nodes, domains, n),
            domains[d].name->0,
            source[k],
        ),
    decreases n,
{
    let before = projection::rels_projected(source, nodes, domains, (n - 1) as nat);
    let x = domains[n - 1];
    if d < n - 1 {
        projected_rel_is_kept(source, nodes, domains, (n - 1) as nat, d, t, k);
        domain_rels_keep(
            before,
            source,
            nodes,
            x,
            x.relation_types.len(),
            domains[d].name->0,
            source[k],
        );
    } else {
        domain_rel_is_kept(before, source, nodes, x, x.relation_types.len(), t, k);
    }
}

/// A relation of a type that a domain declares, which carries no other domain and whose known ends
/// are kept in that domain, is kept by the projection with its type and its ends.
pub proof fn law_projection_keeps_declared_relations(
    s: GraphSchemaModel,
    domains: Seq<DomainModel>,
    d: int,
    t: int,
    k: int,
)
    requires
        0 <= d < domains.len(),
        domains[d].name is Some,
        0 <= t < domains[d].relation_types.len(),
        0 <= k < s.relationships.len(),
        s.relationships[k].label == domains[d].relation_types[t].name,
        s.relationships[k].domain is Some ==> s.relationships[k].domain == domains[d].name,
        s.relationships[k].from is Some ==> is_kept_for(
            projection::schema_projected(s, domains).nodes,
            domains[d].name->0,
            s.relationships[k].from->0,
        ),
        s.relationships[k].to is Some ==> is_kept_for(
            projection::schema_projected(s, domains).nodes,
            domains[d].name->0,
            s.relationships[k].to->0,
        ),
    ensures
        rel_is_kept(
            projection::schema_projected(s, domains).relationships,
            domains[d].name->0,
            s.relationships[k],
        ),
{
    let nodes = projection::schema_projected(s, domains).nodes;
    projected_rel_is_kept(s.relationships, nodes, domains, domains.len(), d, t, k);
}

proof fn dedup_keeps<T>(s: Seq<T>, x: T)
    ensures
        seqs::deduped(s).contains(x) <==> s.contains(x),
        s.len() > 0 ==> seqs::deduped(s).len() > 0 && seqs::deduped(s).last() == s.last(),
    decreases s.len(),
{
    if s.len() > 1 {
        let rest = s.drop_last();
        dedup_keeps(rest, x);
        let r = seqs::deduped(rest);
        let d = seqs::deduped(s);
        if s.contains(x) {
            let i = choose|i: int| 0 <= i < s.len() && s[i] == x;
            if i < rest.len() {
                assert(rest[i] == x);
            } else {
                assert(s[s.len() - 2] == s.last() ==> rest[rest.len() - 1] == x);
            }
            if r.contains(x) {
                let k = choose|k: int| 0 <= k < r.len() && r[k] == x;
                assert(d[k] == x);
            } else {
                assert(d[r.len() as int] == x);
            }
        }
        if d.contains(x) {
            let k = choose|k: int| 0 <= k < d.len() && d[k] == x;
            if k < r.len() {
                assert(r[k] == x);
                let i = choose|i: int| 0 <= i < rest.len() && rest[i] == x;
                assert(s[i] == x);
            } else {
                assert(s[s.len() - 1] == x);
            }
        }
    }
}

/// The values of two vocabularies together are those of the one and of the other, in lower case,
/// and nothing else.
pub proof fn law_vocabularies_are_joined(a: Seq<Seq<char>>, b: Seq<Seq<char>>, v: Seq<char>)
    ensures
        projection::merged_values(a, b).contains(v) <==> (exists|i: int|
            0 <= i < a.len() && text::lowercase(#[trigger] a[i]) == v) || (exists|i: int|
            0 <= i < b.len() && text::lowercase(#[trigger] b[i]) == v),
{
    let lower = (a + b).map_values(|x: Seq<char>| text::lowercase(x));
    let sorted = sorting::sorted_by(lower, projection::text_order());
    dedup_keeps(sorted, v);
    if projection::merged_values(a, b).contains(v) {
        sorting::sorting_adds_none(lower, projection::text_order(), v);
        let i = choose|i: int| 0 <= i < lower.len() && lower[i] == v;
        if i < a.len() {
            assert(text::lowercase(a[i]) == v);
        } else {
            assert(text::lowercase(b[i - a.len()]) == v);
        }
    }
    if exists|i: int| 0 <= i < a.len() && text::lowercase(#[trigger] a[i]) == v {
        let i = choose|i: int| 0 <= i < a.len() && text::lowercase(#[trigger] a[i]) == v;
        assert(lower[i] == v);
        sorting::sorting_keeps(lower, projection::text_order(), v);
    }
    if exists|i: int| 0 <= i < b.len() && text::lowercase(#[trigger] b[i]) == v {
        let i = choose|i: int| 0 <= i < b.len() && text::lowercase(#[trigger] b[i]) == v;
        assert(lower[a.len() + i] == v);
        sorting::sorting_keeps(lower, projection::text_order(), v);
    }
}

/// Each domain gets exactly the nodes and relations that carry it, in their order, and what
/// carries no domain goes nowhere.
pub proof fn law_split_is_by_domain(s: GraphSchemaModel, domain: Seq<char>)
    ensures
        ({
            let part = projection::schema_or_empty(projection::schema_split(s), domain);
            &&& part.nodes == s.nodes.filter(|n: NodeKindModel| n.domain == Some(domain))
            &&& part.relationships == s.relationships.filter(
                |r: RelKindModel| r.domain == Some(domain),
            )
        }),
{
    projection::law_split_collects_by_domain(s, domain);
    nodes_are_filtered(s.nodes, domain);
    rels_are_filtered(s.relationships, domain);
}

proof fn nodes_are_filtered(nodes: Seq<NodeKindModel>, domain: Seq<char>)
    ensures
        projection::nodes_of(nodes, domain) == nodes.filter(
            |n: NodeKindModel| n.domain == Some(domain),
        ),
    decreases nodes.len(),
{
    reveal(Seq::filter);
    if nodes.len() > 0 {
        nodes_are_filtered(nodes.drop_last(), domain);
    }
}

proof fn rels_are_filtered(rels: Seq<RelKindModel>, domain: Seq<char>)
    ensures
        projection::rels_of(rels, domain) == rels.filter(|r: RelKindModel| r.domain == Some(domain)),
    decreases rels.len(),
{
    reveal(Seq::filter);
    if rels.len() > 0 {
        rels_are_filtered(rels.drop_last(), domain);
    }
}

} // verus!
