//! A live schema seen through the ontology: split by domain, or cut down to
//! what domains declare.

use vstd::prelude::*;
use crate::graph::ontology;
use crate::graph::ontology::DomainModel;
use crate::graph::ontology::DomainOntology;
use crate::graph::ontology::EntityTypeSpec;
use crate::graph::ontology::OntologyCatalog;
use crate::graph::ontology::PropertySpec;
use crate::graph::ontology::PropertySpecModel;
use crate::graph::ontology::RelationTypeSpec;
use crate::graph::ontology::TypeModel;
use crate::prompt::GraphSchema;
use crate::prompt::GraphSchemaModel;
use crate::prompt::NodeKind;
use crate::prompt::NodeKindModel;
use crate::prompt::Property;
use crate::prompt::PropertyModel;
use crate::prompt::RelKind;
use crate::prompt::RelKindModel;
use crate::seqs;
use crate::seqs::Copied;
use crate::sorting;
use crate::strmap;
use crate::strmap::StrMap;
use crate::text;

verus! {

broadcast use vstd::string::group_string_axioms;

pub type SplitModel = Seq<(Seq<char>, GraphSchemaModel)>;

/// The schema under a domain, or the empty one.
pub open spec fn schema_or_empty(m: SplitModel, domain: Seq<char>) -> GraphSchemaModel {
    match strmap::assoc_get(m, domain) {
        Some(s) => s,
        None => GraphSchemaModel { nodes: Seq::empty(), relationships: Seq::empty() },
    }
}

/// The nodes by domain; those without domain are left out.
pub open spec fn nodes_split(nodes: Seq<NodeKindModel>) -> SplitModel
    decreases nodes.len(),
{
    if nodes.len() == 0 {
        Seq::empty()
    } else {
        let m = nodes_split(nodes.drop_last());
        let node = nodes.last();
        match node.domain {
            None => m,
            Some(d) => {
                let s = schema_or_empty(m, d);
                strmap::assoc_insert(
                    m,
                    d,
                    GraphSchemaModel { nodes: s.nodes.push(node), relationships: s.relationships },
                )
            },
        }
    }
}

/// Relations added to the schemas of their domains.
pub open spec fn rels_split(m: SplitModel, rels: Seq<RelKindModel>) -> SplitModel
    decreases rels.len(),
{
    if rels.len() == 0 {
        m
    } else {
        let before = rels_split(m, rels.drop_last());
        let rel = rels.last();
        match rel.domain {
            None => before,
            Some(d) => {
                let s = schema_or_empty(before, d);
                strmap::assoc_insert(
                    before,
                    d,
                    GraphSchemaModel { nodes: s.nodes, relationships: s.relationships.push(rel) },
                )
            },
        }
    }
}

/// A schema by domain.
pub open spec fn schema_split(s: GraphSchemaModel) -> SplitModel {
    rels_split(nodes_split(s.nodes), s.relationships)
}

/// The nodes of one domain.
pub open spec fn nodes_of(nodes: Seq<NodeKindModel>, domain: Seq<char>) -> Seq<NodeKindModel>
    decreases nodes.len(),
{
    if nodes.len() == 0 {
        Seq::empty()
    } else if nodes.last().domain == Some(domain) {
        nodes_of(nodes.drop_last(), domain).push(nodes.last())
    } else {
        nodes_of(nodes.drop_last(), domain)
    }
}

/// The relations of one domain.
pub open spec fn rels_of(rels: Seq<RelKindModel>, domain: Seq<char>) -> Seq<RelKindModel>
    decreases rels.len(),
{
    if rels.len() == 0 {
        Seq::empty()
    } else if rels.last().domain == Some(domain) {
        rels_of(rels.drop_last(), domain).push(rels.last())
    } else {
        rels_of(rels.drop_last(), domain)
    }
}

proof fn nodes_split_collects(nodes: Seq<NodeKindModel>, domain: Seq<char>)
    ensures
        schema_or_empty(nodes_split(nodes), domain) == (GraphSchemaModel {
            nodes: nodes_of(nodes, domain),
            relationships: Seq::empty(),
        }),
    decreases nodes.len(),
{
    if nodes.len() > 0 {
        nodes_split_collects(nodes.drop_last(), domain);
        let m = nodes_split(nodes.drop_last());
        if let Some(d) = nodes.last().domain {
            let s = schema_or_empty(m, d);
            let v = GraphSchemaModel {
                nodes: s.nodes.push(nodes.last()),
                relationships: s.relationships,
            };
            if d == domain {
                strmap::law_get_after_insert(m, d, v);
            } else {
                strmap::law_get_other_after_insert(m, d, v, domain);
            }
        }
    }
}

/// Each domain gets exactly the nodes and relations that carry it, in order.
pub proof fn law_split_collects_by_domain(s: GraphSchemaModel, domain: Seq<char>)
    ensures
        schema_or_empty(schema_split(s), domain) == (GraphSchemaModel {
            nodes: nodes_of(s.nodes, domain),
            relationships: rels_of(s.relationships, domain),
        }),
    decreases s.relationships.len(),
{
    if s.relationships.len() == 0 {
        nodes_split_collects(s.nodes, domain);
    } else {
        let shorter = GraphSchemaModel {
            nodes: s.nodes,
            relationships: s.relationships.drop_last(),
        };
        law_split_collects_by_domain(shorter, domain);
        let m = schema_split(shorter);
        let rel = s.relationships.last();
        if let Some(d) = rel.domain {
            let t = schema_or_empty(m, d);
            let v = GraphSchemaModel { nodes: t.nodes, relationships: t.relationships.push(rel) };
            if d == domain {
                strmap::law_get_after_insert(m, d, v);
            } else {
                strmap::law_get_other_after_insert(m, d, v, domain);
            }
        }
    }
}

impl Copied for GraphSchema {
    fn copied(&self) -> (r: Self) {
        GraphSchema { nodes: self.nodes.copied(), relationships: self.relationships.copied() }
    }
}

fn empty_schema() -> (r: GraphSchema)
    ensures
        r.deep_view() == (GraphSchemaModel { nodes: Seq::empty(), relationships: Seq::empty() }),
{
    GraphSchema { nodes: seqs::no_items(), relationships: seqs::no_items() }
}

fn schema_of(m: &StrMap<GraphSchema>, domain: &str) -> (r: GraphSchema)
    ensures
        r.deep_view() == schema_or_empty(m.deep_view(), domain@),
{
    match m.get(domain) {
        Some(s) => s.copied(),
        None => empty_schema(),
    }
}

/// The domains have a name that is this label.
pub open spec fn names_domain(domains: Seq<DomainModel>, label: Seq<char>) -> bool {
    exists|i: int| 0 <= i < domains.len() && (#[trigger] domains[i]).name == Some(label)
}

/// A node belongs to a domain: it carries it, or, where it carries none, it has
/// the domain among its labels or no label of any known domain.
pub open spec fn node_in_domain(
    node: NodeKindModel,
    domain: Seq<char>,
    domains: Seq<DomainModel>,
) -> bool {
    match node.domain {
        Some(d) => d == domain,
        None => node.extra_labels.contains(domain) || !(exists|i: int|
            0 <= i < node.extra_labels.len() && names_domain(
                domains,
                #[trigger] node.extra_labels[i],
            )),
    }
}

/// A relation belongs to a domain unless it carries another.
pub open spec fn rel_in_domain(rel: RelKindModel, domain: Seq<char>) -> bool {
    match rel.domain {
        Some(d) => d == domain,
        None => true,
    }
}

/// Values in lower case, sorted, each once.
pub open spec fn merged_values(a: Seq<Seq<char>>, b: Seq<Seq<char>>) -> Seq<Seq<char>> {
    seqs::deduped(
        sorting::sorted_by((a + b).map_values(|v: Seq<char>| text::lowercase(v)), text_order()),
    )
}

/// Texts in lexicographic order.
pub open spec fn text_order() -> spec_fn(Seq<char>, Seq<char>) -> bool {
    |a: Seq<char>, b: Seq<char>| text::lex_le(a, b)
}

fn text_in_order(a: &String, b: &String) -> (r: bool)
    ensures
        r == text_order()(a.deep_view(), b.deep_view()),
{
    !text::text_lt(b.as_str(), a.as_str())
}

/// The values of two vocabularies: lower case, sorted, each once.
pub fn merged_allowed_values(introspected: &Vec<String>, declared: &Vec<String>) -> (r: Vec<String>)
    ensures
        r.deep_view() == merged_values(introspected.deep_view(), declared.deep_view()),
{
    let ghost all = introspected.deep_view() + declared.deep_view();
    let ghost lower = all.map_values(|v: Seq<char>| text::lowercase(v));
    let mut out: Vec<String> = seqs::no_items();
    let mut i: usize = 0;
    assert(lower.take(0) =~= Seq::<Seq<char>>::empty());
    while i < introspected.len()
        invariant
            all == introspected.deep_view() + declared.deep_view(),
            lower == all.map_values(|v: Seq<char>| text::lowercase(v)),
            0 <= i <= introspected@.len(),
            out.deep_view() == lower.take(i as int),
        decreases introspected@.len() - i,
    {
        assert(all[i as int] == introspected@[i as int]@);
        seqs::push_item(&mut out, text::to_lowercase(introspected[i].as_str()));
        i += 1;
        assert(out.deep_view() =~= lower.take(i as int));
    }
    let mut j: usize = 0;
    while j < declared.len()
        invariant
            all == introspected.deep_view() + declared.deep_view(),
            lower == all.map_values(|v: Seq<char>| text::lowercase(v)),
            0 <= j <= declared@.len(),
            out.deep_view() == lower.take(introspected@.len() + j),
        decreases declared@.len() - j,
    {
        assert(all[introspected@.len() + j] == declared@[j as int]@);
        seqs::push_item(&mut out, text::to_lowercase(declared[j].as_str()));
        j += 1;
        assert(out.deep_view() =~= lower.take(introspected@.len() + j));
    }
    assert(out.deep_view() =~= lower);
    sorting::sort_items(&mut out, text_in_order, Ghost(text_order()));
    seqs::dedup_texts(&out)
}

/// A property as its declaration describes it.
pub open spec fn property_enriched(p: PropertyModel, d: PropertySpecModel) -> PropertyModel {
    PropertyModel {
        description: d.description,
        allowed_values: merged_values(p.allowed_values, d.allowed_values),
        ..p
    }
}

/// The properties that a type declares, enriched by their declarations.
pub open spec fn properties_kept(
    props: Seq<PropertyModel>,
    declared: Seq<PropertySpecModel>,
) -> Seq<PropertyModel>
    decreases props.len(),
{
    if props.len() == 0 {
        Seq::empty()
    } else {
        let before = properties_kept(props.drop_last(), declared);
        match ontology::property_named(declared, props.last().name) {
            None => before,
            Some(d) => before.push(property_enriched(props.last(), d)),
        }
    }
}

fn retain_declared(props: &Vec<Property>, declared: &EntityTypeSpec) -> (r: Vec<Property>)
    ensures
        r.deep_view() == properties_kept(props.deep_view(), declared.deep_view().properties),
{
    let ghost all = props.deep_view();
    let ghost dm = declared.deep_view().properties;
    let mut out: Vec<Property> = seqs::no_items();
    let mut i: usize = 0;
    while i < props.len()
        invariant
            all == props.deep_view(),
            dm == declared.deep_view().properties,
            0 <= i <= props@.len(),
            out.deep_view() == properties_kept(all.take(i as int), dm),
        decreases props@.len() - i,
    {
        proof {
            assert(all.take(i + 1).drop_last() =~= all.take(i as int));
            assert(all.take(i + 1).last() == props@[i as int].deep_view());
        }
        if let Some(d) = declared.property(props[i].name.as_str()) {
            seqs::push_item(&mut out, enriched(&props[i], d));
        }
        i += 1;
    }
    assert(all.take(i as int) =~= all);
    out
}

fn enriched(p: &Property, d: &PropertySpec) -> (r: Property)
    ensures
        r.deep_view() == property_enriched(p.deep_view(), d.deep_view()),
{
    Property {
        name: p.name.clone(),
        ty: p.ty,
        description: d.description.copied(),
        allowed_values: merged_allowed_values(&p.allowed_values, &d.allowed_values),
    }
}

fn retain_declared_rel(props: &Vec<Property>, declared: &RelationTypeSpec) -> (r: Vec<Property>)
    ensures
        r.deep_view() == properties_kept(props.deep_view(), declared.deep_view().properties),
{
    let ghost all = props.deep_view();
    let ghost dm = declared.deep_view().properties;
    let mut out: Vec<Property> = seqs::no_items();
    let mut i: usize = 0;
    while i < props.len()
        invariant
            all == props.deep_view(),
            dm == declared.deep_view().properties,
            0 <= i <= props@.len(),
            out.deep_view() == properties_kept(all.take(i as int), dm),
        decreases props@.len() - i,
    {
        proof {
            assert(all.take(i + 1).drop_last() =~= all.take(i as int));
            assert(all.take(i + 1).last() == props@[i as int].deep_view());
        }
        if let Some(d) = declared.property(props[i].name.as_str()) {
            seqs::push_item(&mut out, enriched(&props[i], d));
        }
        i += 1;
    }
    assert(all.take(i as int) =~= all);
    out
}

/// Is a node of this label kept in this domain?
pub open spec fn node_kept(kept: Seq<NodeKindModel>, domain: Seq<char>, label: Seq<char>) -> bool {
    exists|i: int|
        0 <= i < kept.len() && (#[trigger] kept[i]).domain == Some(domain) && kept[i].label
            == label
}

/// A node as the type that it is an instance of describes it.
pub open spec fn node_projected(
    node: NodeKindModel,
    domain: Seq<char>,
    spec_type: TypeModel,
) -> NodeKindModel {
    NodeKindModel {
        domain: Some(domain),
        description: spec_type.description,
        properties: properties_kept(node.properties, spec_type.properties),
        ..node
    }
}

/// The nodes kept after one more entity type: the first node of its label in
/// the domain, once.
pub open spec fn nodes_step(
    kept: Seq<NodeKindModel>,
    source: Seq<NodeKindModel>,
    domains: Seq<DomainModel>,
    domain: Seq<char>,
    t: TypeModel,
) -> Seq<NodeKindModel> {
    match seqs::first_where(
        source,
        |n: NodeKindModel| n.label == t.name && node_in_domain(n, domain, domains),
    ) {
        None => kept,
        Some(n) => if node_kept(kept, domain, n.label) {
            kept
        } else {
            kept.push(node_projected(n, domain, t))
        },
    }
}

/// The nodes kept after the first `n` entity types of a domain.
pub open spec fn nodes_of_domain(
    kept: Seq<NodeKindModel>,
    source: Seq<NodeKindModel>,
    domains: Seq<DomainModel>,
    d: DomainModel,
    n: nat,
) -> Seq<NodeKindModel>
    decreases n,
{
    match d.name {
        None => kept,
        Some(name) => if n == 0 {
            kept
        } else {
            nodes_step(
                nodes_of_domain(kept, source, domains, d, (n - 1) as nat),
                source,
                domains,
                name,
                d.entity_types[n - 1],
            )
        },
    }
}

/// The nodes kept over the first `n` domains.
pub open spec fn nodes_projected(
    source: Seq<NodeKindModel>,
    domains: Seq<DomainModel>,
    n: nat,
) -> Seq<NodeKindModel>
    decreases n,
{
    if n == 0 {
        Seq::empty()
    } else {
        let d = domains[n - 1];
        nodes_of_domain(
            nodes_projected(source, domains, (n - 1) as nat),
            source,
            domains,
            d,
            d.entity_types.len(),
        )
    }
}

/// An end of a relation is unknown, or a node kept in the domain.
pub open spec fn end_kept(
    end: Option<Seq<char>>,
    domain: Seq<char>,
    kept: Seq<NodeKindModel>,
) -> bool {
    match end {
        Some(label) => node_kept(kept, domain, label),
        None => true,
    }
}

/// Is a relation of this type and ends kept in this domain?
pub open spec fn rel_kept(kept: Seq<RelKindModel>, domain: Seq<char>, rel: RelKindModel) -> bool {
    exists|i: int|
        0 <= i < kept.len() && (#[trigger] kept[i]).domain == Some(domain) && kept[i].label
            == rel.label && kept[i].from == rel.from && kept[i].to == rel.to
}

/// A relation that a type of a domain declares between kept nodes.
pub open spec fn rel_declared(
    rel: RelKindModel,
    domain: Seq<char>,
    t: TypeModel,
    nodes: Seq<NodeKindModel>,
) -> bool {
    rel.label == t.name && rel_in_domain(rel, domain) && end_kept(rel.from, domain, nodes)
        && end_kept(rel.to, domain, nodes)
}

pub open spec fn rel_projected(rel: RelKindModel, domain: Seq<char>, t: TypeModel) -> RelKindModel {
    RelKindModel {
        domain: Some(domain),
        description: t.description,
        properties: properties_kept(rel.properties, t.properties),
        ..rel
    }
}

/// The relations kept after the first `n` source relations for one type.
pub open spec fn rels_of_type(
    kept: Seq<RelKindModel>,
    source: Seq<RelKindModel>,
    nodes: Seq<NodeKindModel>,
    domain: Seq<char>,
    t: TypeModel,
    n: nat,
) -> Seq<RelKindModel>
    decreases n,
{
    if n == 0 {
        kept
    } else {
        let before = rels_of_type(kept, source, nodes, domain, t, (n - 1) as nat);
        let rel = source[n - 1];
        if rel_declared(rel, domain, t, nodes) && !rel_kept(before, domain, rel) {
            before.push(rel_projected(rel, domain, t))
        } else {
            before
        }
    }
}

/// The relations kept after the first `n` relation types of a domain.
pub open spec fn rels_of_domain(
    kept: Seq<RelKindModel>,
    source: Seq<RelKindModel>,
    nodes: Seq<NodeKindModel>,
    d: DomainModel,
    n: nat,
) -> Seq<RelKindModel>
    decreases n,
{
    match d.name {
        None => kept,
        Some(name) => if n == 0 {
            kept
        } else {
            rels_of_type(
                rels_of_domain(kept, source, nodes, d, (n - 1) as nat),
                source,
                nodes,
                name,
                d.relation_types[n - 1],
                source.len(),
            )
        },
    }
}

/// The relations kept over the first `n` domains.
pub open spec fn rels_projected(
    source: Seq<RelKindModel>,
    nodes: Seq<NodeKindModel>,
    domains: Seq<DomainModel>,
    n: nat,
) -> Seq<RelKindModel>
    decreases n,
{
    if n == 0 {
        Seq::empty()
    } else {
        let d = domains[n - 1];
        rels_of_domain(
            rels_projected(source, nodes, domains, (n - 1) as nat),
            source,
            nodes,
            d,
            d.relation_types.len(),
        )
    }
}

/// A schema projected onto domains: the declared entity types with their
/// declared properties, and the declared relations between kept nodes of one
/// domain.
pub open spec fn schema_projected(s: GraphSchemaModel, domains: Seq<DomainModel>) ->
    GraphSchemaModel {
    let nodes = nodes_projected(s.nodes, domains, domains.len());
    GraphSchemaModel {
        nodes,
        relationships: rels_projected(s.relationships, nodes, domains, domains.len()),
    }
}

fn known_domain(domains: &Vec<&DomainOntology>, label: &str) -> (r: bool)
    ensures
        r == names_domain(domains.deep_view(), label@),
{
    let ghost dm = domains.deep_view();
    let mut i: usize = 0;
    while i < domains.len()
        invariant
            dm == domains.deep_view(),
            0 <= i <= domains@.len(),
            forall|j: int| 0 <= j < i ==> (#[trigger] dm[j]).name != Some(label@),
        decreases domains@.len() - i,
    {
        assert(dm[i as int] == domains@[i as int].deep_view());
        if seqs::option_is(&domains[i].name, label) {
            return true;
        }
        i += 1;
    }
    false
}

fn node_matches_domain(node: &NodeKind, domain_name: &str, domains: &Vec<&DomainOntology>) -> (r:
    bool)
    ensures
        r == node_in_domain(node.deep_view(), domain_name@, domains.deep_view()),
{
    match &node.domain {
        Some(d) => text::text_eq(d.as_str(), domain_name),
        None => {
            let ghost labels = node.deep_view().extra_labels;
            if seqs::contains_text(&node.extra_labels, domain_name) {
                return true;
            }
            let mut i: usize = 0;
            while i < node.extra_labels.len()
                invariant
                    labels == node.extra_labels.deep_view(),
                    node.domain is None,
                    !labels.contains(domain_name@),
                    0 <= i <= node.extra_labels@.len(),
                    forall|j: int|
                        0 <= j < i ==> !names_domain(domains.deep_view(), #[trigger] labels[j]),
                decreases node.extra_labels@.len() - i,
            {
                assert(labels[i as int] == node.extra_labels@[i as int]@);
                if known_domain(domains, node.extra_labels[i].as_str()) {
                    return false;
                }
                i += 1;
            }
            true
        },
    }
}

fn has_node(kept: &Vec<NodeKind>, domain: &str, label: &str) -> (r: bool)
    ensures
        r == node_kept(kept.deep_view(), domain@, label@),
{
    let ghost km = kept.deep_view();
    let mut i: usize = 0;
    while i < kept.len()
        invariant
            km == kept.deep_view(),
            0 <= i <= kept@.len(),
            forall|j: int|
                0 <= j < i ==> !((#[trigger] km[j]).domain == Some(domain@) && km[j].label
                    == label@),
        decreases kept@.len() - i,
    {
        assert(km[i as int] == kept@[i as int].deep_view());
        if seqs::option_is(&kept[i].domain, domain) && text::text_eq(
            kept[i].label.as_str(),
            label,
        ) {
            return true;
        }
        i += 1;
    }
    false
}

fn has_rel(kept: &Vec<RelKind>, domain: &str, rel: &RelKind) -> (r: bool)
    ensures
        r == rel_kept(kept.deep_view(), domain@, rel.deep_view()),
{
    let ghost km = kept.deep_view();
    let ghost rm = rel.deep_view();
    let mut i: usize = 0;
    while i < kept.len()
        invariant
            km == kept.deep_view(),
            rm == rel.deep_view(),
            0 <= i <= kept@.len(),
            forall|j: int|
                0 <= j < i ==> !((#[trigger] km[j]).domain == Some(domain@) && km[j].label
                    == rm.label && km[j].from == rm.from && km[j].to == rm.to),
        decreases kept@.len() - i,
    {
        assert(km[i as int] == kept@[i as int].deep_view());
        if seqs::option_is(&kept[i].domain, domain) && text::text_eq(
            kept[i].label.as_str(),
            rel.label.as_str(),
        ) && seqs::same_option(&kept[i].from, &rel.from) && seqs::same_option(
            &kept[i].to,
            &rel.to,
        ) {
            return true;
        }
        i += 1;
    }
    false
}

fn endpoint_is_kept_in_domain(end: &Option<String>, domain: &str, kept: &Vec<NodeKind>) -> (r:
    bool)
    ensures
        r == end_kept(end.deep_view(), domain@, kept.deep_view()),
{
    match end {
        Some(label) => has_node(kept, domain, label.as_str()),
        None => true,
    }
}

fn relationship_matches_domain(rel: &RelKind, domain: &str) -> (r: bool)
    ensures
        r == rel_in_domain(rel.deep_view(), domain@),
{
    match &rel.domain {
        Some(d) => text::text_eq(d.as_str(), domain),
        None => true,
    }
}

fn project_type(
    kept: &mut Vec<NodeKind>,
    source: &Vec<NodeKind>,
    domains: &Vec<&DomainOntology>,
    domain: &str,
    t: &EntityTypeSpec,
)
    ensures
        final(kept).deep_view() == nodes_step(
            old(kept).deep_view(),
            source.deep_view(),
            domains.deep_view(),
            domain@,
            t.deep_view(),
        ),
{
    let ghost sm = source.deep_view();
    let ghost tm = t.deep_view();
    let ghost dm = domains.deep_view();
    let ghost p = |n: NodeKindModel| n.label == tm.name && node_in_domain(n, domain@, dm);
    let mut i: usize = 0;
    while i < source.len()
        invariant
            sm == source.deep_view(),
            tm == t.deep_view(),
            dm == domains.deep_view(),
            p == (|n: NodeKindModel| n.label == tm.name && node_in_domain(n, domain@, dm)),
            *kept == *old(kept),
            0 <= i <= source@.len(),
            forall|j: int| 0 <= j < i ==> !p(#[trigger] sm[j]),
        decreases source@.len() - i,
    {
        assert(sm[i as int] == source@[i as int].deep_view());
        let n = &source[i];
        if text::text_eq(n.label.as_str(), t.name.as_str()) && node_matches_domain(
            n,
            domain,
            domains,
        ) {
            proof {
                seqs::first_where_at(sm, p, i as int);
            }
            if !has_node(kept, domain, n.label.as_str()) {
                let node = NodeKind {
                    label: n.label.clone(),
                    domain: Some(domain.to_owned()),
                    extra_labels: n.extra_labels.copied(),
                    scopes: crate::prompt::copy_scopes(&n.scopes),
                    description: t.description.copied(),
                    properties: retain_declared(&n.properties, t),
                };
                seqs::push_item(kept, node);
            }
            return;
        }
        i += 1;
    }
    proof {
        seqs::first_where_none(sm, p);
    }
}

fn project_nodes(source: &Vec<NodeKind>, domains: &Vec<&DomainOntology>) -> (r: Vec<NodeKind>)
    ensures
        r.deep_view() == nodes_projected(
            source.deep_view(),
            domains.deep_view(),
            domains@.len(),
        ),
{
    let ghost (sm, dm) = (source.deep_view(), domains.deep_view());
    let mut kept: Vec<NodeKind> = seqs::no_items();
    let mut i: usize = 0;
    while i < domains.len()
        invariant
            sm == source.deep_view(),
            dm == domains.deep_view(),
            0 <= i <= domains@.len(),
            kept.deep_view() == nodes_projected(sm, dm, i as nat),
        decreases domains@.len() - i,
    {
        let d = domains[i];
        assert(dm[i as int] == d.deep_view());
        let ghost start = kept.deep_view();
        if let Some(name) = &d.name {
            let mut j: usize = 0;
            while j < d.entity_types.len()
                invariant
                    sm == source.deep_view(),
                    dm == domains.deep_view(),
                    d.deep_view().name == Some(name@),
                    0 <= j <= d.entity_types@.len(),
                    kept.deep_view() == nodes_of_domain(start, sm, dm, d.deep_view(), j as nat),
                decreases d.entity_types@.len() - j,
            {
                assert(d.deep_view().entity_types[j as int]
                    == d.entity_types@[j as int].deep_view());
                project_type(&mut kept, source, domains, name.as_str(), &d.entity_types[j]);
                j += 1;
            }
        }
        i += 1;
    }
    kept
}

fn project_rels(source: &Vec<RelKind>, nodes: &Vec<NodeKind>, domains: &Vec<&DomainOntology>) -> (r:
    Vec<RelKind>)
    ensures
        r.deep_view() == rels_projected(
            source.deep_view(),
            nodes.deep_view(),
            domains.deep_view(),
            domains@.len(),
        ),
{
    let ghost (sm, nm, dm) = (source.deep_view(), nodes.deep_view(), domains.deep_view());
    let mut kept: Vec<RelKind> = seqs::no_items();
    let mut i: usize = 0;
    while i < domains.len()
        invariant
            sm == source.deep_view(),
            nm == nodes.deep_view(),
            dm == domains.deep_view(),
            0 <= i <= domains@.len(),
            kept.deep_view() == rels_projected(sm, nm, dm, i as nat),
        decreases domains@.len() - i,
    {
        let d = domains[i];
        assert(dm[i as int] == d.deep_view());
        let ghost start = kept.deep_view();
        if let Some(name) = &d.name {
            let mut j: usize = 0;
            while j < d.relation_types.len()
                invariant
                    sm == source.deep_view(),
                    nm == nodes.deep_view(),
                    d.deep_view().name == Some(name@),
                    0 <= j <= d.relation_types@.len(),
                    kept.deep_view() == rels_of_domain(start, sm, nm, d.deep_view(), j as nat),
                decreases d.relation_types@.len() - j,
            {
                let t = &d.relation_types[j];
                let ghost tm = t.deep_view();
                assert(d.deep_view().relation_types[j as int] == tm);
                let ghost before = kept.deep_view();
                let mut k: usize = 0;
                while k < source.len()
                    invariant
                        sm == source.deep_view(),
                        nm == nodes.deep_view(),
                        tm == t.deep_view(),
                        0 <= k <= source@.len(),
                        kept.deep_view() == rels_of_type(before, sm, nm, name@, tm, k as nat),
                    decreases source@.len() - k,
                {
                    let rel = &source[k];
                    assert(sm[k as int] == rel.deep_view());
                    if text::text_eq(rel.label.as_str(), t.name.as_str())
                        && relationship_matches_domain(rel, name.as_str())
                        && endpoint_is_kept_in_domain(&rel.from, name.as_str(), nodes)
                        && endpoint_is_kept_in_domain(&rel.to, name.as_str(), nodes) && !has_rel(
                        &kept,
                        name.as_str(),
                        rel,
                    ) {
                        let projected = RelKind {
                            label: rel.label.clone(),
                            domain: Some(name.clone()),
                            description: t.description.copied(),
                            from: rel.from.copied(),
                            to: rel.to.copied(),
                            properties: retain_declared_rel(&rel.properties, t),
                        };
                        seqs::push_item(&mut kept, projected);
                    }
                    k += 1;
                }
                j += 1;
            }
        }
        i += 1;
    }
    kept
}

impl OntologyCatalog {
    /// A schema by domain; what carries no domain is left out.
    pub fn split_schema_by_domain(schema: &GraphSchema) -> (r: StrMap<GraphSchema>)
        ensures
            r.deep_view() == schema_split(schema.deep_view()),
    {
        let ghost sm = schema.deep_view();
        let mut out: StrMap<GraphSchema> = StrMap::new();
        let mut i: usize = 0;
        while i < schema.nodes.len()
            invariant
                sm == schema.deep_view(),
                0 <= i <= schema.nodes@.len(),
                out.deep_view() == nodes_split(sm.nodes.take(i as int)),
            decreases schema.nodes@.len() - i,
        {
            proof {
                assert(sm.nodes.take(i + 1).drop_last() =~= sm.nodes.take(i as int));
                assert(sm.nodes.take(i + 1).last() == schema.nodes@[i as int].deep_view());
            }
            let node = &schema.nodes[i];
            if let Some(d) = &node.domain {
                let mut s = schema_of(&out, d.as_str());
                seqs::push_item(&mut s.nodes, node.copied());
                out.insert(d.clone(), s);
            }
            i += 1;
        }
        assert(sm.nodes.take(i as int) =~= sm.nodes);
        let ghost m = out.deep_view();
        let mut j: usize = 0;
        while j < schema.relationships.len()
            invariant
                sm == schema.deep_view(),
                m == nodes_split(sm.nodes),
                0 <= j <= schema.relationships@.len(),
                out.deep_view() == rels_split(m, sm.relationships.take(j as int)),
            decreases schema.relationships@.len() - j,
        {
            proof {
                assert(sm.relationships.take(j + 1).drop_last() =~= sm.relationships.take(j as int));
                assert(sm.relationships.take(j + 1).last()
                    == schema.relationships@[j as int].deep_view());
            }
            let rel = &schema.relationships[j];
            if let Some(d) = &rel.domain {
                let mut s = schema_of(&out, d.as_str());
                seqs::push_item(&mut s.relationships, rel.copied());
                out.insert(d.clone(), s);
            }
            j += 1;
        }
        assert(sm.relationships.take(j as int) =~= sm.relationships);
        out
    }

    /// Cut a live schema down to what the domains declare, and describe what is
    /// kept as they do. See [`schema_projected`].
    pub fn project_schema(schema: &mut GraphSchema, domains: Vec<&DomainOntology>)
        ensures
            final(schema).deep_view() == schema_projected(
                old(schema).deep_view(),
                domains.deep_view(),
            ),
    {
        let nodes = project_nodes(&schema.nodes, &domains);
        let relationships = project_rels(&schema.relationships, &nodes, &domains);
        schema.nodes = nodes;
        schema.relationships = relationships;
    }
}

/// Every kept node is an instance of an entity type that its domain declares.
pub open spec fn nodes_are_declared(kept: Seq<NodeKindModel>, domains: Seq<DomainModel>) -> bool {
    forall|i: int|
        0 <= i < kept.len() ==> node_is_declared(#[trigger] kept[i], domains)
}

pub open spec fn node_is_declared(n: NodeKindModel, domains: Seq<DomainModel>) -> bool {
    exists|d: int, t: int|
        0 <= d < domains.len() && 0 <= t < domains[d].entity_types.len() && n.domain
            == domains[d].name && n.domain is Some && n.label == (
        #[trigger] domains[d].entity_types[t]).name && properties_are_declared(
            n.properties,
            domains[d].entity_types[t].properties,
        )
}

/// Every property has a declaration of its name.
pub open spec fn properties_are_declared(
    props: Seq<PropertyModel>,
    declared: Seq<PropertySpecModel>,
) -> bool {
    forall|i: int|
        0 <= i < props.len() ==> ontology::property_named(
            declared,
            (#[trigger] props[i]).name,
        ) is Some
}

proof fn kept_properties_are_declared(
    props: Seq<PropertyModel>,
    declared: Seq<PropertySpecModel>,
)
    ensures
        properties_are_declared(properties_kept(props, declared), declared),
    decreases props.len(),
{
    if props.len() > 0 {
        kept_properties_are_declared(props.drop_last(), declared);
    }
}

proof fn domain_nodes_are_declared(
    kept: Seq<NodeKindModel>,
    source: Seq<NodeKindModel>,
    domains: Seq<DomainModel>,
    d: int,
    n: nat,
)
    requires
        0 <= d < domains.len(),
        n <= domains[d].entity_types.len(),
        nodes_are_declared(kept, domains),
    ensures
        nodes_are_declared(nodes_of_domain(kept, source, domains, domains[d], n), domains),
    decreases n,
{
    if domains[d].name is Some && n > 0 {
        let m = (n - 1) as nat;
        domain_nodes_are_declared(kept, source, domains, d, m);
        let before = nodes_of_domain(kept, source, domains, domains[d], m);
        let after = nodes_of_domain(kept, source, domains, domains[d], n);
        let name = domains[d].name->0;
        let t = domains[d].entity_types[m as int];
        let p = |x: NodeKindModel| x.label == t.name && node_in_domain(x, name, domains);
        if after != before {
            let k = seqs::first_where_holds(source, p);
            kept_properties_are_declared(source[k].properties, t.properties);
            let new = node_projected(source[k], name, t);
            assert(domains[d].entity_types[m as int] == t);
            assert(node_is_declared(new, domains));
            assert forall|i: int| 0 <= i < after.len() implies node_is_declared(
                #[trigger] after[i],
                domains,
            ) by {
                if i < before.len() {
                    assert(node_is_declared(before[i], domains));
                }
            }
        }
    }
}

proof fn projected_nodes_are_declared(
    source: Seq<NodeKindModel>,
    domains: Seq<DomainModel>,
    n: nat,
)
    requires
        n <= domains.len(),
    ensures
        nodes_are_declared(nodes_projected(source, domains, n), domains),
    decreases n,
{
    if n > 0 {
        projected_nodes_are_declared(source, domains, (n - 1) as nat);
        domain_nodes_are_declared(
            nodes_projected(source, domains, (n - 1) as nat),
            source,
            domains,
            n - 1,
            domains[n - 1].entity_types.len(),
        );
    }
}

/// A projected schema holds only entity types that the domains declare, and of
/// their properties only declared ones.
pub proof fn law_projection_keeps_declared_types(s: GraphSchemaModel, domains: Seq<DomainModel>)
    ensures
        nodes_are_declared(schema_projected(s, domains).nodes, domains),
{
    projected_nodes_are_declared(s.nodes, domains, domains.len());
}

/// Every kept relation runs between nodes kept in its own domain.
pub open spec fn rels_stay_inside(rels: Seq<RelKindModel>, nodes: Seq<NodeKindModel>) -> bool {
    forall|i: int|
        0 <= i < rels.len() ==> rel_stays_inside(#[trigger] rels[i], nodes)
}

pub open spec fn rel_stays_inside(rel: RelKindModel, nodes: Seq<NodeKindModel>) -> bool {
    rel.domain is Some && end_kept(rel.from, rel.domain->0, nodes) && end_kept(
        rel.to,
        rel.domain->0,
        nodes,
    )
}

proof fn type_rels_stay_inside(
    kept: Seq<RelKindModel>,
    source: Seq<RelKindModel>,
    nodes: Seq<NodeKindModel>,
    domain: Seq<char>,
    t: TypeModel,
    n: nat,
)
    requires
        rels_stay_inside(kept, nodes),
    ensures
        rels_stay_inside(rels_of_type(kept, source, nodes, domain, t, n), nodes),
    decreases n,
{
    if n > 0 {
        type_rels_stay_inside(kept, source, nodes, domain, t, (n - 1) as nat);
        let before = rels_of_type(kept, source, nodes, domain, t, (n - 1) as nat);
        let after = rels_of_type(kept, source, nodes, domain, t, n);
        assert forall|i: int| 0 <= i < after.len() implies rel_stays_inside(
            #[trigger] after[i],
            nodes,
        ) by {
            if i < before.len() {
                assert(rel_stays_inside(before[i], nodes));
            }
        }
    }
}

proof fn domain_rels_stay_inside(
    kept: Seq<RelKindModel>,
    source: Seq<RelKindModel>,
    nodes: Seq<NodeKindModel>,
    d: DomainModel,
    n: nat,
)
    requires
        rels_stay_inside(kept, nodes),
    ensures
        rels_stay_inside(rels_of_domain(kept, source, nodes, d, n), nodes),
    decreases n,
{
    if d.name is Some && n > 0 {
        domain_rels_stay_inside(kept, source, nodes, d, (n - 1) as nat);
        type_rels_stay_inside(
            rels_of_domain(kept, source, nodes, d, (n - 1) as nat),
            source,
            nodes,
            d.name->0,
            d.relation_types[n - 1],
            source.len(),
        );
    }
}

proof fn projected_rels_stay_inside(
    source: Seq<RelKindModel>,
    nodes: Seq<NodeKindModel>,
    domains: Seq<DomainModel>,
    n: nat,
)
    ensures
        rels_stay_inside(rels_projected(source, nodes, domains, n), nodes),
    decreases n,
{
    if n > 0 {
        projected_rels_stay_inside(source, nodes, domains, (n - 1) as nat);
        domain_rels_stay_inside(
            rels_projected(source, nodes, domains, (n - 1) as nat),
            source,
            nodes,
            domains[n - 1],
            domains[n - 1].relation_types.len(),
        );
    }
}

/// A projected schema keeps a relation only between nodes that are kept in the
/// relation's own domain.
pub proof fn law_projection_keeps_relations_inside(s: GraphSchemaModel, domains: Seq<DomainModel>)
    ensures
        rels_stay_inside(
            schema_projected(s, domains).relationships,
            schema_projected(s, domains).nodes,
        ),
{
    projected_rels_stay_inside(
        s.relationships,
        schema_projected(s, domains).nodes,
        domains,
        domains.len(),
    );
}

/// The text by which a query is routed to domains.
pub open spec fn query_text(query: Seq<char>) -> Seq<char> {
    "User query:"@ + query
        + "\nTask: Identify the most relevant ontology domains for this query"@
}

/// The text by which a query is routed to domains.
pub fn domain_query_text(query: &str) -> (r: String)
    ensures
        r@ == query_text(query@),
{
    let mut s = "User query:".to_owned();
    s.append(query);
    s.append("\nTask: Identify the most relevant ontology domains for this query");
    s
}

/// Name and description of an entity type on one line.
pub open spec fn entity_line(t: TypeModel) -> Seq<char> {
    t.name + " - "@ + (match t.description {
        Some(d) => d,
        None => Seq::empty(),
    }) + "\n"@
}

fn entity_embedding_text(t: &EntityTypeSpec) -> (r: String)
    ensures
        r@ == entity_line(t.deep_view()),
{
    let mut s = t.name.clone();
    s.append(" - ");
    match &t.description {
        Some(d) => {
            s.append(d.as_str());
        },
        None => {
            assert(s@ =~= s@ + Seq::<char>::empty());
        },
    }
    s.append("\n");
    s
}

/// Types in the order of their names.
pub open spec fn type_order() -> spec_fn(TypeModel, TypeModel) -> bool {
    |a: TypeModel, b: TypeModel| text::lex_le(a.name, b.name)
}

fn entity_in_order(a: &EntityTypeSpec, b: &EntityTypeSpec) -> (r: bool)
    ensures
        r == type_order()(a.deep_view(), b.deep_view()),
{
    !text::text_lt(b.name.as_str(), a.name.as_str())
}

fn relation_in_order(a: &RelationTypeSpec, b: &RelationTypeSpec) -> (r: bool)
    ensures
        r == type_order()(a.deep_view(), b.deep_view()),
{
    !text::text_lt(b.name.as_str(), a.name.as_str())
}

/// One item of a list for each entity type.
pub open spec fn entity_items(types: Seq<TypeModel>) -> Seq<char>
    decreases types.len(),
{
    if types.len() == 0 {
        Seq::empty()
    } else {
        entity_items(types.drop_last()) + "\n- "@ + text::trimmed(entity_line(types.last()))
    }
}

/// One item of a list for each relation type.
pub open spec fn relation_items(types: Seq<TypeModel>) -> Seq<char>
    decreases types.len(),
{
    if types.len() == 0 {
        Seq::empty()
    } else {
        relation_items(types.drop_last()) + "\n- "@ + types.last().name
    }
}

/// The text that a domain is found by: its key, its description, its entity
/// types and its relation types, each in the order of their names.
pub open spec fn domain_text(domain: Seq<char>, d: DomainModel) -> Seq<char> {
    let head = "Domain: "@ + domain + "\n"@;
    let described = match d.description {
        Some(t) => if t.len() > 0 {
            head + "Description: "@ + t + "\n"@
        } else {
            head
        },
        None => head,
    };
    let entities = if d.entity_types.len() > 0 {
        described + "Entities:"@ + entity_items(sorting::sorted_by(d.entity_types, type_order()))
            + "\n"@
    } else {
        described
    };
    if d.relation_types.len() > 0 {
        entities + "Relations:"@ + relation_items(
            sorting::sorted_by(d.relation_types, type_order()),
        ) + "\n"@
    } else {
        entities
    }
}

/// The text that a domain is found by. See [`domain_text`].
pub fn domain_embedding_text(domain: &str, ontology: &DomainOntology) -> (r: String)
    ensures
        r@ == domain_text(domain@, ontology.deep_view()),
{
    let ghost dm = ontology.deep_view();
    let mut out = "Domain: ".to_owned();
    out.append(domain);
    out.append("\n");
    if let Some(d) = &ontology.description {
        if !d.as_str().is_empty() {
            out.append("Description: ");
            out.append(d.as_str());
            out.append("\n");
        }
    }
    if ontology.entity_types.len() > 0 {
        let mut entities = ontology.entity_types.copied();
        sorting::sort_items(&mut entities, entity_in_order, Ghost(type_order()));
        let ghost sorted = entities.deep_view();
        let mut list = String::new();
        let mut i: usize = 0;
        while i < entities.len()
            invariant
                sorted == entities.deep_view(),
                0 <= i <= entities@.len(),
                list@ == entity_items(sorted.take(i as int)),
            decreases entities@.len() - i,
        {
            proof {
                assert(sorted.take(i + 1).drop_last() =~= sorted.take(i as int));
                assert(sorted.take(i + 1).last() == entities@[i as int].deep_view());
            }
            list.append("\n- ");
            let line = entity_embedding_text(&entities[i]);
            list.append(text::trim(line.as_str()).as_str());
            i += 1;
        }
        assert(sorted.take(i as int) =~= sorted);
        out.append("Entities:");
        out.append(list.as_str());
        out.append("\n");
    }
    if ontology.relation_types.len() > 0 {
        let mut relations = ontology.relation_types.copied();
        sorting::sort_items(&mut relations, relation_in_order, Ghost(type_order()));
        let ghost sorted = relations.deep_view();
        let mut list = String::new();
        let mut i: usize = 0;
        while i < relations.len()
            invariant
                sorted == relations.deep_view(),
                0 <= i <= relations@.len(),
                list@ == relation_items(sorted.take(i as int)),
            decreases relations@.len() - i,
        {
            proof {
                assert(sorted.take(i + 1).drop_last() =~= sorted.take(i as int));
                assert(sorted.take(i + 1).last() == relations@[i as int].deep_view());
            }
            list.append("\n- ");
            list.append(relations[i].name.as_str());
            i += 1;
        }
        assert(sorted.take(i as int) =~= sorted);
        out.append("Relations:");
        out.append(list.as_str());
        out.append("\n");
    }
    out
}

} // verus!
