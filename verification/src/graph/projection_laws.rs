//! Where the nodes and relations of a projected schema come from, and what is said of them.

use vstd::prelude::*;
use crate::graph::ontology::DomainModel;
use crate::graph::ontology::PropertySpecModel;
use crate::graph::ontology::TypeModel;
use crate::graph::projection;
use crate::prompt::GraphSchemaModel;
use crate::prompt::NodeKindModel;
use crate::prompt::PropertyModel;
use crate::prompt::RelKindModel;
use crate::seqs;

verus! {

broadcast use vstd::string::group_string_axioms;

/// A property that stays is described as it is declared, and may have the values of the schema and
/// those that are declared; its name and its type stay.
pub proof fn law_kept_properties_are_described(
    props: Seq<PropertyModel>,
    p: PropertyModel,
    declared: Seq<PropertySpecModel>,
    k: int,
)
    requires
        0 <= k < declared.len(),
        declared[k].name == p.name,
        forall|j: int| 0 <= j < k ==> (#[trigger] declared[j]).name != p.name,
    ensures
        ({
            let before = projection::properties_kept(props, declared);
            let all = projection::properties_kept(props.push(p), declared);
            &&& all.len() == before.len() + 1
            &&& all.drop_last() == before
            &&& all.last().name == p.name && all.last().ty == p.ty
            &&& all.last().description == declared[k].description
            &&& all.last().allowed_values == projection::merged_values(
                p.allowed_values,
                declared[k].allowed_values,
            )
        }),
{
    assert(props.push(p).drop_last() =~= props);
    let name = p.name;
    seqs::first_where_at(declared, |d: PropertySpecModel| d.name == name, k);
    assert(projection::properties_kept(props.push(p), declared).drop_last()
        =~= projection::properties_kept(props, declared));
}

/// Is a kept node one of the schema, put under the domain and described as the type is?
pub open spec fn is_node_for(
    kept: NodeKindModel,
    n: NodeKindModel,
    domain: Option<Seq<char>>,
    t: TypeModel,
) -> bool {
    &&& n.label == t.name
    &&& kept.label == t.name
    &&& kept.domain == domain && domain is Some
    &&& kept.description == t.description
    &&& kept.extra_labels == n.extra_labels
    &&& kept.scopes == n.scopes
    &&& kept.properties == projection::properties_kept(n.properties, t.properties)
}

pub open spec fn node_is_of(
    kept: NodeKindModel,
    source: Seq<NodeKindModel>,
    domains: Seq<DomainModel>,
) -> bool {
    exists|k: int, d: int, t: int|
        0 <= k < source.len() && 0 <= d < domains.len() && 0 <= t < domains[d].entity_types.len()
            && is_node_for(
            kept,
            #[trigger] source[k],
            domains[d].name,
            #[trigger] domains[d].entity_types[t],
        )
}

proof fn domain_nodes_are_of(
    kept: Seq<NodeKindModel>,
    source: Seq<NodeKindModel>,
    domains: Seq<DomainModel>,
    d: int,
    n: nat,
)
    requires
        0 <= d < domains.len(),
        n <= domains[d].entity_types.len(),
        forall|i: int| 0 <= i < kept.len() ==> node_is_of(#[trigger] kept[i], source, domains),
    ensures
        forall|i: int|
            0 <= i < projection::nodes_of_domain(kept, source, domains, domains[d], n).len()
                ==> node_is_of(
                #[trigger] projection::nodes_of_domain(kept, source, domains, domains[d], n)[i],
                source,
                domains,
            ),
    decreases n,
{
    if n > 0 && domains[d].name is Some {
        let m = (n - 1) as nat;
        domain_nodes_are_of(kept, source, domains, d, m);
        let before = projection::nodes_of_domain(kept, source, domains, domains[d], m);
        let after = projection::nodes_of_domain(kept, source, domains, domains[d], n);
        let name = domains[d].name->0;
        let t = domains[d].entity_types[m as int];
        let p = |x: NodeKindModel|
            x.label == t.name && projection::node_in_domain(x, name, domains);
        if after != before {
            let k = seqs::first_where_holds(source, p);
            let new = projection::node_projected(source[k], name, t);
            assert(is_node_for(new, source[k], domains[d].name, domains[d].entity_types[m as int]));
            assert forall|i: int| 0 <= i < after.len() implies node_is_of(
                #[trigger] after[i],
                source,
                domains,
            ) by {
                if i < before.len() {
                    assert(after[i] == before[i]);
                }
            }
        }
    }
}

proof fn projected_nodes_are_of(source: Seq<NodeKindModel>, domains: Seq<DomainModel>, n: nat)
    requires
        n <= domains.len(),
    ensures
        forall|i: int|
            0 <= i < projection::nodes_projected(source, domains, n).len() ==> node_is_of(
                #[trigger] projection::nodes_projected(source, domains, n)[i],
                source,
                domains,
            ),
    decreases n,
{
    if n > 0 {
        projected_nodes_are_of(source, domains, (n - 1) as nat);
        domain_nodes_are_of(
            projection::nodes_projected(source, domains, (n - 1) as nat),
            source,
            domains,
            n - 1,
            domains[n - 1].entity_types.len(),
        );
    }
}

/// Every node of a projected schema is one of the schema of a type that a domain declares: it stands
/// under that domain, with the description of the type, and keeps its labels and scopes.
pub proof fn law_kept_nodes_are_of_the_schema(s: GraphSchemaModel, domains: Seq<DomainModel>)
    ensures
        forall|i: int|
            0 <= i < projection::schema_projected(s, domains).nodes.len() ==> node_is_of(
                #[trigger] projection::schema_projected(s, domains).nodes[i],
                s.nodes,
                domains,
            ),
{
    projected_nodes_are_of(s.nodes, domains, domains.len());
}

/// Is a kept relation one of the schema, put under the domain and described as the type is?
pub open spec fn is_relation_for(
    kept: RelKindModel,
    r: RelKindModel,
    domain: Option<Seq<char>>,
    t: TypeModel,
) -> bool {
    &&& r.label == t.name
    &&& kept.label == t.name
    &&& kept.from == r.from && kept.to == r.to
    &&& kept.domain == domain && domain is Some
    &&& kept.description == t.description
    &&& kept.properties == projection::properties_kept(r.properties, t.properties)
}

pub open spec fn relation_is_of(
    kept: RelKindModel,
    source: Seq<RelKindModel>,
    domains: Seq<DomainModel>,
) -> bool {
    exists|k: int, d: int, t: int|
        0 <= k < source.len() && 0 <= d < domains.len() && 0 <= t < domains[d].relation_types.len()
            && is_relation_for(
            kept,
            #[trigger] source[k],
            domains[d].name,
            #[trigger] domains[d].relation_types[t],
        )
}

proof fn type_relations_are_of(
    kept: Seq<RelKindModel>,
    source: Seq<RelKindModel>,
    nodes: Seq<NodeKindModel>,
    domains: Seq<DomainModel>,
    d: int,
    t: int,
    n: nat,
)
    requires
        0 <= d < domains.len(),
        domains[d].name is Some,
        0 <= t < domains[d].relation_types.len(),
        n <= source.len(),
        forall|i: int| 0 <= i < kept.len() ==> relation_is_of(#[trigger] kept[i], source, domains),
    ensures
        ({
            let all = projection::rels_of_type(
                kept,
                source,
                nodes,
                domains[d].name->0,
                domains[d].relation_types[t],
                n,
            );
            forall|i: int| 0 <= i < all.len() ==> relation_is_of(#[trigger] all[i], source, domains)
        }),
    decreases n,
{
    if n > 0 {
        let m = (n - 1) as nat;
        type_relations_are_of(kept, source, nodes, domains, d, t, m);
        let name = domains[d].name->0;
        let ty = domains[d].relation_types[t];
        let before = projection::rels_of_type(kept, source, nodes, name, ty, m);
        let after = projection::rels_of_type(kept, source, nodes, name, ty, n);
        assert forall|i: int| 0 <= i < after.len() implies relation_is_of(
            #[trigger] after[i],
            source,
            domains,
        ) by {
            if i < before.len() {
                assert(after[i] == before[i]);
            } else {
                assert(is_relation_for(
                    after[i],
                    source[m as int],
                    domains[d].name,
                    domains[d].relation_types[t],
                ));
            }
        }
    }
}

proof fn domain_relations_are_of(
    kept: Seq<RelKindModel>,
    source: Seq<RelKindModel>,
    nodes: Seq<NodeKindModel>,
    domains: Seq<DomainModel>,
    d: int,
    n: nat,
)
    requires
        0 <= d < domains.len(),
        n <= domains[d].relation_types.len(),
        forall|i: int| 0 <= i < kept.len() ==> relation_is_of(#[trigger] kept[i], source, domains),
    ensures
        ({
            let all = projection::rels_of_domain(kept, source, nodes, domains[d], n);
            forall|i: int| 0 <= i < all.len() ==> relation_is_of(#[trigger] all[i], source, domains)
        }),
    decreases n,
{
    if n > 0 && domains[d].name is Some {
        let m = (n - 1) as nat;
        domain_relations_are_of(kept, source, nodes, domains, d, m);
        type_relations_are_of(
            projection::rels_of_domain(kept, source, nodes, domains[d], m),
            source,
            nodes,
            domains,
            d,
            m as int,
            source.len(),
        );
    }
}

proof fn projected_relations_are_of(
    source: Seq<RelKindModel>,
    nodes: Seq<NodeKindModel>,
    domains: Seq<DomainModel>,
    n: nat,
)
    requires
        n <= domains.len(),
    ensures
        ({
            let all = projection::rels_projected(source, nodes, domains, n);
            forall|i: int| 0 <= i < all.len() ==> relation_is_of(#[trigger] all[i], source, domains)
        }),
    decreases n,
{
    if n > 0 {
        projected_relations_are_of(source, nodes, domains, (n - 1) as nat);
        domain_relations_are_of(
            projection::rels_projected(source, nodes, domains, (n - 1) as nat),
            source,
            nodes,
            domains,
            n - 1,
            domains[n - 1].relation_types.len(),
        );
    }
}

/// Every relation of a projected schema is one of the schema of a type that a domain declares: it
/// keeps its ends, and stands under that domain with the description of the type.
pub proof fn law_kept_relations_are_of_the_schema(s: GraphSchemaModel, domains: Seq<DomainModel>)
    ensures
        forall|i: int|
            0 <= i < projection::schema_projected(s, domains).relationships.len()
                ==> relation_is_of(
                #[trigger] projection::schema_projected(s, domains).relationships[i],
                s.relationships,
                domains,
            ),
{
    let nodes = projection::schema_projected(s, domains).nodes;
    projected_relations_are_of(s.relationships, nodes, domains, domains.len());
}

} // verus!
