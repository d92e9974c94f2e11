//! A subgraph as a document that can be read back into a graph.

use vstd::prelude::*;
use crate::explore::dto::EdgeView;
use crate::explore::dto::EdgeViewModel;
use crate::explore::dto::ExportDoc;
use crate::explore::dto::NodeView;
use crate::explore::dto::NodeViewModel;
use crate::explore::dto::PropertyGroups;
use crate::explore::dto::PropertyGroupsModel;
use crate::explore::dto::Subgraph;
use crate::explore::dto::SubgraphModel;
use crate::json;
use crate::json::Json;
use crate::json::JsonModel;
use crate::json::JsonNumber;
use crate::json::NumberModel;
use crate::seqs;
use crate::seqs::Copied;
use crate::strmap;
use crate::strmap::StrMap;
use crate::text;

verus! {

broadcast use vstd::string::group_string_axioms;

/// A JSON object of one key.
pub open spec fn object_with(m: Seq<(Seq<char>, JsonModel)>, key: Seq<char>, value: JsonModel) ->
    Seq<(Seq<char>, JsonModel)> {
    strmap::assoc_insert(m, key, value)
}

/// A value with its type.
pub open spec fn typed_value(ty: Seq<char>, value: JsonModel) -> JsonModel {
    JsonModel::Object(
        object_with(object_with(Seq::empty(), "type"@, JsonModel::Str(ty)), "value"@, value),
    )
}

/// The groups that properties are exported from.
#[derive(Debug, Clone, Copy, PartialEq, Eq, Structural)]
pub enum Group {
    Identifier,
    Description,
    Fact,
    Date,
    Other,
}

/// A value as it is exported from its group. The type of the last group is left
/// to the reader.
pub open spec fn exported_value(g: Group, value: JsonModel) -> JsonModel {
    match g {
        Group::Identifier => typed_value(
            if value is Array {
                "List"@
            } else {
                "Keyword"@
            },
            value,
        ),
        Group::Description => typed_value("Text"@, value),
        Group::Fact => typed_value(
            if value is Bool {
                "Bool"@
            } else {
                "Number"@
            },
            value,
        ),
        Group::Date => typed_value("Datetime"@, value),
        Group::Other => value,
    }
}

/// The properties of a group, put on what is there.
pub open spec fn with_group(
    out: Seq<(Seq<char>, JsonModel)>,
    g: Group,
    props: Seq<(Seq<char>, JsonModel)>,
) -> Seq<(Seq<char>, JsonModel)>
    decreases props.len(),
{
    if props.len() == 0 {
        out
    } else {
        strmap::assoc_insert(
            with_group(out, g, props.drop_last()),
            props.last().0,
            exported_value(g, props.last().1),
        )
    }
}

/// The properties of all groups, and the confidence where no property has that
/// name.
pub open spec fn exported_properties(g: PropertyGroupsModel, confidence: Option<NumberModel>) ->
    Seq<(Seq<char>, JsonModel)> {
    let a = with_group(Seq::empty(), Group::Identifier, g.identifiers);
    let b = with_group(a, Group::Description, g.descriptions);
    let c = with_group(b, Group::Fact, g.facts);
    let d = with_group(c, Group::Date, g.dates);
    let e = with_group(d, Group::Other, g.other);
    match confidence {
        Some(n) => if strmap::assoc_get(e, "confidence"@) is None {
            strmap::assoc_insert(
                e,
                "confidence"@,
                typed_value("Number"@, JsonModel::Number(n)),
            )
        } else {
            e
        },
        None => e,
    }
}

/// A node as it is exported.
pub open spec fn exported_node(n: NodeViewModel) -> JsonModel {
    JsonModel::Object(
        object_with(
            object_with(
                object_with(Seq::empty(), "id"@, JsonModel::Str(n.id)),
                "type"@,
                JsonModel::Str(n.entity_type),
            ),
            "properties"@,
            JsonModel::Object(exported_properties(n.properties, n.confidence)),
        ),
    )
}

/// An edge as it is exported.
pub open spec fn exported_edge(e: EdgeViewModel) -> JsonModel {
    JsonModel::Object(
        object_with(
            object_with(
                object_with(
                    object_with(Seq::empty(), "from"@, JsonModel::Str(e.from)),
                    "to"@,
                    JsonModel::Str(e.to),
                ),
                "type"@,
                JsonModel::Str(e.edge_type),
            ),
            "properties"@,
            JsonModel::Object(e.properties),
        ),
    )
}

/// Is there a node of this id?
pub open spec fn has_node(nodes: Seq<NodeViewModel>, id: Seq<char>) -> bool {
    exists|i: int| 0 <= i < nodes.len() && (#[trigger] nodes[i]).id == id
}

/// The edges whose ends are both among the nodes.
pub open spec fn inner_edges(edges: Seq<EdgeViewModel>, nodes: Seq<NodeViewModel>) -> Seq<
    EdgeViewModel,
>
    decreases edges.len(),
{
    if edges.len() == 0 {
        Seq::empty()
    } else {
        let before = inner_edges(edges.drop_last(), nodes);
        if has_node(nodes, edges.last().from) && has_node(nodes, edges.last().to) {
            before.push(edges.last())
        } else {
            before
        }
    }
}

/// The document of a subgraph.
pub open spec fn exported(s: SubgraphModel) -> JsonModel {
    let inner = inner_edges(s.edges, s.nodes);
    JsonModel::Object(
        object_with(
            object_with(
                Seq::empty(),
                "entities"@,
                JsonModel::Array(Seq::new(s.nodes.len(), |i: int| exported_node(s.nodes[i]))),
            ),
            "relations"@,
            JsonModel::Array(Seq::new(inner.len(), |i: int| exported_edge(inner[i]))),
        ),
    )
}

/// Every exported relation connects exported entities.
pub proof fn law_exported_edges_have_their_ends(
    edges: Seq<EdgeViewModel>,
    nodes: Seq<NodeViewModel>,
    i: int,
)
    requires
        0 <= i < inner_edges(edges, nodes).len(),
    ensures
        has_node(nodes, inner_edges(edges, nodes)[i].from),
        has_node(nodes, inner_edges(edges, nodes)[i].to),
        edges.contains(inner_edges(edges, nodes)[i]),
    decreases edges.len(),
{
    let before = inner_edges(edges.drop_last(), nodes);
    if i < before.len() {
        law_exported_edges_have_their_ends(edges.drop_last(), nodes, i);
        let e = before[i];
        let k = choose|k: int| 0 <= k < edges.drop_last().len() && edges.drop_last()[k] == e;
        assert(edges[k] == e);
    } else {
        assert(edges[edges.len() - 1] == edges.last());
    }
}

fn typed(ty: &str, value: Json) -> (r: Json)
    ensures
        r.deep_view() == typed_value(ty@, value.deep_view()),
{
    let mut m: StrMap<Json> = StrMap::new();
    m.insert("type".to_owned(), Json::Str(ty.to_owned()));
    m.insert("value".to_owned(), value);
    proof {
        json::json_object_model(m);
    }
    Json::Object(m)
}

fn export_value(g: Group, value: &Json) -> (r: Json)
    ensures
        r.deep_view() == exported_value(g, value.deep_view()),
{
    proof {
        if let Json::Array(v) = value {
            json::json_array_model(*v);
        }
    }
    match g {
        Group::Identifier => match value {
            Json::Array(_) => typed("List", value.copied()),
            _ => typed("Keyword", value.copied()),
        },
        Group::Description => typed("Text", value.copied()),
        Group::Fact => match value {
            Json::Bool(_) => typed("Bool", value.copied()),
            _ => typed("Number", value.copied()),
        },
        Group::Date => typed("Datetime", value.copied()),
        Group::Other => value.copied(),
    }
}

fn put_group(out: &mut StrMap<Json>, g: Group, props: &StrMap<Json>)
    ensures
        final(out).deep_view() == with_group(old(out).deep_view(), g, props.deep_view()),
{
    let ghost start = out.deep_view();
    let ghost all = props.deep_view();
    let mut i: usize = 0;
    while i < props.entries.len()
        invariant
            all == props.deep_view(),
            0 <= i <= props.entries@.len(),
            out.deep_view() == with_group(start, g, all.take(i as int)),
        decreases props.entries@.len() - i,
    {
        proof {
            assert(all.take(i + 1).drop_last() =~= all.take(i as int));
            assert(all.take(i + 1).last() == props.entries@[i as int].deep_view());
        }
        let value = export_value(g, &props.entries[i].1);
        out.insert(props.entries[i].0.clone(), value);
        i += 1;
    }
    assert(all.take(i as int) =~= all);
}

/// The properties of a node with their types.
pub fn typed_properties(groups: &PropertyGroups, confidence: &Option<JsonNumber>) -> (r: StrMap<
    Json,
>)
    ensures
        r.deep_view() == exported_properties(groups.deep_view(), confidence.deep_view()),
{
    let mut out: StrMap<Json> = StrMap::new();
    put_group(&mut out, Group::Identifier, &groups.identifiers);
    put_group(&mut out, Group::Description, &groups.descriptions);
    put_group(&mut out, Group::Fact, &groups.facts);
    put_group(&mut out, Group::Date, &groups.dates);
    put_group(&mut out, Group::Other, &groups.other);
    if let Some(n) = confidence {
        if !out.contains_key("confidence") {
            out.insert("confidence".to_owned(), typed("Number", Json::Number(n.copy())));
        }
    }
    out
}

fn export_node(n: &NodeView) -> (r: Json)
    ensures
        r.deep_view() == exported_node(n.deep_view()),
{
    let props = typed_properties(&n.properties, &n.confidence);
    proof {
        json::json_object_model(props);
    }
    let mut m: StrMap<Json> = StrMap::new();
    m.insert("id".to_owned(), Json::Str(n.id.clone()));
    m.insert("type".to_owned(), Json::Str(n.entity_type.clone()));
    m.insert("properties".to_owned(), Json::Object(props));
    proof {
        json::json_object_model(m);
    }
    Json::Object(m)
}

fn export_edge(e: &EdgeView) -> (r: Json)
    ensures
        r.deep_view() == exported_edge(e.deep_view()),
{
    let props = e.properties.copied();
    proof {
        json::json_object_model(props);
    }
    let mut m: StrMap<Json> = StrMap::new();
    m.insert("from".to_owned(), Json::Str(e.from.clone()));
    m.insert("to".to_owned(), Json::Str(e.to.clone()));
    m.insert("type".to_owned(), Json::Str(e.edge_type.clone()));
    m.insert("properties".to_owned(), Json::Object(props));
    proof {
        json::json_object_model(m);
    }
    Json::Object(m)
}

/// Is there a node of this id?
pub fn node_present(nodes: &Vec<NodeView>, id: &str) -> (r: bool)
    ensures
        r == has_node(nodes.deep_view(), id@),
{
    let ghost all = nodes.deep_view();
    let mut i: usize = 0;
    while i < nodes.len()
        invariant
            all == nodes.deep_view(),
            0 <= i <= nodes@.len(),
            forall|j: int| 0 <= j < i ==> (#[trigger] all[j]).id != id@,
        decreases nodes@.len() - i,
    {
        assert(all[i as int] == nodes@[i as int].deep_view());
        if text::text_eq(nodes[i].id.as_str(), id) {
            return true;
        }
        i += 1;
    }
    false
}

/// The document of a subgraph. Edges that lead out of it are left out.
pub fn export_subgraph(subgraph: &Subgraph) -> (r: ExportDoc)
    ensures
        r.deep_view() == exported(subgraph.deep_view()),
{
    let ghost nodes = subgraph.nodes.deep_view();
    let ghost edges = subgraph.edges.deep_view();
    let ghost want = Seq::new(nodes.len(), |i: int| exported_node(nodes[i]));
    let mut entities: Vec<Json> = seqs::no_items();
    let mut i: usize = 0;
    while i < subgraph.nodes.len()
        invariant
            nodes == subgraph.nodes.deep_view(),
            want == Seq::new(nodes.len(), |i: int| exported_node(nodes[i])),
            0 <= i <= subgraph.nodes@.len(),
            entities.deep_view() == want.take(i as int),
        decreases subgraph.nodes@.len() - i,
    {
        assert(nodes[i as int] == subgraph.nodes@[i as int].deep_view());
        seqs::push_item(&mut entities, export_node(&subgraph.nodes[i]));
        i += 1;
        assert(entities.deep_view() =~= want.take(i as int));
    }
    assert(entities.deep_view() =~= want);
    let mut relations: Vec<Json> = seqs::no_items();
    let mut k: usize = 0;
    assert(relations.deep_view() =~= Seq::new(
        inner_edges(edges.take(0), nodes).len(),
        |i: int| exported_edge(inner_edges(edges.take(0), nodes)[i]),
    ));
    while k < subgraph.edges.len()
        invariant
            nodes == subgraph.nodes.deep_view(),
            edges == subgraph.edges.deep_view(),
            0 <= k <= subgraph.edges@.len(),
            ({
                let inner = inner_edges(edges.take(k as int), nodes);
                relations.deep_view() == Seq::new(inner.len(), |i: int| exported_edge(inner[i]))
            }),
        decreases subgraph.edges@.len() - k,
    {
        let ghost inner = inner_edges(edges.take(k as int), nodes);
        let ghost next = inner_edges(edges.take(k + 1), nodes);
        proof {
            assert(edges.take(k + 1).drop_last() =~= edges.take(k as int));
            assert(edges.take(k + 1).last() == subgraph.edges@[k as int].deep_view());
        }
        let e = &subgraph.edges[k];
        if node_present(&subgraph.nodes, e.from.as_str()) && node_present(
            &subgraph.nodes,
            e.to.as_str(),
        ) {
            seqs::push_item(&mut relations, export_edge(e));
            assert(relations.deep_view() =~= Seq::new(next.len(), |i: int| exported_edge(next[i])));
        }
        k += 1;
    }
    assert(edges.take(k as int) =~= edges);
    proof {
        json::json_array_model(entities);
        json::json_array_model(relations);
    }
    let mut m: StrMap<Json> = StrMap::new();
    m.insert("entities".to_owned(), Json::Array(entities));
    m.insert("relations".to_owned(), Json::Array(relations));
    proof {
        json::json_object_model(m);
    }
    ExportDoc(Json::Object(m))
}

} // verus!
