//! What the views of a graph hold of the rows that they are made from.

use vstd::prelude::*;
use crate::db::QueryResultModel;
use crate::db::RowModel;
use crate::db;
use crate::embeddings;
use crate::explore::classify::Bucket;
use crate::explore::classify;
use crate::explore::dto::EdgeViewModel;
use crate::explore::dto::NodeViewModel;
use crate::explore::dto::PropertyGroupsModel;
use crate::explore::dto::RelDirection;
use crate::explore::dto::RelationSummaryModel;
use crate::explore::dto::SubgraphModel;
use crate::explore::explorer::ExplorerLimits;
use crate::explore::explorer::LookupStepModel;
use crate::explore::explorer;
use crate::explore::export::Group;
use crate::explore::export;
use crate::explore::queries::NodeHandleModel;
use crate::explore::queries;
use crate::explore::subgraph;
use crate::explore::summary;
use crate::floats;
use crate::graph::ontology::CatalogModel;
use crate::graph::ontology;
use crate::graph::schema::PropertyType as OntologyPropertyType;
use crate::json::JsonModel;
use crate::json::NumberModel;
use crate::prompt::NodeKindModel;
use crate::prompt::PropertyModel;
use crate::prompt::RelKindModel;
use crate::seqs;
use crate::strmap;
use crate::text;

verus! {

broadcast use vstd::string::group_string_axioms;

proof fn pushed_contains<T>(s: Seq<T>, x: T, y: T)
    ensures
        s.push(x).contains(y) <==> s.contains(y) || x == y,
{
    let t = s.push(x);
    if t.contains(y) {
        let i = choose|i: int| 0 <= i < t.len() && t[i] == y;
        if i < s.len() {
            assert(s[i] == y);
        }
    }
    if s.contains(y) {
        let i = choose|i: int| 0 <= i < s.len() && s[i] == y;
        assert(t[i] == y);
    }
    assert(t[s.len() as int] == x);
}

/// A page has the size that is asked for, or the default one, and never none.
pub proof fn law_pages_are_never_empty(limits: ExplorerLimits, requested: Option<u32>)
    ensures
        explorer::page_size(limits, requested) > 0,
        requested is Some && requested->0 > 0 ==> explorer::page_size(limits, requested)
            == requested->0,
        requested is None && limits.default_page > 0 ==> explorer::page_size(limits, requested)
            == limits.default_page,
{
}

/// A lookup finds an entity in the first reply that has rows: under the handle itself, or under
/// the internal id that an id of digits may stand for. It gives up only where no reply has rows.
pub proof fn law_lookups_find_the_first(
    id: Seq<char>,
    prefix: Option<Seq<char>>,
    replies: Seq<QueryResultModel>,
)
    requires
        replies.len() <= 2,
    ensures
        match explorer::lookup(id, prefix, replies) {
            Ok(LookupStepModel::Found { handle, reply }) => {
                &&& reply < replies.len()
                &&& replies[reply as int].rows.len() > 0
                &&& reply == 0 ==> handle == queries::handle_of(id)
                &&& reply == 1 ==> replies[0].rows.len() == 0 && text::i64_of(id) is Some && handle
                    == NodeHandleModel::Nid(text::i64_of(id)->0)
            },
            Ok(LookupStepModel::Missing) => forall|i: int|
                0 <= i < replies.len() && (i == 0 || (queries::handle_of(id) is AppId && text::i64_of(
                    id,
                ) is Some)) ==> (#[trigger] replies[i]).rows.len() == 0,
            Ok(LookupStepModel::Ask(_)) => forall|i: int|
                0 <= i < replies.len() ==> (#[trigger] replies[i]).rows.len() == 0,
            Err(_) => true,
        },
        replies.len() > 0 && replies[0].rows.len() > 0 ==> explorer::lookup(id, prefix, replies)
            == Ok::<_, crate::explore::error::ExploreErrorModel>(
            LookupStepModel::Found { handle: queries::handle_of(id), reply: 0 },
        ),
{
}

/// The name that is shown: a name that is not blank, else such a title, else the id.
pub open spec fn is_shown_name(
    shown: Seq<char>,
    props: Seq<(Seq<char>, JsonModel)>,
    id: Seq<char>,
) -> bool {
    let name = strmap::assoc_get(props, "name"@);
    let title = strmap::assoc_get(props, "title"@);
    if name is Some && name->0 is Str && text::trimmed(name->0->Str_0).len() > 0 {
        shown == name->0->Str_0
    } else if title is Some && title->0 is Str && text::trimmed(title->0->Str_0).len() > 0 {
        shown == title->0->Str_0
    } else {
        shown == id
    }
}

/// A node is what its row says: its id where it has one, else a handle of its internal id, which
/// does not last; its labels, its confidence, and the name to be shown. A row with neither id is
/// no node.
pub proof fn law_nodes_are_of_their_rows(
    row: RowModel,
    prefix: Option<Seq<char>>,
    catalog: Option<CatalogModel>,
)
    ensures
        ({
            let id = db::id_cell(strmap::assoc_get(row, "id"@));
            let nid = db::int_cell(strmap::assoc_get(row, "nid"@));
            let props = db::object_cell(strmap::assoc_get(row, "props"@));
            match explorer::node_in(row, prefix, catalog) {
                None => id is None && nid is None,
                Some(n) => {
                    &&& id is Some ==> n.id == id->0 && !n.ephemeral_handle
                    &&& id is None ==> nid is Some && n.id == "_nid:"@ + text::int_text(
                        nid->0 as int,
                    ) && n.ephemeral_handle
                    &&& n.labels == db::texts_cell(strmap::assoc_get(row, "labels"@))
                    &&& is_shown_name(n.name, props, n.id)
                    &&& n.confidence is Some <==> match strmap::assoc_get(props, "confidence"@) {
                        Some(v) => v is Number,
                        None => false,
                    }
                },
            }
        }),
{
}

/// The nodes of rows are those of the rows that are nodes, in their order.
pub proof fn law_nodes_come_row_by_row(
    rows: Seq<RowModel>,
    prefix: Option<Seq<char>>,
    catalog: Option<CatalogModel>,
)
    ensures
        ({
            let found = rows.filter(|r: RowModel| explorer::node_in(r, prefix, catalog) is Some);
            let nodes = explorer::nodes_in(rows, prefix, catalog);
            &&& nodes.len() == found.len()
            &&& forall|i: int|
                0 <= i < nodes.len() ==> Some(#[trigger] nodes[i]) == explorer::node_in(
                    found[i],
                    prefix,
                    catalog,
                )
        }),
    decreases rows.len(),
{
    reveal(Seq::filter);
    if rows.len() > 0 {
        law_nodes_come_row_by_row(rows.drop_last(), prefix, catalog);
    }
}

/// The edge that a row tells of, between an entity and the neighbour in the row: away from the
/// entity where the row says that it goes out, else towards it.
pub open spec fn goes_as_told(
    e: EdgeViewModel,
    origin: NodeViewModel,
    neighbor: NodeViewModel,
    row: RowModel,
) -> bool {
    let out = db::bool_cell(strmap::assoc_get(row, "outgoing"@)) == Some(true);
    &&& out ==> e.from == origin.id && e.to == neighbor.id
    &&& !out ==> e.from == neighbor.id && e.to == origin.id
    &&& match db::text_cell(strmap::assoc_get(row, "rel"@)) {
        Some(t) => e.edge_type == t,
        None => e.edge_type.len() == 0,
    }
    &&& e.properties == db::object_cell(strmap::assoc_get(row, "rel_props"@))
}

pub open spec fn has_edge_as_told(
    edges: Seq<EdgeViewModel>,
    origin: NodeViewModel,
    neighbor: NodeViewModel,
    row: RowModel,
) -> bool {
    exists|e: EdgeViewModel| #[trigger] goes_as_told(e, origin, neighbor, row)
        && subgraph::has_edge(edges, e.from + ":"@ + e.edge_type + ":"@ + e.to)
}

pub open spec fn is_edge_of_a_row(
    e: EdgeViewModel,
    origin: NodeViewModel,
    rows: Seq<RowModel>,
    prefix: Option<Seq<char>>,
    catalog: Option<CatalogModel>,
) -> bool {
    exists|i: int|
        0 <= i < rows.len() && match explorer::node_in(#[trigger] rows[i], prefix, catalog) {
            Some(n) => goes_as_told(e, origin, n, rows[i]),
            None => false,
        }
}

pub open spec fn is_node_of_a_row(
    n: NodeViewModel,
    rows: Seq<RowModel>,
    prefix: Option<Seq<char>>,
    catalog: Option<CatalogModel>,
) -> bool {
    exists|i: int|
        0 <= i < rows.len() && explorer::node_in(#[trigger] rows[i], prefix, catalog) == Some(n)
}

/// The neighbour in a row is among the nodes, and the edge that the row tells of among the edges.
pub open spec fn row_is_met(
    nodes: Seq<NodeViewModel>,
    edges: Seq<EdgeViewModel>,
    origin: NodeViewModel,
    row: RowModel,
    prefix: Option<Seq<char>>,
    catalog: Option<CatalogModel>,
) -> bool {
    match explorer::node_in(row, prefix, catalog) {
        Some(n) => export::has_node(nodes, n.id) && has_edge_as_told(edges, origin, n, row),
        None => true,
    }
}

/// The neighbours of an entity are those in the rows, each of them by its id, and none twice; each
/// row with a neighbour tells of an edge, which goes the way that the row says; every edge is one
/// that a row tells of.
pub proof fn law_neighbors_are_of_the_rows(
    origin: NodeViewModel,
    rows: Seq<RowModel>,
    prefix: Option<Seq<char>>,
    catalog: Option<CatalogModel>,
)
    ensures
        ({
            let (nodes, edges) = explorer::neighborhood(origin, rows, prefix, catalog);
            &&& forall|i: int|
                0 <= i < rows.len() ==> row_is_met(
                    nodes,
                    edges,
                    origin,
                    #[trigger] rows[i],
                    prefix,
                    catalog,
                )
            &&& forall|k: int|
                0 <= k < nodes.len() ==> #[trigger] nodes[k] == origin || is_node_of_a_row(
                    nodes[k],
                    rows,
                    prefix,
                    catalog,
                )
            &&& forall|k: int|
                0 <= k < edges.len() ==> is_edge_of_a_row(
                    #[trigger] edges[k],
                    origin,
                    rows,
                    prefix,
                    catalog,
                )
            &&& forall|k: int, m: int|
                0 <= k < m < nodes.len() ==> (#[trigger] nodes[k]).id != (#[trigger] nodes[m]).id
        }),
{
    let (nodes, edges) = explorer::neighborhood(origin, rows, prefix, catalog);
    assert forall|i: int| 0 <= i < rows.len() implies row_is_met(
        nodes,
        edges,
        origin,
        #[trigger] rows[i],
        prefix,
        catalog,
    ) by {
        rows_are_met(origin, rows, prefix, catalog, i);
    }
    neighbors_come_from_rows(origin, rows, prefix, catalog);
    edges_come_from_rows(origin, rows, prefix, catalog);
}

proof fn more_is_met(
    nodes: Seq<NodeViewModel>,
    edges: Seq<EdgeViewModel>,
    origin: NodeViewModel,
    row: RowModel,
    prefix: Option<Seq<char>>,
    catalog: Option<CatalogModel>,
    n: NodeViewModel,
    e: EdgeViewModel,
)
    requires
        row_is_met(nodes, edges, origin, row, prefix, catalog),
    ensures
        row_is_met(
            explorer::add_node(nodes, n),
            subgraph::add_edge(edges, e),
            origin,
            row,
            prefix,
            catalog,
        ),
{
    let nodes2 = explorer::add_node(nodes, n);
    let edges2 = subgraph::add_edge(edges, e);
    if let Some(x) = explorer::node_in(row, prefix, catalog) {
        let k = choose|k: int| 0 <= k < nodes.len() && (#[trigger] nodes[k]).id == x.id;
        assert(nodes2[k].id == x.id);
        let y = choose|y: EdgeViewModel| #[trigger] goes_as_told(y, origin, x, row)
            && subgraph::has_edge(edges, y.from + ":"@ + y.edge_type + ":"@ + y.to);
        let id = y.from + ":"@ + y.edge_type + ":"@ + y.to;
        let m = choose|m: int| 0 <= m < edges.len() && (#[trigger] edges[m]).id == id;
        assert(edges2[m].id == id);
        assert(subgraph::has_edge(edges2, id));
    }
}

proof fn newest_is_met(
    nodes: Seq<NodeViewModel>,
    edges: Seq<EdgeViewModel>,
    origin: NodeViewModel,
    row: RowModel,
    prefix: Option<Seq<char>>,
    catalog: Option<CatalogModel>,
    n: NodeViewModel,
)
    requires
        explorer::node_in(row, prefix, catalog) == Some(n),
    ensures
        row_is_met(
            explorer::add_node(nodes, n),
            subgraph::add_edge(edges, explorer::edge_to(origin, n, row)),
            origin,
            row,
            prefix,
            catalog,
        ),
{
    let e = explorer::edge_to(origin, n, row);
    let nodes2 = explorer::add_node(nodes, n);
    let edges2 = subgraph::add_edge(edges, e);
    assert(goes_as_told(e, origin, n, row));
    if !export::has_node(nodes, n.id) {
        assert(nodes2[nodes.len() as int].id == n.id);
    }
    if !subgraph::has_edge(edges, e.id) {
        assert(edges2[edges.len() as int].id == e.id);
    }
    assert(subgraph::has_edge(edges2, e.id));
}

proof fn rows_are_met(
    origin: NodeViewModel,
    rows: Seq<RowModel>,
    prefix: Option<Seq<char>>,
    catalog: Option<CatalogModel>,
    i: int,
)
    requires
        0 <= i < rows.len(),
    ensures
        row_is_met(
            explorer::neighborhood(origin, rows, prefix, catalog).0,
            explorer::neighborhood(origin, rows, prefix, catalog).1,
            origin,
            rows[i],
            prefix,
            catalog,
        ),
    decreases rows.len(),
{
    let rest = rows.drop_last();
    let last = rows.last();
    let (nodes, edges) = explorer::neighborhood(origin, rest, prefix, catalog);
    if i < rest.len() {
        rows_are_met(origin, rest, prefix, catalog, i);
        assert(rest[i] == rows[i]);
        if let Some(n) = explorer::node_in(last, prefix, catalog) {
            more_is_met(
                nodes,
                edges,
                origin,
                rows[i],
                prefix,
                catalog,
                n,
                explorer::edge_to(origin, n, last),
            );
        }
    } else if let Some(n) = explorer::node_in(last, prefix, catalog) {
        newest_is_met(nodes, edges, origin, last, prefix, catalog, n);
    }
}

proof fn neighbors_come_from_rows(
    origin: NodeViewModel,
    rows: Seq<RowModel>,
    prefix: Option<Seq<char>>,
    catalog: Option<CatalogModel>,
)
    ensures
        ({
            let nodes = explorer::neighborhood(origin, rows, prefix, catalog).0;
            &&& forall|k: int|
                0 <= k < nodes.len() ==> #[trigger] nodes[k] == origin || is_node_of_a_row(
                    nodes[k],
                    rows,
                    prefix,
                    catalog,
                )
            &&& forall|k: int, m: int|
                0 <= k < m < nodes.len() ==> (#[trigger] nodes[k]).id != (#[trigger] nodes[m]).id
        }),
    decreases rows.len(),
{
    if rows.len() > 0 {
        let rest = rows.drop_last();
        neighbors_come_from_rows(origin, rest, prefix, catalog);
        let before = explorer::neighborhood(origin, rest, prefix, catalog).0;
        let nodes = explorer::neighborhood(origin, rows, prefix, catalog).0;
        assert(rows[rows.len() - 1] == rows.last());
        assert forall|k: int| 0 <= k < nodes.len() implies #[trigger] nodes[k] == origin
            || is_node_of_a_row(nodes[k], rows, prefix, catalog) by {
            if k < before.len() {
                assert(nodes[k] == before[k]);
                if before[k] != origin {
                    let i = choose|i: int|
                        0 <= i < rest.len() && explorer::node_in(
                            #[trigger] rest[i],
                            prefix,
                            catalog,
                        ) == Some(before[k]);
                    assert(explorer::node_in(rows[i], prefix, catalog) == Some(nodes[k]));
                }
            } else {
                assert(explorer::node_in(rows[rows.len() - 1], prefix, catalog) == Some(nodes[k]));
            }
        }
        assert forall|k: int, m: int| 0 <= k < m < nodes.len() implies (#[trigger] nodes[k]).id != (
        #[trigger] nodes[m]).id by {
            assert(nodes[k] == before[k]);
            if m >= before.len() {
                assert(!export::has_node(before, nodes[m].id));
            } else {
                assert(nodes[m] == before[m]);
            }
        }
    }
}

proof fn edges_come_from_rows(
    origin: NodeViewModel,
    rows: Seq<RowModel>,
    prefix: Option<Seq<char>>,
    catalog: Option<CatalogModel>,
)
    ensures
        forall|k: int|
            0 <= k < explorer::neighborhood(origin, rows, prefix, catalog).1.len()
                ==> is_edge_of_a_row(
                #[trigger] explorer::neighborhood(origin, rows, prefix, catalog).1[k],
                origin,
                rows,
                prefix,
                catalog,
            ),
    decreases rows.len(),
{
    if rows.len() > 0 {
        let rest = rows.drop_last();
        edges_come_from_rows(origin, rest, prefix, catalog);
        let before = explorer::neighborhood(origin, rest, prefix, catalog).1;
        let edges = explorer::neighborhood(origin, rows, prefix, catalog).1;
        assert(rows[rows.len() - 1] == rows.last());
        assert forall|k: int| 0 <= k < edges.len() implies is_edge_of_a_row(
            #[trigger] edges[k],
            origin,
            rows,
            prefix,
            catalog,
        ) by {
            if k < before.len() {
                assert(edges[k] == before[k]);
                assert(is_edge_of_a_row(before[k], origin, rest, prefix, catalog));
                let i = choose|i: int|
                    0 <= i < rest.len() && match explorer::node_in(
                        #[trigger] rest[i],
                        prefix,
                        catalog,
                    ) {
                        Some(n) => goes_as_told(before[k], origin, n, rest[i]),
                        None => false,
                    };
                assert(rows[i] == rest[i]);
            } else {
                let n = explorer::node_in(rows.last(), prefix, catalog)->0;
                assert(goes_as_told(edges[k], origin, n, rows[rows.len() - 1]));
            }
        }
    }
}

/// Can a property be searched: is it a text, and none that is never shown?
pub open spec fn is_open_text(p: PropertyModel) -> bool {
    p.ty == crate::prompt::PropertyType::String && !text::has_prefix(p.name, "_"@)
}

proof fn names_are_added(names: Seq<Seq<char>>, props: Seq<PropertyModel>, name: Seq<char>)
    ensures
        explorer::text_names(names, props).contains(name) <==> names.contains(name) || exists|i:
            int| 0 <= i < props.len() && is_open_text(#[trigger] props[i]) && props[i].name == name,
    decreases props.len(),
{
    if props.len() > 0 {
        let rest = props.drop_last();
        names_are_added(names, rest, name);
        let before = explorer::text_names(names, rest);
        pushed_contains(before, props.last().name, name);
        assert(props[props.len() - 1] == props.last());
        if exists|i: int|
            0 <= i < rest.len() && is_open_text(#[trigger] rest[i]) && rest[i].name == name {
            let i = choose|i: int|
                0 <= i < rest.len() && is_open_text(#[trigger] rest[i]) && rest[i].name == name;
            assert(props[i] == rest[i]);
        }
        if exists|i: int|
            0 <= i < props.len() && is_open_text(#[trigger] props[i]) && props[i].name == name {
            let i = choose|i: int|
                0 <= i < props.len() && is_open_text(#[trigger] props[i]) && props[i].name == name;
            if i < rest.len() {
                assert(rest[i] == props[i]);
            }
        }
    }
}

pub open spec fn has_open_text(k: NodeKindModel, name: Seq<char>) -> bool {
    exists|i: int|
        0 <= i < k.properties.len() && is_open_text(#[trigger] k.properties[i])
            && k.properties[i].name == name
}

/// A search looks into the ids, names and titles, and into every text property of the types that
/// are searched, and into nothing else.
pub proof fn law_all_texts_are_searched(
    kinds: Seq<NodeKindModel>,
    entity_type: Option<Seq<char>>,
    name: Seq<char>,
)
    ensures
        explorer::searchable(kinds, entity_type).contains(name) <==> name == "id"@ || name
            == "name"@ || name == "title"@ || exists|i: int|
            0 <= i < kinds.len() && (entity_type is None || entity_type->0 == kinds[i].label)
                && has_open_text(#[trigger] kinds[i], name),
    decreases kinds.len(),
{
    if kinds.len() == 0 {
        let base = seq!["id"@, "name"@, "title"@];
        assert(base[0] == "id"@ && base[1] == "name"@ && base[2] == "title"@);
        if base.contains(name) {
            let i = choose|i: int| 0 <= i < base.len() && base[i] == name;
            assert(i == 0 || i == 1 || i == 2);
        }
    } else {
        let rest = kinds.drop_last();
        law_all_texts_are_searched(rest, entity_type, name);
        let before = explorer::searchable(rest, entity_type);
        names_are_added(before, kinds.last().properties, name);
        assert(kinds[kinds.len() - 1] == kinds.last());
        if exists|i: int|
            0 <= i < rest.len() && (entity_type is None || entity_type->0 == rest[i].label)
                && has_open_text(#[trigger] rest[i], name) {
            let i = choose|i: int|
                0 <= i < rest.len() && (entity_type is None || entity_type->0 == rest[i].label)
                    && has_open_text(#[trigger] rest[i], name);
            assert(kinds[i] == rest[i]);
        }
        if exists|i: int|
            0 <= i < kinds.len() && (entity_type is None || entity_type->0 == kinds[i].label)
                && has_open_text(#[trigger] kinds[i], name) {
            let i = choose|i: int|
                0 <= i < kinds.len() && (entity_type is None || entity_type->0 == kinds[i].label)
                    && has_open_text(#[trigger] kinds[i], name);
            if i < rest.len() {
                assert(rest[i] == kinds[i]);
            }
        }
    }
}

/// The columns of a type start with id and name, and the further ones, six in all at most, are
/// text properties.
pub proof fn law_key_columns_are_texts(columns: Seq<Seq<char>>, props: Seq<PropertyModel>)
    requires
        columns.len() <= 6,
    ensures
        ({
            let all = explorer::columns_with(columns, props);
            &&& columns.len() <= all.len() <= 6
            &&& all.take(columns.len() as int) == columns
            &&& forall|k: int|
                columns.len() <= k < all.len() ==> is_text_among(#[trigger] all[k], props)
            &&& all.len() < 6 ==> forall|i: int|
                0 <= i < props.len() && is_open_text(#[trigger] props[i]) ==> all.contains(
                    props[i].name,
                )
        }),
    decreases props.len(),
{
    let all = explorer::columns_with(columns, props);
    if props.len() == 0 {
        assert(all.take(columns.len() as int) =~= columns);
    } else {
        let rest = props.drop_last();
        law_key_columns_are_texts(columns, rest);
        let before = explorer::columns_with(columns, rest);
        assert(all.take(columns.len() as int) =~= before.take(columns.len() as int));
        assert forall|k: int| columns.len() <= k < all.len() implies is_text_among(
            #[trigger] all[k],
            props,
        ) by {
            if k < before.len() {
                assert(all[k] == before[k]);
                let i = choose|i: int|
                    0 <= i < rest.len() && is_open_text(#[trigger] rest[i]) && rest[i].name
                        == before[k];
                assert(props[i] == rest[i]);
            } else {
                assert(props[props.len() - 1].name == all[k]);
            }
        }
        if all.len() < 6 {
            assert forall|i: int| 0 <= i < props.len() && is_open_text(
                #[trigger] props[i],
            ) implies all.contains(props[i].name) by {
                pushed_contains(before, props.last().name, props[i].name);
                if i < rest.len() {
                    assert(rest[i] == props[i]);
                }
            }
        }
    }
}

pub open spec fn is_text_among(name: Seq<char>, props: Seq<PropertyModel>) -> bool {
    exists|i: int| 0 <= i < props.len() && is_open_text(#[trigger] props[i]) && props[i].name == name
}

/// Is there a score of a node?
pub open spec fn has_score(s: Seq<(i64, u64)>, nid: i64) -> bool {
    exists|i: int| 0 <= i < s.len() && (#[trigger] s[i]).0 == nid
}

/// The score in a row; a missing one is zero.
pub open spec fn score_in(row: (Option<i64>, Option<u64>)) -> u64 {
    match row.1 {
        Some(s) => s,
        None => 0,
    }
}

proof fn best_is_higher(s: Seq<(i64, u64)>, nid: i64, score: u64)
    requires
        !embeddings::is_wide_nan(score),
        forall|i: int| 0 <= i < s.len() ==> !embeddings::is_wide_nan((#[trigger] s[i]).1),
    ensures
        ({
            let t = explorer::best_with(s, nid, score);
            &&& forall|i: int| 0 <= i < t.len() ==> !embeddings::is_wide_nan((#[trigger] t[i]).1)
            &&& t.len() >= s.len()
            &&& t.len() <= s.len() + 1
            &&& forall|i: int|
                0 <= i < s.len() ==> (#[trigger] t[i]).0 == s[i].0 && floats::wide_value(t[i].1)
                    >= floats::wide_value(s[i].1) && (t[i].1 == s[i].1 || (t[i].1 == score
                    && t[i].0 == nid))
            &&& t.len() == s.len() + 1 ==> t[s.len() as int] == (nid, score) && !has_score(s, nid)
            &&& exists|i: int|
                0 <= i < t.len() && (#[trigger] t[i]).0 == nid && floats::wide_value(t[i].1)
                    >= floats::wide_value(score)
        }),
    decreases s.len(),
{
    let t = explorer::best_with(s, nid, score);
    if s.len() == 0 {
        assert(t[0] == (nid, score));
    } else if s[0].0 == nid {
        floats::law_wide_floats_compare_by_value(s[0].1, score);
        floats::law_wide_floats_compare_by_value(score, s[0].1);
        assert(!embeddings::is_wide_nan(s[0].1));
        assert(t[0].0 == nid);
        assert forall|i: int| 0 <= i < t.len() implies !embeddings::is_wide_nan(
            (#[trigger] t[i]).1,
        ) && t[i].0 == s[i].0 && floats::wide_value(t[i].1) >= floats::wide_value(s[i].1) && (t[i].1
            == s[i].1 || (t[i].1 == score && t[i].0 == nid)) by {
            if i > 0 {
                assert(t[i] == s[i]);
                assert(!embeddings::is_wide_nan(s[i].1));
            }
        }
    } else {
        let rest = s.drop_first();
        assert forall|i: int| 0 <= i < rest.len() implies !embeddings::is_wide_nan(
            (#[trigger] rest[i]).1,
        ) by {
            assert(rest[i] == s[i + 1]);
        }
        best_is_higher(rest, nid, score);
        let u = explorer::best_with(rest, nid, score);
        assert forall|i: int| 0 <= i < t.len() implies !embeddings::is_wide_nan(
            (#[trigger] t[i]).1,
        ) by {
            if i > 0 {
                assert(t[i] == u[i - 1]);
            } else {
                assert(t[i] == s[0]);
            }
        }
        assert forall|i: int| 0 <= i < s.len() implies (#[trigger] t[i]).0 == s[i].0
            && floats::wide_value(t[i].1) >= floats::wide_value(s[i].1) && (t[i].1 == s[i].1 || (
        t[i].1 == score && t[i].0 == nid)) by {
            if i > 0 {
                assert(t[i] == u[i - 1]);
                assert(rest[i - 1] == s[i]);
            }
        }
        let i = choose|i: int|
            0 <= i < u.len() && (#[trigger] u[i]).0 == nid && floats::wide_value(u[i].1)
                >= floats::wide_value(score);
        assert(t[i + 1] == u[i]);
        if t.len() == s.len() + 1 {
            assert(t[s.len() as int] == u[rest.len() as int]);
            if has_score(s, nid) {
                let k = choose|k: int| 0 <= k < s.len() && (#[trigger] s[k]).0 == nid;
                assert(rest[k - 1].0 == nid);
            }
        }
    }
}

/// Is a score that of a row of a node?
pub open spec fn is_score_of(
    rows: Seq<(Option<i64>, Option<u64>)>,
    nid: i64,
    score: u64,
) -> bool {
    exists|i: int|
        0 <= i < rows.len() && (#[trigger] rows[i]).0 == Some(nid) && score_in(rows[i]) == score
}

/// Is there a score of a node at least as high?
pub open spec fn reaches(s: Seq<(i64, u64)>, nid: i64, score: u64) -> bool {
    exists|i: int|
        0 <= i < s.len() && (#[trigger] s[i]).0 == nid && floats::wide_value(s[i].1)
            >= floats::wide_value(score)
}

/// Every node in the rows has one score, which is that of one of its rows and no less than that of
/// any of them.
pub proof fn law_best_scores_are_the_highest(rows: Seq<(Option<i64>, Option<u64>)>)
    requires
        forall|i: int| 0 <= i < rows.len() ==> !embeddings::is_wide_nan(score_in(#[trigger] rows[i])),
    ensures
        ({
            let best = explorer::best_scores_of(rows);
            &&& forall|k: int| 0 <= k < best.len() ==> !embeddings::is_wide_nan((#[trigger] best[k]).1)
            &&& forall|k: int|
                0 <= k < best.len() ==> is_score_of(rows, (#[trigger] best[k]).0, best[k].1)
            &&& forall|i: int|
                0 <= i < rows.len() && (#[trigger] rows[i]).0 is Some ==> reaches(
                    best,
                    rows[i].0->0,
                    score_in(rows[i]),
                )
            &&& forall|k: int, m: int|
                0 <= k < m < best.len() ==> (#[trigger] best[k]).0 != (#[trigger] best[m]).0
        }),
    decreases rows.len(),
{
    if rows.len() > 0 {
        let rest = rows.drop_last();
        assert forall|i: int| 0 <= i < rest.len() implies !embeddings::is_wide_nan(
            score_in(#[trigger] rest[i]),
        ) by {
            assert(rest[i] == rows[i]);
        }
        law_best_scores_are_the_highest(rest);
        let before = explorer::best_scores_of(rest);
        let best = explorer::best_scores_of(rows);
        let n = rows.len() - 1;
        let last = rows[n];
        assert(rows.last() == last);
        assert forall|nid: i64, s: u64| is_score_of(rest, nid, s) implies #[trigger] is_score_of(
            rows,
            nid,
            s,
        ) by {
            let i = choose|i: int|
                0 <= i < rest.len() && (#[trigger] rest[i]).0 == Some(nid) && score_in(rest[i]) == s;
            assert(rows[i] == rest[i]);
        }
        if let Some(nid) = last.0 {
            let score = score_in(last);
            best_is_higher(before, nid, score);
            assert forall|k: int| 0 <= k < best.len() implies is_score_of(
                rows,
                (#[trigger] best[k]).0,
                best[k].1,
            ) by {
                if k < before.len() && best[k].1 == before[k].1 {
                    assert(is_score_of(rest, before[k].0, before[k].1));
                } else {
                    assert(rows[n].0 == Some(nid));
                }
            }
            assert forall|k: int, m: int| 0 <= k < m < best.len() implies (#[trigger] best[k]).0
                != (#[trigger] best[m]).0 by {
                if m < before.len() {
                    assert(before[k].0 != before[m].0);
                } else {
                    assert(before[k].0 == best[k].0);
                }
            }
        }
        assert forall|i: int| 0 <= i < rows.len() && (#[trigger] rows[i]).0 is Some implies reaches(
            best,
            rows[i].0->0,
            score_in(rows[i]),
        ) by {
            if i < n {
                assert(rest[i] == rows[i]);
                let nid = rest[i].0->0;
                let s = score_in(rest[i]);
                assert(reaches(before, nid, s));
                let k = choose|k: int|
                    0 <= k < before.len() && (#[trigger] before[k]).0 == nid && floats::wide_value(
                        before[k].1,
                    ) >= floats::wide_value(s);
                assert(best[k].0 == nid && floats::wide_value(best[k].1) >= floats::wide_value(s));
            }
        }
    }
}

/// A hit of a semantic search is a scored node that the rows hold, with its score; the hits come in
/// the order of the scored nodes.
pub proof fn law_semantic_hits_keep_their_scores(
    scored: Seq<(i64, u64)>,
    rows: Seq<RowModel>,
    prefix: Option<Seq<char>>,
    catalog: Option<CatalogModel>,
)
    ensures
        ({
            let found = scored.filter(
                |x: (i64, u64)| explorer::node_for(rows, x.0, prefix, catalog) is Some,
            );
            let hits = explorer::semantic_hits_of(scored, rows, prefix, catalog);
            &&& hits.len() == found.len()
            &&& forall|i: int|
                0 <= i < hits.len() ==> (#[trigger] hits[i]).score == Some(found[i].1) && Some(
                    hits[i].node,
                ) == explorer::node_for(rows, found[i].0, prefix, catalog)
        }),
    decreases scored.len(),
{
    reveal(Seq::filter);
    if scored.len() > 0 {
        law_semantic_hits_keep_their_scores(scored.drop_last(), rows, prefix, catalog);
    }
}

/// The node of an internal id is that of a row with this internal id; there is none only where no
/// such row is a node.
pub proof fn law_scored_nodes_are_of_their_rows(
    rows: Seq<RowModel>,
    nid: i64,
    prefix: Option<Seq<char>>,
    catalog: Option<CatalogModel>,
)
    ensures
        match explorer::node_for(rows, nid, prefix, catalog) {
            Some(n) => exists|i: int|
                0 <= i < rows.len() && db::int_cell(strmap::assoc_get(#[trigger] rows[i], "nid"@))
                    == Some(nid) && explorer::node_in(rows[i], prefix, catalog) == Some(n),
            None => forall|i: int|
                0 <= i < rows.len() && db::int_cell(strmap::assoc_get(#[trigger] rows[i], "nid"@))
                    == Some(nid) ==> explorer::node_in(rows[i], prefix, catalog) is None,
        },
    decreases rows.len(),
{
    if rows.len() > 0 {
        let rest = rows.drop_last();
        law_scored_nodes_are_of_their_rows(rest, nid, prefix, catalog);
        assert(rows[rows.len() - 1] == rows.last());
        match explorer::node_for(rest, nid, prefix, catalog) {
            Some(n) => {
                let i = choose|i: int|
                    0 <= i < rest.len() && db::int_cell(
                        strmap::assoc_get(#[trigger] rest[i], "nid"@),
                    ) == Some(nid) && explorer::node_in(rest[i], prefix, catalog) == Some(n);
                assert(rows[i] == rest[i]);
            },
            None => {
                if explorer::node_for(rows, nid, prefix, catalog) is None {
                    assert forall|i: int|
                        0 <= i < rows.len() && db::int_cell(
                            strmap::assoc_get(#[trigger] rows[i], "nid"@),
                        ) == Some(nid) implies explorer::node_in(rows[i], prefix, catalog)
                        is None by {
                        if i < rest.len() {
                            assert(rest[i] == rows[i]);
                        }
                    }
                }
            },
        }
    }
}

/// The handles that last are those of the nodes with an id of their own, in their order.
pub proof fn law_lasting_ids_are_of_lasting_nodes(nodes: Seq<NodeViewModel>)
    ensures
        explorer::lasting_ids(nodes) == nodes.filter(
            |n: NodeViewModel| !n.ephemeral_handle,
        ).map_values(|n: NodeViewModel| n.id),
    decreases nodes.len(),
{
    reveal(Seq::filter);
    if nodes.len() > 0 {
        let rest = nodes.drop_last();
        law_lasting_ids_are_of_lasting_nodes(rest);
        let p = |n: NodeViewModel| !n.ephemeral_handle;
        let f = |n: NodeViewModel| n.id;
        if !nodes.last().ephemeral_handle {
            assert(nodes.filter(p).map_values(f) =~= rest.filter(p).map_values(f).push(
                nodes.last().id,
            ));
        }
    }
}

/// May a label name the type of a node: is it none of the prefix, of a scope, or of a domain?
pub open spec fn may_name_type(
    label: Seq<char>,
    prefix: Option<Seq<char>>,
    catalog: Option<CatalogModel>,
) -> bool {
    &&& prefix is Some ==> prefix->0 != label
    &&& label != "scope_text"@
    &&& label != "scope_table"@
    &&& label != "scope_structured"@
    &&& catalog is Some ==> strmap::assoc_get(catalog->0, label) is None
}

/// The label that names the type is one of the labels that may do so, the first that is declared
/// where there is one, else the first; it is unknown only where there is none.
pub proof fn law_types_are_named_by_labels(
    labels: Seq<Seq<char>>,
    prefix: Option<Seq<char>>,
    catalog: Option<CatalogModel>,
)
    ensures
        ({
            let may = labels.filter(|l: Seq<char>| may_name_type(l, prefix, catalog));
            let name = classify::primary_of(labels, prefix, catalog);
            let declared = |l: Seq<char>|
                catalog is Some && ontology::catalog_entity(catalog->0, l) is Some;
            &&& may.len() == 0 ==> name == "Unknown"@
            &&& may.len() > 0 ==> may.contains(name)
            &&& may.len() > 0 && (forall|i: int| 0 <= i < may.len() ==> !declared(#[trigger] may[i]))
                ==> name == may[0]
            &&& (exists|i: int| 0 <= i < may.len() && declared(#[trigger] may[i])) ==> declared(name)
        }),
{
    candidates_are_filtered(labels, prefix, catalog);
    let may = labels.filter(|l: Seq<char>| may_name_type(l, prefix, catalog));
    let declared = classify::is_declared(catalog);
    match seqs::first_where(may, declared) {
        Some(l) => {
            let i = seqs::first_where_holds(may, declared);
            assert(may.contains(may[i]));
        },
        None => {
            if may.len() > 0 {
                assert(may.contains(may[0]));
            }
            if exists|i: int| 0 <= i < may.len() && declared(#[trigger] may[i]) {
                let i = choose|i: int| 0 <= i < may.len() && declared(#[trigger] may[i]);
                met_is_found(may, declared, i);
            }
        },
    }
}

proof fn met_is_found<T>(s: Seq<T>, p: spec_fn(T) -> bool, k: int)
    requires
        0 <= k < s.len(),
        p(s[k]),
    ensures
        seqs::first_where(s, p) is Some,
    decreases s.len(),
{
    if !p(s[0]) {
        assert(s.drop_first()[k - 1] == s[k]);
        met_is_found(s.drop_first(), p, k - 1);
    }
}

proof fn candidates_are_filtered(
    labels: Seq<Seq<char>>,
    prefix: Option<Seq<char>>,
    catalog: Option<CatalogModel>,
)
    ensures
        classify::candidates(labels, prefix, catalog) == labels.filter(
            |l: Seq<char>| may_name_type(l, prefix, catalog),
        ),
    decreases labels.len(),
{
    reveal(Seq::filter);
    if labels.len() > 0 {
        candidates_are_filtered(labels.drop_last(), prefix, catalog);
    }
}

/// A property with a declared type is shown in the group of that type: keywords and lists as
/// identifiers, texts as descriptions, numbers and truth values as facts, dates as dates. Without
/// one, numbers and truth values are facts, and anything else is shown apart.
pub proof fn law_types_have_their_groups(value: JsonModel)
    ensures
        classify::bucket_of(Some(OntologyPropertyType::Keyword), value) == Bucket::Identifiers,
        classify::bucket_of(Some(OntologyPropertyType::List), value) == Bucket::Identifiers,
        classify::bucket_of(Some(OntologyPropertyType::Text), value) == Bucket::Descriptions,
        classify::bucket_of(Some(OntologyPropertyType::Number), value) == Bucket::Facts,
        classify::bucket_of(Some(OntologyPropertyType::Bool), value) == Bucket::Facts,
        classify::bucket_of(Some(OntologyPropertyType::Datetime), value) == Bucket::Dates,
        value is Number || value is Bool ==> classify::bucket_of(None, value) == Bucket::Facts,
        !(value is Number || value is Bool) ==> classify::bucket_of(None, value) == Bucket::Other,
{
}

/// The sum of the counts of the summaries of some relations.
pub open spec fn summed(s: Seq<RelationSummaryModel>, x: RelationSummaryModel) -> nat
    decreases s.len(),
{
    if s.len() == 0 {
        0
    } else {
        summed(s.drop_first(), x) + if s[0].edge_type == x.edge_type && s[0].direction
            == x.direction && s[0].neighbor_type == x.neighbor_type {
            s[0].count as nat
        } else {
            0
        }
    }
}

proof fn summary_adds_up(s: Seq<RelationSummaryModel>, x: RelationSummaryModel, y: RelationSummaryModel)
    requires
        summed(s, x) + x.count <= u64::MAX,
    ensures
        summed(summary::summary_with(s, x), y) == summed(s, y) + (if summary::same_relations(x, y) {
            x.count as nat
        } else {
            0nat
        }),
    decreases s.len(),
{
    let t = summary::summary_with(s, x);
    if s.len() == 0 {
        assert(t.drop_first() =~= Seq::<RelationSummaryModel>::empty());
        assert(summed(t.drop_first(), y) == 0);
    } else if summary::same_relations(s[0], x) {
        assert(t.drop_first() =~= s.drop_first());
    } else if summary::summary_lt(s[0], x) {
        summary_adds_up(s.drop_first(), x, y);
        assert(t.drop_first() =~= summary::summary_with(s.drop_first(), x));
        assert(t[0] == s[0]);
    } else {
        assert(t.drop_first() =~= s);
        assert(t[0] == x);
    }
}

/// The relations of an entity are counted: the summaries of a type of relation, in a direction and
/// to a type of neighbour, add up to the counts of the rows that tell of these.
pub proof fn law_relations_are_counted(
    rows: Seq<RowModel>,
    x: RelationSummaryModel,
    prefix: Option<Seq<char>>,
    catalog: Option<CatalogModel>,
)
    requires
        summary::summaries_fit(rows, prefix, catalog),
    ensures
        summed(summary::summaries(rows, prefix, catalog), x) == summary::relation_count(
            rows,
            x,
            prefix,
            catalog,
        ),
    decreases rows.len(),
{
    if rows.len() > 0 {
        let rest = rows.drop_last();
        assert(summary::summaries_fit(rest, prefix, catalog)) by {
            assert forall|y: RelationSummaryModel| #[trigger] summary::relation_count(
                rest,
                y,
                prefix,
                catalog,
            ) <= u64::MAX by {
                assert(summary::relation_count(rows, y, prefix, catalog) <= u64::MAX);
            }
        }
        law_relations_are_counted(rest, x, prefix, catalog);
        if let Some(y) = summary::summary_in(rows.last(), prefix, catalog) {
            law_relations_are_counted(rest, y, prefix, catalog);
            assert(summary::relation_count(rows, y, prefix, catalog) <= u64::MAX);
            summary_adds_up(summary::summaries(rest, prefix, catalog), y, x);
        }
    }
}

/// A row tells of relations of its type, going out where it says so and coming in otherwise, with
/// its count, which is never negative.
pub proof fn law_summaries_tell_the_direction(
    row: RowModel,
    prefix: Option<Seq<char>>,
    catalog: Option<CatalogModel>,
)
    ensures
        match summary::summary_in(row, prefix, catalog) {
            Some(x) => {
                &&& db::text_cell(strmap::assoc_get(row, "rel"@)) == Some(x.edge_type)
                &&& x.direction == RelDirection::Out <==> db::text_cell(
                    strmap::assoc_get(row, "dir"@),
                ) == Some("out"@)
                &&& x.neighbor_type == classify::primary_of(
                    db::texts_cell(strmap::assoc_get(row, "neighbor_labels"@)),
                    prefix,
                    catalog,
                )
                &&& match db::int_cell(strmap::assoc_get(row, "cnt"@)) {
                    Some(n) => n >= 0 ==> x.count == n,
                    None => x.count == 0,
                }
            },
            None => db::text_cell(strmap::assoc_get(row, "rel"@)) is None,
        },
{
}

/// The sum of the counts of the rows of a type.
pub open spec fn type_total(
    rows: Seq<RowModel>,
    label: Seq<char>,
    prefix: Option<Seq<char>>,
    catalog: Option<CatalogModel>,
) -> nat
    decreases rows.len(),
{
    if rows.len() == 0 {
        0
    } else {
        let n = db::int_cell(strmap::assoc_get(rows[0], "cnt"@));
        type_total(rows.drop_first(), label, prefix, catalog) + if classify::primary_of(
            db::texts_cell(strmap::assoc_get(rows[0], "labels"@)),
            prefix,
            catalog,
        ) == label && n is Some && n->0 >= 0 {
            n->0 as nat
        } else {
            0
        }
    }
}

proof fn type_total_of_more(
    rows: Seq<RowModel>,
    label: Seq<char>,
    prefix: Option<Seq<char>>,
    catalog: Option<CatalogModel>,
)
    requires
        rows.len() > 0,
    ensures
        type_total(rows, label, prefix, catalog) == type_total(
            rows.drop_last(),
            label,
            prefix,
            catalog,
        ) + (if classify::primary_of(
            db::texts_cell(strmap::assoc_get(rows.last(), "labels"@)),
            prefix,
            catalog,
        ) == label {
            summary::count_in(rows.last()) as nat
        } else {
            0nat
        }),
    decreases rows.len(),
{
    if rows.len() == 1 {
        assert(rows.drop_first() =~= Seq::<RowModel>::empty());
        assert(rows.drop_last() =~= Seq::<RowModel>::empty());
        assert(type_total(rows.drop_first(), label, prefix, catalog) == 0);
        assert(type_total(rows.drop_last(), label, prefix, catalog) == 0);
    } else {
        type_total_of_more(rows.drop_first(), label, prefix, catalog);
        assert(rows.drop_first().drop_last() =~= rows.drop_last().drop_first());
        assert(rows.drop_first().last() == rows.last());
        assert(rows.drop_last()[0] == rows[0]);
    }
}

/// The nodes of a type are counted: its count is the sum of the counts of the rows of that type.
pub proof fn law_types_are_counted(
    rows: Seq<RowModel>,
    label: Seq<char>,
    prefix: Option<Seq<char>>,
    catalog: Option<CatalogModel>,
)
    requires
        type_total(rows, label, prefix, catalog) <= u64::MAX,
    ensures
        summary::count_under(summary::type_counts(rows, prefix, catalog), label) == type_total(
            rows,
            label,
            prefix,
            catalog,
        ),
    decreases rows.len(),
{
    if rows.len() > 0 {
        let rest = rows.drop_last();
        type_total_of_more(rows, label, prefix, catalog);
        law_types_are_counted(rest, label, prefix, catalog);
        let before = summary::type_counts(rest, prefix, catalog);
        let x = classify::primary_of(
            db::texts_cell(strmap::assoc_get(rows.last(), "labels"@)),
            prefix,
            catalog,
        );
        let n = (summary::count_under(before, x) + summary::count_in(rows.last())) as u64;
        if x == label {
            strmap::law_get_after_insert(before, x, n);
        } else {
            strmap::law_get_other_after_insert(before, x, n, label);
        }
    }
}

/// The types that are shown are all those that are counted but for sources and chunks, each with
/// its count, in their order.
pub proof fn law_counted_types_are_shown(counts: Seq<(Seq<char>, u64)>, kinds: Seq<NodeKindModel>)
    ensures
        ({
            let business = counts.filter(
                |c: (Seq<char>, u64)|
                    c.0 != crate::graph::builtins::SOURCE_LABEL@ && c.0
                        != crate::graph::builtins::CHUNK_LABEL@,
            );
            let shown = summary::shown_types(counts, kinds);
            &&& shown.len() == business.len()
            &&& forall|i: int|
                0 <= i < shown.len() ==> (#[trigger] shown[i]).name == business[i].0
                    && shown[i].count == business[i].1
        }),
    decreases counts.len(),
{
    reveal(Seq::filter);
    if counts.len() > 0 {
        law_counted_types_are_shown(counts.drop_last(), kinds);
    }
}

/// The relation types that are shown are those of the rows but for those that lead to sources, each
/// with its count, and with the ends that the schema gives it.
pub proof fn law_relation_types_are_shown(row: RowModel, kinds: Seq<RelKindModel>)
    ensures
        ({
            let name = db::text_cell(strmap::assoc_get(row, "rel"@));
            let count = db::int_cell(strmap::assoc_get(row, "cnt"@));
            match summary::relation_in(row, kinds) {
                None => name is None || name->0 == crate::graph::builtins::MENTION_REL@ || name->0
                    == crate::graph::builtins::PART_OF_REL@,
                Some(x) => {
                    &&& name == Some(x.name)
                    &&& x.name != crate::graph::builtins::MENTION_REL@
                    &&& x.name != crate::graph::builtins::PART_OF_REL@
                    &&& count is Some && count->0 >= 0 ==> x.count == count->0
                    &&& x.from is Some || x.to is Some || x.description is Some ==> exists|i: int|
                        0 <= i < kinds.len() && (#[trigger] kinds[i]).label == x.name && kinds[i].from
                            == x.from && kinds[i].to == x.to && kinds[i].description
                            == x.description
                },
            }
        }),
{
    if let Some(x) = summary::relation_in(row, kinds) {
        let p = |k: RelKindModel| k.label == x.name;
        if summary::relation_named(kinds, x.name) is Some {
            let i = seqs::first_where_holds(kinds, p);
            assert(kinds[i].label == x.name);
        }
    }
}

/// The exported edges are exactly those of the subgraph with both ends among its nodes, in their
/// order.
pub proof fn law_inner_edges_are_exported(edges: Seq<EdgeViewModel>, nodes: Seq<NodeViewModel>)
    ensures
        export::inner_edges(edges, nodes) == edges.filter(
            |e: EdgeViewModel|
                (exists|i: int| 0 <= i < nodes.len() && (#[trigger] nodes[i]).id == e.from) && (
                exists|i: int| 0 <= i < nodes.len() && (#[trigger] nodes[i]).id == e.to),
        ),
    decreases edges.len(),
{
    reveal(Seq::filter);
    if edges.len() > 0 {
        law_inner_edges_are_exported(edges.drop_last(), nodes);
    }
}

/// What a JSON object holds under a key.
pub open spec fn under(j: JsonModel, key: Seq<char>) -> Option<JsonModel> {
    match j {
        JsonModel::Object(m) => strmap::assoc_get(m, key),
        _ => None,
    }
}

/// An exported edge has its ends, its type and its properties, each under its name.
pub proof fn law_exported_edges_are_told(e: EdgeViewModel)
    ensures
        under(export::exported_edge(e), "from"@) == Some(JsonModel::Str(e.from)),
        under(export::exported_edge(e), "to"@) == Some(JsonModel::Str(e.to)),
        under(export::exported_edge(e), "type"@) == Some(JsonModel::Str(e.edge_type)),
        under(export::exported_edge(e), "properties"@) == Some(JsonModel::Object(e.properties)),
{
    reveal_strlit("from");
    reveal_strlit("to");
    reveal_strlit("type");
    reveal_strlit("properties");
    assert("from"@.len() == 4 && "to"@.len() == 2 && "type"@.len() == 4 && "properties"@.len()
        == 10);
    assert("from"@[0] == 'f' && "type"@[0] == 't');
    let a = Seq::<(Seq<char>, JsonModel)>::empty();
    let b = strmap::assoc_insert(a, "from"@, JsonModel::Str(e.from));
    let c = strmap::assoc_insert(b, "to"@, JsonModel::Str(e.to));
    let d = strmap::assoc_insert(c, "type"@, JsonModel::Str(e.edge_type));
    let p = JsonModel::Object(e.properties);
    strmap::law_get_after_insert(a, "from"@, JsonModel::Str(e.from));
    strmap::law_get_after_insert(b, "to"@, JsonModel::Str(e.to));
    strmap::law_get_after_insert(c, "type"@, JsonModel::Str(e.edge_type));
    strmap::law_get_after_insert(d, "properties"@, p);
    strmap::law_get_other_after_insert(b, "to"@, JsonModel::Str(e.to), "from"@);
    strmap::law_get_other_after_insert(c, "type"@, JsonModel::Str(e.edge_type), "from"@);
    strmap::law_get_other_after_insert(c, "type"@, JsonModel::Str(e.edge_type), "to"@);
    strmap::law_get_other_after_insert(d, "properties"@, p, "from"@);
    strmap::law_get_other_after_insert(d, "properties"@, p, "to"@);
    strmap::law_get_other_after_insert(d, "properties"@, p, "type"@);
}

/// An exported node has its id and its type, each under its name.
pub proof fn law_exported_nodes_are_told(n: NodeViewModel)
    ensures
        under(export::exported_node(n), "id"@) == Some(JsonModel::Str(n.id)),
        under(export::exported_node(n), "type"@) == Some(JsonModel::Str(n.entity_type)),
        under(export::exported_node(n), "properties"@) == Some(
            JsonModel::Object(export::exported_properties(n.properties, n.confidence)),
        ),
{
    reveal_strlit("id");
    reveal_strlit("type");
    reveal_strlit("properties");
    assert("id"@.len() == 2 && "type"@.len() == 4 && "properties"@.len() == 10);
    let a = Seq::<(Seq<char>, JsonModel)>::empty();
    let b = strmap::assoc_insert(a, "id"@, JsonModel::Str(n.id));
    let c = strmap::assoc_insert(b, "type"@, JsonModel::Str(n.entity_type));
    let p = JsonModel::Object(export::exported_properties(n.properties, n.confidence));
    strmap::law_get_after_insert(a, "id"@, JsonModel::Str(n.id));
    strmap::law_get_after_insert(b, "type"@, JsonModel::Str(n.entity_type));
    strmap::law_get_after_insert(c, "properties"@, p);
    strmap::law_get_other_after_insert(b, "type"@, JsonModel::Str(n.entity_type), "id"@);
    strmap::law_get_other_after_insert(c, "properties"@, p, "id"@);
    strmap::law_get_other_after_insert(c, "properties"@, p, "type"@);
}

/// An exported document holds every node under its entities, and every inner edge under its
/// relations.
pub proof fn law_documents_hold_the_subgraph(s: SubgraphModel)
    ensures
        match under(export::exported(s), "entities"@) {
            Some(JsonModel::Array(items)) => items.len() == s.nodes.len() && forall|i: int|
                0 <= i < items.len() ==> #[trigger] items[i] == export::exported_node(s.nodes[i]),
            _ => false,
        },
        match under(export::exported(s), "relations"@) {
            Some(JsonModel::Array(items)) => items.len() == export::inner_edges(
                s.edges,
                s.nodes,
            ).len() && forall|i: int|
                0 <= i < items.len() ==> #[trigger] items[i] == export::exported_edge(
                    export::inner_edges(s.edges, s.nodes)[i],
                ),
            _ => false,
        },
{
    reveal_strlit("entities");
    reveal_strlit("relations");
    assert("entities"@.len() == 8 && "relations"@.len() == 9);
    let inner = export::inner_edges(s.edges, s.nodes);
    let x = JsonModel::Array(Seq::new(s.nodes.len(), |i: int| export::exported_node(s.nodes[i])));
    let y = JsonModel::Array(Seq::new(inner.len(), |i: int| export::exported_edge(inner[i])));
    let a = Seq::<(Seq<char>, JsonModel)>::empty();
    let b = strmap::assoc_insert(a, "entities"@, x);
    strmap::law_get_after_insert(a, "entities"@, x);
    strmap::law_get_after_insert(b, "relations"@, y);
    strmap::law_get_other_after_insert(b, "relations"@, y, "entities"@);
}

/// Is a value exported with a type?
pub open spec fn is_typed(j: JsonModel, ty: Seq<char>, value: JsonModel) -> bool {
    under(j, "type"@) == Some(JsonModel::Str(ty)) && under(j, "value"@) == Some(value)
}

/// A value is exported with the type of its group: an identifier as a keyword or a list, a
/// description as a text, a fact as a number or a truth value, a date as a date. What is apart is
/// exported as it is.
pub proof fn law_exported_values_are_typed(value: JsonModel)
    ensures
        value is Array ==> is_typed(
            export::exported_value(Group::Identifier, value),
            "List"@,
            value,
        ),
        !(value is Array) ==> is_typed(
            export::exported_value(Group::Identifier, value),
            "Keyword"@,
            value,
        ),
        is_typed(export::exported_value(Group::Description, value), "Text"@, value),
        value is Bool ==> is_typed(export::exported_value(Group::Fact, value), "Bool"@, value),
        !(value is Bool) ==> is_typed(export::exported_value(Group::Fact, value), "Number"@, value),
        is_typed(export::exported_value(Group::Date, value), "Datetime"@, value),
        export::exported_value(Group::Other, value) == value,
{
    typed_values_are_told("List"@, value);
    typed_values_are_told("Keyword"@, value);
    typed_values_are_told("Text"@, value);
    typed_values_are_told("Bool"@, value);
    typed_values_are_told("Number"@, value);
    typed_values_are_told("Datetime"@, value);
}

proof fn typed_values_are_told(ty: Seq<char>, value: JsonModel)
    ensures
        is_typed(export::typed_value(ty, value), ty, value),
{
    reveal_strlit("type");
    reveal_strlit("value");
    assert("type"@.len() == 4 && "value"@.len() == 5);
    let a = Seq::<(Seq<char>, JsonModel)>::empty();
    let b = strmap::assoc_insert(a, "type"@, JsonModel::Str(ty));
    strmap::law_get_after_insert(a, "type"@, JsonModel::Str(ty));
    strmap::law_get_after_insert(b, "value"@, value);
    strmap::law_get_other_after_insert(b, "value"@, value, "type"@);
}

/// The properties of a group are added under their names, and no other name is touched.
pub proof fn law_groups_are_exported(
    out: Seq<(Seq<char>, JsonModel)>,
    g: Group,
    props: Seq<(Seq<char>, JsonModel)>,
    name: Seq<char>,
)
    requires
        strmap::assoc_sorted(props),
    ensures
        strmap::assoc_get(export::with_group(out, g, props), name) == (match strmap::assoc_get(
            props,
            name,
        ) {
            Some(v) => Some(export::exported_value(g, v)),
            None => strmap::assoc_get(out, name),
        }),
    decreases props.len(),
{
    if props.len() > 0 {
        let rest = props.drop_last();
        let n = props.len() - 1;
        let (k, v) = props.last();
        assert(props[n] == (k, v));
        assert(strmap::assoc_sorted(rest)) by {
            assert forall|i: int, j: int| 0 <= i < j < rest.len() implies #[trigger] text::lex_lt(
                rest[i].0,
                rest[j].0,
            ) by {
                assert(text::lex_lt(props[i].0, props[j].0));
            }
        }
        law_groups_are_exported(out, g, rest, name);
        let before = export::with_group(out, g, rest);
        if k == name {
            strmap::law_get_after_insert(before, k, export::exported_value(g, v));
            strmap::entry_is_read(props, n);
        } else {
            strmap::law_get_other_after_insert(before, k, export::exported_value(g, v), name);
            if strmap::assoc_get(rest, name) is Some {
                let i = strmap::get_is_an_entry(rest, name);
                assert(props[i] == rest[i]);
                strmap::entry_is_read(props, i);
            } else if strmap::assoc_get(props, name) is Some {
                let i = strmap::get_is_an_entry(props, name);
                assert(rest[i] == props[i]);
                strmap::entry_is_read(rest, i);
            }
        }
    }
}

/// The groups of a node, in which a name is looked for.
pub open spec fn are_sorted(g: PropertyGroupsModel) -> bool {
    &&& strmap::assoc_sorted(g.identifiers)
    &&& strmap::assoc_sorted(g.descriptions)
    &&& strmap::assoc_sorted(g.facts)
    &&& strmap::assoc_sorted(g.dates)
    &&& strmap::assoc_sorted(g.other)
}

/// The properties of a node are exported as those of their groups: a date as a date, a fact as a
/// fact, and so on; the last group that has a name decides. The confidence is added as a number
/// where no property has that name.
pub proof fn law_exported_properties_are_of_their_groups(
    g: PropertyGroupsModel,
    confidence: Option<NumberModel>,
    name: Seq<char>,
)
    requires
        are_sorted(g),
    ensures
        ({
            let out = strmap::assoc_get(export::exported_properties(g, confidence), name);
            let other = strmap::assoc_get(g.other, name);
            let date = strmap::assoc_get(g.dates, name);
            let fact = strmap::assoc_get(g.facts, name);
            let description = strmap::assoc_get(g.descriptions, name);
            let identifier = strmap::assoc_get(g.identifiers, name);
            if other is Some {
                out == other
            } else if date is Some {
                out == Some(export::exported_value(Group::Date, date->0))
            } else if fact is Some {
                out == Some(export::exported_value(Group::Fact, fact->0))
            } else if description is Some {
                out == Some(export::exported_value(Group::Description, description->0))
            } else if identifier is Some {
                out == Some(export::exported_value(Group::Identifier, identifier->0))
            } else if name == "confidence"@ && confidence is Some {
                out is Some && is_typed(out->0, "Number"@, JsonModel::Number(confidence->0))
            } else {
                out is None
            }
        }),
{
    let none = Seq::<(Seq<char>, JsonModel)>::empty();
    let a = export::with_group(none, Group::Identifier, g.identifiers);
    let b = export::with_group(a, Group::Description, g.descriptions);
    let c = export::with_group(b, Group::Fact, g.facts);
    let d = export::with_group(c, Group::Date, g.dates);
    let e = export::with_group(d, Group::Other, g.other);
    law_groups_are_exported(none, Group::Identifier, g.identifiers, name);
    law_groups_are_exported(a, Group::Description, g.descriptions, name);
    law_groups_are_exported(b, Group::Fact, g.facts, name);
    law_groups_are_exported(c, Group::Date, g.dates, name);
    law_groups_are_exported(d, Group::Other, g.other, name);
    if let Some(n) = confidence {
        let v = export::typed_value("Number"@, JsonModel::Number(n));
        typed_values_are_told("Number"@, JsonModel::Number(n));
        strmap::law_get_after_insert(e, "confidence"@, v);
        if name != "confidence"@ {
            strmap::law_get_other_after_insert(e, "confidence"@, v, name);
        }
    }
}

} // verus!
