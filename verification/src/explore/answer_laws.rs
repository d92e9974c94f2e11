//! What the answers of an explorer hold: tables, hops, cards, subgraphs and searches.

use vstd::prelude::*;
use crate::db::DbValueModel;
use crate::db::QueryResultModel;
use crate::db::RowModel;
use crate::db;
use crate::dsl::DslQueryModel;
use crate::dsl::ReturnItemModel;
use crate::explore::dto::AskOptions;
use crate::explore::dto::PropertyGroupsModel;
use crate::explore::dto::RelTypeCountModel;
use crate::explore::dto::RelationSummaryModel;
use crate::explore::dto::SearchMode;
use crate::explore::dto::SourceRefModel;
use crate::explore::dto::TypeCountModel;
use crate::explore::dto;
use crate::explore::explorer::ExplorerModel;
use crate::explore::explorer::SearchPlan;
use crate::explore::explorer;
use crate::explore::laws;
use crate::explore::subgraph;
use crate::explore::summary;
use crate::explore::table_laws;
use crate::explore::timeline;
use crate::graph::ontology::CatalogModel;
use crate::json::JsonModel;
use crate::prompt::GraphSchemaModel;
use crate::prompt::NodeKindModel;
use crate::prompt::RelKindModel;
use crate::seqs;
use crate::strmap;
use crate::text;

verus! {

broadcast use vstd::string::group_string_axioms;

/// Has a result a column, named at its head or else in its first row?
pub open spec fn has_column(result: QueryResultModel, name: Seq<char>) -> bool {
    result.columns.contains(name) || (result.rows.len() > 0 && strmap::assoc_get(
        result.rows[0],
        name,
    ) is Some)
}

proof fn row_names(row: RowModel, name: Seq<char>)
    ensures
        subgraph::row_columns(row).contains(name) <==> strmap::assoc_get(row, name) is Some,
    decreases row.len(),
{
    let names = subgraph::row_columns(row);
    if row.len() > 0 {
        let rest = row.drop_first();
        row_names(rest, name);
        let tail = subgraph::row_columns(rest);
        if names.contains(name) {
            let i = choose|i: int| 0 <= i < names.len() && names[i] == name;
            if i > 0 {
                assert(tail[i - 1] == name);
            }
        }
        if tail.contains(name) {
            let i = choose|i: int| 0 <= i < tail.len() && tail[i] == name;
            assert(names[i + 1] == name);
        }
        assert(names[0] == row[0].0);
    }
}

/// Is a column neither a score, nor sources, nor a hidden id?
pub open spec fn is_open_column(name: Seq<char>) -> bool {
    name != "score"@ && name != "sources"@ && !text::has_prefix(name, "__id_"@)
}

proof fn open_names(names: Seq<Seq<char>>, name: Seq<char>)
    ensures
        subgraph::visible_names(names).contains(name) <==> names.contains(name) && is_open_column(
            name,
        ),
    decreases names.len(),
{
    if names.len() > 0 {
        let rest = names.drop_last();
        open_names(rest, name);
        let before = subgraph::visible_names(rest);
        let all = subgraph::visible_names(names);
        assert(names[names.len() - 1] == names.last());
        if names.contains(name) {
            let i = choose|i: int| 0 <= i < names.len() && names[i] == name;
            if i < rest.len() {
                assert(rest[i] == name);
            }
        }
        if rest.contains(name) {
            let i = choose|i: int| 0 <= i < rest.len() && rest[i] == name;
            assert(names[i] == name);
        }
        if before.contains(name) {
            let i = choose|i: int| 0 <= i < before.len() && before[i] == name;
            assert(all[i] == name);
        }
        if all.contains(name) {
            let i = choose|i: int| 0 <= i < all.len() && all[i] == name;
            if i < before.len() {
                assert(before[i] == name);
            }
        }
        if is_open_column(names.last()) {
            assert(all[before.len() as int] == names.last());
        }
    }
}

/// Is a row of a table that of one of the rows of the result, as far as it is open?
pub open spec fn shows_a_row(
    shown: Seq<(Seq<char>, JsonModel)>,
    rows: Seq<RowModel>,
) -> bool {
    exists|i: int| 0 <= i < rows.len() && shown == subgraph::visible_cells(#[trigger] rows[i])
}

/// The columns of a table are open columns of the result, and all that its head names; its rows
/// are those of the result, every one where neither duplicates are left out nor the number is
/// bounded, and never more than the bound; the entities of its rows are told where the result has
/// a hidden id.
pub proof fn law_tables_are_of_the_result(
    result: QueryResultModel,
    distinct: bool,
    cap: Option<u32>,
    name: Seq<char>,
)
    ensures
        ({
            let t = subgraph::table_of(result, distinct, cap);
            &&& t.columns.contains(name) ==> is_open_column(name) && has_column(result, name)
            &&& result.columns.contains(name) && is_open_column(name) ==> t.columns.contains(name)
            &&& forall|k: int|
                0 <= k < t.rows.len() ==> shows_a_row(#[trigger] t.rows[k], result.rows)
            &&& cap is Some ==> t.rows.len() <= cap->0
            &&& !distinct && cap is None ==> t.rows.len() == result.rows.len() && forall|i: int|
                0 <= i < result.rows.len() ==> #[trigger] t.rows[i] == subgraph::visible_cells(
                    result.rows[i],
                )
            &&& forall|i: int|
                0 <= i < result.rows.len() ==> t.rows.contains(
                    subgraph::visible_cells(#[trigger] result.rows[i]),
                ) || (distinct && subgraph::has_row(
                    t.rows,
                    subgraph::visible_cells(result.rows[i]),
                )) || (cap is Some && t.rows.len() >= cap->0)
            &&& (exists|n: Seq<char>| #[trigger]
                has_column(result, n) && text::has_prefix(n, "__id_"@)) ==> t.row_entities.len()
                == t.rows.len()
            &&& t.row_entities.len() > 0 ==> exists|n: Seq<char>| #[trigger]
                has_column(result, n) && text::has_prefix(n, "__id_"@)
        }),
{
    let t = subgraph::table_of(result, distinct, cap);
    let with_ids = subgraph::returns_ids(result);
    let w = subgraph::table_walk(result.rows, distinct, with_ids, cap);
    table_laws::law_tables_show_the_rows(result.rows, distinct, with_ids, cap);
    subgraph::law_row_entities_line_up(result.rows, distinct, with_ids, cap);
    tables_are_bounded(result.rows, distinct, with_ids, cap);
    assert forall|k: int| 0 <= k < t.rows.len() implies shows_a_row(
        #[trigger] t.rows[k],
        result.rows,
    ) by {
        assert(table_laws::is_row_of(w, result.rows, with_ids, k));
    }
    open_names(result.columns, name);
    if result.rows.len() > 0 {
        let names = subgraph::row_columns(result.rows[0]);
        open_names(names, name);
        row_names(result.rows[0], name);
    }
    if exists|n: Seq<char>| #[trigger] has_column(result, n) && text::has_prefix(n, "__id_"@) {
        let n = choose|n: Seq<char>| #[trigger]
            has_column(result, n) && text::has_prefix(n, "__id_"@);
        if result.columns.contains(n) {
            let i = choose|i: int| 0 <= i < result.columns.len() && result.columns[i] == n;
            assert(text::has_prefix(result.columns[i], "__id_"@));
        } else {
            let names = subgraph::row_columns(result.rows[0]);
            row_names(result.rows[0], n);
            let i = choose|i: int| 0 <= i < names.len() && names[i] == n;
            assert(text::has_prefix(names[i], "__id_"@));
        }
        assert(with_ids);
    }
    if with_ids {
        if subgraph::has_id_column(result.columns) {
            let i = choose|i: int|
                0 <= i < result.columns.len() && text::has_prefix(
                    #[trigger] result.columns[i],
                    "__id_"@,
                );
            assert(has_column(result, result.columns[i]));
        } else {
            let names = subgraph::row_columns(result.rows[0]);
            let i = choose|i: int|
                0 <= i < names.len() && text::has_prefix(#[trigger] names[i], "__id_"@);
            assert(names.contains(names[i]));
            row_names(result.rows[0], names[i]);
            assert(has_column(result, names[i]));
        }
    }
}

proof fn tables_are_bounded(
    rows: Seq<RowModel>,
    distinct: bool,
    with_ids: bool,
    cap: Option<u32>,
)
    ensures
        cap is Some ==> subgraph::table_walk(rows, distinct, with_ids, cap).rows.len() <= cap->0,
    decreases rows.len(),
{
    if rows.len() > 0 {
        tables_are_bounded(rows.drop_last(), distinct, with_ids, cap);
    }
}

/// A hop needs the entity itself, and shows it first. All that the rows tell is shown, and nothing
/// else; it is cut off where the rows reach the limit.
pub proof fn law_hops_show_the_rows(
    e: ExplorerModel,
    id: Seq<char>,
    origin_row: RowModel,
    rows: Seq<RowModel>,
    limit: u32,
)
    ensures
        match explorer::hop(e, id, origin_row, rows, limit) {
            Err(x) => explorer::node_in(origin_row, e.prefix, e.catalog) is None && x
                == crate::explore::error::ExploreErrorModel::UnknownEntity(id),
            Ok(s) => explorer::node_in(origin_row, e.prefix, e.catalog) is Some && ({
                let origin = explorer::node_in(origin_row, e.prefix, e.catalog)->0;
                &&& s.nodes.len() > 0 && s.nodes[0] == origin
                &&& s.truncated <==> rows.len() >= limit
                &&& forall|i: int|
                    0 <= i < rows.len() ==> laws::row_is_met(
                        s.nodes,
                        s.edges,
                        origin,
                        #[trigger] rows[i],
                        e.prefix,
                        e.catalog,
                    )
                &&& forall|k: int|
                    0 <= k < s.nodes.len() ==> #[trigger] s.nodes[k] == origin
                        || laws::is_node_of_a_row(s.nodes[k], rows, e.prefix, e.catalog)
                &&& forall|k: int|
                    0 <= k < s.edges.len() ==> laws::is_edge_of_a_row(
                        #[trigger] s.edges[k],
                        origin,
                        rows,
                        e.prefix,
                        e.catalog,
                    )
            }),
        },
{
    if let Some(origin) = explorer::node_in(origin_row, e.prefix, e.catalog) {
        laws::law_neighbors_are_of_the_rows(origin, rows, e.prefix, e.catalog);
        origin_is_first(origin, rows, e);
    }
}

proof fn origin_is_first(
    origin: crate::explore::dto::NodeViewModel,
    rows: Seq<RowModel>,
    e: ExplorerModel,
)
    ensures
        explorer::neighborhood(origin, rows, e.prefix, e.catalog).0.len() > 0,
        explorer::neighborhood(origin, rows, e.prefix, e.catalog).0[0] == origin,
    decreases rows.len(),
{
    if rows.len() > 0 {
        origin_is_first(origin, rows.drop_last(), e);
    }
}

/// The columns of a type start with the id and the name; they are six at most; each further one is
/// a text property of the first kind with the label of the type, and none of these is left out
/// where there is room.
pub proof fn law_columns_of_a_type_are_its_texts(
    s: GraphSchemaModel,
    entity_type: Seq<char>,
    k: int,
)
    requires
        0 <= k < s.nodes.len(),
        s.nodes[k].label == entity_type,
        forall|j: int| 0 <= j < k ==> (#[trigger] s.nodes[j]).label != entity_type,
    ensures
        ({
            let all = explorer::key_columns(Some(s), entity_type);
            let props = s.nodes[k].properties;
            &&& 2 <= all.len() <= 6
            &&& all[0] == "id"@
            &&& all[1] == "name"@
            &&& forall|i: int|
                2 <= i < all.len() ==> laws::is_text_among(#[trigger] all[i], props)
            &&& all.len() < 6 ==> forall|i: int|
                0 <= i < props.len() && laws::is_open_text(#[trigger] props[i]) ==> all.contains(
                    props[i].name,
                )
        }),
{
    let p = |n: NodeKindModel| n.label == entity_type;
    seqs::first_where_at(s.nodes, p, k);
    let base = seq!["id"@, "name"@];
    let all = explorer::key_columns(Some(s), entity_type);
    laws::law_key_columns_are_texts(base, s.nodes[k].properties);
    assert(all.take(2)[0] == base[0] && all.take(2)[1] == base[1]);
}

/// Without a schema, or for a type that the schema does not know, the id and the name are shown.
pub proof fn law_unknown_types_show_their_names(s: GraphSchemaModel, entity_type: Seq<char>)
    requires
        forall|j: int| 0 <= j < s.nodes.len() ==> (#[trigger] s.nodes[j]).label != entity_type,
    ensures
        explorer::key_columns(Some(s), entity_type) == seq!["id"@, "name"@],
        explorer::key_columns(None, entity_type) == seq!["id"@, "name"@],
{
    seqs::first_where_none(s.nodes, |n: NodeKindModel| n.label == entity_type);
}

/// The card of an entity shows the node of its row, the sources that the row names, and its
/// relations, which add up to the counts in the rows of relations. There is none where the row is
/// no node.
pub proof fn law_cards_are_of_their_rows(
    e: ExplorerModel,
    row: RowModel,
    relations: Seq<RowModel>,
    items: Seq<JsonModel>,
    s: SourceRefModel,
    x: RelationSummaryModel,
)
    requires
        summary::summaries_fit(relations, e.prefix, e.catalog),
        strmap::assoc_get(row, "sources"@) == Some(DbValueModel::Json(JsonModel::Array(items))),
    ensures
        match explorer::card_of(e, row, relations) {
            None => explorer::node_in(row, e.prefix, e.catalog) is None,
            Some(card) => {
                &&& explorer::node_in(row, e.prefix, e.catalog) == Some(card.node)
                &&& card.sources.contains(s) <==> table_laws::is_named_source(items, s)
                &&& laws::summed(card.relations, x) == summary::relation_count(
                    relations,
                    x,
                    e.prefix,
                    e.catalog,
                )
            },
        },
{
    table_laws::law_listed_sources_are_named(items, s);
    laws::law_relations_are_counted(relations, x, e.prefix, e.catalog);
}

/// The query that is run returns all that is asked for, in its order and before anything else, and
/// differs in nothing else. Where neither entities nor their references are wanted it is the query
/// itself; where they are, it returns the id of every node of a query that finds nodes.
pub proof fn law_executed_queries_return_what_is_asked(q: DslQueryModel, opts: AskOptions)
    ensures
        ({
            let run = explorer::executed(q, opts);
            let nodes = subgraph::node_aliases(q.start.alias, q.traversals);
            &&& run.start == q.start && run.traversals == q.traversals && run.group_by == q.group_by
            &&& run.limit == q.limit
            &&& !opts.include_subgraph && !opts.include_entity_refs ==> run == q
            &&& (opts.include_subgraph || opts.include_entity_refs) && subgraph::is_find(q)
                ==> forall|k: int|
                0 <= k < nodes.len() && !subgraph::returns_alias(
                    q.return_,
                    "__id_"@ + #[trigger] nodes[k],
                ) ==> table_laws::id_is_returned(run.return_, nodes[k])
        }),
{
    if subgraph::is_find(q) {
        table_laws::law_widened_queries_return_ids(q);
    }
}

/// Does a column show a field of an alias: under its own name, or the alias of the column?
pub open spec fn is_column_of(
    item: ReturnItemModel,
    column: Seq<char>,
    alias: Seq<char>,
    field: Seq<char>,
) -> bool {
    item is Field && item->Field_field == alias + "."@ + field && column == (match item->Field_alias {
        Some(a) => a,
        None => item->Field_field,
    })
}

proof fn dotted_fields(alias: Seq<char>, field: Seq<char>)
    requires
        forall|i: int| 0 <= i < alias.len() ==> #[trigger] alias[i] != '.',
    ensures
        ({
            let s = alias + "."@ + field;
            &&& timeline::behind(s, subgraph::dot()) is Some
            &&& timeline::before(s, subgraph::dot()) == alias
        }),
{
    reveal_strlit(".");
    let s = alias + "."@ + field;
    let n = alias.len() as int;
    assert forall|j: int| 0 <= j < n implies !subgraph::dot()(#[trigger] s[j]) by {
        assert(s[j] == alias[j]);
    }
    assert(s[n] == '.');
    timeline::first_at_is(s, subgraph::dot(), n);
    assert(s.take(n) =~= alias);
}

/// A column that shows a field of an alias is told to belong to it, unless a later one has the
/// same name.
pub proof fn law_columns_belong_to_their_entities(
    items: Seq<ReturnItemModel>,
    k: int,
    column: Seq<char>,
    alias: Seq<char>,
    field: Seq<char>,
)
    requires
        0 <= k < items.len(),
        is_column_of(items[k], column, alias, field),
        forall|i: int| 0 <= i < alias.len() ==> #[trigger] alias[i] != '.',
        forall|j: int|
            k < j < items.len() ==> subgraph::column_of(#[trigger] items[j]) is None || (
            subgraph::column_of(items[j])->0).0 != column,
    ensures
        strmap::assoc_get(subgraph::columns_of(items), column) == Some(alias),
    decreases items.len(),
{
    let rest = items.drop_last();
    if k == items.len() - 1 {
        dotted_fields(alias, field);
        strmap::law_get_after_insert(subgraph::columns_of(rest), column, alias);
    } else {
        assert forall|j: int| k < j < rest.len() implies subgraph::column_of(#[trigger] rest[j])
            is None || (subgraph::column_of(rest[j])->0).0 != column by {
            assert(rest[j] == items[j]);
        }
        law_columns_belong_to_their_entities(rest, k, column, alias, field);
        assert(items[items.len() - 1] == items.last());
        if let Some((c, a)) = subgraph::column_of(items.last()) {
            strmap::law_get_other_after_insert(subgraph::columns_of(rest), c, a, column);
        }
    }
}

/// Only a field of an entity is a column that belongs to one.
pub proof fn law_plain_columns_belong_to_none(item: ReturnItemModel)
    ensures
        item is Field && (forall|i: int|
            0 <= i < item->Field_field.len() ==> #[trigger] item->Field_field[i] != '.')
            ==> subgraph::column_of(item) is None,
        !(item is Field) ==> subgraph::column_of(item) is None,
{
    if item is Field {
        let s = item->Field_field;
        if forall|i: int| 0 <= i < s.len() ==> #[trigger] s[i] != '.' {
            assert forall|j: int| 0 <= j < s.len() implies !subgraph::dot()(#[trigger] s[j]) by {}
            timeline::first_at_is(s, subgraph::dot(), s.len() as int);
        }
    }
}

/// The table of an answer is that of the result; which entities its columns belong to is told only
/// where entities or their references are wanted.
pub proof fn law_answers_show_the_table(
    result: QueryResultModel,
    q: DslQueryModel,
    distinct: bool,
    opts: AskOptions,
)
    ensures
        ({
            let a = explorer::answer_table_of(result, q, distinct, opts);
            let t = subgraph::table_of(result, distinct, opts.max_rows);
            &&& a.columns == t.columns && a.rows == t.rows && a.row_entities == t.row_entities
            &&& !opts.include_subgraph && !opts.include_entity_refs ==> a.entity_columns.len() == 0
            &&& opts.include_subgraph || opts.include_entity_refs ==> a.entity_columns
                == subgraph::columns_of(q.return_)
        }),
{
}

/// A subgraph holds the nodes of its rows and the edges that its rows tell of; it is cut off where
/// the ids were, or where the rows of edges reach their limit. Without ids it is empty.
pub proof fn law_subgraphs_are_of_their_rows(
    e: ExplorerModel,
    ids: Seq<Seq<char>>,
    truncated: bool,
    nodes: Seq<RowModel>,
    edges: Seq<RowModel>,
)
    ensures
        ({
            let s = explorer::materialized(e, ids, truncated, nodes, edges);
            &&& ids.len() == 0 ==> s.nodes.len() == 0 && s.edges.len() == 0 && !s.truncated
            &&& ids.len() > 0 ==> {
                &&& forall|k: int|
                    0 <= k < s.nodes.len() ==> laws::is_node_of_a_row(
                        #[trigger] s.nodes[k],
                        nodes,
                        e.prefix,
                        e.catalog,
                    )
                &&& forall|i: int|
                    0 <= i < nodes.len() && explorer::node_in(#[trigger] nodes[i], e.prefix, e.catalog)
                        is Some ==> s.nodes.contains(
                        explorer::node_in(nodes[i], e.prefix, e.catalog)->0,
                    )
                &&& forall|k: int|
                    0 <= k < s.edges.len() ==> table_laws::edge_is_told(#[trigger] s.edges[k], edges)
                &&& forall|i: int, from: Seq<char>, t: Seq<char>, to: Seq<char>|
                    0 <= i < edges.len() && #[trigger] table_laws::row_tells_edge(
                        edges[i],
                        from,
                        t,
                        to,
                    ) ==> subgraph::has_edge(s.edges, from + ":"@ + t + ":"@ + to)
                &&& s.truncated <==> truncated || edges.len() >= e.limits.max_subgraph_edges
            }
        }),
{
    table_laws::law_edges_are_of_their_rows(edges);
    nodes_are_of_rows(nodes, e);
}

proof fn nodes_are_of_rows(rows: Seq<RowModel>, e: ExplorerModel)
    ensures
        ({
            let nodes = explorer::nodes_in(rows, e.prefix, e.catalog);
            &&& forall|k: int|
                0 <= k < nodes.len() ==> laws::is_node_of_a_row(
                    #[trigger] nodes[k],
                    rows,
                    e.prefix,
                    e.catalog,
                )
            &&& forall|i: int|
                0 <= i < rows.len() && explorer::node_in(#[trigger] rows[i], e.prefix, e.catalog)
                    is Some ==> nodes.contains(explorer::node_in(rows[i], e.prefix, e.catalog)->0)
        }),
    decreases rows.len(),
{
    if rows.len() > 0 {
        let rest = rows.drop_last();
        nodes_are_of_rows(rest, e);
        let before = explorer::nodes_in(rest, e.prefix, e.catalog);
        let nodes = explorer::nodes_in(rows, e.prefix, e.catalog);
        assert(rows[rows.len() - 1] == rows.last());
        assert forall|k: int| 0 <= k < nodes.len() implies laws::is_node_of_a_row(
            #[trigger] nodes[k],
            rows,
            e.prefix,
            e.catalog,
        ) by {
            if k < before.len() {
                assert(nodes[k] == before[k]);
                let i = choose|i: int|
                    0 <= i < rest.len() && explorer::node_in(
                        #[trigger] rest[i],
                        e.prefix,
                        e.catalog,
                    ) == Some(before[k]);
                assert(rows[i] == rest[i]);
            }
        }
        assert forall|i: int|
            0 <= i < rows.len() && explorer::node_in(#[trigger] rows[i], e.prefix, e.catalog)
                is Some implies nodes.contains(
            explorer::node_in(rows[i], e.prefix, e.catalog)->0,
        ) by {
            let n = explorer::node_in(rows[i], e.prefix, e.catalog)->0;
            if i < rest.len() {
                assert(rest[i] == rows[i]);
                let k = choose|k: int| 0 <= k < before.len() && before[k] == n;
                assert(nodes[k] == n);
            } else {
                assert(nodes[before.len() as int] == n);
            }
        }
    }
}

/// A search by meaning is run only where it is asked for, or where there is an embedder; one by
/// words only where it is asked for, or may take the place of the other.
pub proof fn law_searches_are_run_as_asked(mode: SearchMode, embedder: bool)
    ensures
        mode == SearchMode::Keyword <==> forall|b: bool|
            #[trigger] explorer::plan_of(mode, b) == SearchPlan::Keyword,
        mode == SearchMode::Semantic <==> explorer::plan_of(mode, embedder) == SearchPlan::Semantic,
        mode == SearchMode::Auto ==> (explorer::plan_of(mode, embedder) == SearchPlan::Keyword
            <==> !embedder),
{
    if mode == SearchMode::Auto {
        assert(explorer::plan_of(mode, true) != SearchPlan::Keyword);
    }
    if mode == SearchMode::Semantic {
        assert(explorer::plan_of(mode, true) != SearchPlan::Keyword);
    }
}

/// The scored node of a row is that of its internal id, with the score of the row.
pub proof fn law_scores_are_of_their_rows(rows: Seq<RowModel>, i: int)
    requires
        0 <= i < rows.len(),
    ensures
        explorer::score_rows_of(rows).len() == rows.len(),
        explorer::score_rows_of(rows)[i].0 == db::int_cell(strmap::assoc_get(rows[i], "nid"@)),
        explorer::score_rows_of(rows)[i].1 == db::float_cell(strmap::assoc_get(rows[i], "score"@)),
{
}

/// Every property of the groups is among all of them, and there is no other.
pub proof fn law_all_properties_are_of_the_groups(
    g: PropertyGroupsModel,
    p: (Seq<char>, JsonModel),
)
    ensures
        dto::all_properties(g).contains(p) <==> g.identifiers.contains(p) || g.descriptions.contains(
            p,
        ) || g.facts.contains(p) || g.dates.contains(p) || g.other.contains(p),
        dto::all_properties(g).len() == g.identifiers.len() + g.descriptions.len() + g.facts.len()
            + g.dates.len() + g.other.len(),
{
    joined_contains(g.identifiers, g.descriptions, p);
    joined_contains(g.identifiers + g.descriptions, g.facts, p);
    joined_contains(g.identifiers + g.descriptions + g.facts, g.dates, p);
    joined_contains(g.identifiers + g.descriptions + g.facts + g.dates, g.other, p);
}

proof fn joined_contains<T>(a: Seq<T>, b: Seq<T>, x: T)
    ensures
        (a + b).contains(x) <==> a.contains(x) || b.contains(x),
{
    let t = a + b;
    if t.contains(x) {
        let i = choose|i: int| 0 <= i < t.len() && t[i] == x;
        if i < a.len() {
            assert(a[i] == x);
        } else {
            assert(b[i - a.len()] == x);
        }
    }
    if a.contains(x) {
        let i = choose|i: int| 0 <= i < a.len() && a[i] == x;
        assert(t[i] == x);
    }
    if b.contains(x) {
        let i = choose|i: int| 0 <= i < b.len() && b[i] == x;
        assert(t[a.len() + i] == x);
    }
}

/// The total is the count in the first row, and nothing where there is none or it is negative.
pub proof fn law_totals_are_of_the_first_row(rows: Seq<RowModel>)
    ensures
        rows.len() == 0 ==> explorer::total_in(rows) == 0,
        rows.len() > 0 ==> match db::int_cell(strmap::assoc_get(rows[0], "total"@)) {
            Some(n) => explorer::total_in(rows) == (if n > 0 {
                n as int
            } else {
                0
            }),
            None => explorer::total_in(rows) == 0,
        },
{
}

/// Properties whose names start with an underscore are those of the system; sources and chunks are
/// no types of the business; scores, sources and ids under the hidden prefix are no columns.
pub proof fn law_system_names_are_known(name: Seq<char>)
    ensures
        crate::explore::classify::is_system(name) <==> name.len() > 0 && name[0] == '_',
        !summary::is_business_type("Source"@) && !summary::is_business_type("Chunk"@),
        name != "Source"@ && name != "Chunk"@ ==> summary::is_business_type(name),
        subgraph::is_hidden(name) <==> !is_open_column(name),
{
    reveal_strlit("_");
    if name.len() > 0 {
        assert(name.subrange(0, 1) =~= seq![name[0]]);
        assert("_"@ =~= seq!['_']);
        if name.subrange(0, 1) == "_"@ {
            assert(seq![name[0]][0] == seq!['_'][0]);
        }
    }
}

proof fn deduped_in_order(s: Seq<SourceRefModel>, le: spec_fn(SourceRefModel, SourceRefModel) -> bool)
    requires
        forall|i: int, j: int| 0 <= i < j < s.len() ==> le(#[trigger] s[i], #[trigger] s[j]),
    ensures
        forall|i: int, j: int|
            0 <= i < j < seqs::deduped(s).len() ==> le(
                #[trigger] seqs::deduped(s)[i],
                #[trigger] seqs::deduped(s)[j],
            ),
        forall|x: SourceRefModel| #[trigger] seqs::deduped(s).contains(x) ==> s.contains(x),
    decreases s.len(),
{
    if s.len() > 1 {
        let rest = s.drop_last();
        assert forall|i: int, j: int| 0 <= i < j < rest.len() implies le(
            #[trigger] rest[i],
            #[trigger] rest[j],
        ) by {
            assert(le(s[i], s[j]));
        }
        deduped_in_order(rest, le);
        let before = seqs::deduped(rest);
        let all = seqs::deduped(s);
        let n = s.len() - 1;
        assert forall|x: SourceRefModel| #[trigger] before.contains(x) implies exists|k: int|
            0 <= k < n && s[k] == x by {
            assert(rest.contains(x));
            let k = choose|k: int| 0 <= k < rest.len() && rest[k] == x;
            assert(s[k] == x);
        }
        assert forall|i: int, j: int| 0 <= i < j < all.len() implies le(
            #[trigger] all[i],
            #[trigger] all[j],
        ) by {
            if j < before.len() {
                assert(le(before[i], before[j]));
            } else {
                assert(before.contains(before[i]));
                let k = choose|k: int| 0 <= k < n && s[k] == before[i];
                assert(le(s[k], s[n]));
            }
        }
        assert forall|x: SourceRefModel| #[trigger] all.contains(x) implies s.contains(x) by {
            let i = choose|i: int| 0 <= i < all.len() && all[i] == x;
            if i < before.len() {
                assert(before.contains(before[i]));
                let k = choose|k: int| 0 <= k < n && s[k] == x;
            } else {
                assert(s[n] == x);
            }
        }
    } else {
        assert(seqs::deduped(s) =~= s);
    }
}

/// The sources of a cell come in the order of their ids, those without one first, and none is
/// followed by itself.
pub proof fn law_sources_come_by_id(items: Seq<JsonModel>, i: int, j: int)
    requires
        0 <= i < j < subgraph::listed_sources(
            Some(DbValueModel::Json(JsonModel::Array(items))),
        ).len(),
    ensures
        ({
            let s = subgraph::listed_sources(Some(DbValueModel::Json(JsonModel::Array(items))));
            &&& s[i].id is Some ==> s[j].id is Some && !text::lex_lt(s[j].id->0, s[i].id->0)
            &&& s[i].id == s[j].id && s[i].name is Some ==> s[j].name is Some && !text::lex_lt(
                s[j].name->0,
                s[i].name->0,
            )
        }),
{
    let found = subgraph::sources_in(items);
    let le = subgraph::source_order();
    subgraph::law_source_order_is_total();
    crate::sorting::law_sorted_by(found, le);
    let sorted = crate::sorting::sorted_by(found, le);
    deduped_in_order(sorted, le);
    let s = seqs::deduped(sorted);
    assert(le(s[i], s[j]));
    if s[i].id is Some {
        text::lex_lt_irreflexive(s[i].id->0);
    }
}

/// The sum of the counts of types.
pub open spec fn nodes_counted(s: Seq<TypeCountModel>) -> nat
    decreases s.len(),
{
    if s.len() == 0 {
        0
    } else {
        s[0].count as nat + nodes_counted(s.drop_first())
    }
}

/// The sum of the counts of relation types.
pub open spec fn relations_counted(s: Seq<RelTypeCountModel>) -> nat
    decreases s.len(),
{
    if s.len() == 0 {
        0
    } else {
        s[0].count as nat + relations_counted(s.drop_first())
    }
}

proof fn nodes_counted_of_more(s: Seq<TypeCountModel>, x: TypeCountModel)
    ensures
        nodes_counted(s.push(x)) == nodes_counted(s) + x.count,
    decreases s.len(),
{
    let t = s.push(x);
    if s.len() > 0 {
        nodes_counted_of_more(s.drop_first(), x);
        assert(t.drop_first() =~= s.drop_first().push(x));
    } else {
        assert(t.drop_first() =~= s);
    }
}

proof fn relations_counted_of_more(s: Seq<RelTypeCountModel>, x: RelTypeCountModel)
    ensures
        relations_counted(s.push(x)) == relations_counted(s) + x.count,
    decreases s.len(),
{
    let t = s.push(x);
    if s.len() > 0 {
        relations_counted_of_more(s.drop_first(), x);
        assert(t.drop_first() =~= s.drop_first().push(x));
    } else {
        assert(t.drop_first() =~= s);
    }
}

proof fn nodes_inserted(
    s: Seq<TypeCountModel>,
    x: TypeCountModel,
    le: spec_fn(TypeCountModel, TypeCountModel) -> bool,
)
    ensures
        nodes_counted(crate::sorting::insert_by(s, x, le)) == nodes_counted(s) + x.count,
    decreases s.len(),
{
    if s.len() == 0 {
        assert(seq![x] =~= s.push(x));
        nodes_counted_of_more(s, x);
    } else if le(s.last(), x) {
        nodes_counted_of_more(s, x);
    } else {
        nodes_inserted(s.drop_last(), x, le);
        nodes_counted_of_more(crate::sorting::insert_by(s.drop_last(), x, le), s.last());
        nodes_counted_of_more(s.drop_last(), s.last());
        assert(s.drop_last().push(s.last()) =~= s);
    }
}

proof fn nodes_sorted(
    s: Seq<TypeCountModel>,
    le: spec_fn(TypeCountModel, TypeCountModel) -> bool,
)
    ensures
        nodes_counted(crate::sorting::sorted_by(s, le)) == summary::types_total(s),
    decreases s.len(),
{
    if s.len() > 0 {
        nodes_sorted(s.drop_last(), le);
        nodes_inserted(crate::sorting::sorted_by(s.drop_last(), le), s.last(), le);
    }
}

proof fn relations_added_up(s: Seq<RelTypeCountModel>)
    ensures
        relations_counted(s) == summary::relations_total(s),
    decreases s.len(),
{
    if s.len() > 0 {
        relations_added_up(s.drop_last());
        relations_counted_of_more(s.drop_last(), s.last());
        assert(s.drop_last().push(s.last()) =~= s);
    }
}

/// Does a row name a source, by its id or by its name?
pub open spec fn row_names_source(row: RowModel, s: SourceRefModel) -> bool {
    &&& s.id is Some || s.name is Some
    &&& s.id == db::text_cell(strmap::assoc_get(row, "id"@))
    &&& s.name == db::text_cell(strmap::assoc_get(row, "name"@))
}

proof fn sources_are_of_rows(rows: Seq<RowModel>, s: SourceRefModel)
    ensures
        summary::source_rows(rows).contains(s) <==> exists|i: int|
            0 <= i < rows.len() && row_names_source(#[trigger] rows[i], s),
    decreases rows.len(),
{
    if rows.len() > 0 {
        let rest = rows.drop_last();
        sources_are_of_rows(rest, s);
        let before = summary::source_rows(rest);
        let all = summary::source_rows(rows);
        let n = rows.len() - 1;
        assert(rows[n] == rows.last());
        if all.contains(s) {
            let k = choose|k: int| 0 <= k < all.len() && all[k] == s;
            if k < before.len() {
                assert(before[k] == s);
                let i = choose|i: int|
                    0 <= i < rest.len() && row_names_source(#[trigger] rest[i], s);
                assert(row_names_source(rows[i], s));
            } else {
                assert(row_names_source(rows[n], s));
            }
        }
        if exists|i: int| 0 <= i < rows.len() && row_names_source(#[trigger] rows[i], s) {
            let i = choose|i: int| 0 <= i < rows.len() && row_names_source(#[trigger] rows[i], s);
            if i < n {
                assert(row_names_source(rest[i], s));
                let k = choose|k: int| 0 <= k < before.len() && before[k] == s;
                assert(all[k] == s);
            } else {
                assert(all[before.len() as int] == s);
            }
        }
    }
}

proof fn relation_types_are_of_rows(
    rows: Seq<RowModel>,
    kinds: Seq<RelKindModel>,
    x: RelTypeCountModel,
)
    ensures
        summary::relations_in(rows, kinds).contains(x) <==> exists|i: int|
            0 <= i < rows.len() && summary::relation_in(#[trigger] rows[i], kinds) == Some(x),
    decreases rows.len(),
{
    if rows.len() > 0 {
        let rest = rows.drop_last();
        relation_types_are_of_rows(rest, kinds, x);
        let before = summary::relations_in(rest, kinds);
        let all = summary::relations_in(rows, kinds);
        let n = rows.len() - 1;
        assert(rows[n] == rows.last());
        if all.contains(x) {
            let k = choose|k: int| 0 <= k < all.len() && all[k] == x;
            if k < before.len() {
                assert(before[k] == x);
                let i = choose|i: int|
                    0 <= i < rest.len() && summary::relation_in(#[trigger] rest[i], kinds) == Some(
                        x,
                    );
                assert(rows[i] == rest[i]);
            } else {
                assert(summary::relation_in(rows[n], kinds) == Some(x));
            }
        }
        if exists|i: int|
            0 <= i < rows.len() && summary::relation_in(#[trigger] rows[i], kinds) == Some(x) {
            let i = choose|i: int|
                0 <= i < rows.len() && summary::relation_in(#[trigger] rows[i], kinds) == Some(x);
            if i < n {
                assert(rest[i] == rows[i]);
                let k = choose|k: int| 0 <= k < before.len() && before[k] == x;
                assert(all[k] == x);
            } else {
                assert(all[before.len() as int] == x);
            }
        }
    }
}

/// An overview shows the counted types, the relation types of the rows and the sources that rows
/// name, all of them and no others, and its totals are the sums of the counts that it shows.
pub proof fn law_overviews_add_up(
    schema: GraphSchemaModel,
    labels: Seq<RowModel>,
    relations: Seq<RowModel>,
    sources: Seq<RowModel>,
    prefix: Option<Seq<char>>,
    catalog: Option<CatalogModel>,
    t: TypeCountModel,
    x: RelTypeCountModel,
    s: SourceRefModel,
)
    requires
        summary::overview_fits(schema, labels, relations, prefix, catalog),
    ensures
        ({
            let o = summary::overview_of(schema, labels, relations, sources, prefix, catalog);
            &&& o.total_entities == nodes_counted(o.entity_types)
            &&& o.total_relations == relations_counted(o.relation_types)
            &&& o.entity_types.contains(t) <==> summary::shown_types(
                summary::type_counts(labels, prefix, catalog),
                schema.nodes,
            ).contains(t)
            &&& o.relation_types.contains(x) <==> exists|i: int|
                0 <= i < relations.len() && summary::relation_in(
                    #[trigger] relations[i],
                    schema.relationships,
                ) == Some(x)
            &&& o.sources.contains(s) <==> exists|i: int|
                0 <= i < sources.len() && row_names_source(#[trigger] sources[i], s)
        }),
{
    let types = summary::shown_types(
        summary::type_counts(labels, prefix, catalog),
        schema.nodes,
    );
    let o = summary::overview_of(schema, labels, relations, sources, prefix, catalog);
    nodes_sorted(types, summary::type_order());
    relations_added_up(o.relation_types);
    sources_are_of_rows(sources, s);
    relation_types_are_of_rows(relations, schema.relationships, x);
    if o.entity_types.contains(t) {
        crate::sorting::sorting_adds_none(types, summary::type_order(), t);
    }
    if types.contains(t) {
        crate::sorting::sorting_keeps(types, summary::type_order(), t);
    }
}

/// A relation type is shown with the ends and the description of the first kind of its label, and a
/// type of nodes with the description of the first kind of its own.
pub proof fn law_shown_types_are_described(
    row: RowModel,
    kinds: Seq<RelKindModel>,
    k: int,
    nodes: Seq<NodeKindModel>,
    n: int,
    counts: Seq<(Seq<char>, u64)>,
)
    requires
        0 <= k < kinds.len(),
        db::text_cell(strmap::assoc_get(row, "rel"@)) == Some(kinds[k].label),
        forall|j: int| 0 <= j < k ==> (#[trigger] kinds[j]).label != kinds[k].label,
        0 <= n < nodes.len(),
        forall|j: int| 0 <= j < n ==> (#[trigger] nodes[j]).label != nodes[n].label,
    ensures
        match summary::relation_in(row, kinds) {
            Some(x) => x.from == kinds[k].from && x.to == kinds[k].to && x.description
                == kinds[k].description,
            None => true,
        },
        explorer::described(nodes, nodes[n].label) == nodes[n].description,
        counts.len() > 0 && counts.last().0 == nodes[n].label && summary::is_business_type(
            nodes[n].label,
        ) ==> summary::shown_types(counts, nodes).last().description == nodes[n].description,
{
    let label = kinds[k].label;
    seqs::first_where_at(kinds, |r: RelKindModel| r.label == label, k);
    let own = nodes[n].label;
    seqs::first_where_at(nodes, |r: NodeKindModel| r.label == own, n);
}

} // verus!
