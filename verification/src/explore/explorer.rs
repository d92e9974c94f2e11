//! The explorer: what it asks of the graph, and what it makes of the answers.
//!
//! Queries are run elsewhere. Each method takes what came back, as rows.

use vstd::prelude::*;
use crate::cypher::CypherQuery;
use crate::cypher::CypherQueryModel;
use crate::db;
use crate::db::QueryResult;
use crate::db::QueryResultModel;
use crate::db::Row;
use crate::db::RowModel;
use crate::dsl;
use crate::dsl::DslQuery;
use crate::dsl::DslQueryModel;
use crate::embeddings;
use crate::embeddings::store;
use crate::explore::classify;
use crate::explore::dto;
use crate::explore::dto::AskOptions;
use crate::explore::dto::EdgeView;
use crate::explore::dto::EdgeViewModel;
use crate::explore::dto::EntityCard;
use crate::explore::dto::EntityCardModel;
use crate::explore::dto::EntityTable;
use crate::explore::dto::EntityTableModel;
use crate::explore::dto::ExportDoc;
use crate::explore::dto::NeighborOptions;
use crate::explore::dto::NodeView;
use crate::explore::dto::NodeViewModel;
use crate::explore::dto::PageOptions;
use crate::explore::dto::SearchChannel;
use crate::explore::dto::SearchHit;
use crate::explore::dto::SearchHitModel;
use crate::explore::dto::SearchMode;
use crate::explore::dto::SearchResult;
use crate::explore::dto::SearchResultModel;
use crate::explore::dto::Subgraph;
use crate::explore::dto::SubgraphModel;
use crate::explore::dto::TableSlice;
use crate::explore::dto::TableSliceModel;
use crate::explore::dto::TimelineEvent;
use crate::explore::dto::TypeCount;
use crate::explore::error::ExploreError;
use crate::explore::error::ExploreErrorModel;
use crate::explore::export;
use crate::explore::queries;
use crate::explore::queries::NeighborQuery;
use crate::explore::queries::NeighborQueryModel;
use crate::explore::queries::NodeHandle;
use crate::explore::queries::NodeHandleModel;
use crate::explore::queries::NID_HANDLE_PREFIX;
use crate::explore::subgraph;
use crate::explore::summary;
use crate::explore::timeline;
use crate::graph::ontology::CatalogModel;
use crate::graph::ontology::OntologyCatalog;
use crate::prompt::GraphSchema;
use crate::prompt::GraphSchemaModel;
use crate::prompt::NodeKind;
use crate::prompt::NodeKindModel;
use crate::prompt::PropertyModel;
use crate::prompt::PropertyType;
use crate::seqs;
use crate::seqs::Copied;
use crate::sorting;
use crate::text;

verus! {

broadcast use vstd::string::group_string_axioms;

/// Caps of what the explorer gives back.
#[derive(Debug, Clone, Copy, PartialEq)]
pub struct ExplorerLimits {
    /// Page size where none is asked for.
    pub default_page: u32,
    pub max_subgraph_nodes: usize,
    pub max_subgraph_edges: usize,
    pub max_sources: u32,
}

impl Default for ExplorerLimits {
    fn default() -> (r: ExplorerLimits)
        ensures
            r.default_page == 50,
            r.max_subgraph_nodes == 100,
            r.max_subgraph_edges == 500,
            r.max_sources == 200,
    {
        ExplorerLimits {
            default_page: 50,
            max_subgraph_nodes: 100,
            max_subgraph_edges: 500,
            max_sources: 200,
        }
    }
}

/// A browser of one graph: the prefix label of its nodes, its ontology and its
/// caps.
#[derive(Debug, PartialEq)]
pub struct Explorer {
    pub prefix: Option<String>,
    pub catalog: Option<OntologyCatalog>,
    pub limits: ExplorerLimits,
}

pub struct ExplorerModel {
    pub prefix: Option<Seq<char>>,
    pub catalog: Option<CatalogModel>,
    pub limits: ExplorerLimits,
}

impl DeepView for Explorer {
    type V = ExplorerModel;

    open spec fn deep_view(&self) -> ExplorerModel {
        ExplorerModel {
            prefix: self.prefix.deep_view(),
            catalog: self.catalog.deep_view(),
            limits: self.limits,
        }
    }
}

/// The page size: what is asked for, or the default, and never zero.
pub open spec fn page_size(limits: ExplorerLimits, requested: Option<u32>) -> u32 {
    let n = match requested {
        Some(n) => n,
        None => limits.default_page,
    };
    if n == 0 {
        1
    } else {
        n
    }
}

/// The next thing to do in a lookup.
#[derive(Debug, PartialEq)]
pub enum LookupStep {
    /// Run the query.
    Ask(CypherQuery),
    /// The first row of this reply is the entity.
    Found { handle: NodeHandle, reply: usize },
    Missing,
}

pub enum LookupStepModel {
    Ask(CypherQueryModel),
    Found { handle: NodeHandleModel, reply: usize },
    Missing,
}

impl DeepView for LookupStep {
    type V = LookupStepModel;

    open spec fn deep_view(&self) -> LookupStepModel {
        match self {
            LookupStep::Ask(x) => LookupStepModel::Ask(x.deep_view()),
            LookupStep::Found { handle, reply } => LookupStepModel::Found {
                handle: handle.deep_view(),
                reply: *reply,
            },
            LookupStep::Missing => LookupStepModel::Missing,
        }
    }
}

/// The query for a handle as the next step.
pub open spec fn asking(h: NodeHandleModel, prefix: Option<Seq<char>>) -> Result<
    LookupStepModel,
    ExploreErrorModel,
> {
    match queries::entity_by_id_query(h, prefix) {
        Ok(q) => Ok(LookupStepModel::Ask(q)),
        Err(e) => Err(e),
    }
}

/// The next step of a lookup, after the replies so far: first the handle is
/// asked for; where nothing is found and the `id` is of digits, the internal id.
pub open spec fn lookup(id: Seq<char>, prefix: Option<Seq<char>>, replies: Seq<QueryResultModel>) ->
    Result<LookupStepModel, ExploreErrorModel> {
    let h = queries::handle_of(id);
    if replies.len() == 0 {
        asking(h, prefix)
    } else if replies[0].rows.len() > 0 {
        Ok(LookupStepModel::Found { handle: h, reply: 0 })
    } else {
        match queries::fallback_of(h) {
            None => Ok(LookupStepModel::Missing),
            Some(f) => if replies.len() == 1 {
                asking(f, prefix)
            } else if replies[1].rows.len() > 0 {
                Ok(LookupStepModel::Found { handle: f, reply: 1 })
            } else {
                Ok(LookupStepModel::Missing)
            },
        }
    }
}

/// The node in a row of internal id, id, labels and properties.
pub open spec fn node_in(row: RowModel, prefix: Option<Seq<char>>, catalog: Option<CatalogModel>) ->
    Option<NodeViewModel> {
    let labels = db::texts_cell(db::cell(row, "labels"@));
    let props = db::object_cell(db::cell(row, "props"@));
    let (id, ephemeral) = match db::id_cell(db::cell(row, "id"@)) {
        Some(id) => (Some(id), false),
        None => match db::int_cell(db::cell(row, "nid"@)) {
            Some(nid) => (Some(NID_HANDLE_PREFIX@ + text::int_text(nid as int)), true),
            None => (None, true),
        },
    };
    match id {
        None => None,
        Some(id) => {
            let entity_type = classify::primary_of(labels, prefix, catalog);
            Some(
                NodeViewModel {
                    id,
                    name: classify::display_name_of(props, id),
                    entity_type,
                    labels,
                    properties: classify::classified(entity_type, props, catalog),
                    confidence: classify::confidence_of(props),
                    ephemeral_handle: ephemeral,
                },
            )
        },
    }
}

/// The nodes in rows; a row without a node is passed over.
pub open spec fn nodes_in(
    rows: Seq<RowModel>,
    prefix: Option<Seq<char>>,
    catalog: Option<CatalogModel>,
) -> Seq<NodeViewModel>
    decreases rows.len(),
{
    if rows.len() == 0 {
        Seq::empty()
    } else {
        let before = nodes_in(rows.drop_last(), prefix, catalog);
        match node_in(rows.last(), prefix, catalog) {
            Some(n) => before.push(n),
            None => before,
        }
    }
}

/// The card of an entity.
pub open spec fn card_of(e: ExplorerModel, row: RowModel, relations: Seq<RowModel>) -> Option<
    EntityCardModel,
> {
    match node_in(row, e.prefix, e.catalog) {
        None => None,
        Some(node) => Some(
            EntityCardModel {
                node,
                sources: subgraph::listed_sources(db::cell(row, "sources"@)),
                relations: summary::summaries(relations, e.prefix, e.catalog),
            },
        ),
    }
}

/// The nodes with one more, unless there is one of its id.
pub open spec fn add_node(nodes: Seq<NodeViewModel>, n: NodeViewModel) -> Seq<NodeViewModel> {
    if export::has_node(nodes, n.id) {
        nodes
    } else {
        nodes.push(n)
    }
}

/// The relation in a row as an edge between an entity and its neighbour.
pub open spec fn edge_to(origin: NodeViewModel, neighbor: NodeViewModel, row: RowModel) ->
    EdgeViewModel {
    let kind = match db::text_cell(db::cell(row, "rel"@)) {
        Some(s) => s,
        None => Seq::empty(),
    };
    let props = db::object_cell(db::cell(row, "rel_props"@));
    if db::bool_cell(db::cell(row, "outgoing"@)) == Some(true) {
        subgraph::edge_of(origin.id, kind, neighbor.id, props)
    } else {
        subgraph::edge_of(neighbor.id, kind, origin.id, props)
    }
}

/// An entity with the neighbours in rows.
pub open spec fn neighborhood(
    origin: NodeViewModel,
    rows: Seq<RowModel>,
    prefix: Option<Seq<char>>,
    catalog: Option<CatalogModel>,
) -> (Seq<NodeViewModel>, Seq<EdgeViewModel>)
    decreases rows.len(),
{
    if rows.len() == 0 {
        (seq![origin], Seq::empty())
    } else {
        let (nodes, edges) = neighborhood(origin, rows.drop_last(), prefix, catalog);
        match node_in(rows.last(), prefix, catalog) {
            Some(n) => (
                add_node(nodes, n),
                subgraph::add_edge(edges, edge_to(origin, n, rows.last())),
            ),
            None => (nodes, edges),
        }
    }
}

/// One hop from an entity.
pub open spec fn hop(
    e: ExplorerModel,
    id: Seq<char>,
    origin_row: RowModel,
    rows: Seq<RowModel>,
    limit: u32,
) -> Result<SubgraphModel, ExploreErrorModel> {
    match node_in(origin_row, e.prefix, e.catalog) {
        None => Err(ExploreErrorModel::UnknownEntity(id)),
        Some(origin) => {
            let (nodes, edges) = neighborhood(origin, rows, e.prefix, e.catalog);
            Ok(SubgraphModel { nodes, edges, truncated: rows.len() >= limit })
        },
    }
}

proof fn origin_leads(
    origin: NodeViewModel,
    rows: Seq<RowModel>,
    prefix: Option<Seq<char>>,
    catalog: Option<CatalogModel>,
)
    ensures
        neighborhood(origin, rows, prefix, catalog).0.len() > 0,
        neighborhood(origin, rows, prefix, catalog).0[0] == origin,
    decreases rows.len(),
{
    if rows.len() > 0 {
        origin_leads(origin, rows.drop_last(), prefix, catalog);
    }
}

/// A hop shows the entity itself first, and every edge has an end in it and
/// both ends among the nodes.
pub proof fn law_hop_edges_meet_the_origin(
    origin: NodeViewModel,
    rows: Seq<RowModel>,
    prefix: Option<Seq<char>>,
    catalog: Option<CatalogModel>,
    i: int,
)
    requires
        0 <= i < neighborhood(origin, rows, prefix, catalog).1.len(),
    ensures
        ({
            let (nodes, edges) = neighborhood(origin, rows, prefix, catalog);
            &&& nodes[0] == origin
            &&& edges[i].from == origin.id || edges[i].to == origin.id
            &&& export::has_node(nodes, edges[i].from)
            &&& export::has_node(nodes, edges[i].to)
        }),
    decreases rows.len(),
{
    let (nodes, edges) = neighborhood(origin, rows, prefix, catalog);
    let (nodes0, edges0) = neighborhood(origin, rows.drop_last(), prefix, catalog);
    origin_leads(origin, rows, prefix, catalog);
    assert(export::has_node(nodes, origin.id)) by {
        assert(nodes[0].id == origin.id);
    }
    if i < edges0.len() {
        law_hop_edges_meet_the_origin(origin, rows.drop_last(), prefix, catalog, i);
        grown_nodes(nodes0, nodes, edges[i].from);
        grown_nodes(nodes0, nodes, edges[i].to);
    } else {
        let n = node_in(rows.last(), prefix, catalog)->0;
        assert(export::has_node(nodes, n.id)) by {
            if export::has_node(nodes0, n.id) {
            } else {
                assert(nodes[nodes.len() - 1].id == n.id);
            }
        }
    }
}

proof fn grown_nodes(small: Seq<NodeViewModel>, large: Seq<NodeViewModel>, id: Seq<char>)
    requires
        export::has_node(small, id),
        small.len() <= large.len(),
        forall|k: int| 0 <= k < small.len() ==> #[trigger] large[k] == small[k],
    ensures
        export::has_node(large, id),
{
    let k = choose|k: int| 0 <= k < small.len() && (#[trigger] small[k]).id == id;
    assert(large[k].id == id);
}

/// The names with one more, unless it is there or a system property.
pub open spec fn add_name(names: Seq<Seq<char>>, name: Seq<char>) -> Seq<Seq<char>> {
    if classify::is_system(name) || names.contains(name) {
        names
    } else {
        names.push(name)
    }
}

/// The columns to show, with those of the text properties, six at most.
pub open spec fn columns_with(columns: Seq<Seq<char>>, props: Seq<PropertyModel>) -> Seq<Seq<char>>
    decreases props.len(),
{
    if props.len() == 0 {
        columns
    } else {
        let before = columns_with(columns, props.drop_last());
        if before.len() < 6 && props.last().ty == PropertyType::String {
            add_name(before, props.last().name)
        } else {
            before
        }
    }
}

/// The kind of nodes of a label.
pub open spec fn kind_named(kinds: Seq<NodeKindModel>, label: Seq<char>) -> Option<NodeKindModel> {
    seqs::first_where(kinds, |k: NodeKindModel| k.label == label)
}

/// The columns to show for a type: id and name, then the text properties that the
/// schema knows.
pub open spec fn key_columns(schema: Option<GraphSchemaModel>, entity_type: Seq<char>) -> Seq<
    Seq<char>,
> {
    let base = seq!["id"@, "name"@];
    match schema {
        Some(s) => match kind_named(s.nodes, entity_type) {
            Some(k) => columns_with(base, k.properties),
            None => base,
        },
        None => base,
    }
}

/// The names with those of the text properties.
pub open spec fn text_names(names: Seq<Seq<char>>, props: Seq<PropertyModel>) -> Seq<Seq<char>>
    decreases props.len(),
{
    if props.len() == 0 {
        names
    } else {
        let before = text_names(names, props.drop_last());
        if props.last().ty == PropertyType::String {
            add_name(before, props.last().name)
        } else {
            before
        }
    }
}

/// The properties that a keyword search looks into, over the kinds of a schema.
pub open spec fn searchable(kinds: Seq<NodeKindModel>, entity_type: Option<Seq<char>>) -> Seq<
    Seq<char>,
>
    decreases kinds.len(),
{
    if kinds.len() == 0 {
        seq!["id"@, "name"@, "title"@]
    } else {
        let before = searchable(kinds.drop_last(), entity_type);
        if entity_type is Some && entity_type->0 != kinds.last().label {
            before
        } else {
            text_names(before, kinds.last().properties)
        }
    }
}

/// The count in the first row.
pub open spec fn total_in(rows: Seq<RowModel>) -> u64 {
    if rows.len() == 0 {
        0
    } else {
        match db::int_cell(db::cell(rows[0], "total"@)) {
            Some(n) => if n < 0 {
                0
            } else {
                n as u64
            },
            None => 0,
        }
    }
}

/// The hits of a keyword search.
pub open spec fn keyword_hits_of(nodes: Seq<NodeViewModel>) -> Seq<SearchHitModel> {
    Seq::new(
        nodes.len(),
        |i: int|
            SearchHitModel { node: nodes[i], score: None, channel: SearchChannel::Keyword },
    )
}

/// The greater of two scores; one that is not a number gives way to the other.
pub open spec fn higher(a: u64, b: u64) -> u64 {
    if embeddings::is_wide_nan(b) || embeddings::wide_at_least(a, b) {
        a
    } else {
        b
    }
}

/// The best scores with one more: the higher one where the node has one.
pub open spec fn best_with(s: Seq<(i64, u64)>, nid: i64, score: u64) -> Seq<(i64, u64)>
    decreases s.len(),
{
    if s.len() == 0 {
        seq![(nid, score)]
    } else if s[0].0 == nid {
        seq![(nid, higher(s[0].1, score))] + s.drop_first()
    } else {
        seq![s[0]] + best_with(s.drop_first(), nid, score)
    }
}

/// The best score of each node, in the order of their first mention. A row
/// without a node is passed over; a missing score is zero.
pub open spec fn best_scores_of(rows: Seq<(Option<i64>, Option<u64>)>) -> Seq<(i64, u64)>
    decreases rows.len(),
{
    if rows.len() == 0 {
        Seq::empty()
    } else {
        let before = best_scores_of(rows.drop_last());
        let (nid, score) = rows.last();
        match nid {
            Some(n) => best_with(
                before,
                n,
                match score {
                    Some(s) => s,
                    None => 0,
                },
            ),
            None => before,
        }
    }
}

/// Higher scores first. What is not a number counts as equal to every score.
pub open spec fn score_order() -> spec_fn((i64, u64), (i64, u64)) -> bool {
    |a: (i64, u64), b: (i64, u64)| !embeddings::wide_less(a.1, b.1)
}

/// The nodes with the highest scores, `limit` at most.
pub open spec fn ranked_scores(rows: Seq<(Option<i64>, Option<u64>)>, limit: nat) -> Seq<
    (i64, u64),
> {
    store::first_items(sorting::sorted_by(best_scores_of(rows), score_order()), limit)
}

/// Where the best scores are numbers, the ranked ones descend.
pub proof fn law_ranked_scores_descend(rows: Seq<(Option<i64>, Option<u64>)>, limit: nat)
    requires
        forall|i: int|
            0 <= i < best_scores_of(rows).len() ==> !embeddings::is_wide_nan(
                (#[trigger] best_scores_of(rows)[i]).1,
            ),
    ensures
        forall|i: int, j: int|
            0 <= i < j < ranked_scores(rows, limit).len() ==> embeddings::wide_rank(
                (#[trigger] ranked_scores(rows, limit)[i]).1,
            ) >= embeddings::wide_rank((#[trigger] ranked_scores(rows, limit)[j]).1),
{
    let best = best_scores_of(rows);
    let sorted = sorting::sorted_by(best, score_order());
    let ranked = ranked_scores(rows, limit);
    let by_rank = |a: (i64, u64), b: (i64, u64)|
        embeddings::wide_rank(a.1) >= embeddings::wide_rank(b.1);
    assert forall|a: (i64, u64)| #[trigger] best.contains(a) implies !embeddings::is_wide_nan(
        a.1,
    ) by {
        let i = choose|i: int| 0 <= i < best.len() && best[i] == a;
        assert(!embeddings::is_wide_nan(best[i].1));
    }
    sorting::law_sorted_where_sound(best, score_order(), by_rank);
    assert forall|i: int, j: int| 0 <= i < j < ranked.len() implies embeddings::wide_rank(
        (#[trigger] ranked[i]).1,
    ) >= embeddings::wide_rank((#[trigger] ranked[j]).1) by {
        assert(ranked[i] == sorted[i] && ranked[j] == sorted[j]);
        assert(score_order()(sorted[i], sorted[j]));
        sorting::sorting_adds_none(best, score_order(), sorted[i]);
        sorting::sorting_adds_none(best, score_order(), sorted[j]);
    }
}

/// The node of an internal id: the last row that holds it.
pub open spec fn node_for(
    rows: Seq<RowModel>,
    nid: i64,
    prefix: Option<Seq<char>>,
    catalog: Option<CatalogModel>,
) -> Option<NodeViewModel>
    decreases rows.len(),
{
    if rows.len() == 0 {
        None
    } else if db::int_cell(db::cell(rows.last(), "nid"@)) == Some(nid) && node_in(
        rows.last(),
        prefix,
        catalog,
    ) is Some {
        node_in(rows.last(), prefix, catalog)
    } else {
        node_for(rows.drop_last(), nid, prefix, catalog)
    }
}

/// The hits of a semantic search: the scored nodes that the rows hold.
pub open spec fn semantic_hits_of(
    scored: Seq<(i64, u64)>,
    rows: Seq<RowModel>,
    prefix: Option<Seq<char>>,
    catalog: Option<CatalogModel>,
) -> Seq<SearchHitModel>
    decreases scored.len(),
{
    if scored.len() == 0 {
        Seq::empty()
    } else {
        let before = semantic_hits_of(scored.drop_last(), rows, prefix, catalog);
        match node_for(rows, scored.last().0, prefix, catalog) {
            Some(node) => before.push(
                SearchHitModel {
                    node,
                    score: Some(scored.last().1),
                    channel: SearchChannel::Semantic,
                },
            ),
            None => before,
        }
    }
}

/// How a search is run.
#[derive(Debug, Clone, Copy, PartialEq, Eq, Structural)]
pub enum SearchPlan {
    Keyword,
    Semantic,
    /// Semantic first; keyword where that fails or finds nothing.
    SemanticElseKeyword,
}

/// How a search of a mode is run.
pub open spec fn plan_of(mode: SearchMode, embedder: bool) -> SearchPlan {
    match mode {
        SearchMode::Keyword => SearchPlan::Keyword,
        SearchMode::Semantic => SearchPlan::Semantic,
        SearchMode::Auto => if embedder {
            SearchPlan::SemanticElseKeyword
        } else {
            SearchPlan::Keyword
        },
    }
}

/// How a search of a mode is run.
pub fn plan_search(mode: SearchMode, embedder: bool) -> (r: SearchPlan)
    ensures
        r == plan_of(mode, embedder),
{
    match mode {
        SearchMode::Keyword => SearchPlan::Keyword,
        SearchMode::Semantic => SearchPlan::Semantic,
        SearchMode::Auto => if embedder {
            SearchPlan::SemanticElseKeyword
        } else {
            SearchPlan::Keyword
        },
    }
}

/// Is the keyword search run once the semantic one found so many hits, or
/// failed?
pub fn falls_back(plan: SearchPlan, found: Option<usize>) -> (r: bool)
    ensures
        r == (plan == SearchPlan::SemanticElseKeyword && (found is None || found == Some(0usize))),
{
    match plan {
        SearchPlan::SemanticElseKeyword => match found {
            None => true,
            Some(n) => n == 0,
        },
        _ => false,
    }
}

/// The handles that hold beyond the session.
pub open spec fn lasting_ids(nodes: Seq<NodeViewModel>) -> Seq<Seq<char>>
    decreases nodes.len(),
{
    if nodes.len() == 0 {
        Seq::empty()
    } else if nodes.last().ephemeral_handle {
        lasting_ids(nodes.drop_last())
    } else {
        lasting_ids(nodes.drop_last()).push(nodes.last().id)
    }
}

/// The query that is run for a question: widened by hidden ids where entities
/// are wanted and the query returns them.
pub open spec fn executed(q: DslQueryModel, opts: AskOptions) -> DslQueryModel {
    if opts.include_subgraph || opts.include_entity_refs {
        match subgraph::injected(q) {
            Some(wide) => wide,
            None => q,
        }
    } else {
        q
    }
}

/// The table of an answer.
pub open spec fn answer_table_of(
    result: QueryResultModel,
    q: DslQueryModel,
    distinct: bool,
    opts: AskOptions,
) -> TableSliceModel {
    let t = subgraph::table_of(result, distinct, opts.max_rows);
    if opts.include_subgraph || opts.include_entity_refs {
        TableSliceModel { entity_columns: subgraph::columns_of(q.return_), ..t }
    } else {
        t
    }
}

/// The entities of ids with the edges among them.
pub open spec fn materialized(
    e: ExplorerModel,
    ids: Seq<Seq<char>>,
    truncated: bool,
    nodes: Seq<RowModel>,
    edges: Seq<RowModel>,
) -> SubgraphModel {
    if ids.len() == 0 {
        dto::empty_subgraph()
    } else {
        SubgraphModel {
            nodes: nodes_in(nodes, e.prefix, e.catalog),
            edges: subgraph::edges_in(edges),
            truncated: truncated || edges.len() >= e.limits.max_subgraph_edges,
        }
    }
}

fn score_before(a: &(i64, u64), b: &(i64, u64)) -> (r: bool)
    ensures
        r == score_order()(a.deep_view(), b.deep_view()),
{
    !embeddings::double_less(a.1, b.1)
}

fn push_name(names: &mut Vec<String>, name: &str)
    ensures
        final(names).deep_view() == add_name(old(names).deep_view(), name@),
{
    if !classify::is_system_property(name) && !seqs::contains_text(names, name) {
        seqs::push_item(names, name.to_owned());
    }
}

fn push_node(nodes: &mut Vec<NodeView>, n: NodeView)
    ensures
        final(nodes).deep_view() == add_node(old(nodes).deep_view(), n.deep_view()),
{
    if !export::node_present(nodes, n.id.as_str()) {
        seqs::push_item(nodes, n);
    }
}

fn find_kind<'a>(kinds: &'a Vec<NodeKind>, label: &str) -> (r: Option<&'a NodeKind>)
    ensures
        r.deep_view() == kind_named(kinds.deep_view(), label@),
{
    let ghost all = kinds.deep_view();
    let ghost p = |k: NodeKindModel| k.label == label@;
    let mut i: usize = 0;
    while i < kinds.len()
        invariant
            all == kinds.deep_view(),
            p == (|k: NodeKindModel| k.label == label@),
            0 <= i <= kinds@.len(),
            forall|j: int| 0 <= j < i ==> !p(#[trigger] all[j]),
        decreases kinds@.len() - i,
    {
        assert(all[i as int] == kinds@[i as int].deep_view());
        if text::text_eq(kinds[i].label.as_str(), label) {
            proof {
                seqs::first_where_at(all, p, i as int);
            }
            return Some(&kinds[i]);
        }
        i += 1;
    }
    proof {
        seqs::first_where_none(all, p);
    }
    None
}

/// The description of a label in a schema.
pub open spec fn described(kinds: Seq<NodeKindModel>, label: Seq<char>) -> Option<Seq<char>> {
    match kind_named(kinds, label) {
        Some(k) => k.description,
        None => None,
    }
}

/// The description of a label in a schema.
pub fn description_of(kinds: &Vec<NodeKind>, label: &str) -> (r: Option<String>)
    ensures
        r.deep_view() == described(kinds.deep_view(), label@),
{
    match find_kind(kinds, label) {
        Some(k) => k.description.copied(),
        None => None,
    }
}

fn put_best(s: &mut Vec<(i64, u64)>, nid: i64, score: u64)
    ensures
        final(s)@ == best_with(old(s)@, nid, score),
{
    let ghost all = s@;
    let mut i: usize = 0;
    while i < s.len()
        invariant
            all == s@,
            all == old(s)@,
            0 <= i <= s@.len(),
            forall|j: int| 0 <= j < i ==> (#[trigger] all[j]).0 != nid,
        decreases s@.len() - i,
    {
        if s[i].0 == nid {
            let held = s[i].1;
            let best = if !embeddings::double_at_least(score, score)
                || embeddings::double_at_least(held, score) {
                held
            } else {
                score
            };
            s.set(i, (nid, best));
            proof {
                best_with_at(all, nid, score, i as int);
            }
            return;
        }
        i += 1;
    }
    s.push((nid, score));
    proof {
        best_with_at(all, nid, score, all.len() as int);
    }
}

proof fn best_with_at(s: Seq<(i64, u64)>, nid: i64, score: u64, i: int)
    requires
        0 <= i <= s.len(),
        forall|j: int| 0 <= j < i ==> (#[trigger] s[j]).0 != nid,
        i < s.len() ==> s[i].0 == nid,
    ensures
        best_with(s, nid, score) == (if i < s.len() {
            s.update(i, (nid, higher(s[i].1, score)))
        } else {
            s.push((nid, score))
        }),
    decreases i,
{
    let t = best_with(s, nid, score);
    if i == 0 {
        if s.len() > 0 {
            assert(t =~= s.update(0, (nid, higher(s[0].1, score))));
        } else {
            assert(t =~= s.push((nid, score)));
        }
    } else {
        let rest = s.drop_first();
        assert(s[0].0 != nid);
        assert forall|j: int| 0 <= j < i - 1 implies (#[trigger] rest[j]).0 != nid by {
            assert(s[j + 1].0 != nid);
        }
        best_with_at(rest, nid, score, i - 1);
        if i < s.len() {
            assert(t =~= s.update(i, (nid, higher(s[i].1, score))));
        } else {
            assert(t =~= s.push((nid, score)));
        }
    }
}

/// The nodes of rows with the bits of their scores.
pub open spec fn score_rows_of(rows: Seq<RowModel>) -> Seq<(Option<i64>, Option<u64>)> {
    Seq::new(
        rows.len(),
        |i: int|
            (
                db::int_cell(db::cell(rows[i], "nid"@)),
                db::float_cell(db::cell(rows[i], "score"@)),
            ),
    )
}

/// The nodes of rows with the bits of their scores.
pub fn score_rows(result: &QueryResult) -> (r: Vec<(Option<i64>, Option<u64>)>)
    ensures
        r@ == score_rows_of(result.deep_view().rows),
{
    let ghost want = score_rows_of(result.deep_view().rows);
    let mut out: Vec<(Option<i64>, Option<u64>)> = Vec::new();
    let mut i: usize = 0;
    while i < result.rows.len()
        invariant
            0 <= i <= result.rows@.len(),
            want == score_rows_of(result.deep_view().rows),
            out@ == want.take(i as int),
        decreases result.rows@.len() - i,
    {
        let row = &result.rows[i];
        assert(result.deep_view().rows[i as int] == row.deep_view());
        out.push((db::int_field(row, "nid"), db::float_field(row, "score")));
        assert(out@ =~= want.take(i + 1));
        i += 1;
    }
    assert(want.take(i as int) =~= want);
    out
}

/// The nodes with the highest scores, `limit` at most. Rows give a node and the
/// bits of its score.
pub fn rank_scores(rows: &Vec<(Option<i64>, Option<u64>)>, limit: u32) -> (r: Vec<(i64, u64)>)
    ensures
        r@ == ranked_scores(rows@, limit as nat),
{
    let mut best: Vec<(i64, u64)> = Vec::new();
    let mut i: usize = 0;
    while i < rows.len()
        invariant
            0 <= i <= rows@.len(),
            best@ == best_scores_of(rows@.take(i as int)),
        decreases rows@.len() - i,
    {
        assert(rows@.take(i + 1).drop_last() =~= rows@.take(i as int));
        if let Some(nid) = rows[i].0 {
            let score = match rows[i].1 {
                Some(s) => s,
                None => 0,
            };
            put_best(&mut best, nid, score);
        }
        i += 1;
    }
    assert(rows@.take(i as int) =~= rows@);
    assert(best.deep_view() =~= best@);
    sorting::sort_items(&mut best, score_before, Ghost(score_order()));
    assert(best.deep_view() =~= best@);
    let ghost sorted = best@;
    if best.len() as u64 > limit as u64 {
        best.truncate(limit as usize);
        assert(best@ =~= sorted.take(limit as int));
    }
    best
}

impl Explorer {
    /// An explorer with the usual caps.
    pub fn new(prefix: Option<String>, catalog: Option<OntologyCatalog>) -> (r: Self)
        ensures
            r.deep_view().prefix == prefix.deep_view(),
            r.deep_view().catalog == catalog.deep_view(),
            r.limits.default_page == 50,
            r.limits.max_subgraph_nodes == 100,
            r.limits.max_subgraph_edges == 500,
            r.limits.max_sources == 200,
    {
        Explorer { prefix, catalog, limits: ExplorerLimits::default() }
    }

    /// The explorer with other caps.
    pub fn with_limits(self, limits: ExplorerLimits) -> (r: Self)
        ensures
            r.deep_view() == (ExplorerModel { limits, ..self.deep_view() }),
    {
        Explorer { prefix: self.prefix, catalog: self.catalog, limits }
    }

    /// The prefix label.
    pub fn prefix(&self) -> (r: Option<&str>)
        ensures
            r.deep_view() == self.deep_view().prefix,
    {
        seqs::as_deref(&self.prefix)
    }

    /// The ontology.
    pub fn catalog(&self) -> (r: Option<&OntologyCatalog>)
        ensures
            r.deep_view() == self.deep_view().catalog,
    {
        match &self.catalog {
            Some(c) => Some(c),
            None => None,
        }
    }

    /// The page size: what is asked for, or the default, and never zero.
    pub fn page_limit(&self, requested: Option<u32>) -> (r: u32)
        ensures
            r == page_size(self.limits, requested),
    {
        let n = match requested {
            Some(n) => n,
            None => self.limits.default_page,
        };
        if n == 0 {
            1
        } else {
            n
        }
    }

    /// The next step of a lookup, after the replies so far.
    pub fn lookup_step(&self, id: &str, replies: &Vec<QueryResult>) -> (r: Result<
        LookupStep,
        ExploreError,
    >)
        ensures
            (match r {
                Ok(s) => Ok::<LookupStepModel, ExploreErrorModel>(s.deep_view()),
                Err(e) => Err::<LookupStepModel, ExploreErrorModel>(e.deep_view()),
            }) == lookup(id@, self.deep_view().prefix, replies.deep_view()),
    {
        let handle = NodeHandle::parse(id);
        if replies.len() == 0 {
            return match queries::entity_by_id(&handle, self.prefix()) {
                Ok(q) => Ok(LookupStep::Ask(q)),
                Err(e) => Err(e),
            };
        }
        assert(replies.deep_view()[0] == replies@[0].deep_view());
        if replies[0].rows.len() > 0 {
            return Ok(LookupStep::Found { handle, reply: 0 });
        }
        match handle.internal_id_fallback() {
            None => Ok(LookupStep::Missing),
            Some(fallback) => {
                if replies.len() == 1 {
                    return match queries::entity_by_id(&fallback, self.prefix()) {
                        Ok(q) => Ok(LookupStep::Ask(q)),
                        Err(e) => Err(e),
                    };
                }
                assert(replies.deep_view()[1] == replies@[1].deep_view());
                if replies[1].rows.len() > 0 {
                    Ok(LookupStep::Found { handle: fallback, reply: 1 })
                } else {
                    Ok(LookupStep::Missing)
                }
            },
        }
    }

    /// The node in a row of internal id, id, labels and properties; nothing in a
    /// row without an id of either kind.
    pub fn node_view_from_row(&self, row: &Row) -> (r: Option<NodeView>)
        ensures
            r.deep_view() == node_in(
                row.deep_view(),
                self.deep_view().prefix,
                self.deep_view().catalog,
            ),
    {
        let labels = db::string_list_field(row, "labels");
        let props = db::json_object_field(row, "props");
        let (id, ephemeral_handle) = match db::id_string_field(row, "id") {
            Some(id) => (id, false),
            None => match db::int_field(row, "nid") {
                Some(nid) => {
                    let mut id = NID_HANDLE_PREFIX.to_owned();
                    id.append(text::i64_text(nid).as_str());
                    (id, true)
                },
                None => return None,
            },
        };
        let all_labels = labels.as_slice();
        assert(all_labels.deep_view() =~= labels.deep_view());
        let entity_type = classify::primary_label(all_labels, self.prefix(), self.catalog());
        let name = classify::display_name(&props, id.as_str());
        let confidence = classify::confidence(&props);
        let properties = classify::classify_properties(
            entity_type.as_str(),
            props,
            self.catalog(),
        );
        Some(NodeView { id, name, entity_type, labels, properties, confidence, ephemeral_handle })
    }

    /// The nodes in rows.
    pub fn node_views(&self, rows: &Vec<Row>) -> (r: Vec<NodeView>)
        ensures
            r.deep_view() == nodes_in(
                rows.deep_view(),
                self.deep_view().prefix,
                self.deep_view().catalog,
            ),
    {
        let ghost all = rows.deep_view();
        let ghost e = self.deep_view();
        let mut out: Vec<NodeView> = seqs::no_items();
        let mut i: usize = 0;
        while i < rows.len()
            invariant
                all == rows.deep_view(),
                e == self.deep_view(),
                0 <= i <= rows@.len(),
                out.deep_view() == nodes_in(all.take(i as int), e.prefix, e.catalog),
            decreases rows@.len() - i,
        {
            proof {
                assert(all.take(i + 1).drop_last() =~= all.take(i as int));
                assert(all.take(i + 1).last() == rows@[i as int].deep_view());
            }
            if let Some(n) = self.node_view_from_row(&rows[i]) {
                seqs::push_item(&mut out, n);
            }
            i += 1;
        }
        assert(all.take(i as int) =~= all);
        out
    }

    /// The card of the entity in a row, with the relations that were counted.
    pub fn entity(&self, row: &Row, relations: &QueryResult) -> (r: Option<EntityCard>)
        requires
            node_in(row.deep_view(), self.deep_view().prefix, self.deep_view().catalog) is Some
                ==> summary::summaries_fit(
                relations.deep_view().rows,
                self.deep_view().prefix,
                self.deep_view().catalog,
            ),
        ensures
            r.deep_view() == card_of(
                self.deep_view(),
                row.deep_view(),
                relations.deep_view().rows,
            ),
    {
        let node = match self.node_view_from_row(row) {
            Some(n) => n,
            None => return None,
        };
        let sources = subgraph::parse_source_refs(row.fields.get("sources"));
        let relations = summary::reduce_relation_summary(
            relations,
            self.prefix(),
            self.catalog(),
        );
        Some(EntityCard { node, sources, relations })
    }

    /// The query for the neighbours of a handle.
    pub fn neighbors_query(&self, handle: &NodeHandle, opts: &NeighborOptions) -> (r: Result<
        CypherQuery,
        ExploreError,
    >)
        ensures
            queries::query_model(r) == queries::neighbors_query(
                NeighborQueryModel {
                    handle: handle.deep_view(),
                    edge_types: opts.deep_view().edge_types,
                    target_labels: opts.deep_view().target_labels,
                    direction: opts.direction,
                    limit: page_size(self.limits, opts.limit),
                    offset: opts.offset,
                },
                self.deep_view().prefix,
            ),
    {
        let edge_types = match &opts.edge_types {
            Some(v) => {
                let types = v.as_slice();
                assert(types.deep_view() =~= v.deep_view());
                Some(types)
            },
            None => None,
        };
        let target_labels = match &opts.target_labels {
            Some(v) => {
                let labels = v.as_slice();
                assert(labels.deep_view() =~= v.deep_view());
                Some(labels)
            },
            None => None,
        };
        let q = NeighborQuery {
            handle,
            edge_types,
            target_labels,
            direction: opts.direction,
            limit: self.page_limit(opts.limit),
            offset: opts.offset,
        };
        queries::neighbors(&q, self.prefix())
    }

    /// One hop from the entity in a row: itself, its neighbours and the edges
    /// between them. A full page may not be all.
    pub fn neighbors(&self, id: &str, origin_row: &Row, result: &QueryResult, limit: u32) -> (r:
        Result<Subgraph, ExploreError>)
        ensures
            (match r {
                Ok(s) => Ok::<SubgraphModel, ExploreErrorModel>(s.deep_view()),
                Err(e) => Err::<SubgraphModel, ExploreErrorModel>(e.deep_view()),
            }) == hop(
                self.deep_view(),
                id@,
                origin_row.deep_view(),
                result.deep_view().rows,
                limit,
            ),
    {
        let origin = match self.node_view_from_row(origin_row) {
            Some(n) => n,
            None => return Err(ExploreError::UnknownEntity(id.to_owned())),
        };
        let ghost o = origin.deep_view();
        let ghost e = self.deep_view();
        let ghost all = result.rows.deep_view();
        let mut nodes: Vec<NodeView> = seqs::no_items();
        seqs::push_item(&mut nodes, origin.copied());
        assert(nodes.deep_view() =~= seq![o]);
        let mut edges: Vec<EdgeView> = seqs::no_items();
        let mut i: usize = 0;
        while i < result.rows.len()
            invariant
                o == origin.deep_view(),
                e == self.deep_view(),
                all == result.rows.deep_view(),
                0 <= i <= result.rows@.len(),
                neighborhood(o, all.take(i as int), e.prefix, e.catalog) == (
                    nodes.deep_view(),
                    edges.deep_view(),
                ),
            decreases result.rows@.len() - i,
        {
            proof {
                assert(all.take(i + 1).drop_last() =~= all.take(i as int));
                assert(all.take(i + 1).last() == result.rows@[i as int].deep_view());
            }
            let row = &result.rows[i];
            if let Some(neighbor) = self.node_view_from_row(row) {
                let edge_type = match db::string_field(row, "rel") {
                    Some(s) => s,
                    None => String::new(),
                };
                let outgoing = match db::bool_field(row, "outgoing") {
                    Some(b) => b,
                    None => false,
                };
                let properties = db::json_object_field(row, "rel_props");
                let edge = if outgoing {
                    subgraph::make_edge(
                        origin.id.clone(),
                        edge_type,
                        neighbor.id.clone(),
                        properties,
                    )
                } else {
                    subgraph::make_edge(
                        neighbor.id.clone(),
                        edge_type,
                        origin.id.clone(),
                        properties,
                    )
                };
                push_node(&mut nodes, neighbor);
                subgraph::push_edge(&mut edges, edge);
            }
            i += 1;
        }
        assert(all.take(i as int) =~= all);
        let truncated = result.rows.len() as u64 >= limit as u64;
        Ok(Subgraph { nodes, edges, truncated })
    }

    /// The columns to show for a type.
    pub fn key_columns_for(&self, schema: Option<&GraphSchema>, entity_type: &str) -> (r: Vec<
        String,
    >)
        ensures
            r.deep_view() == key_columns(schema.deep_view(), entity_type@),
    {
        let mut columns: Vec<String> = seqs::no_items();
        seqs::push_item(&mut columns, "id".to_owned());
        seqs::push_item(&mut columns, "name".to_owned());
        assert(columns.deep_view() =~= seq!["id"@, "name"@]);
        let ghost base = columns.deep_view();
        if let Some(s) = schema {
            if let Some(kind) = find_kind(&s.nodes, entity_type) {
                let ghost props = kind.properties.deep_view();
                let mut i: usize = 0;
                while i < kind.properties.len()
                    invariant
                        props == kind.properties.deep_view(),
                        0 <= i <= kind.properties@.len(),
                        columns.deep_view() == columns_with(base, props.take(i as int)),
                    decreases kind.properties@.len() - i,
                {
                    proof {
                        assert(props.take(i + 1).drop_last() =~= props.take(i as int));
                        assert(props.take(i + 1).last() == kind.properties@[i as int].deep_view());
                        assert(columns@.len() == columns.deep_view().len());
                    }
                    if columns.len() < 6 && kind.properties[i].ty == PropertyType::String {
                        push_name(&mut columns, kind.properties[i].name.as_str());
                    }
                    i += 1;
                }
                assert(props.take(i as int) =~= props);
            }
        }
        columns
    }

    /// The table of a page of entities.
    pub fn entities_of_type(
        &self,
        entity_type: &str,
        page: &PageOptions,
        schema: Option<&GraphSchema>,
        result: &QueryResult,
        count: &QueryResult,
    ) -> (r: EntityTable)
        ensures
            r.deep_view() == (EntityTableModel {
                entity_type: entity_type@,
                key_columns: key_columns(schema.deep_view(), entity_type@),
                rows: nodes_in(
                    result.deep_view().rows,
                    self.deep_view().prefix,
                    self.deep_view().catalog,
                ),
                total: total_in(count.deep_view().rows),
                offset: page.offset,
            }),
    {
        let rows = self.node_views(&result.rows);
        let total = if count.rows.len() == 0 {
            0
        } else {
            assert(count.rows.deep_view()[0] == count.rows@[0].deep_view());
            match db::int_field(&count.rows[0], "total") {
                Some(n) => if n < 0 {
                    0
                } else {
                    n as u64
                },
                None => 0,
            }
        };
        EntityTable {
            entity_type: entity_type.to_owned(),
            key_columns: self.key_columns_for(schema, entity_type),
            rows,
            total,
            offset: page.offset,
        }
    }

    /// The query for a page of entities, by name unless another property is
    /// asked for.
    pub fn table_query(&self, entity_type: &str, page: &PageOptions) -> (r: Result<
        CypherQuery,
        ExploreError,
    >)
        ensures
            queries::query_model(r) == queries::table_page_query(
                entity_type@,
                match page.deep_view().sort_by {
                    Some(s) => s,
                    None => "name"@,
                },
                page_size(self.limits, page.limit) as nat,
                page.offset as nat,
                self.deep_view().prefix,
            ),
    {
        let sort_by = match &page.sort_by {
            Some(s) => s.as_str(),
            None => "name",
        };
        queries::entity_table_page(
            entity_type,
            sort_by,
            self.page_limit(page.limit),
            page.offset,
            self.prefix(),
        )
    }

    /// The properties that a keyword search looks into: text properties only,
    /// since nothing else can be searched.
    pub fn searchable_string_props(&self, schema: &GraphSchema, entity_type: Option<&str>) -> (r:
        Vec<String>)
        ensures
            r.deep_view() == searchable(schema.deep_view().nodes, entity_type.deep_view()),
    {
        let ghost kinds = schema.nodes.deep_view();
        let mut props: Vec<String> = seqs::no_items();
        seqs::push_item(&mut props, "id".to_owned());
        seqs::push_item(&mut props, "name".to_owned());
        seqs::push_item(&mut props, "title".to_owned());
        assert(props.deep_view() =~= seq!["id"@, "name"@, "title"@]);
        let mut i: usize = 0;
        while i < schema.nodes.len()
            invariant
                kinds == schema.nodes.deep_view(),
                0 <= i <= schema.nodes@.len(),
                props.deep_view() == searchable(kinds.take(i as int), entity_type.deep_view()),
            decreases schema.nodes@.len() - i,
        {
            proof {
                assert(kinds.take(i + 1).drop_last() =~= kinds.take(i as int));
                assert(kinds.take(i + 1).last() == schema.nodes@[i as int].deep_view());
            }
            let kind = &schema.nodes[i];
            let wanted = match entity_type {
                Some(t) => text::text_eq(t, kind.label.as_str()),
                None => true,
            };
            if wanted {
                let ghost before = props.deep_view();
                let ghost found = kind.properties.deep_view();
                let mut k: usize = 0;
                while k < kind.properties.len()
                    invariant
                        found == kind.properties.deep_view(),
                        0 <= k <= kind.properties@.len(),
                        props.deep_view() == text_names(before, found.take(k as int)),
                    decreases kind.properties@.len() - k,
                {
                    proof {
                        assert(found.take(k + 1).drop_last() =~= found.take(k as int));
                        assert(found.take(k + 1).last() == kind.properties@[k as int].deep_view());
                    }
                    if kind.properties[k].ty == PropertyType::String {
                        push_name(&mut props, kind.properties[k].name.as_str());
                    }
                    k += 1;
                }
                assert(found.take(k as int) =~= found);
            }
            i += 1;
        }
        assert(kinds.take(i as int) =~= kinds);
        props
    }

    /// The hits of a keyword search.
    pub fn keyword_hits(&self, result: &QueryResult) -> (r: SearchResult)
        ensures
            r.deep_view() == (SearchResultModel {
                hits: keyword_hits_of(
                    nodes_in(
                        result.deep_view().rows,
                        self.deep_view().prefix,
                        self.deep_view().catalog,
                    ),
                ),
                related_types: Seq::empty(),
            }),
    {
        let mut nodes = self.node_views(&result.rows);
        let ghost all = nodes.deep_view();
        let ghost want = keyword_hits_of(all);
        let mut hits: Vec<SearchHit> = seqs::no_items();
        let ghost mut k: int = 0;
        while nodes.len() > 0
            invariant
                0 <= k <= all.len(),
                want == keyword_hits_of(all),
                nodes.deep_view() == all.skip(k),
                hits.deep_view() == want.take(k),
            decreases nodes@.len(),
        {
            let ghost left = nodes.deep_view();
            proof {
                assert(left.len() == nodes@.len());
                assert(left[0] == all[k]);
            }
            let node = nodes.remove(0);
            assert(nodes.deep_view() =~= left.remove(0));
            seqs::push_item(
                &mut hits,
                SearchHit { node, score: None, channel: SearchChannel::Keyword },
            );
            proof {
                k = k + 1;
                assert(nodes.deep_view() =~= all.skip(k));
                assert(hits.deep_view() =~= want.take(k));
            }
        }
        proof {
            assert(nodes.deep_view().len() == nodes@.len());
            assert(hits.deep_view() =~= want);
        }
        let related_types: Vec<TypeCount> = seqs::no_items();
        SearchResult { hits, related_types }
    }

    fn node_of_nid(&self, rows: &Vec<Row>, nid: i64) -> (r: Option<NodeView>)
        ensures
            r.deep_view() == node_for(
                rows.deep_view(),
                nid,
                self.deep_view().prefix,
                self.deep_view().catalog,
            ),
    {
        let ghost all = rows.deep_view();
        let ghost e = self.deep_view();
        let mut i: usize = rows.len();
        assert(all.take(i as int) =~= all);
        while i > 0
            invariant
                all == rows.deep_view(),
                e == self.deep_view(),
                0 <= i <= rows@.len(),
                node_for(all, nid, e.prefix, e.catalog) == node_for(
                    all.take(i as int),
                    nid,
                    e.prefix,
                    e.catalog,
                ),
            decreases i,
        {
            i -= 1;
            proof {
                assert(all.take(i + 1).drop_last() =~= all.take(i as int));
                assert(all.take(i + 1).last() == rows@[i as int].deep_view());
            }
            let held = match db::int_field(&rows[i], "nid") {
                Some(n) => n == nid,
                None => false,
            };
            if held {
                if let Some(node) = self.node_view_from_row(&rows[i]) {
                    return Some(node);
                }
            }
        }
        None
    }

    /// A query under the prefixes that it has to run with, whatever it says itself.
    pub fn scoped_query(&self, q: DslQuery, label: Option<String>, index: Option<String>) -> (r:
        DslQuery)
        ensures
            r.deep_view() == dsl::prefixed_query(
                q.deep_view(),
                label.deep_view(),
                index.deep_view(),
            ),
    {
        DslQuery { prefix_label: label, prefix_index: index, ..q }
    }

    /// The hits of a semantic search, from the ranked nodes and their rows.
    pub fn semantic_hits(&self, scored: &Vec<(i64, u64)>, hydrated: &QueryResult) -> (r:
        SearchResult)
        ensures
            r.deep_view() == (SearchResultModel {
                hits: semantic_hits_of(
                    scored@,
                    hydrated.deep_view().rows,
                    self.deep_view().prefix,
                    self.deep_view().catalog,
                ),
                related_types: Seq::empty(),
            }),
    {
        let ghost e = self.deep_view();
        let ghost rows = hydrated.rows.deep_view();
        let mut hits: Vec<SearchHit> = seqs::no_items();
        let mut i: usize = 0;
        while i < scored.len()
            invariant
                e == self.deep_view(),
                rows == hydrated.rows.deep_view(),
                0 <= i <= scored@.len(),
                hits.deep_view() == semantic_hits_of(
                    scored@.take(i as int),
                    rows,
                    e.prefix,
                    e.catalog,
                ),
            decreases scored@.len() - i,
        {
            assert(scored@.take(i + 1).drop_last() =~= scored@.take(i as int));
            if let Some(node) = self.node_of_nid(&hydrated.rows, scored[i].0) {
                seqs::push_item(
                    &mut hits,
                    SearchHit { node, score: Some(scored[i].1), channel: SearchChannel::Semantic },
                );
            }
            i += 1;
        }
        assert(scored@.take(i as int) =~= scored@);
        let related_types: Vec<TypeCount> = seqs::no_items();
        SearchResult { hits, related_types }
    }

    /// The handles of a table that hold beyond the session; the edges of a
    /// subgraph are asked for by them.
    pub fn lasting_handles(&self, table: &EntityTable) -> (r: Vec<String>)
        ensures
            r.deep_view() == lasting_ids(table.deep_view().rows),
    {
        let ghost all = table.rows.deep_view();
        let mut out: Vec<String> = seqs::no_items();
        let mut i: usize = 0;
        while i < table.rows.len()
            invariant
                all == table.rows.deep_view(),
                0 <= i <= table.rows@.len(),
                out.deep_view() == lasting_ids(all.take(i as int)),
            decreases table.rows@.len() - i,
        {
            proof {
                assert(all.take(i + 1).drop_last() =~= all.take(i as int));
                assert(all.take(i + 1).last() == table.rows@[i as int].deep_view());
            }
            if !table.rows[i].ephemeral_handle {
                seqs::push_item(&mut out, table.rows[i].id.clone());
            }
            i += 1;
        }
        assert(all.take(i as int) =~= all);
        out
    }

    /// A page of entities with the edges among them, where edges were asked for.
    pub fn subgraph_of_type(&self, table: EntityTable, edges: Option<&QueryResult>) -> (r: Subgraph)
        ensures
            r.deep_view() == (SubgraphModel {
                nodes: table.deep_view().rows,
                edges: match edges {
                    Some(result) => subgraph::edges_in(result.deep_view().rows),
                    None => Seq::empty(),
                },
                truncated: table.deep_view().rows.len() < table.total,
            }),
    {
        let truncated = (table.rows.len() as u64) < table.total;
        let found: Vec<EdgeView> = match edges {
            Some(result) => subgraph::decode_edges(&result.rows),
            None => seqs::no_items(),
        };
        Subgraph { nodes: table.rows, edges: found, truncated }
    }

    /// The dated events of a subgraph in the order of time.
    pub fn timeline(&self, subgraph: &Subgraph) -> (r: Vec<TimelineEvent>)
        ensures
            r.deep_view() == timeline::timeline_of(subgraph.deep_view().nodes),
    {
        timeline::subgraph_timeline(subgraph)
    }

    /// The dated events of a page of entities in the order of time.
    pub fn timeline_for_type(&self, table: &EntityTable) -> (r: Vec<TimelineEvent>)
        ensures
            r.deep_view() == timeline::timeline_of(table.deep_view().rows),
    {
        timeline::nodes_timeline(&table.rows)
    }

    /// A subgraph as a document.
    pub fn export(&self, subgraph: &Subgraph) -> (r: ExportDoc)
        ensures
            r.deep_view() == export::exported(subgraph.deep_view()),
    {
        export::export_subgraph(subgraph)
    }

    /// The query that is run for a question.
    pub fn executed_query(&self, query: &DslQuery, opts: &AskOptions) -> (r: DslQuery)
        ensures
            r.deep_view() == executed(query.deep_view(), *opts),
    {
        if opts.include_subgraph || opts.include_entity_refs {
            match subgraph::inject_node_id_returns(query) {
                Some(wide) => wide,
                None => query.copied(),
            }
        } else {
            query.copied()
        }
    }

    /// The table of an answer. `query` is the query before it was widened.
    pub fn answer_table(
        &self,
        result: &QueryResult,
        query: &DslQuery,
        distinct: bool,
        opts: &AskOptions,
    ) -> (r: TableSlice)
        ensures
            r.deep_view() == answer_table_of(
                result.deep_view(),
                query.deep_view(),
                distinct,
                *opts,
            ),
    {
        let table = subgraph::visible_table(result, distinct, opts.max_rows);
        if opts.include_subgraph || opts.include_entity_refs {
            TableSlice {
                columns: table.columns,
                rows: table.rows,
                entity_columns: subgraph::column_entity_aliases(query),
                row_entities: table.row_entities,
            }
        } else {
            table
        }
    }

    /// The ids of the entities behind a result, capped, and whether there are
    /// more.
    pub fn subgraph_ids(&self, result: &QueryResult) -> (r: (Vec<String>, bool))
        ensures
            subgraph::gathered(
                result.deep_view().rows,
                self.limits.max_subgraph_nodes as nat,
            ) == (subgraph::Gathered { ids: r.0.deep_view(), truncated: r.1 }),
    {
        subgraph::gather_ids(result, self.limits.max_subgraph_nodes)
    }

    /// The prefix that the entities behind a result are asked for under: the
    /// query's own, else the explorer's.
    pub fn subgraph_prefix<'a>(&'a self, query: &'a DslQuery) -> (r: Option<&'a str>)
        ensures
            r.deep_view() == (match query.deep_view().prefix_label {
                Some(p) => Some(p),
                None => self.deep_view().prefix,
            }),
    {
        match &query.prefix_label {
            Some(p) => Some(p.as_str()),
            None => self.prefix(),
        }
    }

    /// The entities of the ids with the edges among them; nothing without ids.
    /// `truncated` tells whether there were more ids than the cap.
    pub fn materialize_subgraph(
        &self,
        ids: &Vec<String>,
        truncated: bool,
        node_result: &QueryResult,
        edge_result: &QueryResult,
    ) -> (r: Subgraph)
        ensures
            r.deep_view() == materialized(
                self.deep_view(),
                ids.deep_view(),
                truncated,
                node_result.deep_view().rows,
                edge_result.deep_view().rows,
            ),
    {
        if ids.len() == 0 {
            return Subgraph::default();
        }
        Subgraph {
            nodes: self.node_views(&node_result.rows),
            edges: subgraph::decode_edges(&edge_result.rows),
            truncated: truncated || edge_result.rows.len() >= self.limits.max_subgraph_edges,
        }
    }
}

} // verus!
