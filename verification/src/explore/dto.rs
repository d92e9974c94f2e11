//! What the explorer gives back and is asked with.

use vstd::prelude::*;
use crate::json::Json;
use crate::json::JsonModel;
use crate::json::JsonNumber;
use crate::json::NumberModel;
use crate::seqs;
use crate::seqs::Copied;
use crate::strmap::StrMap;

verus! {

broadcast use vstd::string::group_string_axioms;

impl Copied for JsonNumber {
    fn copied(&self) -> (r: Self) {
        self.copy()
    }
}

/// Properties of a node by the kind of their type.
#[derive(Debug, PartialEq)]
pub struct PropertyGroups {
    /// Keywords and lists.
    pub identifiers: StrMap<Json>,
    /// Free text.
    pub descriptions: StrMap<Json>,
    /// Numbers and truth values.
    pub facts: StrMap<Json>,
    /// Dates and instants.
    pub dates: StrMap<Json>,
    /// What neither the ontology nor the shape of the value places.
    pub other: StrMap<Json>,
}

pub struct PropertyGroupsModel {
    pub identifiers: Seq<(Seq<char>, JsonModel)>,
    pub descriptions: Seq<(Seq<char>, JsonModel)>,
    pub facts: Seq<(Seq<char>, JsonModel)>,
    pub dates: Seq<(Seq<char>, JsonModel)>,
    pub other: Seq<(Seq<char>, JsonModel)>,
}

impl DeepView for PropertyGroups {
    type V = PropertyGroupsModel;

    open spec fn deep_view(&self) -> PropertyGroupsModel {
        PropertyGroupsModel {
            identifiers: self.identifiers.deep_view(),
            descriptions: self.descriptions.deep_view(),
            facts: self.facts.deep_view(),
            dates: self.dates.deep_view(),
            other: self.other.deep_view(),
        }
    }
}

impl Copied for PropertyGroups {
    fn copied(&self) -> (r: Self) {
        PropertyGroups {
            identifiers: self.identifiers.copied(),
            descriptions: self.descriptions.copied(),
            facts: self.facts.copied(),
            dates: self.dates.copied(),
            other: self.other.copied(),
        }
    }
}

/// A node prepared for display.
#[derive(Debug, PartialEq)]
pub struct NodeView {
    /// Public handle: the `id` property, or `_nid:` and the internal id.
    pub id: String,
    pub name: String,
    /// The label that is neither prefix, scope nor domain.
    pub entity_type: String,
    pub labels: Vec<String>,
    pub properties: PropertyGroups,
    /// The `confidence` property as it is stored.
    pub confidence: Option<JsonNumber>,
    /// The handle holds only while the database runs.
    pub ephemeral_handle: bool,
}

pub struct NodeViewModel {
    pub id: Seq<char>,
    pub name: Seq<char>,
    pub entity_type: Seq<char>,
    pub labels: Seq<Seq<char>>,
    pub properties: PropertyGroupsModel,
    pub confidence: Option<NumberModel>,
    pub ephemeral_handle: bool,
}

impl DeepView for NodeView {
    type V = NodeViewModel;

    open spec fn deep_view(&self) -> NodeViewModel {
        NodeViewModel {
            id: self.id@,
            name: self.name@,
            entity_type: self.entity_type@,
            labels: self.labels.deep_view(),
            properties: self.properties.deep_view(),
            confidence: self.confidence.deep_view(),
            ephemeral_handle: self.ephemeral_handle,
        }
    }
}

impl Copied for NodeView {
    fn copied(&self) -> (r: Self) {
        NodeView {
            id: self.id.clone(),
            name: self.name.clone(),
            entity_type: self.entity_type.clone(),
            labels: self.labels.copied(),
            properties: self.properties.copied(),
            confidence: self.confidence.copied(),
            ephemeral_handle: self.ephemeral_handle,
        }
    }
}

/// A relation prepared for display.
#[derive(Debug, PartialEq)]
pub struct EdgeView {
    /// `{from}:{edge_type}:{to}`.
    pub id: String,
    pub edge_type: String,
    pub from: String,
    pub to: String,
    pub properties: StrMap<Json>,
    pub confidence: Option<JsonNumber>,
}

pub struct EdgeViewModel {
    pub id: Seq<char>,
    pub edge_type: Seq<char>,
    pub from: Seq<char>,
    pub to: Seq<char>,
    pub properties: Seq<(Seq<char>, JsonModel)>,
    pub confidence: Option<NumberModel>,
}

impl DeepView for EdgeView {
    type V = EdgeViewModel;

    open spec fn deep_view(&self) -> EdgeViewModel {
        EdgeViewModel {
            id: self.id@,
            edge_type: self.edge_type@,
            from: self.from@,
            to: self.to@,
            properties: self.properties.deep_view(),
            confidence: self.confidence.deep_view(),
        }
    }
}

impl Copied for EdgeView {
    fn copied(&self) -> (r: Self) {
        EdgeView {
            id: self.id.clone(),
            edge_type: self.edge_type.clone(),
            from: self.from.clone(),
            to: self.to.clone(),
            properties: self.properties.copied(),
            confidence: self.confidence.copied(),
        }
    }
}

/// Nodes and the edges among them.
#[derive(Debug, PartialEq)]
pub struct Subgraph {
    pub nodes: Vec<NodeView>,
    pub edges: Vec<EdgeView>,
    /// Limits cut the fragment short.
    pub truncated: bool,
}

pub struct SubgraphModel {
    pub nodes: Seq<NodeViewModel>,
    pub edges: Seq<EdgeViewModel>,
    pub truncated: bool,
}

impl DeepView for Subgraph {
    type V = SubgraphModel;

    open spec fn deep_view(&self) -> SubgraphModel {
        SubgraphModel {
            nodes: self.nodes.deep_view(),
            edges: self.edges.deep_view(),
            truncated: self.truncated,
        }
    }
}

impl Copied for Subgraph {
    fn copied(&self) -> (r: Self) {
        Subgraph {
            nodes: self.nodes.copied(),
            edges: self.edges.copied(),
            truncated: self.truncated,
        }
    }
}

/// A document that the graph was built from.
#[derive(Debug, PartialEq)]
pub struct SourceRef {
    pub id: Option<String>,
    pub name: Option<String>,
}

pub struct SourceRefModel {
    pub id: Option<Seq<char>>,
    pub name: Option<Seq<char>>,
}

impl DeepView for SourceRef {
    type V = SourceRefModel;

    open spec fn deep_view(&self) -> SourceRefModel {
        SourceRefModel {
            id: self.id.deep_view(),
            name: self.name.deep_view(),
        }
    }
}

impl Copied for SourceRef {
    fn copied(&self) -> (r: Self) {
        SourceRef {
            id: self.id.copied(),
            name: self.name.copied(),
        }
    }
}

/// Direction of a relation as seen from an entity.
#[derive(Debug, Clone, Copy, PartialEq, Eq, Structural)]
pub enum RelDirection {
    Out,
    In,
}

impl DeepView for RelDirection {
    type V = RelDirection;

    open spec fn deep_view(&self) -> RelDirection {
        *self
    }
}

/// How many relations of one type lead to one type of neighbour.
#[derive(Debug, PartialEq)]
pub struct RelationSummary {
    pub edge_type: String,
    pub direction: RelDirection,
    pub neighbor_type: String,
    pub count: u64,
}

pub struct RelationSummaryModel {
    pub edge_type: Seq<char>,
    pub direction: RelDirection,
    pub neighbor_type: Seq<char>,
    pub count: u64,
}

impl DeepView for RelationSummary {
    type V = RelationSummaryModel;

    open spec fn deep_view(&self) -> RelationSummaryModel {
        RelationSummaryModel {
            edge_type: self.edge_type@,
            direction: self.direction,
            neighbor_type: self.neighbor_type@,
            count: self.count,
        }
    }
}

impl Copied for RelationSummary {
    fn copied(&self) -> (r: Self) {
        RelationSummary {
            edge_type: self.edge_type.clone(),
            direction: self.direction,
            neighbor_type: self.neighbor_type.clone(),
            count: self.count,
        }
    }
}

/// An entity with its sources and relations.
#[derive(Debug, PartialEq)]
pub struct EntityCard {
    pub node: NodeView,
    pub sources: Vec<SourceRef>,
    pub relations: Vec<RelationSummary>,
}

pub struct EntityCardModel {
    pub node: NodeViewModel,
    pub sources: Seq<SourceRefModel>,
    pub relations: Seq<RelationSummaryModel>,
}

impl DeepView for EntityCard {
    type V = EntityCardModel;

    open spec fn deep_view(&self) -> EntityCardModel {
        EntityCardModel {
            node: self.node.deep_view(),
            sources: self.sources.deep_view(),
            relations: self.relations.deep_view(),
        }
    }
}

/// How a question was answered.
#[derive(Debug, PartialEq)]
pub struct QueryTrace {
    pub question: Option<String>,
    pub dsl: Json,
    pub dsl_summary: String,
    pub cypher: String,
    pub cypher_params: StrMap<Json>,
    pub llm_attempts: usize,
    pub elapsed_ms: u64,
}

pub struct QueryTraceModel {
    pub question: Option<Seq<char>>,
    pub dsl: JsonModel,
    pub dsl_summary: Seq<char>,
    pub cypher: Seq<char>,
    pub cypher_params: Seq<(Seq<char>, JsonModel)>,
    pub llm_attempts: usize,
    pub elapsed_ms: u64,
}

impl DeepView for QueryTrace {
    type V = QueryTraceModel;

    open spec fn deep_view(&self) -> QueryTraceModel {
        QueryTraceModel {
            question: self.question.deep_view(),
            dsl: self.dsl.deep_view(),
            dsl_summary: self.dsl_summary@,
            cypher: self.cypher@,
            cypher_params: self.cypher_params.deep_view(),
            llm_attempts: self.llm_attempts,
            elapsed_ms: self.elapsed_ms,
        }
    }
}

/// The visible part of a result.
#[derive(Debug, PartialEq)]
pub struct TableSlice {
    pub columns: Vec<String>,
    pub rows: Vec<StrMap<Json>>,
    /// Which alias each column belongs to.
    pub entity_columns: StrMap<String>,
    /// The handle of each alias, row by row.
    pub row_entities: Vec<StrMap<String>>,
}

pub struct TableSliceModel {
    pub columns: Seq<Seq<char>>,
    pub rows: Seq<Seq<(Seq<char>, JsonModel)>>,
    pub entity_columns: Seq<(Seq<char>, Seq<char>)>,
    pub row_entities: Seq<Seq<(Seq<char>, Seq<char>)>>,
}

impl DeepView for TableSlice {
    type V = TableSliceModel;

    open spec fn deep_view(&self) -> TableSliceModel {
        TableSliceModel {
            columns: self.columns.deep_view(),
            rows: self.rows.deep_view(),
            entity_columns: self.entity_columns.deep_view(),
            row_entities: self.row_entities.deep_view(),
        }
    }
}

/// The answer to a question.
#[derive(Debug, PartialEq)]
pub struct AskResult {
    pub trace: QueryTrace,
    pub table: TableSlice,
    pub subgraph: Subgraph,
    pub sources: Vec<SourceRef>,
    pub answer: Option<String>,
}

pub struct AskResultModel {
    pub trace: QueryTraceModel,
    pub table: TableSliceModel,
    pub subgraph: SubgraphModel,
    pub sources: Seq<SourceRefModel>,
    pub answer: Option<Seq<char>>,
}

impl DeepView for AskResult {
    type V = AskResultModel;

    open spec fn deep_view(&self) -> AskResultModel {
        AskResultModel {
            trace: self.trace.deep_view(),
            table: self.table.deep_view(),
            subgraph: self.subgraph.deep_view(),
            sources: self.sources.deep_view(),
            answer: self.answer.deep_view(),
        }
    }
}

/// How a hit was found.
#[derive(Debug, Clone, Copy, PartialEq, Eq, Structural)]
pub enum SearchChannel {
    Keyword,
    Semantic,
}

impl DeepView for SearchChannel {
    type V = SearchChannel;

    open spec fn deep_view(&self) -> SearchChannel {
        *self
    }
}

/// An entity that a search found, with the bits of its score.
#[derive(Debug, PartialEq)]
pub struct SearchHit {
    pub node: NodeView,
    pub score: Option<u64>,
    pub channel: SearchChannel,
}

pub struct SearchHitModel {
    pub node: NodeViewModel,
    pub score: Option<u64>,
    pub channel: SearchChannel,
}

impl DeepView for SearchHit {
    type V = SearchHitModel;

    open spec fn deep_view(&self) -> SearchHitModel {
        SearchHitModel {
            node: self.node.deep_view(),
            score: self.score.deep_view(),
            channel: self.channel,
        }
    }
}

/// An entity type and how many there are.
#[derive(Debug, PartialEq)]
pub struct TypeCount {
    pub name: String,
    pub count: u64,
    pub description: Option<String>,
}

pub struct TypeCountModel {
    pub name: Seq<char>,
    pub count: u64,
    pub description: Option<Seq<char>>,
}

impl DeepView for TypeCount {
    type V = TypeCountModel;

    open spec fn deep_view(&self) -> TypeCountModel {
        TypeCountModel {
            name: self.name@,
            count: self.count,
            description: self.description.deep_view(),
        }
    }
}

/// What a search found.
#[derive(Debug, PartialEq)]
pub struct SearchResult {
    pub hits: Vec<SearchHit>,
    pub related_types: Vec<TypeCount>,
}

pub struct SearchResultModel {
    pub hits: Seq<SearchHitModel>,
    pub related_types: Seq<TypeCountModel>,
}

impl DeepView for SearchResult {
    type V = SearchResultModel;

    open spec fn deep_view(&self) -> SearchResultModel {
        SearchResultModel {
            hits: self.hits.deep_view(),
            related_types: self.related_types.deep_view(),
        }
    }
}

/// A relation type and how many there are.
#[derive(Debug, PartialEq)]
pub struct RelTypeCount {
    pub name: String,
    pub count: u64,
    pub from: Option<String>,
    pub to: Option<String>,
    pub description: Option<String>,
}

pub struct RelTypeCountModel {
    pub name: Seq<char>,
    pub count: u64,
    pub from: Option<Seq<char>>,
    pub to: Option<Seq<char>>,
    pub description: Option<Seq<char>>,
}

impl DeepView for RelTypeCount {
    type V = RelTypeCountModel;

    open spec fn deep_view(&self) -> RelTypeCountModel {
        RelTypeCountModel {
            name: self.name@,
            count: self.count,
            from: self.from.deep_view(),
            to: self.to.deep_view(),
            description: self.description.deep_view(),
        }
    }
}

/// What a graph holds.
#[derive(Debug, PartialEq)]
pub struct OverviewReport {
    pub entity_types: Vec<TypeCount>,
    pub relation_types: Vec<RelTypeCount>,
    pub total_entities: u64,
    pub total_relations: u64,
    pub sources: Vec<SourceRef>,
}

pub struct OverviewReportModel {
    pub entity_types: Seq<TypeCountModel>,
    pub relation_types: Seq<RelTypeCountModel>,
    pub total_entities: u64,
    pub total_relations: u64,
    pub sources: Seq<SourceRefModel>,
}

impl DeepView for OverviewReport {
    type V = OverviewReportModel;

    open spec fn deep_view(&self) -> OverviewReportModel {
        OverviewReportModel {
            entity_types: self.entity_types.deep_view(),
            relation_types: self.relation_types.deep_view(),
            total_entities: self.total_entities,
            total_relations: self.total_relations,
            sources: self.sources.deep_view(),
        }
    }
}

/// One page of entities of a type.
#[derive(Debug, PartialEq)]
pub struct EntityTable {
    pub entity_type: String,
    pub key_columns: Vec<String>,
    pub rows: Vec<NodeView>,
    pub total: u64,
    pub offset: u32,
}

pub struct EntityTableModel {
    pub entity_type: Seq<char>,
    pub key_columns: Seq<Seq<char>>,
    pub rows: Seq<NodeViewModel>,
    pub total: u64,
    pub offset: u32,
}

impl DeepView for EntityTable {
    type V = EntityTableModel;

    open spec fn deep_view(&self) -> EntityTableModel {
        EntityTableModel {
            entity_type: self.entity_type@,
            key_columns: self.key_columns.deep_view(),
            rows: self.rows.deep_view(),
            total: self.total,
            offset: self.offset,
        }
    }
}

/// A dated fact.
#[derive(Debug, PartialEq)]
pub struct TimelineEvent {
    pub date: String,
    pub epoch_seconds: Option<i64>,
    pub property: String,
    pub entity_id: String,
    pub entity_name: String,
    pub entity_type: String,
}

pub struct TimelineEventModel {
    pub date: Seq<char>,
    pub epoch_seconds: Option<i64>,
    pub property: Seq<char>,
    pub entity_id: Seq<char>,
    pub entity_name: Seq<char>,
    pub entity_type: Seq<char>,
}

impl DeepView for TimelineEvent {
    type V = TimelineEventModel;

    open spec fn deep_view(&self) -> TimelineEventModel {
        TimelineEventModel {
            date: self.date@,
            epoch_seconds: self.epoch_seconds.deep_view(),
            property: self.property@,
            entity_id: self.entity_id@,
            entity_name: self.entity_name@,
            entity_type: self.entity_type@,
        }
    }
}

/// A subgraph as a document of entities and relations.
#[derive(Debug, PartialEq)]
pub struct ExportDoc(pub Json);

impl DeepView for ExportDoc {
    type V = JsonModel;

    open spec fn deep_view(&self) -> JsonModel {
        self.0.deep_view()
    }
}

/// Options of a question.
#[derive(Debug, Clone, Copy, PartialEq)]
pub struct AskOptions {
    pub synthesize_answer: bool,
    pub include_subgraph: bool,
    pub include_filter_context: bool,
    pub include_entity_refs: bool,
    pub max_rows: Option<u32>,
}

pub struct AskOptionsModel {
    pub synthesize_answer: bool,
    pub include_subgraph: bool,
    pub include_filter_context: bool,
    pub include_entity_refs: bool,
    pub max_rows: Option<u32>,
}

impl DeepView for AskOptions {
    type V = AskOptionsModel;

    open spec fn deep_view(&self) -> AskOptionsModel {
        AskOptionsModel {
            synthesize_answer: self.synthesize_answer,
            include_subgraph: self.include_subgraph,
            include_filter_context: self.include_filter_context,
            include_entity_refs: self.include_entity_refs,
            max_rows: self.max_rows.deep_view(),
        }
    }
}

/// Filters and page of a walk to neighbours.
#[derive(Debug, PartialEq)]
pub struct NeighborOptions {
    pub edge_types: Option<Vec<String>>,
    pub target_labels: Option<Vec<String>>,
    pub direction: Option<RelDirection>,
    pub limit: Option<u32>,
    pub offset: u32,
}

pub struct NeighborOptionsModel {
    pub edge_types: Option<Seq<Seq<char>>>,
    pub target_labels: Option<Seq<Seq<char>>>,
    pub direction: Option<RelDirection>,
    pub limit: Option<u32>,
    pub offset: u32,
}

impl DeepView for NeighborOptions {
    type V = NeighborOptionsModel;

    open spec fn deep_view(&self) -> NeighborOptionsModel {
        NeighborOptionsModel {
            edge_types: self.edge_types.deep_view(),
            target_labels: self.target_labels.deep_view(),
            direction: self.direction.deep_view(),
            limit: self.limit.deep_view(),
            offset: self.offset,
        }
    }
}

/// How to search.
#[derive(Debug, Clone, Copy, PartialEq, Eq, Structural)]
pub enum SearchMode {
    Auto,
    Keyword,
    Semantic,
}

impl DeepView for SearchMode {
    type V = SearchMode;

    open spec fn deep_view(&self) -> SearchMode {
        *self
    }
}

/// Options of a search.
#[derive(Debug, PartialEq)]
pub struct SearchOptions {
    pub entity_type: Option<String>,
    pub mode: SearchMode,
    pub exact: bool,
    pub limit: Option<u32>,
}

pub struct SearchOptionsModel {
    pub entity_type: Option<Seq<char>>,
    pub mode: SearchMode,
    pub exact: bool,
    pub limit: Option<u32>,
}

impl DeepView for SearchOptions {
    type V = SearchOptionsModel;

    open spec fn deep_view(&self) -> SearchOptionsModel {
        SearchOptionsModel {
            entity_type: self.entity_type.deep_view(),
            mode: self.mode,
            exact: self.exact,
            limit: self.limit.deep_view(),
        }
    }
}

/// A page of entities.
#[derive(Debug, PartialEq)]
pub struct PageOptions {
    pub limit: Option<u32>,
    pub offset: u32,
    pub sort_by: Option<String>,
}

pub struct PageOptionsModel {
    pub limit: Option<u32>,
    pub offset: u32,
    pub sort_by: Option<Seq<char>>,
}

impl DeepView for PageOptions {
    type V = PageOptionsModel;

    open spec fn deep_view(&self) -> PageOptionsModel {
        PageOptionsModel {
            limit: self.limit.deep_view(),
            offset: self.offset,
            sort_by: self.sort_by.deep_view(),
        }
    }
}

impl Default for AskOptions {
    fn default() -> (r: AskOptions)
        ensures
            !r.synthesize_answer,
            r.include_subgraph,
            r.include_filter_context,
            !r.include_entity_refs,
            r.max_rows is None,
    {
        AskOptions {
            synthesize_answer: false,
            include_subgraph: true,
            include_filter_context: true,
            include_entity_refs: false,
            max_rows: None,
        }
    }
}

impl Default for NeighborOptions {
    fn default() -> (r: NeighborOptions)
        ensures
            r.edge_types is None,
            r.target_labels is None,
            r.direction is None,
            r.limit is None,
            r.offset == 0,
    {
        NeighborOptions {
            edge_types: None,
            target_labels: None,
            direction: None,
            limit: None,
            offset: 0,
        }
    }
}

impl Default for SearchMode {
    fn default() -> (r: SearchMode)
        ensures
            r == SearchMode::Auto,
    {
        SearchMode::Auto
    }
}

impl Default for SearchOptions {
    fn default() -> (r: SearchOptions)
        ensures
            r.entity_type is None,
            r.mode == SearchMode::Auto,
            !r.exact,
            r.limit is None,
    {
        SearchOptions { entity_type: None, mode: SearchMode::Auto, exact: false, limit: None }
    }
}

impl Default for PageOptions {
    fn default() -> (r: PageOptions)
        ensures
            r.limit is None,
            r.offset == 0,
            r.sort_by is None,
    {
        PageOptions { limit: None, offset: 0, sort_by: None }
    }
}

/// No properties.
pub open spec fn empty_groups() -> PropertyGroupsModel {
    PropertyGroupsModel {
        identifiers: Seq::empty(),
        descriptions: Seq::empty(),
        facts: Seq::empty(),
        dates: Seq::empty(),
        other: Seq::empty(),
    }
}

impl Default for PropertyGroups {
    fn default() -> (r: PropertyGroups)
        ensures
            r.deep_view() == empty_groups(),
    {
        PropertyGroups {
            identifiers: StrMap::new(),
            descriptions: StrMap::new(),
            facts: StrMap::new(),
            dates: StrMap::new(),
            other: StrMap::new(),
        }
    }
}

/// All properties, group after group.
pub open spec fn all_properties(g: PropertyGroupsModel) -> Seq<(Seq<char>, JsonModel)> {
    g.identifiers + g.descriptions + g.facts + g.dates + g.other
}

fn add_entries<'a>(out: &mut Vec<(&'a String, &'a Json)>, m: &'a StrMap<Json>)
    ensures
        final(out).deep_view() == old(out).deep_view() + m.deep_view(),
{
    let ghost start = out.deep_view();
    let ghost all = m.deep_view();
    let mut i: usize = 0;
    assert(start + all.take(0) =~= start);
    while i < m.entries.len()
        invariant
            all == m.deep_view(),
            0 <= i <= m.entries@.len(),
            out.deep_view() == start + all.take(i as int),
        decreases m.entries@.len() - i,
    {
        let ghost before = out.deep_view();
        let entry = (&m.entries[i].0, &m.entries[i].1);
        seqs::push_item(out, entry);
        i += 1;
        assert(out.deep_view() =~= start + all.take(i as int));
    }
    assert(all.take(i as int) =~= all);
}

impl PropertyGroups {
    /// Every property, group after group.
    pub fn iter(&self) -> (r: Vec<(&String, &Json)>)
        ensures
            r.deep_view() == all_properties(self.deep_view()),
    {
        let mut out: Vec<(&String, &Json)> = seqs::no_items();
        add_entries(&mut out, &self.identifiers);
        add_entries(&mut out, &self.descriptions);
        add_entries(&mut out, &self.facts);
        add_entries(&mut out, &self.dates);
        add_entries(&mut out, &self.other);
        assert(out.deep_view() =~= all_properties(self.deep_view()));
        out
    }

    /// Is there no property?
    pub fn is_empty(&self) -> (r: bool)
        ensures
            r == (all_properties(self.deep_view()).len() == 0),
    {
        self.identifiers.len() == 0 && self.descriptions.len() == 0 && self.facts.len() == 0
            && self.dates.len() == 0 && self.other.len() == 0
    }
}

/// Nothing to show.
pub open spec fn empty_subgraph() -> SubgraphModel {
    SubgraphModel { nodes: Seq::empty(), edges: Seq::empty(), truncated: false }
}

impl Default for Subgraph {
    fn default() -> (r: Subgraph)
        ensures
            r.deep_view() == empty_subgraph(),
    {
        Subgraph { nodes: seqs::no_items(), edges: seqs::no_items(), truncated: false }
    }
}

impl Subgraph {
    /// Is there nothing to show?
    pub fn is_empty(&self) -> (r: bool)
        ensures
            r == (self.deep_view().nodes.len() == 0 && self.deep_view().edges.len() == 0),
    {
        self.nodes.len() == 0 && self.edges.len() == 0
    }
}

} // verus!
