//! Structured queries: what to start from, which edges to follow, what to filter
//! on and what to return.

use vstd::prelude::*;
use crate::json::Json;
use crate::json::JsonModel;
use crate::seqs::Copied;

verus! {

broadcast use vstd::string::group_string_axioms;

/// What a query does.
#[derive(Debug, Clone, Copy, PartialEq, Eq, Structural)]
pub enum Action {
    /// Return fields of the matched entities.
    Find,
    /// Return values over groups of them.
    Aggregate,
}

impl DeepView for Action {
    type V = Action;

    open spec fn deep_view(&self) -> Action {
        *self
    }
}

/// The direction of an edge in a traversal.
#[derive(Debug, Clone, Copy, PartialEq, Eq, Structural)]
pub enum EdgeDirection {
    Out,
    In,
    Any,
}

impl DeepView for EdgeDirection {
    type V = EdgeDirection;

    open spec fn deep_view(&self) -> EdgeDirection {
        *self
    }
}

/// A node to match, under an alias.
#[derive(Debug, PartialEq)]
pub struct NodePattern {
    pub label: String,
    pub alias: String,
}

pub struct NodePatternModel {
    pub label: Seq<char>,
    pub alias: Seq<char>,
}

impl DeepView for NodePattern {
    type V = NodePatternModel;

    open spec fn deep_view(&self) -> NodePatternModel {
        NodePatternModel {
            label: self.label@,
            alias: self.alias@,
        }
    }
}

impl Copied for NodePattern {
    fn copied(&self) -> (r: Self) {
        NodePattern {
            label: self.label.clone(),
            alias: self.alias.clone(),
        }
    }
}

/// An edge to match.
#[derive(Debug, PartialEq)]
pub struct EdgePattern {
    pub label: String,
    pub alias: Option<String>,
    pub direction: EdgeDirection,
}

pub struct EdgePatternModel {
    pub label: Seq<char>,
    pub alias: Option<Seq<char>>,
    pub direction: EdgeDirection,
}

impl DeepView for EdgePattern {
    type V = EdgePatternModel;

    open spec fn deep_view(&self) -> EdgePatternModel {
        EdgePatternModel {
            label: self.label@,
            alias: self.alias.deep_view(),
            direction: self.direction,
        }
    }
}

impl Copied for EdgePattern {
    fn copied(&self) -> (r: Self) {
        EdgePattern {
            label: self.label.clone(),
            alias: self.alias.copied(),
            direction: self.direction,
        }
    }
}

/// One hop: an edge and the node that it leads to.
#[derive(Debug, PartialEq)]
pub struct TraversalStep {
    pub edge: EdgePattern,
    pub target: NodePattern,
}

pub struct TraversalStepModel {
    pub edge: EdgePatternModel,
    pub target: NodePatternModel,
}

impl DeepView for TraversalStep {
    type V = TraversalStepModel;

    open spec fn deep_view(&self) -> TraversalStepModel {
        TraversalStepModel {
            edge: self.edge.deep_view(),
            target: self.target.deep_view(),
        }
    }
}

impl Copied for TraversalStep {
    fn copied(&self) -> (r: Self) {
        TraversalStep {
            edge: self.edge.copied(),
            target: self.target.copied(),
        }
    }
}

/// A condition on a field.
#[derive(Debug, PartialEq)]
pub struct Filter {
    /// `<alias>.<property>`.
    pub field: String,
    pub op: String,
    pub value: Json,
    pub field_type: Option<String>,
    pub cardinality: Option<String>,
}

pub struct FilterModel {
    pub field: Seq<char>,
    pub op: Seq<char>,
    pub value: JsonModel,
    pub field_type: Option<Seq<char>>,
    pub cardinality: Option<Seq<char>>,
}

impl DeepView for Filter {
    type V = FilterModel;

    open spec fn deep_view(&self) -> FilterModel {
        FilterModel {
            field: self.field@,
            op: self.op@,
            value: self.value.deep_view(),
            field_type: self.field_type.deep_view(),
            cardinality: self.cardinality.deep_view(),
        }
    }
}

impl Copied for Filter {
    fn copied(&self) -> (r: Self) {
        Filter {
            field: self.field.clone(),
            op: self.op.clone(),
            value: self.value.copied(),
            field_type: self.field_type.copied(),
            cardinality: self.cardinality.copied(),
        }
    }
}

/// Something to return. A field is written `<alias>.<property>`.
#[derive(Debug, PartialEq)]
pub enum ReturnItem {
    Field { field: String, alias: Option<String> },
    Aggregate { function: String, field: String, alias: Option<String> },
    DatePart { field: String, part: String, alias: Option<String> },
}

pub enum ReturnItemModel {
    Field { field: Seq<char>, alias: Option<Seq<char>> },
    Aggregate { function: Seq<char>, field: Seq<char>, alias: Option<Seq<char>> },
    DatePart { field: Seq<char>, part: Seq<char>, alias: Option<Seq<char>> },
}

impl DeepView for ReturnItem {
    type V = ReturnItemModel;

    open spec fn deep_view(&self) -> ReturnItemModel {
        match self {
            ReturnItem::Field { field, alias } => ReturnItemModel::Field {
                field: field@,
                alias: alias.deep_view(),
            },
            ReturnItem::Aggregate { function, field, alias } => ReturnItemModel::Aggregate {
                function: function@,
                field: field@,
                alias: alias.deep_view(),
            },
            ReturnItem::DatePart { field, part, alias } => ReturnItemModel::DatePart {
                field: field@,
                part: part@,
                alias: alias.deep_view(),
            },
        }
    }
}

impl Copied for ReturnItem {
    fn copied(&self) -> (r: Self) {
        match self {
            ReturnItem::Field { field, alias } => ReturnItem::Field {
                field: field.clone(),
                alias: alias.copied(),
            },
            ReturnItem::Aggregate { function, field, alias } => ReturnItem::Aggregate {
                function: function.clone(),
                field: field.clone(),
                alias: alias.copied(),
            },
            ReturnItem::DatePart { field, part, alias } => ReturnItem::DatePart {
                field: field.clone(),
                part: part.clone(),
                alias: alias.copied(),
            },
        }
    }
}

/// A field to sort by.
#[derive(Debug, PartialEq)]
pub struct SortItem {
    pub field: String,
    pub descending: bool,
}

pub struct SortItemModel {
    pub field: Seq<char>,
    pub descending: bool,
}

impl DeepView for SortItem {
    type V = SortItemModel;

    open spec fn deep_view(&self) -> SortItemModel {
        SortItemModel {
            field: self.field@,
            descending: self.descending,
        }
    }
}

impl Copied for SortItem {
    fn copied(&self) -> (r: Self) {
        SortItem {
            field: self.field.clone(),
            descending: self.descending,
        }
    }
}

/// A structured query.
#[derive(Debug, PartialEq)]
pub struct DslQuery {
    pub action: Action,
    pub start: NodePattern,
    pub traversals: Vec<TraversalStep>,
    pub filters: Vec<Filter>,
    pub return_: Vec<ReturnItem>,
    pub group_by: Vec<String>,
    pub sort: Vec<SortItem>,
    pub limit: Option<usize>,
    pub distinct: bool,
    pub prefix_label: Option<String>,
    pub prefix_index: Option<String>,
}

pub struct DslQueryModel {
    pub action: Action,
    pub start: NodePatternModel,
    pub traversals: Seq<TraversalStepModel>,
    pub filters: Seq<FilterModel>,
    pub return_: Seq<ReturnItemModel>,
    pub group_by: Seq<Seq<char>>,
    pub sort: Seq<SortItemModel>,
    pub limit: Option<usize>,
    pub distinct: bool,
    pub prefix_label: Option<Seq<char>>,
    pub prefix_index: Option<Seq<char>>,
}

impl DeepView for DslQuery {
    type V = DslQueryModel;

    open spec fn deep_view(&self) -> DslQueryModel {
        DslQueryModel {
            action: self.action,
            start: self.start.deep_view(),
            traversals: self.traversals.deep_view(),
            filters: self.filters.deep_view(),
            return_: self.return_.deep_view(),
            group_by: self.group_by.deep_view(),
            sort: self.sort.deep_view(),
            limit: self.limit.deep_view(),
            distinct: self.distinct,
            prefix_label: self.prefix_label.deep_view(),
            prefix_index: self.prefix_index.deep_view(),
        }
    }
}

impl Copied for DslQuery {
    fn copied(&self) -> (r: Self) {
        DslQuery {
            action: self.action,
            start: self.start.copied(),
            traversals: self.traversals.copied(),
            filters: self.filters.copied(),
            return_: self.return_.copied(),
            group_by: self.group_by.copied(),
            sort: self.sort.copied(),
            limit: self.limit,
            distinct: self.distinct,
            prefix_label: self.prefix_label.copied(),
            prefix_index: self.prefix_index.copied(),
        }
    }
}

/// The query scoped to a prefix of labels and collections.
pub open spec fn prefixed_query(
    q: DslQueryModel,
    label: Option<Seq<char>>,
    index: Option<Seq<char>>,
) -> DslQueryModel {
    DslQueryModel { prefix_label: label, prefix_index: index, ..q }
}

} // verus!
