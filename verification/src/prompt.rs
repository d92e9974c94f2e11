//! The schema of a live graph, as prompts and projections read it.

use vstd::prelude::*;
use crate::graph::scope::Scope;
use crate::seqs::Copied;

verus! {

broadcast use vstd::string::group_string_axioms;

/// The type of a property as it was seen in the graph.
#[derive(Debug, Clone, Copy, PartialEq, Eq, Structural)]
pub enum PropertyType {
    String,
    Int,
    Float,
    Bool,
    Date,
    List,
}

/// A property of a node or relation kind.
#[derive(Debug, PartialEq)]
pub struct Property {
    pub name: String,
    pub ty: PropertyType,
    pub description: Option<String>,
    pub allowed_values: Vec<String>,
}

pub struct PropertyModel {
    pub name: Seq<char>,
    pub ty: PropertyType,
    pub description: Option<Seq<char>>,
    pub allowed_values: Seq<Seq<char>>,
}

impl DeepView for Property {
    type V = PropertyModel;

    open spec fn deep_view(&self) -> PropertyModel {
        PropertyModel {
            name: self.name@,
            ty: self.ty,
            description: self.description.deep_view(),
            allowed_values: self.allowed_values.deep_view(),
        }
    }
}

impl Copied for Property {
    fn copied(&self) -> (r: Self) {
        Property {
            name: self.name.clone(),
            ty: self.ty,
            description: self.description.copied(),
            allowed_values: self.allowed_values.copied(),
        }
    }
}

/// Nodes of one label.
#[derive(Debug, PartialEq)]
pub struct NodeKind {
    pub label: String,
    pub domain: Option<String>,
    pub extra_labels: Vec<String>,
    pub scopes: Vec<Scope>,
    pub description: Option<String>,
    pub properties: Vec<Property>,
}

pub struct NodeKindModel {
    pub label: Seq<char>,
    pub domain: Option<Seq<char>>,
    pub extra_labels: Seq<Seq<char>>,
    pub scopes: Seq<Scope>,
    pub description: Option<Seq<char>>,
    pub properties: Seq<PropertyModel>,
}

impl DeepView for NodeKind {
    type V = NodeKindModel;

    open spec fn deep_view(&self) -> NodeKindModel {
        NodeKindModel {
            label: self.label@,
            domain: self.domain.deep_view(),
            extra_labels: self.extra_labels.deep_view(),
            scopes: self.scopes@,
            description: self.description.deep_view(),
            properties: self.properties.deep_view(),
        }
    }
}

pub fn copy_scopes(v: &Vec<Scope>) -> (r: Vec<Scope>)
    ensures
        r@ == v@,
{
    let mut out: Vec<Scope> = Vec::new();
    let mut i: usize = 0;
    while i < v.len()
        invariant
            0 <= i <= v@.len(),
            out@ == v@.take(i as int),
        decreases v@.len() - i,
    {
        out.push(v[i]);
        i += 1;
        assert(out@ =~= v@.take(i as int));
    }
    assert(out@ =~= v@);
    out
}

impl Copied for NodeKind {
    fn copied(&self) -> (r: Self) {
        NodeKind {
            label: self.label.clone(),
            domain: self.domain.copied(),
            extra_labels: self.extra_labels.copied(),
            scopes: copy_scopes(&self.scopes),
            description: self.description.copied(),
            properties: self.properties.copied(),
        }
    }
}

/// Relations of one type, and the labels at their ends where they are known.
#[derive(Debug, PartialEq)]
pub struct RelKind {
    pub label: String,
    pub domain: Option<String>,
    pub description: Option<String>,
    pub from: Option<String>,
    pub to: Option<String>,
    pub properties: Vec<Property>,
}

pub struct RelKindModel {
    pub label: Seq<char>,
    pub domain: Option<Seq<char>>,
    pub description: Option<Seq<char>>,
    pub from: Option<Seq<char>>,
    pub to: Option<Seq<char>>,
    pub properties: Seq<PropertyModel>,
}

impl DeepView for RelKind {
    type V = RelKindModel;

    open spec fn deep_view(&self) -> RelKindModel {
        RelKindModel {
            label: self.label@,
            domain: self.domain.deep_view(),
            description: self.description.deep_view(),
            from: self.from.deep_view(),
            to: self.to.deep_view(),
            properties: self.properties.deep_view(),
        }
    }
}

impl Copied for RelKind {
    fn copied(&self) -> (r: Self) {
        RelKind {
            label: self.label.clone(),
            domain: self.domain.copied(),
            description: self.description.copied(),
            from: self.from.copied(),
            to: self.to.copied(),
            properties: self.properties.copied(),
        }
    }
}

/// The schema of a graph.
#[derive(Debug, PartialEq)]
pub struct GraphSchema {
    pub nodes: Vec<NodeKind>,
    pub relationships: Vec<RelKind>,
}

pub struct GraphSchemaModel {
    pub nodes: Seq<NodeKindModel>,
    pub relationships: Seq<RelKindModel>,
}

impl DeepView for GraphSchema {
    type V = GraphSchemaModel;

    open spec fn deep_view(&self) -> GraphSchemaModel {
        GraphSchemaModel {
            nodes: self.nodes.deep_view(),
            relationships: self.relationships.deep_view(),
        }
    }
}

} // verus!
