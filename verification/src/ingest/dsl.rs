//! The insert plan: homogeneous groups of node and relation rows.

use vstd::prelude::*;
use crate::literal;
use crate::literal::copy_literal;
use crate::literal::Literal;
use crate::literal::LiteralModel;
use crate::sorting;
use crate::strmap::StrMap;

verus! {

broadcast use vstd::string::group_string_axioms;

/// Properties by name.
pub type Props = StrMap<Literal>;

/// One node to merge.
#[derive(Debug, PartialEq)]
pub struct NodeData {
    pub id: Literal,
    pub props: StrMap<Literal>,
}

pub struct NodeDataModel {
    pub id: LiteralModel,
    pub props: Seq<(Seq<char>, LiteralModel)>,
}

impl DeepView for NodeData {
    type V = NodeDataModel;

    open spec fn deep_view(&self) -> NodeDataModel {
        NodeDataModel { id: self.id.deep_view(), props: self.props.deep_view() }
    }
}

/// Nodes of one label, merged on the property `merge_on`.
#[derive(Debug, PartialEq)]
pub struct NodePlan {
    pub label: String,
    pub merge_on: String,
    pub rows: Vec<NodeData>,
}

pub struct NodePlanModel {
    pub label: Seq<char>,
    pub merge_on: Seq<char>,
    pub rows: Seq<NodeDataModel>,
}

impl DeepView for NodePlan {
    type V = NodePlanModel;

    open spec fn deep_view(&self) -> NodePlanModel {
        NodePlanModel {
            label: self.label@,
            merge_on: self.merge_on@,
            rows: self.rows.deep_view(),
        }
    }
}

/// One relation between two nodes.
#[derive(Debug, PartialEq)]
pub struct RelationData {
    pub from_id: Literal,
    pub to_id: Literal,
}

pub struct RelationDataModel {
    pub from_id: LiteralModel,
    pub to_id: LiteralModel,
}

impl DeepView for RelationData {
    type V = RelationDataModel;

    open spec fn deep_view(&self) -> RelationDataModel {
        RelationDataModel { from_id: self.from_id.deep_view(), to_id: self.to_id.deep_view() }
    }
}

/// Relations of one type between nodes of two labels.
#[derive(Debug, PartialEq)]
pub struct RelationPlan {
    pub rel_type: String,
    pub from_label: String,
    pub from_key: String,
    pub to_label: String,
    pub to_key: String,
    pub rows: Vec<RelationData>,
}

pub struct RelationPlanModel {
    pub rel_type: Seq<char>,
    pub from_label: Seq<char>,
    pub from_key: Seq<char>,
    pub to_label: Seq<char>,
    pub to_key: Seq<char>,
    pub rows: Seq<RelationDataModel>,
}

impl DeepView for RelationPlan {
    type V = RelationPlanModel;

    open spec fn deep_view(&self) -> RelationPlanModel {
        RelationPlanModel {
            rel_type: self.rel_type@,
            from_label: self.from_label@,
            from_key: self.from_key@,
            to_label: self.to_label@,
            to_key: self.to_key@,
            rows: self.rows.deep_view(),
        }
    }
}

/// What one ingestion inserts.
#[derive(Debug, PartialEq)]
pub struct InsertPlan {
    pub action: String,
    pub nodes: Vec<NodePlan>,
    pub relations: Vec<RelationPlan>,
}

pub struct InsertPlanModel {
    pub action: Seq<char>,
    pub nodes: Seq<NodePlanModel>,
    pub relations: Seq<RelationPlanModel>,
}

impl DeepView for InsertPlan {
    type V = InsertPlanModel;

    open spec fn deep_view(&self) -> InsertPlanModel {
        InsertPlanModel {
            action: self.action@,
            nodes: self.nodes.deep_view(),
            relations: self.relations.deep_view(),
        }
    }
}

/// How many node rows the plans hold together.
pub open spec fn node_row_count(nodes: Seq<NodePlanModel>) -> nat
    decreases nodes.len(),
{
    if nodes.len() == 0 {
        0
    } else {
        node_row_count(nodes.drop_last()) + nodes.last().rows.len()
    }
}

/// How many relation rows the plans hold together.
pub open spec fn relation_row_count(relations: Seq<RelationPlanModel>) -> nat
    decreases relations.len(),
{
    if relations.len() == 0 {
        0
    } else {
        relation_row_count(relations.drop_last()) + relations.last().rows.len()
    }
}

proof fn node_rows_grow(nodes: Seq<NodePlanModel>, n: int)
    requires
        0 <= n <= nodes.len(),
    ensures
        node_row_count(nodes.take(n)) <= node_row_count(nodes),
    decreases nodes.len() - n,
{
    if n < nodes.len() {
        node_rows_grow(nodes, n + 1);
        assert(nodes.take(n + 1).drop_last() =~= nodes.take(n));
    } else {
        assert(nodes.take(n) =~= nodes);
    }
}

proof fn relation_rows_grow(relations: Seq<RelationPlanModel>, n: int)
    requires
        0 <= n <= relations.len(),
    ensures
        relation_row_count(relations.take(n)) <= relation_row_count(relations),
    decreases relations.len() - n,
{
    if n < relations.len() {
        relation_rows_grow(relations, n + 1);
        assert(relations.take(n + 1).drop_last() =~= relations.take(n));
    } else {
        assert(relations.take(n) =~= relations);
    }
}

proof fn no_node_rows(nodes: Seq<NodePlanModel>)
    ensures
        (node_row_count(nodes) == 0) == (forall|i: int|
            0 <= i < nodes.len() ==> (#[trigger] nodes[i]).rows.len() == 0),
    decreases nodes.len(),
{
    if nodes.len() > 0 {
        let rest = nodes.drop_last();
        no_node_rows(rest);
        if node_row_count(nodes) == 0 {
            assert forall|i: int| 0 <= i < nodes.len() implies (#[trigger] nodes[i]).rows.len()
                == 0 by {
                if i < rest.len() {
                    assert(rest[i] == nodes[i]);
                }
            }
        } else if forall|i: int| 0 <= i < nodes.len() ==> (#[trigger] nodes[i]).rows.len() == 0 {
            assert(nodes[nodes.len() - 1].rows.len() == 0);
            assert(node_row_count(rest) != 0);
            let i = choose|i: int| 0 <= i < rest.len() && (#[trigger] rest[i]).rows.len() != 0;
            assert(nodes[i].rows.len() == 0);
        }
    }
}

proof fn no_relation_rows(relations: Seq<RelationPlanModel>)
    ensures
        (relation_row_count(relations) == 0) == (forall|i: int|
            0 <= i < relations.len() ==> (#[trigger] relations[i]).rows.len() == 0),
    decreases relations.len(),
{
    if relations.len() > 0 {
        let rest = relations.drop_last();
        no_relation_rows(rest);
        if relation_row_count(relations) == 0 {
            assert forall|i: int| 0 <= i < relations.len() implies (#[trigger] relations[i]).rows.len()
                == 0 by {
                if i < rest.len() {
                    assert(rest[i] == relations[i]);
                }
            }
        } else if forall|i: int| 0 <= i < relations.len() ==> (#[trigger] relations[i]).rows.len() == 0 {
            assert(relations[relations.len() - 1].rows.len() == 0);
            assert(relation_row_count(rest) != 0);
            let i = choose|i: int| 0 <= i < rest.len() && (#[trigger] rest[i]).rows.len() != 0;
            assert(relations[i].rows.len() == 0);
        }
    }
}

impl InsertPlan {
    /// The plan that inserts nothing.
    pub fn new() -> (r: InsertPlan)
        ensures
            r.deep_view() == (InsertPlanModel {
                action: "insert"@,
                nodes: Seq::empty(),
                relations: Seq::empty(),
            }),
    {
        let r = InsertPlan { action: "insert".to_owned(), nodes: Vec::new(), relations: Vec::new() };
        assert(r.nodes.deep_view() =~= Seq::<NodePlanModel>::empty());
        assert(r.relations.deep_view() =~= Seq::<RelationPlanModel>::empty());
        r
    }

    /// Does the plan hold no row at all?
    pub fn is_empty(&self) -> (r: bool)
        ensures
            r == ((forall|i: int|
                0 <= i < self.deep_view().nodes.len() ==> (
                #[trigger] self.deep_view().nodes[i]).rows.len() == 0) && (forall|i: int|
                0 <= i < self.deep_view().relations.len() ==> (
                #[trigger] self.deep_view().relations[i]).rows.len() == 0)),
    {
        let mut i: usize = 0;
        while i < self.nodes.len()
            invariant
                0 <= i <= self.nodes@.len(),
                forall|j: int|
                    0 <= j < i ==> (#[trigger] self.deep_view().nodes[j]).rows.len() == 0,
            decreases self.nodes@.len() - i,
        {
            assert(self.deep_view().nodes[i as int].rows.len() == self.nodes@[i as int].rows@.len());
            if !self.nodes[i].rows.is_empty() {
                return false;
            }
            i += 1;
        }
        let mut j: usize = 0;
        while j < self.relations.len()
            invariant
                0 <= j <= self.relations@.len(),
                forall|m: int|
                    0 <= m < j ==> (#[trigger] self.deep_view().relations[m]).rows.len() == 0,
            decreases self.relations@.len() - j,
        {
            assert(self.deep_view().relations[j as int].rows.len()
                == self.relations@[j as int].rows@.len());
            if !self.relations[j].rows.is_empty() {
                return false;
            }
            j += 1;
        }
        true
    }

    /// How many node rows the plan holds.
    pub fn total_node_rows(&self) -> (r: usize)
        requires
            node_row_count(self.deep_view().nodes) <= usize::MAX,
        ensures
            r == node_row_count(self.deep_view().nodes),
    {
        let ghost nodes = self.deep_view().nodes;
        let mut sum: usize = 0;
        let mut i: usize = 0;
        while i < self.nodes.len()
            invariant
                nodes == self.deep_view().nodes,
                0 <= i <= self.nodes@.len(),
                sum == node_row_count(nodes.take(i as int)),
                node_row_count(nodes) <= usize::MAX,
            decreases self.nodes@.len() - i,
        {
            proof {
                assert(nodes.take(i + 1).drop_last() =~= nodes.take(i as int));
                node_rows_grow(nodes, i + 1);
            }
            sum += self.nodes[i].rows.len();
            i += 1;
        }
        assert(nodes.take(i as int) =~= nodes);
        sum
    }

    /// How many relation rows the plan holds.
    pub fn total_relation_rows(&self) -> (r: usize)
        requires
            relation_row_count(self.deep_view().relations) <= usize::MAX,
        ensures
            r == relation_row_count(self.deep_view().relations),
    {
        let ghost relations = self.deep_view().relations;
        let mut sum: usize = 0;
        let mut i: usize = 0;
        while i < self.relations.len()
            invariant
                relations == self.deep_view().relations,
                0 <= i <= self.relations@.len(),
                sum == relation_row_count(relations.take(i as int)),
                relation_row_count(relations) <= usize::MAX,
            decreases self.relations@.len() - i,
        {
            proof {
                assert(relations.take(i + 1).drop_last() =~= relations.take(i as int));
                relation_rows_grow(relations, i + 1);
            }
            sum += self.relations[i].rows.len();
            i += 1;
        }
        assert(relations.take(i as int) =~= relations);
        sum
    }
}

impl Default for InsertPlan {
    fn default() -> (r: InsertPlan)
        ensures
            r.deep_view() == (InsertPlanModel {
                action: "insert"@,
                nodes: Seq::empty(),
                relations: Seq::empty(),
            }),
    {
        InsertPlan::new()
    }
}

/// A plan without rows has no row in any of its groups.
pub proof fn law_empty_plan_counts_nothing(plan: InsertPlanModel)
    ensures
        (node_row_count(plan.nodes) == 0) == (forall|i: int|
            0 <= i < plan.nodes.len() ==> (#[trigger] plan.nodes[i]).rows.len() == 0),
        (relation_row_count(plan.relations) == 0) == (forall|i: int|
            0 <= i < plan.relations.len() ==> (#[trigger] plan.relations[i]).rows.len() == 0),
{
    no_node_rows(plan.nodes);
    no_relation_rows(plan.relations);
}

/// Node rows in the order of their ids.
pub open spec fn node_row_le() -> spec_fn(NodeDataModel, NodeDataModel) -> bool {
    |a: NodeDataModel, b: NodeDataModel| literal::literal_le(a.id, b.id)
}

/// Relation rows in the order of the ids they start from, then of those they
/// lead to.
pub open spec fn relation_row_le() -> spec_fn(RelationDataModel, RelationDataModel) -> bool {
    |a: RelationDataModel, b: RelationDataModel|
        literal::literal_lt(a.from_id, b.from_id) || (!literal::literal_lt(b.from_id, a.from_id)
            && literal::literal_le(a.to_id, b.to_id))
}

fn node_row_before(a: &NodeData, b: &NodeData) -> (r: bool)
    ensures
        r == node_row_le()(a.deep_view(), b.deep_view()),
{
    !literal::literal_before(&b.id, &a.id)
}

fn relation_row_before(a: &RelationData, b: &RelationData) -> (r: bool)
    ensures
        r == relation_row_le()(a.deep_view(), b.deep_view()),
{
    literal::literal_before(&a.from_id, &b.from_id) || (!literal::literal_before(
        &b.from_id,
        &a.from_id,
    ) && !literal::literal_before(&b.to_id, &a.to_id))
}

/// Sort node rows by id.
pub fn sort_node_rows(rows: &mut Vec<NodeData>)
    ensures
        final(rows).deep_view() == sorting::sorted_by(old(rows).deep_view(), node_row_le()),
{
    sorting::sort_items(rows, node_row_before, Ghost(node_row_le()));
}

/// Sort relation rows by the ids at their ends.
pub fn sort_relation_rows(rows: &mut Vec<RelationData>)
    ensures
        final(rows).deep_view() == sorting::sorted_by(old(rows).deep_view(), relation_row_le()),
{
    sorting::sort_items(rows, relation_row_before, Ghost(relation_row_le()));
}

/// The row orders compare any two rows and chain.
pub proof fn law_row_orders_are_total()
    ensures
        sorting::is_total_preorder(node_row_le()),
        sorting::is_total_preorder(relation_row_le()),
{
    let le = node_row_le();
    assert forall|a: NodeDataModel, b: NodeDataModel| #[trigger] le(a, b) || le(b, a) by {
        literal::law_literal_order_is_total(a.id, b.id);
    }
    assert forall|a: NodeDataModel, b: NodeDataModel, c: NodeDataModel| #[trigger]
        le(a, b) && #[trigger] le(b, c) implies le(a, c) by {
        literal::law_literal_order_is_transitive(a.id, b.id, c.id);
    }
    let rle = relation_row_le();
    assert forall|a: RelationDataModel, b: RelationDataModel| #[trigger] rle(a, b) || rle(b, a) by {
        literal::law_literal_order_is_total(a.from_id, b.from_id);
        literal::law_literal_order_is_total(a.to_id, b.to_id);
    }
    assert forall|a: RelationDataModel, b: RelationDataModel, c: RelationDataModel| #[trigger]
        rle(a, b) && #[trigger] rle(b, c) implies rle(a, c) by {
        literal::law_literal_order_is_total(a.from_id, b.from_id);
        literal::law_literal_order_is_total(b.from_id, c.from_id);
        literal::law_literal_order_is_transitive(a.from_id, b.from_id, c.from_id);
        if !literal::literal_lt(a.from_id, c.from_id) {
            literal::law_literal_order_is_transitive(c.from_id, a.from_id, b.from_id);
            literal::law_literal_order_is_transitive(b.from_id, c.from_id, a.from_id);
            literal::law_literal_order_is_transitive(a.to_id, b.to_id, c.to_id);
        }
    }
}

/// A copy of property values.
pub fn copy_props(p: &StrMap<Literal>) -> (r: StrMap<Literal>)
    ensures
        r.deep_view() == p.deep_view(),
{
    let mut out: Vec<(String, Literal)> = Vec::new();
    let mut i: usize = 0;
    while i < p.entries.len()
        invariant
            0 <= i <= p.entries@.len(),
            out.deep_view() == p.deep_view().take(i as int),
        decreases p.entries@.len() - i,
    {
        let ghost before = out.deep_view();
        out.push((p.entries[i].0.clone(), copy_literal(&p.entries[i].1)));
        assert(out.deep_view() =~= before.push(p.deep_view()[i as int]));
        i += 1;
        assert(out.deep_view() =~= p.deep_view().take(i as int));
    }
    assert(out.deep_view() =~= p.deep_view());
    StrMap { entries: out }
}

} // verus!
