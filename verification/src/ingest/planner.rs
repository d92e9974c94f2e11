//! Turning extracted rows into an insert query: rows with one id become one
//! node, and rows whose places in the source fit together are related.

use vstd::prelude::*;
use crate::ast;
use crate::ast::InsertQuery;
use crate::ast::InsertQueryModel;
use crate::ast::NodeBatch;
use crate::ast::NodeBatchModel;
use crate::ast::NodeRow;
use crate::ast::NodeRowModel;
use crate::ast::RelationBatch;
use crate::ast::RelationBatchModel;
use crate::ast::RelationRow;
use crate::ast::RelationRowModel;
use crate::ingest::dsl;
use crate::ingest::dsl::InsertPlan;
use crate::ingest::dsl::InsertPlanModel;
use crate::ingest::dsl::NodeData;
use crate::ingest::dsl::NodeDataModel;
use crate::ingest::dsl::NodePlan;
use crate::ingest::dsl::NodePlanModel;
use crate::ingest::dsl::RelationData;
use crate::ingest::dsl::RelationDataModel;
use crate::ingest::dsl::RelationPlan;
use crate::ingest::dsl::RelationPlanModel;
use crate::ingest::error;
use crate::ingest::error::IngestError;
use crate::ingest::error::IngestErrorModel;
use crate::literal;
use crate::literal::copy_literal;
use crate::literal::literal_same;
use crate::literal::Literal;
use crate::literal::LiteralModel;
use crate::seqs;
use crate::seqs::Copied;
use crate::sorting;
use crate::strmap::StrMap;
use crate::text;

verus! {

broadcast use vstd::string::group_string_axioms;

/// `max_batch_size` caps the number of rows in one batch.
#[derive(Debug, Clone, Copy)]
pub struct PlannerOptions {
    pub max_batch_size: usize,
}

impl Default for PlannerOptions {
    fn default() -> (r: PlannerOptions)
        ensures
            r.max_batch_size == 1000,
    {
        PlannerOptions { max_batch_size: 1000 }
    }
}

/// A relation that the mapping declares between two entity types.
#[derive(Debug, PartialEq)]
pub struct RelationMapping {
    pub kind: String,
    pub from: String,
    pub to: String,
}

pub struct RelationMappingModel {
    pub kind: Seq<char>,
    pub from: Seq<char>,
    pub to: Seq<char>,
}

impl DeepView for RelationMapping {
    type V = RelationMappingModel;

    open spec fn deep_view(&self) -> RelationMappingModel {
        RelationMappingModel { kind: self.kind@, from: self.from@, to: self.to@ }
    }
}

/// What of a mapping the planner reads.
#[derive(Debug, PartialEq)]
pub struct Mapping {
    pub relationships: Vec<RelationMapping>,
}

/// One extracted row; `context` holds its position at each repeated step of the
/// source path.
#[derive(Debug, PartialEq)]
pub struct ExtractedRow {
    pub id: Literal,
    pub context: Vec<usize>,
    pub properties: StrMap<Literal>,
}

pub struct RowModel {
    pub id: LiteralModel,
    pub context: Seq<usize>,
    pub properties: Seq<(Seq<char>, LiteralModel)>,
}

impl DeepView for ExtractedRow {
    type V = RowModel;

    open spec fn deep_view(&self) -> RowModel {
        RowModel {
            id: self.id.deep_view(),
            context: self.context@,
            properties: self.properties.deep_view(),
        }
    }
}

/// The rows extracted for one entity type.
#[derive(Debug, PartialEq)]
pub struct ExtractedEntity {
    pub label: String,
    pub primary_key_field: String,
    pub rows: Vec<ExtractedRow>,
}

pub struct ExtractedModel {
    pub label: Seq<char>,
    pub primary_key_field: Seq<char>,
    pub rows: Seq<RowModel>,
}

impl DeepView for ExtractedEntity {
    type V = ExtractedModel;

    open spec fn deep_view(&self) -> ExtractedModel {
        ExtractedModel {
            label: self.label@,
            primary_key_field: self.primary_key_field@,
            rows: self.rows.deep_view(),
        }
    }
}

/// All extracted rows.
#[derive(Debug, PartialEq)]
pub struct Extracted {
    pub entities: Vec<ExtractedEntity>,
}

/// One place lies on the path to the other, or they are the same.
pub open spec fn aligned(a: Seq<usize>, b: Seq<usize>) -> bool {
    forall|i: int| 0 <= i < a.len() && i < b.len() ==> #[trigger] a[i] == b[i]
}

/// Alignment does not depend on which place is named first, and a row without
/// position fits every row.
pub proof fn law_alignment(a: Seq<usize>, b: Seq<usize>)
    ensures
        aligned(a, b) == aligned(b, a),
        aligned(Seq::empty(), a),
        aligned(a, a + b),
{
    if aligned(a, b) {
        assert forall|i: int| 0 <= i < b.len() && i < a.len() implies #[trigger] b[i] == a[i] by {
            assert(a[i] == b[i]);
        }
    }
    if aligned(b, a) {
        assert forall|i: int| 0 <= i < a.len() && i < b.len() implies #[trigger] a[i] == b[i] by {
            assert(b[i] == a[i]);
        }
    }
}

/// Do the two places fit together? See [`aligned`].
pub fn contexts_align(a: &Vec<usize>, b: &Vec<usize>) -> (r: bool)
    ensures
        r == aligned(a@, b@),
{
    let mut i: usize = 0;
    while i < a.len() && i < b.len()
        invariant
            0 <= i <= a@.len(),
            i <= b@.len(),
            forall|j: int| 0 <= j < i ==> #[trigger] a@[j] == b@[j],
        decreases a@.len() - i,
    {
        if a[i] != b[i] {
            return false;
        }
        i += 1;
    }
    true
}

/// The position of the first node with the given id.
pub open spec fn node_position(nodes: Seq<NodeDataModel>, id: LiteralModel) -> Option<int>
    decreases nodes.len(),
{
    if nodes.len() == 0 {
        None
    } else {
        match node_position(nodes.drop_last(), id) {
            Some(i) => Some(i),
            None => if nodes.last().id == id {
                Some(nodes.len() - 1)
            } else {
                None
            },
        }
    }
}

/// One row merged into the nodes: a new id opens a node, a known one has its
/// properties replaced by those of the row.
pub open spec fn row_merged(nodes: Seq<NodeDataModel>, row: RowModel) -> Seq<NodeDataModel> {
    match node_position(nodes, row.id) {
        Some(i) => nodes.update(i, NodeDataModel { id: nodes[i].id, props: row.properties }),
        None => nodes.push(NodeDataModel { id: row.id, props: row.properties }),
    }
}

/// The nodes of the rows, in the order in which their ids first appear.
pub open spec fn rows_merged(rows: Seq<RowModel>) -> Seq<NodeDataModel>
    decreases rows.len(),
{
    if rows.len() == 0 {
        Seq::empty()
    } else {
        row_merged(rows_merged(rows.drop_last()), rows.last())
    }
}

pub(crate) proof fn node_position_found(nodes: Seq<NodeDataModel>, id: LiteralModel)
    ensures
        match node_position(nodes, id) {
            Some(i) => 0 <= i < nodes.len() && nodes[i].id == id,
            None => forall|i: int| 0 <= i < nodes.len() ==> (#[trigger] nodes[i]).id != id,
        },
    decreases nodes.len(),
{
    if nodes.len() > 0 {
        node_position_found(nodes.drop_last(), id);
        if node_position(nodes, id) is None {
            assert forall|i: int| 0 <= i < nodes.len() implies (#[trigger] nodes[i]).id != id by {
                if i < nodes.len() - 1 {
                    assert(nodes.drop_last()[i] == nodes[i]);
                }
            }
        }
    }
}

/// No two merged nodes have the same id, and every row's id has its node.
pub proof fn law_merged_ids_are_distinct(rows: Seq<RowModel>)
    ensures
        forall|i: int, j: int|
            0 <= i < j < rows_merged(rows).len() ==> (#[trigger] rows_merged(rows)[i]).id != (
            #[trigger] rows_merged(rows)[j]).id,
        forall|r: int|
            0 <= r < rows.len() ==> node_position(
                rows_merged(rows),
                (#[trigger] rows[r]).id,
            ) is Some,
    decreases rows.len(),
{
    if rows.len() > 0 {
        let before = rows_merged(rows.drop_last());
        let after = rows_merged(rows);
        let row = rows.last();
        law_merged_ids_are_distinct(rows.drop_last());
        node_position_found(before, row.id);
        assert forall|i: int, j: int| 0 <= i < j < after.len() implies (#[trigger] after[i]).id != (
        #[trigger] after[j]).id by {
            if j < before.len() {
                assert(before[i].id != before[j].id);
                assert(after[i].id == before[i].id && after[j].id == before[j].id);
            } else {
                assert(after[i].id == before[i].id);
            }
        }
        assert forall|r: int| 0 <= r < rows.len() implies node_position(
            after,
            (#[trigger] rows[r]).id,
        ) is Some by {
            if node_position(after, rows[r].id) is None {
                node_position_found(after, rows[r].id);
                if r < rows.len() - 1 {
                    assert(rows.drop_last()[r] == rows[r]);
                    node_position_found(before, rows[r].id);
                    let i = node_position(before, rows[r].id)->0;
                    assert(after[i].id == before[i].id);
                } else {
                    match node_position(before, row.id) {
                        Some(i) => {
                            assert(after[i].id == row.id);
                        },
                        None => {
                            assert(after[before.len() as int].id == row.id);
                        },
                    }
                }
            }
        }
    }
}

proof fn node_position_at(nodes: Seq<NodeDataModel>, id: LiteralModel, i: int)
    requires
        0 <= i < nodes.len(),
        nodes[i].id == id,
        forall|j: int| 0 <= j < i ==> (#[trigger] nodes[j]).id != id,
    ensures
        node_position(nodes, id) == Some(i),
    decreases nodes.len(),
{
    let rest = nodes.drop_last();
    node_position_found(rest, id);
    if i < nodes.len() - 1 {
        assert forall|j: int| 0 <= j < i implies (#[trigger] rest[j]).id != id by {
            assert(nodes[j].id != id);
        }
        node_position_at(rest, id, i);
    } else if let Some(k) = node_position(rest, id) {
        assert(nodes[k].id == id);
    }
}

fn position_of(nodes: &Vec<NodeData>, id: &Literal) -> (r: Option<usize>)
    ensures
        match r {
            Some(i) => i < nodes@.len() && node_position(nodes.deep_view(), id.deep_view())
                == Some(i as int),
            None => node_position(nodes.deep_view(), id.deep_view()) is None,
        },
{
    let ghost all = nodes.deep_view();
    let mut i: usize = 0;
    while i < nodes.len()
        invariant
            all == nodes.deep_view(),
            0 <= i <= nodes@.len(),
            forall|j: int| 0 <= j < i ==> (#[trigger] all[j]).id != id.deep_view(),
        decreases nodes@.len() - i,
    {
        assert(all[i as int].id == nodes@[i as int].id.deep_view());
        if literal_same(&nodes[i].id, id) {
            proof {
                node_position_at(all, id.deep_view(), i as int);
            }
            return Some(i);
        }
        i += 1;
    }
    proof {
        node_position_found(all, id.deep_view());
    }
    None
}

fn merge_rows(rows: &Vec<ExtractedRow>) -> (r: Vec<NodeData>)
    ensures
        r.deep_view() == rows_merged(rows.deep_view()),
{
    let ghost all = rows.deep_view();
    let mut out: Vec<NodeData> = Vec::new();
    assert(out.deep_view() =~= Seq::<NodeDataModel>::empty());
    let mut i: usize = 0;
    while i < rows.len()
        invariant
            all == rows.deep_view(),
            0 <= i <= rows@.len(),
            out.deep_view() == rows_merged(all.take(i as int)),
        decreases rows@.len() - i,
    {
        let ghost before = out.deep_view();
        let ghost row = all[i as int];
        proof {
            assert(all.take(i + 1).drop_last() =~= all.take(i as int));
            assert(all.take(i + 1).last() == row);
            assert(row == rows@[i as int].deep_view());
        }
        match position_of(&out, &rows[i].id) {
            Some(p) => {
                let node = out.remove(p);
                assert(node.id.deep_view() == before[p as int].id);
                out.insert(p, NodeData { id: node.id, props: rows[i].properties.copied() });
                assert(out.deep_view() =~= row_merged(before, row));
            },
            None => {
                out.push(
                    NodeData {
                        id: copy_literal(&rows[i].id),
                        props: rows[i].properties.copied(),
                    },
                );
                assert(out.deep_view() =~= row_merged(before, row));
            },
        }
        i += 1;
    }
    assert(all.take(i as int) =~= all);
    out
}

/// The plan of one entity type: its nodes, sorted by id.
pub open spec fn entity_plan(e: ExtractedModel) -> NodePlanModel {
    NodePlanModel {
        label: e.label,
        merge_on: e.primary_key_field,
        rows: sorting::sorted_by(rows_merged(e.rows), dsl::node_row_le()),
    }
}

/// Is the row at `r` the last of its id, and has the node its properties?
pub open spec fn is_last_row(rows: Seq<RowModel>, r: int, node: NodeDataModel) -> bool {
    &&& 0 <= r < rows.len()
    &&& rows[r].id == node.id
    &&& rows[r].properties == node.props
    &&& forall|k: int| r < k < rows.len() ==> (#[trigger] rows[k]).id != node.id
}

/// Has the node the properties of the last row of its id?
pub open spec fn keeps_last(rows: Seq<RowModel>, node: NodeDataModel) -> bool {
    exists|r: int| is_last_row(rows, r, node)
}

proof fn merged_nodes_are_last_rows(rows: Seq<RowModel>, i: int) -> (r: int)
    requires
        0 <= i < rows_merged(rows).len(),
    ensures
        is_last_row(rows, r, rows_merged(rows)[i]),
    decreases rows.len(),
{
    let before = rows_merged(rows.drop_last());
    let node = rows_merged(rows)[i];
    let last = rows.last();
    node_position_found(before, last.id);
    if node.id == last.id {
        law_merged_ids_are_distinct(rows.drop_last());
        if let Some(p) = node_position(before, last.id) {
            if i != p {
                assert(before[i].id == before[p].id);
            }
        } else if i < before.len() {
            assert(before[i].id != last.id);
        }
        rows.len() - 1
    } else {
        assert(i < before.len() && before[i] == node);
        let r = merged_nodes_are_last_rows(rows.drop_last(), i);
        assert forall|k: int| r < k < rows.len() implies (#[trigger] rows[k]).id != node.id by {
            if k < rows.len() - 1 {
                assert(rows.drop_last()[k] == rows[k]);
            }
        }
        assert(rows.drop_last()[r] == rows[r]);
        r
    }
}

/// The plan of an entity type holds each id of its rows once, in ascending order,
/// with the properties of the last row of that id.
pub proof fn law_last_properties_are_kept(e: ExtractedModel)
    ensures
        ({
            let planned = entity_plan(e).rows;
            &&& forall|i: int, j: int|
                0 <= i < j < planned.len() ==> (#[trigger] planned[i]).id != (
                #[trigger] planned[j]).id && literal::literal_le(planned[i].id, planned[j].id)
            &&& forall|i: int|
                0 <= i < planned.len() ==> keeps_last(e.rows, #[trigger] planned[i])
            &&& forall|r: int|
                0 <= r < e.rows.len() ==> node_position(planned, (#[trigger] e.rows[r]).id) is Some
        }),
{
    let le = dsl::node_row_le();
    let merged = rows_merged(e.rows);
    let planned = entity_plan(e).rows;
    dsl::law_row_orders_are_total();
    sorting::law_sorted_by(merged, le);
    law_merged_ids_are_distinct(e.rows);
    assert(merged.no_duplicates()) by {
        assert forall|i: int, j: int| 0 <= i < merged.len() && 0 <= j < merged.len() && i
            != j implies merged[i] != merged[j] by {
            if i < j {
                assert(merged[i].id != merged[j].id);
            } else {
                assert(merged[j].id != merged[i].id);
            }
        }
    }
    merged.lemma_multiset_has_no_duplicates();
    planned.lemma_multiset_has_no_duplicates_conv();
    assert forall|i: int, j: int| 0 <= i < j < planned.len() implies (#[trigger] planned[i]).id != (
    #[trigger] planned[j]).id && literal::literal_le(planned[i].id, planned[j].id) by {
        assert(le(planned[i], planned[j]));
        assert(planned[i] != planned[j]);
        sorting::sorting_adds_none(merged, le, planned[i]);
        sorting::sorting_adds_none(merged, le, planned[j]);
        let a = choose|a: int| 0 <= a < merged.len() && merged[a] == planned[i];
        let b = choose|b: int| 0 <= b < merged.len() && merged[b] == planned[j];
        if a < b {
            assert(merged[a].id != merged[b].id);
        } else {
            assert(merged[b].id != merged[a].id);
        }
    }
    assert forall|i: int| 0 <= i < planned.len() implies keeps_last(
        e.rows,
        #[trigger] planned[i],
    ) by {
        sorting::sorting_adds_none(merged, le, planned[i]);
        let a = choose|a: int| 0 <= a < merged.len() && merged[a] == planned[i];
        let r = merged_nodes_are_last_rows(e.rows, a);
    }
    assert forall|r: int| 0 <= r < e.rows.len() implies node_position(
        planned,
        (#[trigger] e.rows[r]).id,
    ) is Some by {
        node_position_found(merged, e.rows[r].id);
        let a = node_position(merged, e.rows[r].id)->0;
        sorting::sorting_keeps(merged, le, merged[a]);
        let b = choose|b: int| 0 <= b < planned.len() && planned[b] == merged[a];
        node_position_found(planned, e.rows[r].id);
        assert(planned[b].id == e.rows[r].id);
    }
}

/// The entity type of a label: the last one extracted under it.
pub open spec fn entity_of(entities: Seq<ExtractedModel>, label: Seq<char>) -> Option<
    ExtractedModel,
>
    decreases entities.len(),
{
    if entities.len() == 0 {
        None
    } else if entities.last().label == label {
        Some(entities.last())
    } else {
        entity_of(entities.drop_last(), label)
    }
}

fn find_entity<'a>(entities: &'a Vec<ExtractedEntity>, label: &str) -> (r: Option<
    &'a ExtractedEntity,
>)
    ensures
        r.deep_view() == entity_of(entities.deep_view(), label@),
{
    let ghost all = entities.deep_view();
    let mut i: usize = entities.len();
    assert(all.take(i as int) =~= all);
    while i > 0
        invariant
            all == entities.deep_view(),
            0 <= i <= entities@.len(),
            entity_of(all, label@) == entity_of(all.take(i as int), label@),
        decreases i,
    {
        proof {
            assert(all.take(i as int).last() == entities@[i - 1].deep_view());
            assert(all.take(i as int).drop_last() =~= all.take(i - 1));
        }
        if text::text_eq(entities[i - 1].label.as_str(), label) {
            return Some(&entities[i - 1]);
        }
        i -= 1;
    }
    None
}

/// A pair of rows that is not in the list yet, where their places fit together.
pub open spec fn pair_added(
    pairs: Seq<RelationDataModel>,
    from: RowModel,
    to: RowModel,
) -> Seq<RelationDataModel> {
    let pair = RelationDataModel { from_id: from.id, to_id: to.id };
    if aligned(from.context, to.context) && !pairs.contains(pair) {
        pairs.push(pair)
    } else {
        pairs
    }
}

/// The pairs of one row with the first `n` rows on the other side.
pub open spec fn pairs_of_row(
    pairs: Seq<RelationDataModel>,
    from: RowModel,
    to: Seq<RowModel>,
    n: nat,
) -> Seq<RelationDataModel>
    decreases n,
{
    if n == 0 {
        pairs
    } else {
        pair_added(pairs_of_row(pairs, from, to, (n - 1) as nat), from, to[n - 1])
    }
}

/// The distinct pairs of rows whose places fit together, over the first `n` rows
/// on the one side and all on the other.
pub open spec fn pairs_of(from: Seq<RowModel>, to: Seq<RowModel>, n: nat) -> Seq<RelationDataModel>
    decreases n,
{
    if n == 0 {
        Seq::empty()
    } else {
        pairs_of_row(pairs_of(from, to, (n - 1) as nat), from[n - 1], to, to.len())
    }
}

fn has_pair(pairs: &Vec<RelationData>, from: &Literal, to: &Literal) -> (r: bool)
    ensures
        r == pairs.deep_view().contains(
            RelationDataModel { from_id: from.deep_view(), to_id: to.deep_view() },
        ),
{
    let ghost pair = RelationDataModel { from_id: from.deep_view(), to_id: to.deep_view() };
    let mut i: usize = 0;
    while i < pairs.len()
        invariant
            pair == (RelationDataModel { from_id: from.deep_view(), to_id: to.deep_view() }),
            0 <= i <= pairs@.len(),
            forall|j: int| 0 <= j < i ==> #[trigger] pairs.deep_view()[j] != pair,
        decreases pairs@.len() - i,
    {
        assert(pairs.deep_view()[i as int] == pairs@[i as int].deep_view());
        if literal_same(&pairs[i].from_id, from) && literal_same(&pairs[i].to_id, to) {
            return true;
        }
        i += 1;
    }
    false
}

fn pair_rows(from: &Vec<ExtractedRow>, to: &Vec<ExtractedRow>) -> (r: Vec<RelationData>)
    ensures
        r.deep_view() == pairs_of(from.deep_view(), to.deep_view(), from@.len()),
{
    let ghost (fm, tm) = (from.deep_view(), to.deep_view());
    let mut out: Vec<RelationData> = Vec::new();
    assert(out.deep_view() =~= Seq::<RelationDataModel>::empty());
    let mut i: usize = 0;
    while i < from.len()
        invariant
            fm == from.deep_view(),
            tm == to.deep_view(),
            0 <= i <= from@.len(),
            out.deep_view() == pairs_of(fm, tm, i as nat),
        decreases from@.len() - i,
    {
        let ghost start = out.deep_view();
        assert(fm[i as int] == from@[i as int].deep_view());
        let mut j: usize = 0;
        while j < to.len()
            invariant
                fm == from.deep_view(),
                tm == to.deep_view(),
                0 <= i < from@.len(),
                fm[i as int] == from@[i as int].deep_view(),
                0 <= j <= to@.len(),
                out.deep_view() == pairs_of_row(start, fm[i as int], tm, j as nat),
            decreases to@.len() - j,
        {
            assert(tm[j as int] == to@[j as int].deep_view());
            if contexts_align(&from[i].context, &to[j].context) && !has_pair(
                &out,
                &from[i].id,
                &to[j].id,
            ) {
                let ghost before = out.deep_view();
                let pair = RelationData {
                    from_id: copy_literal(&from[i].id),
                    to_id: copy_literal(&to[j].id),
                };
                out.push(pair);
                assert(out.deep_view() =~= before.push(pair.deep_view()));
            }
            j += 1;
        }
        i += 1;
    }
    out
}

/// The plan of one declared relation.
pub open spec fn mapped_relation(entities: Seq<ExtractedModel>, m: RelationMappingModel) -> Result<
    RelationPlanModel,
    IngestErrorModel,
> {
    match entity_of(entities, m.from) {
        None => Err(IngestErrorModel::UnknownEntityType(m.from)),
        Some(from) => match entity_of(entities, m.to) {
            None => Err(IngestErrorModel::UnknownEntityType(m.to)),
            Some(to) => Ok(
                RelationPlanModel {
                    rel_type: m.kind,
                    from_label: from.label,
                    from_key: from.primary_key_field,
                    to_label: to.label,
                    to_key: to.primary_key_field,
                    rows: sorting::sorted_by(
                        pairs_of(from.rows, to.rows, from.rows.len()),
                        dsl::relation_row_le(),
                    ),
                },
            ),
        },
    }
}

/// The plans of the declared relations, or the first unknown entity type.
pub open spec fn mapped_relations(
    entities: Seq<ExtractedModel>,
    relations: Seq<RelationMappingModel>,
) -> Result<Seq<RelationPlanModel>, IngestErrorModel>
    decreases relations.len(),
{
    if relations.len() == 0 {
        Ok(Seq::empty())
    } else {
        match mapped_relations(entities, relations.drop_last()) {
            Err(e) => Err(e),
            Ok(plans) => match mapped_relation(entities, relations.last()) {
                Err(e) => Err(e),
                Ok(plan) => Ok(plans.push(plan)),
            },
        }
    }
}

proof fn mapped_relations_fail(
    entities: Seq<ExtractedModel>,
    relations: Seq<RelationMappingModel>,
    n: int,
)
    requires
        0 <= n <= relations.len(),
        mapped_relations(entities, relations.take(n)) is Err,
    ensures
        mapped_relations(entities, relations) == mapped_relations(entities, relations.take(n)),
    decreases relations.len() - n,
{
    if n == relations.len() {
        assert(relations.take(n) =~= relations);
    } else {
        assert(relations.take(n + 1).drop_last() =~= relations.take(n));
        mapped_relations_fail(entities, relations, n + 1);
    }
}

/// The plan of extracted rows.
pub open spec fn planned(
    entities: Seq<ExtractedModel>,
    relations: Seq<RelationMappingModel>,
) -> Result<
    InsertPlanModel,
    IngestErrorModel,
> {
    match mapped_relations(entities, relations) {
        Err(e) => Err(e),
        Ok(plans) => Ok(
            InsertPlanModel {
                action: "insert"@,
                nodes: entities.map_values(|e: ExtractedModel| entity_plan(e)),
                relations: plans,
            },
        ),
    }
}

/// Assemble the insert plan of the extracted rows.
pub fn build_plan(mapping: &Mapping, extracted: &Extracted) -> (r: Result<InsertPlan, IngestError>)
    ensures
        error::outcome_model(r) == planned(
            extracted.entities.deep_view(),
            mapping.relationships.deep_view(),
        ),
{
    let ghost entities = extracted.entities.deep_view();
    let ghost relationships = mapping.relationships.deep_view();
    let ghost node_plans = entities.map_values(|e: ExtractedModel| entity_plan(e));
    let mut nodes: Vec<NodePlan> = Vec::new();
    let mut i: usize = 0;
    while i < extracted.entities.len()
        invariant
            entities == extracted.entities.deep_view(),
            node_plans == entities.map_values(|e: ExtractedModel| entity_plan(e)),
            0 <= i <= extracted.entities@.len(),
            nodes.deep_view() == node_plans.take(i as int),
        decreases extracted.entities@.len() - i,
    {
        let e = &extracted.entities[i];
        assert(entities[i as int] == e.deep_view());
        let mut rows = merge_rows(&e.rows);
        dsl::sort_node_rows(&mut rows);
        let plan = NodePlan {
            label: e.label.clone(),
            merge_on: e.primary_key_field.clone(),
            rows,
        };
        let ghost before = nodes.deep_view();
        nodes.push(plan);
        assert(nodes.deep_view() =~= before.push(plan.deep_view()));
        i += 1;
        assert(nodes.deep_view() =~= node_plans.take(i as int));
    }
    assert(nodes.deep_view() =~= node_plans);
    let mut relations: Vec<RelationPlan> = Vec::new();
    assert(relations.deep_view() =~= Seq::<RelationPlanModel>::empty());
    let mut j: usize = 0;
    while j < mapping.relationships.len()
        invariant
            entities == extracted.entities.deep_view(),
            relationships == mapping.relationships.deep_view(),
            0 <= j <= mapping.relationships@.len(),
            mapped_relations(entities, relationships.take(j as int)) == Ok::<
                Seq<RelationPlanModel>,
                IngestErrorModel,
            >(relations.deep_view()),
        decreases mapping.relationships@.len() - j,
    {
        let rel = &mapping.relationships[j];
        proof {
            assert(relationships.take(j + 1).drop_last() =~= relationships.take(j as int));
            assert(relationships.take(j + 1).last() == rel.deep_view());
            if mapped_relations(entities, relationships.take(j + 1)) is Err {
                mapped_relations_fail(entities, relationships, j + 1);
            }
        }
        let from = match find_entity(&extracted.entities, rel.from.as_str()) {
            None => {
                return Err(IngestError::UnknownEntityType(rel.from.clone()));
            },
            Some(e) => e,
        };
        let to = match find_entity(&extracted.entities, rel.to.as_str()) {
            None => {
                return Err(IngestError::UnknownEntityType(rel.to.clone()));
            },
            Some(e) => e,
        };
        let mut rows = pair_rows(&from.rows, &to.rows);
        dsl::sort_relation_rows(&mut rows);
        let plan = RelationPlan {
            rel_type: rel.kind.clone(),
            from_label: from.label.clone(),
            from_key: from.primary_key_field.clone(),
            to_label: to.label.clone(),
            to_key: to.primary_key_field.clone(),
            rows,
        };
        let ghost before = relations.deep_view();
        relations.push(plan);
        assert(relations.deep_view() =~= before.push(plan.deep_view()));
        j += 1;
    }
    assert(relationships.take(j as int) =~= relationships);
    Ok(InsertPlan { action: "insert".to_owned(), nodes, relations })
}

/// A plan row as a query row.
pub open spec fn node_row(d: NodeDataModel) -> NodeRowModel {
    NodeRowModel { id: d.id, props: d.props, scope_labels: Seq::empty() }
}

pub open spec fn relation_row(d: RelationDataModel) -> RelationRowModel {
    RelationRowModel { from_id: d.from_id, to_id: d.to_id, props: Seq::empty() }
}

/// The batches of one node plan.
pub open spec fn node_batches(p: NodePlanModel, n: nat) -> Seq<NodeBatchModel> {
    ast::chunked(p.rows.map_values(|d: NodeDataModel| node_row(d)), n).map_values(
        |rows: Seq<NodeRowModel>|
            NodeBatchModel {
                label: p.label,
                merge_on: p.merge_on,
                prefix_label: None,
                domain_label: None,
                rows,
            },
    )
}

/// The batches of one relation plan.
pub open spec fn relation_batches(p: RelationPlanModel, n: nat) -> Seq<RelationBatchModel> {
    ast::chunked(p.rows.map_values(|d: RelationDataModel| relation_row(d)), n).map_values(
        |rows: Seq<RelationRowModel>|
            RelationBatchModel {
                rel_type: p.rel_type,
                from_label: p.from_label,
                from_key: p.from_key,
                to_label: p.to_label,
                to_key: p.to_key,
                prefix_label: None,
                domain_label: None,
                rows,
            },
    )
}

/// The batches of a whole plan, plan by plan.
pub open spec fn all_node_batches(plans: Seq<NodePlanModel>, n: nat) -> Seq<NodeBatchModel>
    decreases plans.len(),
{
    if plans.len() == 0 {
        Seq::empty()
    } else {
        all_node_batches(plans.drop_last(), n) + node_batches(plans.last(), n)
    }
}

pub open spec fn all_relation_batches(plans: Seq<RelationPlanModel>, n: nat) -> Seq<
    RelationBatchModel,
>
    decreases plans.len(),
{
    if plans.len() == 0 {
        Seq::empty()
    } else {
        all_relation_batches(plans.drop_last(), n) + relation_batches(plans.last(), n)
    }
}

/// A plan in batches of at most `n` rows.
pub open spec fn lowered(plan: InsertPlanModel, n: nat) -> InsertQueryModel {
    InsertQueryModel {
        node_batches: all_node_batches(plan.nodes, n),
        relation_batches: all_relation_batches(plan.relations, n),
    }
}

fn node_plan_batches(p: &NodePlan, n: usize) -> (r: Vec<NodeBatch>)
    requires
        n > 0,
    ensures
        r.deep_view() == node_batches(p.deep_view(), n as nat),
{
    let ghost model = p.deep_view();
    let ghost rows_model = model.rows.map_values(|d: NodeDataModel| node_row(d));
    let mut rows: Vec<NodeRow> = Vec::new();
    let mut i: usize = 0;
    while i < p.rows.len()
        invariant
            model == p.deep_view(),
            rows_model == model.rows.map_values(|d: NodeDataModel| node_row(d)),
            0 <= i <= p.rows@.len(),
            rows.deep_view() == rows_model.take(i as int),
        decreases p.rows@.len() - i,
    {
        assert(model.rows[i as int] == p.rows@[i as int].deep_view());
        let row = NodeRow {
            id: copy_literal(&p.rows[i].id),
            props: dsl::copy_props(&p.rows[i].props),
            scope_labels: seqs::no_items(),
        };
        let ghost before = rows.deep_view();
        rows.push(row);
        assert(rows.deep_view() =~= before.push(row.deep_view()));
        i += 1;
        assert(rows.deep_view() =~= rows_model.take(i as int));
    }
    assert(rows.deep_view() =~= rows_model);
    let mut runs = ast::chunk_rows(rows, n);
    let ghost all = runs.deep_view();
    let ghost goal = node_batches(model, n as nat);
    let mut out: Vec<NodeBatch> = Vec::new();
    while runs.len() > 0
        invariant
            model == p.deep_view(),
            all == ast::chunked(rows_model, n as nat),
            rows_model == model.rows.map_values(|d: NodeDataModel| node_row(d)),
            goal == node_batches(model, n as nat),
            out@.len() + runs@.len() == all.len(),
            runs.deep_view() == all.skip(out@.len() as int),
            out.deep_view() == goal.take(out@.len() as int),
        decreases runs@.len(),
    {
        let ghost k = out@.len() as int;
        let ghost rest = runs.deep_view();
        assert(rest[0] == all[k]);
        let rows = runs.remove(0);
        assert(runs.deep_view() =~= rest.remove(0));
        assert(runs.deep_view() =~= all.skip(k + 1));
        let batch = NodeBatch {
            label: p.label.clone(),
            merge_on: p.merge_on.clone(),
            prefix_label: None,
            domain_label: None,
            rows,
        };
        assert(batch.deep_view() == goal[k]);
        let ghost before = out.deep_view();
        out.push(batch);
        assert(out.deep_view() =~= before.push(batch.deep_view()));
        assert(out.deep_view() =~= goal.take(k + 1));
    }
    assert(out.deep_view() =~= goal);
    out
}

fn relation_plan_batches(p: &RelationPlan, n: usize) -> (r: Vec<RelationBatch>)
    requires
        n > 0,
    ensures
        r.deep_view() == relation_batches(p.deep_view(), n as nat),
{
    let ghost model = p.deep_view();
    let ghost rows_model = model.rows.map_values(|d: RelationDataModel| relation_row(d));
    let mut rows: Vec<RelationRow> = Vec::new();
    let mut i: usize = 0;
    while i < p.rows.len()
        invariant
            model == p.deep_view(),
            rows_model == model.rows.map_values(|d: RelationDataModel| relation_row(d)),
            0 <= i <= p.rows@.len(),
            rows.deep_view() == rows_model.take(i as int),
        decreases p.rows@.len() - i,
    {
        assert(model.rows[i as int] == p.rows@[i as int].deep_view());
        let row = RelationRow {
            from_id: copy_literal(&p.rows[i].from_id),
            to_id: copy_literal(&p.rows[i].to_id),
            props: StrMap::new(),
        };
        let ghost before = rows.deep_view();
        rows.push(row);
        assert(rows.deep_view() =~= before.push(row.deep_view()));
        i += 1;
        assert(rows.deep_view() =~= rows_model.take(i as int));
    }
    assert(rows.deep_view() =~= rows_model);
    let mut runs = ast::chunk_rows(rows, n);
    let ghost all = runs.deep_view();
    let ghost goal = relation_batches(model, n as nat);
    let mut out: Vec<RelationBatch> = Vec::new();
    while runs.len() > 0
        invariant
            model == p.deep_view(),
            all == ast::chunked(rows_model, n as nat),
            rows_model == model.rows.map_values(|d: RelationDataModel| relation_row(d)),
            goal == relation_batches(model, n as nat),
            out@.len() + runs@.len() == all.len(),
            runs.deep_view() == all.skip(out@.len() as int),
            out.deep_view() == goal.take(out@.len() as int),
        decreases runs@.len(),
    {
        let ghost k = out@.len() as int;
        let ghost rest = runs.deep_view();
        assert(rest[0] == all[k]);
        let rows = runs.remove(0);
        assert(runs.deep_view() =~= rest.remove(0));
        assert(runs.deep_view() =~= all.skip(k + 1));
        let batch = RelationBatch {
            rel_type: p.rel_type.clone(),
            from_label: p.from_label.clone(),
            from_key: p.from_key.clone(),
            to_label: p.to_label.clone(),
            to_key: p.to_key.clone(),
            prefix_label: None,
            domain_label: None,
            rows,
        };
        assert(batch.deep_view() == goal[k]);
        let ghost before = out.deep_view();
        out.push(batch);
        assert(out.deep_view() =~= before.push(batch.deep_view()));
        assert(out.deep_view() =~= goal.take(k + 1));
    }
    assert(out.deep_view() =~= goal);
    out
}

/// Cut a plan into batches of bounded size.
pub fn lower_plan(plan: &InsertPlan, opts: PlannerOptions) -> (r: InsertQuery)
    requires
        opts.max_batch_size > 0,
    ensures
        r.deep_view() == lowered(plan.deep_view(), opts.max_batch_size as nat),
{
    let ghost n = opts.max_batch_size as nat;
    let ghost model = plan.deep_view();
    let mut nodes: Vec<NodeBatch> = Vec::new();
    assert(nodes.deep_view() =~= Seq::<NodeBatchModel>::empty());
    let mut i: usize = 0;
    while i < plan.nodes.len()
        invariant
            n == opts.max_batch_size > 0,
            model == plan.deep_view(),
            0 <= i <= plan.nodes@.len(),
            nodes.deep_view() == all_node_batches(model.nodes.take(i as int), n),
        decreases plan.nodes@.len() - i,
    {
        proof {
            assert(model.nodes.take(i + 1).drop_last() =~= model.nodes.take(i as int));
            assert(model.nodes.take(i + 1).last() == plan.nodes@[i as int].deep_view());
        }
        let ghost before = nodes.deep_view();
        let mut more = node_plan_batches(&plan.nodes[i], opts.max_batch_size);
        let ghost added = more.deep_view();
        nodes.append(&mut more);
        assert(nodes.deep_view() =~= before + added);
        i += 1;
    }
    assert(model.nodes.take(i as int) =~= model.nodes);
    let mut relations: Vec<RelationBatch> = Vec::new();
    assert(relations.deep_view() =~= Seq::<RelationBatchModel>::empty());
    let mut j: usize = 0;
    while j < plan.relations.len()
        invariant
            n == opts.max_batch_size > 0,
            model == plan.deep_view(),
            0 <= j <= plan.relations@.len(),
            relations.deep_view() == all_relation_batches(model.relations.take(j as int), n),
        decreases plan.relations@.len() - j,
    {
        proof {
            assert(model.relations.take(j + 1).drop_last() =~= model.relations.take(j as int));
            assert(model.relations.take(j + 1).last() == plan.relations@[j as int].deep_view());
        }
        let ghost before = relations.deep_view();
        let mut more = relation_plan_batches(&plan.relations[j], opts.max_batch_size);
        let ghost added = more.deep_view();
        relations.append(&mut more);
        assert(relations.deep_view() =~= before + added);
        j += 1;
    }
    assert(model.relations.take(j as int) =~= model.relations);
    InsertQuery { node_batches: nodes, relation_batches: relations }
}

/// The query of extracted rows in batches of at most `n` rows.
pub open spec fn query_of(
    entities: Seq<ExtractedModel>,
    relations: Seq<RelationMappingModel>,
    n: nat,
) -> Result<InsertQueryModel, IngestErrorModel> {
    if n == 0 {
        Err(IngestErrorModel::InvalidBatchSize)
    } else {
        match planned(entities, relations) {
            Err(e) => Err(e),
            Ok(plan) => Ok(lowered(plan, n)),
        }
    }
}

/// Plan extracted rows and cut the plan into batches.
pub fn plan_with_options(
    mapping: &Mapping,
    extracted: Extracted,
    opts: PlannerOptions,
) -> (r: Result<
    InsertQuery,
    IngestError,
>)
    ensures
        error::outcome_model(r) == query_of(
            extracted.entities.deep_view(),
            mapping.relationships.deep_view(),
            opts.max_batch_size as nat,
        ),
{
    if opts.max_batch_size == 0 {
        return Err(IngestError::InvalidBatchSize);
    }
    match build_plan(mapping, &extracted) {
        Err(e) => Err(e),
        Ok(plan) => Ok(lower_plan(&plan, opts)),
    }
}

/// Plan extracted rows in batches of at most 1000 rows.
pub fn plan(mapping: &Mapping, extracted: Extracted) -> (r: Result<InsertQuery, IngestError>)
    ensures
        error::outcome_model(r) == query_of(
            extracted.entities.deep_view(),
            mapping.relationships.deep_view(),
            1000,
        ),
{
    plan_with_options(mapping, extracted, PlannerOptions { max_batch_size: 1000 })
}

} // verus!
