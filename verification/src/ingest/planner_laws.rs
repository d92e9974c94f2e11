//! What a plan of extracted rows holds: one node for each id, a relation wherever two rows
//! fit together, and the same rows again once the plan is cut into batches.

use vstd::prelude::*;
use crate::ast;
use crate::ast::InsertQueryModel;
use crate::ast::NodeBatchModel;
use crate::ast::NodeRowModel;
use crate::ast::RelationBatchModel;
use crate::ast::RelationRowModel;
use crate::ingest::dsl;
use crate::ingest::dsl::InsertPlanModel;
use crate::ingest::dsl::NodeDataModel;
use crate::ingest::dsl::NodePlanModel;
use crate::ingest::dsl::RelationDataModel;
use crate::ingest::dsl::RelationPlanModel;
use crate::ingest::error::IngestErrorModel;
use crate::ingest::laws;
use crate::ingest::planner;
use crate::ingest::planner::ExtractedModel;
use crate::ingest::planner::RelationMappingModel;
use crate::ingest::planner::RowModel;
use crate::literal;
use crate::literal::LiteralModel;
use crate::sorting;

verus! {

broadcast use vstd::string::group_string_axioms;

/// Do the places of two rows agree as far as both go?
pub open spec fn places_agree(a: RowModel, b: RowModel) -> bool {
    forall|i: int|
        0 <= i < a.context.len() && i < b.context.len() ==> #[trigger] a.context[i] == b.context[i]
}

/// Are there two rows with these ids whose places agree?
pub open spec fn rows_fit(
    from: Seq<RowModel>,
    to: Seq<RowModel>,
    a: LiteralModel,
    b: LiteralModel,
) -> bool {
    exists|i: int, j: int|
        0 <= i < from.len() && 0 <= j < to.len() && (#[trigger] from[i]).id == a && (
        #[trigger] to[j]).id == b && places_agree(from[i], to[j])
}

/// Is this the entity type that a label stands for: the last one of that label?
pub open spec fn stands_for(es: Seq<ExtractedModel>, label: Seq<char>, e: ExtractedModel) -> bool {
    exists|i: int|
        0 <= i < es.len() && (#[trigger] es[i]) == e && e.label == label && forall|j: int|
            i < j < es.len() ==> (#[trigger] es[j]).label != label
}

/// Is a relation plan that of a mapping between two entity types: a row from one id to
/// another exactly where two of their rows with these ids fit together, and no row twice?
pub open spec fn relates(
    from: ExtractedModel,
    to: ExtractedModel,
    m: RelationMappingModel,
    p: RelationPlanModel,
) -> bool {
    &&& p.rel_type == m.kind
    &&& p.from_label == m.from
    &&& p.to_label == m.to
    &&& p.from_key == from.primary_key_field
    &&& p.to_key == to.primary_key_field
    &&& forall|x: RelationDataModel| #[trigger]
        p.rows.contains(x) <==> rows_fit(from.rows, to.rows, x.from_id, x.to_id)
    &&& p.rows.no_duplicates()
}

proof fn known_type(es: Seq<ExtractedModel>, label: Seq<char>)
    ensures
        match planner::entity_of(es, label) {
            Some(e) => stands_for(es, label, e),
            None => forall|i: int| 0 <= i < es.len() ==> (#[trigger] es[i]).label != label,
        },
    decreases es.len(),
{
    if es.len() > 0 {
        let rest = es.drop_last();
        known_type(rest, label);
        if es.last().label == label {
            assert(es[es.len() - 1] == es.last());
        } else {
            match planner::entity_of(rest, label) {
                Some(e) => {
                    let i = choose|i: int|
                        0 <= i < rest.len() && (#[trigger] rest[i]) == e && e.label == label
                            && forall|j: int|
                            i < j < rest.len() ==> (#[trigger] rest[j]).label != label;
                    assert(es[i] == e);
                    assert forall|j: int| i < j < es.len() implies (#[trigger] es[j]).label
                        != label by {
                        if j < rest.len() {
                            assert(rest[j] == es[j]);
                        }
                    }
                },
                None => {
                    assert forall|i: int| 0 <= i < es.len() implies (#[trigger] es[i]).label
                        != label by {
                        if i < rest.len() {
                            assert(rest[i] == es[i]);
                        }
                    }
                },
            }
        }
    }
}

/// Pairs of rows among the first `m` of the one list, and of the row at `m` with the first
/// `n` of the other.
spec fn pair_so_far(
    from: Seq<RowModel>,
    to: Seq<RowModel>,
    m: int,
    n: int,
    x: RelationDataModel,
) -> bool {
    exists|i: int, j: int|
        0 <= i < from.len() && 0 <= j < to.len() && (i < m || (i == m && j < n)) && (
        #[trigger] from[i]).id == x.from_id && (#[trigger] to[j]).id == x.to_id && places_agree(
            from[i],
            to[j],
        )
}

proof fn row_pairs(from: Seq<RowModel>, to: Seq<RowModel>, m: int, n: nat, pairs: Seq<RelationDataModel>)
    requires
        0 <= m < from.len(),
        n <= to.len(),
        pairs.no_duplicates(),
        forall|x: RelationDataModel| #[trigger]
            pairs.contains(x) <==> pair_so_far(from, to, m, 0, x),
    ensures
        planner::pairs_of_row(pairs, from[m], to, n).no_duplicates(),
        forall|x: RelationDataModel| #[trigger]
            planner::pairs_of_row(pairs, from[m], to, n).contains(x) <==> pair_so_far(
                from,
                to,
                m,
                n as int,
                x,
            ),
    decreases n,
{
    if n > 0 {
        let k = (n - 1) as nat;
        row_pairs(from, to, m, k, pairs);
        let before = planner::pairs_of_row(pairs, from[m], to, k);
        let after = planner::pairs_of_row(pairs, from[m], to, n);
        let x = RelationDataModel { from_id: from[m].id, to_id: to[n - 1].id };
        assert(planner::aligned(from[m].context, to[n - 1].context) == places_agree(
            from[m],
            to[n - 1],
        ));
        assert forall|y: RelationDataModel| #[trigger] after.contains(y) <==> pair_so_far(
            from,
            to,
            m,
            n as int,
            y,
        ) by {
            if after.contains(y) {
                let i = choose|i: int| 0 <= i < after.len() && after[i] == y;
                if i < before.len() {
                    assert(before[i] == y);
                    assert(before.contains(y));
                    let (a, b) = choose|a: int, b: int|
                        0 <= a < from.len() && 0 <= b < to.len() && (a < m || (a == m && b < k)) && (
                        #[trigger] from[a]).id == y.from_id && (#[trigger] to[b]).id == y.to_id
                            && places_agree(from[a], to[b]);
                    assert(from[a].id == y.from_id && to[b].id == y.to_id);
                } else {
                    assert(y == x);
                    assert(from[m].id == y.from_id && to[n - 1].id == y.to_id);
                }
            }
            if pair_so_far(from, to, m, n as int, y) {
                let (a, b) = choose|a: int, b: int|
                    0 <= a < from.len() && 0 <= b < to.len() && (a < m || (a == m && b < n)) && (
                    #[trigger] from[a]).id == y.from_id && (#[trigger] to[b]).id == y.to_id
                        && places_agree(from[a], to[b]);
                if a < m || b < k {
                    assert(pair_so_far(from, to, m, k as int, y));
                    assert(before.contains(y));
                    let i = choose|i: int| 0 <= i < before.len() && before[i] == y;
                    assert(after[i] == y);
                } else {
                    assert(y == x);
                    if before.contains(x) {
                        let i = choose|i: int| 0 <= i < before.len() && before[i] == x;
                        assert(after[i] == x);
                    } else {
                        assert(after[before.len() as int] == x);
                    }
                }
            }
        }
        assert forall|i: int, j: int| 0 <= i < after.len() && 0 <= j < after.len() && i != j implies
            after[i] != after[j] by {
            if i < before.len() && j < before.len() {
                assert(before[i] != before[j]);
            } else if i < before.len() {
                assert(before.contains(before[i]));
            } else if j < before.len() {
                assert(before.contains(before[j]));
            }
        }
    }
}

proof fn all_pairs(from: Seq<RowModel>, to: Seq<RowModel>, m: nat)
    requires
        m <= from.len(),
    ensures
        planner::pairs_of(from, to, m).no_duplicates(),
        forall|x: RelationDataModel| #[trigger]
            planner::pairs_of(from, to, m).contains(x) <==> pair_so_far(from, to, m as int, 0, x),
    decreases m,
{
    if m > 0 {
        let k = (m - 1) as nat;
        all_pairs(from, to, k);
        let before = planner::pairs_of(from, to, k);
        let after = planner::pairs_of(from, to, m);
        row_pairs(from, to, k as int, to.len(), before);
        assert forall|x: RelationDataModel| #[trigger] after.contains(x) <==> pair_so_far(
            from,
            to,
            m as int,
            0,
            x,
        ) by {
            if pair_so_far(from, to, m as int, 0, x) {
                let (a, b) = choose|a: int, b: int|
                    0 <= a < from.len() && 0 <= b < to.len() && (a < m || (a == m && b < 0)) && (
                    #[trigger] from[a]).id == x.from_id && (#[trigger] to[b]).id == x.to_id
                        && places_agree(from[a], to[b]);
                assert(pair_so_far(from, to, k as int, to.len() as int, x));
            }
            if pair_so_far(from, to, k as int, to.len() as int, x) {
                let (a, b) = choose|a: int, b: int|
                    0 <= a < from.len() && 0 <= b < to.len() && (a < k || (a == k && b < to.len()))
                        && (#[trigger] from[a]).id == x.from_id && (#[trigger] to[b]).id == x.to_id
                        && places_agree(from[a], to[b]);
                assert(pair_so_far(from, to, m as int, 0, x));
            }
        }
    }
}

proof fn mapping_relates(es: Seq<ExtractedModel>, m: RelationMappingModel)
    ensures
        match planner::mapped_relation(es, m) {
            Ok(p) => relates_types(es, m, p),
            Err(e) => unknown_type(es, m, e),
        },
{
    known_type(es, m.from);
    known_type(es, m.to);
    if let (Some(from), Some(to)) = (planner::entity_of(es, m.from), planner::entity_of(es, m.to)) {
        let p = planner::mapped_relation(es, m)->Ok_0;
        let pairs = planner::pairs_of(from.rows, to.rows, from.rows.len());
        let le = dsl::relation_row_le();
        all_pairs(from.rows, to.rows, from.rows.len());
        dsl::law_row_orders_are_total();
        sorting::law_sorted_by(pairs, le);
        pairs.lemma_multiset_has_no_duplicates();
        p.rows.lemma_multiset_has_no_duplicates_conv();
        assert forall|x: RelationDataModel| #[trigger] p.rows.contains(x) <==> rows_fit(
            from.rows,
            to.rows,
            x.from_id,
            x.to_id,
        ) by {
            let (a, b) = (x.from_id, x.to_id);
            if p.rows.contains(x) {
                sorting::sorting_adds_none(pairs, le, x);
                let (i, j) = choose|i: int, j: int|
                    0 <= i < from.rows.len() && 0 <= j < to.rows.len() && (i < from.rows.len() || (i
                        == from.rows.len() && j < 0)) && (#[trigger] from.rows[i]).id == x.from_id
                        && (#[trigger] to.rows[j]).id == x.to_id && places_agree(
                        from.rows[i],
                        to.rows[j],
                    );
                assert(from.rows[i].id == a && to.rows[j].id == b);
            }
            if rows_fit(from.rows, to.rows, a, b) {
                let (i, j) = choose|i: int, j: int|
                    0 <= i < from.rows.len() && 0 <= j < to.rows.len() && (
                    #[trigger] from.rows[i]).id == a && (#[trigger] to.rows[j]).id == b
                        && places_agree(from.rows[i], to.rows[j]);
                assert(pair_so_far(from.rows, to.rows, from.rows.len() as int, 0, x));
                assert(pairs.contains(x));
                sorting::sorting_keeps(pairs, le, x);
            }
        }
        assert(stands_for(es, m.from, from) && stands_for(es, m.to, to) && relates(from, to, m, p));
    }
}

/// Is a relation plan that of a mapping, between the entity types that it names?
pub open spec fn relates_types(
    es: Seq<ExtractedModel>,
    m: RelationMappingModel,
    p: RelationPlanModel,
) -> bool {
    exists|from: ExtractedModel, to: ExtractedModel| #[trigger]
        stands_for(es, m.from, from) && #[trigger] stands_for(es, m.to, to) && relates(
            from,
            to,
            m,
            p,
        )
}

/// Is an error that of a mapping to or from a type that there is not?
pub open spec fn unknown_type(
    es: Seq<ExtractedModel>,
    m: RelationMappingModel,
    e: IngestErrorModel,
) -> bool {
    match e {
        IngestErrorModel::UnknownEntityType(label) => (label == m.from || label == m.to) && forall|
            i: int,
        |
            0 <= i < es.len() ==> (#[trigger] es[i]).label != label,
        _ => false,
    }
}

proof fn mappings_relate(es: Seq<ExtractedModel>, ms: Seq<RelationMappingModel>)
    ensures
        match planner::mapped_relations(es, ms) {
            Ok(ps) => ps.len() == ms.len() && forall|i: int|
                0 <= i < ms.len() ==> relates_types(es, #[trigger] ms[i], ps[i]),
            Err(e) => exists|i: int| 0 <= i < ms.len() && unknown_type(es, #[trigger] ms[i], e),
        },
    decreases ms.len(),
{
    if ms.len() > 0 {
        let rest = ms.drop_last();
        mappings_relate(es, rest);
        mapping_relates(es, ms.last());
        match planner::mapped_relations(es, rest) {
            Err(e) => {
                let i = choose|i: int| 0 <= i < rest.len() && unknown_type(es, #[trigger] rest[i], e);
                assert(unknown_type(es, ms[i], e));
            },
            Ok(before) => {
                match planner::mapped_relations(es, ms) {
                    Ok(ps) => {
                        assert forall|i: int| 0 <= i < ms.len() implies relates_types(
                            es,
                            #[trigger] ms[i],
                            ps[i],
                        ) by {
                            if i < rest.len() {
                                assert(rest[i] == ms[i]);
                                assert(ps[i] == before[i]);
                            }
                        }
                    },
                    Err(e) => {
                        assert(unknown_type(es, ms[ms.len() - 1], e));
                    },
                }
            },
        }
    }
}

/// A plan has one node plan for each entity type, under its label and key, with one row for
/// each id that has the properties of the last row of that id; and one relation plan for each
/// mapping, with a row wherever two rows fit together. Planning fails only over a mapping to
/// or from a type that there is not.
#[verifier::rlimit(40)]
pub proof fn law_plans_follow_the_mapping(es: Seq<ExtractedModel>, ms: Seq<RelationMappingModel>)
    ensures
        match planner::planned(es, ms) {
            Ok(plan) => {
                &&& plan.action == "insert"@
                &&& plan.nodes.len() == es.len()
                &&& forall|i: int|
                    0 <= i < es.len() ==> (#[trigger] plan.nodes[i]).label == es[i].label
                        && plan.nodes[i].merge_on == es[i].primary_key_field
                        && rows_are_of(es[i], plan.nodes[i].rows)
                &&& plan.relations.len() == ms.len()
                &&& forall|i: int|
                    0 <= i < ms.len() ==> relates_types(es, #[trigger] ms[i], plan.relations[i])
            },
            Err(e) => exists|i: int| 0 <= i < ms.len() && unknown_type(es, #[trigger] ms[i], e),
        },
{
    mappings_relate(es, ms);
    if let Ok(plan) = planner::planned(es, ms) {
        assert forall|i: int| 0 <= i < es.len() implies (#[trigger] plan.nodes[i]).label
            == es[i].label && plan.nodes[i].merge_on == es[i].primary_key_field && rows_are_of(
            es[i],
            plan.nodes[i].rows,
        ) by {
            assert(plan.nodes[i] == planner::entity_plan(es[i]));
            planner::law_last_properties_are_kept(es[i]);
            let rows = plan.nodes[i].rows;
            assert forall|r: int| 0 <= r < es[i].rows.len() implies row_has_node(
                rows,
                (#[trigger] es[i].rows[r]).id,
            ) by {
                assert(planner::node_position(rows, es[i].rows[r].id) is Some);
                planner::node_position_found(rows, es[i].rows[r].id);
                let a = planner::node_position(rows, es[i].rows[r].id)->0;
                assert(rows[a].id == es[i].rows[r].id);
            }
        }
    }
}

/// Is there a node with an id?
pub open spec fn row_has_node(rows: Seq<NodeDataModel>, id: LiteralModel) -> bool {
    exists|a: int| 0 <= a < rows.len() && (#[trigger] rows[a]).id == id
}

/// Are these the nodes of the rows of an entity type: each id once, in ascending order, with
/// the properties of the last row of that id, and no id left out?
pub open spec fn rows_are_of(e: ExtractedModel, rows: Seq<NodeDataModel>) -> bool {
    &&& forall|i: int, j: int|
        0 <= i < j < rows.len() ==> (#[trigger] rows[i]).id != (#[trigger] rows[j]).id
            && literal::literal_le(rows[i].id, rows[j].id)
    &&& forall|i: int| 0 <= i < rows.len() ==> planner::keeps_last(e.rows, #[trigger] rows[i])
    &&& forall|r: int| 0 <= r < e.rows.len() ==> row_has_node(rows, (#[trigger] e.rows[r]).id)
}

/// Is a node of a plan in a query, under the label and key of its plan?
pub open spec fn batches_node(
    q: InsertQueryModel,
    p: NodePlanModel,
    d: NodeDataModel,
) -> bool {
    exists|b: int, j: int|
        0 <= b < q.node_batches.len() && 0 <= j < q.node_batches[b].rows.len()
            && q.node_batches[b].label == p.label && q.node_batches[b].merge_on == p.merge_on && (
        #[trigger] q.node_batches[b].rows[j]).id == d.id && q.node_batches[b].rows[j].props == d.props
}

/// Is a relation of a plan in a query, between the labels and keys of its plan?
pub open spec fn batches_relation(
    q: InsertQueryModel,
    p: RelationPlanModel,
    d: RelationDataModel,
) -> bool {
    exists|b: int, j: int|
        0 <= b < q.relation_batches.len() && 0 <= j < q.relation_batches[b].rows.len()
            && same_relation(p, q.relation_batches[b]) && (
        #[trigger] q.relation_batches[b].rows[j]).from_id == d.from_id
            && q.relation_batches[b].rows[j].to_id == d.to_id
}

pub open spec fn same_relation(p: RelationPlanModel, b: RelationBatchModel) -> bool {
    b.rel_type == p.rel_type && b.from_label == p.from_label && b.from_key == p.from_key
        && b.to_label == p.to_label && b.to_key == p.to_key
}

/// Is a row of a batch a node of a plan?
pub open spec fn node_is_planned(
    plan: InsertPlanModel,
    b: NodeBatchModel,
    row: NodeRowModel,
) -> bool {
    exists|i: int, j: int|
        0 <= i < plan.nodes.len() && 0 <= j < plan.nodes[i].rows.len() && b.label
            == plan.nodes[i].label && b.merge_on == plan.nodes[i].merge_on && (
        #[trigger] plan.nodes[i].rows[j]).id == row.id && plan.nodes[i].rows[j].props == row.props
            && row.scope_labels.len() == 0
}

/// Is a row of a batch a relation of a plan?
pub open spec fn relation_is_planned(
    plan: InsertPlanModel,
    b: RelationBatchModel,
    row: RelationRowModel,
) -> bool {
    exists|i: int, j: int|
        0 <= i < plan.relations.len() && 0 <= j < plan.relations[i].rows.len() && same_relation(
            plan.relations[i],
            b,
        ) && (#[trigger] plan.relations[i].rows[j]).from_id == row.from_id
            && plan.relations[i].rows[j].to_id == row.to_id && row.props.len() == 0
}

proof fn cut_nodes(plans: Seq<NodePlanModel>, n: nat, i: int, j: int) -> (at: (int, int))
    requires
        n > 0,
        0 <= i < plans.len(),
        0 <= j < plans[i].rows.len(),
    ensures
        ({
            let all = planner::all_node_batches(plans, n);
            let d = plans[i].rows[j];
            0 <= at.0 < all.len() && 0 <= at.1 < all[at.0].rows.len() && all[at.0].label
                == plans[i].label && all[at.0].merge_on == plans[i].merge_on
                && all[at.0].rows[at.1].id == d.id && all[at.0].rows[at.1].props == d.props
        }),
    decreases plans.len(),
{
    let all = planner::all_node_batches(plans, n);
    let head = planner::all_node_batches(plans.drop_last(), n);
    if i < plans.len() - 1 {
        assert(plans.drop_last()[i] == plans[i]);
        let at = cut_nodes(plans.drop_last(), n, i, j);
        assert(all[at.0] == head[at.0]);
        at
    } else {
        let p = plans.last();
        let rows = p.rows.map_values(|d: NodeDataModel| planner::node_row(d));
        let row = rows[j];
        assert(rows.contains(row));
        let r = laws::cutting_keeps(rows, n, row);
        let run = ast::chunked(rows, n)[r];
        let k = choose|k: int| 0 <= k < run.len() && run[k] == row;
        assert(all[head.len() + r].rows == run);
        (head.len() + r, k)
    }
}

proof fn cut_relations(plans: Seq<RelationPlanModel>, n: nat, i: int, j: int) -> (at: (int, int))
    requires
        n > 0,
        0 <= i < plans.len(),
        0 <= j < plans[i].rows.len(),
    ensures
        ({
            let all = planner::all_relation_batches(plans, n);
            let d = plans[i].rows[j];
            0 <= at.0 < all.len() && 0 <= at.1 < all[at.0].rows.len() && same_relation(
                plans[i],
                all[at.0],
            ) && all[at.0].rows[at.1].from_id == d.from_id && all[at.0].rows[at.1].to_id == d.to_id
        }),
    decreases plans.len(),
{
    let all = planner::all_relation_batches(plans, n);
    let head = planner::all_relation_batches(plans.drop_last(), n);
    if i < plans.len() - 1 {
        assert(plans.drop_last()[i] == plans[i]);
        let at = cut_relations(plans.drop_last(), n, i, j);
        assert(all[at.0] == head[at.0]);
        at
    } else {
        let p = plans.last();
        let rows = p.rows.map_values(|d: RelationDataModel| planner::relation_row(d));
        let row = rows[j];
        assert(rows.contains(row));
        let r = laws::cutting_keeps(rows, n, row);
        let run = ast::chunked(rows, n)[r];
        let k = choose|k: int| 0 <= k < run.len() && run[k] == row;
        assert(all[head.len() + r].rows == run);
        (head.len() + r, k)
    }
}

proof fn uncut_node(plans: Seq<NodePlanModel>, n: nat, b: int, k: int) -> (at: (int, int))
    requires
        n > 0,
        0 <= b < planner::all_node_batches(plans, n).len(),
        0 <= k < planner::all_node_batches(plans, n)[b].rows.len(),
    ensures
        ({
            let x = planner::all_node_batches(plans, n)[b];
            0 <= at.0 < plans.len() && 0 <= at.1 < plans[at.0].rows.len() && x.label
                == plans[at.0].label && x.merge_on == plans[at.0].merge_on
                && plans[at.0].rows[at.1].id == x.rows[k].id && plans[at.0].rows[at.1].props
                == x.rows[k].props && x.rows[k].scope_labels.len() == 0
        }),
    decreases plans.len(),
{
    let all = planner::all_node_batches(plans, n);
    let head = planner::all_node_batches(plans.drop_last(), n);
    if b < head.len() {
        assert(all[b] == head[b]);
        let at = uncut_node(plans.drop_last(), n, b, k);
        assert(plans.drop_last()[at.0] == plans[at.0]);
        at
    } else {
        let p = plans.last();
        let rows = p.rows.map_values(|d: NodeDataModel| planner::node_row(d));
        let r = b - head.len();
        assert(all[b].rows == ast::chunked(rows, n)[r]);
        let row = all[b].rows[k];
        assert(ast::chunked(rows, n)[r].contains(row));
        laws::cutting_adds_none(rows, n, r, row);
        let j = choose|j: int| 0 <= j < rows.len() && rows[j] == row;
        (plans.len() - 1, j)
    }
}

proof fn uncut_relation(plans: Seq<RelationPlanModel>, n: nat, b: int, k: int) -> (at: (int, int))
    requires
        n > 0,
        0 <= b < planner::all_relation_batches(plans, n).len(),
        0 <= k < planner::all_relation_batches(plans, n)[b].rows.len(),
    ensures
        ({
            let x = planner::all_relation_batches(plans, n)[b];
            0 <= at.0 < plans.len() && 0 <= at.1 < plans[at.0].rows.len() && same_relation(
                plans[at.0],
                x,
            ) && plans[at.0].rows[at.1].from_id == x.rows[k].from_id && plans[at.0].rows[at.1].to_id
                == x.rows[k].to_id && x.rows[k].props.len() == 0
        }),
    decreases plans.len(),
{
    let all = planner::all_relation_batches(plans, n);
    let head = planner::all_relation_batches(plans.drop_last(), n);
    if b < head.len() {
        assert(all[b] == head[b]);
        let at = uncut_relation(plans.drop_last(), n, b, k);
        assert(plans.drop_last()[at.0] == plans[at.0]);
        at
    } else {
        let p = plans.last();
        let rows = p.rows.map_values(|d: RelationDataModel| planner::relation_row(d));
        let r = b - head.len();
        assert(all[b].rows == ast::chunked(rows, n)[r]);
        let row = all[b].rows[k];
        assert(ast::chunked(rows, n)[r].contains(row));
        laws::cutting_adds_none(rows, n, r, row);
        let j = choose|j: int| 0 <= j < rows.len() && rows[j] == row;
        (plans.len() - 1, j)
    }
}

/// Cutting a plan into batches loses nothing and adds nothing: every node and relation is in
/// a batch of its own label, key and type, and every row of a batch is one of the plan.
#[verifier::rlimit(40)]
pub proof fn law_batches_are_of_the_plan(plan: InsertPlanModel, n: nat)
    requires
        n > 0,
    ensures
        ({
            let q = planner::lowered(plan, n);
            &&& forall|i: int, j: int|
                0 <= i < plan.nodes.len() && 0 <= j < plan.nodes[i].rows.len() ==> batches_node(
                    q,
                    plan.nodes[i],
                    #[trigger] plan.nodes[i].rows[j],
                )
            &&& forall|i: int, j: int|
                0 <= i < plan.relations.len() && 0 <= j < plan.relations[i].rows.len()
                    ==> batches_relation(
                    q,
                    plan.relations[i],
                    #[trigger] plan.relations[i].rows[j],
                )
            &&& forall|b: int, k: int|
                0 <= b < q.node_batches.len() && 0 <= k < q.node_batches[b].rows.len()
                    ==> node_is_planned(
                    plan,
                    q.node_batches[b],
                    #[trigger] q.node_batches[b].rows[k],
                )
            &&& forall|b: int, k: int|
                0 <= b < q.relation_batches.len() && 0 <= k < q.relation_batches[b].rows.len()
                    ==> relation_is_planned(
                    plan,
                    q.relation_batches[b],
                    #[trigger] q.relation_batches[b].rows[k],
                )
        }),
{
    let q = planner::lowered(plan, n);
    assert forall|i: int, j: int|
        0 <= i < plan.nodes.len() && 0 <= j < plan.nodes[i].rows.len() implies batches_node(
        q,
        plan.nodes[i],
        #[trigger] plan.nodes[i].rows[j],
    ) by {
        let at = cut_nodes(plan.nodes, n, i, j);
        assert(q.node_batches[at.0].rows[at.1].id == plan.nodes[i].rows[j].id);
    }
    assert forall|i: int, j: int|
        0 <= i < plan.relations.len() && 0 <= j
            < plan.relations[i].rows.len() implies batches_relation(
        q,
        plan.relations[i],
        #[trigger] plan.relations[i].rows[j],
    ) by {
        let at = cut_relations(plan.relations, n, i, j);
        assert(q.relation_batches[at.0].rows[at.1].from_id == plan.relations[i].rows[j].from_id);
    }
    assert forall|b: int, k: int|
        0 <= b < q.node_batches.len() && 0 <= k < q.node_batches[b].rows.len() implies node_is_planned(
        plan,
        q.node_batches[b],
        #[trigger] q.node_batches[b].rows[k],
    ) by {
        let at = uncut_node(plan.nodes, n, b, k);
        assert(plan.nodes[at.0].rows[at.1].id == q.node_batches[b].rows[k].id);
    }
    assert forall|b: int, k: int|
        0 <= b < q.relation_batches.len() && 0 <= k
            < q.relation_batches[b].rows.len() implies relation_is_planned(
        plan,
        q.relation_batches[b],
        #[trigger] q.relation_batches[b].rows[k],
    ) by {
        let at = uncut_relation(plan.relations, n, b, k);
        assert(plan.relations[at.0].rows[at.1].from_id == q.relation_batches[b].rows[k].from_id);
    }
}

/// Is a node with an id in a query, under the label and key of its type?
pub open spec fn query_has_node(q: InsertQueryModel, e: ExtractedModel, id: LiteralModel) -> bool {
    exists|b: int, j: int|
        0 <= b < q.node_batches.len() && 0 <= j < q.node_batches[b].rows.len()
            && q.node_batches[b].label == e.label && q.node_batches[b].merge_on
            == e.primary_key_field && (#[trigger] q.node_batches[b].rows[j]).id == id
}

/// Is a relation between two ids in a query, under the type and the labels of its mapping?
pub open spec fn query_has_relation(
    q: InsertQueryModel,
    m: RelationMappingModel,
    from: LiteralModel,
    to: LiteralModel,
) -> bool {
    exists|b: int, j: int|
        0 <= b < q.relation_batches.len() && 0 <= j < q.relation_batches[b].rows.len()
            && q.relation_batches[b].rel_type == m.kind && q.relation_batches[b].from_label
            == m.from && q.relation_batches[b].to_label == m.to && (
        #[trigger] q.relation_batches[b].rows[j]).from_id == from
            && q.relation_batches[b].rows[j].to_id == to
}

proof fn mapped_pairs_are_in(
    es: Seq<ExtractedModel>,
    m: RelationMappingModel,
    p: RelationPlanModel,
    q: InsertQueryModel,
    from: ExtractedModel,
    to: ExtractedModel,
    x: RelationDataModel,
)
    requires
        relates_types(es, m, p),
        stands_for(es, m.from, from),
        stands_for(es, m.to, to),
        rows_fit(from.rows, to.rows, x.from_id, x.to_id),
        forall|j: int|
            0 <= j < p.rows.len() ==> batches_relation(q, p, #[trigger] p.rows[j]),
    ensures
        query_has_relation(q, m, x.from_id, x.to_id),
{
    let (f, t) = choose|f: ExtractedModel, t: ExtractedModel| #[trigger]
        stands_for(es, m.from, f) && #[trigger] stands_for(es, m.to, t) && relates(f, t, m, p);
    stands_for_one(es, m.from, f, from);
    stands_for_one(es, m.to, t, to);
    assert(p.rows.contains(x));
    let j = choose|j: int| 0 <= j < p.rows.len() && p.rows[j] == x;
    assert(batches_relation(q, p, p.rows[j]));
    let (b, k) = choose|b: int, k: int|
        0 <= b < q.relation_batches.len() && 0 <= k < q.relation_batches[b].rows.len()
            && same_relation(p, q.relation_batches[b]) && (
        #[trigger] q.relation_batches[b].rows[k]).from_id == x.from_id
            && q.relation_batches[b].rows[k].to_id == x.to_id;
    assert(q.relation_batches[b].rows[k].from_id == x.from_id);
}

proof fn stands_for_one(
    es: Seq<ExtractedModel>,
    label: Seq<char>,
    a: ExtractedModel,
    b: ExtractedModel,
)
    requires
        stands_for(es, label, a),
        stands_for(es, label, b),
    ensures
        a == b,
{
    let i = choose|i: int|
        0 <= i < es.len() && (#[trigger] es[i]) == a && a.label == label && forall|j: int|
            i < j < es.len() ==> (#[trigger] es[j]).label != label;
    let k = choose|k: int|
        0 <= k < es.len() && (#[trigger] es[k]) == b && b.label == label && forall|j: int|
            k < j < es.len() ==> (#[trigger] es[j]).label != label;
    if i < k {
        assert(es[k].label != label);
    } else if k < i {
        assert(es[i].label != label);
    }
}

/// The query of extracted rows has every row as a node of its type, and a relation of a mapping
/// wherever two rows of the types that it is between fit together, in batches of the size that is
/// asked for at most. There is none only where that size is nothing, or a mapping speaks of a type
/// that there is not.
#[verifier::rlimit(40)]
pub proof fn law_queries_hold_the_rows(
    es: Seq<ExtractedModel>,
    ms: Seq<RelationMappingModel>,
    n: nat,
)
    ensures
        match planner::query_of(es, ms, n) {
            Ok(q) => {
                &&& n > 0
                &&& laws::batches_bounded(q, n, None)
                &&& forall|i: int, r: int|
                    0 <= i < es.len() && 0 <= r < es[i].rows.len() ==> query_has_node(
                        q,
                        es[i],
                        (#[trigger] es[i].rows[r]).id,
                    )
                &&& forall|i: int, from: ExtractedModel, to: ExtractedModel, x: RelationDataModel|
                    0 <= i < ms.len() && stands_for(es, ms[i].from, from) && stands_for(
                        es,
                        ms[i].to,
                        to,
                    ) && #[trigger] rows_fit(from.rows, to.rows, x.from_id, x.to_id)
                        ==> #[trigger] query_has_relation(q, ms[i], x.from_id, x.to_id)
            },
            Err(e) => if n == 0 {
                e == IngestErrorModel::InvalidBatchSize
            } else {
                exists|i: int| 0 <= i < ms.len() && unknown_type(es, #[trigger] ms[i], e)
            },
        },
{
    law_plans_follow_the_mapping(es, ms);
    if let Ok(q) = planner::query_of(es, ms, n) {
        let plan = planner::planned(es, ms)->Ok_0;
        law_batches_are_of_the_plan(plan, n);
        laws::law_plan_batches_are_bounded(plan, n);
        assert forall|i: int, r: int|
            0 <= i < es.len() && 0 <= r < es[i].rows.len() implies query_has_node(
            q,
            es[i],
            (#[trigger] es[i].rows[r]).id,
        ) by {
            let rows = plan.nodes[i].rows;
            let id = es[i].rows[r].id;
            assert(row_has_node(rows, id));
            let a = choose|a: int| 0 <= a < rows.len() && (#[trigger] rows[a]).id == id;
            assert(batches_node(q, plan.nodes[i], plan.nodes[i].rows[a]));
            let p = plan.nodes[i];
            let d = p.rows[a];
            let (b, j) = choose|b: int, j: int|
                0 <= b < q.node_batches.len() && 0 <= j < q.node_batches[b].rows.len()
                    && q.node_batches[b].label == p.label && q.node_batches[b].merge_on
                    == p.merge_on && (#[trigger] q.node_batches[b].rows[j]).id == d.id
                    && q.node_batches[b].rows[j].props == d.props;
            assert(q.node_batches[b].rows[j].id == id);
        }
        assert forall|i: int, from: ExtractedModel, to: ExtractedModel, x: RelationDataModel|
            0 <= i < ms.len() && stands_for(es, ms[i].from, from) && stands_for(es, ms[i].to, to)
                && #[trigger] rows_fit(from.rows, to.rows, x.from_id, x.to_id) implies #[trigger] query_has_relation(
            q,
            ms[i],
            x.from_id,
            x.to_id,
        ) by {
            assert(relates_types(es, ms[i], plan.relations[i]));
            let p = plan.relations[i];
            assert forall|j: int| 0 <= j < p.rows.len() implies batches_relation(
                q,
                p,
                #[trigger] p.rows[j],
            ) by {
                assert(batches_relation(q, plan.relations[i], plan.relations[i].rows[j]));
            }
            mapped_pairs_are_in(es, ms[i], p, q, from, to, x);
        }
    }
}

} // verus!
