//! What holds of every insert plan, and of every query that it is cut into.

use vstd::prelude::*;
use crate::ast;
use crate::ast::InsertQueryModel;
use crate::ast::NodeRowModel;
use crate::ast::RelationBatchModel;
use crate::ast::RelationRowModel;
use crate::graph::builder::GraphModel;
use crate::graph::schema::EntityGraphModel;
use crate::graph::scope;
use crate::groups;
use crate::ingest::convert::FloatTableModel;
use crate::ingest::document;
use crate::ingest::document::ChunkModel;
use crate::ingest::document::DocumentModel;
use crate::ingest::document::Gathered;
use crate::ingest::document::LocalModel;
use crate::ingest::document::Walk;
use crate::ingest::dsl;
use crate::ingest::dsl::InsertPlanModel;
use crate::ingest::dsl::NodeDataModel;
use crate::ingest::dsl::NodePlanModel;
use crate::ingest::dsl::RelationDataModel;
use crate::ingest::dsl::RelationPlanModel;
use crate::ingest::error::IngestErrorModel;
use crate::ingest::graph;
use crate::ingest::graph::EntityKeyModel;
use crate::ingest::planner;
use crate::literal::LiteralModel;
use crate::sorting;
use crate::strmap;
use crate::text;
use crate::types::TypeRegistry;

verus! {

broadcast use vstd::string::group_string_axioms;

pub(crate) proof fn cutting_keeps<T>(s: Seq<T>, n: nat, y: T) -> (r: int)
    requires
        n > 0,
        s.contains(y),
    ensures
        0 <= r < ast::chunked(s, n).len(),
        ast::chunked(s, n)[r].contains(y),
    decreases s.len(),
{
    let i = choose|i: int| 0 <= i < s.len() && s[i] == y;
    if s.len() <= n {
        assert(s[i] == y);
        0
    } else if i < n {
        assert(s.take(n as int)[i] == y);
        0
    } else {
        let rest = s.skip(n as int);
        assert(rest[i - n] == y);
        let r = cutting_keeps(rest, n, y);
        assert(ast::chunked(s, n)[r + 1] == ast::chunked(rest, n)[r]);
        r + 1
    }
}

pub(crate) proof fn cutting_adds_none<T>(s: Seq<T>, n: nat, r: int, y: T)
    requires
        0 <= r < ast::chunked(s, n).len(),
        ast::chunked(s, n)[r].contains(y),
    ensures
        s.contains(y),
    decreases s.len(),
{
    let run = ast::chunked(s, n)[r];
    let k = choose|k: int| 0 <= k < run.len() && run[k] == y;
    if s.len() <= n {
        assert(s[k] == y);
    } else if r == 0 {
        assert(s[k] == y);
    } else {
        let rest = s.skip(n as int);
        assert(ast::chunked(s, n)[r] == ast::chunked(rest, n)[r - 1]);
        cutting_adds_none(rest, n, r - 1, y);
        let i = choose|i: int| 0 <= i < rest.len() && rest[i] == y;
        assert(s[i + n] == y);
    }
}

/// Is `x` in the group under `k`?
pub open spec fn in_group<T>(s: Seq<(Seq<Seq<char>>, Seq<T>)>, k: Seq<Seq<char>>, x: T) -> bool {
    exists|i: int| 0 <= i < s.len() && (#[trigger] s[i]).0 == k && s[i].1.contains(x)
}

pub(crate) proof fn push_is_in_group<T>(s: Seq<(Seq<Seq<char>>, Seq<T>)>, k: Seq<Seq<char>>, item: T)
    ensures
        in_group(groups::group_push(s, k, item), k, item),
    decreases s.len(),
{
    let t = groups::group_push(s, k, item);
    if s.len() == 0 {
        assert(t[0].1[0] == item);
    } else if s[0].0 == k {
        assert(t[0].1[s[0].1.len() as int] == item);
    } else if groups::list_lt(s[0].0, k) {
        let rest = s.drop_first();
        push_is_in_group(rest, k, item);
        let u = groups::group_push(rest, k, item);
        let i = choose|i: int| 0 <= i < u.len() && (#[trigger] u[i]).0 == k && u[i].1.contains(item);
        assert(t[i + 1] == u[i]);
    } else {
        assert(t[0].1[0] == item);
    }
}

pub(crate) proof fn push_keeps_groups<T>(
    s: Seq<(Seq<Seq<char>>, Seq<T>)>,
    k: Seq<Seq<char>>,
    item: T,
    k2: Seq<Seq<char>>,
    x: T,
)
    requires
        in_group(s, k2, x),
    ensures
        in_group(groups::group_push(s, k, item), k2, x),
    decreases s.len(),
{
    let t = groups::group_push(s, k, item);
    let i = choose|i: int| 0 <= i < s.len() && (#[trigger] s[i]).0 == k2 && s[i].1.contains(x);
    if s[0].0 == k {
        if i == 0 {
            let j = choose|j: int| 0 <= j < s[0].1.len() && s[0].1[j] == x;
            assert(t[0].1[j] == x);
        } else {
            assert(t[i] == s[i]);
        }
    } else if groups::list_lt(s[0].0, k) {
        if i == 0 {
            assert(t[0] == s[0]);
        } else {
            let rest = s.drop_first();
            assert(rest[i - 1] == s[i]);
            push_keeps_groups(rest, k, item, k2, x);
            let u = groups::group_push(rest, k, item);
            let m = choose|m: int| 0 <= m < u.len() && (#[trigger] u[m]).0 == k2 && u[m].1.contains(x);
            assert(t[m + 1] == u[m]);
        }
    } else {
        assert(t[i + 1] == s[i]);
    }
}

/// What holds of every key with every row under it.
pub open spec fn rows_hold<T>(
    s: Seq<(Seq<Seq<char>>, Seq<T>)>,
    p: spec_fn(Seq<Seq<char>>, T) -> bool,
) -> bool {
    forall|i: int, j: int|
        0 <= i < s.len() && 0 <= j < s[i].1.len() ==> p(s[i].0, #[trigger] s[i].1[j])
}

pub(crate) proof fn push_keeps_rows<T>(
    s: Seq<(Seq<Seq<char>>, Seq<T>)>,
    k: Seq<Seq<char>>,
    item: T,
    p: spec_fn(Seq<Seq<char>>, T) -> bool,
)
    requires
        rows_hold(s, p),
        p(k, item),
    ensures
        rows_hold(groups::group_push(s, k, item), p),
    decreases s.len(),
{
    let t = groups::group_push(s, k, item);
    if s.len() > 0 {
        let rest = s.drop_first();
        assert forall|i: int, j: int| 0 <= i < rest.len() && 0 <= j < rest[i].1.len() implies p(
            rest[i].0,
            #[trigger] rest[i].1[j],
        ) by {
            assert(p(s[i + 1].0, s[i + 1].1[j]));
        }
        push_keeps_rows(rest, k, item, p);
        let u = groups::group_push(rest, k, item);
        assert forall|i: int, j: int| 0 <= i < t.len() && 0 <= j < t[i].1.len() implies p(
            t[i].0,
            #[trigger] t[i].1[j],
        ) by {
            if s[0].0 == k {
                if i == 0 {
                    if j < s[0].1.len() {
                        assert(p(s[0].0, s[0].1[j]));
                    }
                } else {
                    assert(t[i] == s[i]);
                    assert(p(s[i].0, s[i].1[j]));
                }
            } else if groups::list_lt(s[0].0, k) {
                if i == 0 {
                    assert(p(s[0].0, s[0].1[j]));
                } else {
                    assert(t[i] == u[i - 1]);
                    assert(p(u[i - 1].0, u[i - 1].1[j]));
                }
            } else if i > 0 {
                assert(t[i] == s[i - 1]);
                assert(p(s[i - 1].0, s[i - 1].1[j]));
            }
        }
    }
}

/// Batches are neither empty nor larger than the limit, and stand under a prefix.
pub open spec fn batches_bounded(q: InsertQueryModel, n: nat, prefix: Option<Seq<char>>) -> bool {
    &&& forall|i: int|
        0 <= i < q.node_batches.len() ==> 0 < (#[trigger] q.node_batches[i]).rows.len() <= n
            && q.node_batches[i].prefix_label == prefix
    &&& forall|i: int|
        0 <= i < q.relation_batches.len() ==> 0 < (#[trigger] q.relation_batches[i]).rows.len()
            <= n && q.relation_batches[i].prefix_label == prefix
}

proof fn graph_nodes_bounded(
    s: Seq<(Seq<Seq<char>>, Seq<NodeRowModel>)>,
    prefix: Option<Seq<char>>,
    n: nat,
)
    requires
        n > 0,
    ensures
        forall|i: int|
            0 <= i < graph::all_node_batches(s, prefix, n).len() ==> 0 < (
            #[trigger] graph::all_node_batches(s, prefix, n)[i]).rows.len() <= n
                && graph::all_node_batches(s, prefix, n)[i].prefix_label == prefix,
    decreases s.len(),
{
    if s.len() > 0 {
        graph_nodes_bounded(s.drop_last(), prefix, n);
        let rows = sorting::sorted_by(s.last().1, graph::node_order());
        ast::law_chunks_keep_rows(rows, n);
        let head = graph::all_node_batches(s.drop_last(), prefix, n);
        let all = graph::all_node_batches(s, prefix, n);
        assert forall|i: int| 0 <= i < all.len() implies 0 < (#[trigger] all[i]).rows.len() <= n
            && all[i].prefix_label == prefix by {
            if i < head.len() {
                assert(all[i] == head[i]);
            } else {
                assert(all[i].rows == ast::chunked(rows, n)[i - head.len()]);
            }
        }
    }
}

proof fn graph_relations_bounded(
    s: Seq<(Seq<Seq<char>>, Seq<RelationRowModel>)>,
    prefix: Option<Seq<char>>,
    n: nat,
)
    requires
        n > 0,
    ensures
        forall|i: int|
            0 <= i < graph::all_relation_batches(s, prefix, n).len() ==> 0 < (
            #[trigger] graph::all_relation_batches(s, prefix, n)[i]).rows.len() <= n
                && graph::all_relation_batches(s, prefix, n)[i].prefix_label == prefix,
    decreases s.len(),
{
    if s.len() > 0 {
        graph_relations_bounded(s.drop_last(), prefix, n);
        let rows = sorting::sorted_by(s.last().1, graph::relation_order());
        ast::law_chunks_keep_rows(rows, n);
        let head = graph::all_relation_batches(s.drop_last(), prefix, n);
        let all = graph::all_relation_batches(s, prefix, n);
        assert forall|i: int| 0 <= i < all.len() implies 0 < (#[trigger] all[i]).rows.len() <= n
            && all[i].prefix_label == prefix by {
            if i < head.len() {
                assert(all[i] == head[i]);
            } else {
                assert(all[i].rows == ast::chunked(rows, n)[i - head.len()]);
            }
        }
    }
}

/// The batches of a planned graph are neither empty nor larger than the limit, and
/// every one of them stands under the prefix.
pub proof fn law_graph_batches_are_bounded<R: TypeRegistry>(
    registry: R,
    floats: FloatTableModel,
    g: GraphModel,
    n: nat,
    prefix_label: Option<Seq<char>>,
    prefix_index: Option<Seq<char>>,
)
    ensures
        match graph::graph_outcome(registry, floats, g, n, prefix_label, prefix_index) {
            Ok(q) => batches_bounded(q, n, graph::prefix_of(prefix_label)),
            Err(_) => true,
        },
{
    let prefix = graph::prefix_of(prefix_label);
    if n > 0 {
        let w = graph::entities_walked(
            registry,
            floats,
            graph::prefix_of(prefix_index),
            g.entities,
            g.entities.len(),
        );
        graph_nodes_bounded(w.nodes, prefix, n);
        if let Ok(rels) = graph::relation_groups(registry, floats, w.keys, g.relations) {
            graph_relations_bounded(rels, prefix, n);
        }
    }
}

proof fn planned_nodes_bounded(plans: Seq<NodePlanModel>, n: nat)
    requires
        n > 0,
    ensures
        forall|i: int|
            0 <= i < planner::all_node_batches(plans, n).len() ==> 0 < (
            #[trigger] planner::all_node_batches(plans, n)[i]).rows.len() <= n
                && planner::all_node_batches(plans, n)[i].prefix_label is None,
    decreases plans.len(),
{
    if plans.len() > 0 {
        planned_nodes_bounded(plans.drop_last(), n);
        let rows = plans.last().rows.map_values(|d: NodeDataModel| planner::node_row(d));
        ast::law_chunks_keep_rows(rows, n);
        let head = planner::all_node_batches(plans.drop_last(), n);
        let all = planner::all_node_batches(plans, n);
        assert forall|i: int| 0 <= i < all.len() implies 0 < (#[trigger] all[i]).rows.len() <= n
            && all[i].prefix_label is None by {
            if i < head.len() {
                assert(all[i] == head[i]);
            } else {
                assert(all[i].rows == ast::chunked(rows, n)[i - head.len()]);
            }
        }
    }
}

proof fn planned_relations_bounded(plans: Seq<RelationPlanModel>, n: nat)
    requires
        n > 0,
    ensures
        forall|i: int|
            0 <= i < planner::all_relation_batches(plans, n).len() ==> 0 < (
            #[trigger] planner::all_relation_batches(plans, n)[i]).rows.len() <= n
                && planner::all_relation_batches(plans, n)[i].prefix_label is None,
    decreases plans.len(),
{
    if plans.len() > 0 {
        planned_relations_bounded(plans.drop_last(), n);
        let rows = plans.last().rows.map_values(|d: RelationDataModel| planner::relation_row(d));
        ast::law_chunks_keep_rows(rows, n);
        let head = planner::all_relation_batches(plans.drop_last(), n);
        let all = planner::all_relation_batches(plans, n);
        assert forall|i: int| 0 <= i < all.len() implies 0 < (#[trigger] all[i]).rows.len() <= n
            && all[i].prefix_label is None by {
            if i < head.len() {
                assert(all[i] == head[i]);
            } else {
                assert(all[i].rows == ast::chunked(rows, n)[i - head.len()]);
            }
        }
    }
}

/// The batches of a plan are neither empty nor larger than the limit.
pub proof fn law_plan_batches_are_bounded(plan: InsertPlanModel, n: nat)
    requires
        n > 0,
    ensures
        batches_bounded(planner::lowered(plan, n), n, None),
{
    planned_nodes_bounded(plan.nodes, n);
    planned_relations_bounded(plan.relations, n);
}

/// The group that the row of an entity is in.
pub open spec fn key_group(k: EntityKeyModel) -> Seq<Seq<char>> {
    graph::with_domain(seq![k.label, k.key_field], k.domain)
}

/// Is there a row of an entity in the group of its key?
pub open spec fn key_has_row(
    nodes: Seq<(Seq<Seq<char>>, Seq<NodeRowModel>)>,
    k: EntityKeyModel,
) -> bool {
    exists|row: NodeRowModel| #[trigger] in_group(nodes, key_group(k), row) && row.id == k.id
}

/// Every entity has its row in the group of its key.
pub open spec fn keys_have_rows(w: graph::EntityWalk) -> bool {
    forall|i: int| 0 <= i < w.keys.len() ==> #[trigger] key_has_row(w.nodes, w.keys[i])
}

proof fn walked_keys_have_rows<R: TypeRegistry>(
    registry: R,
    floats: FloatTableModel,
    prefix_index: Option<Seq<char>>,
    g: GraphModel,
    n: nat,
)
    requires
        n <= g.entities.len(),
    ensures
        keys_have_rows(graph::entities_walked(registry, floats, prefix_index, g.entities, n)),
    decreases n,
{
    if n > 0 {
        walked_keys_have_rows(registry, floats, prefix_index, g, (n - 1) as nat);
        let w = graph::entities_walked(
            registry,
            floats,
            prefix_index,
            g.entities,
            (n - 1) as nat,
        );
        let v = graph::entities_walked(registry, floats, prefix_index, g.entities, n);
        let e = g.entities[n - 1];
        if v.keys.len() > w.keys.len() {
            let k = v.keys.last();
            let p = graph::properties_walked(
                registry,
                floats,
                prefix_index,
                e,
                k.key_field,
                k.id,
                e.properties.len(),
            );
            let row = NodeRowModel {
                id: k.id,
                props: p.props,
                scope_labels: scope::labels_of(e.scopes),
            };
            assert(v.nodes == groups::group_push(w.nodes, key_group(k), row));
            push_is_in_group(w.nodes, key_group(k), row);
            assert forall|i: int| 0 <= i < v.keys.len() implies #[trigger] key_has_row(
                v.nodes,
                v.keys[i],
            ) by {
                if i < w.keys.len() {
                    assert(v.keys[i] == w.keys[i]);
                    assert(key_has_row(w.nodes, w.keys[i]));
                    let r = choose|r: NodeRowModel| #[trigger]
                        in_group(w.nodes, key_group(w.keys[i]), r) && r.id == w.keys[i].id;
                    push_keeps_groups(w.nodes, key_group(k), row, key_group(w.keys[i]), r);
                } else {
                    assert(in_group(v.nodes, key_group(v.keys[i]), row));
                }
            }
        } else {
            assert(v.keys == w.keys);
            assert(v.nodes == w.nodes);
        }
    }
}

/// Do the nodes of a query hold one of a label, under a key, with an id?
pub open spec fn has_node(
    q: InsertQueryModel,
    label: Seq<char>,
    key: Seq<char>,
    id: LiteralModel,
) -> bool {
    exists|i: int, j: int|
        0 <= i < q.node_batches.len() && 0 <= j < q.node_batches[i].rows.len()
            && q.node_batches[i].label == label && q.node_batches[i].merge_on == key && (
        #[trigger] q.node_batches[i].rows[j]).id == id
}

/// Every end of a relation is a node of the same query.
pub open spec fn ends_are_nodes(q: InsertQueryModel) -> bool {
    forall|i: int, j: int|
        0 <= i < q.relation_batches.len() && 0 <= j < q.relation_batches[i].rows.len() ==> {
            let b = q.relation_batches[i];
            let row = #[trigger] q.relation_batches[i].rows[j];
            has_node(q, b.from_label, b.from_key, row.from_id) && has_node(
                q,
                b.to_label,
                b.to_key,
                row.to_id,
            )
        }
}

pub(crate) proof fn grouped_row_is_batched(
    s: Seq<(Seq<Seq<char>>, Seq<NodeRowModel>)>,
    prefix: Option<Seq<char>>,
    n: nat,
    k: Seq<Seq<char>>,
    row: NodeRowModel,
) -> (at: (int, int))
    requires
        n > 0,
        in_group(s, k, row),
    ensures
        ({
            let all = graph::all_node_batches(s, prefix, n);
            0 <= at.0 < all.len() && 0 <= at.1 < all[at.0].rows.len() && all[at.0].label == k[0]
                && all[at.0].merge_on == k[1] && all[at.0].domain_label == graph::domain_of_key(k, 2)
                && all[at.0].rows[at.1] == row
        }),
    decreases s.len(),
{
    let i = choose|i: int| 0 <= i < s.len() && (#[trigger] s[i]).0 == k && s[i].1.contains(row);
    let head = graph::all_node_batches(s.drop_last(), prefix, n);
    let all = graph::all_node_batches(s, prefix, n);
    if i < s.len() - 1 {
        assert(s.drop_last()[i] == s[i]);
        let at = grouped_row_is_batched(s.drop_last(), prefix, n, k, row);
        assert(all[at.0] == head[at.0]);
        at
    } else {
        let rows = sorting::sorted_by(s.last().1, graph::node_order());
        sorting::sorting_keeps(s.last().1, graph::node_order(), row);
        let r = cutting_keeps(rows, n, row);
        let run = ast::chunked(rows, n)[r];
        let j = choose|j: int| 0 <= j < run.len() && run[j] == row;
        assert(all[head.len() + r].rows == run);
        (head.len() + r, j)
    }
}

/// The row of a relation ends in entities of its group's labels and keys.
pub open spec fn row_ends(keys: Seq<EntityKeyModel>) -> spec_fn(
    Seq<Seq<char>>,
    RelationRowModel,
) -> bool {
    |k: Seq<Seq<char>>, row: RelationRowModel|
        exists|a: int, b: int|
            0 <= a < keys.len() && 0 <= b < keys.len() && k[1] == (#[trigger] keys[a]).label && k[2]
                == keys[a].key_field && row.from_id == keys[a].id && k[3] == (
            #[trigger] keys[b]).label && k[4] == keys[b].key_field && row.to_id == keys[b].id
}

proof fn relation_rows_end<R: TypeRegistry>(
    registry: R,
    floats: FloatTableModel,
    keys: Seq<EntityKeyModel>,
    g: GraphModel,
    n: nat,
)
    requires
        n <= g.relations.len(),
    ensures
        match graph::relation_groups(registry, floats, keys, g.relations.take(n as int)) {
            Ok(s) => rows_hold(s, row_ends(keys)),
            Err(_) => true,
        },
    decreases n,
{
    if n > 0 {
        let rels = g.relations.take(n as int);
        assert(rels.drop_last() =~= g.relations.take(n - 1));
        relation_rows_end(registry, floats, keys, g, (n - 1) as nat);
        if let Ok(before) = graph::relation_groups(registry, floats, keys, rels.drop_last()) {
            if let Ok((k, row)) = graph::relation_entry(registry, floats, keys, rels.last()) {
                let a = rels.last().from.0 as int;
                let b = rels.last().to.0 as int;
                assert(k[1] == keys[a].label && k[3] == keys[b].label);
                assert(row_ends(keys)(k, row));
                push_keeps_rows(before, k, row, row_ends(keys));
            }
        }
    }
}

/// What holds of batches, row by row.
pub open spec fn batch_rows_end(
    all: Seq<RelationBatchModel>,
    keys: Seq<EntityKeyModel>,
) -> bool {
    forall|i: int, j: int|
        0 <= i < all.len() && 0 <= j < all[i].rows.len() ==> exists|a: int, b: int|
            0 <= a < keys.len() && 0 <= b < keys.len() && all[i].from_label == (
            #[trigger] keys[a]).label && all[i].from_key == keys[a].key_field && (
            #[trigger] all[i].rows[j]).from_id == keys[a].id && all[i].to_label == (
            #[trigger] keys[b]).label && all[i].to_key == keys[b].key_field && all[i].rows[j].to_id
                == keys[b].id
}

proof fn batched_rows_end(
    s: Seq<(Seq<Seq<char>>, Seq<RelationRowModel>)>,
    prefix: Option<Seq<char>>,
    n: nat,
    keys: Seq<EntityKeyModel>,
)
    requires
        n > 0,
        rows_hold(s, row_ends(keys)),
    ensures
        batch_rows_end(graph::all_relation_batches(s, prefix, n), keys),
    decreases s.len(),
{
    if s.len() > 0 {
        let rest = s.drop_last();
        assert forall|i: int, j: int| 0 <= i < rest.len() && 0 <= j < rest[i].1.len() implies
            row_ends(keys)(rest[i].0, #[trigger] rest[i].1[j]) by {
            assert(row_ends(keys)(s[i].0, s[i].1[j]));
        }
        batched_rows_end(rest, prefix, n, keys);
        let head = graph::all_relation_batches(rest, prefix, n);
        let all = graph::all_relation_batches(s, prefix, n);
        let k = s.last().0;
        let rows = sorting::sorted_by(s.last().1, graph::relation_order());
        assert forall|i: int, j: int|
            0 <= i < all.len() && 0 <= j < all[i].rows.len() implies exists|a: int, b: int|
            0 <= a < keys.len() && 0 <= b < keys.len() && all[i].from_label == (
            #[trigger] keys[a]).label && all[i].from_key == keys[a].key_field && (
            #[trigger] all[i].rows[j]).from_id == keys[a].id && all[i].to_label == (
            #[trigger] keys[b]).label && all[i].to_key == keys[b].key_field && all[i].rows[j].to_id
                == keys[b].id by {
            if i < head.len() {
                assert(all[i] == head[i]);
                let row = head[i].rows[j];
            } else {
                let r = i - head.len();
                let row = all[i].rows[j];
                assert(all[i].rows == ast::chunked(rows, n)[r]);
                assert(ast::chunked(rows, n)[r].contains(row));
                cutting_adds_none(rows, n, r, row);
                sorting::sorting_adds_none(s.last().1, graph::relation_order(), row);
                let m = choose|m: int| 0 <= m < s.last().1.len() && s.last().1[m] == row;
                assert(row_ends(keys)(s[s.len() - 1].0, s[s.len() - 1].1[m]));
            }
        }
    }
}

/// A planned graph has no relation to nowhere: both ends of every relation are nodes
/// of the same query.
pub proof fn law_graph_relations_join_nodes<R: TypeRegistry>(
    registry: R,
    floats: FloatTableModel,
    g: GraphModel,
    n: nat,
    prefix_label: Option<Seq<char>>,
    prefix_index: Option<Seq<char>>,
)
    ensures
        match graph::graph_outcome(registry, floats, g, n, prefix_label, prefix_index) {
            Ok(q) => ends_are_nodes(q),
            Err(_) => true,
        },
{
    let prefix = graph::prefix_of(prefix_label);
    let index = graph::prefix_of(prefix_index);
    let w = graph::entities_walked(registry, floats, index, g.entities, g.entities.len());
    if n > 0 && w.error is None {
        if let Ok(rels) = graph::relation_groups(registry, floats, w.keys, g.relations) {
            let q = graph::graph_outcome(
                registry,
                floats,
                g,
                n,
                prefix_label,
                prefix_index,
            )->Ok_0;
            walked_keys_have_rows(registry, floats, index, g, g.entities.len());
            assert(g.relations.take(g.relations.len() as int) =~= g.relations);
            relation_rows_end(registry, floats, w.keys, g, g.relations.len());
            batched_rows_end(rels, prefix, n, w.keys);
            assert forall|i: int, j: int|
                0 <= i < q.relation_batches.len() && 0 <= j
                    < q.relation_batches[i].rows.len() implies {
                let b = q.relation_batches[i];
                let row = #[trigger] q.relation_batches[i].rows[j];
                has_node(q, b.from_label, b.from_key, row.from_id) && has_node(
                    q,
                    b.to_label,
                    b.to_key,
                    row.to_id,
                )
            } by {
                let keys = w.keys;
                let all = q.relation_batches;
                let (a, b) = choose|a: int, b: int|
                    0 <= a < keys.len() && 0 <= b < keys.len() && all[i].from_label == (
                    #[trigger] keys[a]).label && all[i].from_key == keys[a].key_field
                        && all[i].rows[j].from_id == keys[a].id && all[i].to_label == (
                    #[trigger] keys[b]).label && all[i].to_key == keys[b].key_field
                        && all[i].rows[j].to_id == keys[b].id;
                key_is_a_node(w, q, prefix, n, a);
                key_is_a_node(w, q, prefix, n, b);
            }
        }
    }
}

proof fn key_is_a_node(
    w: graph::EntityWalk,
    q: InsertQueryModel,
    prefix: Option<Seq<char>>,
    n: nat,
    i: int,
)
    requires
        n > 0,
        keys_have_rows(w),
        0 <= i < w.keys.len(),
        q.node_batches == graph::all_node_batches(w.nodes, prefix, n),
    ensures
        has_node(q, w.keys[i].label, w.keys[i].key_field, w.keys[i].id),
{
    let k = w.keys[i];
    assert(key_has_row(w.nodes, k));
    let row = choose|row: NodeRowModel| #[trigger]
        in_group(w.nodes, key_group(k), row) && row.id == k.id;
    let at = grouped_row_is_batched(w.nodes, prefix, n, key_group(k), row);
    assert(key_group(k)[0] == k.label && key_group(k)[1] == k.key_field);
    assert(q.node_batches[at.0].rows[at.1].id == k.id);
}

/// The group that the row of an entity goes to.
pub open spec fn entity_group(e: EntityGraphModel, field: Seq<char>) -> Seq<Seq<char>> {
    graph::with_domain(seq![e.kind, field], e.domain)
}

/// Is there a row of an entity, with its id and the labels of its scopes, in the group
/// that it goes to?
pub open spec fn entity_has_row(
    nodes: Seq<(Seq<Seq<char>>, Seq<NodeRowModel>)>,
    floats: FloatTableModel,
    e: EntityGraphModel,
) -> bool {
    graph::merge_field(e) is Ok && {
        let field = graph::merge_field(e)->Ok_0;
        exists|row: NodeRowModel| #[trigger]
            in_group(nodes, entity_group(e, field), row)
                && graph::id_of(e, field, floats) == Ok::<LiteralModel, IngestErrorModel>(row.id)
                && row.scope_labels == scope::labels_of(e.scopes)
    }
}

proof fn walked_entities_have_rows<R: TypeRegistry>(
    registry: R,
    floats: FloatTableModel,
    prefix_index: Option<Seq<char>>,
    g: GraphModel,
    n: nat,
)
    requires
        n <= g.entities.len(),
        graph::entities_walked(registry, floats, prefix_index, g.entities, n).error is None,
    ensures
        forall|i: int|
            0 <= i < n ==> entity_has_row(
                graph::entities_walked(registry, floats, prefix_index, g.entities, n).nodes,
                floats,
                #[trigger] g.entities[i],
            ),
    decreases n,
{
    if n > 0 {
        let m = (n - 1) as nat;
        let w = graph::entities_walked(registry, floats, prefix_index, g.entities, m);
        let v = graph::entities_walked(registry, floats, prefix_index, g.entities, n);
        let e = g.entities[n - 1];
        walked_entities_have_rows(registry, floats, prefix_index, g, m);
        let field = graph::merge_field(e)->Ok_0;
        let id = graph::id_of(e, field, floats)->Ok_0;
        let p = graph::properties_walked(
            registry,
            floats,
            prefix_index,
            e,
            field,
            id,
            e.properties.len(),
        );
        let row = NodeRowModel {
            id,
            props: p.props,
            scope_labels: scope::labels_of(e.scopes),
        };
        let group = entity_group(e, field);
        assert(v.nodes == groups::group_push(w.nodes, group, row));
        push_is_in_group(w.nodes, group, row);
        assert forall|i: int| 0 <= i < n implies entity_has_row(
            v.nodes,
            floats,
            #[trigger] g.entities[i],
        ) by {
            let x = g.entities[i];
            if i < m {
                assert(entity_has_row(w.nodes, floats, x));
                let f = graph::merge_field(x)->Ok_0;
                let k = entity_group(x, f);
                let r = choose|r: NodeRowModel| #[trigger]
                    in_group(w.nodes, k, r) && graph::id_of(x, f, floats) == Ok::<
                        LiteralModel,
                        IngestErrorModel,
                    >(r.id) && r.scope_labels == scope::labels_of(x.scopes);
                push_keeps_groups(w.nodes, group, row, k, r);
            } else {
                assert(in_group(v.nodes, group, row));
            }
        }
    }
}

/// Is an entity a node of a query: under its label and key property, with its id, the
/// label of its domain and those of its scopes?
pub open spec fn entity_is_a_node(
    q: InsertQueryModel,
    floats: FloatTableModel,
    e: EntityGraphModel,
) -> bool {
    exists|i: int, j: int|
        0 <= i < q.node_batches.len() && 0 <= j < q.node_batches[i].rows.len()
            && q.node_batches[i].label == e.kind && graph::merge_field(e) == Ok::<
            Seq<char>,
            IngestErrorModel,
        >(q.node_batches[i].merge_on) && q.node_batches[i].domain_label == e.domain
            && graph::id_of(e, q.node_batches[i].merge_on, floats) == Ok::<
            LiteralModel,
            IngestErrorModel,
        >((#[trigger] q.node_batches[i].rows[j]).id) && q.node_batches[i].rows[j].scope_labels
            == scope::labels_of(e.scopes)
}

/// Every entity of a planned graph is a node of the query, and carries the label of
/// its domain and one label for each of its scopes.
pub proof fn law_graph_entities_become_nodes<R: TypeRegistry>(
    registry: R,
    floats: FloatTableModel,
    g: GraphModel,
    n: nat,
    prefix_label: Option<Seq<char>>,
    prefix_index: Option<Seq<char>>,
)
    ensures
        match graph::graph_outcome(registry, floats, g, n, prefix_label, prefix_index) {
            Ok(q) => forall|i: int|
                0 <= i < g.entities.len() ==> entity_is_a_node(
                    q,
                    floats,
                    #[trigger] g.entities[i],
                ),
            Err(_) => true,
        },
{
    let prefix = graph::prefix_of(prefix_label);
    let index = graph::prefix_of(prefix_index);
    if let Ok(q) = graph::graph_outcome(registry, floats, g, n, prefix_label, prefix_index) {
        let w = graph::entities_walked(registry, floats, index, g.entities, g.entities.len());
        walked_entities_have_rows(registry, floats, index, g, g.entities.len());
        assert forall|i: int| 0 <= i < g.entities.len() implies entity_is_a_node(
            q,
            floats,
            #[trigger] g.entities[i],
        ) by {
            let e = g.entities[i];
            assert(entity_has_row(w.nodes, floats, e));
            let field = graph::merge_field(e)->Ok_0;
            let k = entity_group(e, field);
            let row = choose|row: NodeRowModel| #[trigger]
                in_group(w.nodes, k, row) && graph::id_of(e, field, floats) == Ok::<
                    LiteralModel,
                    IngestErrorModel,
                >(row.id) && row.scope_labels == scope::labels_of(e.scopes);
            let at = grouped_row_is_batched(w.nodes, prefix, n, k, row);
            assert(k[0] == e.kind && k[1] == field && graph::domain_of_key(k, 2) == e.domain);
            assert(q.node_batches[at.0].rows[at.1].id == row.id);
        }
    }
}

/// A label that an entity may have: an identifier that is not one of the document's
/// own.
pub open spec fn user_label(l: Seq<char>) -> bool {
    text::is_identifier(l) && !document::reserved_label(l)
}

/// A type that a relation may have: an identifier that is not one of the document's
/// own.
pub open spec fn user_relation(l: Seq<char>) -> bool {
    text::is_identifier(l) && !document::reserved_relation(l)
}

/// Is a node of a label gathered under an id?
pub open spec fn gathered_node(
    entities: Seq<(Seq<char>, Seq<NodeDataModel>)>,
    label: Seq<char>,
    id: LiteralModel,
) -> bool {
    exists|j: int|
        0 <= j < strmap::assoc_group(entities, label).len() && (
        #[trigger] strmap::assoc_group(entities, label)[j]).id == id
}

/// Is a row with an id among rows?
pub open spec fn has_row(rows: Seq<NodeDataModel>, id: LiteralModel) -> bool {
    exists|j: int| 0 <= j < rows.len() && (#[trigger] rows[j]).id == id
}

proof fn pushed_node_is_gathered(
    entities: Seq<(Seq<char>, Seq<NodeDataModel>)>,
    label: Seq<char>,
    row: NodeDataModel,
)
    ensures
        gathered_node(strmap::assoc_push(entities, label, row), label, row.id),
{
    let group = strmap::assoc_group(entities, label);
    strmap::law_get_after_insert(entities, label, group.push(row));
    assert(strmap::assoc_group(strmap::assoc_push(entities, label, row), label)[group.len() as int]
        == row);
}

proof fn push_keeps_gathered(
    entities: Seq<(Seq<char>, Seq<NodeDataModel>)>,
    label: Seq<char>,
    row: NodeDataModel,
    other: Seq<char>,
    id: LiteralModel,
)
    requires
        gathered_node(entities, other, id),
    ensures
        gathered_node(strmap::assoc_push(entities, label, row), other, id),
{
    let group = strmap::assoc_group(entities, label);
    let after = strmap::assoc_push(entities, label, row);
    let before = strmap::assoc_group(entities, other);
    let j = choose|j: int| 0 <= j < before.len() && (#[trigger] before[j]).id == id;
    if other == label {
        strmap::law_get_after_insert(entities, label, group.push(row));
        assert(strmap::assoc_group(after, other)[j].id == id);
    } else {
        strmap::law_get_other_after_insert(entities, label, group.push(row), other);
        assert(strmap::assoc_group(after, other)[j].id == id);
    }
}

pub(crate) proof fn insert_keeps_entries<T>(
    s: Seq<(Seq<char>, T)>,
    k: Seq<char>,
    v: T,
    q: spec_fn((Seq<char>, T)) -> bool,
)
    requires
        q((k, v)),
        forall|i: int| 0 <= i < s.len() ==> q(#[trigger] s[i]),
    ensures
        forall|i: int|
            0 <= i < strmap::assoc_insert(s, k, v).len() ==> q(
                #[trigger] strmap::assoc_insert(s, k, v)[i],
            ),
    decreases s.len(),
{
    let t = strmap::assoc_insert(s, k, v);
    if s.len() > 0 {
        let rest = s.drop_first();
        assert forall|i: int| 0 <= i < rest.len() implies q(#[trigger] rest[i]) by {
            assert(q(s[i + 1]));
        }
        insert_keeps_entries(rest, k, v, q);
        let u = strmap::assoc_insert(rest, k, v);
        assert forall|i: int| 0 <= i < t.len() implies q(#[trigger] t[i]) by {
            if s[0].0 == k {
                if i > 0 {
                    assert(t[i] == s[i]);
                }
            } else if text::lex_lt(s[0].0, k) {
                if i == 0 {
                    assert(q(s[0]));
                } else {
                    assert(t[i] == u[i - 1]);
                }
            } else if i > 0 {
                assert(t[i] == s[i - 1]);
            }
        }
    }
}

/// The labels of entities are theirs to have.
pub open spec fn labels_hold(entities: Seq<(Seq<char>, Seq<NodeDataModel>)>) -> bool {
    forall|i: int| 0 <= i < entities.len() ==> user_label((#[trigger] entities[i]).0)
}

/// A relation between gathered nodes, of a type that is its to have.
pub open spec fn user_row(entities: Seq<(Seq<char>, Seq<NodeDataModel>)>) -> spec_fn(
    Seq<Seq<char>>,
    RelationDataModel,
) -> bool {
    |k: Seq<Seq<char>>, row: RelationDataModel|
        {
            &&& k.len() == 3
            &&& user_relation(k[0])
            &&& user_label(k[1])
            &&& user_label(k[2])
            &&& gathered_node(entities, k[1], row.from_id)
            &&& gathered_node(entities, k[2], row.to_id)
        }
}

/// The mentions of a label are of gathered nodes, by gathered chunks.
pub open spec fn mentions_of_label(g: Gathered) -> spec_fn(
    (Seq<char>, Seq<RelationDataModel>),
) -> bool {
    |m: (Seq<char>, Seq<RelationDataModel>)|
        user_label(m.0) && forall|j: int|
            0 <= j < m.1.len() ==> has_row(g.chunk_rows, (#[trigger] m.1[j]).from_id)
                && gathered_node(g.entities, m.0, m.1[j].to_id)
}

pub open spec fn mentions_hold(g: Gathered) -> bool {
    forall|i: int| 0 <= i < g.mentions.len() ==> mentions_of_label(g)(#[trigger] g.mentions[i])
}

/// The links of chunks lead from the document to gathered chunks.
pub open spec fn links_hold(g: Gathered, path: Seq<char>) -> bool {
    forall|j: int|
        0 <= j < g.has_chunk_rows.len() ==> (#[trigger] g.has_chunk_rows[j]).from_id
            == LiteralModel::Str(path) && has_row(g.chunk_rows, g.has_chunk_rows[j].to_id)
}

/// What holds of all that a walk has gathered.
pub open spec fn gathering_sound(g: Gathered, path: Seq<char>) -> bool {
    &&& labels_hold(g.entities)
    &&& rows_hold(g.user_rels, user_row(g.entities))
    &&& mentions_hold(g)
    &&& links_hold(g, path)
}

/// A handle that is taken stands for a gathered node.
pub open spec fn handle_holds(g: Gathered, local: LocalModel, h: Seq<char>) -> bool {
    match strmap::assoc_get(local, h) {
        Some(x) => user_label(x.0) && gathered_node(g.entities, x.0, LiteralModel::Str(x.1)),
        None => true,
    }
}

/// The handles of a chunk stand for gathered nodes.
pub open spec fn handles_hold(g: Gathered, local: LocalModel) -> bool {
    forall|h: Seq<char>| #[trigger] handle_holds(g, local, h)
}

proof fn chunk_keeps_sound<R: TypeRegistry>(
    registry: R,
    path: Seq<char>,
    index: int,
    c: ChunkModel,
    w: Walk,
)
    requires
        gathering_sound(w.gathered, path),
    ensures
        ({
            let v = document::chunk_opened(registry, path, index, c, w);
            gathering_sound(v.gathered, path) && (v.error is None ==> has_row(
                v.gathered.chunk_rows,
                LiteralModel::Str(document::chunk_id(path, c.id)),
            ))
        }),
{
    let v = document::chunk_opened(registry, path, index, c, w);
    let g = w.gathered;
    let h = v.gathered;
    if v.error is None {
        let row = h.chunk_rows.last();
        assert(h.chunk_rows == g.chunk_rows.push(row));
        assert(h.chunk_rows[g.chunk_rows.len() as int] == row);
        chunks_only_grow(g.chunk_rows, row);
        assert forall|i: int| 0 <= i < h.mentions.len() implies mentions_of_label(h)(
            #[trigger] h.mentions[i],
        ) by {
            assert(mentions_of_label(g)(g.mentions[i]));
            let m = h.mentions[i];
            assert forall|j: int| 0 <= j < m.1.len() implies has_row(
                h.chunk_rows,
                (#[trigger] m.1[j]).from_id,
            ) && gathered_node(h.entities, m.0, m.1[j].to_id) by {
                assert(has_row(g.chunk_rows, m.1[j].from_id));
            }
        }
        assert forall|j: int| 0 <= j < h.has_chunk_rows.len() implies (
        #[trigger] h.has_chunk_rows[j]).from_id == LiteralModel::Str(path) && has_row(
            h.chunk_rows,
            h.has_chunk_rows[j].to_id,
        ) by {
            if j < g.has_chunk_rows.len() {
                assert(h.has_chunk_rows[j] == g.has_chunk_rows[j]);
            }
        }
    }
}

proof fn chunks_only_grow(rows: Seq<NodeDataModel>, row: NodeDataModel)
    ensures
        forall|id: LiteralModel| has_row(rows, id) ==> #[trigger] has_row(rows.push(row), id),
{
    assert forall|id: LiteralModel| has_row(rows, id) implies #[trigger] has_row(
        rows.push(row),
        id,
    ) by {
        let j = choose|j: int| 0 <= j < rows.len() && (#[trigger] rows[j]).id == id;
        assert(rows.push(row)[j].id == id);
    }
}

proof fn user_rows_survive(
    s: Seq<(Seq<Seq<char>>, Seq<RelationDataModel>)>,
    entities: Seq<(Seq<char>, Seq<NodeDataModel>)>,
    label: Seq<char>,
    row: NodeDataModel,
)
    requires
        rows_hold(s, user_row(entities)),
    ensures
        rows_hold(s, user_row(strmap::assoc_push(entities, label, row))),
{
    let after = strmap::assoc_push(entities, label, row);
    assert forall|i: int, j: int| 0 <= i < s.len() && 0 <= j < s[i].1.len() implies user_row(after)(
        s[i].0,
        #[trigger] s[i].1[j],
    ) by {
        assert(user_row(entities)(s[i].0, s[i].1[j]));
        push_keeps_gathered(entities, label, row, s[i].0[1], s[i].1[j].from_id);
        push_keeps_gathered(entities, label, row, s[i].0[2], s[i].1[j].to_id);
    }
}

proof fn mentions_survive(g: Gathered, h: Gathered, label: Seq<char>, row: NodeDataModel)
    requires
        mentions_hold(g),
        h.entities == strmap::assoc_push(g.entities, label, row),
        h.chunk_rows == g.chunk_rows,
    ensures
        forall|i: int|
            0 <= i < g.mentions.len() ==> mentions_of_label(h)(#[trigger] g.mentions[i]),
{
    assert forall|i: int| 0 <= i < g.mentions.len() implies mentions_of_label(h)(
        #[trigger] g.mentions[i],
    ) by {
        let m = g.mentions[i];
        assert(mentions_of_label(g)(m));
        assert forall|j: int| 0 <= j < m.1.len() implies has_row(
            h.chunk_rows,
            (#[trigger] m.1[j]).from_id,
        ) && gathered_node(h.entities, m.0, m.1[j].to_id) by {
            push_keeps_gathered(g.entities, label, row, m.0, m.1[j].to_id);
        }
    }
}

proof fn entity_keeps_sound<R: TypeRegistry>(
    registry: R,
    path: Seq<char>,
    c: ChunkModel,
    e: document::EntityModel,
    w: Walk,
    local: LocalModel,
)
    requires
        gathering_sound(w.gathered, path),
        handles_hold(w.gathered, local),
        w.error is None ==> has_row(
            w.gathered.chunk_rows,
            LiteralModel::Str(document::chunk_id(path, c.id)),
        ),
    ensures
        ({
            let (v, after) = document::entity_added(registry, path, c, e, w, local);
            gathering_sound(v.gathered, path) && handles_hold(v.gathered, after) && (v.error is None
                ==> has_row(
                v.gathered.chunk_rows,
                LiteralModel::Str(document::chunk_id(path, c.id)),
            ))
        }),
{
    let (v, after) = document::entity_added(registry, path, c, e, w, local);
    let g = w.gathered;
    let h = v.gathered;
    if w.error is None && v.error is None {
        let label = document::sanitized_label(e.kind)->0;
        document::law_sanitized_label_is_identifier(e.kind);
        let id = document::entity_id(path, c.id, e.id);
        let key = LiteralModel::Str(id);
        let row = NodeDataModel {
            id: key,
            props: document::entity_props(
                id,
                e.kind,
                document::semantic_text(registry, label, key, "name"@, e.name)->Ok_0.0,
            ),
        };
        let mention = RelationDataModel {
            from_id: LiteralModel::Str(document::chunk_id(path, c.id)),
            to_id: key,
        };
        assert(h.entities == strmap::assoc_push(g.entities, label, row));
        assert(h.mentions == strmap::assoc_push(g.mentions, label, mention));
        pushed_node_is_gathered(g.entities, label, row);
        user_rows_survive(g.user_rels, g.entities, label, row);
        insert_keeps_entries(
            g.entities,
            label,
            strmap::assoc_group(g.entities, label).push(row),
            |x: (Seq<char>, Seq<NodeDataModel>)| user_label(x.0),
        );
        mentions_survive(g, h, label, row);
        let group = strmap::assoc_group(g.mentions, label);
        if strmap::assoc_get(g.mentions, label) is Some {
            let i = strmap::get_is_an_entry(g.mentions, label);
            assert(mentions_of_label(h)(g.mentions[i]));
        }
        let more = group.push(mention);
        assert forall|j: int| 0 <= j < more.len() implies has_row(
            h.chunk_rows,
            (#[trigger] more[j]).from_id,
        ) && gathered_node(h.entities, label, more[j].to_id) by {
            if j < group.len() {
                assert(more[j] == group[j]);
            }
        }
        assert(mentions_of_label(h)((label, more)));
        insert_keeps_entries(g.mentions, label, more, mentions_of_label(h));
        assert forall|k: Seq<char>| #[trigger] handle_holds(h, after, k) by {
            if k == e.id {
                strmap::law_get_after_insert(local, e.id, (label, id));
            } else {
                strmap::law_get_other_after_insert(local, e.id, (label, id), k);
                assert(handle_holds(g, local, k));
                match strmap::assoc_get(local, k) {
                    Some(x) => {
                        push_keeps_gathered(g.entities, label, row, x.0, LiteralModel::Str(x.1));
                    },
                    None => {},
                }
            }
        }
    }
}

proof fn entities_keep_sound<R: TypeRegistry>(
    registry: R,
    path: Seq<char>,
    c: ChunkModel,
    n: nat,
    w: Walk,
)
    requires
        gathering_sound(w.gathered, path),
        w.error is None ==> has_row(
            w.gathered.chunk_rows,
            LiteralModel::Str(document::chunk_id(path, c.id)),
        ),
    ensures
        ({
            let (v, local) = document::entities_added(registry, path, c, n, w);
            gathering_sound(v.gathered, path) && handles_hold(v.gathered, local) && (v.error is None
                ==> has_row(
                v.gathered.chunk_rows,
                LiteralModel::Str(document::chunk_id(path, c.id)),
            ))
        }),
    decreases n,
{
    if n > 0 {
        entities_keep_sound(registry, path, c, (n - 1) as nat, w);
        let (v, local) = document::entities_added(registry, path, c, (n - 1) as nat, w);
        entity_keeps_sound(registry, path, c, c.entities[n - 1], v, local);
    }
}

proof fn relations_keep_sound(c: ChunkModel, local: LocalModel, n: nat, w: Walk, path: Seq<char>)
    requires
        gathering_sound(w.gathered, path),
        handles_hold(w.gathered, local),
    ensures
        ({
            let v = document::relations_added(c, local, n, w);
            gathering_sound(v.gathered, path) && handles_hold(v.gathered, local)
        }),
    decreases n,
{
    if n > 0 {
        relations_keep_sound(c, local, (n - 1) as nat, w, path);
        let v = document::relations_added(c, local, (n - 1) as nat, w);
        let r = c.relations[n - 1];
        let u = document::relation_added(c, local, r, v);
        if v.error is None && u.error is None {
            let from = strmap::assoc_get(local, r.from)->0;
            let to = strmap::assoc_get(local, r.to)->0;
            assert(handle_holds(v.gathered, local, r.from));
            assert(handle_holds(v.gathered, local, r.to));
            let kind = document::sanitized_rel(r.kind)->0;
            document::law_sanitized_rel_is_identifier(r.kind);
            let key = seq![kind, from.0, to.0];
            let row = RelationDataModel {
                from_id: LiteralModel::Str(from.1),
                to_id: LiteralModel::Str(to.1),
            };
            assert(user_row(v.gathered.entities)(key, row));
            push_keeps_rows(v.gathered.user_rels, key, row, user_row(v.gathered.entities));
            assert forall|k: Seq<char>| #[trigger] handle_holds(u.gathered, local, k) by {
                assert(handle_holds(v.gathered, local, k));
            }
            assert forall|i: int| 0 <= i < u.gathered.mentions.len() implies mentions_of_label(
                u.gathered,
            )(#[trigger] u.gathered.mentions[i]) by {
                assert(mentions_of_label(v.gathered)(v.gathered.mentions[i]));
            }
        }
    }
}

pub(crate) proof fn walk_is_sound<R: TypeRegistry>(registry: R, doc: DocumentModel, n: nat)
    ensures
        gathering_sound(document::walked(registry, doc, n).gathered, doc.path),
    decreases n,
{
    if n > 0 {
        walk_is_sound(registry, doc, (n - 1) as nat);
        let w = document::walked(registry, doc, (n - 1) as nat);
        let c = doc.chunks[n - 1];
        chunk_keeps_sound(registry, doc.path, n - 1, c, w);
        let opened = document::chunk_opened(registry, doc.path, n - 1, c, w);
        entities_keep_sound(registry, doc.path, c, c.entities.len(), opened);
        let (v, local) = document::entities_added(
            registry,
            doc.path,
            c,
            c.entities.len(),
            opened,
        );
        relations_keep_sound(c, local, c.relations.len(), v, doc.path);
    }
}

/// Is a node of a label planned under a key and an id?
pub open spec fn planned_node(
    plan: InsertPlanModel,
    label: Seq<char>,
    key: Seq<char>,
    id: LiteralModel,
) -> bool {
    exists|i: int|
        0 <= i < plan.nodes.len() && (#[trigger] plan.nodes[i]).label == label
            && plan.nodes[i].merge_on == key && has_row(plan.nodes[i].rows, id)
}

proof fn sorted_has_row(rows: Seq<NodeDataModel>, id: LiteralModel)
    requires
        has_row(rows, id),
    ensures
        has_row(sorting::sorted_by(rows, dsl::node_row_le()), id),
{
    let j = choose|j: int| 0 <= j < rows.len() && (#[trigger] rows[j]).id == id;
    let sorted = sorting::sorted_by(rows, dsl::node_row_le());
    sorting::sorting_keeps(rows, dsl::node_row_le(), rows[j]);
    let k = choose|k: int| 0 <= k < sorted.len() && sorted[k] == rows[j];
    assert(sorted[k].id == id);
}

proof fn gathered_node_is_planned(doc: DocumentModel, g: Gathered, label: Seq<char>, id: LiteralModel)
    requires
        gathered_node(g.entities, label, id),
    ensures
        planned_node(document::assembled(doc, g), label, "id"@, id),
{
    let plan = document::assembled(doc, g);
    let i = strmap::get_is_an_entry(g.entities, label);
    assert(has_row(g.entities[i].1, id)) by {
        let group = strmap::assoc_group(g.entities, label);
        let j = choose|j: int| 0 <= j < group.len() && (#[trigger] group[j]).id == id;
        assert(g.entities[i].1[j].id == id);
    }
    sorted_has_row(g.entities[i].1, id);
    let at = plan.nodes.len() - g.entities.len() + i;
    assert(plan.nodes[at] == document::node_plan(label, g.entities[i].1));
}

proof fn gathered_chunk_is_planned(doc: DocumentModel, g: Gathered, id: LiteralModel)
    requires
        has_row(g.chunk_rows, id),
    ensures
        planned_node(document::assembled(doc, g), document::CHUNK_LABEL@, "id"@, id),
{
    let plan = document::assembled(doc, g);
    sorted_has_row(g.chunk_rows, id);
    assert(plan.nodes[1] == document::node_plan(document::CHUNK_LABEL@, g.chunk_rows));
}

proof fn document_is_planned(doc: DocumentModel, g: Gathered)
    ensures
        planned_node(
            document::assembled(doc, g),
            document::DOCUMENT_LABEL@,
            "path"@,
            LiteralModel::Str(doc.path),
        ),
{
    let plan = document::assembled(doc, g);
    assert(plan.nodes[0] == document::document_plan(doc));
    assert(plan.nodes[0].rows[0].id == LiteralModel::Str(doc.path));
}

/// Every end of a planned relation is a planned node.
pub open spec fn plan_joins_nodes(plan: InsertPlanModel) -> bool {
    forall|i: int, j: int|
        0 <= i < plan.relations.len() && 0 <= j < plan.relations[i].rows.len() ==> {
            let p = plan.relations[i];
            let row = #[trigger] plan.relations[i].rows[j];
            planned_node(plan, p.from_label, p.from_key, row.from_id) && planned_node(
                plan,
                p.to_label,
                p.to_key,
                row.to_id,
            )
        }
}

proof fn relation_row_is_joined(doc: DocumentModel, g: Gathered, i: int, j: int)
    requires
        gathering_sound(g, doc.path),
        0 <= i < document::assembled(doc, g).relations.len(),
        0 <= j < document::assembled(doc, g).relations[i].rows.len(),
    ensures
        ({
            let plan = document::assembled(doc, g);
            let p = plan.relations[i];
            let row = p.rows[j];
            planned_node(plan, p.from_label, p.from_key, row.from_id) && planned_node(
                plan,
                p.to_label,
                p.to_key,
                row.to_id,
            )
        }),
{
    let plan = document::assembled(doc, g);
    let p = plan.relations[i];
    let row = p.rows[j];
    assert(p.rows.contains(row));
    let links = if g.has_chunk_rows.len() > 0 {
        1int
    } else {
        0
    };
    let mentions = g.mentions.len() as int;
    if i < links {
        sorting::sorting_adds_none(g.has_chunk_rows, dsl::relation_row_le(), row);
        let k = choose|k: int| 0 <= k < g.has_chunk_rows.len() && g.has_chunk_rows[k] == row;
        assert(g.has_chunk_rows[k].from_id == LiteralModel::Str(doc.path));
        document_is_planned(doc, g);
        gathered_chunk_is_planned(doc, g, row.to_id);
    } else if i < links + mentions {
        let m = g.mentions[i - links];
        assert(p == document::relation_plan(
            document::MENTIONS_REL@,
            document::CHUNK_LABEL@,
            "id"@,
            m.0,
            m.1,
        ));
        sorting::sorting_adds_none(m.1, dsl::relation_row_le(), row);
        let k = choose|k: int| 0 <= k < m.1.len() && m.1[k] == row;
        assert(mentions_of_label(g)(g.mentions[i - links]));
        assert(has_row(g.chunk_rows, m.1[k].from_id));
        gathered_chunk_is_planned(doc, g, row.from_id);
        gathered_node_is_planned(doc, g, m.0, row.to_id);
    } else {
        let at = i - links - mentions;
        let u = g.user_rels[at];
        assert(p == document::relation_plan(u.0[0], u.0[1], "id"@, u.0[2], u.1));
        sorting::sorting_adds_none(u.1, dsl::relation_row_le(), row);
        let k = choose|k: int| 0 <= k < u.1.len() && u.1[k] == row;
        assert(user_row(g.entities)(g.user_rels[at].0, g.user_rels[at].1[k]));
        gathered_node_is_planned(doc, g, u.0[1], row.from_id);
        gathered_node_is_planned(doc, g, u.0[2], row.to_id);
    }
}

/// A planned document has no relation to nowhere: both ends of every relation are
/// nodes of the same plan.
pub proof fn law_document_relations_join_nodes<R: TypeRegistry>(
    registry: R,
    max_batch_size: usize,
    doc: DocumentModel,
)
    ensures
        match document::document_outcome(registry, max_batch_size, doc) {
            Ok(plan) => plan_joins_nodes(plan),
            Err(_) => true,
        },
{
    let w = document::walked(registry, doc, doc.chunks.len());
    walk_is_sound(registry, doc, doc.chunks.len());
    let plan = document::assembled(doc, w.gathered);
    assert forall|i: int, j: int|
        0 <= i < plan.relations.len() && 0 <= j < plan.relations[i].rows.len() implies {
        let p = plan.relations[i];
        let row = #[trigger] plan.relations[i].rows[j];
        planned_node(plan, p.from_label, p.from_key, row.from_id) && planned_node(
            plan,
            p.to_label,
            p.to_key,
            row.to_id,
        )
    } by {
        relation_row_is_joined(doc, w.gathered, i, j);
    }
}

/// A label of a plan is an identifier: the document's own, or one that an entity may
/// have.
pub open spec fn planned_label(l: Seq<char>) -> bool {
    l == document::DOCUMENT_LABEL@ || l == document::CHUNK_LABEL@ || user_label(l)
}

/// A relation type of a plan is an identifier: the document's own, or one that a
/// relation may have.
pub open spec fn planned_relation(l: Seq<char>) -> bool {
    l == document::HAS_CHUNK_REL@ || l == document::MENTIONS_REL@ || user_relation(l)
}

/// The labels and the relation types of a planned document are its own, or
/// identifiers that are not reserved.
pub proof fn law_document_labels_are_safe<R: TypeRegistry>(
    registry: R,
    max_batch_size: usize,
    doc: DocumentModel,
)
    ensures
        match document::document_outcome(registry, max_batch_size, doc) {
            Ok(plan) => (forall|i: int|
                0 <= i < plan.nodes.len() ==> planned_label((#[trigger] plan.nodes[i]).label))
                && (forall|i: int|
                0 <= i < plan.relations.len() && plan.relations[i].rows.len() > 0
                    ==> planned_relation((#[trigger] plan.relations[i]).rel_type)),
            Err(_) => true,
        },
{
    let g = document::walked(registry, doc, doc.chunks.len()).gathered;
    walk_is_sound(registry, doc, doc.chunks.len());
    let plan = document::assembled(doc, g);
    assert forall|i: int| 0 <= i < plan.nodes.len() implies planned_label(
        (#[trigger] plan.nodes[i]).label,
    ) by {
        let head = plan.nodes.len() - g.entities.len();
        if i >= head {
            assert(plan.nodes[i].label == g.entities[i - head].0);
            assert(user_label(g.entities[i - head].0));
        } else if i == 0 {
            assert(plan.nodes[0] == document::document_plan(doc));
        } else {
            assert(plan.nodes[1] == document::node_plan(document::CHUNK_LABEL@, g.chunk_rows));
        }
    }
}

} // verus!
