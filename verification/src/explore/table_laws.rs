//! What the table, the ids, the edges and the sources of a result hold of its rows.

use vstd::prelude::*;
use crate::db;
use crate::db::DbValueModel;
use crate::db::RowModel;
use crate::dsl::DslQueryModel;
use crate::dsl::ReturnItemModel;
use crate::dsl::TraversalStepModel;
use crate::explore::dto::EdgeViewModel;
use crate::explore::dto::SourceRefModel;
use crate::explore::subgraph;
use crate::explore::subgraph::Gathered;
use crate::json::JsonModel;
use crate::seqs;
use crate::sorting;
use crate::strmap;
use crate::text;

verus! {

broadcast use vstd::string::group_string_axioms;

proof fn pushed_contains<T>(s: Seq<T>, x: T, y: T)
    ensures
        s.push(x).contains(y) <==> s.contains(y) || x == y,
{
    let t = s.push(x);
    if t.contains(y) {
        let i = choose|i: int| 0 <= i < t.len() && t[i] == y;
        if i < s.len() {
            assert(s[i] == y);
        }
    }
    if s.contains(y) {
        let i = choose|i: int| 0 <= i < s.len() && s[i] == y;
        assert(t[i] == y);
    }
    assert(t[s.len() as int] == x);
}

/// The nodes of a query are its start and the targets of its steps, each once.
pub proof fn law_nodes_of_a_query_are_counted_once(
    start: Seq<char>,
    steps: Seq<TraversalStepModel>,
    alias: Seq<char>,
)
    ensures
        subgraph::node_aliases(start, steps).no_duplicates(),
        subgraph::node_aliases(start, steps).contains(alias) <==> alias == start || exists|i: int|
            0 <= i < steps.len() && (#[trigger] steps[i]).target.alias == alias,
    decreases steps.len(),
{
    if steps.len() == 0 {
        assert(seq![start][0] == start);
        if seq![start].contains(alias) {
            let i = choose|i: int| 0 <= i < 1 && seq![start][i] == alias;
        }
    } else {
        let rest = steps.drop_last();
        law_nodes_of_a_query_are_counted_once(start, rest, alias);
        let before = subgraph::node_aliases(start, rest);
        let x = steps.last().target.alias;
        pushed_contains(before, x, alias);
        assert(steps[steps.len() - 1].target.alias == x);
        if before.contains(alias) && alias != start {
            let i = choose|i: int| 0 <= i < rest.len() && (#[trigger] rest[i]).target.alias == alias;
            assert(steps[i].target.alias == alias);
        }
        if exists|i: int| 0 <= i < steps.len() && (#[trigger] steps[i]).target.alias == alias {
            let i = choose|i: int|
                0 <= i < steps.len() && (#[trigger] steps[i]).target.alias == alias;
            if i < rest.len() {
                assert(rest[i].target.alias == alias);
            }
        }
    }
}

/// Does an item return the id of a node, under the hidden column of that node?
pub open spec fn returns_id_of(item: ReturnItemModel, alias: Seq<char>) -> bool {
    match item {
        ReturnItemModel::Field { field, alias: a } => field == alias + ".id"@ && a == Some(
            "__id_"@ + alias,
        ),
        _ => false,
    }
}

proof fn ids_are_added(
    given: Seq<ReturnItemModel>,
    items: Seq<ReturnItemModel>,
    aliases: Seq<Seq<char>>,
)
    ensures
        ({
            let all = subgraph::with_ids(given, items, aliases);
            &&& all.len() >= items.len()
            &&& forall|k: int|
                0 <= k < aliases.len() && !subgraph::returns_alias(
                    given,
                    "__id_"@ + #[trigger] aliases[k],
                ) ==> id_is_returned(all, aliases[k])
            &&& forall|i: int| items.len() <= i < all.len() ==> is_id_of_some(#[trigger] all[i], aliases)
        }),
    decreases aliases.len(),
{
    if aliases.len() > 0 {
        let rest = aliases.drop_last();
        let x = aliases.last();
        ids_are_added(given, items, rest);
        let before = subgraph::with_ids(given, items, rest);
        let all = subgraph::with_ids(given, items, aliases);
        assert forall|k: int|
            0 <= k < aliases.len() && !subgraph::returns_alias(
                given,
                "__id_"@ + #[trigger] aliases[k],
            ) implies id_is_returned(all, aliases[k]) by {
            if k < rest.len() {
                assert(rest[k] == aliases[k]);
                assert(id_is_returned(before, rest[k]));
                let i = choose|i: int|
                    0 <= i < before.len() && returns_id_of(#[trigger] before[i], rest[k]);
                assert(all[i] == before[i]);
            } else {
                assert(returns_id_of(all[before.len() as int], x));
            }
        }
        assert forall|i: int| items.len() <= i < all.len() implies is_id_of_some(
            #[trigger] all[i],
            aliases,
        ) by {
            if i < before.len() {
                assert(all[i] == before[i]);
                let k = choose|k: int|
                    0 <= k < rest.len() && returns_id_of(before[i], #[trigger] rest[k]);
                assert(aliases[k] == rest[k]);
            } else {
                assert(returns_id_of(all[i], aliases[aliases.len() - 1]));
            }
        }
    }
}

pub open spec fn id_is_returned(items: Seq<ReturnItemModel>, alias: Seq<char>) -> bool {
    exists|i: int| 0 <= i < items.len() && returns_id_of(#[trigger] items[i], alias)
}

pub open spec fn is_id_of_some(item: ReturnItemModel, aliases: Seq<Seq<char>>) -> bool {
    exists|k: int| 0 <= k < aliases.len() && returns_id_of(item, #[trigger] aliases[k])
}

/// A widened query returns the id of every node of the query under the hidden column of that node,
/// unless the query returns something under that column; what it returns beyond the query is the
/// id of one of its nodes. Nothing else of the query changes.
pub proof fn law_widened_queries_return_ids(q: DslQueryModel)
    requires
        subgraph::is_find(q),
    ensures
        ({
            let wide = subgraph::injected(q)->0;
            let nodes = subgraph::node_aliases(q.start.alias, q.traversals);
            &&& subgraph::injected(q) is Some
            &&& forall|k: int|
                0 <= k < nodes.len() && !subgraph::returns_alias(
                    q.return_,
                    "__id_"@ + #[trigger] nodes[k],
                ) ==> id_is_returned(wide.return_, nodes[k])
            &&& forall|i: int|
                q.return_.len() <= i < wide.return_.len() ==> is_id_of_some(
                    #[trigger] wide.return_[i],
                    nodes,
                )
            &&& wide.start == q.start
            &&& wide.traversals == q.traversals
            &&& wide.group_by == q.group_by
            &&& wide.limit == q.limit
        }),
{
    ids_are_added(q.return_, q.return_, subgraph::node_aliases(q.start.alias, q.traversals));
}

/// A query is widened exactly when it returns something and neither groups nor aggregates.
pub proof fn law_only_finds_are_widened(q: DslQueryModel)
    ensures
        subgraph::injected(q) is Some <==> q.group_by.len() == 0 && q.return_.len() > 0 && forall|i:
            int| 0 <= i < q.return_.len() ==> !(#[trigger] q.return_[i] is Aggregate),
{
}

/// Has a row an id in a hidden column?
pub open spec fn row_has_id(row: RowModel, id: Seq<char>) -> bool {
    exists|i: int|
        0 <= i < row.len() && text::has_prefix((#[trigger] row[i]).0, "__id_"@)
            && subgraph::usable_id(row[i].1) == Some(id)
}

proof fn row_is_gathered(g: Gathered, row: RowModel, cap: nat, id: Seq<char>)
    ensures
        ({
            let h = subgraph::gather_row(g, row, cap);
            &&& h.ids.contains(id) ==> g.ids.contains(id) || row_has_id(row, id)
            &&& g.ids.contains(id) ==> h.ids.contains(id)
            &&& !h.truncated && row_has_id(row, id) ==> h.ids.contains(id)
            &&& g.truncated ==> h.truncated
            &&& h.truncated && !g.truncated ==> h.ids.len() >= cap
        }),
    decreases row.len(),
{
    if row.len() > 0 {
        let rest = row.drop_last();
        row_is_gathered(g, rest, cap, id);
        let before = subgraph::gather_row(g, rest, cap);
        let (column, value) = row.last();
        assert(row[row.len() - 1] == (column, value));
        if text::has_prefix(column, "__id_"@) && subgraph::usable_id(value) is Some {
            pushed_contains(before.ids, subgraph::usable_id(value)->0, id);
        }
        if row_has_id(rest, id) {
            let i = choose|i: int|
                0 <= i < rest.len() && text::has_prefix((#[trigger] rest[i]).0, "__id_"@)
                    && subgraph::usable_id(rest[i].1) == Some(id);
            assert(row[i] == rest[i]);
        }
        if row_has_id(row, id) {
            let i = choose|i: int|
                0 <= i < row.len() && text::has_prefix((#[trigger] row[i]).0, "__id_"@)
                    && subgraph::usable_id(row[i].1) == Some(id);
            if i < rest.len() {
                assert(rest[i] == row[i]);
            }
        }
    }
}

/// The ids that are gathered are ids of the hidden columns of the rows; all of them are, unless it
/// says that some were left out, which happens only when there are as many as there may be.
pub proof fn law_gathered_ids_are_of_the_rows(rows: Seq<RowModel>, cap: nat, id: Seq<char>)
    ensures
        ({
            let g = subgraph::gathered(rows, cap);
            let held = exists|i: int| 0 <= i < rows.len() && row_has_id(#[trigger] rows[i], id);
            &&& g.ids.contains(id) ==> held
            &&& !g.truncated && held ==> g.ids.contains(id)
            &&& g.truncated ==> g.ids.len() >= cap
        }),
    decreases rows.len(),
{
    if rows.len() > 0 {
        let rest = rows.drop_last();
        law_gathered_ids_are_of_the_rows(rest, cap, id);
        let before = subgraph::gathered(rest, cap);
        row_is_gathered(before, rows.last(), cap, id);
        gathering_grows(before, rows.last(), cap);
        assert(rows[rows.len() - 1] == rows.last());
        if exists|i: int| 0 <= i < rest.len() && row_has_id(#[trigger] rest[i], id) {
            let i = choose|i: int| 0 <= i < rest.len() && row_has_id(#[trigger] rest[i], id);
            assert(row_has_id(rows[i], id));
        }
        if exists|i: int| 0 <= i < rows.len() && row_has_id(#[trigger] rows[i], id) {
            let i = choose|i: int| 0 <= i < rows.len() && row_has_id(#[trigger] rows[i], id);
            if i < rest.len() {
                assert(row_has_id(rest[i], id));
            }
        }
    }
}

proof fn gathering_grows(g: Gathered, row: RowModel, cap: nat)
    ensures
        subgraph::gather_row(g, row, cap).ids.len() >= g.ids.len(),
    decreases row.len(),
{
    if row.len() > 0 {
        gathering_grows(g, row.drop_last(), cap);
    }
}

/// Does a row tell of an edge of a type, from one node to another?
pub open spec fn row_tells_edge(
    row: RowModel,
    from: Seq<char>,
    edge_type: Seq<char>,
    to: Seq<char>,
) -> bool {
    &&& db::id_cell(strmap::assoc_get(row, "from_id"@)) == Some(from)
    &&& db::id_cell(strmap::assoc_get(row, "to_id"@)) == Some(to)
    &&& db::text_cell(strmap::assoc_get(row, "rel"@)) == Some(edge_type)
}

/// Is an edge told of by one of the rows, with the properties in that row?
pub open spec fn edge_is_told(e: EdgeViewModel, rows: Seq<RowModel>) -> bool {
    exists|i: int|
        0 <= i < rows.len() && #[trigger] row_tells_edge(rows[i], e.from, e.edge_type, e.to)
            && e.properties == db::object_cell(strmap::assoc_get(rows[i], "props"@))
}

/// The edges of rows go from the node that the row names as the one end to that which it names as
/// the other; no two have the same id, and every edge that a row tells of is there, at least by
/// its id.
pub proof fn law_edges_are_of_their_rows(rows: Seq<RowModel>)
    ensures
        ({
            let edges = subgraph::edges_in(rows);
            &&& forall|k: int|
                0 <= k < edges.len() ==> edge_is_told(#[trigger] edges[k], rows) && edges[k].id
                    == edges[k].from + ":"@ + edges[k].edge_type + ":"@ + edges[k].to
            &&& forall|k: int, m: int|
                0 <= k < m < edges.len() ==> (#[trigger] edges[k]).id != (#[trigger] edges[m]).id
            &&& forall|i: int, from: Seq<char>, t: Seq<char>, to: Seq<char>|
                0 <= i < rows.len() && #[trigger] row_tells_edge(rows[i], from, t, to)
                    ==> subgraph::has_edge(edges, from + ":"@ + t + ":"@ + to)
        }),
    decreases rows.len(),
{
    if rows.len() > 0 {
        let rest = rows.drop_last();
        law_edges_are_of_their_rows(rest);
        let before = subgraph::edges_in(rest);
        let edges = subgraph::edges_in(rows);
        assert(rows[rows.len() - 1] == rows.last());
        assert forall|k: int| 0 <= k < edges.len() implies edge_is_told(#[trigger] edges[k], rows)
            && edges[k].id == edges[k].from + ":"@ + edges[k].edge_type + ":"@ + edges[k].to by {
            if k < before.len() {
                assert(edges[k] == before[k]);
                let e = before[k];
                let i = choose|i: int|
                    0 <= i < rest.len() && #[trigger] row_tells_edge(
                        rest[i],
                        e.from,
                        e.edge_type,
                        e.to,
                    ) && e.properties == db::object_cell(strmap::assoc_get(rest[i], "props"@));
                assert(rows[i] == rest[i]);
                assert(row_tells_edge(rows[i], e.from, e.edge_type, e.to));
            } else {
                let e = edges[k];
                assert(row_tells_edge(rows[rows.len() - 1], e.from, e.edge_type, e.to));
            }
        }
        assert forall|k: int, m: int| 0 <= k < m < edges.len() implies (#[trigger] edges[k]).id != (
        #[trigger] edges[m]).id by {
            if m < before.len() {
                assert(edges[k] == before[k] && edges[m] == before[m]);
            } else {
                assert(edges[k] == before[k]);
                assert(!subgraph::has_edge(before, edges[m].id));
            }
        }
        assert forall|i: int, from: Seq<char>, t: Seq<char>, to: Seq<char>|
            0 <= i < rows.len() && #[trigger] row_tells_edge(rows[i], from, t, to) implies
            subgraph::has_edge(edges, from + ":"@ + t + ":"@ + to) by {
            let id = from + ":"@ + t + ":"@ + to;
            if i < rest.len() {
                assert(row_tells_edge(rest[i], from, t, to));
                assert(subgraph::has_edge(before, id));
                let k = choose|k: int| 0 <= k < before.len() && (#[trigger] before[k]).id == id;
                assert(edges[k].id == id);
            } else if subgraph::has_edge(before, id) {
                let k = choose|k: int| 0 <= k < before.len() && (#[trigger] before[k]).id == id;
                assert(edges[k].id == id);
            } else {
                assert(edges[before.len() as int].id == id);
            }
        }
    }
}

/// The visible columns are those that are neither a score, nor sources, nor hidden ids, in their
/// order.
pub proof fn law_visible_columns_are_the_rest(names: Seq<Seq<char>>)
    ensures
        subgraph::visible_names(names) == names.filter(
            |n: Seq<char>|
                n != "score"@ && n != "sources"@ && !text::has_prefix(n, "__id_"@),
        ),
    decreases names.len(),
{
    reveal(Seq::filter);
    if names.len() > 0 {
        law_visible_columns_are_the_rest(names.drop_last());
    }
}

/// A visible cell of a row is in the table as JSON, a hidden one is not.
pub proof fn law_visible_cells_are_shown(row: RowModel, name: Seq<char>)
    requires
        strmap::assoc_sorted(row),
    ensures
        strmap::assoc_get(subgraph::visible_cells(row), name) == (if name == "score"@ || name
            == "sources"@ || text::has_prefix(name, "__id_"@) {
            None
        } else {
            match strmap::assoc_get(row, name) {
                Some(v) => Some(db::cell_json(v)),
                None => None,
            }
        }),
    decreases row.len(),
{
    if row.len() > 0 {
        let rest = row.drop_last();
        sorted_rest(row);
        law_visible_cells_are_shown(rest, name);
        last_is_read(row, name);
        let before = subgraph::visible_cells(rest);
        let (k, v) = row.last();
        if !subgraph::is_hidden(k) {
            if k == name {
                strmap::law_get_after_insert(before, k, db::cell_json(v));
            } else {
                strmap::law_get_other_after_insert(before, k, db::cell_json(v), name);
            }
        }
    }
}

proof fn sorted_rest<T>(row: Seq<(Seq<char>, T)>)
    requires
        strmap::assoc_sorted(row),
        row.len() > 0,
    ensures
        strmap::assoc_sorted(row.drop_last()),
{
    let rest = row.drop_last();
    assert forall|i: int, j: int| 0 <= i < j < rest.len() implies #[trigger] text::lex_lt(
        rest[i].0,
        rest[j].0,
    ) by {
        assert(text::lex_lt(row[i].0, row[j].0));
    }
}

proof fn last_is_read<T>(row: Seq<(Seq<char>, T)>, name: Seq<char>)
    requires
        strmap::assoc_sorted(row),
        row.len() > 0,
    ensures
        strmap::assoc_get(row, name) == (if row.last().0 == name {
            Some(row.last().1)
        } else {
            strmap::assoc_get(row.drop_last(), name)
        }),
{
    let rest = row.drop_last();
    let n = row.len() - 1;
    sorted_rest(row);
    if row.last().0 == name {
        strmap::entry_is_read(row, n);
    } else if strmap::assoc_get(rest, name) is Some {
        let i = strmap::get_is_an_entry(rest, name);
        assert(row[i] == rest[i]);
        strmap::entry_is_read(row, i);
    } else if strmap::assoc_get(row, name) is Some {
        let i = strmap::get_is_an_entry(row, name);
        assert(rest[i] == row[i]);
        strmap::entry_is_read(rest, i);
    }
}

/// The entity of a row under an alias is the id in the hidden column of that alias.
pub proof fn law_row_ids_are_of_their_columns(row: RowModel, alias: Seq<char>)
    requires
        strmap::assoc_sorted(row),
    ensures
        strmap::assoc_get(subgraph::row_ids(row), alias) == (match strmap::assoc_get(
            row,
            "__id_"@ + alias,
        ) {
            Some(v) => subgraph::usable_id(v),
            None => None,
        }),
    decreases row.len(),
{
    if row.len() > 0 {
        let rest = row.drop_last();
        sorted_rest(row);
        law_row_ids_are_of_their_columns(rest, alias);
        let name = "__id_"@ + alias;
        last_is_read(row, name);
        let before = subgraph::row_ids(rest);
        let (column, value) = row.last();
        let n = "__id_"@.len() as int;
        if text::has_prefix(column, "__id_"@) {
            let a = column.skip(n);
            assert(column =~= "__id_"@ + a);
            if column == name {
                assert(a =~= alias);
            }
            if subgraph::usable_id(value) is Some {
                if a == alias {
                    strmap::law_get_after_insert(before, a, subgraph::usable_id(value)->0);
                } else {
                    strmap::law_get_other_after_insert(
                        before,
                        a,
                        subgraph::usable_id(value)->0,
                        alias,
                    );
                }
            }
        } else if column == name {
            assert(name.subrange(0, n) =~= "__id_"@);
        }
        if column == name && subgraph::usable_id(value) is None {
            assert(strmap::assoc_get(rest, name) is None) by {
                if strmap::assoc_get(rest, name) is Some {
                    let i = strmap::get_is_an_entry(rest, name);
                    assert(text::lex_lt(row[i].0, row[row.len() - 1].0));
                    text::lex_lt_irreflexive(name);
                }
            }
        }
    }
}

/// Is a row of the table that of one of the rows, with the entities of that row?
pub open spec fn is_row_of(
    w: subgraph::TableWalk,
    rows: Seq<RowModel>,
    with_ids: bool,
    k: int,
) -> bool {
    exists|i: int|
        0 <= i < rows.len() && w.rows[k] == subgraph::visible_cells(#[trigger] rows[i]) && (with_ids
            ==> w.entities[k] == subgraph::row_ids(rows[i]))
}

/// A row of a table shows one of the rows, with the entities of that row beside it. Every row is
/// shown, as far as the table may grow: itself, or where duplicates are left out one like it.
pub proof fn law_tables_show_the_rows(
    rows: Seq<RowModel>,
    distinct: bool,
    with_ids: bool,
    cap: Option<u32>,
)
    ensures
        ({
            let w = subgraph::table_walk(rows, distinct, with_ids, cap);
            &&& forall|k: int| 0 <= k < w.rows.len() ==> #[trigger] is_row_of(w, rows, with_ids, k)
            &&& forall|i: int|
                0 <= i < rows.len() ==> w.rows.contains(
                    subgraph::visible_cells(#[trigger] rows[i]),
                ) || (distinct && subgraph::has_row(w.rows, subgraph::visible_cells(rows[i]))) || (
                cap is Some && w.rows.len() >= cap->0)
            &&& !distinct && cap is None ==> w.rows.len() == rows.len() && forall|i: int|
                0 <= i < rows.len() ==> #[trigger] w.rows[i] == subgraph::visible_cells(rows[i])
            &&& w.rows.len() <= rows.len()
        }),
    decreases rows.len(),
{
    subgraph::law_row_entities_line_up(rows, distinct, with_ids, cap);
    if rows.len() > 0 {
        let rest = rows.drop_last();
        law_tables_show_the_rows(rest, distinct, with_ids, cap);
        subgraph::law_row_entities_line_up(rest, distinct, with_ids, cap);
        let before = subgraph::table_walk(rest, distinct, with_ids, cap);
        let w = subgraph::table_walk(rows, distinct, with_ids, cap);
        let n = rows.len() - 1;
        assert(rows[n] == rows.last());
        assert forall|k: int| 0 <= k < w.rows.len() implies #[trigger] is_row_of(
            w,
            rows,
            with_ids,
            k,
        ) by {
            if k < before.rows.len() {
                assert(is_row_of(before, rest, with_ids, k));
                let i = choose|i: int|
                    0 <= i < rest.len() && before.rows[k] == subgraph::visible_cells(
                        #[trigger] rest[i],
                    ) && (with_ids ==> before.entities[k] == subgraph::row_ids(rest[i]));
                assert(rows[i] == rest[i]);
                assert(w.rows[k] == before.rows[k]);
            } else {
                assert(w.rows[k] == subgraph::visible_cells(rows[n]));
            }
        }
        assert forall|i: int| 0 <= i < rows.len() implies w.rows.contains(
            subgraph::visible_cells(#[trigger] rows[i]),
        ) || (distinct && subgraph::has_row(w.rows, subgraph::visible_cells(rows[i]))) || (cap
            is Some && w.rows.len() >= cap->0) by {
            let v = subgraph::visible_cells(rows[i]);
            if i < n {
                assert(rest[i] == rows[i]);
                if before.rows.contains(v) {
                    let k = choose|k: int| 0 <= k < before.rows.len() && before.rows[k] == v;
                    assert(w.rows[k] == v);
                } else if distinct && subgraph::has_row(before.rows, v) {
                    let k = choose|k: int|
                        0 <= k < before.rows.len() && crate::json::entries_equal(
                            #[trigger] before.rows[k],
                            v,
                        );
                    assert(w.rows[k] == before.rows[k]);
                }
            } else if w.rows.len() > before.rows.len() {
                assert(w.rows[before.rows.len() as int] == v);
            }
        }
        if !distinct && cap is None {
            assert forall|i: int| 0 <= i < rows.len() implies #[trigger] w.rows[i]
                == subgraph::visible_cells(rows[i]) by {
                if i < n {
                    assert(w.rows[i] == before.rows[i]);
                    assert(rest[i] == rows[i]);
                }
            }
        }
    }
}

/// Does a JSON value name a source: an object with an id or a name?
pub open spec fn names_source(item: JsonModel, s: SourceRefModel) -> bool {
    &&& item is Object
    &&& s.id is Some || s.name is Some
    &&& match strmap::assoc_get(item->Object_0, "id"@) {
        Some(JsonModel::Str(x)) => s.id == Some(x),
        _ => s.id is None,
    }
    &&& match strmap::assoc_get(item->Object_0, "name"@) {
        Some(JsonModel::Str(x)) => s.name == Some(x),
        _ => s.name is None,
    }
}

pub open spec fn is_named_source(items: Seq<JsonModel>, s: SourceRefModel) -> bool {
    exists|i: int| 0 <= i < items.len() && names_source(#[trigger] items[i], s)
}

proof fn named_by_fewer(items: Seq<JsonModel>, s: SourceRefModel)
    requires
        items.len() > 0,
    ensures
        is_named_source(items, s) <==> is_named_source(items.drop_last(), s) || names_source(
            items.last(),
            s,
        ),
{
    let rest = items.drop_last();
    assert(items[items.len() - 1] == items.last());
    if is_named_source(items, s) {
        let i = choose|i: int| 0 <= i < items.len() && names_source(#[trigger] items[i], s);
        if i < rest.len() {
            assert(names_source(rest[i], s));
        }
    }
    if is_named_source(rest, s) {
        let i = choose|i: int| 0 <= i < rest.len() && names_source(#[trigger] rest[i], s);
        assert(names_source(items[i], s));
    }
}

proof fn sources_are_named(items: Seq<JsonModel>, s: SourceRefModel)
    ensures
        subgraph::sources_in(items).contains(s) <==> is_named_source(items, s),
    decreases items.len(),
{
    if items.len() > 0 {
        sources_are_named(items.drop_last(), s);
        named_by_fewer(items, s);
        if let Some(x) = subgraph::source_in(items.last()) {
            pushed_contains(subgraph::sources_in(items.drop_last()), x, s);
        }
    }
}

proof fn dedup_holds<T>(s: Seq<T>, x: T)
    ensures
        seqs::deduped(s).contains(x) <==> s.contains(x),
        s.len() > 0 ==> seqs::deduped(s).len() > 0 && seqs::deduped(s).last() == s.last(),
    decreases s.len(),
{
    if s.len() > 1 {
        let rest = s.drop_last();
        dedup_holds(rest, x);
        let r = seqs::deduped(rest);
        assert(rest.push(s.last()) =~= s);
        pushed_contains(rest, s.last(), x);
        pushed_contains(r, s.last(), x);
        if s[s.len() - 2] == s.last() {
            assert(rest[rest.len() - 1] == s.last());
        }
    }
}

/// The sources of a cell are those that it names, all of them and no other.
pub proof fn law_listed_sources_are_named(items: Seq<JsonModel>, s: SourceRefModel)
    ensures
        subgraph::listed_sources(Some(DbValueModel::Json(JsonModel::Array(items)))).contains(s)
            <==> is_named_source(items, s),
        subgraph::listed_sources(None).len() == 0,
{
    let found = subgraph::sources_in(items);
    let sorted = sorting::sorted_by(found, subgraph::source_order());
    dedup_holds(sorted, s);
    sources_are_named(items, s);
    if sorted.contains(s) {
        sorting::sorting_adds_none(found, subgraph::source_order(), s);
    }
    if found.contains(s) {
        sorting::sorting_keeps(found, subgraph::source_order(), s);
    }
}

proof fn sources_are_put_in(s: Seq<SourceRefModel>, items: Seq<JsonModel>, x: SourceRefModel)
    requires
        s.no_duplicates(),
    ensures
        subgraph::with_sources(s, items).contains(x) <==> s.contains(x) || is_named_source(items, x),
        subgraph::with_sources(s, items).no_duplicates(),
    decreases items.len(),
{
    if items.len() > 0 {
        sources_are_put_in(s, items.drop_last(), x);
        named_by_fewer(items, x);
        if let Some(y) = subgraph::source_in(items.last()) {
            pushed_contains(subgraph::with_sources(s, items.drop_last()), y, x);
        }
    }
}

/// Does a row name a source in its column of sources?
pub open spec fn row_names_source(row: RowModel, s: SourceRefModel) -> bool {
    match strmap::assoc_get(row, "sources"@) {
        Some(DbValueModel::Json(JsonModel::Array(items))) => is_named_source(items, s),
        _ => false,
    }
}

/// The sources of rows are those that the rows name, each once.
pub proof fn law_row_sources_are_named(rows: Seq<RowModel>, s: SourceRefModel)
    ensures
        subgraph::row_sources(rows).contains(s) <==> exists|i: int|
            0 <= i < rows.len() && row_names_source(#[trigger] rows[i], s),
        subgraph::row_sources(rows).no_duplicates(),
    decreases rows.len(),
{
    if rows.len() > 0 {
        let rest = rows.drop_last();
        law_row_sources_are_named(rest, s);
        assert(rows[rows.len() - 1] == rows.last());
        if let Some(DbValueModel::Json(JsonModel::Array(items))) = strmap::assoc_get(
            rows.last(),
            "sources"@,
        ) {
            sources_are_put_in(subgraph::row_sources(rest), items, s);
        }
        if exists|i: int| 0 <= i < rest.len() && row_names_source(#[trigger] rest[i], s) {
            let i = choose|i: int| 0 <= i < rest.len() && row_names_source(#[trigger] rest[i], s);
            assert(row_names_source(rows[i], s));
        }
        if exists|i: int| 0 <= i < rows.len() && row_names_source(#[trigger] rows[i], s) {
            let i = choose|i: int| 0 <= i < rows.len() && row_names_source(#[trigger] rows[i], s);
            if i < rest.len() {
                assert(row_names_source(rest[i], s));
            }
        }
    }
}

} // verus!
