//! Query results as tables and as the entities behind them.
//!
//! A query that returns fields of entities is widened, before it runs, by a
//! hidden column with the id of each entity. The ids lead from the rows to the
//! entities; the visible table leaves the hidden columns out again. Where a
//! query asks for distinct rows, the table is made distinct once more without
//! them.

use vstd::prelude::*;
use crate::db;
use crate::db::DbValue;
use crate::db::DbValueModel;
use crate::db::QueryResult;
use crate::db::QueryResultModel;
use crate::db::Row;
use crate::db::RowModel;
use crate::dsl::DslQuery;
use crate::dsl::DslQueryModel;
use crate::dsl::ReturnItem;
use crate::dsl::ReturnItemModel;
use crate::dsl::TraversalStepModel;
use crate::explore::dto::EdgeView;
use crate::explore::dto::EdgeViewModel;
use crate::explore::dto::SourceRef;
use crate::explore::dto::SourceRefModel;
use crate::explore::dto::TableSlice;
use crate::explore::dto::TableSliceModel;
use crate::explore::classify;
use crate::explore::timeline;
use crate::json;
use crate::json::Json;
use crate::json::JsonModel;
use crate::seqs;
use crate::seqs::Copied;
use crate::sorting;
use crate::strmap;
use crate::strmap::StrMap;
use crate::text;

verus! {

broadcast use vstd::string::group_string_axioms;

/// Prefix of the hidden columns.
pub const ID_COLUMN_PREFIX: &'static str = "__id_";

/// A column that the table leaves out.
pub open spec fn is_hidden(name: Seq<char>) -> bool {
    name == "score"@ || name == "sources"@ || text::has_prefix(name, ID_COLUMN_PREFIX@)
}

/// Is the column one that the table leaves out?
pub fn is_hidden_column(name: &str) -> (r: bool)
    ensures
        r == is_hidden(name@),
{
    text::text_eq(name, "score") || text::text_eq(name, "sources") || text::text_starts_with(
        name,
        ID_COLUMN_PREFIX,
    )
}

/// Does one of the items aggregate?
pub open spec fn has_aggregate(items: Seq<ReturnItemModel>) -> bool {
    exists|i: int| 0 <= i < items.len() && #[trigger] items[i] is Aggregate
}

/// The alias that an item is returned under.
pub open spec fn item_alias(item: ReturnItemModel) -> Option<Seq<char>> {
    match item {
        ReturnItemModel::Field { alias, .. } => alias,
        ReturnItemModel::Aggregate { alias, .. } => alias,
        ReturnItemModel::DatePart { alias, .. } => alias,
    }
}

/// Is something returned under the alias?
pub open spec fn returns_alias(items: Seq<ReturnItemModel>, alias: Seq<char>) -> bool {
    exists|i: int| 0 <= i < items.len() && item_alias(#[trigger] items[i]) == Some(alias)
}

/// The aliases of the nodes of a query, each once.
pub open spec fn node_aliases(start: Seq<char>, steps: Seq<TraversalStepModel>) -> Seq<Seq<char>>
    decreases steps.len(),
{
    if steps.len() == 0 {
        seq![start]
    } else {
        let before = node_aliases(start, steps.drop_last());
        if before.contains(steps.last().target.alias) {
            before
        } else {
            before.push(steps.last().target.alias)
        }
    }
}

/// The hidden column of an alias.
pub open spec fn id_column(alias: Seq<char>) -> Seq<char> {
    ID_COLUMN_PREFIX@ + alias
}

/// The item that returns the id of an alias.
pub open spec fn id_item(alias: Seq<char>) -> ReturnItemModel {
    ReturnItemModel::Field { field: alias + ".id"@, alias: Some(id_column(alias)) }
}

/// The items with the ids of the aliases, but for those that `given` returns
/// already.
pub open spec fn with_ids(
    given: Seq<ReturnItemModel>,
    items: Seq<ReturnItemModel>,
    aliases: Seq<Seq<char>>,
) -> Seq<ReturnItemModel>
    decreases aliases.len(),
{
    if aliases.len() == 0 {
        items
    } else {
        let before = with_ids(given, items, aliases.drop_last());
        if returns_alias(given, id_column(aliases.last())) {
            before
        } else {
            before.push(id_item(aliases.last()))
        }
    }
}

/// Is the query one whose rows are entities?
pub open spec fn is_find(q: DslQueryModel) -> bool {
    q.group_by.len() == 0 && !has_aggregate(q.return_) && q.return_.len() > 0
}

/// The query with the hidden columns; nothing for one that aggregates.
pub open spec fn injected(q: DslQueryModel) -> Option<DslQueryModel> {
    if !is_find(q) {
        None
    } else {
        Some(
            DslQueryModel {
                return_: with_ids(
                    q.return_,
                    q.return_,
                    node_aliases(q.start.alias, q.traversals),
                ),
                ..q
            },
        )
    }
}

proof fn with_ids_grows(
    given: Seq<ReturnItemModel>,
    items: Seq<ReturnItemModel>,
    aliases: Seq<Seq<char>>,
)
    ensures
        with_ids(given, items, aliases).len() >= items.len(),
        forall|i: int|
            0 <= i < items.len() ==> #[trigger] with_ids(given, items, aliases)[i] == items[i],
        forall|i: int|
            items.len() <= i < with_ids(given, items, aliases).len() ==> #[trigger] with_ids(
                given,
                items,
                aliases,
            )[i] is Field,
    decreases aliases.len(),
{
    if aliases.len() > 0 {
        with_ids_grows(given, items, aliases.drop_last());
    }
}

proof fn with_ids_returns(
    given: Seq<ReturnItemModel>,
    items: Seq<ReturnItemModel>,
    aliases: Seq<Seq<char>>,
    k: int,
)
    requires
        0 <= k < aliases.len(),
        forall|a: Seq<char>| returns_alias(given, a) ==> #[trigger] returns_alias(items, a),
    ensures
        returns_alias(with_ids(given, items, aliases), id_column(aliases[k])),
    decreases aliases.len(),
{
    let before = with_ids(given, items, aliases.drop_last());
    let all = with_ids(given, items, aliases);
    let want = id_column(aliases[k]);
    if k < aliases.len() - 1 {
        with_ids_returns(given, items, aliases.drop_last(), k);
        let i = choose|i: int| 0 <= i < before.len() && item_alias(#[trigger] before[i]) == Some(want);
        assert(all[i] == before[i]);
    } else if returns_alias(given, want) {
        assert(returns_alias(items, want));
        let i = choose|i: int| 0 <= i < items.len() && item_alias(#[trigger] items[i]) == Some(want);
        with_ids_grows(given, items, aliases);
        assert(all[i] == items[i]);
    } else {
        assert(all[all.len() - 1] == id_item(aliases[k]));
    }
}

proof fn with_ids_adds_nothing(
    given: Seq<ReturnItemModel>,
    items: Seq<ReturnItemModel>,
    aliases: Seq<Seq<char>>,
)
    requires
        forall|k: int| 0 <= k < aliases.len() ==> returns_alias(given, id_column(#[trigger] aliases[k])),
    ensures
        with_ids(given, items, aliases) == items,
    decreases aliases.len(),
{
    if aliases.len() > 0 {
        assert forall|k: int| 0 <= k < aliases.drop_last().len() implies returns_alias(
            given,
            id_column(#[trigger] aliases.drop_last()[k]),
        ) by {
            assert(aliases[k] == aliases.drop_last()[k]);
        }
        with_ids_adds_nothing(given, items, aliases.drop_last());
        assert(aliases[aliases.len() - 1] == aliases.last());
    }
}

/// Widening a query that was widened changes nothing.
pub proof fn law_injection_is_idempotent(q: DslQueryModel)
    requires
        is_find(q),
    ensures
        injected(injected(q)->0) == injected(q),
{
    let aliases = node_aliases(q.start.alias, q.traversals);
    let wide = injected(q)->0;
    with_ids_grows(q.return_, q.return_, aliases);
    assert(!has_aggregate(wide.return_)) by {
        if has_aggregate(wide.return_) {
            let i = choose|i: int|
                0 <= i < wide.return_.len() && #[trigger] wide.return_[i] is Aggregate;
            if i < q.return_.len() {
                assert(q.return_[i] is Aggregate);
            }
        }
    }
    assert forall|k: int| 0 <= k < aliases.len() implies returns_alias(
        wide.return_,
        id_column(#[trigger] aliases[k]),
    ) by {
        with_ids_returns(q.return_, q.return_, aliases, k);
    }
    with_ids_adds_nothing(wide.return_, wide.return_, aliases);
}

/// A widened query returns first what the query returned.
pub proof fn law_injection_keeps_items(q: DslQueryModel, i: int)
    requires
        is_find(q),
        0 <= i < q.return_.len(),
    ensures
        injected(q)->0.return_.len() >= q.return_.len(),
        injected(q)->0.return_[i] == q.return_[i],
{
    with_ids_grows(q.return_, q.return_, node_aliases(q.start.alias, q.traversals));
}

fn aggregates(items: &Vec<ReturnItem>) -> (r: bool)
    ensures
        r == has_aggregate(items.deep_view()),
{
    let ghost all = items.deep_view();
    let mut i: usize = 0;
    while i < items.len()
        invariant
            all == items.deep_view(),
            0 <= i <= items@.len(),
            forall|j: int| 0 <= j < i ==> !(#[trigger] all[j] is Aggregate),
        decreases items@.len() - i,
    {
        assert(all[i as int] == items@[i as int].deep_view());
        if let ReturnItem::Aggregate { .. } = &items[i] {
            return true;
        }
        i += 1;
    }
    false
}

fn alias_returned(items: &Vec<ReturnItem>, alias: &str) -> (r: bool)
    ensures
        r == returns_alias(items.deep_view(), alias@),
{
    let ghost all = items.deep_view();
    let mut i: usize = 0;
    while i < items.len()
        invariant
            all == items.deep_view(),
            0 <= i <= items@.len(),
            forall|j: int| 0 <= j < i ==> item_alias(#[trigger] all[j]) != Some(alias@),
        decreases items@.len() - i,
    {
        assert(all[i as int] == items@[i as int].deep_view());
        let found = match &items[i] {
            ReturnItem::Field { alias: a, .. } => seqs::option_is(a, alias),
            ReturnItem::Aggregate { alias: a, .. } => seqs::option_is(a, alias),
            ReturnItem::DatePart { alias: a, .. } => seqs::option_is(a, alias),
        };
        if found {
            return true;
        }
        i += 1;
    }
    false
}

fn aliases_of(q: &DslQuery) -> (r: Vec<String>)
    ensures
        r.deep_view() == node_aliases(q.start.alias@, q.traversals.deep_view()),
{
    let ghost steps = q.traversals.deep_view();
    let mut out: Vec<String> = seqs::no_items();
    seqs::push_item(&mut out, q.start.alias.clone());
    assert(out.deep_view() =~= seq![q.start.alias@]);
    let mut i: usize = 0;
    while i < q.traversals.len()
        invariant
            steps == q.traversals.deep_view(),
            0 <= i <= q.traversals@.len(),
            out.deep_view() == node_aliases(q.start.alias@, steps.take(i as int)),
        decreases q.traversals@.len() - i,
    {
        proof {
            assert(steps.take(i + 1).drop_last() =~= steps.take(i as int));
            assert(steps.take(i + 1).last() == q.traversals@[i as int].deep_view());
        }
        if !seqs::contains_text(&out, q.traversals[i].target.alias.as_str()) {
            seqs::push_item(&mut out, q.traversals[i].target.alias.clone());
        }
        i += 1;
    }
    assert(steps.take(i as int) =~= steps);
    out
}

/// The query with a hidden id column for each of its nodes; nothing for a query
/// that aggregates, whose groups the columns would break.
pub fn inject_node_id_returns(q: &DslQuery) -> (r: Option<DslQuery>)
    ensures
        r.deep_view() == injected(q.deep_view()),
{
    let ghost given = q.return_.deep_view();
    if q.group_by.len() > 0 || aggregates(&q.return_) || q.return_.len() == 0 {
        return None;
    }
    let aliases = aliases_of(q);
    let ghost names = aliases.deep_view();
    let mut out = q.copied();
    let ghost whole = out.deep_view();
    let mut i: usize = 0;
    while i < aliases.len()
        invariant
            given == q.return_.deep_view(),
            names == aliases.deep_view(),
            whole == q.deep_view(),
            0 <= i <= aliases@.len(),
            out.deep_view() == (DslQueryModel {
                return_: with_ids(given, given, names.take(i as int)),
                ..whole
            }),
        decreases aliases@.len() - i,
    {
        proof {
            assert(names.take(i + 1).drop_last() =~= names.take(i as int));
            assert(names.take(i + 1).last() == aliases@[i as int]@);
        }
        let mut column = ID_COLUMN_PREFIX.to_owned();
        column.append(aliases[i].as_str());
        if !alias_returned(&q.return_, column.as_str()) {
            let mut field = aliases[i].clone();
            field.append(".id");
            seqs::push_item(&mut out.return_, ReturnItem::Field { field, alias: Some(column) });
        }
        i += 1;
    }
    assert(names.take(i as int) =~= names);
    Some(out)
}

/// The mark between alias and property.
pub open spec fn dot() -> spec_fn(char) -> bool {
    timeline::dot()
}

/// The alias and column of a returned field of an entity.
pub open spec fn column_of(item: ReturnItemModel) -> Option<(Seq<char>, Seq<char>)> {
    match item {
        ReturnItemModel::Field { field, alias } => if timeline::behind(field, dot()) is Some {
            Some(
                (
                    match alias {
                        Some(a) => a,
                        None => field,
                    },
                    timeline::before(field, dot()),
                ),
            )
        } else {
            None
        },
        _ => None,
    }
}

/// Which alias each returned column belongs to.
pub open spec fn columns_of(items: Seq<ReturnItemModel>) -> Seq<(Seq<char>, Seq<char>)>
    decreases items.len(),
{
    if items.len() == 0 {
        Seq::empty()
    } else {
        let before = columns_of(items.drop_last());
        match column_of(items.last()) {
            Some((column, alias)) => strmap::assoc_insert(before, column, alias),
            None => before,
        }
    }
}

/// Which alias each visible column belongs to. Aggregates, parts of dates and
/// whole entities belong to none.
pub fn column_entity_aliases(q: &DslQuery) -> (r: StrMap<String>)
    ensures
        r.deep_view() == columns_of(q.return_.deep_view()),
{
    let ghost items = q.return_.deep_view();
    let mut out: StrMap<String> = StrMap::new();
    let mut i: usize = 0;
    while i < q.return_.len()
        invariant
            items == q.return_.deep_view(),
            0 <= i <= q.return_@.len(),
            out.deep_view() == columns_of(items.take(i as int)),
        decreases q.return_@.len() - i,
    {
        proof {
            assert(items.take(i + 1).drop_last() =~= items.take(i as int));
            assert(items.take(i + 1).last() == q.return_@[i as int].deep_view());
        }
        if let ReturnItem::Field { field, alias } = &q.return_[i] {
            if let Some(owner) = timeline::text_before_dot(field.as_str()) {
                let column = match alias {
                    Some(a) => a.clone(),
                    None => field.clone(),
                };
                out.insert(column, owner);
            }
        }
        i += 1;
    }
    assert(items.take(i as int) =~= items);
    out
}

/// The id in a hidden cell; an empty text is none.
pub open spec fn usable_id(v: DbValueModel) -> Option<Seq<char>> {
    match v {
        DbValueModel::Str(s) => if s.len() > 0 {
            Some(s)
        } else {
            None
        },
        DbValueModel::Int(i) => Some(text::int_text(i as int)),
        DbValueModel::Json(JsonModel::Str(s)) => if s.len() > 0 {
            Some(s)
        } else {
            None
        },
        DbValueModel::Json(JsonModel::Number(n)) => Some(json::number_text(n)),
        _ => None,
    }
}

/// The id in a hidden cell.
pub fn cell_as_id_string(value: &DbValue) -> (r: Option<String>)
    ensures
        r.deep_view() == usable_id(value.deep_view()),
{
    match value {
        DbValue::String(s) => if text::is_empty_text(s.as_str()) {
            None
        } else {
            Some(s.clone())
        },
        DbValue::Int(i) => Some(text::i64_text(*i)),
        DbValue::Json(Json::Str(s)) => if text::is_empty_text(s.as_str()) {
            None
        } else {
            Some(s.clone())
        },
        DbValue::Json(Json::Number(n)) => Some(json::render_number(n)),
        _ => None,
    }
}

/// The ids that were gathered, and whether there was no room for one.
#[verifier::ext_equal]
pub struct Gathered {
    pub ids: Seq<Seq<char>>,
    pub truncated: bool,
}

/// One more id, each once and `cap` at most.
pub open spec fn gather_id(g: Gathered, id: Seq<char>, cap: nat) -> Gathered {
    if g.ids.contains(id) {
        g
    } else if g.ids.len() >= cap {
        Gathered { truncated: true, ..g }
    } else {
        Gathered { ids: g.ids.push(id), ..g }
    }
}

/// The ids of the hidden cells of a row.
pub open spec fn gather_row(g: Gathered, row: RowModel, cap: nat) -> Gathered
    decreases row.len(),
{
    if row.len() == 0 {
        g
    } else {
        let before = gather_row(g, row.drop_last(), cap);
        let (column, value) = row.last();
        if text::has_prefix(column, ID_COLUMN_PREFIX@) && usable_id(value) is Some {
            gather_id(before, usable_id(value)->0, cap)
        } else {
            before
        }
    }
}

/// The ids of the hidden cells of all rows.
pub open spec fn gathered(rows: Seq<RowModel>, cap: nat) -> Gathered
    decreases rows.len(),
{
    if rows.len() == 0 {
        Gathered { ids: Seq::empty(), truncated: false }
    } else {
        gather_row(gathered(rows.drop_last(), cap), rows.last(), cap)
    }
}

/// No id is gathered twice, and no more than the cap.
pub proof fn law_gathered_ids_are_few_and_distinct(rows: Seq<RowModel>, cap: nat)
    ensures
        gathered(rows, cap).ids.no_duplicates(),
        gathered(rows, cap).ids.len() <= cap,
    decreases rows.len(),
{
    if rows.len() > 0 {
        law_gathered_ids_are_few_and_distinct(rows.drop_last(), cap);
        gathered_row_is_distinct(gathered(rows.drop_last(), cap), rows.last(), cap);
    }
}

proof fn gathered_row_is_distinct(g: Gathered, row: RowModel, cap: nat)
    requires
        g.ids.no_duplicates(),
        g.ids.len() <= cap,
    ensures
        gather_row(g, row, cap).ids.no_duplicates(),
        gather_row(g, row, cap).ids.len() <= cap,
    decreases row.len(),
{
    if row.len() > 0 {
        gathered_row_is_distinct(g, row.drop_last(), cap);
    }
}

/// The distinct ids of the entities behind a result, `cap` at most, and whether
/// there were more.
pub fn gather_ids(result: &QueryResult, cap: usize) -> (r: (Vec<String>, bool))
    ensures
        gathered(result.deep_view().rows, cap as nat) == (Gathered {
            ids: r.0.deep_view(),
            truncated: r.1,
        }),
{
    let ghost rows = result.rows.deep_view();
    let ghost c = cap as nat;
    let mut ids: Vec<String> = seqs::no_items();
    let mut truncated = false;
    let mut i: usize = 0;
    while i < result.rows.len()
        invariant
            rows == result.rows.deep_view(),
            c == cap as nat,
            0 <= i <= result.rows@.len(),
            gathered(rows.take(i as int), c) == (Gathered { ids: ids.deep_view(), truncated }),
        decreases result.rows@.len() - i,
    {
        let ghost start = gathered(rows.take(i as int), c);
        let row = &result.rows[i];
        let ghost cells = row.deep_view();
        let mut k: usize = 0;
        while k < row.fields.entries.len()
            invariant
                c == cap as nat,
                cells == row.deep_view(),
                0 <= k <= row.fields.entries@.len(),
                gather_row(start, cells.take(k as int), c) == (Gathered {
                    ids: ids.deep_view(),
                    truncated,
                }),
            decreases row.fields.entries@.len() - k,
        {
            proof {
                assert(cells.take(k + 1).drop_last() =~= cells.take(k as int));
                assert(cells.take(k + 1).last() == row.fields.entries@[k as int].deep_view());
                assert(ids@.len() == ids.deep_view().len());
            }
            if text::text_starts_with(row.fields.entries[k].0.as_str(), ID_COLUMN_PREFIX) {
                if let Some(id) = cell_as_id_string(&row.fields.entries[k].1) {
                    if !seqs::contains_text(&ids, id.as_str()) {
                        if ids.len() >= cap {
                            truncated = true;
                        } else {
                            seqs::push_item(&mut ids, id);
                        }
                    }
                }
            }
            k += 1;
        }
        proof {
            assert(cells.take(k as int) =~= cells);
            assert(rows.take(i + 1).drop_last() =~= rows.take(i as int));
            assert(rows.take(i + 1).last() == cells);
        }
        i += 1;
    }
    assert(rows.take(i as int) =~= rows);
    (ids, truncated)
}

/// An edge by its ends, type and properties.
pub open spec fn edge_of(
    from: Seq<char>,
    edge_type: Seq<char>,
    to: Seq<char>,
    properties: Seq<(Seq<char>, JsonModel)>,
) -> EdgeViewModel {
    EdgeViewModel {
        id: from + ":"@ + edge_type + ":"@ + to,
        edge_type,
        from,
        to,
        properties,
        confidence: classify::confidence_of(properties),
    }
}

/// An edge by its ends, type and properties.
pub fn make_edge(from: String, edge_type: String, to: String, properties: StrMap<Json>) -> (r:
    EdgeView)
    ensures
        r.deep_view() == edge_of(from@, edge_type@, to@, properties.deep_view()),
{
    let mut id = from.clone();
    id.append(":");
    id.append(edge_type.as_str());
    id.append(":");
    id.append(to.as_str());
    let confidence = classify::confidence(&properties);
    EdgeView { id, edge_type, from, to, properties, confidence }
}

/// Is there an edge of this id?
pub open spec fn has_edge(edges: Seq<EdgeViewModel>, id: Seq<char>) -> bool {
    exists|i: int| 0 <= i < edges.len() && (#[trigger] edges[i]).id == id
}

/// The edges with one more, unless there is one of its id.
pub open spec fn add_edge(edges: Seq<EdgeViewModel>, e: EdgeViewModel) -> Seq<EdgeViewModel> {
    if has_edge(edges, e.id) {
        edges
    } else {
        edges.push(e)
    }
}

/// The edges with one more, unless there is one of its id.
pub fn push_edge(edges: &mut Vec<EdgeView>, e: EdgeView)
    ensures
        final(edges).deep_view() == add_edge(old(edges).deep_view(), e.deep_view()),
{
    let ghost all = edges.deep_view();
    let mut i: usize = 0;
    while i < edges.len()
        invariant
            all == edges.deep_view(),
            all == old(edges).deep_view(),
            0 <= i <= edges@.len(),
            forall|j: int| 0 <= j < i ==> (#[trigger] all[j]).id != e.id@,
        decreases edges@.len() - i,
    {
        assert(all[i as int] == edges@[i as int].deep_view());
        if text::text_eq(edges[i].id.as_str(), e.id.as_str()) {
            return;
        }
        i += 1;
    }
    seqs::push_item(edges, e);
}

/// The edge in a row of ends, type and properties.
pub open spec fn edge_in(row: RowModel) -> Option<EdgeViewModel> {
    match (
        db::id_cell(db::cell(row, "from_id"@)),
        db::id_cell(db::cell(row, "to_id"@)),
        db::text_cell(db::cell(row, "rel"@)),
    ) {
        (Some(from), Some(to), Some(edge_type)) => Some(
            edge_of(from, edge_type, to, db::object_cell(db::cell(row, "props"@))),
        ),
        _ => None,
    }
}

/// The edges in rows, parallel ones once.
pub open spec fn edges_in(rows: Seq<RowModel>) -> Seq<EdgeViewModel>
    decreases rows.len(),
{
    if rows.len() == 0 {
        Seq::empty()
    } else {
        let before = edges_in(rows.drop_last());
        match edge_in(rows.last()) {
            Some(e) => add_edge(before, e),
            None => before,
        }
    }
}

/// The edges in the rows, parallel ones of a type once.
pub fn decode_edges(rows: &Vec<Row>) -> (r: Vec<EdgeView>)
    ensures
        r.deep_view() == edges_in(rows.deep_view()),
{
    let ghost all = rows.deep_view();
    let mut out: Vec<EdgeView> = seqs::no_items();
    let mut i: usize = 0;
    while i < rows.len()
        invariant
            all == rows.deep_view(),
            0 <= i <= rows@.len(),
            out.deep_view() == edges_in(all.take(i as int)),
        decreases rows@.len() - i,
    {
        proof {
            assert(all.take(i + 1).drop_last() =~= all.take(i as int));
            assert(all.take(i + 1).last() == rows@[i as int].deep_view());
        }
        let row = &rows[i];
        if let Some(from) = db::id_string_field(row, "from_id") {
            if let Some(to) = db::id_string_field(row, "to_id") {
                if let Some(edge_type) = db::string_field(row, "rel") {
                    let properties = db::json_object_field(row, "props");
                    push_edge(&mut out, make_edge(from, edge_type, to, properties));
                }
            }
        }
        i += 1;
    }
    assert(all.take(i as int) =~= all);
    out
}

/// The visible ones of column names.
pub open spec fn visible_names(names: Seq<Seq<char>>) -> Seq<Seq<char>>
    decreases names.len(),
{
    if names.len() == 0 {
        Seq::empty()
    } else if is_hidden(names.last()) {
        visible_names(names.drop_last())
    } else {
        visible_names(names.drop_last()).push(names.last())
    }
}

/// The columns of a row.
pub open spec fn row_columns(row: RowModel) -> Seq<Seq<char>> {
    Seq::new(row.len(), |i: int| row[i].0)
}

/// The visible columns: those of the result, or else of its first row.
pub open spec fn visible_columns(result: QueryResultModel) -> Seq<Seq<char>> {
    let declared = visible_names(result.columns);
    if declared.len() == 0 && result.rows.len() > 0 {
        visible_names(row_columns(result.rows[0]))
    } else {
        declared
    }
}

/// Is one of the names that of a hidden id column?
pub open spec fn has_id_column(names: Seq<Seq<char>>) -> bool {
    exists|i: int| 0 <= i < names.len() && text::has_prefix(#[trigger] names[i], ID_COLUMN_PREFIX@)
}

/// Did the query return hidden ids?
pub open spec fn returns_ids(result: QueryResultModel) -> bool {
    has_id_column(result.columns) || (result.rows.len() > 0 && has_id_column(
        row_columns(result.rows[0]),
    ))
}

/// The visible cells of a row.
pub open spec fn visible_cells(row: RowModel) -> Seq<(Seq<char>, JsonModel)>
    decreases row.len(),
{
    if row.len() == 0 {
        Seq::empty()
    } else {
        let before = visible_cells(row.drop_last());
        if is_hidden(row.last().0) {
            before
        } else {
            strmap::assoc_insert(before, row.last().0, db::cell_json(row.last().1))
        }
    }
}

/// The ids of a row by alias.
pub open spec fn row_ids(row: RowModel) -> Seq<(Seq<char>, Seq<char>)>
    decreases row.len(),
{
    if row.len() == 0 {
        Seq::empty()
    } else {
        let before = row_ids(row.drop_last());
        let (column, value) = row.last();
        if text::has_prefix(column, ID_COLUMN_PREFIX@) && usable_id(value) is Some {
            strmap::assoc_insert(
                before,
                column.skip(ID_COLUMN_PREFIX@.len() as int),
                usable_id(value)->0,
            )
        } else {
            before
        }
    }
}

/// Is a row like this one among the rows?
pub open spec fn has_row(
    rows: Seq<Seq<(Seq<char>, JsonModel)>>,
    row: Seq<(Seq<char>, JsonModel)>,
) -> bool {
    exists|i: int| 0 <= i < rows.len() && json::entries_equal(#[trigger] rows[i], row)
}

/// The rows of a table so far, and the entities of each.
#[verifier::ext_equal]
pub struct TableWalk {
    pub rows: Seq<Seq<(Seq<char>, JsonModel)>>,
    pub entities: Seq<Seq<(Seq<char>, Seq<char>)>>,
}

/// Has a table of `count` rows as many as it may have?
pub open spec fn is_full(count: nat, cap: Option<u32>) -> bool {
    cap is Some && count >= cap->0
}

/// One more row of a table.
pub open spec fn table_step(
    w: TableWalk,
    row: RowModel,
    distinct: bool,
    with_ids: bool,
    cap: Option<u32>,
) -> TableWalk {
    let visible = visible_cells(row);
    if is_full(w.rows.len(), cap) || (distinct && has_row(w.rows, visible)) {
        w
    } else {
        TableWalk {
            rows: w.rows.push(visible),
            entities: if with_ids {
                w.entities.push(row_ids(row))
            } else {
                w.entities
            },
        }
    }
}

/// The rows of a table.
pub open spec fn table_walk(
    rows: Seq<RowModel>,
    distinct: bool,
    with_ids: bool,
    cap: Option<u32>,
) -> TableWalk
    decreases rows.len(),
{
    if rows.len() == 0 {
        TableWalk { rows: Seq::empty(), entities: Seq::empty() }
    } else {
        table_step(
            table_walk(rows.drop_last(), distinct, with_ids, cap),
            rows.last(),
            distinct,
            with_ids,
            cap,
        )
    }
}

/// The visible table of a result.
pub open spec fn table_of(result: QueryResultModel, distinct: bool, cap: Option<u32>) ->
    TableSliceModel {
    let w = table_walk(result.rows, distinct, returns_ids(result), cap);
    TableSliceModel {
        columns: visible_columns(result),
        rows: w.rows,
        entity_columns: Seq::empty(),
        row_entities: w.entities,
    }
}

/// The entities of a table are lined up with its rows wherever the query
/// returned ids, and absent where it did not.
pub proof fn law_row_entities_line_up(
    rows: Seq<RowModel>,
    distinct: bool,
    with_ids: bool,
    cap: Option<u32>,
)
    ensures
        ({
            let w = table_walk(rows, distinct, with_ids, cap);
            w.entities.len() == (if with_ids {
                w.rows.len()
            } else {
                0
            })
        }),
    decreases rows.len(),
{
    if rows.len() > 0 {
        law_row_entities_line_up(rows.drop_last(), distinct, with_ids, cap);
    }
}

proof fn visible_cells_are_not_hidden(row: RowModel, name: Seq<char>)
    requires
        is_hidden(name),
    ensures
        strmap::assoc_get(visible_cells(row), name) is None,
    decreases row.len(),
{
    if row.len() > 0 {
        visible_cells_are_not_hidden(row.drop_last(), name);
        if !is_hidden(row.last().0) {
            strmap::law_get_other_after_insert(
                visible_cells(row.drop_last()),
                row.last().0,
                db::cell_json(row.last().1),
                name,
            );
        }
    }
}

/// No row of the table has a hidden column.
pub proof fn law_table_hides_system_columns(
    rows: Seq<RowModel>,
    distinct: bool,
    with_ids: bool,
    cap: Option<u32>,
    i: int,
    name: Seq<char>,
)
    requires
        0 <= i < table_walk(rows, distinct, with_ids, cap).rows.len(),
        is_hidden(name),
    ensures
        strmap::assoc_get(table_walk(rows, distinct, with_ids, cap).rows[i], name) is None,
    decreases rows.len(),
{
    let before = table_walk(rows.drop_last(), distinct, with_ids, cap);
    if i < before.rows.len() {
        law_table_hides_system_columns(rows.drop_last(), distinct, with_ids, cap, i, name);
    } else {
        visible_cells_are_not_hidden(rows.last(), name);
    }
}

/// No two rows of a table without duplicates are alike.
pub proof fn law_distinct_rows_differ(
    rows: Seq<RowModel>,
    with_ids: bool,
    cap: Option<u32>,
    i: int,
    j: int,
)
    requires
        0 <= i < j < table_walk(rows, true, with_ids, cap).rows.len(),
    ensures
        !json::entries_equal(
            table_walk(rows, true, with_ids, cap).rows[i],
            table_walk(rows, true, with_ids, cap).rows[j],
        ),
    decreases rows.len(),
{
    let before = table_walk(rows.drop_last(), true, with_ids, cap);
    let after = table_walk(rows, true, with_ids, cap);
    if j < before.rows.len() {
        law_distinct_rows_differ(rows.drop_last(), with_ids, cap, i, j);
    } else {
        assert(after.rows[i] == before.rows[i]);
        assert(!has_row(before.rows, after.rows[j]));
    }
}

/// A table has no more rows than it may have.
pub proof fn law_tables_are_capped(
    rows: Seq<RowModel>,
    distinct: bool,
    with_ids: bool,
    cap: u32,
)
    ensures
        table_walk(rows, distinct, with_ids, Some(cap)).rows.len() <= cap,
    decreases rows.len(),
{
    if rows.len() > 0 {
        law_tables_are_capped(rows.drop_last(), distinct, with_ids, cap);
    }
}

fn visible_of(names: &Vec<String>) -> (r: Vec<String>)
    ensures
        r.deep_view() == visible_names(names.deep_view()),
{
    let ghost all = names.deep_view();
    let mut out: Vec<String> = seqs::no_items();
    let mut i: usize = 0;
    while i < names.len()
        invariant
            all == names.deep_view(),
            0 <= i <= names@.len(),
            out.deep_view() == visible_names(all.take(i as int)),
        decreases names@.len() - i,
    {
        proof {
            assert(all.take(i + 1).drop_last() =~= all.take(i as int));
            assert(all.take(i + 1).last() == names@[i as int]@);
        }
        if !is_hidden_column(names[i].as_str()) {
            seqs::push_item(&mut out, names[i].clone());
        }
        i += 1;
    }
    assert(all.take(i as int) =~= all);
    out
}

fn names_of_columns(result: &QueryResult) -> (r: Vec<String>)
    ensures
        r.deep_view() == result.deep_view().columns,
{
    let ghost all = result.columns.deep_view();
    let mut out: Vec<String> = seqs::no_items();
    let mut i: usize = 0;
    while i < result.columns.len()
        invariant
            all == result.columns.deep_view(),
            0 <= i <= result.columns@.len(),
            out.deep_view() == all.take(i as int),
        decreases result.columns@.len() - i,
    {
        seqs::push_item(&mut out, result.columns[i].name.clone());
        i += 1;
        assert(out.deep_view() =~= all.take(i as int));
    }
    assert(out.deep_view() =~= all);
    out
}

fn names_of_row(row: &Row) -> (r: Vec<String>)
    ensures
        r.deep_view() == row_columns(row.deep_view()),
{
    let ghost want = row_columns(row.deep_view());
    let mut out: Vec<String> = seqs::no_items();
    let mut i: usize = 0;
    while i < row.fields.entries.len()
        invariant
            want == row_columns(row.deep_view()),
            0 <= i <= row.fields.entries@.len(),
            out.deep_view() == want.take(i as int),
        decreases row.fields.entries@.len() - i,
    {
        seqs::push_item(&mut out, row.fields.entries[i].0.clone());
        i += 1;
        assert(out.deep_view() =~= want.take(i as int));
    }
    assert(out.deep_view() =~= want);
    out
}

fn any_id_column(names: &Vec<String>) -> (r: bool)
    ensures
        r == has_id_column(names.deep_view()),
{
    let ghost all = names.deep_view();
    let mut i: usize = 0;
    while i < names.len()
        invariant
            all == names.deep_view(),
            0 <= i <= names@.len(),
            forall|j: int| 0 <= j < i ==> !text::has_prefix(#[trigger] all[j], ID_COLUMN_PREFIX@),
        decreases names@.len() - i,
    {
        assert(all[i as int] == names@[i as int]@);
        if text::text_starts_with(names[i].as_str(), ID_COLUMN_PREFIX) {
            return true;
        }
        i += 1;
    }
    false
}

fn visible_row(row: &Row) -> (r: StrMap<Json>)
    ensures
        r.deep_view() == visible_cells(row.deep_view()),
{
    let ghost all = row.deep_view();
    let mut out: StrMap<Json> = StrMap::new();
    let mut i: usize = 0;
    while i < row.fields.entries.len()
        invariant
            all == row.deep_view(),
            0 <= i <= row.fields.entries@.len(),
            out.deep_view() == visible_cells(all.take(i as int)),
        decreases row.fields.entries@.len() - i,
    {
        proof {
            assert(all.take(i + 1).drop_last() =~= all.take(i as int));
            assert(all.take(i + 1).last() == row.fields.entries@[i as int].deep_view());
        }
        if !is_hidden_column(row.fields.entries[i].0.as_str()) {
            out.insert(row.fields.entries[i].0.clone(), row.fields.entries[i].1.to_json());
        }
        i += 1;
    }
    assert(all.take(i as int) =~= all);
    out
}

fn ids_of_row(row: &Row) -> (r: StrMap<String>)
    ensures
        r.deep_view() == row_ids(row.deep_view()),
{
    let ghost all = row.deep_view();
    let mut out: StrMap<String> = StrMap::new();
    let mut i: usize = 0;
    while i < row.fields.entries.len()
        invariant
            all == row.deep_view(),
            0 <= i <= row.fields.entries@.len(),
            out.deep_view() == row_ids(all.take(i as int)),
        decreases row.fields.entries@.len() - i,
    {
        proof {
            assert(all.take(i + 1).drop_last() =~= all.take(i as int));
            assert(all.take(i + 1).last() == row.fields.entries@[i as int].deep_view());
        }
        if let Some(alias) = text::text_after(
            row.fields.entries[i].0.as_str(),
            ID_COLUMN_PREFIX,
        ) {
            if let Some(id) = cell_as_id_string(&row.fields.entries[i].1) {
                out.insert(alias, id);
            }
        }
        i += 1;
    }
    assert(all.take(i as int) =~= all);
    out
}

/// Do two rows say the same?
pub fn row_eq(a: &StrMap<Json>, b: &StrMap<Json>) -> (r: bool)
    ensures
        r == json::entries_equal(a.deep_view(), b.deep_view()),
{
    let x = Json::Object(a.copied());
    let y = Json::Object(b.copied());
    proof {
        json::json_object_model(x->Object_0);
        json::json_object_model(y->Object_0);
    }
    json::json_eq(&x, &y)
}

fn row_present(rows: &Vec<StrMap<Json>>, row: &StrMap<Json>) -> (r: bool)
    ensures
        r == has_row(rows.deep_view(), row.deep_view()),
{
    let ghost all = rows.deep_view();
    let mut i: usize = 0;
    while i < rows.len()
        invariant
            all == rows.deep_view(),
            0 <= i <= rows@.len(),
            forall|j: int| 0 <= j < i ==> !json::entries_equal(#[trigger] all[j], row.deep_view()),
        decreases rows@.len() - i,
    {
        assert(all[i as int] == rows@[i as int].deep_view());
        if row_eq(&rows[i], row) {
            return true;
        }
        i += 1;
    }
    false
}

/// The visible table of a result: hidden columns left out, rows distinct once
/// more where the query asked for it, cut off at a number of rows.
pub fn visible_table(result: &QueryResult, distinct: bool, max_rows: Option<u32>) -> (r: TableSlice)
    ensures
        r.deep_view() == table_of(result.deep_view(), distinct, max_rows),
{
    let ghost m = result.deep_view();
    let declared = names_of_columns(result);
    let mut columns = visible_of(&declared);
    let mut with_ids = any_id_column(&declared);
    assert(columns@.len() == columns.deep_view().len());
    if result.rows.len() > 0 {
        assert(m.rows[0] == result.rows@[0].deep_view());
        let first = names_of_row(&result.rows[0]);
        if columns.len() == 0 {
            columns = visible_of(&first);
        }
        if any_id_column(&first) {
            with_ids = true;
        }
    }
    assert(columns.deep_view() == visible_columns(m));
    assert(with_ids == returns_ids(m));
    let ghost all = m.rows;
    let mut rows: Vec<StrMap<Json>> = seqs::no_items();
    let mut entities: Vec<StrMap<String>> = seqs::no_items();
    let mut i: usize = 0;
    while i < result.rows.len()
        invariant
            m == result.deep_view(),
            all == m.rows,
            all.len() == result.rows@.len(),
            0 <= i <= result.rows@.len(),
            table_walk(all.take(i as int), distinct, with_ids, max_rows) == (TableWalk {
                rows: rows.deep_view(),
                entities: entities.deep_view(),
            }),
        decreases result.rows@.len() - i,
    {
        proof {
            assert(all.take(i + 1).drop_last() =~= all.take(i as int));
            assert(all.take(i + 1).last() == result.rows@[i as int].deep_view());
            assert(rows@.len() == rows.deep_view().len());
        }
        let full = match max_rows {
            Some(cap) => rows.len() as u64 >= cap as u64,
            None => false,
        };
        if !full {
            let row = visible_row(&result.rows[i]);
            if !(distinct && row_present(&rows, &row)) {
                if with_ids {
                    seqs::push_item(&mut entities, ids_of_row(&result.rows[i]));
                }
                seqs::push_item(&mut rows, row);
            }
        }
        i += 1;
    }
    assert(all.take(i as int) =~= all);
    TableSlice { columns, rows, entity_columns: StrMap::new(), row_entities: entities }
}

/// The source in a JSON value: an object with an id or a name.
pub open spec fn source_in(item: JsonModel) -> Option<SourceRefModel> {
    match item {
        JsonModel::Object(m) => {
            let id = match strmap::assoc_get(m, "id"@) {
                Some(JsonModel::Str(s)) => Some(s),
                _ => None,
            };
            let name = match strmap::assoc_get(m, "name"@) {
                Some(JsonModel::Str(s)) => Some(s),
                _ => None,
            };
            if id is Some || name is Some {
                Some(SourceRefModel { id, name })
            } else {
                None
            }
        },
        _ => None,
    }
}

/// The source in a JSON value.
pub fn decode_source(item: &Json) -> (r: Option<SourceRef>)
    ensures
        r.deep_view() == source_in(item.deep_view()),
{
    match item {
        Json::Object(m) => {
            proof {
                json::json_object_model(*m);
            }
            let id = match m.get("id") {
                Some(Json::Str(s)) => Some(s.clone()),
                _ => None,
            };
            let name = match m.get("name") {
                Some(Json::Str(s)) => Some(s.clone()),
                _ => None,
            };
            if id.is_some() || name.is_some() {
                Some(SourceRef { id, name })
            } else {
                None
            }
        },
        _ => None,
    }
}

/// The sources among JSON values.
pub open spec fn sources_in(items: Seq<JsonModel>) -> Seq<SourceRefModel>
    decreases items.len(),
{
    if items.len() == 0 {
        Seq::empty()
    } else {
        match source_in(items.last()) {
            Some(s) => sources_in(items.drop_last()).push(s),
            None => sources_in(items.drop_last()),
        }
    }
}

/// Nothing comes before a text.
pub open spec fn option_le(a: Option<Seq<char>>, b: Option<Seq<char>>) -> bool {
    match (a, b) {
        (None, _) => true,
        (Some(_), None) => false,
        (Some(x), Some(y)) => text::lex_le(x, y),
    }
}

/// Sources by id, then by name.
pub open spec fn source_order() -> spec_fn(SourceRefModel, SourceRefModel) -> bool {
    |a: SourceRefModel, b: SourceRefModel|
        if a.id == b.id {
            option_le(a.name, b.name)
        } else {
            option_le(a.id, b.id)
        }
}

proof fn option_le_total(a: Option<Seq<char>>, b: Option<Seq<char>>)
    ensures
        option_le(a, b) || option_le(b, a),
        option_le(a, b) && option_le(b, a) ==> a == b,
{
    if a is Some && b is Some {
        text::lex_lt_total(a->0, b->0);
        if text::lex_lt(a->0, b->0) {
            text::lex_lt_asymmetric(a->0, b->0);
        }
    }
}

proof fn option_le_transitive(a: Option<Seq<char>>, b: Option<Seq<char>>, c: Option<Seq<char>>)
    requires
        option_le(a, b),
        option_le(b, c),
    ensures
        option_le(a, c),
{
    if a is Some && b is Some && c is Some {
        text::lex_le_transitive(a->0, b->0, c->0);
    }
}

/// The order of sources is total, so that listing them sorts them.
pub proof fn law_source_order_is_total()
    ensures
        sorting::is_total_preorder(source_order()),
{
    let le = source_order();
    assert forall|a: SourceRefModel, b: SourceRefModel| #[trigger] le(a, b) || le(b, a) by {
        option_le_total(a.id, b.id);
        option_le_total(a.name, b.name);
    }
    assert forall|a: SourceRefModel, b: SourceRefModel, c: SourceRefModel|
        #[trigger] le(a, b) && #[trigger] le(b, c) implies le(a, c) by {
        option_le_total(a.id, b.id);
        option_le_total(b.id, c.id);
        option_le_total(a.id, c.id);
        if option_le(a.id, b.id) && option_le(b.id, c.id) {
            option_le_transitive(a.id, b.id, c.id);
        }
        if option_le(a.name, b.name) && option_le(b.name, c.name) {
            option_le_transitive(a.name, b.name, c.name);
        }
    }
}

fn option_before(a: &Option<String>, b: &Option<String>) -> (r: bool)
    ensures
        r == option_le(a.deep_view(), b.deep_view()),
{
    match (a, b) {
        (None, _) => true,
        (Some(_), None) => false,
        (Some(x), Some(y)) => !text::text_lt(y.as_str(), x.as_str()),
    }
}

fn source_before(a: &SourceRef, b: &SourceRef) -> (r: bool)
    ensures
        r == source_order()(a.deep_view(), b.deep_view()),
{
    if seqs::same_option(&a.id, &b.id) {
        option_before(&a.name, &b.name)
    } else {
        option_before(&a.id, &b.id)
    }
}

fn same_source(a: &SourceRef, b: &SourceRef) -> (r: bool)
    ensures
        r == (a.deep_view() == b.deep_view()),
{
    seqs::same_option(&a.id, &b.id) && seqs::same_option(&a.name, &b.name)
}

/// The sources in a cell, each once, in order.
pub open spec fn listed_sources(v: Option<DbValueModel>) -> Seq<SourceRefModel> {
    match v {
        Some(DbValueModel::Json(JsonModel::Array(items))) => seqs::deduped(
            sorting::sorted_by(sources_in(items), source_order()),
        ),
        _ => Seq::empty(),
    }
}

fn decode_sources(items: &Vec<Json>) -> (r: Vec<SourceRef>)
    ensures
        r.deep_view() == sources_in(items.deep_view()),
{
    let ghost all = items.deep_view();
    let mut out: Vec<SourceRef> = seqs::no_items();
    let mut i: usize = 0;
    while i < items.len()
        invariant
            all == items.deep_view(),
            0 <= i <= items@.len(),
            out.deep_view() == sources_in(all.take(i as int)),
        decreases items@.len() - i,
    {
        proof {
            assert(all.take(i + 1).drop_last() =~= all.take(i as int));
            assert(all.take(i + 1).last() == items@[i as int].deep_view());
        }
        if let Some(s) = decode_source(&items[i]) {
            seqs::push_item(&mut out, s);
        }
        i += 1;
    }
    assert(all.take(i as int) =~= all);
    out
}

/// The sources in a cell, each once, in order.
pub fn parse_source_refs(value: Option<&DbValue>) -> (r: Vec<SourceRef>)
    ensures
        r.deep_view() == listed_sources(value.deep_view()),
{
    match value {
        Some(DbValue::Json(Json::Array(items))) => {
            proof {
                json::json_array_model(*items);
            }
            let mut found = decode_sources(items);
            sorting::sort_items(&mut found, source_before, Ghost(source_order()));
            let ghost all = found.deep_view();
            let mut out: Vec<SourceRef> = seqs::no_items();
            let mut i: usize = 0;
            while i < found.len()
                invariant
                    all == found.deep_view(),
                    0 <= i <= found@.len(),
                    out.deep_view() == seqs::deduped(all.take(i as int)),
                decreases found@.len() - i,
            {
                proof {
                    let next = all.take(i + 1);
                    assert(next.drop_last() =~= all.take(i as int));
                    assert(next.last() == found@[i as int].deep_view());
                    if i > 0 {
                        assert(next[next.len() - 2] == found@[i - 1].deep_view());
                    }
                }
                if i == 0 || !same_source(&found[i - 1], &found[i]) {
                    seqs::push_item(&mut out, found[i].copied());
                    if i == 0 {
                        assert(out.deep_view() =~= seqs::deduped(all.take(1)));
                    }
                }
                i += 1;
            }
            assert(all.take(i as int) =~= all);
            out
        },
        _ => seqs::no_items(),
    }
}

/// The sources with those of JSON values, each once.
pub open spec fn with_sources(s: Seq<SourceRefModel>, items: Seq<JsonModel>) -> Seq<SourceRefModel>
    decreases items.len(),
{
    if items.len() == 0 {
        s
    } else {
        let before = with_sources(s, items.drop_last());
        match source_in(items.last()) {
            Some(x) => if before.contains(x) {
                before
            } else {
                before.push(x)
            },
            None => before,
        }
    }
}

/// The sources that rows refer to, each once, as they come.
pub open spec fn row_sources(rows: Seq<RowModel>) -> Seq<SourceRefModel>
    decreases rows.len(),
{
    if rows.len() == 0 {
        Seq::empty()
    } else {
        let before = row_sources(rows.drop_last());
        match db::cell(rows.last(), "sources"@) {
            Some(DbValueModel::Json(JsonModel::Array(items))) => with_sources(before, items),
            _ => before,
        }
    }
}

fn source_present(v: &Vec<SourceRef>, s: &SourceRef) -> (r: bool)
    ensures
        r == v.deep_view().contains(s.deep_view()),
{
    let ghost all = v.deep_view();
    let mut i: usize = 0;
    while i < v.len()
        invariant
            all == v.deep_view(),
            0 <= i <= v@.len(),
            forall|j: int| 0 <= j < i ==> #[trigger] all[j] != s.deep_view(),
        decreases v@.len() - i,
    {
        assert(all[i as int] == v@[i as int].deep_view());
        if same_source(&v[i], s) {
            return true;
        }
        i += 1;
    }
    false
}

/// The sources that the rows of a result refer to, each once, in order.
pub fn collect_row_sources(result: &QueryResult) -> (r: Vec<SourceRef>)
    ensures
        r.deep_view() == sorting::sorted_by(row_sources(result.deep_view().rows), source_order()),
{
    let ghost all = result.rows.deep_view();
    let mut out: Vec<SourceRef> = seqs::no_items();
    let mut i: usize = 0;
    while i < result.rows.len()
        invariant
            all == result.rows.deep_view(),
            0 <= i <= result.rows@.len(),
            out.deep_view() == row_sources(all.take(i as int)),
        decreases result.rows@.len() - i,
    {
        let ghost before = out.deep_view();
        proof {
            assert(all.take(i + 1).drop_last() =~= all.take(i as int));
            assert(all.take(i + 1).last() == result.rows@[i as int].deep_view());
        }
        if let Some(DbValue::Json(Json::Array(items))) = result.rows[i].fields.get("sources") {
            let ghost found = items.deep_view();
            proof {
                json::json_array_model(*items);
            }
            let mut k: usize = 0;
            while k < items.len()
                invariant
                    found == items.deep_view(),
                    0 <= k <= items@.len(),
                    out.deep_view() == with_sources(before, found.take(k as int)),
                decreases items@.len() - k,
            {
                proof {
                    assert(found.take(k + 1).drop_last() =~= found.take(k as int));
                    assert(found.take(k + 1).last() == items@[k as int].deep_view());
                }
                if let Some(s) = decode_source(&items[k]) {
                    if !source_present(&out, &s) {
                        seqs::push_item(&mut out, s);
                    }
                }
                k += 1;
            }
            assert(found.take(k as int) =~= found);
        }
        i += 1;
    }
    assert(all.take(i as int) =~= all);
    sorting::sort_items(&mut out, source_before, Ghost(source_order()));
    out
}

} // verus!
