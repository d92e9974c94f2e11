//! Counts over a graph: how an entity is connected, and what there is at all.

use vstd::prelude::*;
use crate::db;
use crate::db::QueryResult;
use crate::db::Row;
use crate::db::RowModel;
use crate::explore::classify;
use crate::explore::dto::OverviewReport;
use crate::explore::dto::OverviewReportModel;
use crate::explore::dto::RelDirection;
use crate::explore::dto::RelTypeCount;
use crate::explore::dto::RelTypeCountModel;
use crate::explore::dto::RelationSummary;
use crate::explore::dto::RelationSummaryModel;
use crate::explore::dto::SourceRef;
use crate::explore::dto::SourceRefModel;
use crate::explore::dto::TypeCount;
use crate::explore::dto::TypeCountModel;
use crate::explore::explorer;
use crate::graph::builtins::CHUNK_LABEL;
use crate::graph::builtins::MENTION_REL;
use crate::graph::builtins::PART_OF_REL;
use crate::graph::builtins::SOURCE_LABEL;
use crate::graph::ontology::CatalogModel;
use crate::graph::ontology::OntologyCatalog;
use crate::prompt::GraphSchema;
use crate::prompt::GraphSchemaModel;
use crate::prompt::NodeKindModel;
use crate::prompt::RelKind;
use crate::prompt::RelKindModel;
use crate::seqs;
use crate::seqs::Copied;
use crate::sorting;
use crate::strmap;
use crate::strmap::StrMap;
use crate::text;

verus! {

broadcast use vstd::string::group_string_axioms;

/// The count in a row; a negative or missing one is zero.
pub open spec fn count_in(row: RowModel) -> u64 {
    match db::int_cell(db::cell(row, "cnt"@)) {
        Some(n) => if n < 0 {
            0
        } else {
            n as u64
        },
        None => 0,
    }
}

fn count_field(row: &Row) -> (r: u64)
    ensures
        r == count_in(row.deep_view()),
{
    match db::int_field(row, "cnt") {
        Some(n) => if n < 0 {
            0
        } else {
            n as u64
        },
        None => 0,
    }
}

/// Outgoing relations come before incoming ones.
pub open spec fn direction_lt(a: RelDirection, b: RelDirection) -> bool {
    a == RelDirection::Out && b == RelDirection::In
}

/// Summaries by relation type, direction and type of neighbour.
pub open spec fn summary_lt(a: RelationSummaryModel, b: RelationSummaryModel) -> bool {
    if a.edge_type != b.edge_type {
        text::lex_lt(a.edge_type, b.edge_type)
    } else if a.direction != b.direction {
        direction_lt(a.direction, b.direction)
    } else {
        text::lex_lt(a.neighbor_type, b.neighbor_type)
    }
}

/// Do two summaries speak of the same relations?
pub open spec fn same_relations(a: RelationSummaryModel, b: RelationSummaryModel) -> bool {
    a.edge_type == b.edge_type && a.direction == b.direction && a.neighbor_type == b.neighbor_type
}

/// The summaries with the count of one more, in order.
pub open spec fn summary_with(s: Seq<RelationSummaryModel>, x: RelationSummaryModel) -> Seq<
    RelationSummaryModel,
>
    decreases s.len(),
{
    if s.len() == 0 {
        seq![x]
    } else if same_relations(s[0], x) {
        seq![RelationSummaryModel { count: (s[0].count + x.count) as u64, ..x }] + s.drop_first()
    } else if summary_lt(s[0], x) {
        seq![s[0]] + summary_with(s.drop_first(), x)
    } else {
        seq![x] + s
    }
}

/// The summary in a row of relation type, direction, labels of the neighbour
/// and count.
pub open spec fn summary_in(
    row: RowModel,
    prefix: Option<Seq<char>>,
    catalog: Option<CatalogModel>,
) -> Option<RelationSummaryModel> {
    match db::text_cell(db::cell(row, "rel"@)) {
        None => None,
        Some(edge_type) => Some(
            RelationSummaryModel {
                edge_type,
                direction: if db::text_cell(db::cell(row, "dir"@)) == Some("out"@) {
                    RelDirection::Out
                } else {
                    RelDirection::In
                },
                neighbor_type: classify::primary_of(
                    db::texts_cell(db::cell(row, "neighbor_labels"@)),
                    prefix,
                    catalog,
                ),
                count: count_in(row),
            },
        ),
    }
}

/// The summaries in rows, counts of the same relations added up.
pub open spec fn summaries(
    rows: Seq<RowModel>,
    prefix: Option<Seq<char>>,
    catalog: Option<CatalogModel>,
) -> Seq<RelationSummaryModel>
    decreases rows.len(),
{
    if rows.len() == 0 {
        Seq::empty()
    } else {
        let before = summaries(rows.drop_last(), prefix, catalog);
        match summary_in(rows.last(), prefix, catalog) {
            Some(x) => summary_with(before, x),
            None => before,
        }
    }
}

/// The sum of the counts in the rows that speak of the same relations as `x`.
pub open spec fn relation_count(
    rows: Seq<RowModel>,
    x: RelationSummaryModel,
    prefix: Option<Seq<char>>,
    catalog: Option<CatalogModel>,
) -> nat
    decreases rows.len(),
{
    if rows.len() == 0 {
        0
    } else {
        relation_count(rows.drop_last(), x, prefix, catalog) + match summary_in(
            rows.last(),
            prefix,
            catalog,
        ) {
            Some(y) => if same_relations(y, x) {
                y.count as nat
            } else {
                0
            },
            None => 0,
        }
    }
}

/// Does the count of each summary fit?
pub open spec fn summaries_fit(
    rows: Seq<RowModel>,
    prefix: Option<Seq<char>>,
    catalog: Option<CatalogModel>,
) -> bool {
    forall|x: RelationSummaryModel|
        #[trigger] relation_count(rows, x, prefix, catalog) <= u64::MAX
}

proof fn relation_count_grows(
    rows: Seq<RowModel>,
    x: RelationSummaryModel,
    prefix: Option<Seq<char>>,
    catalog: Option<CatalogModel>,
    n: int,
)
    requires
        0 <= n <= rows.len(),
    ensures
        relation_count(rows.take(n), x, prefix, catalog) <= relation_count(
            rows,
            x,
            prefix,
            catalog,
        ),
    decreases rows.len() - n,
{
    if n == rows.len() {
        assert(rows.take(n) =~= rows);
    } else {
        relation_count_grows(rows, x, prefix, catalog, n + 1);
        assert(rows.take(n + 1).drop_last() =~= rows.take(n));
    }
}

proof fn relation_count_of_same(
    rows: Seq<RowModel>,
    x: RelationSummaryModel,
    y: RelationSummaryModel,
    prefix: Option<Seq<char>>,
    catalog: Option<CatalogModel>,
)
    requires
        same_relations(x, y),
    ensures
        relation_count(rows, x, prefix, catalog) == relation_count(rows, y, prefix, catalog),
    decreases rows.len(),
{
    if rows.len() > 0 {
        relation_count_of_same(rows.drop_last(), x, y, prefix, catalog);
    }
}

proof fn summary_with_at(s: Seq<RelationSummaryModel>, x: RelationSummaryModel, k: int)
    requires
        0 <= k <= s.len(),
        forall|i: int|
            0 <= i < k ==> !same_relations(#[trigger] s[i], x) && summary_lt(s[i], x),
        k < s.len() ==> same_relations(s[k], x) || !summary_lt(s[k], x),
    ensures
        summary_with(s, x) == (if k < s.len() && same_relations(s[k], x) {
            s.update(k, RelationSummaryModel { count: (s[k].count + x.count) as u64, ..x })
        } else {
            s.insert(k, x)
        }),
    decreases k,
{
    let t = summary_with(s, x);
    if k == 0 {
        if s.len() > 0 && same_relations(s[0], x) {
            assert(t =~= s.update(
                0,
                RelationSummaryModel { count: (s[0].count + x.count) as u64, ..x },
            ));
        } else {
            assert(t =~= s.insert(0, x));
        }
    } else {
        let rest = s.drop_first();
        assert(!same_relations(s[0], x) && summary_lt(s[0], x));
        assert forall|i: int| 0 <= i < k - 1 implies !same_relations(#[trigger] rest[i], x)
            && summary_lt(rest[i], x) by {
            assert(rest[i] == s[i + 1]);
        }
        summary_with_at(rest, x, k - 1);
        if k < s.len() && same_relations(s[k], x) {
            assert(t =~= s.update(
                k,
                RelationSummaryModel { count: (s[k].count + x.count) as u64, ..x },
            ));
        } else {
            assert(t =~= s.insert(k, x));
        }
    }
}

fn same_summary(a: &RelationSummary, b: &RelationSummary) -> (r: bool)
    ensures
        r == same_relations(a.deep_view(), b.deep_view()),
{
    text::text_eq(a.edge_type.as_str(), b.edge_type.as_str()) && a.direction == b.direction
        && text::text_eq(a.neighbor_type.as_str(), b.neighbor_type.as_str())
}

fn summary_before(a: &RelationSummary, b: &RelationSummary) -> (r: bool)
    ensures
        r == summary_lt(a.deep_view(), b.deep_view()),
{
    if !text::text_eq(a.edge_type.as_str(), b.edge_type.as_str()) {
        text::text_lt(a.edge_type.as_str(), b.edge_type.as_str())
    } else if a.direction != b.direction {
        a.direction == RelDirection::Out && b.direction == RelDirection::In
    } else {
        text::text_lt(a.neighbor_type.as_str(), b.neighbor_type.as_str())
    }
}

fn put_summary(s: &mut Vec<RelationSummary>, x: RelationSummary)
    requires
        forall|i: int|
            0 <= i < old(s)@.len() && same_relations(
                #[trigger] old(s).deep_view()[i],
                x.deep_view(),
            ) ==> old(s).deep_view()[i].count + x.count <= u64::MAX,
    ensures
        final(s).deep_view() == summary_with(old(s).deep_view(), x.deep_view()),
        forall|i: int|
            0 <= i < final(s)@.len() ==> summary_comes_from(
                old(s).deep_view(),
                x.deep_view(),
                #[trigger] final(s).deep_view()[i],
            ),
{
    let ghost all = s.deep_view();
    let ghost xm = x.deep_view();
    let mut k: usize = 0;
    while k < s.len() && !same_summary(&s[k], &x) && summary_before(&s[k], &x)
        invariant
            all == s.deep_view(),
            xm == x.deep_view(),
            0 <= k <= s@.len(),
            forall|i: int|
                0 <= i < k ==> !same_relations(#[trigger] all[i], xm) && summary_lt(all[i], xm),
        decreases s@.len() - k,
    {
        assert(all[k as int] == s@[k as int].deep_view());
        k += 1;
    }
    proof {
        if k < all.len() {
            assert(all[k as int] == s@[k as int].deep_view());
        }
        summary_with_at(all, xm, k as int);
    }
    if k < s.len() && same_summary(&s[k], &x) {
        let count = s[k].count + x.count;
        let sum = RelationSummary {
            edge_type: x.edge_type,
            direction: x.direction,
            neighbor_type: x.neighbor_type,
            count,
        };
        let ghost sm = sum.deep_view();
        s.set(k, sum);
        assert(s.deep_view() =~= all.update(k as int, sm));
        assert forall|i: int| 0 <= i < s@.len() implies summary_comes_from(
            all,
            xm,
            #[trigger] s.deep_view()[i],
        ) by {
            if i != k {
                assert(all[i] == s.deep_view()[i]);
            } else {
                assert(same_relations(all[i], xm));
            }
        }
    } else {
        s.insert(k, x);
        assert(s.deep_view() =~= all.insert(k as int, xm));
        assert forall|i: int| 0 <= i < s@.len() implies summary_comes_from(
            all,
            xm,
            #[trigger] s.deep_view()[i],
        ) by {
            if i < k {
                assert(all[i] == s.deep_view()[i]);
            } else if i > k {
                assert(all[i - 1] == s.deep_view()[i]);
            }
        }
    }
}

/// A summary after `x` was put in: one of those before, `x`, or both added up.
spec fn summary_comes_from(
    before: Seq<RelationSummaryModel>,
    x: RelationSummaryModel,
    y: RelationSummaryModel,
) -> bool {
    y == x || before.contains(y) || exists|j: int|
        0 <= j < before.len() && same_relations(#[trigger] before[j], x) && y == (
        RelationSummaryModel { count: (before[j].count + x.count) as u64, ..x })
        && before[j].count + x.count <= u64::MAX
}

/// How an entity is connected: its relations by type, direction and type of
/// neighbour, in that order, with their counts.
pub fn reduce_relation_summary(
    result: &QueryResult,
    prefix: Option<&str>,
    catalog: Option<&OntologyCatalog>,
) -> (r: Vec<RelationSummary>)
    requires
        summaries_fit(result.deep_view().rows, prefix.deep_view(), catalog.deep_view()),
    ensures
        r.deep_view() == summaries(
            result.deep_view().rows,
            prefix.deep_view(),
            catalog.deep_view(),
        ),
{
    let ghost all = result.rows.deep_view();
    let ghost p = prefix.deep_view();
    let ghost c = catalog.deep_view();
    let mut out: Vec<RelationSummary> = seqs::no_items();
    let mut i: usize = 0;
    while i < result.rows.len()
        invariant
            all == result.rows.deep_view(),
            p == prefix.deep_view(),
            c == catalog.deep_view(),
            summaries_fit(all, p, c),
            0 <= i <= result.rows@.len(),
            out.deep_view() == summaries(all.take(i as int), p, c),
            forall|j: int|
                0 <= j < out@.len() ==> (#[trigger] out.deep_view()[j]).count <= relation_count(
                    all.take(i as int),
                    out.deep_view()[j],
                    p,
                    c,
                ),
        decreases result.rows@.len() - i,
    {
        let row = &result.rows[i];
        proof {
            assert(all.take(i + 1).drop_last() =~= all.take(i as int));
            assert(all.take(i + 1).last() == row.deep_view());
        }
        if let Some(edge_type) = db::string_field(row, "rel") {
            let out_word = match db::string_field(row, "dir") {
                Some(d) => text::text_eq(d.as_str(), "out"),
                None => false,
            };
            let labels = db::string_list_field(row, "neighbor_labels");
            let all_labels = labels.as_slice();
            assert(all_labels.deep_view() =~= labels.deep_view());
            let neighbor_type = classify::primary_label(all_labels, prefix, catalog);
            let x = RelationSummary {
                edge_type,
                direction: if out_word {
                    RelDirection::Out
                } else {
                    RelDirection::In
                },
                neighbor_type,
                count: count_field(row),
            };
            let ghost xm = x.deep_view();
            let ghost before = out.deep_view();
            proof {
                assert(Some(xm) == summary_in(row.deep_view(), p, c));
                assert forall|j: int| 0 <= j < out@.len() && same_relations(
                    #[trigger] before[j],
                    xm,
                ) implies before[j].count + xm.count <= u64::MAX by {
                    relation_count_of_same(all.take(i as int), before[j], xm, p, c);
                    relation_count_grows(all, xm, p, c, i + 1);
                }
            }
            put_summary(&mut out, x);
            proof {
                let now = all.take(i + 1);
                assert forall|j: int| 0 <= j < out@.len() implies (#[trigger] out.deep_view()[j]).count
                    <= relation_count(now, out.deep_view()[j], p, c) by {
                    let y = out.deep_view()[j];
                    assert(summary_comes_from(before, xm, y));
                    if y != xm && !before.contains(y) {
                        let k = choose|k: int|
                            0 <= k < before.len() && same_relations(#[trigger] before[k], xm) && y
                                == (RelationSummaryModel {
                                count: (before[k].count + xm.count) as u64,
                                ..xm
                            }) && before[k].count + xm.count <= u64::MAX;
                        relation_count_of_same(all.take(i as int), before[k], y, p, c);
                    } else if y != xm {
                        let k = choose|k: int| 0 <= k < before.len() && before[k] == y;
                        assert(before[k].count <= relation_count(all.take(i as int), y, p, c));
                    }
                }
            }
        } else {
            assert(summary_in(row.deep_view(), p, c) is None);
        }
        i += 1;
    }
    assert(all.take(i as int) =~= all);
    out
}

/// The count under a key; none is zero.
pub open spec fn count_under(s: Seq<(Seq<char>, u64)>, k: Seq<char>) -> u64 {
    match strmap::assoc_get(s, k) {
        Some(n) => n,
        None => 0,
    }
}

/// How many nodes there are of each type.
pub open spec fn type_counts(
    rows: Seq<RowModel>,
    prefix: Option<Seq<char>>,
    catalog: Option<CatalogModel>,
) -> Seq<(Seq<char>, u64)>
    decreases rows.len(),
{
    if rows.len() == 0 {
        Seq::empty()
    } else {
        let before = type_counts(rows.drop_last(), prefix, catalog);
        let label = classify::primary_of(
            db::texts_cell(db::cell(rows.last(), "labels"@)),
            prefix,
            catalog,
        );
        strmap::assoc_insert(
            before,
            label,
            (count_under(before, label) + count_in(rows.last())) as u64,
        )
    }
}

/// A type that the overview shows: neither sources nor chunks.
pub open spec fn is_business_type(name: Seq<char>) -> bool {
    name != SOURCE_LABEL@ && name != CHUNK_LABEL@
}

/// The types to show, with their descriptions.
pub open spec fn shown_types(counts: Seq<(Seq<char>, u64)>, kinds: Seq<NodeKindModel>) -> Seq<
    TypeCountModel,
>
    decreases counts.len(),
{
    if counts.len() == 0 {
        Seq::empty()
    } else {
        let before = shown_types(counts.drop_last(), kinds);
        let (name, count) = counts.last();
        if is_business_type(name) {
            before.push(
                TypeCountModel { name, count, description: explorer::described(kinds, name) },
            )
        } else {
            before
        }
    }
}

/// The sum of the counts of types.
pub open spec fn types_total(types: Seq<TypeCountModel>) -> nat
    decreases types.len(),
{
    if types.len() == 0 {
        0
    } else {
        types_total(types.drop_last()) + types.last().count as nat
    }
}

/// The most frequent types first, then by name.
pub open spec fn type_order() -> spec_fn(TypeCountModel, TypeCountModel) -> bool {
    |a: TypeCountModel, b: TypeCountModel|
        b.count < a.count || (b.count == a.count && text::lex_le(a.name, b.name))
}

/// The order of types is total, so that the overview sorts them.
pub proof fn law_type_order_is_total()
    ensures
        sorting::is_total_preorder(type_order()),
{
    let le = type_order();
    assert forall|a: TypeCountModel, b: TypeCountModel| #[trigger] le(a, b) || le(b, a) by {
        if text::lex_lt(b.name, a.name) {
            text::lex_lt_asymmetric(b.name, a.name);
        }
    }
    assert forall|a: TypeCountModel, b: TypeCountModel, c: TypeCountModel|
        #[trigger] le(a, b) && #[trigger] le(b, c) implies le(a, c) by {
        if text::lex_le(a.name, b.name) && text::lex_le(b.name, c.name) {
            text::lex_le_transitive(a.name, b.name, c.name);
        }
    }
}

fn type_before(a: &TypeCount, b: &TypeCount) -> (r: bool)
    ensures
        r == type_order()(a.deep_view(), b.deep_view()),
{
    b.count < a.count || (b.count == a.count && !text::text_lt(b.name.as_str(), a.name.as_str()))
}

/// The relation kind of a label.
pub open spec fn relation_named(kinds: Seq<RelKindModel>, label: Seq<char>) -> Option<
    RelKindModel,
> {
    seqs::first_where(kinds, |k: RelKindModel| k.label == label)
}

/// The relation type in a row, unless it is one that leads to sources.
pub open spec fn relation_in(row: RowModel, kinds: Seq<RelKindModel>) -> Option<RelTypeCountModel> {
    match db::text_cell(db::cell(row, "rel"@)) {
        None => None,
        Some(name) => if name == MENTION_REL@ || name == PART_OF_REL@ {
            None
        } else {
            let kind = relation_named(kinds, name);
            Some(
                RelTypeCountModel {
                    name,
                    count: count_in(row),
                    from: match kind {
                        Some(k) => k.from,
                        None => None,
                    },
                    to: match kind {
                        Some(k) => k.to,
                        None => None,
                    },
                    description: match kind {
                        Some(k) => k.description,
                        None => None,
                    },
                },
            )
        },
    }
}

/// The relation types in rows.
pub open spec fn relations_in(rows: Seq<RowModel>, kinds: Seq<RelKindModel>) -> Seq<
    RelTypeCountModel,
>
    decreases rows.len(),
{
    if rows.len() == 0 {
        Seq::empty()
    } else {
        match relation_in(rows.last(), kinds) {
            Some(x) => relations_in(rows.drop_last(), kinds).push(x),
            None => relations_in(rows.drop_last(), kinds),
        }
    }
}

/// The sum of the counts of relation types.
pub open spec fn relations_total(types: Seq<RelTypeCountModel>) -> nat
    decreases types.len(),
{
    if types.len() == 0 {
        0
    } else {
        relations_total(types.drop_last()) + types.last().count as nat
    }
}

/// The sources in rows of id and name.
pub open spec fn source_rows(rows: Seq<RowModel>) -> Seq<SourceRefModel>
    decreases rows.len(),
{
    if rows.len() == 0 {
        Seq::empty()
    } else {
        let before = source_rows(rows.drop_last());
        let id = db::text_cell(db::cell(rows.last(), "id"@));
        let name = db::text_cell(db::cell(rows.last(), "name"@));
        if id is Some || name is Some {
            before.push(SourceRefModel { id, name })
        } else {
            before
        }
    }
}

/// What a graph holds.
pub open spec fn overview_of(
    schema: GraphSchemaModel,
    labels: Seq<RowModel>,
    relations: Seq<RowModel>,
    sources: Seq<RowModel>,
    prefix: Option<Seq<char>>,
    catalog: Option<CatalogModel>,
) -> OverviewReportModel {
    let types = shown_types(type_counts(labels, prefix, catalog), schema.nodes);
    let rels = relations_in(relations, schema.relationships);
    OverviewReportModel {
        entity_types: sorting::sorted_by(types, type_order()),
        relation_types: rels,
        total_entities: types_total(types) as u64,
        total_relations: relations_total(rels) as u64,
        sources: source_rows(sources),
    }
}

proof fn shown_types_are_business(
    counts: Seq<(Seq<char>, u64)>,
    kinds: Seq<NodeKindModel>,
    i: int,
)
    requires
        0 <= i < shown_types(counts, kinds).len(),
    ensures
        is_business_type(shown_types(counts, kinds)[i].name),
    decreases counts.len(),
{
    if counts.len() > 0 {
        let before = shown_types(counts.drop_last(), kinds);
        if i < before.len() {
            shown_types_are_business(counts.drop_last(), kinds, i);
        }
    }
}

/// The overview shows neither sources nor chunks among the types, and those with
/// more entities first.
pub proof fn law_overview_shows_business_types(
    schema: GraphSchemaModel,
    labels: Seq<RowModel>,
    relations: Seq<RowModel>,
    sources: Seq<RowModel>,
    prefix: Option<Seq<char>>,
    catalog: Option<CatalogModel>,
)
    ensures
        ({
            let shown = overview_of(
                schema,
                labels,
                relations,
                sources,
                prefix,
                catalog,
            ).entity_types;
            &&& forall|i: int|
                0 <= i < shown.len() ==> is_business_type((#[trigger] shown[i]).name)
            &&& forall|i: int, j: int|
                0 <= i < j < shown.len() ==> (#[trigger] shown[i]).count >= (
                #[trigger] shown[j]).count
        }),
{
    let types = shown_types(type_counts(labels, prefix, catalog), schema.nodes);
    let shown = sorting::sorted_by(types, type_order());
    law_type_order_is_total();
    sorting::law_sorted_by(types, type_order());
    assert forall|i: int| 0 <= i < shown.len() implies is_business_type(
        (#[trigger] shown[i]).name,
    ) by {
        sorting::sorting_adds_none(types, type_order(), shown[i]);
        let k = choose|k: int| 0 <= k < types.len() && types[k] == shown[i];
        shown_types_are_business(type_counts(labels, prefix, catalog), schema.nodes, k);
    }
    assert forall|i: int, j: int| 0 <= i < j < shown.len() implies (#[trigger] shown[i]).count >= (
    #[trigger] shown[j]).count by {
        assert(type_order()(shown[i], shown[j]));
    }
}

/// The sum of the counts in the rows of nodes of a type.
pub open spec fn type_count(
    rows: Seq<RowModel>,
    label: Seq<char>,
    prefix: Option<Seq<char>>,
    catalog: Option<CatalogModel>,
) -> nat
    decreases rows.len(),
{
    if rows.len() == 0 {
        0
    } else {
        type_count(rows.drop_last(), label, prefix, catalog) + if classify::primary_of(
            db::texts_cell(db::cell(rows.last(), "labels"@)),
            prefix,
            catalog,
        ) == label {
            count_in(rows.last()) as nat
        } else {
            0
        }
    }
}

/// Does the count of each type fit?
pub open spec fn types_fit(
    rows: Seq<RowModel>,
    prefix: Option<Seq<char>>,
    catalog: Option<CatalogModel>,
) -> bool {
    forall|label: Seq<char>| #[trigger] type_count(rows, label, prefix, catalog) <= u64::MAX
}

proof fn type_count_grows(
    rows: Seq<RowModel>,
    label: Seq<char>,
    prefix: Option<Seq<char>>,
    catalog: Option<CatalogModel>,
    n: int,
)
    requires
        0 <= n <= rows.len(),
    ensures
        type_count(rows.take(n), label, prefix, catalog) <= type_count(
            rows,
            label,
            prefix,
            catalog,
        ),
    decreases rows.len() - n,
{
    if n == rows.len() {
        assert(rows.take(n) =~= rows);
    } else {
        type_count_grows(rows, label, prefix, catalog, n + 1);
        assert(rows.take(n + 1).drop_last() =~= rows.take(n));
    }
}

proof fn types_grow(counts: Seq<(Seq<char>, u64)>, kinds: Seq<NodeKindModel>, n: int)
    requires
        0 <= n <= counts.len(),
    ensures
        types_total(shown_types(counts.take(n), kinds)) <= types_total(shown_types(counts, kinds)),
    decreases counts.len() - n,
{
    if n == counts.len() {
        assert(counts.take(n) =~= counts);
    } else {
        types_grow(counts, kinds, n + 1);
        assert(counts.take(n + 1).drop_last() =~= counts.take(n));
        let before = shown_types(counts.take(n), kinds);
        let now = shown_types(counts.take(n + 1), kinds);
        if now.len() > before.len() {
            assert(now.drop_last() =~= before);
        }
    }
}

proof fn relations_grow(rows: Seq<RowModel>, kinds: Seq<RelKindModel>, n: int)
    requires
        0 <= n <= rows.len(),
    ensures
        relations_total(relations_in(rows.take(n), kinds)) <= relations_total(
            relations_in(rows, kinds),
        ),
    decreases rows.len() - n,
{
    if n == rows.len() {
        assert(rows.take(n) =~= rows);
    } else {
        relations_grow(rows, kinds, n + 1);
        assert(rows.take(n + 1).drop_last() =~= rows.take(n));
        let before = relations_in(rows.take(n), kinds);
        let now = relations_in(rows.take(n + 1), kinds);
        if now.len() > before.len() {
            assert(now.drop_last() =~= before);
        }
    }
}

/// Do the counts and the totals of an overview fit?
pub open spec fn overview_fits(
    schema: GraphSchemaModel,
    labels: Seq<RowModel>,
    relations: Seq<RowModel>,
    prefix: Option<Seq<char>>,
    catalog: Option<CatalogModel>,
) -> bool {
    &&& types_fit(labels, prefix, catalog)
    &&& types_total(shown_types(type_counts(labels, prefix, catalog), schema.nodes)) <= u64::MAX
    &&& relations_total(relations_in(relations, schema.relationships)) <= u64::MAX
}

fn find_relation<'a>(kinds: &'a Vec<RelKind>, label: &str) -> (r: Option<&'a RelKind>)
    ensures
        r.deep_view() == relation_named(kinds.deep_view(), label@),
{
    let ghost all = kinds.deep_view();
    let ghost p = |k: RelKindModel| k.label == label@;
    let mut i: usize = 0;
    while i < kinds.len()
        invariant
            all == kinds.deep_view(),
            p == (|k: RelKindModel| k.label == label@),
            0 <= i <= kinds@.len(),
            forall|j: int| 0 <= j < i ==> !p(#[trigger] all[j]),
        decreases kinds@.len() - i,
    {
        assert(all[i as int] == kinds@[i as int].deep_view());
        if text::text_eq(kinds[i].label.as_str(), label) {
            proof {
                seqs::first_where_at(all, p, i as int);
            }
            return Some(&kinds[i]);
        }
        i += 1;
    }
    proof {
        seqs::first_where_none(all, p);
    }
    None
}

fn count_types(
    result: &QueryResult,
    prefix: Option<&str>,
    catalog: Option<&OntologyCatalog>,
) -> (r: StrMap<u64>)
    requires
        types_fit(result.deep_view().rows, prefix.deep_view(), catalog.deep_view()),
    ensures
        r.deep_view() == type_counts(
            result.deep_view().rows,
            prefix.deep_view(),
            catalog.deep_view(),
        ),
{
    let ghost all = result.rows.deep_view();
    let ghost p = prefix.deep_view();
    let ghost c = catalog.deep_view();
    let mut out: StrMap<u64> = StrMap::new();
    let mut i: usize = 0;
    while i < result.rows.len()
        invariant
            all == result.rows.deep_view(),
            p == prefix.deep_view(),
            c == catalog.deep_view(),
            types_fit(all, p, c),
            0 <= i <= result.rows@.len(),
            out.deep_view() == type_counts(all.take(i as int), p, c),
            forall|l: Seq<char>|
                #[trigger] count_under(out.deep_view(), l) == type_count(
                    all.take(i as int),
                    l,
                    p,
                    c,
                ),
        decreases result.rows@.len() - i,
    {
        let row = &result.rows[i];
        proof {
            assert(all.take(i + 1).drop_last() =~= all.take(i as int));
            assert(all.take(i + 1).last() == row.deep_view());
        }
        let labels = db::string_list_field(row, "labels");
        let all_labels = labels.as_slice();
        assert(all_labels.deep_view() =~= labels.deep_view());
        let label = classify::primary_label(all_labels, prefix, catalog);
        let held = match out.get(label.as_str()) {
            Some(n) => *n,
            None => 0,
        };
        let count = count_field(row);
        let ghost name = label@;
        let ghost before = out.deep_view();
        proof {
            assert(held == count_under(before, name));
            type_count_grows(all, name, p, c, i + 1);
        }
        out.insert(label, held + count);
        proof {
            strmap::law_get_after_insert(before, name, (held + count) as u64);
            assert forall|l: Seq<char>| #[trigger] count_under(out.deep_view(), l) == type_count(
                all.take(i + 1),
                l,
                p,
                c,
            ) by {
                assert(count_under(before, l) == type_count(all.take(i as int), l, p, c));
                if l != name {
                    strmap::law_get_other_after_insert(before, name, (held + count) as u64, l);
                }
            }
        }
        i += 1;
    }
    assert(all.take(i as int) =~= all);
    out
}

/// What a graph holds: its entity and relation types with counts, and its
/// sources.
pub fn overview(
    schema: &GraphSchema,
    label_counts: &QueryResult,
    relation_counts: &QueryResult,
    sources: &QueryResult,
    prefix: Option<&str>,
    catalog: Option<&OntologyCatalog>,
) -> (r: OverviewReport)
    requires
        overview_fits(
            schema.deep_view(),
            label_counts.deep_view().rows,
            relation_counts.deep_view().rows,
            prefix.deep_view(),
            catalog.deep_view(),
        ),
    ensures
        r.deep_view() == overview_of(
            schema.deep_view(),
            label_counts.deep_view().rows,
            relation_counts.deep_view().rows,
            sources.deep_view().rows,
            prefix.deep_view(),
            catalog.deep_view(),
        ),
{
    let counts = count_types(label_counts, prefix, catalog);
    let ghost held = counts.deep_view();
    let ghost nodes = schema.nodes.deep_view();
    let mut types: Vec<TypeCount> = seqs::no_items();
    let mut total_entities: u64 = 0;
    let mut i: usize = 0;
    while i < counts.entries.len()
        invariant
            held == counts.deep_view(),
            nodes == schema.nodes.deep_view(),
            types_total(shown_types(held, nodes)) <= u64::MAX,
            0 <= i <= counts.entries@.len(),
            types.deep_view() == shown_types(held.take(i as int), nodes),
            total_entities == types_total(types.deep_view()),
        decreases counts.entries@.len() - i,
    {
        proof {
            assert(held.take(i + 1).drop_last() =~= held.take(i as int));
            assert(held.take(i + 1).last() == counts.entries@[i as int].deep_view());
            types_grow(held, nodes, i + 1);
        }
        let name = counts.entries[i].0.as_str();
        if !text::text_eq(name, SOURCE_LABEL) && !text::text_eq(name, CHUNK_LABEL) {
            let ghost before = types.deep_view();
            let count = counts.entries[i].1;
            let description = explorer::description_of(&schema.nodes, name);
            let x = TypeCount { name: name.to_owned(), count, description };
            let ghost xm = x.deep_view();
            seqs::push_item(&mut types, x);
            assert(before.push(xm).drop_last() =~= before);
            total_entities = total_entities + count;
        }
        i += 1;
    }
    assert(held.take(i as int) =~= held);
    let ghost unsorted = types.deep_view();
    sorting::sort_items(&mut types, type_before, Ghost(type_order()));
    let ghost rel_rows = relation_counts.rows.deep_view();
    let ghost rels = schema.relationships.deep_view();
    let mut relation_types: Vec<RelTypeCount> = seqs::no_items();
    let mut total_relations: u64 = 0;
    let mut k: usize = 0;
    while k < relation_counts.rows.len()
        invariant
            rel_rows == relation_counts.rows.deep_view(),
            rels == schema.relationships.deep_view(),
            relations_total(relations_in(rel_rows, rels)) <= u64::MAX,
            0 <= k <= relation_counts.rows@.len(),
            relation_types.deep_view() == relations_in(rel_rows.take(k as int), rels),
            total_relations == relations_total(relation_types.deep_view()),
        decreases relation_counts.rows@.len() - k,
    {
        let row = &relation_counts.rows[k];
        proof {
            assert(rel_rows.take(k + 1).drop_last() =~= rel_rows.take(k as int));
            assert(rel_rows.take(k + 1).last() == row.deep_view());
            relations_grow(rel_rows, rels, k + 1);
        }
        if let Some(name) = db::string_field(row, "rel") {
            if !text::text_eq(name.as_str(), MENTION_REL) && !text::text_eq(
                name.as_str(),
                PART_OF_REL,
            ) {
                let ghost before = relation_types.deep_view();
                let count = count_field(row);
                let x = match find_relation(&schema.relationships, name.as_str()) {
                    Some(kind) => RelTypeCount {
                        name,
                        count,
                        from: kind.from.copied(),
                        to: kind.to.copied(),
                        description: kind.description.copied(),
                    },
                    None => RelTypeCount { name, count, from: None, to: None, description: None },
                };
                let ghost xm = x.deep_view();
                seqs::push_item(&mut relation_types, x);
                assert(before.push(xm).drop_last() =~= before);
                total_relations = total_relations + count;
            }
        }
        k += 1;
    }
    assert(rel_rows.take(k as int) =~= rel_rows);
    let listed = list_sources(sources);
    OverviewReport {
        entity_types: types,
        relation_types,
        total_entities,
        total_relations,
        sources: listed,
    }
}

fn list_sources(result: &QueryResult) -> (r: Vec<SourceRef>)
    ensures
        r.deep_view() == source_rows(result.deep_view().rows),
{
    let ghost all = result.rows.deep_view();
    let mut out: Vec<SourceRef> = seqs::no_items();
    let mut i: usize = 0;
    while i < result.rows.len()
        invariant
            all == result.rows.deep_view(),
            0 <= i <= result.rows@.len(),
            out.deep_view() == source_rows(all.take(i as int)),
        decreases result.rows@.len() - i,
    {
        proof {
            assert(all.take(i + 1).drop_last() =~= all.take(i as int));
            assert(all.take(i + 1).last() == result.rows@[i as int].deep_view());
        }
        let id = db::string_field(&result.rows[i], "id");
        let name = db::string_field(&result.rows[i], "name");
        if id.is_some() || name.is_some() {
            seqs::push_item(&mut out, SourceRef { id, name });
        }
        i += 1;
    }
    assert(all.take(i as int) =~= all);
    out
}

} // verus!
