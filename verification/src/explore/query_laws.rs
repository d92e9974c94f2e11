//! What the queries of the explorer ask for.

use vstd::prelude::*;
use crate::cypher;
use crate::explore::dto::RelDirection;
use crate::explore::queries::NeighborQueryModel;
use crate::explore::queries::NodeHandleModel;
use crate::explore::queries::Params;
use crate::explore::queries;
use crate::literal::LiteralModel;
use crate::strmap;
use crate::text;

verus! {

broadcast use vstd::string::group_string_axioms;

/// Is a parameter given, and which?
pub open spec fn gives(p: Params, name: Seq<char>, value: LiteralModel) -> bool {
    strmap::assoc_get(p, name) == Some(value)
}

/// Is a list of texts given?
pub open spec fn gives_texts(p: Params, name: Seq<char>, texts: Seq<Seq<char>>) -> bool {
    match strmap::assoc_get(p, name) {
        Some(LiteralModel::List(v)) => v.len() == texts.len() && forall|i: int|
            0 <= i < v.len() ==> #[trigger] v[i] == LiteralModel::Str(texts[i]),
        _ => false,
    }
}

/// The suffix that a prefix is written as.
pub open spec fn written(prefix: Option<Seq<char>>) -> Seq<char> {
    match prefix {
        Some(p) => ":"@ + p,
        None => Seq::empty(),
    }
}

/// Can a prefix be written, where there is one?
pub open spec fn is_writable(prefix: Option<Seq<char>>) -> bool {
    prefix is Some ==> text::is_identifier(prefix->0)
}

/// A node is asked for by what its handle says: an id as the text that it is, and as an integer
/// too where it is one; an internal id as such. The condition speaks of no other parameter.
pub proof fn law_handles_are_bound(h: NodeHandleModel)
    ensures
        match h {
            NodeHandleModel::AppId(id) => {
                &&& gives(queries::handle_params(h), "id"@, LiteralModel::Str(id))
                &&& text::i64_of(id) is Some ==> gives(
                    queries::handle_params(h),
                    "id_int"@,
                    LiteralModel::Int(text::i64_of(id)->0),
                ) && text::has_substring(queries::handle_condition(h), "n.id = $id_int"@)
                &&& text::has_substring(queries::handle_condition(h), "n.id = $id"@)
            },
            NodeHandleModel::Nid(n) => {
                &&& gives(queries::handle_params(h), "nid"@, LiteralModel::Int(n))
                &&& queries::handle_condition(h) == "id(n) = $nid"@
            },
        },
{
    reveal_strlit("id");
    reveal_strlit("id_int");
    reveal_strlit("nid");
    reveal_strlit("n.id = $id");
    reveal_strlit("n.id = $id_int");
    reveal_strlit("(n.id = $id OR n.id = $id_int)");
    assert("id"@.len() == 2 && "id_int"@.len() == 6);
    let none = cypher::no_params();
    match h {
        NodeHandleModel::AppId(id) => {
            let x = LiteralModel::Str(id);
            strmap::law_get_after_insert(none, "id"@, x);
            let one = cypher::one_param("id"@, x);
            if let Some(n) = text::i64_of(id) {
                let y = LiteralModel::Int(n);
                strmap::law_get_after_insert(one, "id_int"@, y);
                strmap::law_get_other_after_insert(one, "id_int"@, y, "id"@);
                let whole = "(n.id = $id OR n.id = $id_int)"@;
                assert(whole.subrange(1, 11) =~= "n.id = $id"@);
                assert(text::occurs_at(whole, "n.id = $id"@, 1));
                assert(whole.subrange(15, 29) =~= "n.id = $id_int"@);
                assert(text::occurs_at(whole, "n.id = $id_int"@, 15));
            } else {
                let whole = "n.id = $id"@;
                assert(whole.subrange(0, 10) =~= whole);
                assert(text::occurs_at(whole, whole, 0));
            }
        },
        NodeHandleModel::Nid(n) => {
            strmap::law_get_after_insert(none, "nid"@, LiteralModel::Int(n));
        },
    }
}

/// A walk starts at the entity and follows the edges in the direction that is asked for, under the
/// prefix at both ends; its page starts at the offset and ends at the limit.
pub proof fn law_walks_follow_the_direction(q: NeighborQueryModel, prefix: Option<Seq<char>>)
    ensures
        queries::neighbors_query(q, prefix) is Ok <==> is_writable(prefix),
        queries::neighbors_query(q, prefix) is Ok ==> ({
            let t = queries::neighbors_query(q, prefix)->Ok_0.text;
            let arrow = if q.direction == Some(RelDirection::Out) {
                "-[r]->"@
            } else if q.direction == Some(RelDirection::In) {
                "<-[r]-"@
            } else {
                "-[r]-"@
            };
            &&& text::has_prefix(
                t,
                "MATCH (n"@ + written(prefix) + ")"@ + arrow + "(m"@ + written(prefix) + ")"@,
            )
            &&& text::has_suffix(
                t,
                text::nat_text(q.offset as nat) + " LIMIT "@ + text::nat_text(q.limit as nat),
            )
            &&& text::has_substring(t, queries::handle_condition(q.handle))
        }),
{
    if is_writable(prefix) {
        let p = written(prefix);
        let t = queries::neighbors_query(q, prefix)->Ok_0.text;
        let arrow = queries::arrow_text(q.direction);
        let a = "MATCH (n"@ + p + ")"@ + arrow + "(m"@ + p;
        let c = queries::neighbor_condition(q);
        let z =
            " RETURN id(m) AS nid, m.id AS id, labels(m) AS labels, properties(m) AS props, type(r) AS rel, properties(r) AS rel_props, startNode(r) = n AS outgoing ORDER BY rel ASC, id ASC SKIP "@;
        let n = text::nat_text(q.offset as nat);
        let m = text::nat_text(q.limit as nat);
        assert(t == a + ") WHERE "@ + c + z + n + " LIMIT "@ + m);
        reveal_strlit(") WHERE ");
        reveal_strlit(")");
        let head = a + ")"@;
        assert(t.subrange(0, head.len() as int) =~= head);
        let tail = n + " LIMIT "@ + m;
        assert(t.subrange(t.len() - tail.len(), t.len() as int) =~= tail);
        let h = queries::handle_condition(q.handle);
        let at = a.len() + 8int;
        assert(c.subrange(0, h.len() as int) =~= h);
        assert(t.subrange(at, at + h.len()) =~= h);
        assert(text::occurs_at(t, h, at));
    }
}

proof fn other_params_stay(p: Params, name: Seq<char>, v: LiteralModel, k: Seq<char>)
    requires
        k != name,
    ensures
        strmap::assoc_get(strmap::assoc_insert(p, name, v), k) == strmap::assoc_get(p, k),
{
    strmap::law_get_other_after_insert(p, name, v, k);
}

/// The types of edges and the labels of neighbours that a walk is held to are given with it.
pub proof fn law_walks_are_held_to_types(q: NeighborQueryModel)
    ensures
        q.edge_types is Some ==> gives_texts(
            queries::neighbor_params(q),
            "edge_types"@,
            q.edge_types->0,
        ) && text::has_substring(queries::neighbor_condition(q), "type(r) IN $edge_types"@),
        q.target_labels is Some ==> gives_texts(
            queries::neighbor_params(q),
            "target_labels"@,
            q.target_labels->0,
        ) && text::has_suffix(
            queries::neighbor_condition(q),
            "any(l IN labels(m) WHERE l IN $target_labels)"@,
        ),
{
    reveal_strlit("edge_types");
    reveal_strlit("target_labels");
    assert("edge_types"@.len() == 10 && "target_labels"@.len() == 13);
    let base = queries::handle_params(q.handle);
    let h = queries::handle_condition(q.handle);
    let all = queries::neighbor_condition(q);
    let x = "type(r) IN $edge_types"@;
    if let Some(types) = q.edge_types {
        let v = LiteralModel::List(cypher::text_literals(types));
        strmap::law_get_after_insert(base, "edge_types"@, v);
        let at = (h + " AND "@).len() as int;
        assert(all.subrange(at, at + x.len()) =~= x);
        assert(text::occurs_at(all, x, at));
        if let Some(labels) = q.target_labels {
            let w = LiteralModel::List(cypher::text_literals(labels));
            let edges = strmap::assoc_insert(base, "edge_types"@, v);
            other_params_stay(edges, "target_labels"@, w, "edge_types"@);
        }
    }
    if let Some(labels) = q.target_labels {
        let w = LiteralModel::List(cypher::text_literals(labels));
        let edges = match q.edge_types {
            Some(types) => strmap::assoc_insert(
                base,
                "edge_types"@,
                LiteralModel::List(cypher::text_literals(types)),
            ),
            None => base,
        };
        strmap::law_get_after_insert(edges, "target_labels"@, w);
        let y = "any(l IN labels(m) WHERE l IN $target_labels)"@;
        assert(all.subrange(all.len() - y.len(), all.len() as int) =~= y);
    }
}

/// Ids are asked for as texts, all of them, and those of digits as integers too.
pub proof fn law_ids_are_given(ids: Seq<Seq<char>>, param: Seq<char>)
    ensures
        gives_texts(queries::ids_params(ids, param), param + "ids"@, ids),
        queries::numeric_ids(ids).len() > 0 ==> match strmap::assoc_get(
            queries::ids_params(ids, param),
            param + "ids_int"@,
        ) {
            Some(LiteralModel::List(v)) => v.len() == queries::numeric_ids(ids).len() && forall|i:
                int|
                0 <= i < v.len() ==> #[trigger] v[i] == LiteralModel::Int(
                    queries::numeric_ids(ids)[i],
                ),
            _ => false,
        },
{
    reveal_strlit("ids");
    reveal_strlit("ids_int");
    assert((param + "ids"@).len() != (param + "ids_int"@).len());
    let none = cypher::no_params();
    let v = LiteralModel::List(cypher::text_literals(ids));
    strmap::law_get_after_insert(none, param + "ids"@, v);
    let one = cypher::one_param(param + "ids"@, v);
    let w = LiteralModel::List(cypher::int_literals(queries::numeric_ids(ids)));
    strmap::law_get_after_insert(one, param + "ids_int"@, w);
    strmap::law_get_other_after_insert(one, param + "ids_int"@, w, param + "ids"@);
}

/// The integers among ids are those of the ids that are written as integers, in their order.
pub proof fn law_numeric_ids_are_of_the_ids(ids: Seq<Seq<char>>)
    ensures
        queries::numeric_ids(ids) == ids.filter(
            |s: Seq<char>| text::i64_of(s) is Some,
        ).map_values(|s: Seq<char>| text::i64_of(s)->0),
    decreases ids.len(),
{
    reveal(Seq::filter);
    let p = |s: Seq<char>| text::i64_of(s) is Some;
    let f = |s: Seq<char>| text::i64_of(s)->0;
    if ids.len() > 0 {
        law_numeric_ids_are_of_the_ids(ids.drop_last());
        if text::i64_of(ids.last()) is Some {
            assert(ids.filter(p).map_values(f) =~= ids.drop_last().filter(p).map_values(f).push(
                text::i64_of(ids.last())->0,
            ));
        }
    } else {
        assert(ids.filter(p).map_values(f) =~= Seq::<i64>::empty());
    }
}

/// A page of a table is of the entities of the type, under the prefix, in the order of the
/// property; it starts at the offset and ends at the limit.
pub proof fn law_table_pages_are_cut(
    entity_type: Seq<char>,
    sort_prop: Seq<char>,
    limit: nat,
    offset: nat,
    prefix: Option<Seq<char>>,
)
    ensures
        queries::table_page_query(entity_type, sort_prop, limit, offset, prefix) is Ok
            <==> is_writable(prefix) && text::is_identifier(entity_type) && text::is_identifier(
            sort_prop,
        ),
        match queries::table_page_query(entity_type, sort_prop, limit, offset, prefix) {
            Ok(q) => text::has_prefix(
                q.text,
                "MATCH (n:"@ + entity_type + written(prefix) + ")"@,
            ) && text::has_suffix(
                q.text,
                sort_prop + " ASC SKIP "@ + text::nat_text(offset) + " LIMIT "@ + text::nat_text(
                    limit,
                ),
            ) && q.params.len() == 0,
            Err(_) => true,
        },
        match queries::entity_count_query(entity_type, prefix) {
            Ok(q) => is_writable(prefix) && text::is_identifier(entity_type) && q.text
                == "MATCH (n:"@ + entity_type + written(prefix) + ") RETURN count(n) AS total"@,
            Err(_) => !is_writable(prefix) || !text::is_identifier(entity_type),
        },
{
    if let Ok(q) = queries::table_page_query(entity_type, sort_prop, limit, offset, prefix) {
        reveal_strlit(")");
        reveal_strlit(
            ") RETURN id(n) AS nid, n.id AS id, labels(n) AS labels, properties(n) AS props ORDER BY n.",
        );
        let t = q.text;
        let head = "MATCH (n:"@ + entity_type + written(prefix) + ")"@;
        assert(t.subrange(0, head.len() as int) =~= head);
        let tail = sort_prop + " ASC SKIP "@ + text::nat_text(offset) + " LIMIT "@ + text::nat_text(
            limit,
        );
        assert(t.subrange(t.len() - tail.len(), t.len() as int) =~= tail);
    }
}

/// A search for a word asks for it as it is where it has to be exact, and in lower case where it
/// has not; it ends at the limit. It needs a property that can be searched.
pub proof fn law_words_are_searched(
    needle: Seq<char>,
    properties: Seq<Seq<char>>,
    entity_type: Option<Seq<char>>,
    exact: bool,
    limit: nat,
    prefix: Option<Seq<char>>,
)
    ensures
        queries::keyword_query(needle, properties, entity_type, exact, limit, prefix) is Ok
            <==> is_writable(prefix) && is_writable(entity_type) && exists|i: int|
            0 <= i < properties.len() && text::is_identifier(#[trigger] properties[i]),
        match queries::keyword_query(needle, properties, entity_type, exact, limit, prefix) {
            Ok(q) => {
                &&& exact ==> gives(q.params, "q"@, LiteralModel::Str(needle))
                &&& !exact ==> gives(q.params, "q"@, LiteralModel::Str(text::lowercase(needle)))
                &&& text::has_prefix(
                    q.text,
                    "MATCH (n"@ + written(entity_type) + written(prefix) + ")"@,
                )
                &&& text::has_suffix(q.text, text::nat_text(limit))
            },
            Err(_) => true,
        },
{
    some_condition_is_written(properties, exact);
    if let Ok(q) = queries::keyword_query(needle, properties, entity_type, exact, limit, prefix) {
        strmap::law_get_after_insert(
            cypher::no_params(),
            "q"@,
            LiteralModel::Str(
                if exact {
                    needle
                } else {
                    text::lowercase(needle)
                },
            ),
        );
        reveal_strlit(")");
        reveal_strlit(") WHERE ");
        let t = q.text;
        let head = "MATCH (n"@ + written(entity_type) + written(prefix) + ")"@;
        assert(t.subrange(0, head.len() as int) =~= head);
        let tail = text::nat_text(limit);
        assert(t.subrange(t.len() - tail.len(), t.len() as int) =~= tail);
    }
}

proof fn some_condition_is_written(properties: Seq<Seq<char>>, exact: bool)
    ensures
        queries::keyword_conditions(properties, exact) is Some <==> exists|i: int|
            0 <= i < properties.len() && text::is_identifier(#[trigger] properties[i]),
    decreases properties.len(),
{
    if properties.len() > 0 {
        let rest = properties.drop_last();
        some_condition_is_written(rest, exact);
        assert(properties[properties.len() - 1] == properties.last());
        if exists|i: int| 0 <= i < rest.len() && text::is_identifier(#[trigger] rest[i]) {
            let i = choose|i: int| 0 <= i < rest.len() && text::is_identifier(#[trigger] rest[i]);
            assert(text::is_identifier(properties[i]));
        }
        if exists|i: int| 0 <= i < properties.len() && text::is_identifier(#[trigger] properties[i]) {
            let i = choose|i: int|
                0 <= i < properties.len() && text::is_identifier(#[trigger] properties[i]);
            if i < rest.len() {
                assert(text::is_identifier(rest[i]));
            }
        }
    }
}

/// Every property that can be searched has its condition in the search: that it is the word where
/// it has to be, else that its normalised copy contains it.
pub proof fn law_all_properties_are_searched(properties: Seq<Seq<char>>, exact: bool, i: int)
    requires
        0 <= i < properties.len(),
        text::is_identifier(properties[i]),
    ensures
        queries::keyword_conditions(properties, exact) is Some,
        exact ==> text::has_substring(
            queries::keyword_conditions(properties, exact)->0,
            "n."@ + properties[i] + " = $q"@,
        ),
        !exact ==> text::has_substring(
            queries::keyword_conditions(properties, exact)->0,
            "n._lg_norm_"@ + properties[i],
        ),
    decreases properties.len(),
{
    reveal_strlit("n._lg_norm_");
    reveal_strlit("_lg_norm_");
    reveal_strlit("toString(coalesce(n.");
    let rest = properties.drop_last();
    let c = queries::keyword_condition(properties[i], exact);
    let want = if exact {
        "n."@ + properties[i] + " = $q"@
    } else {
        "n._lg_norm_"@ + properties[i]
    };
    let all = queries::keyword_conditions(properties, exact);
    if i < rest.len() {
        assert(rest[i] == properties[i]);
        law_all_properties_are_searched(rest, exact, i);
        let before = queries::keyword_conditions(rest, exact)->0;
        let k = choose|k: int| #[trigger] text::occurs_at(before, want, k);
        let whole = all->0;
        if text::is_identifier(properties.last()) {
            assert(whole.subrange(k, k + want.len()) =~= before.subrange(k, k + want.len()));
        }
        assert(text::occurs_at(whole, want, k));
    } else {
        let whole = all->0;
        let at = whole.len() - c.len();
        if exact {
            assert(whole.subrange(at, at + want.len()) =~= want);
            assert(text::occurs_at(whole, want, at));
        } else {
            assert(whole.subrange(at + 18, at + 18 + want.len()) =~= want);
            assert(text::occurs_at(whole, want, at + 18));
        }
    }
}

/// The edges among nodes go from the one that is named first to the one that is named second.
pub proof fn law_edges_are_asked_with_their_ends(
    ids: Seq<Seq<char>>,
    edge_cap: nat,
    prefix: Option<Seq<char>>,
)
    ensures
        queries::edges_among_query(ids, edge_cap, prefix) is Ok <==> is_writable(prefix),
        match queries::edges_among_query(ids, edge_cap, prefix) {
            Ok(q) => {
                &&& text::has_prefix(
                    q.text,
                    "MATCH (a"@ + written(prefix) + ")-[r]->(b"@ + written(prefix) + ") WHERE "@,
                )
                &&& text::has_suffix(
                    q.text,
                    " RETURN a.id AS from_id, b.id AS to_id, type(r) AS rel, properties(r) AS props LIMIT "@
                        + text::nat_text(edge_cap),
                )
                &&& gives_texts(q.params, ""@ + "ids"@, ids)
            },
            Err(_) => true,
        },
{
    if let Ok(q) = queries::edges_among_query(ids, edge_cap, prefix) {
        law_ids_are_given(ids, ""@);
        let t = q.text;
        let head = "MATCH (a"@ + written(prefix) + ")-[r]->(b"@ + written(prefix) + ") WHERE "@;
        assert(t.subrange(0, head.len() as int) =~= head);
        let tail =
            " RETURN a.id AS from_id, b.id AS to_id, type(r) AS rel, properties(r) AS props LIMIT "@
            + text::nat_text(edge_cap);
        assert(t.subrange(t.len() - tail.len(), t.len() as int) =~= tail);
    }
}

/// Nodes are asked for by their ids, all that are given, and under the prefix.
pub proof fn law_nodes_are_asked_by_id(ids: Seq<Seq<char>>, prefix: Option<Seq<char>>)
    ensures
        match queries::nodes_by_ids_query(ids, prefix) {
            Ok(q) => {
                &&& is_writable(prefix)
                &&& text::has_prefix(q.text, "MATCH (n"@ + written(prefix) + ") WHERE "@)
                &&& text::has_substring(q.text, queries::ids_condition("n.id"@, ids, ""@))
                &&& text::has_suffix(
                    q.text,
                    " RETURN id(n) AS nid, n.id AS id, labels(n) AS labels, properties(n) AS props"@,
                )
                &&& gives_texts(q.params, ""@ + "ids"@, ids)
            },
            Err(_) => !is_writable(prefix),
        },
{
    if let Ok(q) = queries::nodes_by_ids_query(ids, prefix) {
        law_ids_are_given(ids, ""@);
        let t = q.text;
        let head = "MATCH (n"@ + written(prefix) + ") WHERE "@;
        let c = queries::ids_condition("n.id"@, ids, ""@);
        let tail =
            " RETURN id(n) AS nid, n.id AS id, labels(n) AS labels, properties(n) AS props"@;
        let at = head.len() as int;
        assert(t.subrange(0, at) =~= head);
        assert(t.subrange(at, at + c.len()) =~= c);
        assert(text::occurs_at(t, c, at));
        assert(t.subrange(t.len() - tail.len(), t.len() as int) =~= tail);
    }
}

/// Nodes are asked for by their internal ids, all that are given, and under the prefix.
pub proof fn law_nodes_are_asked_by_internal_id(nids: Seq<i64>, prefix: Option<Seq<char>>)
    ensures
        match queries::nodes_by_nids_query(nids, prefix) {
            Ok(q) => {
                &&& is_writable(prefix)
                &&& text::has_prefix(q.text, "MATCH (n"@ + written(prefix) + ")"@)
                &&& text::has_substring(q.text, "WHERE id(n) IN $nids"@)
                &&& match strmap::assoc_get(q.params, "nids"@) {
                    Some(LiteralModel::List(v)) => v.len() == nids.len() && forall|i: int|
                        0 <= i < v.len() ==> #[trigger] v[i] == LiteralModel::Int(nids[i]),
                    _ => false,
                }
            },
            Err(_) => !is_writable(prefix),
        },
{
    if let Ok(q) = queries::nodes_by_nids_query(nids, prefix) {
        let t = q.text;
        reveal_strlit(")");
        reveal_strlit("WHERE id(n) IN $nids");
        reveal_strlit(
            ") WHERE id(n) IN $nids RETURN id(n) AS nid, n.id AS id, labels(n) AS labels, properties(n) AS props",
        );
        let head = "MATCH (n"@ + written(prefix) + ")"@;
        assert(t.subrange(0, head.len() as int) =~= head);
        let c = "WHERE id(n) IN $nids"@;
        let at = head.len() + 1int;
        assert(t.subrange(at, at + c.len()) =~= c);
        assert(text::occurs_at(t, c, at));
        strmap::law_get_after_insert(
            cypher::no_params(),
            "nids"@,
            LiteralModel::List(cypher::int_literals(nids)),
        );
    }
}

/// Nodes and relations are counted under the prefix, relations at both their ends, and so are the
/// sources listed, as many as are asked for at most.
pub proof fn law_counts_are_under_the_prefix(limit: nat, prefix: Option<Seq<char>>)
    ensures
        match queries::label_set_counts_query(prefix) {
            Ok(q) => {
                &&& is_writable(prefix)
                &&& text::has_prefix(q.text, "MATCH (n"@ + written(prefix) + ") RETURN labels(n)"@)
                &&& q.params.len() == 0
            },
            Err(_) => !is_writable(prefix),
        },
        match queries::relation_type_counts_query(prefix) {
            Ok(q) => {
                &&& is_writable(prefix)
                &&& text::has_prefix(
                    q.text,
                    "MATCH (a"@ + written(prefix) + ")-[r]->(b"@ + written(prefix)
                        + ") RETURN type(r)"@,
                )
                &&& q.params.len() == 0
            },
            Err(_) => !is_writable(prefix),
        },
        match queries::list_sources_query(limit, prefix) {
            Ok(q) => {
                &&& is_writable(prefix)
                &&& text::has_prefix(q.text, "MATCH (s:"@ + "Source"@ + written(prefix) + ")"@)
                &&& text::has_suffix(q.text, " LIMIT "@ + text::nat_text(limit))
                &&& q.params.len() == 0
            },
            Err(_) => !is_writable(prefix),
        },
{
    if is_writable(prefix) {
        let a = queries::label_set_counts_query(prefix)->Ok_0.text;
        reveal_strlit(") RETURN labels(n)");
        reveal_strlit(") RETURN labels(n) AS labels, count(*) AS cnt");
        let x = "MATCH (n"@ + written(prefix) + ") RETURN labels(n)"@;
        assert(a.subrange(0, x.len() as int) =~= x);
        let b = queries::relation_type_counts_query(prefix)->Ok_0.text;
        reveal_strlit(") RETURN type(r)");
        reveal_strlit(") RETURN type(r) AS rel, count(*) AS cnt ORDER BY cnt DESC");
        let y = "MATCH (a"@ + written(prefix) + ")-[r]->(b"@ + written(prefix)
            + ") RETURN type(r)"@;
        assert(b.subrange(0, y.len() as int) =~= y);
        let c = queries::list_sources_query(limit, prefix)->Ok_0.text;
        reveal_strlit(")");
        reveal_strlit(" LIMIT ");
        reveal_strlit(") RETURN s.id AS id, s.name AS name ORDER BY name ASC LIMIT ");
        let z = "MATCH (s:"@ + "Source"@ + written(prefix) + ")"@;
        assert(c.subrange(0, z.len() as int) =~= z);
        let w = " LIMIT "@ + text::nat_text(limit);
        assert(c.subrange(c.len() - w.len(), c.len() as int) =~= w);
    }
}

/// A text that is not written like an internal id stands for itself, as an id, and an id of digits
/// may stand for the internal id of that number.
pub proof fn law_other_handles_are_ids(raw: Seq<char>, nid: i64)
    ensures
        !text::has_prefix(raw, "_nid:"@) ==> queries::handle_of(raw) == NodeHandleModel::AppId(
            raw,
        ),
        match queries::handle_of(raw) {
            NodeHandleModel::AppId(id) => id == raw,
            NodeHandleModel::Nid(_) => text::has_prefix(raw, "_nid:"@),
        },
        queries::fallback_of(NodeHandleModel::AppId(text::int_text(nid as int))) == Some(
            NodeHandleModel::Nid(nid),
        ),
        queries::fallback_of(NodeHandleModel::Nid(nid)) is None,
{
    text::law_written_integers_are_read(nid);
}

} // verus!
