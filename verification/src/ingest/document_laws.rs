//! What a planned document holds: its chunks, the entities that they mention and the
//! relations between those, each in its place, and nothing else.

use vstd::prelude::*;
use crate::groups;
use crate::ingest::document;
use crate::ingest::document::ChunkModel;
use crate::ingest::document::DocumentModel;
use crate::ingest::document::EntityModel;
use crate::ingest::document::Gathered;
use crate::ingest::document::LocalModel;
use crate::ingest::document::RelationModel;
use crate::ingest::document::Walk;
use crate::ingest::dsl;
use crate::ingest::dsl::InsertPlanModel;
use crate::ingest::dsl::NodeDataModel;
use crate::ingest::dsl::NodePlanModel;
use crate::ingest::dsl::RelationDataModel;
use crate::ingest::dsl::RelationPlanModel;
use crate::ingest::laws;
use crate::json::JsonModel;
use crate::literal::LiteralModel;
use crate::sorting;
use crate::strmap;
use crate::text;
use crate::types::IngestInputModel;
use crate::types::StoredModel;
use crate::types::TypeRegistry;

verus! {

broadcast use vstd::string::group_string_axioms;

/// Is `label` the label of the entity that a handle stands for in a chunk: of the last
/// entity with that handle?
pub open spec fn handle_has_label(c: ChunkModel, handle: Seq<char>, label: Seq<char>) -> bool {
    exists|i: int|
        0 <= i < c.entities.len() && (#[trigger] c.entities[i]).id == handle
            && document::sanitized_label(c.entities[i].kind) == Some(label) && forall|j: int|
            i < j < c.entities.len() ==> (#[trigger] c.entities[j]).id != handle
}

/// Is a row the edge of a relation of a chunk: of its type, from the entity that it names
/// first to the one that it names second?
pub open spec fn is_edge_of(
    path: Seq<char>,
    c: ChunkModel,
    r: RelationModel,
    p: RelationPlanModel,
    row: RelationDataModel,
) -> bool {
    &&& document::sanitized_rel(r.kind) == Some(p.rel_type)
    &&& handle_has_label(c, r.from, p.from_label)
    &&& handle_has_label(c, r.to, p.to_label)
    &&& p.from_key == "id"@ && p.to_key == "id"@
    &&& row.from_id == LiteralModel::Str(document::entity_id(path, c.id, r.from))
    &&& row.to_id == LiteralModel::Str(document::entity_id(path, c.id, r.to))
}

/// What the handler of semantic texts is asked on a text of a node.
pub open spec fn asked_of_text(
    label: Seq<char>,
    id: Seq<char>,
    field: Seq<char>,
    s: Seq<char>,
) -> IngestInputModel {
    IngestInputModel {
        label,
        key_field: "id"@,
        key_value: LiteralModel::Str(id),
        field,
        value: JsonModel::Str(s),
        prefix_index: None,
    }
}

/// Is a text stored under a field as its handler answers: as it is where it is left
/// untouched, the replacement where there is one, and not at all where it is skipped?
pub open spec fn text_is_kept<R: TypeRegistry>(
    registry: R,
    label: Seq<char>,
    id: Seq<char>,
    field: Seq<char>,
    s: Seq<char>,
    props: Seq<(Seq<char>, LiteralModel)>,
) -> bool {
    let answer = registry.answer("SemanticText"@, asked_of_text(label, id, field, s));
    answer is Ok && strmap::assoc_get(props, field) == (match answer->Ok_0.stored {
        StoredModel::Untouched => Some(LiteralModel::Str(s)),
        StoredModel::Replaced(x) => Some(x),
        StoredModel::Skipped => None,
    })
}

/// Is a row the node of the chunk at a place of a document?
pub open spec fn is_chunk_node<R: TypeRegistry>(
    registry: R,
    path: Seq<char>,
    c: ChunkModel,
    at: int,
    row: NodeDataModel,
) -> bool {
    let id = document::chunk_id(path, c.id);
    &&& row.id == LiteralModel::Str(id)
    &&& strmap::assoc_get(row.props, "index"@) == Some(LiteralModel::Int(at as i64))
    &&& strmap::assoc_get(row.props, "document_path"@) == Some(LiteralModel::Str(path))
    &&& strmap::assoc_get(row.props, "local_id"@) == Some(LiteralModel::Str(c.id))
    &&& text_is_kept(registry, "Chunk"@, id, "text"@, c.text, row.props)
}

/// Is a row the node of an entity of a chunk, under a label?
pub open spec fn is_entity_node<R: TypeRegistry>(
    registry: R,
    path: Seq<char>,
    c: ChunkModel,
    e: EntityModel,
    label: Seq<char>,
    row: NodeDataModel,
) -> bool {
    let id = document::entity_id(path, c.id, e.id);
    &&& document::sanitized_label(e.kind) == Some(label)
    &&& row.id == LiteralModel::Str(id)
    &&& strmap::assoc_get(row.props, "id"@) == Some(LiteralModel::Str(id))
    &&& strmap::assoc_get(row.props, "type"@) == Some(LiteralModel::Str(e.kind))
    &&& text_is_kept(registry, label, id, "name"@, e.name, row.props)
}

/// Is a row the mention of an entity, of a label, by its chunk?
pub open spec fn is_mention(
    path: Seq<char>,
    c: ChunkModel,
    e: EntityModel,
    label: Seq<char>,
    row: RelationDataModel,
) -> bool {
    document::sanitized_label(e.kind) == Some(label) && row.from_id == LiteralModel::Str(
        document::chunk_id(path, c.id),
    ) && row.to_id == LiteralModel::Str(document::entity_id(path, c.id, e.id))
}

/// Is a row the link from a document to a chunk of it?
pub open spec fn is_chunk_link(path: Seq<char>, c: ChunkModel, row: RelationDataModel) -> bool {
    row.from_id == LiteralModel::Str(path) && row.to_id == LiteralModel::Str(
        document::chunk_id(path, c.id),
    )
}

// What a walk has gathered, and what it will not lose.
spec fn has_entity(g: Gathered, label: Seq<char>, row: NodeDataModel) -> bool {
    strmap::assoc_group(g.entities, label).contains(row)
}

spec fn has_mention(g: Gathered, label: Seq<char>, row: RelationDataModel) -> bool {
    strmap::assoc_group(g.mentions, label).contains(row)
}

spec fn has_edge(g: Gathered, k: Seq<Seq<char>>, row: RelationDataModel) -> bool {
    laws::in_group(g.user_rels, k, row)
}

spec fn grows(g: Gathered, h: Gathered) -> bool {
    &&& forall|x: NodeDataModel|
        g.chunk_rows.contains(x) ==> #[trigger] h.chunk_rows.contains(x)
    &&& forall|x: RelationDataModel|
        g.has_chunk_rows.contains(x) ==> #[trigger] h.has_chunk_rows.contains(x)
    &&& forall|l: Seq<char>, x: NodeDataModel| has_entity(g, l, x) ==> #[trigger] has_entity(h, l, x)
    &&& forall|l: Seq<char>, x: RelationDataModel|
        has_mention(g, l, x) ==> #[trigger] has_mention(h, l, x)
    &&& forall|k: Seq<Seq<char>>, x: RelationDataModel|
        has_edge(g, k, x) ==> #[trigger] has_edge(h, k, x)
}

proof fn push_keeps_items<T>(s: Seq<T>, x: T)
    ensures
        forall|y: T| s.contains(y) ==> #[trigger] s.push(x).contains(y),
        s.push(x).contains(x),
{
    assert forall|y: T| s.contains(y) implies #[trigger] s.push(x).contains(y) by {
        let i = choose|i: int| 0 <= i < s.len() && s[i] == y;
        assert(s.push(x)[i] == y);
    }
    assert(s.push(x)[s.len() as int] == x);
}

proof fn assoc_push_keeps<T>(s: Seq<(Seq<char>, Seq<T>)>, k: Seq<char>, x: T)
    ensures
        forall|l: Seq<char>, y: T|
            strmap::assoc_group(s, l).contains(y) ==> #[trigger] strmap::assoc_group(
                strmap::assoc_push(s, k, x),
                l,
            ).contains(y),
        strmap::assoc_group(strmap::assoc_push(s, k, x), k).contains(x),
{
    let t = strmap::assoc_push(s, k, x);
    let group = strmap::assoc_group(s, k);
    push_keeps_items(group, x);
    strmap::law_get_after_insert(s, k, group.push(x));
    assert forall|l: Seq<char>, y: T| strmap::assoc_group(s, l).contains(y) implies
        #[trigger] strmap::assoc_group(t, l).contains(y) by {
        if l != k {
            strmap::law_get_other_after_insert(s, k, group.push(x), l);
        } else {
            assert(group.push(x).contains(y));
        }
    }
}

proof fn opening_grows<R: TypeRegistry>(
    registry: R,
    path: Seq<char>,
    at: int,
    c: ChunkModel,
    w: Walk,
)
    ensures
        ({
            let v = document::chunk_opened(registry, path, at, c, w);
            &&& grows(w.gathered, v.gathered)
            &&& v.error is None ==> has_chunk(registry, path, c, at, v.gathered)
        }),
{
    let v = document::chunk_opened(registry, path, at, c, w);
    let g = w.gathered;
    let h = v.gathered;
    if v.error is None {
        push_keeps_items(g.chunk_rows, h.chunk_rows.last());
        push_keeps_items(g.has_chunk_rows, h.has_chunk_rows.last());
        assert(h.chunk_rows == g.chunk_rows.push(h.chunk_rows.last()));
        assert(h.has_chunk_rows == g.has_chunk_rows.push(h.has_chunk_rows.last()));
        chunk_row_is_right(registry, path, at, c);
        assert(is_chunk_node(registry, path, c, at, h.chunk_rows.last()));
        assert(is_chunk_link(path, c, h.has_chunk_rows.last()));
    }
}

/// Has a walk gathered the node of a chunk, and the link to it?
spec fn has_chunk<R: TypeRegistry>(
    registry: R,
    path: Seq<char>,
    c: ChunkModel,
    at: int,
    g: Gathered,
) -> bool {
    (exists|row: NodeDataModel| #[trigger]
        g.chunk_rows.contains(row) && is_chunk_node(registry, path, c, at, row)) && (exists|
        row: RelationDataModel,
    | #[trigger] g.has_chunk_rows.contains(row) && is_chunk_link(path, c, row))
}

proof fn semantic_name()
    ensures
        crate::types::SEMANTIC_TEXT@ == "SemanticText"@,
        document::CHUNK_LABEL@ == "Chunk"@,
{
    reveal_strlit("SemanticText");
    reveal_strlit("Chunk");
}

proof fn chunk_row_is_right<R: TypeRegistry>(registry: R, path: Seq<char>, at: int, c: ChunkModel)
    requires
        document::semantic_text(
            registry,
            document::CHUNK_LABEL@,
            LiteralModel::Str(document::chunk_id(path, c.id)),
            "text"@,
            c.text,
        ) is Ok,
    ensures
        ({
            let key = LiteralModel::Str(document::chunk_id(path, c.id));
            let kept = document::semantic_text(
                registry,
                document::CHUNK_LABEL@,
                key,
                "text"@,
                c.text,
            )->Ok_0.0;
            is_chunk_node(
                registry,
                path,
                c,
                at,
                NodeDataModel { id: key, props: document::chunk_props(path, c.id, at, kept) },
            )
        }),
{
    semantic_name();
    reveal_strlit("text");
    reveal_strlit("index");
    reveal_strlit("document_path");
    reveal_strlit("local_id");
    assert("text"@.len() == 4 && "index"@.len() == 5 && "document_path"@.len() == 13
        && "local_id"@.len() == 8);
    let id = document::chunk_id(path, c.id);
    let kept = document::semantic_text(
        registry,
        document::CHUNK_LABEL@,
        LiteralModel::Str(id),
        "text"@,
        c.text,
    )->Ok_0.0;
    let p0 = Seq::<(Seq<char>, LiteralModel)>::empty();
    let p1 = match kept {
        Some(x) => strmap::assoc_insert(p0, "text"@, x),
        None => p0,
    };
    if let Some(x) = kept {
        strmap::law_get_after_insert(p0, "text"@, x);
    }
    let index = LiteralModel::Int(at as i64);
    let p2 = strmap::assoc_insert(p1, "index"@, index);
    strmap::law_get_after_insert(p1, "index"@, index);
    strmap::law_get_other_after_insert(p1, "index"@, index, "text"@);
    let p3 = strmap::assoc_insert(p2, "document_path"@, LiteralModel::Str(path));
    strmap::law_get_after_insert(p2, "document_path"@, LiteralModel::Str(path));
    strmap::law_get_other_after_insert(p2, "document_path"@, LiteralModel::Str(path), "text"@);
    strmap::law_get_other_after_insert(p2, "document_path"@, LiteralModel::Str(path), "index"@);
    let last = LiteralModel::Str(c.id);
    strmap::law_get_after_insert(p3, "local_id"@, last);
    strmap::law_get_other_after_insert(p3, "local_id"@, last, "text"@);
    strmap::law_get_other_after_insert(p3, "local_id"@, last, "index"@);
    strmap::law_get_other_after_insert(p3, "local_id"@, last, "document_path"@);
}

proof fn entity_row_is_right<R: TypeRegistry>(
    registry: R,
    path: Seq<char>,
    c: ChunkModel,
    e: EntityModel,
    label: Seq<char>,
)
    requires
        document::sanitized_label(e.kind) == Some(label),
        document::semantic_text(
            registry,
            label,
            LiteralModel::Str(document::entity_id(path, c.id, e.id)),
            "name"@,
            e.name,
        ) is Ok,
    ensures
        ({
            let id = document::entity_id(path, c.id, e.id);
            let key = LiteralModel::Str(id);
            let kept = document::semantic_text(registry, label, key, "name"@, e.name)->Ok_0.0;
            is_entity_node(
                registry,
                path,
                c,
                e,
                label,
                NodeDataModel { id: key, props: document::entity_props(id, e.kind, kept) },
            )
        }),
{
    semantic_name();
    reveal_strlit("id");
    reveal_strlit("name");
    reveal_strlit("type");
    assert("id"@.len() == 2 && "name"@.len() == 4 && "type"@.len() == 4);
    assert("name"@[0] == 'n' && "type"@[0] == 't');
    let id = document::entity_id(path, c.id, e.id);
    let key = LiteralModel::Str(id);
    let kept = document::semantic_text(registry, label, key, "name"@, e.name)->Ok_0.0;
    let p0 = Seq::<(Seq<char>, LiteralModel)>::empty();
    let p1 = strmap::assoc_insert(p0, "id"@, key);
    strmap::law_get_after_insert(p0, "id"@, key);
    strmap::law_get_other_after_insert(p0, "id"@, key, "name"@);
    let p2 = match kept {
        Some(x) => strmap::assoc_insert(p1, "name"@, x),
        None => p1,
    };
    if let Some(x) = kept {
        strmap::law_get_after_insert(p1, "name"@, x);
        strmap::law_get_other_after_insert(p1, "name"@, x, "id"@);
    }
    let kind = LiteralModel::Str(e.kind);
    strmap::law_get_after_insert(p2, "type"@, kind);
    strmap::law_get_other_after_insert(p2, "type"@, kind, "id"@);
    strmap::law_get_other_after_insert(p2, "type"@, kind, "name"@);
}

/// Has a walk gathered the node of an entity, and the mention of it?
spec fn has_mentioned<R: TypeRegistry>(
    registry: R,
    path: Seq<char>,
    c: ChunkModel,
    e: EntityModel,
    g: Gathered,
) -> bool {
    let label = document::sanitized_label(e.kind)->0;
    document::sanitized_label(e.kind) is Some && (exists|row: NodeDataModel| #[trigger]
        has_entity(g, label, row) && is_entity_node(registry, path, c, e, label, row)) && (exists|
        row: RelationDataModel,
    | #[trigger] has_mention(g, label, row) && is_mention(path, c, e, label, row))
}

proof fn growing_keeps_entity<R: TypeRegistry>(
    registry: R,
    path: Seq<char>,
    c: ChunkModel,
    e: EntityModel,
    g: Gathered,
    h: Gathered,
)
    requires
        grows(g, h),
        has_mentioned(registry, path, c, e, g),
    ensures
        has_mentioned(registry, path, c, e, h),
{
    let label = document::sanitized_label(e.kind)->0;
    let row = choose|row: NodeDataModel| #[trigger]
        has_entity(g, label, row) && is_entity_node(registry, path, c, e, label, row);
    assert(has_entity(h, label, row));
    let m = choose|row: RelationDataModel| #[trigger]
        has_mention(g, label, row) && is_mention(path, c, e, label, row);
    assert(has_mention(h, label, m));
}

proof fn growing_keeps_chunk<R: TypeRegistry>(
    registry: R,
    path: Seq<char>,
    c: ChunkModel,
    at: int,
    g: Gathered,
    h: Gathered,
)
    requires
        grows(g, h),
        has_chunk(registry, path, c, at, g),
    ensures
        has_chunk(registry, path, c, at, h),
{
    let row = choose|row: NodeDataModel| #[trigger]
        g.chunk_rows.contains(row) && is_chunk_node(registry, path, c, at, row);
    assert(h.chunk_rows.contains(row));
    let m = choose|row: RelationDataModel| #[trigger]
        g.has_chunk_rows.contains(row) && is_chunk_link(path, c, row);
    assert(h.has_chunk_rows.contains(m));
}

/// The entity of the first `n` of a chunk that a handle stands for.
spec fn names_last(c: ChunkModel, n: int, h: Seq<char>, i: int) -> bool {
    0 <= i < n && c.entities[i].id == h && forall|j: int|
        i < j < n ==> (#[trigger] c.entities[j]).id != h
}

spec fn handle_is_right(path: Seq<char>, c: ChunkModel, n: int, local: LocalModel, h: Seq<char>) -> bool {
    match strmap::assoc_get(local, h) {
        Some(x) => x.1 == document::entity_id(path, c.id, h) && exists|i: int| #[trigger]
            names_last(c, n, h, i) && document::sanitized_label(c.entities[i].kind) == Some(x.0),
        None => true,
    }
}

proof fn adding_entities<R: TypeRegistry>(
    registry: R,
    path: Seq<char>,
    c: ChunkModel,
    n: nat,
    w: Walk,
)
    requires
        n <= c.entities.len(),
    ensures
        ({
            let (v, local) = document::entities_added(registry, path, c, n, w);
            &&& grows(w.gathered, v.gathered)
            &&& v.error is None ==> w.error is None && (forall|i: int|
                0 <= i < n ==> has_mentioned(
                    registry,
                    path,
                    c,
                    #[trigger] c.entities[i],
                    v.gathered,
                )) && (forall|h: Seq<char>| #[trigger]
                handle_is_right(path, c, n as int, local, h))
        }),
    decreases n,
{
    let (v, local) = document::entities_added(registry, path, c, n, w);
    if n > 0 {
        let m = (n - 1) as nat;
        adding_entities(registry, path, c, m, w);
        let (u, known) = document::entities_added(registry, path, c, m, w);
        let e = c.entities[n - 1];
        let g = u.gathered;
        let h = v.gathered;
        if v.error is None {
            let label = document::sanitized_label(e.kind)->0;
            let id = document::entity_id(path, c.id, e.id);
            let key = LiteralModel::Str(id);
            let kept = document::semantic_text(registry, label, key, "name"@, e.name)->Ok_0.0;
            let row = NodeDataModel { id: key, props: document::entity_props(id, e.kind, kept) };
            let mention = RelationDataModel {
                from_id: LiteralModel::Str(document::chunk_id(path, c.id)),
                to_id: key,
            };
            assoc_push_keeps(g.entities, label, row);
            assoc_push_keeps(g.mentions, label, mention);
            entity_row_is_right(registry, path, c, e, label);
            assert forall|l: Seq<char>, x: NodeDataModel| has_entity(g, l, x) implies
                #[trigger] has_entity(h, l, x) by {}
            assert forall|l: Seq<char>, x: RelationDataModel| has_mention(g, l, x) implies
                #[trigger] has_mention(h, l, x) by {}
            assert(grows(g, h));
            assert(has_entity(h, label, row));
            assert(has_mention(h, label, mention));
            assert(has_mentioned(registry, path, c, e, h));
            assert forall|i: int| 0 <= i < n implies has_mentioned(
                registry,
                path,
                c,
                #[trigger] c.entities[i],
                h,
            ) by {
                if i < m {
                    growing_keeps_entity(registry, path, c, c.entities[i], g, h);
                }
            }
            assert forall|k: Seq<char>| #[trigger] handle_is_right(path, c, n as int, local, k) by {
                if k == e.id {
                    strmap::law_get_after_insert(known, e.id, (label, id));
                    assert(names_last(c, n as int, k, n - 1));
                } else {
                    strmap::law_get_other_after_insert(known, e.id, (label, id), k);
                    assert(handle_is_right(path, c, m as int, known, k));
                    if let Some(x) = strmap::assoc_get(known, k) {
                        let i = choose|i: int| #[trigger]
                            names_last(c, m as int, k, i) && document::sanitized_label(
                                c.entities[i].kind,
                            ) == Some(x.0);
                        assert(names_last(c, n as int, k, i));
                    }
                }
            }
        }
    }
}

/// Has a walk gathered the edge of a relation of a chunk?
spec fn has_related(path: Seq<char>, c: ChunkModel, r: RelationModel, g: Gathered) -> bool {
    exists|k: Seq<Seq<char>>, row: RelationDataModel| #[trigger]
        has_edge(g, k, row) && edge_is_right(path, c, r, k, row)
}

spec fn edge_is_right(
    path: Seq<char>,
    c: ChunkModel,
    r: RelationModel,
    k: Seq<Seq<char>>,
    row: RelationDataModel,
) -> bool {
    &&& k.len() == 3
    &&& document::sanitized_rel(r.kind) == Some(k[0])
    &&& handle_has_label(c, r.from, k[1])
    &&& handle_has_label(c, r.to, k[2])
    &&& row.from_id == LiteralModel::Str(document::entity_id(path, c.id, r.from))
    &&& row.to_id == LiteralModel::Str(document::entity_id(path, c.id, r.to))
}

proof fn handle_is_labelled(path: Seq<char>, c: ChunkModel, local: LocalModel, h: Seq<char>)
    requires
        handle_is_right(path, c, c.entities.len() as int, local, h),
        strmap::assoc_get(local, h) is Some,
    ensures
        handle_has_label(c, h, (strmap::assoc_get(local, h)->0).0),
        (strmap::assoc_get(local, h)->0).1 == document::entity_id(path, c.id, h),
{
    let x = strmap::assoc_get(local, h)->0;
    let i = choose|i: int| #[trigger]
        names_last(c, c.entities.len() as int, h, i) && document::sanitized_label(
            c.entities[i].kind,
        ) == Some(x.0);
    assert(c.entities[i].id == h);
}

proof fn growing_keeps_edge(path: Seq<char>, c: ChunkModel, r: RelationModel, g: Gathered, h: Gathered)
    requires
        grows(g, h),
        has_related(path, c, r, g),
    ensures
        has_related(path, c, r, h),
{
    let (k, row) = choose|k: Seq<Seq<char>>, row: RelationDataModel| #[trigger]
        has_edge(g, k, row) && edge_is_right(path, c, r, k, row);
    assert(has_edge(h, k, row));
}

proof fn adding_relations(path: Seq<char>, c: ChunkModel, local: LocalModel, n: nat, w: Walk)
    requires
        n <= c.relations.len(),
        forall|h: Seq<char>| #[trigger]
            handle_is_right(path, c, c.entities.len() as int, local, h),
    ensures
        ({
            let v = document::relations_added(c, local, n, w);
            &&& grows(w.gathered, v.gathered)
            &&& v.error is None ==> w.error is None && (forall|i: int|
                0 <= i < n ==> has_related(path, c, #[trigger] c.relations[i], v.gathered))
        }),
    decreases n,
{
    let v = document::relations_added(c, local, n, w);
    if n > 0 {
        let m = (n - 1) as nat;
        adding_relations(path, c, local, m, w);
        let u = document::relations_added(c, local, m, w);
        let r = c.relations[n - 1];
        let g = u.gathered;
        let h = v.gathered;
        if v.error is None {
            let from = strmap::assoc_get(local, r.from)->0;
            let to = strmap::assoc_get(local, r.to)->0;
            assert(handle_is_right(path, c, c.entities.len() as int, local, r.from));
            assert(handle_is_right(path, c, c.entities.len() as int, local, r.to));
            handle_is_labelled(path, c, local, r.from);
            handle_is_labelled(path, c, local, r.to);
            added_relation_is_right(path, c, local, r, u);
            let (k, row) = choose|k: Seq<Seq<char>>, row: RelationDataModel|
                h.user_rels == #[trigger] groups::group_push(g.user_rels, k, row) && edge_is_right(
                    path,
                    c,
                    r,
                    k,
                    row,
                );
            laws::push_is_in_group(g.user_rels, k, row);
            assert forall|k2: Seq<Seq<char>>, x: RelationDataModel| has_edge(g, k2, x) implies
                #[trigger] has_edge(h, k2, x) by {
                laws::push_keeps_groups(g.user_rels, k, row, k2, x);
            }
            assert forall|l: Seq<char>, x: NodeDataModel| has_entity(g, l, x) implies
                #[trigger] has_entity(h, l, x) by {}
            assert forall|l: Seq<char>, x: RelationDataModel| has_mention(g, l, x) implies
                #[trigger] has_mention(h, l, x) by {}
            assert(grows(g, h));
            assert(has_edge(h, k, row));
            assert forall|i: int| 0 <= i < n implies has_related(
                path,
                c,
                #[trigger] c.relations[i],
                h,
            ) by {
                if i < m {
                    growing_keeps_edge(path, c, c.relations[i], g, h);
                }
            }
        }
    }
}

/// A relation that was added is one more edge, in its place.
proof fn added_relation_is_right(
    path: Seq<char>,
    c: ChunkModel,
    local: LocalModel,
    r: RelationModel,
    w: Walk,
)
    requires
        w.error is None,
        document::relation_added(c, local, r, w).error is None,
        handle_has_label(c, r.from, (strmap::assoc_get(local, r.from)->0).0),
        handle_has_label(c, r.to, (strmap::assoc_get(local, r.to)->0).0),
        (strmap::assoc_get(local, r.from)->0).1 == document::entity_id(path, c.id, r.from),
        (strmap::assoc_get(local, r.to)->0).1 == document::entity_id(path, c.id, r.to),
    ensures
        ({
            let h = document::relation_added(c, local, r, w).gathered;
            let g = w.gathered;
            &&& exists|k: Seq<Seq<char>>, row: RelationDataModel|
                h.user_rels == #[trigger] groups::group_push(g.user_rels, k, row) && edge_is_right(
                    path,
                    c,
                    r,
                    k,
                    row,
                )
            &&& h.chunk_rows == g.chunk_rows && h.has_chunk_rows == g.has_chunk_rows && h.entities
                == g.entities && h.mentions == g.mentions
        }),
{
    let h = document::relation_added(c, local, r, w).gathered;
    let from = strmap::assoc_get(local, r.from)->0;
    let to = strmap::assoc_get(local, r.to)->0;
    let kind = document::sanitized_rel(r.kind)->0;
    let k = seq![kind, from.0, to.0];
    let row = RelationDataModel {
        from_id: LiteralModel::Str(from.1),
        to_id: LiteralModel::Str(to.1),
    };
    assert(h.user_rels == groups::group_push(w.gathered.user_rels, k, row));
    assert(edge_is_right(path, c, r, k, row));
}

/// Has a walk gathered a whole chunk?
spec fn has_all_of<R: TypeRegistry>(
    registry: R,
    path: Seq<char>,
    c: ChunkModel,
    at: int,
    g: Gathered,
) -> bool {
    &&& has_chunk(registry, path, c, at, g)
    &&& forall|i: int|
        0 <= i < c.entities.len() ==> has_mentioned(registry, path, c, #[trigger] c.entities[i], g)
    &&& forall|i: int|
        0 <= i < c.relations.len() ==> has_related(path, c, #[trigger] c.relations[i], g)
}

proof fn walking_gathers_all<R: TypeRegistry>(registry: R, doc: DocumentModel, n: nat)
    requires
        n <= doc.chunks.len(),
    ensures
        ({
            let w = document::walked(registry, doc, n);
            w.error is None ==> forall|i: int|
                0 <= i < n ==> has_all_of(
                    registry,
                    doc.path,
                    #[trigger] doc.chunks[i],
                    i,
                    w.gathered,
                )
        }),
    decreases n,
{
    let w = document::walked(registry, doc, n);
    if n > 0 && w.error is None {
        let m = (n - 1) as nat;
        let c = doc.chunks[n - 1];
        let path = doc.path;
        walking_gathers_all(registry, doc, m);
        let before = document::walked(registry, doc, m);
        let opened = document::chunk_opened(registry, path, n - 1, c, before);
        let (v, local) = document::entities_added(registry, path, c, c.entities.len(), opened);
        opening_grows(registry, path, n - 1, c, before);
        adding_entities(registry, path, c, c.entities.len(), opened);
        if v.error is None {
            adding_relations(path, c, local, c.relations.len(), v);
        } else {
            relations_stay_failed(c, local, c.relations.len(), v);
        }
        growth_chains(before.gathered, opened.gathered, v.gathered);
        growth_chains(before.gathered, v.gathered, w.gathered);
        growing_keeps_chunk(registry, path, c, n - 1, opened.gathered, v.gathered);
        growing_keeps_chunk(registry, path, c, n - 1, v.gathered, w.gathered);
        assert forall|i: int| 0 <= i < c.entities.len() implies has_mentioned(
            registry,
            path,
            c,
            #[trigger] c.entities[i],
            w.gathered,
        ) by {
            growing_keeps_entity(registry, path, c, c.entities[i], v.gathered, w.gathered);
        }
        assert(has_all_of(registry, path, c, n - 1, w.gathered));
        assert forall|i: int| 0 <= i < n implies has_all_of(
            registry,
            path,
            #[trigger] doc.chunks[i],
            i,
            w.gathered,
        ) by {
            if i < m {
                growing_keeps_all(
                    registry,
                    path,
                    doc.chunks[i],
                    i,
                    before.gathered,
                    w.gathered,
                );
            }
        }
    }
}

proof fn relations_stay_failed(c: ChunkModel, local: LocalModel, n: nat, w: Walk)
    requires
        w.error is Some,
    ensures
        document::relations_added(c, local, n, w) == w,
    decreases n,
{
    if n > 0 {
        relations_stay_failed(c, local, (n - 1) as nat, w);
    }
}

proof fn growth_chains(a: Gathered, b: Gathered, c: Gathered)
    requires
        grows(a, b),
        grows(b, c),
    ensures
        grows(a, c),
{
    assert forall|x: NodeDataModel| a.chunk_rows.contains(x) implies
        #[trigger] c.chunk_rows.contains(x) by {
        assert(b.chunk_rows.contains(x));
    }
    assert forall|x: RelationDataModel| a.has_chunk_rows.contains(x) implies
        #[trigger] c.has_chunk_rows.contains(x) by {
        assert(b.has_chunk_rows.contains(x));
    }
    assert forall|l: Seq<char>, x: NodeDataModel| has_entity(a, l, x) implies
        #[trigger] has_entity(c, l, x) by {
        assert(has_entity(b, l, x));
    }
    assert forall|l: Seq<char>, x: RelationDataModel| has_mention(a, l, x) implies
        #[trigger] has_mention(c, l, x) by {
        assert(has_mention(b, l, x));
    }
    assert forall|k: Seq<Seq<char>>, x: RelationDataModel| has_edge(a, k, x) implies
        #[trigger] has_edge(c, k, x) by {
        assert(has_edge(b, k, x));
    }
}

proof fn growing_keeps_all<R: TypeRegistry>(
    registry: R,
    path: Seq<char>,
    c: ChunkModel,
    at: int,
    g: Gathered,
    h: Gathered,
)
    requires
        grows(g, h),
        has_all_of(registry, path, c, at, g),
    ensures
        has_all_of(registry, path, c, at, h),
{
    growing_keeps_chunk(registry, path, c, at, g, h);
    assert forall|i: int| 0 <= i < c.entities.len() implies has_mentioned(
        registry,
        path,
        c,
        #[trigger] c.entities[i],
        h,
    ) by {
        growing_keeps_entity(registry, path, c, c.entities[i], g, h);
    }
    assert forall|i: int| 0 <= i < c.relations.len() implies has_related(
        path,
        c,
        #[trigger] c.relations[i],
        h,
    ) by {
        growing_keeps_edge(path, c, c.relations[i], g, h);
    }
}

/// Has a plan the edge of a relation of a chunk?
pub open spec fn plans_edge(
    plan: InsertPlanModel,
    path: Seq<char>,
    c: ChunkModel,
    r: RelationModel,
) -> bool {
    exists|i: int, j: int|
        0 <= i < plan.relations.len() && 0 <= j < plan.relations[i].rows.len() && is_edge_of(
            path,
            c,
            r,
            plan.relations[i],
            #[trigger] plan.relations[i].rows[j],
        )
}

/// Has a plan the node of an entity, and the mention of it by its chunk?
pub open spec fn plans_entity<R: TypeRegistry>(
    registry: R,
    plan: InsertPlanModel,
    path: Seq<char>,
    c: ChunkModel,
    e: EntityModel,
) -> bool {
    &&& exists|i: int, j: int|
        0 <= i < plan.nodes.len() && 0 <= j < plan.nodes[i].rows.len() && plan.nodes[i].merge_on
            == "id"@ && is_entity_node(
            registry,
            path,
            c,
            e,
            plan.nodes[i].label,
            #[trigger] plan.nodes[i].rows[j],
        )
    &&& exists|i: int, j: int|
        0 <= i < plan.relations.len() && 0 <= j < plan.relations[i].rows.len()
            && plan.relations[i].rel_type == "MENTIONS"@ && plan.relations[i].from_label == "Chunk"@
            && plan.relations[i].from_key == "id"@ && plan.relations[i].to_key == "id"@
            && is_mention(
            path,
            c,
            e,
            plan.relations[i].to_label,
            #[trigger] plan.relations[i].rows[j],
        )
}

/// Has a plan the node of a chunk, and the link to it from the document?
pub open spec fn plans_chunk<R: TypeRegistry>(
    registry: R,
    plan: InsertPlanModel,
    path: Seq<char>,
    c: ChunkModel,
    at: int,
) -> bool {
    &&& exists|i: int, j: int|
        0 <= i < plan.nodes.len() && 0 <= j < plan.nodes[i].rows.len() && plan.nodes[i].label
            == "Chunk"@ && plan.nodes[i].merge_on == "id"@ && is_chunk_node(
            registry,
            path,
            c,
            at,
            #[trigger] plan.nodes[i].rows[j],
        )
    &&& exists|i: int, j: int|
        0 <= i < plan.relations.len() && 0 <= j < plan.relations[i].rows.len()
            && plan.relations[i].rel_type == "HAS_CHUNK"@ && plan.relations[i].from_label
            == "Document"@ && plan.relations[i].from_key == "path"@ && plan.relations[i].to_label
            == "Chunk"@ && plan.relations[i].to_key == "id"@ && is_chunk_link(
            path,
            c,
            #[trigger] plan.relations[i].rows[j],
        )
}

/// Does a plan start with the node of the document, under its path and name?
pub open spec fn plans_document(plan: InsertPlanModel, doc: DocumentModel) -> bool {
    plan.nodes.len() > 0 && plan.nodes[0].label == "Document"@ && plan.nodes[0].merge_on == "path"@
        && plan.nodes[0].rows.len() == 1 && plan.nodes[0].rows[0].id == LiteralModel::Str(doc.path)
        && strmap::assoc_get(plan.nodes[0].rows[0].props, "path"@) == Some(
        LiteralModel::Str(doc.path),
    ) && strmap::assoc_get(plan.nodes[0].rows[0].props, "name"@) == Some(
        LiteralModel::Str(doc.name),
    )
}

proof fn own_names()
    ensures
        document::DOCUMENT_LABEL@ == "Document"@,
        document::CHUNK_LABEL@ == "Chunk"@,
        document::HAS_CHUNK_REL@ == "HAS_CHUNK"@,
        document::MENTIONS_REL@ == "MENTIONS"@,
{
}

proof fn related_is_planned(doc: DocumentModel, g: Gathered, c: ChunkModel, r: RelationModel)
    requires
        has_related(doc.path, c, r, g),
    ensures
        plans_edge(document::assembled(doc, g), doc.path, c, r),
{
    let plan = document::assembled(doc, g);
    let (k, row) = choose|k: Seq<Seq<char>>, row: RelationDataModel| #[trigger]
        has_edge(g, k, row) && edge_is_right(doc.path, c, r, k, row);
    let s = g.user_rels;
    let i = choose|i: int| 0 <= i < s.len() && (#[trigger] s[i]).0 == k && s[i].1.contains(row);
    let at = plan.relations.len() - s.len() + i;
    assert(plan.relations[at] == document::relation_plan(k[0], k[1], "id"@, k[2], s[i].1));
    sorting::sorting_keeps(s[i].1, dsl::relation_row_le(), row);
    let rows = plan.relations[at].rows;
    let j = choose|j: int| 0 <= j < rows.len() && rows[j] == row;
    assert(is_edge_of(doc.path, c, r, plan.relations[at], plan.relations[at].rows[j]));
}

proof fn mentioned_is_planned<R: TypeRegistry>(
    registry: R,
    doc: DocumentModel,
    g: Gathered,
    c: ChunkModel,
    e: EntityModel,
)
    requires
        has_mentioned(registry, doc.path, c, e, g),
    ensures
        plans_entity(registry, document::assembled(doc, g), doc.path, c, e),
{
    own_names();
    let plan = document::assembled(doc, g);
    let label = document::sanitized_label(e.kind)->0;
    let row = choose|row: NodeDataModel| #[trigger]
        has_entity(g, label, row) && is_entity_node(registry, doc.path, c, e, label, row);
    let i = strmap::get_is_an_entry(g.entities, label);
    let at = plan.nodes.len() - g.entities.len() + i;
    assert(plan.nodes[at] == document::node_plan(label, g.entities[i].1));
    sorting::sorting_keeps(g.entities[i].1, dsl::node_row_le(), row);
    let rows = plan.nodes[at].rows;
    let j = choose|j: int| 0 <= j < rows.len() && rows[j] == row;
    assert(plan.nodes[at].rows[j] == row);
    let m = choose|row: RelationDataModel| #[trigger]
        has_mention(g, label, row) && is_mention(doc.path, c, e, label, row);
    let i2 = strmap::get_is_an_entry(g.mentions, label);
    let at2 = plan.relations.len() - g.user_rels.len() - g.mentions.len() + i2;
    assert(plan.relations[at2] == document::relation_plan(
        document::MENTIONS_REL@,
        document::CHUNK_LABEL@,
        "id"@,
        label,
        g.mentions[i2].1,
    ));
    sorting::sorting_keeps(g.mentions[i2].1, dsl::relation_row_le(), m);
    let rows2 = plan.relations[at2].rows;
    let j2 = choose|j: int| 0 <= j < rows2.len() && rows2[j] == m;
    assert(plan.relations[at2].rows[j2] == m);
}

proof fn chunk_is_planned<R: TypeRegistry>(
    registry: R,
    doc: DocumentModel,
    g: Gathered,
    c: ChunkModel,
    at: int,
)
    requires
        has_chunk(registry, doc.path, c, at, g),
    ensures
        plans_chunk(registry, document::assembled(doc, g), doc.path, c, at),
{
    own_names();
    let plan = document::assembled(doc, g);
    let row = choose|row: NodeDataModel| #[trigger]
        g.chunk_rows.contains(row) && is_chunk_node(registry, doc.path, c, at, row);
    assert(g.chunk_rows.len() > 0);
    assert(plan.nodes[1] == document::node_plan(document::CHUNK_LABEL@, g.chunk_rows));
    sorting::sorting_keeps(g.chunk_rows, dsl::node_row_le(), row);
    let rows = plan.nodes[1].rows;
    let j = choose|j: int| 0 <= j < rows.len() && rows[j] == row;
    assert(plan.nodes[1].rows[j] == row);
    let m = choose|row: RelationDataModel| #[trigger]
        g.has_chunk_rows.contains(row) && is_chunk_link(doc.path, c, row);
    assert(g.has_chunk_rows.len() > 0);
    assert(plan.relations[0] == document::relation_plan(
        document::HAS_CHUNK_REL@,
        document::DOCUMENT_LABEL@,
        "path"@,
        document::CHUNK_LABEL@,
        g.has_chunk_rows,
    ));
    sorting::sorting_keeps(g.has_chunk_rows, dsl::relation_row_le(), m);
    let rows2 = plan.relations[0].rows;
    let j2 = choose|j: int| 0 <= j < rows2.len() && rows2[j] == m;
    assert(plan.relations[0].rows[j2] == m);
}

/// Nothing of a planned document is lost: the document has its node, every chunk its node
/// and its link from the document, every entity its node and its mention by its chunk, and
/// every relation its edge, from the entity that it names first to the one that it names
/// second.
#[verifier::rlimit(40)]
pub proof fn law_document_plan_is_complete<R: TypeRegistry>(
    registry: R,
    max_batch_size: usize,
    doc: DocumentModel,
)
    ensures
        match document::document_outcome(registry, max_batch_size, doc) {
            Ok(plan) => {
                &&& plans_document(plan, doc)
                &&& forall|i: int|
                    0 <= i < doc.chunks.len() ==> plans_chunk(
                        registry,
                        plan,
                        doc.path,
                        #[trigger] doc.chunks[i],
                        i,
                    )
                &&& forall|i: int, k: int|
                    0 <= i < doc.chunks.len() && 0 <= k < doc.chunks[i].entities.len()
                        ==> plans_entity(
                        registry,
                        plan,
                        doc.path,
                        doc.chunks[i],
                        #[trigger] doc.chunks[i].entities[k],
                    )
                &&& forall|i: int, k: int|
                    0 <= i < doc.chunks.len() && 0 <= k < doc.chunks[i].relations.len()
                        ==> plans_edge(
                        plan,
                        doc.path,
                        doc.chunks[i],
                        #[trigger] doc.chunks[i].relations[k],
                    )
            },
            Err(_) => true,
        },
{
    own_names();
    let w = document::walked(registry, doc, doc.chunks.len());
    if let Ok(plan) = document::document_outcome(registry, max_batch_size, doc) {
        let g = w.gathered;
        walking_gathers_all(registry, doc, doc.chunks.len());
        let p0 = Seq::<(Seq<char>, LiteralModel)>::empty();
        let p1 = strmap::assoc_insert(p0, "path"@, LiteralModel::Str(doc.path));
        reveal_strlit("path");
        reveal_strlit("name");
        assert("path"@[0] == 'p' && "name"@[0] == 'n');
        strmap::law_get_after_insert(p0, "path"@, LiteralModel::Str(doc.path));
        strmap::law_get_after_insert(p1, "name"@, LiteralModel::Str(doc.name));
        strmap::law_get_other_after_insert(p1, "name"@, LiteralModel::Str(doc.name), "path"@);
        assert(plan.nodes[0] == document::document_plan(doc));
        assert forall|i: int| 0 <= i < doc.chunks.len() implies plans_chunk(
            registry,
            plan,
            doc.path,
            #[trigger] doc.chunks[i],
            i,
        ) by {
            assert(has_all_of(registry, doc.path, doc.chunks[i], i, g));
            chunk_is_planned(registry, doc, g, doc.chunks[i], i);
        }
        assert forall|i: int, k: int|
            0 <= i < doc.chunks.len() && 0 <= k < doc.chunks[i].entities.len() implies plans_entity(
            registry,
            plan,
            doc.path,
            doc.chunks[i],
            #[trigger] doc.chunks[i].entities[k],
        ) by {
            assert(has_all_of(registry, doc.path, doc.chunks[i], i, g));
            mentioned_is_planned(registry, doc, g, doc.chunks[i], doc.chunks[i].entities[k]);
        }
        assert forall|i: int, k: int|
            0 <= i < doc.chunks.len() && 0 <= k < doc.chunks[i].relations.len() implies plans_edge(
            plan,
            doc.path,
            doc.chunks[i],
            #[trigger] doc.chunks[i].relations[k],
        ) by {
            assert(has_all_of(registry, doc.path, doc.chunks[i], i, g));
            related_is_planned(doc, g, doc.chunks[i], doc.chunks[i].relations[k]);
        }
    }
}

/// Is a row the node of one of the chunks of a document?
pub open spec fn is_of_a_chunk<R: TypeRegistry>(
    registry: R,
    doc: DocumentModel,
    row: NodeDataModel,
) -> bool {
    exists|i: int|
        0 <= i < doc.chunks.len() && is_chunk_node(
            registry,
            doc.path,
            #[trigger] doc.chunks[i],
            i,
            row,
        )
}

/// Is a row the link to one of the chunks of a document?
pub open spec fn is_link_of_a_chunk(doc: DocumentModel, row: RelationDataModel) -> bool {
    exists|i: int|
        0 <= i < doc.chunks.len() && is_chunk_link(doc.path, #[trigger] doc.chunks[i], row)
}

/// Is a row the node of one of the entities of a document, under a label?
pub open spec fn is_of_an_entity<R: TypeRegistry>(
    registry: R,
    doc: DocumentModel,
    label: Seq<char>,
    row: NodeDataModel,
) -> bool {
    exists|i: int, k: int|
        0 <= i < doc.chunks.len() && 0 <= k < doc.chunks[i].entities.len() && is_entity_node(
            registry,
            doc.path,
            doc.chunks[i],
            #[trigger] doc.chunks[i].entities[k],
            label,
            row,
        )
}

/// Is a row the mention of one of the entities of a document, of a label?
pub open spec fn is_mention_of_an_entity(
    doc: DocumentModel,
    label: Seq<char>,
    row: RelationDataModel,
) -> bool {
    exists|i: int, k: int|
        0 <= i < doc.chunks.len() && 0 <= k < doc.chunks[i].entities.len() && is_mention(
            doc.path,
            doc.chunks[i],
            #[trigger] doc.chunks[i].entities[k],
            label,
            row,
        )
}

/// Is a row of a plan the edge of one of the relations of a document?
pub open spec fn is_edge_of_a_relation(
    doc: DocumentModel,
    p: RelationPlanModel,
    row: RelationDataModel,
) -> bool {
    exists|i: int, k: int|
        0 <= i < doc.chunks.len() && 0 <= k < doc.chunks[i].relations.len() && is_edge_of(
            doc.path,
            doc.chunks[i],
            #[trigger] doc.chunks[i].relations[k],
            p,
            row,
        )
}

spec fn entity_rows_of<R: TypeRegistry>(registry: R, doc: DocumentModel) -> spec_fn(
    (Seq<char>, Seq<NodeDataModel>),
) -> bool {
    |x: (Seq<char>, Seq<NodeDataModel>)|
        forall|j: int|
            0 <= j < x.1.len() ==> is_of_an_entity(registry, doc, x.0, #[trigger] x.1[j])
}

spec fn mention_rows_of(doc: DocumentModel) -> spec_fn((Seq<char>, Seq<RelationDataModel>)) -> bool {
    |x: (Seq<char>, Seq<RelationDataModel>)|
        forall|j: int| 0 <= j < x.1.len() ==> is_mention_of_an_entity(doc, x.0, #[trigger] x.1[j])
}

spec fn edge_of(doc: DocumentModel) -> spec_fn(Seq<Seq<char>>, RelationDataModel) -> bool {
    |k: Seq<Seq<char>>, row: RelationDataModel|
        exists|i: int, m: int|
            0 <= i < doc.chunks.len() && 0 <= m < doc.chunks[i].relations.len() && edge_is_right(
                doc.path,
                doc.chunks[i],
                #[trigger] doc.chunks[i].relations[m],
                k,
                row,
            )
}

/// Is all that a walk has gathered of the document?
spec fn all_is_of<R: TypeRegistry>(registry: R, doc: DocumentModel, g: Gathered) -> bool {
    &&& forall|j: int|
        0 <= j < g.chunk_rows.len() ==> is_of_a_chunk(registry, doc, #[trigger] g.chunk_rows[j])
    &&& forall|j: int|
        0 <= j < g.has_chunk_rows.len() ==> is_link_of_a_chunk(doc, #[trigger] g.has_chunk_rows[j])
    &&& forall|i: int|
        0 <= i < g.entities.len() ==> entity_rows_of(registry, doc)(#[trigger] g.entities[i])
    &&& forall|i: int|
        0 <= i < g.mentions.len() ==> mention_rows_of(doc)(#[trigger] g.mentions[i])
    &&& laws::rows_hold(g.user_rels, edge_of(doc))
}

proof fn opening_adds_its_own<R: TypeRegistry>(registry: R, doc: DocumentModel, at: int, w: Walk)
    requires
        0 <= at < doc.chunks.len(),
        all_is_of(registry, doc, w.gathered),
    ensures
        all_is_of(
            registry,
            doc,
            document::chunk_opened(registry, doc.path, at, doc.chunks[at], w).gathered,
        ),
{
    let c = doc.chunks[at];
    let v = document::chunk_opened(registry, doc.path, at, c, w);
    let g = w.gathered;
    let h = v.gathered;
    if w.error is None && v.error is None {
        chunk_row_is_right(registry, doc.path, at, c);
        assert(is_chunk_node(registry, doc.path, doc.chunks[at], at, h.chunk_rows.last()));
        assert(is_chunk_link(doc.path, doc.chunks[at], h.has_chunk_rows.last()));
        assert forall|j: int| 0 <= j < h.chunk_rows.len() implies is_of_a_chunk(
            registry,
            doc,
            #[trigger] h.chunk_rows[j],
        ) by {
            if j < g.chunk_rows.len() {
                assert(h.chunk_rows[j] == g.chunk_rows[j]);
            }
        }
        assert forall|j: int| 0 <= j < h.has_chunk_rows.len() implies is_link_of_a_chunk(
            doc,
            #[trigger] h.has_chunk_rows[j],
        ) by {
            if j < g.has_chunk_rows.len() {
                assert(h.has_chunk_rows[j] == g.has_chunk_rows[j]);
            }
        }
    }
}

proof fn entities_add_their_own<R: TypeRegistry>(
    registry: R,
    doc: DocumentModel,
    at: int,
    n: nat,
    w: Walk,
)
    requires
        0 <= at < doc.chunks.len(),
        n <= doc.chunks[at].entities.len(),
        all_is_of(registry, doc, w.gathered),
    ensures
        all_is_of(
            registry,
            doc,
            document::entities_added(registry, doc.path, doc.chunks[at], n, w).0.gathered,
        ),
    decreases n,
{
    if n > 0 {
        let c = doc.chunks[at];
        let path = doc.path;
        let m = (n - 1) as nat;
        entities_add_their_own(registry, doc, at, m, w);
        let (u, known) = document::entities_added(registry, path, c, m, w);
        let (v, local) = document::entities_added(registry, path, c, n, w);
        let e = doc.chunks[at].entities[m as int];
        let g = u.gathered;
        let h = v.gathered;
        if u.error is None && v.error is None {
            let label = document::sanitized_label(e.kind)->0;
            let id = document::entity_id(path, c.id, e.id);
            let key = LiteralModel::Str(id);
            let kept = document::semantic_text(registry, label, key, "name"@, e.name)->Ok_0.0;
            let row = NodeDataModel { id: key, props: document::entity_props(id, e.kind, kept) };
            let mention = RelationDataModel {
                from_id: LiteralModel::Str(document::chunk_id(path, c.id)),
                to_id: key,
            };
            entity_row_is_right(registry, path, c, e, label);
            assert(is_of_an_entity(registry, doc, label, row));
            assert(is_mention(path, doc.chunks[at], doc.chunks[at].entities[m as int], label, mention));
            assert(is_mention_of_an_entity(doc, label, mention));
            let rows = strmap::assoc_group(g.entities, label);
            if strmap::assoc_get(g.entities, label) is Some {
                let i = strmap::get_is_an_entry(g.entities, label);
                assert(entity_rows_of(registry, doc)(g.entities[i]));
            }
            let more = rows.push(row);
            assert forall|j: int| 0 <= j < more.len() implies is_of_an_entity(
                registry,
                doc,
                label,
                #[trigger] more[j],
            ) by {
                if j < rows.len() {
                    assert(more[j] == rows[j]);
                }
            }
            assert(entity_rows_of(registry, doc)((label, more)));
            laws::insert_keeps_entries(g.entities, label, more, entity_rows_of(registry, doc));
            let said = strmap::assoc_group(g.mentions, label);
            if strmap::assoc_get(g.mentions, label) is Some {
                let i = strmap::get_is_an_entry(g.mentions, label);
                assert(mention_rows_of(doc)(g.mentions[i]));
            }
            let more_said = said.push(mention);
            assert forall|j: int| 0 <= j < more_said.len() implies is_mention_of_an_entity(
                doc,
                label,
                #[trigger] more_said[j],
            ) by {
                if j < said.len() {
                    assert(more_said[j] == said[j]);
                }
            }
            assert(mention_rows_of(doc)((label, more_said)));
            laws::insert_keeps_entries(g.mentions, label, more_said, mention_rows_of(doc));
        }
    }
}

proof fn relations_add_their_own<R: TypeRegistry>(
    registry: R,
    doc: DocumentModel,
    at: int,
    local: LocalModel,
    n: nat,
    w: Walk,
)
    requires
        0 <= at < doc.chunks.len(),
        n <= doc.chunks[at].relations.len(),
        all_is_of(registry, doc, w.gathered),
        w.error is None ==> forall|h: Seq<char>| #[trigger]
            handle_is_right(
                doc.path,
                doc.chunks[at],
                doc.chunks[at].entities.len() as int,
                local,
                h,
            ),
    ensures
        all_is_of(
            registry,
            doc,
            document::relations_added(doc.chunks[at], local, n, w).gathered,
        ),
    decreases n,
{
    if w.error is Some {
        relations_stay_failed(doc.chunks[at], local, n, w);
    } else if n > 0 {
        let c = doc.chunks[at];
        let m = (n - 1) as nat;
        relations_add_their_own(registry, doc, at, local, m, w);
        let u = document::relations_added(c, local, m, w);
        let v = document::relations_added(c, local, n, w);
        let r = doc.chunks[at].relations[m as int];
        if u.error is None && v.error is None {
            assert(handle_is_right(doc.path, c, c.entities.len() as int, local, r.from));
            assert(handle_is_right(doc.path, c, c.entities.len() as int, local, r.to));
            handle_is_labelled(doc.path, c, local, r.from);
            handle_is_labelled(doc.path, c, local, r.to);
            added_relation_is_right(doc.path, c, local, r, u);
            let (k, row) = choose|k: Seq<Seq<char>>, row: RelationDataModel|
                v.gathered.user_rels == #[trigger] groups::group_push(u.gathered.user_rels, k, row)
                    && edge_is_right(doc.path, c, r, k, row);
            assert(edge_is_right(doc.path, doc.chunks[at], doc.chunks[at].relations[m as int], k, row));
            assert(edge_of(doc)(k, row));
            laws::push_keeps_rows(u.gathered.user_rels, k, row, edge_of(doc));
        }
    }
}

proof fn walking_adds_nothing_else<R: TypeRegistry>(registry: R, doc: DocumentModel, n: nat)
    requires
        n <= doc.chunks.len(),
    ensures
        all_is_of(registry, doc, document::walked(registry, doc, n).gathered),
    decreases n,
{
    if n > 0 {
        let m = (n - 1) as nat;
        walking_adds_nothing_else(registry, doc, m);
        let c = doc.chunks[m as int];
        let before = document::walked(registry, doc, m);
        let opened = document::chunk_opened(registry, doc.path, m as int, c, before);
        opening_adds_its_own(registry, doc, m as int, before);
        entities_add_their_own(registry, doc, m as int, c.entities.len(), opened);
        adding_entities(registry, doc.path, c, c.entities.len(), opened);
        let (v, local) = document::entities_added(registry, doc.path, c, c.entities.len(), opened);
        relations_add_their_own(registry, doc, m as int, local, c.relations.len(), v);
    }
}

/// Is a row of a plan a node of the document: its own, that of a chunk, or that of an
/// entity?
pub open spec fn node_is_of<R: TypeRegistry>(
    registry: R,
    doc: DocumentModel,
    p: NodePlanModel,
    row: NodeDataModel,
) -> bool {
    ||| p.label == "Document"@ && p.merge_on == "path"@ && row.id == LiteralModel::Str(doc.path)
    ||| p.label == "Chunk"@ && p.merge_on == "id"@ && is_of_a_chunk(registry, doc, row)
    ||| p.merge_on == "id"@ && is_of_an_entity(registry, doc, p.label, row)
}

/// Is a row of a plan a relation of the document: the link to a chunk, the mention of an
/// entity, or the edge of a relation?
pub open spec fn relation_is_of(
    doc: DocumentModel,
    p: RelationPlanModel,
    row: RelationDataModel,
) -> bool {
    ||| p.rel_type == "HAS_CHUNK"@ && p.from_label == "Document"@ && p.from_key == "path"@
        && p.to_label == "Chunk"@ && p.to_key == "id"@ && is_link_of_a_chunk(doc, row)
    ||| p.rel_type == "MENTIONS"@ && p.from_label == "Chunk"@ && p.from_key == "id"@ && p.to_key
        == "id"@ && is_mention_of_an_entity(doc, p.to_label, row)
    ||| is_edge_of_a_relation(doc, p, row)
}

/// A planned document holds nothing but its own: every node is the document's, a chunk's or
/// an entity's, and every relation is the link to a chunk, the mention of an entity, or the
/// edge of a relation, from the entity that it names first to the one that it names second.
#[verifier::rlimit(40)]
pub proof fn law_document_plan_adds_nothing<R: TypeRegistry>(
    registry: R,
    max_batch_size: usize,
    doc: DocumentModel,
)
    ensures
        match document::document_outcome(registry, max_batch_size, doc) {
            Ok(plan) => {
                &&& forall|i: int, j: int|
                    0 <= i < plan.nodes.len() && 0 <= j < plan.nodes[i].rows.len() ==> node_is_of(
                        registry,
                        doc,
                        plan.nodes[i],
                        #[trigger] plan.nodes[i].rows[j],
                    )
                &&& forall|i: int, j: int|
                    0 <= i < plan.relations.len() && 0 <= j < plan.relations[i].rows.len()
                        ==> relation_is_of(
                        doc,
                        plan.relations[i],
                        #[trigger] plan.relations[i].rows[j],
                    )
            },
            Err(_) => true,
        },
{
    own_names();
    if let Ok(plan) = document::document_outcome(registry, max_batch_size, doc) {
        let g = document::walked(registry, doc, doc.chunks.len()).gathered;
        walking_adds_nothing_else(registry, doc, doc.chunks.len());
        assert forall|i: int, j: int|
            0 <= i < plan.nodes.len() && 0 <= j < plan.nodes[i].rows.len() implies node_is_of(
            registry,
            doc,
            plan.nodes[i],
            #[trigger] plan.nodes[i].rows[j],
        ) by {
            let row = plan.nodes[i].rows[j];
            assert(plan.nodes[i].rows.contains(row));
            let head = plan.nodes.len() - g.entities.len();
            if i >= head {
                let x = g.entities[i - head];
                assert(plan.nodes[i] == document::node_plan(x.0, x.1));
                sorting::sorting_adds_none(x.1, dsl::node_row_le(), row);
                let k = choose|k: int| 0 <= k < x.1.len() && x.1[k] == row;
                assert(entity_rows_of(registry, doc)(g.entities[i - head]));
                assert(is_of_an_entity(registry, doc, x.0, x.1[k]));
            } else if i == 0 {
                assert(plan.nodes[0] == document::document_plan(doc));
            } else {
                assert(plan.nodes[1] == document::node_plan(document::CHUNK_LABEL@, g.chunk_rows));
                sorting::sorting_adds_none(g.chunk_rows, dsl::node_row_le(), row);
                let k = choose|k: int| 0 <= k < g.chunk_rows.len() && g.chunk_rows[k] == row;
                assert(is_of_a_chunk(registry, doc, g.chunk_rows[k]));
            }
        }
        assert forall|i: int, j: int|
            0 <= i < plan.relations.len() && 0 <= j
                < plan.relations[i].rows.len() implies relation_is_of(
            doc,
            plan.relations[i],
            #[trigger] plan.relations[i].rows[j],
        ) by {
            planned_relation_is_of(registry, doc, g, i, j);
        }
    }
}

proof fn planned_relation_is_of<R: TypeRegistry>(
    registry: R,
    doc: DocumentModel,
    g: Gathered,
    i: int,
    j: int,
)
    requires
        all_is_of(registry, doc, g),
        0 <= i < document::assembled(doc, g).relations.len(),
        0 <= j < document::assembled(doc, g).relations[i].rows.len(),
    ensures
        relation_is_of(
            doc,
            document::assembled(doc, g).relations[i],
            document::assembled(doc, g).relations[i].rows[j],
        ),
{
    own_names();
    let plan = document::assembled(doc, g);
    let p = plan.relations[i];
    let row = p.rows[j];
    assert(p.rows.contains(row));
    let links = if g.has_chunk_rows.len() > 0 {
        1int
    } else {
        0
    };
    let mentions = g.mentions.len() as int;
    if i < links {
        sorting::sorting_adds_none(g.has_chunk_rows, dsl::relation_row_le(), row);
        let k = choose|k: int| 0 <= k < g.has_chunk_rows.len() && g.has_chunk_rows[k] == row;
        assert(is_link_of_a_chunk(doc, g.has_chunk_rows[k]));
    } else if i < links + mentions {
        let m = g.mentions[i - links];
        assert(p == document::relation_plan(
            document::MENTIONS_REL@,
            document::CHUNK_LABEL@,
            "id"@,
            m.0,
            m.1,
        ));
        sorting::sorting_adds_none(m.1, dsl::relation_row_le(), row);
        let k = choose|k: int| 0 <= k < m.1.len() && m.1[k] == row;
        assert(mention_rows_of(doc)(g.mentions[i - links]));
        assert(is_mention_of_an_entity(doc, m.0, m.1[k]));
    } else {
        let at = i - links - mentions;
        let u = g.user_rels[at];
        assert(p == document::relation_plan(u.0[0], u.0[1], "id"@, u.0[2], u.1));
        sorting::sorting_adds_none(u.1, dsl::relation_row_le(), row);
        let k = choose|k: int| 0 <= k < u.1.len() && u.1[k] == row;
        assert(edge_of(doc)(g.user_rels[at].0, g.user_rels[at].1[k]));
        let (a, b) = choose|a: int, b: int|
            0 <= a < doc.chunks.len() && 0 <= b < doc.chunks[a].relations.len() && edge_is_right(
                doc.path,
                doc.chunks[a],
                #[trigger] doc.chunks[a].relations[b],
                u.0,
                row,
            );
        assert(is_edge_of(doc.path, doc.chunks[a], doc.chunks[a].relations[b], p, row));
    }
}

} // verus!
