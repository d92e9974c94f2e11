//! When a document can be planned, what planning it sets off, and how its nodes are named.

use vstd::prelude::*;
use crate::ids;
use crate::ingest::document::ChunkModel;
use crate::ingest::document::DocumentModel;
use crate::ingest::document::EntityModel;
use crate::ingest::document::LocalModel;
use crate::ingest::document::RelationModel;
use crate::ingest::document::UUID_NAMESPACE;
use crate::ingest::document::Walk;
use crate::ingest::document;
use crate::ingest::document_laws;
use crate::ingest::error::IngestErrorModel;
use crate::literal::LiteralModel;
use crate::strmap;
use crate::text;
use crate::types::SideEffectModel;
use crate::types::TypeRegistry;

verus! {

broadcast use vstd::string::group_string_axioms;

/// Does the text of a chunk set off an effect?
pub open spec fn chunk_sets_off<R: TypeRegistry>(
    registry: R,
    path: Seq<char>,
    c: ChunkModel,
    x: SideEffectModel,
) -> bool {
    let answer = registry.answer(
        "SemanticText"@,
        document_laws::asked_of_text("Chunk"@, document::chunk_id(path, c.id), "text"@, c.text),
    );
    answer is Ok && answer->Ok_0.effects.contains(x)
}

/// Does the name of an entity set off an effect?
pub open spec fn entity_sets_off<R: TypeRegistry>(
    registry: R,
    path: Seq<char>,
    c: ChunkModel,
    e: EntityModel,
    x: SideEffectModel,
) -> bool {
    let label = document::sanitized_label(e.kind);
    let answer = registry.answer(
        "SemanticText"@,
        document_laws::asked_of_text(
            label->0,
            document::entity_id(path, c.id, e.id),
            "name"@,
            e.name,
        ),
    );
    label is Some && answer is Ok && answer->Ok_0.effects.contains(x)
}

/// Does a chunk set off an effect, by its text or by the name of one of its entities?
pub open spec fn sets_off<R: TypeRegistry>(
    registry: R,
    path: Seq<char>,
    c: ChunkModel,
    x: SideEffectModel,
) -> bool {
    chunk_sets_off(registry, path, c, x) || entities_set_off(registry, path, c, c.entities.len(), x)
}

pub open spec fn entities_set_off<R: TypeRegistry>(
    registry: R,
    path: Seq<char>,
    c: ChunkModel,
    n: nat,
    x: SideEffectModel,
) -> bool {
    exists|j: int|
        0 <= j < n && #[trigger] entity_sets_off(registry, path, c, c.entities[j], x)
}

proof fn joined_contains<T>(a: Seq<T>, b: Seq<T>, x: T)
    ensures
        (a + b).contains(x) <==> a.contains(x) || b.contains(x),
{
    let t = a + b;
    if t.contains(x) {
        let i = choose|i: int| 0 <= i < t.len() && t[i] == x;
        if i < a.len() {
            assert(a[i] == x);
        } else {
            assert(b[i - a.len()] == x);
        }
    }
    if a.contains(x) {
        let i = choose|i: int| 0 <= i < a.len() && a[i] == x;
        assert(t[i] == x);
    }
    if b.contains(x) {
        let i = choose|i: int| 0 <= i < b.len() && b[i] == x;
        assert(t[a.len() + i] == x);
    }
}

proof fn entity_effects<R: TypeRegistry>(
    registry: R,
    path: Seq<char>,
    c: ChunkModel,
    n: nat,
    w: Walk,
    x: SideEffectModel,
)
    requires
        n <= c.entities.len(),
        document::entities_added(registry, path, c, n, w).0.error is None,
    ensures
        w.error is None,
        document::entities_added(registry, path, c, n, w).0.gathered.effects.contains(x)
            <==> w.gathered.effects.contains(x) || entities_set_off(registry, path, c, n, x),
    decreases n,
{
    if n > 0 {
        let m = (n - 1) as nat;
        let e = c.entities[m as int];
        let (v, local) = document::entities_added(registry, path, c, m, w);
        assert(v.error is None);
        entity_effects(registry, path, c, m, w, x);
        let label = document::sanitized_label(e.kind)->0;
        let key = LiteralModel::Str(document::entity_id(path, c.id, e.id));
        let got = document::semantic_text(registry, label, key, "name"@, e.name)->Ok_0;
        joined_contains(v.gathered.effects, got.1, x);
        assert(entity_sets_off(registry, path, c, e, x) <==> got.1.contains(x));
        if entities_set_off(registry, path, c, m, x) {
            let j = choose|j: int|
                0 <= j < m && #[trigger] entity_sets_off(registry, path, c, c.entities[j], x);
            assert(entity_sets_off(registry, path, c, c.entities[j], x));
        }
        if entities_set_off(registry, path, c, n, x) {
            let j = choose|j: int|
                0 <= j < n && #[trigger] entity_sets_off(registry, path, c, c.entities[j], x);
            if j < m {
                assert(entities_set_off(registry, path, c, m, x));
            }
        }
        if entity_sets_off(registry, path, c, e, x) {
            assert(entity_sets_off(registry, path, c, c.entities[m as int], x));
        }
    }
}

proof fn relations_set_off_nothing(c: ChunkModel, local: LocalModel, n: nat, w: Walk)
    requires
        document::relations_added(c, local, n, w).error is None,
    ensures
        w.error is None,
        document::relations_added(c, local, n, w).gathered.effects == w.gathered.effects,
    decreases n,
{
    if n > 0 {
        relations_set_off_nothing(c, local, (n - 1) as nat, w);
    }
}

pub open spec fn chunks_set_off<R: TypeRegistry>(
    registry: R,
    doc: DocumentModel,
    n: nat,
    x: SideEffectModel,
) -> bool {
    exists|i: int| 0 <= i < n && #[trigger] sets_off(registry, doc.path, doc.chunks[i], x)
}

proof fn walk_effects<R: TypeRegistry>(
    registry: R,
    doc: DocumentModel,
    n: nat,
    x: SideEffectModel,
)
    requires
        n <= doc.chunks.len(),
        document::walked(registry, doc, n).error is None,
    ensures
        document::walked(registry, doc, n).gathered.effects.contains(x) <==> chunks_set_off(
            registry,
            doc,
            n,
            x,
        ),
    decreases n,
{
    if n > 0 {
        let m = (n - 1) as nat;
        let c = doc.chunks[m as int];
        let w = document::walked(registry, doc, m);
        let opened = document::chunk_opened(registry, doc.path, m as int, c, w);
        let (v, local) = document::entities_added(
            registry,
            doc.path,
            c,
            c.entities.len(),
            opened,
        );
        relations_set_off_nothing(c, local, c.relations.len(), v);
        entity_effects(registry, doc.path, c, c.entities.len(), opened, x);
        assert(w.error is None);
        walk_effects(registry, doc, m, x);
        let key = LiteralModel::Str(document::chunk_id(doc.path, c.id));
        let got = document::semantic_text(registry, "Chunk"@, key, "text"@, c.text)->Ok_0;
        joined_contains(w.gathered.effects, got.1, x);
        assert(chunk_sets_off(registry, doc.path, c, x) <==> got.1.contains(x));
        if chunks_set_off(registry, doc, m, x) {
            let i = choose|i: int|
                0 <= i < m && #[trigger] sets_off(registry, doc.path, doc.chunks[i], x);
            assert(sets_off(registry, doc.path, doc.chunks[i], x));
        }
        if chunks_set_off(registry, doc, n, x) {
            let i = choose|i: int|
                0 <= i < n && #[trigger] sets_off(registry, doc.path, doc.chunks[i], x);
            if i < m {
                assert(chunks_set_off(registry, doc, m, x));
            }
        }
        if sets_off(registry, doc.path, c, x) {
            assert(sets_off(registry, doc.path, doc.chunks[m as int], x));
        }
    } else {
        assert(document::walked(registry, doc, 0).gathered.effects.len() == 0);
    }
}

/// The effects that planning a document queues are those that the texts of its chunks and the
/// names of its entities set off, all of them and no others.
pub proof fn law_document_effects_are_of_the_texts<R: TypeRegistry>(
    registry: R,
    max_batch_size: usize,
    doc: DocumentModel,
    x: SideEffectModel,
)
    requires
        document::document_outcome(registry, max_batch_size, doc) is Ok,
    ensures
        document::document_effects(registry, max_batch_size, doc).contains(x) <==> exists|i: int|
            0 <= i < doc.chunks.len() && #[trigger] sets_off(registry, doc.path, doc.chunks[i], x),
{
    walk_effects(registry, doc, doc.chunks.len(), x);
}

/// Is a type one that an entity may have?
pub open spec fn is_usable_label(kind: Seq<char>) -> bool {
    let label = document::sanitized_label(kind);
    label is Some && label->0 != "Document"@ && label->0 != "Chunk"@
}

/// Is a type one that a relation may have?
pub open spec fn is_usable_relation(kind: Seq<char>) -> bool {
    let label = document::sanitized_rel(kind);
    label is Some && label->0 != "HAS_CHUNK"@ && label->0 != "MENTIONS"@
}

/// Is a handle that of an entity of a chunk?
pub open spec fn is_handle(c: ChunkModel, n: nat, handle: Seq<char>) -> bool {
    exists|j: int| 0 <= j < n && (#[trigger] c.entities[j]).id == handle
}

/// Can a chunk be planned: its types are usable, its relations are between its own entities, and
/// the handler takes its text and the names of its entities?
pub open spec fn is_sound_chunk<R: TypeRegistry>(
    registry: R,
    path: Seq<char>,
    c: ChunkModel,
) -> bool {
    &&& registry.answer(
        "SemanticText"@,
        document_laws::asked_of_text("Chunk"@, document::chunk_id(path, c.id), "text"@, c.text),
    ) is Ok
    &&& forall|j: int| 0 <= j < c.entities.len() ==> is_sound_entity(registry, path, c, #[trigger] c.entities[j])
    &&& forall|k: int| 0 <= k < c.relations.len() ==> is_sound_relation(c, #[trigger] c.relations[k])
}

pub open spec fn is_sound_entity<R: TypeRegistry>(
    registry: R,
    path: Seq<char>,
    c: ChunkModel,
    e: EntityModel,
) -> bool {
    is_usable_label(e.kind) && registry.answer(
        "SemanticText"@,
        document_laws::asked_of_text(
            document::sanitized_label(e.kind)->0,
            document::entity_id(path, c.id, e.id),
            "name"@,
            e.name,
        ),
    ) is Ok
}

pub open spec fn is_sound_relation(c: ChunkModel, r: RelationModel) -> bool {
    &&& is_usable_relation(r.kind)
    &&& is_handle(c, c.entities.len(), r.from)
    &&& is_handle(c, c.entities.len(), r.to)
}

proof fn sound_entities_are_added<R: TypeRegistry>(
    registry: R,
    path: Seq<char>,
    c: ChunkModel,
    n: nat,
    w: Walk,
)
    requires
        n <= c.entities.len(),
        w.error is None,
        forall|j: int|
            0 <= j < c.entities.len() ==> is_sound_entity(registry, path, c, #[trigger] c.entities[j]),
    ensures
        document::entities_added(registry, path, c, n, w).0.error is None,
        forall|h: Seq<char>| #[trigger]
            is_handle(c, n, h) ==> strmap::assoc_get(
                document::entities_added(registry, path, c, n, w).1,
                h,
            ) is Some,
    decreases n,
{
    if n > 0 {
        let m = (n - 1) as nat;
        sound_entities_are_added(registry, path, c, m, w);
        let e = c.entities[m as int];
        assert(is_sound_entity(registry, path, c, e));
        let (v, local) = document::entities_added(registry, path, c, m, w);
        let (v2, local2) = document::entities_added(registry, path, c, n, w);
        let label = document::sanitized_label(e.kind)->0;
        let id = document::entity_id(path, c.id, e.id);
        assert(local2 == strmap::assoc_insert(local, e.id, (label, id)));
        assert forall|h: Seq<char>| #[trigger] is_handle(c, n, h) implies strmap::assoc_get(
            local2,
            h,
        ) is Some by {
            if h == e.id {
                strmap::law_get_after_insert(local, e.id, (label, id));
            } else {
                strmap::law_get_other_after_insert(local, e.id, (label, id), h);
                let j = choose|j: int| 0 <= j < n && (#[trigger] c.entities[j]).id == h;
                assert(c.entities[j].id == h && j < m);
                assert(is_handle(c, m, h));
            }
        }
    }
}

proof fn sound_relations_are_added(c: ChunkModel, local: LocalModel, n: nat, w: Walk)
    requires
        n <= c.relations.len(),
        w.error is None,
        forall|h: Seq<char>| #[trigger]
            is_handle(c, c.entities.len(), h) ==> strmap::assoc_get(local, h) is Some,
        forall|k: int| 0 <= k < c.relations.len() ==> is_sound_relation(c, #[trigger] c.relations[k]),
    ensures
        document::relations_added(c, local, n, w).error is None,
    decreases n,
{
    if n > 0 {
        sound_relations_are_added(c, local, (n - 1) as nat, w);
        let r = c.relations[n - 1];
        assert(is_sound_relation(c, r));
        assert(strmap::assoc_get(local, r.from) is Some);
        assert(strmap::assoc_get(local, r.to) is Some);
    }
}

proof fn sound_chunks_are_walked<R: TypeRegistry>(registry: R, doc: DocumentModel, n: nat)
    requires
        n <= doc.chunks.len(),
        forall|i: int|
            0 <= i < doc.chunks.len() ==> is_sound_chunk(registry, doc.path, #[trigger] doc.chunks[i]),
    ensures
        document::walked(registry, doc, n).error is None,
    decreases n,
{
    if n > 0 {
        let m = (n - 1) as nat;
        sound_chunks_are_walked(registry, doc, m);
        let c = doc.chunks[m as int];
        assert(is_sound_chunk(registry, doc.path, c));
        let w = document::walked(registry, doc, m);
        let opened = document::chunk_opened(registry, doc.path, m as int, c, w);
        assert(opened.error is None);
        sound_entities_are_added(registry, doc.path, c, c.entities.len(), opened);
        let (v, local) = document::entities_added(
            registry,
            doc.path,
            c,
            c.entities.len(),
            opened,
        );
        sound_relations_are_added(c, local, c.relations.len(), v);
    }
}

/// A document whose chunks can all be planned is planned; without a handler of texts, or with
/// batches of nothing, no document is.
pub proof fn law_sound_documents_are_planned<R: TypeRegistry>(
    registry: R,
    max_batch_size: usize,
    doc: DocumentModel,
)
    requires
        forall|i: int|
            0 <= i < doc.chunks.len() ==> is_sound_chunk(registry, doc.path, #[trigger] doc.chunks[i]),
    ensures
        document::document_outcome(registry, max_batch_size, doc) is Ok <==> max_batch_size > 0
            && registry.registered("SemanticText"@),
{
    sound_chunks_are_walked(registry, doc, doc.chunks.len());
}

/// Is a text without the mark that joins the parts of a name?
pub open spec fn has_no_mark(s: Seq<char>) -> bool {
    forall|i: int| 0 <= i < s.len() ==> #[trigger] s[i] != '#'
}

proof fn parts_are_told(a: Seq<char>, b: Seq<char>, x: Seq<char>, y: Seq<char>)
    requires
        has_no_mark(a),
        has_no_mark(b),
        a + seq!['#'] + x == b + seq!['#'] + y,
    ensures
        a == b,
        x == y,
{
    let s = a + seq!['#'] + x;
    let t = b + seq!['#'] + y;
    if a.len() < b.len() {
        assert(s[a.len() as int] == '#');
        assert(t[a.len() as int] == b[a.len() as int]);
    } else if b.len() < a.len() {
        assert(t[b.len() as int] == '#');
        assert(s[b.len() as int] == a[b.len() as int]);
    }
    assert(a.len() == b.len());
    assert(a =~= s.take(a.len() as int));
    assert(b =~= t.take(b.len() as int));
    assert(x =~= s.skip(a.len() + 1int));
    assert(y =~= t.skip(b.len() + 1int));
}

/// Are the ids of two nodes made from different names?
pub open spec fn named_apart(x: Seq<char>, y: Seq<char>) -> bool {
    exists|a: Seq<char>, b: Seq<char>|
        a != b && x == ids::hyphenated_text(#[trigger] ids::uuid_v5_bits(UUID_NAMESPACE, a)) && y
            == ids::hyphenated_text(#[trigger] ids::uuid_v5_bits(UUID_NAMESPACE, b))
}

/// The ids of chunks are made from different names, unless both the document and the chunk are the
/// same.
pub proof fn law_chunks_have_their_own_ids(
    path: Seq<char>,
    chunk: Seq<char>,
    other_path: Seq<char>,
    other: Seq<char>,
)
    requires
        has_no_mark(path),
        has_no_mark(other_path),
        path != other_path || chunk != other,
    ensures
        named_apart(document::chunk_id(path, chunk), document::chunk_id(other_path, other)),
{
    reveal_strlit("#");
    let h = "chunk:"@;
    let a = h + path + "#"@ + chunk;
    let b = h + other_path + "#"@ + other;
    if a == b {
        let x = path + seq!['#'] + chunk;
        let y = other_path + seq!['#'] + other;
        assert(x =~= a.skip(h.len() as int));
        assert(y =~= b.skip(h.len() as int));
        parts_are_told(path, other_path, chunk, other);
    }
    assert(document::chunk_id(path, chunk) == ids::hyphenated_text(
        ids::uuid_v5_bits(UUID_NAMESPACE, a),
    ));
    assert(document::chunk_id(other_path, other) == ids::hyphenated_text(
        ids::uuid_v5_bits(UUID_NAMESPACE, b),
    ));
}

/// The ids of entities are made from different names, unless the document, the chunk and the
/// handle are all the same; and no entity is named like a chunk.
pub proof fn law_entities_have_their_own_ids(
    path: Seq<char>,
    chunk: Seq<char>,
    local: Seq<char>,
    other_path: Seq<char>,
    other_chunk: Seq<char>,
    other: Seq<char>,
)
    requires
        has_no_mark(path),
        has_no_mark(other_path),
        has_no_mark(chunk),
        has_no_mark(other_chunk),
    ensures
        path != other_path || chunk != other_chunk || local != other ==> named_apart(
            document::entity_id(path, chunk, local),
            document::entity_id(other_path, other_chunk, other),
        ),
        named_apart(
            document::entity_id(path, chunk, local),
            document::chunk_id(other_path, other_chunk),
        ),
{
    reveal_strlit("#");
    reveal_strlit("entity:");
    reveal_strlit("chunk:");
    let h = "entity:"@;
    let a = h + path + "#"@ + chunk + "#"@ + local;
    let b = h + other_path + "#"@ + other_chunk + "#"@ + other;
    let c = "chunk:"@ + other_path + "#"@ + other_chunk;
    if a == b {
        let m = chunk + seq!['#'] + local;
        let n = other_chunk + seq!['#'] + other;
        let x = path + seq!['#'] + m;
        let y = other_path + seq!['#'] + n;
        assert(x =~= a.skip(h.len() as int));
        assert(y =~= b.skip(h.len() as int));
        parts_are_told(path, other_path, m, n);
        parts_are_told(chunk, other_chunk, local, other);
    }
    assert(a[0] == 'e' && c[0] == 'c');
    assert(document::entity_id(path, chunk, local) == ids::hyphenated_text(
        ids::uuid_v5_bits(UUID_NAMESPACE, a),
    ));
    assert(document::entity_id(other_path, other_chunk, other) == ids::hyphenated_text(
        ids::uuid_v5_bits(UUID_NAMESPACE, b),
    ));
    assert(document::chunk_id(other_path, other_chunk) == ids::hyphenated_text(
        ids::uuid_v5_bits(UUID_NAMESPACE, c),
    ));
}

/// A label that is fit for a query stays as it is, and a relation type comes in upper case.
pub proof fn law_fit_labels_are_kept(s: Seq<char>)
    requires
        text::is_identifier(s),
        s[0] != '_',
        s.last() != '_',
    ensures
        document::sanitized_label(s) == Some(s),
        document::sanitized_rel(s) == Some(text::ascii_upper(s)),
{
    let u = document::underscored(s);
    assert forall|i: int| 0 <= i < s.len() implies #[trigger] u[i] == s[i] by {
        assert(text::is_word(s[i]));
    }
    assert(u =~= s);
    assert(document::trim_front(s) == s);
    assert(document::trim_back(s) == s);
    assert(text::is_word_start(s[0]));
}

proof fn added_entities_are_sound<R: TypeRegistry>(
    registry: R,
    path: Seq<char>,
    c: ChunkModel,
    n: nat,
    w: Walk,
)
    requires
        n <= c.entities.len(),
        document::entities_added(registry, path, c, n, w).0.error is None,
    ensures
        w.error is None,
        forall|j: int| 0 <= j < n ==> is_sound_entity(registry, path, c, #[trigger] c.entities[j]),
        forall|h: Seq<char>|
            strmap::assoc_get(document::entities_added(registry, path, c, n, w).1, h) is Some
                ==> #[trigger] is_handle(c, n, h),
    decreases n,
{
    if n > 0 {
        let m = (n - 1) as nat;
        let e = c.entities[m as int];
        let (v, local) = document::entities_added(registry, path, c, m, w);
        let (v2, local2) = document::entities_added(registry, path, c, n, w);
        assert(v.error is None);
        added_entities_are_sound(registry, path, c, m, w);
        assert(is_sound_entity(registry, path, c, e));
        let label = document::sanitized_label(e.kind)->0;
        let id = document::entity_id(path, c.id, e.id);
        assert(local2 == strmap::assoc_insert(local, e.id, (label, id)));
        assert forall|h: Seq<char>| strmap::assoc_get(local2, h) is Some implies #[trigger] is_handle(
            c,
            n,
            h,
        ) by {
            if h == e.id {
                assert(c.entities[m as int].id == h);
            } else {
                strmap::law_get_other_after_insert(local, e.id, (label, id), h);
                assert(is_handle(c, m, h));
                let j = choose|j: int| 0 <= j < m && (#[trigger] c.entities[j]).id == h;
                assert(c.entities[j].id == h);
            }
        }
    } else {
        assert forall|h: Seq<char>|
            strmap::assoc_get(document::entities_added(registry, path, c, 0, w).1, h)
                is Some implies #[trigger] is_handle(c, 0, h) by {
            assert(document::entities_added(registry, path, c, 0, w).1.len() == 0);
        }
    }
}

proof fn added_relations_are_sound(c: ChunkModel, local: LocalModel, n: nat, w: Walk)
    requires
        n <= c.relations.len(),
        document::relations_added(c, local, n, w).error is None,
        forall|h: Seq<char>|
            strmap::assoc_get(local, h) is Some ==> #[trigger] is_handle(c, c.entities.len(), h),
    ensures
        w.error is None,
        forall|k: int| 0 <= k < n ==> is_sound_relation(c, #[trigger] c.relations[k]),
    decreases n,
{
    if n > 0 {
        added_relations_are_sound(c, local, (n - 1) as nat, w);
        let r = c.relations[n - 1];
        assert(is_handle(c, c.entities.len(), r.from));
        assert(is_handle(c, c.entities.len(), r.to));
        assert(is_sound_relation(c, r));
    }
}

proof fn walked_chunks_are_sound<R: TypeRegistry>(registry: R, doc: DocumentModel, n: nat)
    requires
        n <= doc.chunks.len(),
        document::walked(registry, doc, n).error is None,
    ensures
        forall|i: int|
            0 <= i < n ==> is_sound_chunk(registry, doc.path, #[trigger] doc.chunks[i]),
    decreases n,
{
    if n > 0 {
        let m = (n - 1) as nat;
        let c = doc.chunks[m as int];
        let w = document::walked(registry, doc, m);
        let opened = document::chunk_opened(registry, doc.path, m as int, c, w);
        let (v, local) = document::entities_added(
            registry,
            doc.path,
            c,
            c.entities.len(),
            opened,
        );
        relations_set_off_nothing(c, local, c.relations.len(), v);
        added_entities_are_sound(registry, doc.path, c, c.entities.len(), opened);
        added_relations_are_sound(c, local, c.relations.len(), v);
        assert(w.error is None);
        walked_chunks_are_sound(registry, doc, m);
        assert(is_sound_chunk(registry, doc.path, c));
    }
}

/// A document is planned only where every chunk of it can be: one of a reserved or unusable type, a
/// relation to an entity that the chunk has not, or a text that the handler does not take makes
/// planning fail.
pub proof fn law_planned_documents_are_sound<R: TypeRegistry>(
    registry: R,
    max_batch_size: usize,
    doc: DocumentModel,
)
    requires
        document::document_outcome(registry, max_batch_size, doc) is Ok,
    ensures
        max_batch_size > 0,
        registry.registered("SemanticText"@),
        forall|i: int|
            0 <= i < doc.chunks.len() ==> is_sound_chunk(registry, doc.path, #[trigger] doc.chunks[i]),
{
    walked_chunks_are_sound(registry, doc, doc.chunks.len());
}

/// Is this what is wrong with an entity of a chunk: its type cannot be written, is reserved, or the
/// handler refuses its name?
pub open spec fn entity_faults<R: TypeRegistry>(
    registry: R,
    path: Seq<char>,
    c: ChunkModel,
    e: EntityModel,
    err: IngestErrorModel,
) -> bool {
    match document::sanitized_label(e.kind) {
        None => err == IngestErrorModel::InvalidLabel(e.kind),
        Some(label) => if label == "Document"@ || label == "Chunk"@ {
            err == IngestErrorModel::ReservedLabel(label)
        } else {
            match registry.answer(
                "SemanticText"@,
                document_laws::asked_of_text(
                    label,
                    document::entity_id(path, c.id, e.id),
                    "name"@,
                    e.name,
                ),
            ) {
                Err(m) => err == IngestErrorModel::Type(m),
                Ok(_) => false,
            }
        },
    }
}

/// Is this what is wrong with a relation of a chunk: its start, or else its end, is no entity of the
/// chunk, or its type cannot be written or is reserved?
pub open spec fn relation_faults(c: ChunkModel, r: RelationModel, err: IngestErrorModel) -> bool {
    if !is_handle(c, c.entities.len(), r.from) {
        err == (IngestErrorModel::UnknownLocalId { chunk: c.id, local_id: r.from })
    } else if !is_handle(c, c.entities.len(), r.to) {
        err == (IngestErrorModel::UnknownLocalId { chunk: c.id, local_id: r.to })
    } else {
        match document::sanitized_rel(r.kind) {
            None => err == IngestErrorModel::InvalidLabel(r.kind),
            Some(label) => (label == "HAS_CHUNK"@ || label == "MENTIONS"@) && err
                == IngestErrorModel::ReservedRelation(label),
        }
    }
}

/// Is this what is wrong with a chunk: the handler refuses its text, or an entity or a relation of it
/// is at fault?
pub open spec fn chunk_faults<R: TypeRegistry>(
    registry: R,
    path: Seq<char>,
    c: ChunkModel,
    err: IngestErrorModel,
) -> bool {
    ||| registry.answer(
        "SemanticText"@,
        document_laws::asked_of_text("Chunk"@, document::chunk_id(path, c.id), "text"@, c.text),
    ) is Err && err == IngestErrorModel::Type(
        registry.answer(
            "SemanticText"@,
            document_laws::asked_of_text("Chunk"@, document::chunk_id(path, c.id), "text"@, c.text),
        )->Err_0,
    )
    ||| exists|j: int|
        0 <= j < c.entities.len() && entity_faults(registry, path, c, #[trigger] c.entities[j], err)
    ||| exists|k: int| 0 <= k < c.relations.len() && relation_faults(c, #[trigger] c.relations[k], err)
}

proof fn added_entity_faults<R: TypeRegistry>(
    registry: R,
    path: Seq<char>,
    c: ChunkModel,
    n: nat,
    w: Walk,
)
    requires
        n <= c.entities.len(),
    ensures
        match document::entities_added(registry, path, c, n, w).0.error {
            Some(err) => w.error == Some(err) || exists|j: int|
                0 <= j < n && entity_faults(registry, path, c, #[trigger] c.entities[j], err),
            None => true,
        },
    decreases n,
{
    if n > 0 {
        let m = (n - 1) as nat;
        added_entity_faults(registry, path, c, m, w);
        let v = document::entities_added(registry, path, c, m, w).0;
        let u = document::entities_added(registry, path, c, n, w).0;
        if v.error is None && u.error is Some {
            assert(entity_faults(registry, path, c, c.entities[m as int], u.error->0));
        }
    }
}

proof fn added_relation_faults(c: ChunkModel, local: LocalModel, n: nat, w: Walk)
    requires
        n <= c.relations.len(),
        forall|h: Seq<char>| #[trigger]
            is_handle(c, c.entities.len(), h) <==> strmap::assoc_get(local, h) is Some,
    ensures
        match document::relations_added(c, local, n, w).error {
            Some(err) => w.error == Some(err) || exists|k: int|
                0 <= k < n && relation_faults(c, #[trigger] c.relations[k], err),
            None => true,
        },
    decreases n,
{
    if n > 0 {
        let m = (n - 1) as nat;
        added_relation_faults(c, local, m, w);
        let v = document::relations_added(c, local, m, w);
        let u = document::relations_added(c, local, n, w);
        if v.error is None && u.error is Some {
            let r = c.relations[m as int];
            assert(is_handle(c, c.entities.len(), r.from) <==> strmap::assoc_get(local, r.from)
                is Some);
            assert(is_handle(c, c.entities.len(), r.to) <==> strmap::assoc_get(local, r.to) is Some);
            assert(relation_faults(c, c.relations[m as int], u.error->0));
        }
    }
}

proof fn failed_relations_stay(c: ChunkModel, local: LocalModel, n: nat, w: Walk)
    requires
        w.error is Some,
    ensures
        document::relations_added(c, local, n, w).error == w.error,
    decreases n,
{
    if n > 0 {
        failed_relations_stay(c, local, (n - 1) as nat, w);
    }
}

proof fn walked_chunk_faults<R: TypeRegistry>(registry: R, doc: DocumentModel, n: nat)
    requires
        n <= doc.chunks.len(),
    ensures
        match document::walked(registry, doc, n).error {
            Some(err) => exists|i: int|
                0 <= i < n && chunk_faults(registry, doc.path, #[trigger] doc.chunks[i], err),
            None => true,
        },
    decreases n,
{
    if n > 0 {
        let m = (n - 1) as nat;
        walked_chunk_faults(registry, doc, m);
        let c = doc.chunks[m as int];
        let w = document::walked(registry, doc, m);
        let u = document::walked(registry, doc, n);
        let opened = document::chunk_opened(registry, doc.path, m as int, c, w);
        let (v, local) = document::entities_added(
            registry,
            doc.path,
            c,
            c.entities.len(),
            opened,
        );
        added_entity_faults(registry, doc.path, c, c.entities.len(), opened);
        if v.error is Some {
            failed_relations_stay(c, local, c.relations.len(), v);
        } else {
            added_entities_are_sound(registry, doc.path, c, c.entities.len(), opened);
            sound_entities_are_added(registry, doc.path, c, c.entities.len(), opened);
            assert forall|h: Seq<char>| #[trigger]
                is_handle(c, c.entities.len(), h) <==> strmap::assoc_get(local, h) is Some by {}
            added_relation_faults(c, local, c.relations.len(), v);
        }
        if u.error is Some {
            let err = u.error->0;
            if w.error is Some {
                failed_entities_stay(registry, doc.path, c, c.entities.len(), opened);
                let i = choose|i: int|
                    0 <= i < m && chunk_faults(registry, doc.path, #[trigger] doc.chunks[i], err);
                assert(chunk_faults(registry, doc.path, doc.chunks[i], err));
            } else {
                assert(chunk_faults(registry, doc.path, doc.chunks[m as int], err));
            }
        }
    }
}

proof fn failed_entities_stay<R: TypeRegistry>(
    registry: R,
    path: Seq<char>,
    c: ChunkModel,
    n: nat,
    w: Walk,
)
    requires
        w.error is Some,
    ensures
        document::entities_added(registry, path, c, n, w).0.error == w.error,
    decreases n,
{
    if n > 0 {
        failed_entities_stay(registry, path, c, (n - 1) as nat, w);
    }
}

/// Planning a document fails only with batches of nothing, without a handler of texts, or over a
/// chunk that is at fault, and the error names that fault.
pub proof fn law_document_errors_name_faults<R: TypeRegistry>(
    registry: R,
    max_batch_size: usize,
    doc: DocumentModel,
)
    ensures
        match document::document_outcome(registry, max_batch_size, doc) {
            Err(err) => if max_batch_size == 0 {
                err == IngestErrorModel::InvalidBatchSize
            } else if !registry.registered("SemanticText"@) {
                err is Type
            } else {
                exists|i: int|
                    0 <= i < doc.chunks.len() && chunk_faults(
                        registry,
                        doc.path,
                        #[trigger] doc.chunks[i],
                        err,
                    )
            },
            Ok(_) => true,
        },
{
    walked_chunk_faults(registry, doc, doc.chunks.len());
}

} // verus!
