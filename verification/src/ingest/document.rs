//! Ingesting a document: its chunks, the entities they mention and the
//! relations between those, as one insert plan.

use vstd::prelude::*;
use crate::groups;
use crate::ids;
use crate::ingest::dsl;
use crate::ingest::dsl::InsertPlan;
use crate::ingest::dsl::InsertPlanModel;
use crate::ingest::dsl::NodeData;
use crate::ingest::dsl::NodeDataModel;
use crate::ingest::dsl::NodePlan;
use crate::ingest::dsl::NodePlanModel;
use crate::ingest::dsl::RelationData;
use crate::ingest::dsl::RelationDataModel;
use crate::ingest::dsl::RelationPlan;
use crate::ingest::dsl::RelationPlanModel;
use crate::ingest::error;
use crate::ingest::error::IngestError;
use crate::ingest::error::IngestErrorModel;
use crate::json::Json;
use crate::json::JsonModel;
use crate::literal::copy_literal;
use crate::literal::Literal;
use crate::literal::LiteralModel;
use crate::sorting;
use crate::strmap;
use crate::strmap::StrMap;
use crate::text;
use crate::types::IngestInput;
use crate::types::IngestInputModel;
use crate::types::SideEffect;
use crate::types::SideEffectModel;
use crate::types::Stored;
use crate::types::StoredModel;
use crate::types::TypeRegistry;
use crate::types::SEMANTIC_TEXT;

verus! {

broadcast use vstd::string::group_string_axioms;

/// Label of the document root node.
pub const DOCUMENT_LABEL: &'static str = "Document";

/// Label of chunk nodes.
pub const CHUNK_LABEL: &'static str = "Chunk";

/// Relation from a document to its chunks.
pub const HAS_CHUNK_REL: &'static str = "HAS_CHUNK";

/// Relation from a chunk to the entities it mentions.
pub const MENTIONS_REL: &'static str = "MENTIONS";

/// Namespace of the ids derived here; it never changes, so that ingesting a
/// document again gives its nodes the same ids.
pub const UUID_NAMESPACE: u128 = 0x6c69_6e67_7561_6772_6170_6864_6f63_5f31u128;

/// Root of a document.
#[derive(Debug, PartialEq)]
pub struct DocumentInput {
    pub document: DocumentBody,
}

#[derive(Debug, PartialEq)]
pub struct DocumentBody {
    pub name: String,
    pub path: String,
    pub chunks: Vec<ChunkInput>,
}

#[derive(Debug, PartialEq)]
pub struct ChunkInput {
    pub id: String,
    pub text: String,
    pub entities: Vec<EntityInput>,
    pub relations: Vec<RelationInput>,
}

/// An entity mentioned in a chunk; `id` is a handle within that chunk.
#[derive(Debug, PartialEq)]
pub struct EntityInput {
    pub id: String,
    pub kind: String,
    pub name: String,
}

/// A relation between two entities of one chunk, by their handles.
#[derive(Debug, PartialEq)]
pub struct RelationInput {
    pub from: String,
    pub to: String,
    pub kind: String,
}

pub struct DocumentModel {
    pub name: Seq<char>,
    pub path: Seq<char>,
    pub chunks: Seq<ChunkModel>,
}

pub struct ChunkModel {
    pub id: Seq<char>,
    pub text: Seq<char>,
    pub entities: Seq<EntityModel>,
    pub relations: Seq<RelationModel>,
}

pub struct EntityModel {
    pub id: Seq<char>,
    pub kind: Seq<char>,
    pub name: Seq<char>,
}

pub struct RelationModel {
    pub from: Seq<char>,
    pub to: Seq<char>,
    pub kind: Seq<char>,
}

impl DeepView for EntityInput {
    type V = EntityModel;

    open spec fn deep_view(&self) -> EntityModel {
        EntityModel { id: self.id@, kind: self.kind@, name: self.name@ }
    }
}

impl DeepView for RelationInput {
    type V = RelationModel;

    open spec fn deep_view(&self) -> RelationModel {
        RelationModel { from: self.from@, to: self.to@, kind: self.kind@ }
    }
}

impl DeepView for ChunkInput {
    type V = ChunkModel;

    open spec fn deep_view(&self) -> ChunkModel {
        ChunkModel {
            id: self.id@,
            text: self.text@,
            entities: self.entities.deep_view(),
            relations: self.relations.deep_view(),
        }
    }
}

impl DeepView for DocumentBody {
    type V = DocumentModel;

    open spec fn deep_view(&self) -> DocumentModel {
        DocumentModel { name: self.name@, path: self.path@, chunks: self.chunks.deep_view() }
    }
}

impl DeepView for DocumentInput {
    type V = DocumentModel;

    open spec fn deep_view(&self) -> DocumentModel {
        self.document.deep_view()
    }
}

/// Knobs of [`build_document_plan`].
#[derive(Debug, Clone, Copy)]
pub struct DocumentIngestOptions {
    pub max_batch_size: usize,
}

impl Default for DocumentIngestOptions {
    fn default() -> (r: DocumentIngestOptions)
        ensures
            r.max_batch_size == 1000,
    {
        DocumentIngestOptions { max_batch_size: 1000 }
    }
}

/// Every character that may not stand in an identifier, replaced by `_`.
pub open spec fn underscored(s: Seq<char>) -> Seq<char> {
    s.map_values(
        |c: char|
            if text::is_word(c) {
                c
            } else {
                '_'
            },
    )
}

/// `s` without the underscores in front.
pub open spec fn trim_front(s: Seq<char>) -> Seq<char>
    decreases s.len(),
{
    if s.len() > 0 && s[0] == '_' {
        trim_front(s.drop_first())
    } else {
        s
    }
}

/// `s` without the underscores at the end.
pub open spec fn trim_back(s: Seq<char>) -> Seq<char>
    decreases s.len(),
{
    if s.len() > 0 && s.last() == '_' {
        trim_back(s.drop_last())
    } else {
        s
    }
}

/// A label fit for a query: foreign characters become underscores, those at the
/// ends are dropped, and a leading digit gets one in front. Nothing where
/// nothing is left.
pub open spec fn sanitized_label(s: Seq<char>) -> Option<Seq<char>> {
    let t = trim_back(trim_front(underscored(s)));
    if t.len() == 0 {
        None
    } else if text::is_digit(t[0]) {
        Some(seq!['_'] + t)
    } else {
        Some(t)
    }
}

/// A relation type fit for a query: a label in upper case.
pub open spec fn sanitized_rel(s: Seq<char>) -> Option<Seq<char>> {
    match sanitized_label(s) {
        Some(t) => Some(text::ascii_upper(t)),
        None => None,
    }
}

proof fn trim_front_suffix(s: Seq<char>) -> (n: int)
    ensures
        0 <= n <= s.len(),
        trim_front(s) == s.skip(n),
        n < s.len() ==> s[n] != '_',
        forall|i: int| 0 <= i < n ==> s[i] == '_',
    decreases s.len(),
{
    if s.len() > 0 && s[0] == '_' {
        let m = trim_front_suffix(s.drop_first());
        assert(s.drop_first().skip(m) =~= s.skip(m + 1));
        assert forall|i: int| 0 <= i < m + 1 implies s[i] == '_' by {
            if i > 0 {
                assert(s.drop_first()[i - 1] == '_');
            }
        }
        m + 1
    } else {
        assert(s.skip(0) =~= s);
        0
    }
}

proof fn trim_front_at(s: Seq<char>, n: int)
    requires
        0 <= n <= s.len(),
        n < s.len() ==> s[n] != '_',
        forall|i: int| 0 <= i < n ==> s[i] == '_',
    ensures
        trim_front(s) == s.skip(n),
    decreases n,
{
    if n == 0 {
        assert(s.skip(0) =~= s);
    } else {
        assert(s[0] == '_');
        trim_front_at(s.drop_first(), n - 1);
        assert(s.drop_first().skip(n - 1) =~= s.skip(n));
    }
}

proof fn trim_back_at(s: Seq<char>, n: int)
    requires
        0 <= n <= s.len(),
        n > 0 ==> s[n - 1] != '_',
        forall|i: int| n <= i < s.len() ==> s[i] == '_',
    ensures
        trim_back(s) == s.take(n),
    decreases s.len() - n,
{
    if n == s.len() {
        assert(s.take(n) =~= s);
    } else {
        assert(s[s.len() - 1] == '_');
        trim_back_at(s.drop_last(), n);
        assert(s.drop_last().take(n) =~= s.take(n));
    }
}

proof fn trim_back_prefix(s: Seq<char>) -> (n: int)
    ensures
        0 <= n <= s.len(),
        trim_back(s) == s.take(n),
        n > 0 ==> s[n - 1] != '_',
    decreases s.len(),
{
    if s.len() > 0 && s.last() == '_' {
        let n = trim_back_prefix(s.drop_last());
        assert(s.drop_last().take(n) =~= s.take(n));
        n
    } else {
        assert(s.take(s.len() as int) =~= s);
        s.len() as int
    }
}

/// A sanitized label is an identifier.
pub proof fn law_sanitized_label_is_identifier(s: Seq<char>)
    ensures
        match sanitized_label(s) {
            Some(t) => text::is_identifier(t),
            None => true,
        },
{
    let u = underscored(s);
    let n = trim_front_suffix(u);
    let f = u.skip(n);
    let m = trim_back_prefix(f);
    let t = f.take(m);
    assert(trim_back(trim_front(u)) == t);
    assert forall|i: int| 0 <= i < t.len() implies #[trigger] text::is_word(t[i]) by {
        assert(t[i] == u[n + i]);
    }
    if t.len() > 0 {
        let l = sanitized_label(s)->0;
        assert(text::is_word(t[0]));
        if text::is_digit(t[0]) {
            assert forall|i: int| 0 <= i < l.len() implies #[trigger] text::is_word(l[i]) by {
                if i > 0 {
                    assert(l[i] == t[i - 1]);
                    assert(text::is_word(t[i - 1]));
                }
            }
        }
    }
}

/// A sanitized relation type is an identifier.
pub proof fn law_sanitized_rel_is_identifier(s: Seq<char>)
    ensures
        match sanitized_rel(s) {
            Some(t) => text::is_identifier(t),
            None => true,
        },
{
    law_sanitized_label_is_identifier(s);
    if let Some(l) = sanitized_label(s) {
        let t = text::ascii_upper(l);
        assert forall|i: int| 0 <= i < t.len() implies #[trigger] text::is_word(t[i]) by {
            assert(text::is_word(l[i]));
            assert(t[i] == text::upper_char(l[i]));
            upper_keeps_word(l[i]);
        }
        upper_keeps_word(l[0]);
    }
}

proof fn upper_keeps_word(c: char)
    ensures
        text::is_word(c) ==> text::is_word(text::upper_char(c)),
        text::is_word_start(c) ==> text::is_word_start(text::upper_char(c)),
{
    if text::is_lower(c) {
        let d = ((c as u8) - 32) as u8 as char;
        assert(text::is_upper(d));
    }
}

/// Sanitize a label. See [`sanitized_label`].
pub fn sanitize_label(s: &str) -> (r: Option<String>)
    ensures
        r.deep_view() == sanitized_label(s@),
{
    let cs = text::chars_of(s);
    let mut out: Vec<char> = Vec::new();
    let mut i: usize = 0;
    while i < cs.len()
        invariant
            cs@ == s@,
            0 <= i <= cs@.len(),
            out@ == underscored(s@).take(i as int),
        decreases cs@.len() - i,
    {
        if text::word_char(cs[i]) {
            out.push(cs[i]);
        } else {
            out.push('_');
        }
        i += 1;
        assert(out@ =~= underscored(s@).take(i as int));
    }
    let ghost u = underscored(s@);
    assert(out@ =~= u);
    let mut from: usize = 0;
    while from < out.len() && out[from] == '_'
        invariant
            out@ == u,
            0 <= from <= u.len(),
            forall|j: int| 0 <= j < from ==> u[j] == '_',
        decreases u.len() - from,
    {
        from += 1;
    }
    proof {
        trim_front_at(u, from as int);
    }
    let ghost f = u.skip(from as int);
    let mut to: usize = out.len();
    while to > from && out[to - 1] == '_'
        invariant
            out@ == u,
            f == u.skip(from as int),
            from <= to <= u.len(),
            forall|j: int| to - from <= j < f.len() ==> f[j] == '_',
        decreases to,
    {
        assert(f[to - from - 1] == u[to - 1]);
        to -= 1;
    }
    proof {
        if to > from {
            assert(f[to - from - 1] == u[to - 1]);
        }
        trim_back_at(f, to - from);
        assert(f.take(to - from) =~= u.subrange(from as int, to as int));
    }
    if from == to {
        return None;
    }
    let body = text::text_range(&out, from, to);
    assert(body@[0] == u[from as int]);
    if text::digit_of(out[from]) {
        let mut r = String::new();
        r.push('_');
        r.append(body.as_str());
        assert(r@ =~= seq!['_'] + body@);
        Some(r)
    } else {
        Some(body)
    }
}

/// Sanitize a relation type. See [`sanitized_rel`].
pub fn sanitize_rel(s: &str) -> (r: Option<String>)
    ensures
        r.deep_view() == sanitized_rel(s@),
{
    match sanitize_label(s) {
        Some(l) => Some(text::to_ascii_upper(l.as_str())),
        None => None,
    }
}

pub open spec fn reserved_label(s: Seq<char>) -> bool {
    s == DOCUMENT_LABEL@ || s == CHUNK_LABEL@
}

pub open spec fn reserved_relation(s: Seq<char>) -> bool {
    s == HAS_CHUNK_REL@ || s == MENTIONS_REL@
}

/// Is the label one that the library itself puts on nodes?
pub fn is_reserved_label(s: &str) -> (r: bool)
    ensures
        r == reserved_label(s@),
{
    text::text_eq(s, DOCUMENT_LABEL) || text::text_eq(s, CHUNK_LABEL)
}

/// Is the relation type one that the library itself makes?
pub fn is_reserved_relation(s: &str) -> (r: bool)
    ensures
        r == reserved_relation(s@),
{
    text::text_eq(s, HAS_CHUNK_REL) || text::text_eq(s, MENTIONS_REL)
}

/// The id of a chunk node, from the document's path and the chunk's id.
pub open spec fn chunk_id(path: Seq<char>, chunk: Seq<char>) -> Seq<char> {
    ids::hyphenated_text(
        ids::uuid_v5_bits(UUID_NAMESPACE, "chunk:"@ + path + "#"@ + chunk),
    )
}

/// The id of an entity node, from the document's path, the chunk's id and the
/// entity's handle.
pub open spec fn entity_id(path: Seq<char>, chunk: Seq<char>, local: Seq<char>) -> Seq<char> {
    ids::hyphenated_text(
        ids::uuid_v5_bits(UUID_NAMESPACE, "entity:"@ + path + "#"@ + chunk + "#"@ + local),
    )
}

/// The id of a chunk node.
pub fn chunk_uuid(doc_path: &str, chunk: &str) -> (r: String)
    ensures
        r@ == chunk_id(doc_path@, chunk@),
{
    let mut key = "chunk:".to_owned();
    key.append(doc_path);
    key.append("#");
    key.append(chunk);
    ids::hyphenated(ids::uuid_v5(UUID_NAMESPACE, key.as_str()))
}

/// The id of an entity node.
pub fn entity_uuid(doc_path: &str, chunk: &str, local_id: &str) -> (r: String)
    ensures
        r@ == entity_id(doc_path@, chunk@, local_id@),
{
    let mut key = "entity:".to_owned();
    key.append(doc_path);
    key.append("#");
    key.append(chunk);
    key.append("#");
    key.append(local_id);
    ids::hyphenated(ids::uuid_v5(UUID_NAMESPACE, key.as_str()))
}

/// What a text becomes under the `SemanticText` handler: the literal to store,
/// if any, and the effects it sets off.
pub open spec fn semantic_text<R: TypeRegistry>(
    registry: R,
    label: Seq<char>,
    key_value: LiteralModel,
    field: Seq<char>,
    value: Seq<char>,
) -> Result<(Option<LiteralModel>, Seq<SideEffectModel>), IngestErrorModel> {
    let input = IngestInputModel {
        label,
        key_field: "id"@,
        key_value,
        field,
        value: JsonModel::Str(value),
        prefix_index: None,
    };
    match registry.answer(SEMANTIC_TEXT@, input) {
        Err(m) => Err(IngestErrorModel::Type(m)),
        Ok(l) => Ok(
            (
                match l.stored {
                    StoredModel::Untouched => Some(LiteralModel::Str(value)),
                    StoredModel::Replaced(x) => Some(x),
                    StoredModel::Skipped => None,
                },
                l.effects,
            ),
        ),
    }
}

fn apply_semantic_text<R: TypeRegistry>(
    registry: &R,
    label: &str,
    key_value: &Literal,
    field: &str,
    value: &str,
) -> (r: Result<(Option<Literal>, Vec<SideEffect>), IngestError>)
    requires
        registry.registered(SEMANTIC_TEXT@),
    ensures
        error::outcome_model(r) == semantic_text(
            *registry,
            label@,
            key_value.deep_view(),
            field@,
            value@,
        ),
{
    let raw = Json::Str(value.to_owned());
    let input = IngestInput {
        label,
        key_field: "id",
        key_value,
        field,
        value: &raw,
        prefix_index: None,
    };
    match registry.on_ingest(SEMANTIC_TEXT, &input) {
        Err(m) => Err(IngestError::Type(m)),
        Ok(l) => {
            let stored = match l.stored {
                Stored::Untouched => Some(Literal::String(value.to_owned())),
                Stored::Replaced(x) => Some(x),
                Stored::Skipped => None,
            };
            Ok((stored, l.effects))
        },
    }
}

/// What the walk over a document has gathered.
pub struct Gathered {
    pub chunk_rows: Seq<NodeDataModel>,
    pub has_chunk_rows: Seq<RelationDataModel>,
    pub entities: Seq<(Seq<char>, Seq<NodeDataModel>)>,
    pub mentions: Seq<(Seq<char>, Seq<RelationDataModel>)>,
    pub user_rels: Seq<(Seq<Seq<char>>, Seq<RelationDataModel>)>,
    pub effects: Seq<SideEffectModel>,
}

/// A walk that goes on, or one that an error ended.
pub struct Walk {
    pub gathered: Gathered,
    pub error: Option<IngestErrorModel>,
}

/// The entities of a chunk by handle: label and node id.
pub type LocalModel = Seq<(Seq<char>, (Seq<char>, Seq<char>))>;

/// The walk before the first chunk.
pub open spec fn walk_start() -> Walk {
    Walk {
        gathered: Gathered {
            chunk_rows: Seq::empty(),
            has_chunk_rows: Seq::empty(),
            entities: Seq::empty(),
            mentions: Seq::empty(),
            user_rels: Seq::empty(),
            effects: Seq::empty(),
        },
        error: None,
    }
}

pub open spec fn failed(w: Walk, e: IngestErrorModel) -> Walk {
    Walk { gathered: w.gathered, error: Some(e) }
}

/// The properties of a chunk node.
pub open spec fn chunk_props(
    path: Seq<char>,
    chunk: Seq<char>,
    index: int,
    text: Option<LiteralModel>,
) -> Seq<(Seq<char>, LiteralModel)> {
    let p0 = Seq::<(Seq<char>, LiteralModel)>::empty();
    let p1 = match text {
        Some(x) => strmap::assoc_insert(p0, "text"@, x),
        None => p0,
    };
    let p2 = strmap::assoc_insert(p1, "index"@, LiteralModel::Int(index as i64));
    let p3 = strmap::assoc_insert(p2, "document_path"@, LiteralModel::Str(path));
    strmap::assoc_insert(p3, "local_id"@, LiteralModel::Str(chunk))
}

/// The properties of an entity node.
pub open spec fn entity_props(id: Seq<char>, kind: Seq<char>, name: Option<LiteralModel>) -> Seq<
    (Seq<char>, LiteralModel),
> {
    let p0 = Seq::<(Seq<char>, LiteralModel)>::empty();
    let p1 = strmap::assoc_insert(p0, "id"@, LiteralModel::Str(id));
    let p2 = match name {
        Some(x) => strmap::assoc_insert(p1, "name"@, x),
        None => p1,
    };
    strmap::assoc_insert(p2, "type"@, LiteralModel::Str(kind))
}

/// A chunk's own node, its link to the document and the effects of its text.
pub open spec fn chunk_opened<R: TypeRegistry>(
    registry: R,
    path: Seq<char>,
    index: int,
    c: ChunkModel,
    w: Walk,
) -> Walk {
    if w.error is Some {
        w
    } else {
        let key = LiteralModel::Str(chunk_id(path, c.id));
        match semantic_text(registry, CHUNK_LABEL@, key, "text"@, c.text) {
            Err(e) => failed(w, e),
            Ok((text, effects)) => Walk {
                gathered: Gathered {
                    chunk_rows: w.gathered.chunk_rows.push(
                        NodeDataModel { id: key, props: chunk_props(path, c.id, index, text) },
                    ),
                    has_chunk_rows: w.gathered.has_chunk_rows.push(
                        RelationDataModel { from_id: LiteralModel::Str(path), to_id: key },
                    ),
                    effects: w.gathered.effects + effects,
                    ..w.gathered
                },
                error: None,
            },
        }
    }
}

/// One entity of a chunk: its node, the mention, and its handle.
pub open spec fn entity_added<R: TypeRegistry>(
    registry: R,
    path: Seq<char>,
    c: ChunkModel,
    e: EntityModel,
    w: Walk,
    local: LocalModel,
) -> (Walk, LocalModel) {
    if w.error is Some {
        (w, local)
    } else {
        match sanitized_label(e.kind) {
            None => (failed(w, IngestErrorModel::InvalidLabel(e.kind)), local),
            Some(label) => if reserved_label(label) {
                (failed(w, IngestErrorModel::ReservedLabel(label)), local)
            } else {
                let id = entity_id(path, c.id, e.id);
                let key = LiteralModel::Str(id);
                match semantic_text(registry, label, key, "name"@, e.name) {
                    Err(err) => (failed(w, err), local),
                    Ok((name, effects)) => (
                        Walk {
                            gathered: Gathered {
                                entities: strmap::assoc_push(
                                    w.gathered.entities,
                                    label,
                                    NodeDataModel {
                                        id: key,
                                        props: entity_props(id, e.kind, name),
                                    },
                                ),
                                mentions: strmap::assoc_push(
                                    w.gathered.mentions,
                                    label,
                                    RelationDataModel {
                                        from_id: LiteralModel::Str(chunk_id(path, c.id)),
                                        to_id: key,
                                    },
                                ),
                                effects: w.gathered.effects + effects,
                                ..w.gathered
                            },
                            error: None,
                        },
                        strmap::assoc_insert(local, e.id, (label, id)),
                    ),
                }
            },
        }
    }
}

/// The first `n` entities of a chunk.
pub open spec fn entities_added<R: TypeRegistry>(
    registry: R,
    path: Seq<char>,
    c: ChunkModel,
    n: nat,
    w: Walk,
) -> (Walk, LocalModel)
    decreases n,
{
    if n == 0 {
        (w, Seq::empty())
    } else {
        let (v, local) = entities_added(registry, path, c, (n - 1) as nat, w);
        entity_added(registry, path, c, c.entities[n - 1], v, local)
    }
}

/// One relation of a chunk, between entities known by their handles.
pub open spec fn relation_added(
    c: ChunkModel,
    local: LocalModel,
    r: RelationModel,
    w: Walk,
) -> Walk {
    if w.error is Some {
        w
    } else {
        match strmap::assoc_get(local, r.from) {
            None => failed(
                w,
                IngestErrorModel::UnknownLocalId { chunk: c.id, local_id: r.from },
            ),
            Some(from) => match strmap::assoc_get(local, r.to) {
                None => failed(
                    w,
                    IngestErrorModel::UnknownLocalId { chunk: c.id, local_id: r.to },
                ),
                Some(to) => match sanitized_rel(r.kind) {
                    None => failed(w, IngestErrorModel::InvalidLabel(r.kind)),
                    Some(kind) => if reserved_relation(kind) {
                        failed(w, IngestErrorModel::ReservedRelation(kind))
                    } else {
                        Walk {
                            gathered: Gathered {
                                user_rels: groups::group_push(
                                    w.gathered.user_rels,
                                    seq![kind, from.0, to.0],
                                    RelationDataModel {
                                        from_id: LiteralModel::Str(from.1),
                                        to_id: LiteralModel::Str(to.1),
                                    },
                                ),
                                ..w.gathered
                            },
                            error: None,
                        }
                    },
                },
            },
        }
    }
}

/// The first `n` relations of a chunk.
pub open spec fn relations_added(c: ChunkModel, local: LocalModel, n: nat, w: Walk) -> Walk
    decreases n,
{
    if n == 0 {
        w
    } else {
        relation_added(
            c,
            local,
            c.relations[n - 1],
            relations_added(c, local, (n - 1) as nat, w),
        )
    }
}

/// A whole chunk: its node, its entities, then its relations.
pub open spec fn chunk_walked<R: TypeRegistry>(
    registry: R,
    path: Seq<char>,
    index: int,
    c: ChunkModel,
    w: Walk,
) -> Walk {
    let opened = chunk_opened(registry, path, index, c, w);
    let (v, local) = entities_added(registry, path, c, c.entities.len(), opened);
    relations_added(c, local, c.relations.len(), v)
}

/// The first `n` chunks of a document.
pub open spec fn walked<R: TypeRegistry>(registry: R, doc: DocumentModel, n: nat) -> Walk
    decreases n,
{
    if n == 0 {
        walk_start()
    } else {
        chunk_walked(
            registry,
            doc.path,
            n - 1,
            doc.chunks[n - 1],
            walked(registry, doc, (n - 1) as nat),
        )
    }
}

/// The plan of the document node.
pub open spec fn document_plan(doc: DocumentModel) -> NodePlanModel {
    let p1 = strmap::assoc_insert(
        Seq::<(Seq<char>, LiteralModel)>::empty(),
        "path"@,
        LiteralModel::Str(doc.path),
    );
    NodePlanModel {
        label: DOCUMENT_LABEL@,
        merge_on: "path"@,
        rows: seq![
            NodeDataModel {
                id: LiteralModel::Str(doc.path),
                props: strmap::assoc_insert(p1, "name"@, LiteralModel::Str(doc.name)),
            },
        ],
    }
}

/// Node rows of one label, sorted by id.
pub open spec fn node_plan(label: Seq<char>, rows: Seq<NodeDataModel>) -> NodePlanModel {
    NodePlanModel {
        label,
        merge_on: "id"@,
        rows: sorting::sorted_by(rows, dsl::node_row_le()),
    }
}

/// Relation rows between two labels, sorted by the ids at their ends.
pub open spec fn relation_plan(
    rel_type: Seq<char>,
    from_label: Seq<char>,
    from_key: Seq<char>,
    to_label: Seq<char>,
    rows: Seq<RelationDataModel>,
) -> RelationPlanModel {
    RelationPlanModel {
        rel_type,
        from_label,
        from_key,
        to_label,
        to_key: "id"@,
        rows: sorting::sorted_by(rows, dsl::relation_row_le()),
    }
}

pub open spec fn entity_plans(groups: Seq<(Seq<char>, Seq<NodeDataModel>)>) -> Seq<NodePlanModel> {
    groups.map_values(|g: (Seq<char>, Seq<NodeDataModel>)| node_plan(g.0, g.1))
}

pub open spec fn mention_plans(groups: Seq<(Seq<char>, Seq<RelationDataModel>)>) -> Seq<
    RelationPlanModel,
> {
    groups.map_values(
        |g: (Seq<char>, Seq<RelationDataModel>)|
            relation_plan(MENTIONS_REL@, CHUNK_LABEL@, "id"@, g.0, g.1),
    )
}

pub open spec fn user_plans(groups: Seq<(Seq<Seq<char>>, Seq<RelationDataModel>)>) -> Seq<
    RelationPlanModel,
> {
    groups.map_values(
        |g: (Seq<Seq<char>>, Seq<RelationDataModel>)|
            relation_plan(g.0[0], g.0[1], "id"@, g.0[2], g.1),
    )
}

/// The insert plan of what a walk has gathered: the document, its chunks, the
/// entities by label; the chunk links, the mentions by label, and the relations
/// by type and labels.
pub open spec fn assembled(doc: DocumentModel, g: Gathered) -> InsertPlanModel {
    let chunk_nodes = if g.chunk_rows.len() > 0 {
        seq![node_plan(CHUNK_LABEL@, g.chunk_rows)]
    } else {
        Seq::empty()
    };
    let chunk_links = if g.has_chunk_rows.len() > 0 {
        seq![
            relation_plan(HAS_CHUNK_REL@, DOCUMENT_LABEL@, "path"@, CHUNK_LABEL@, g.has_chunk_rows),
        ]
    } else {
        Seq::empty()
    };
    InsertPlanModel {
        action: "insert"@,
        nodes: seq![document_plan(doc)] + chunk_nodes + entity_plans(g.entities),
        relations: chunk_links + mention_plans(g.mentions) + user_plans(g.user_rels),
    }
}

/// What is said when no `SemanticText` handler is registered.
pub open spec fn handler_required() -> Seq<char> {
    "document ingest requires a `"@ + SEMANTIC_TEXT@
        + "` handler to be registered (it embeds chunk text and entity names for semantic search)"@
}

/// The outcome of planning a document.
pub open spec fn document_outcome<R: TypeRegistry>(
    registry: R,
    max_batch_size: usize,
    doc: DocumentModel,
) -> Result<InsertPlanModel, IngestErrorModel> {
    if max_batch_size == 0 {
        Err(IngestErrorModel::InvalidBatchSize)
    } else if !registry.registered(SEMANTIC_TEXT@) {
        Err(IngestErrorModel::Type(handler_required()))
    } else {
        let w = walked(registry, doc, doc.chunks.len());
        match w.error {
            Some(e) => Err(e),
            None => Ok(assembled(doc, w.gathered)),
        }
    }
}

/// The effects that planning a document queues, also where it ends in an error.
pub open spec fn document_effects<R: TypeRegistry>(
    registry: R,
    max_batch_size: usize,
    doc: DocumentModel,
) -> Seq<SideEffectModel> {
    if max_batch_size == 0 || !registry.registered(SEMANTIC_TEXT@) {
        Seq::empty()
    } else {
        walked(registry, doc, doc.chunks.len()).gathered.effects
    }
}

struct ResolvedEntity {
    label: String,
    uuid: String,
}

impl DeepView for ResolvedEntity {
    type V = (Seq<char>, Seq<char>);

    closed spec fn deep_view(&self) -> (Seq<char>, Seq<char>) {
        (self.label@, self.uuid@)
    }
}

struct Gathering {
    chunk_rows: Vec<NodeData>,
    has_chunk_rows: Vec<RelationData>,
    entities: StrMap<Vec<NodeData>>,
    mentions: StrMap<Vec<RelationData>>,
    user_rels: Vec<(Vec<String>, Vec<RelationData>)>,
    effects: Vec<SideEffect>,
}

impl Gathering {
    spec fn model(&self) -> Gathered {
        Gathered {
            chunk_rows: self.chunk_rows.deep_view(),
            has_chunk_rows: self.has_chunk_rows.deep_view(),
            entities: self.entities.deep_view(),
            mentions: self.mentions.deep_view(),
            user_rels: self.user_rels.deep_view(),
            effects: self.effects.deep_view(),
        }
    }

    spec fn wf(&self) -> bool {
        self.entities.wf() && self.mentions.wf()
    }
}

spec fn stepped(w: Walk, g: Gathering, r: Result<(), IngestError>) -> bool {
    w == (Walk {
        gathered: g.model(),
        error: match r {
            Ok(_) => None,
            Err(e) => Some(e.deep_view()),
        },
    })
}

spec fn going(g: Gathering) -> Walk {
    Walk { gathered: g.model(), error: None }
}

fn push_node(rows: &mut Vec<NodeData>, row: NodeData)
    ensures
        final(rows).deep_view() == old(rows).deep_view().push(row.deep_view()),
{
    rows.push(row);
    assert(rows.deep_view() =~= old(rows).deep_view().push(row.deep_view()));
}

fn push_relation(rows: &mut Vec<RelationData>, row: RelationData)
    ensures
        final(rows).deep_view() == old(rows).deep_view().push(row.deep_view()),
{
    rows.push(row);
    assert(rows.deep_view() =~= old(rows).deep_view().push(row.deep_view()));
}

fn append_effects(queue: &mut Vec<SideEffect>, more: Vec<SideEffect>)
    ensures
        final(queue).deep_view() == old(queue).deep_view() + more.deep_view(),
{
    let ghost added = more.deep_view();
    let mut more = more;
    queue.append(&mut more);
    assert(queue.deep_view() =~= old(queue).deep_view() + added);
}

fn open_chunk<R: TypeRegistry>(
    registry: &R,
    path: &str,
    index: usize,
    c: &ChunkInput,
    g: &mut Gathering,
) -> (r: Result<(), IngestError>)
    requires
        registry.registered(SEMANTIC_TEXT@),
        old(g).wf(),
    ensures
        final(g).wf(),
        stepped(
            chunk_opened(*registry, path@, index as int, c.deep_view(), going(*old(g))),
            *final(g),
            r,
        ),
{
    let id = chunk_uuid(path, c.id.as_str());
    let key = Literal::String(id.clone());
    match apply_semantic_text(registry, CHUNK_LABEL, &key, "text", c.text.as_str()) {
        Err(e) => Err(e),
        Ok((stored, effects)) => {
            let mut props: StrMap<Literal> = StrMap::new();
            if let Some(x) = stored {
                props.insert("text".to_owned(), x);
            }
            props.insert("index".to_owned(), Literal::Int(index as i64));
            props.insert("document_path".to_owned(), Literal::String(path.to_owned()));
            props.insert("local_id".to_owned(), Literal::String(c.id.clone()));
            push_relation(
                &mut g.has_chunk_rows,
                RelationData {
                    from_id: Literal::String(path.to_owned()),
                    to_id: copy_literal(&key),
                },
            );
            push_node(&mut g.chunk_rows, NodeData { id: key, props });
            append_effects(&mut g.effects, effects);
            Ok(())
        },
    }
}

fn add_entity<R: TypeRegistry>(
    registry: &R,
    path: &str,
    c: &ChunkInput,
    e: &EntityInput,
    g: &mut Gathering,
    local: &mut StrMap<ResolvedEntity>,
) -> (r: Result<(), IngestError>)
    requires
        registry.registered(SEMANTIC_TEXT@),
        old(g).wf(),
    ensures
        final(g).wf(),
        stepped(
            entity_added(
                *registry,
                path@,
                c.deep_view(),
                e.deep_view(),
                going(*old(g)),
                old(local).deep_view(),
            ).0,
            *final(g),
            r,
        ),
        final(local).deep_view() == entity_added(
            *registry,
            path@,
            c.deep_view(),
            e.deep_view(),
            going(*old(g)),
            old(local).deep_view(),
        ).1,
{
    let label = match sanitize_label(e.kind.as_str()) {
        None => {
            return Err(IngestError::InvalidLabel(e.kind.clone()));
        },
        Some(l) => l,
    };
    if is_reserved_label(label.as_str()) {
        return Err(IngestError::ReservedLabel(label));
    }
    let uuid = entity_uuid(path, c.id.as_str(), e.id.as_str());
    let key = Literal::String(uuid.clone());
    match apply_semantic_text(registry, label.as_str(), &key, "name", e.name.as_str()) {
        Err(err) => Err(err),
        Ok((stored, effects)) => {
            let mut props: StrMap<Literal> = StrMap::new();
            props.insert("id".to_owned(), copy_literal(&key));
            if let Some(x) = stored {
                props.insert("name".to_owned(), x);
            }
            props.insert("type".to_owned(), Literal::String(e.kind.clone()));
            g.mentions.push_to(
                label.as_str(),
                RelationData {
                    from_id: Literal::String(chunk_uuid(path, c.id.as_str())),
                    to_id: copy_literal(&key),
                },
            );
            g.entities.push_to(label.as_str(), NodeData { id: key, props });
            append_effects(&mut g.effects, effects);
            local.insert(e.id.clone(), ResolvedEntity { label, uuid });
            Ok(())
        },
    }
}

fn add_relation(
    c: &ChunkInput,
    local: &StrMap<ResolvedEntity>,
    rel: &RelationInput,
    g: &mut Gathering,
) -> (r: Result<(), IngestError>)
    requires
        old(g).wf(),
    ensures
        final(g).wf(),
        stepped(
            relation_added(c.deep_view(), local.deep_view(), rel.deep_view(), going(*old(g))),
            *final(g),
            r,
        ),
{
    let from = match local.get(rel.from.as_str()) {
        None => {
            return Err(
                IngestError::UnknownLocalId { chunk: c.id.clone(), local_id: rel.from.clone() },
            );
        },
        Some(x) => x,
    };
    let to = match local.get(rel.to.as_str()) {
        None => {
            return Err(
                IngestError::UnknownLocalId { chunk: c.id.clone(), local_id: rel.to.clone() },
            );
        },
        Some(x) => x,
    };
    let kind = match sanitize_rel(rel.kind.as_str()) {
        None => {
            return Err(IngestError::InvalidLabel(rel.kind.clone()));
        },
        Some(k) => k,
    };
    if is_reserved_relation(kind.as_str()) {
        return Err(IngestError::ReservedRelation(kind));
    }
    let mut key: Vec<String> = Vec::new();
    let ghost kind_text = kind@;
    key.push(kind);
    key.push(from.label.clone());
    key.push(to.label.clone());
    assert(key.deep_view() =~= seq![kind_text, from.label@, to.label@]);
    groups::push_to_group(
        &mut g.user_rels,
        key,
        RelationData {
            from_id: Literal::String(from.uuid.clone()),
            to_id: Literal::String(to.uuid.clone()),
        },
    );
    Ok(())
}

proof fn entities_stay_failed<R: TypeRegistry>(
    registry: R,
    path: Seq<char>,
    c: ChunkModel,
    n: nat,
    m: nat,
    w: Walk,
)
    requires
        n <= m,
        entities_added(registry, path, c, n, w).0.error is Some,
    ensures
        entities_added(registry, path, c, m, w) == entities_added(registry, path, c, n, w),
    decreases m - n,
{
    if n < m {
        entities_stay_failed(registry, path, c, n, (m - 1) as nat, w);
    }
}

proof fn relations_stay_failed(c: ChunkModel, local: LocalModel, n: nat, m: nat, w: Walk)
    requires
        n <= m,
        relations_added(c, local, n, w).error is Some,
    ensures
        relations_added(c, local, m, w) == relations_added(c, local, n, w),
    decreases m - n,
{
    if n < m {
        relations_stay_failed(c, local, n, (m - 1) as nat, w);
    }
}

proof fn chunk_stays_failed<R: TypeRegistry>(
    registry: R,
    path: Seq<char>,
    index: int,
    c: ChunkModel,
    w: Walk,
)
    requires
        w.error is Some,
    ensures
        chunk_walked(registry, path, index, c, w) == w,
{
    let (v, local) = entities_added(registry, path, c, c.entities.len(), w);
    entities_stay_failed(registry, path, c, 0, c.entities.len(), w);
    relations_stay_failed(c, local, 0, c.relations.len(), v);
}

proof fn walk_stays_failed<R: TypeRegistry>(registry: R, doc: DocumentModel, n: nat, m: nat)
    requires
        n <= m,
        walked(registry, doc, n).error is Some,
    ensures
        walked(registry, doc, m) == walked(registry, doc, n),
    decreases m - n,
{
    if n < m {
        walk_stays_failed(registry, doc, n, (m - 1) as nat);
        chunk_stays_failed(
            registry,
            doc.path,
            m - 1,
            doc.chunks[m - 1],
            walked(registry, doc, (m - 1) as nat),
        );
    }
}

fn walk_chunk<R: TypeRegistry>(
    registry: &R,
    path: &str,
    index: usize,
    c: &ChunkInput,
    g: &mut Gathering,
) -> (r: Result<(), IngestError>)
    requires
        registry.registered(SEMANTIC_TEXT@),
        old(g).wf(),
    ensures
        final(g).wf(),
        stepped(
            chunk_walked(*registry, path@, index as int, c.deep_view(), going(*old(g))),
            *final(g),
            r,
        ),
{
    let ghost cm = c.deep_view();
    let ghost opened = chunk_opened(*registry, path@, index as int, cm, going(*g));
    if let Err(e) = open_chunk(registry, path, index, c, g) {
        proof {
            entities_stay_failed(*registry, path@, cm, 0, cm.entities.len(), opened);
            relations_stay_failed(
                cm,
                entities_added(*registry, path@, cm, cm.entities.len(), opened).1,
                0,
                cm.relations.len(),
                opened,
            );
        }
        return Err(e);
    }
    let mut local: StrMap<ResolvedEntity> = StrMap::new();
    let mut i: usize = 0;
    while i < c.entities.len()
        invariant
            cm == c.deep_view(),
            registry.registered(SEMANTIC_TEXT@),
            g.wf(),
            0 <= i <= c.entities@.len(),
            entities_added(*registry, path@, cm, i as nat, opened) == (
                going(*g),
                local.deep_view(),
            ),
            chunk_walked(*registry, path@, index as int, cm, going(*old(g))) == relations_added(
                cm,
                entities_added(*registry, path@, cm, cm.entities.len(), opened).1,
                cm.relations.len(),
                entities_added(*registry, path@, cm, cm.entities.len(), opened).0,
            ),
        decreases c.entities@.len() - i,
    {
        assert(cm.entities[i as int] == c.entities@[i as int].deep_view());
        match add_entity(registry, path, c, &c.entities[i], g, &mut local) {
            Err(e) => {
                proof {
                    let n = (i + 1) as nat;
                    let (v, l) = entities_added(*registry, path@, cm, n, opened);
                    assert(v.error is Some);
                    entities_stay_failed(*registry, path@, cm, n, cm.entities.len(), opened);
                    relations_stay_failed(cm, l, 0, cm.relations.len(), v);
                }
                return Err(e);
            },
            Ok(_) => {},
        }
        i += 1;
    }
    let ghost start = going(*g);
    let mut j: usize = 0;
    while j < c.relations.len()
        invariant
            cm == c.deep_view(),
            g.wf(),
            0 <= j <= c.relations@.len(),
            relations_added(cm, local.deep_view(), j as nat, start) == going(*g),
            chunk_walked(*registry, path@, index as int, cm, going(*old(g))) == relations_added(
                cm,
                local.deep_view(),
                cm.relations.len(),
                start,
            ),
        decreases c.relations@.len() - j,
    {
        assert(cm.relations[j as int] == c.relations@[j as int].deep_view());
        match add_relation(c, &local, &c.relations[j], g) {
            Err(e) => {
                proof {
                    relations_stay_failed(
                        cm,
                        local.deep_view(),
                        (j + 1) as nat,
                        cm.relations.len(),
                        start,
                    );
                }
                return Err(e);
            },
            Ok(_) => {},
        }
        j += 1;
    }
    Ok(())
}

fn entity_node_plans(groups: StrMap<Vec<NodeData>>) -> (r: Vec<NodePlan>)
    ensures
        r.deep_view() == entity_plans(groups.deep_view()),
{
    let ghost all = groups.deep_view();
    let mut entries = groups.entries;
    let mut out: Vec<NodePlan> = Vec::new();
    while entries.len() > 0
        invariant
            entries.deep_view().len() + out.deep_view().len() == all.len(),
            entries.deep_view() == all.skip(out@.len() as int),
            out.deep_view() == entity_plans(all.take(out@.len() as int)),
        decreases entries@.len(),
    {
        let ghost n = out@.len() as int;
        let ghost rest = entries.deep_view();
        assert(rest[0] == all[n]);
        let (label, mut rows) = entries.remove(0);
        assert(entries.deep_view() =~= rest.remove(0));
        assert(entries.deep_view() =~= all.skip(n + 1));
        dsl::sort_node_rows(&mut rows);
        let plan = NodePlan { label, merge_on: "id".to_owned(), rows };
        assert(plan.deep_view() == node_plan(all[n].0, all[n].1));
        let ghost before = out.deep_view();
        out.push(plan);
        assert(out.deep_view() =~= before.push(plan.deep_view()));
        assert(out.deep_view() =~= entity_plans(all.take(n + 1)));
    }
    assert(all.take(out@.len() as int) =~= all);
    out
}

fn mention_relation_plans(groups: StrMap<Vec<RelationData>>) -> (r: Vec<RelationPlan>)
    ensures
        r.deep_view() == mention_plans(groups.deep_view()),
{
    let ghost all = groups.deep_view();
    let mut entries = groups.entries;
    let mut out: Vec<RelationPlan> = Vec::new();
    while entries.len() > 0
        invariant
            entries.deep_view().len() + out.deep_view().len() == all.len(),
            entries.deep_view() == all.skip(out@.len() as int),
            out.deep_view() == mention_plans(all.take(out@.len() as int)),
        decreases entries@.len(),
    {
        let ghost n = out@.len() as int;
        let ghost rest = entries.deep_view();
        assert(rest[0] == all[n]);
        let (label, mut rows) = entries.remove(0);
        assert(entries.deep_view() =~= rest.remove(0));
        assert(entries.deep_view() =~= all.skip(n + 1));
        dsl::sort_relation_rows(&mut rows);
        let plan = RelationPlan {
            rel_type: MENTIONS_REL.to_owned(),
            from_label: CHUNK_LABEL.to_owned(),
            from_key: "id".to_owned(),
            to_label: label,
            to_key: "id".to_owned(),
            rows,
        };
        let ghost before = out.deep_view();
        out.push(plan);
        assert(out.deep_view() =~= before.push(plan.deep_view()));
        assert(out.deep_view() =~= mention_plans(all.take(n + 1)));
    }
    assert(all.take(out@.len() as int) =~= all);
    out
}

fn user_relation_plans(groups: Vec<(Vec<String>, Vec<RelationData>)>) -> (r: Vec<RelationPlan>)
    requires
        forall|i: int|
            0 <= i < groups.deep_view().len() ==> (#[trigger] groups.deep_view()[i]).0.len() == 3,
    ensures
        r.deep_view() == user_plans(groups.deep_view()),
{
    let ghost all = groups.deep_view();
    let mut entries = groups;
    let mut out: Vec<RelationPlan> = Vec::new();
    while entries.len() > 0
        invariant
            forall|i: int| 0 <= i < all.len() ==> (#[trigger] all[i]).0.len() == 3,
            entries.deep_view().len() + out.deep_view().len() == all.len(),
            entries.deep_view() == all.skip(out@.len() as int),
            out.deep_view() == user_plans(all.take(out@.len() as int)),
        decreases entries@.len(),
    {
        let ghost n = out@.len() as int;
        let ghost rest = entries.deep_view();
        assert(rest[0] == all[n]);
        let (key, mut rows) = entries.remove(0);
        assert(entries.deep_view() =~= rest.remove(0));
        assert(entries.deep_view() =~= all.skip(n + 1));
        assert(key.deep_view() == all[n].0);
        assert(key.deep_view().len() == 3);
        assert(key@[0]@ == all[n].0[0] && key@[1]@ == all[n].0[1] && key@[2]@ == all[n].0[2]);
        dsl::sort_relation_rows(&mut rows);
        let plan = RelationPlan {
            rel_type: key[0].clone(),
            from_label: key[1].clone(),
            from_key: "id".to_owned(),
            to_label: key[2].clone(),
            to_key: "id".to_owned(),
            rows,
        };
        let ghost before = out.deep_view();
        out.push(plan);
        assert(out.deep_view() =~= before.push(plan.deep_view()));
        assert(out.deep_view() =~= user_plans(all.take(n + 1)));
    }
    assert(all.take(out@.len() as int) =~= all);
    out
}

/// Every group of user relations is keyed by type and two labels.
pub open spec fn keyed_by_three(g: Gathered) -> bool {
    forall|i: int| 0 <= i < g.user_rels.len() ==> (#[trigger] g.user_rels[i]).0.len() == 3
}

proof fn relations_keep_keys(c: ChunkModel, local: LocalModel, n: nat, w: Walk)
    requires
        keyed_by_three(w.gathered),
    ensures
        keyed_by_three(relations_added(c, local, n, w).gathered),
    decreases n,
{
    if n > 0 {
        relations_keep_keys(c, local, (n - 1) as nat, w);
        let v = relations_added(c, local, (n - 1) as nat, w);
        let r = c.relations[n - 1];
        if relation_added(c, local, r, v) != v && relation_added(c, local, r, v).error is None {
            let from = strmap::assoc_get(local, r.from)->0;
            let to = strmap::assoc_get(local, r.to)->0;
            let kind = sanitized_rel(r.kind)->0;
            groups::group_push_keeps(
                v.gathered.user_rels,
                seq![kind, from.0, to.0],
                RelationDataModel {
                    from_id: LiteralModel::Str(from.1),
                    to_id: LiteralModel::Str(to.1),
                },
                |k: Seq<Seq<char>>| k.len() == 3,
            );
        }
    }
}

proof fn entities_keep_user_rels<R: TypeRegistry>(
    registry: R,
    path: Seq<char>,
    c: ChunkModel,
    n: nat,
    w: Walk,
)
    ensures
        entities_added(registry, path, c, n, w).0.gathered.user_rels == w.gathered.user_rels,
    decreases n,
{
    if n > 0 {
        entities_keep_user_rels(registry, path, c, (n - 1) as nat, w);
    }
}

proof fn walk_keeps_keys<R: TypeRegistry>(registry: R, doc: DocumentModel, n: nat)
    ensures
        keyed_by_three(walked(registry, doc, n).gathered),
    decreases n,
{
    if n > 0 {
        walk_keeps_keys(registry, doc, (n - 1) as nat);
        let w = walked(registry, doc, (n - 1) as nat);
        let c = doc.chunks[n - 1];
        let opened = chunk_opened(registry, doc.path, n - 1, c, w);
        let (v, local) = entities_added(registry, doc.path, c, c.entities.len(), opened);
        entities_keep_user_rels(registry, doc.path, c, c.entities.len(), opened);
        relations_keep_keys(c, local, c.relations.len(), v);
    }
}

fn assemble(doc: &DocumentInput, g: Gathering) -> (r: InsertPlan)
    requires
        keyed_by_three(g.model()),
    ensures
        r.deep_view() == assembled(doc.deep_view(), g.model()),
{
    let ghost gm = g.model();
    let ghost dm = doc.deep_view();
    let Gathering { mut chunk_rows, has_chunk_rows, entities, mentions, user_rels, effects: _ } = g;
    assert(user_rels.deep_view() == gm.user_rels);
    let mut props: StrMap<Literal> = StrMap::new();
    props.insert("path".to_owned(), Literal::String(doc.document.path.clone()));
    props.insert("name".to_owned(), Literal::String(doc.document.name.clone()));
    let mut doc_rows: Vec<NodeData> = Vec::new();
    doc_rows.push(NodeData { id: Literal::String(doc.document.path.clone()), props });
    assert(doc_rows.deep_view() =~= document_plan(dm).rows);
    let mut nodes: Vec<NodePlan> = Vec::new();
    nodes.push(
        NodePlan {
            label: DOCUMENT_LABEL.to_owned(),
            merge_on: "path".to_owned(),
            rows: doc_rows,
        },
    );
    assert(nodes.deep_view() =~= seq![document_plan(dm)]);
    if chunk_rows.len() > 0 {
        dsl::sort_node_rows(&mut chunk_rows);
        nodes.push(
            NodePlan {
                label: CHUNK_LABEL.to_owned(),
                merge_on: "id".to_owned(),
                rows: chunk_rows,
            },
        );
        assert(nodes.deep_view() =~= seq![document_plan(dm)] + seq![
            node_plan(CHUNK_LABEL@, gm.chunk_rows),
        ]);
    } else {
        assert(gm.chunk_rows.len() == 0);
        assert(nodes.deep_view() =~= seq![document_plan(dm)] + Seq::<NodePlanModel>::empty());
    }
    let ghost head = nodes.deep_view();
    let mut more = entity_node_plans(entities);
    let ghost added = more.deep_view();
    nodes.append(&mut more);
    assert(nodes.deep_view() =~= head + added);
    let mut relations: Vec<RelationPlan> = Vec::new();
    assert(relations.deep_view() =~= Seq::<RelationPlanModel>::empty());
    let mut links = has_chunk_rows;
    if links.len() > 0 {
        dsl::sort_relation_rows(&mut links);
        relations.push(
            RelationPlan {
                rel_type: HAS_CHUNK_REL.to_owned(),
                from_label: DOCUMENT_LABEL.to_owned(),
                from_key: "path".to_owned(),
                to_label: CHUNK_LABEL.to_owned(),
                to_key: "id".to_owned(),
                rows: links,
            },
        );
        assert(relations.deep_view() =~= seq![
            relation_plan(
                HAS_CHUNK_REL@,
                DOCUMENT_LABEL@,
                "path"@,
                CHUNK_LABEL@,
                gm.has_chunk_rows,
            ),
        ]);
    } else {
        assert(gm.has_chunk_rows.len() == 0);
    }
    let ghost first = relations.deep_view();
    let mut mention_plans = mention_relation_plans(mentions);
    let ghost second = mention_plans.deep_view();
    relations.append(&mut mention_plans);
    assert(relations.deep_view() =~= first + second);
    let mut user = user_relation_plans(user_rels);
    let ghost third = user.deep_view();
    relations.append(&mut user);
    assert(relations.deep_view() =~= first + second + third);
    InsertPlan { action: "insert".to_owned(), nodes, relations }
}

/// Plan the insertion of a document: pure, with no query run. The registry must
/// hold a `SemanticText` handler; every chunk text and entity name goes through
/// it, and the effects it sets off are queued in `effects` in that order.
pub fn build_document_plan<R: TypeRegistry>(
    doc: &DocumentInput,
    opts: &DocumentIngestOptions,
    registry: &R,
    effects: &mut Vec<SideEffect>,
) -> (r: Result<InsertPlan, IngestError>)
    ensures
        error::outcome_model(r) == document_outcome(
            *registry,
            opts.max_batch_size,
            doc.deep_view(),
        ),
        final(effects).deep_view() == old(effects).deep_view() + document_effects(
            *registry,
            opts.max_batch_size,
            doc.deep_view(),
        ),
{
    assert(effects.deep_view() =~= effects.deep_view() + Seq::<SideEffectModel>::empty());
    if opts.max_batch_size == 0 {
        return Err(IngestError::InvalidBatchSize);
    }
    if !registry.contains(SEMANTIC_TEXT) {
        let mut m = "document ingest requires a `".to_owned();
        m.append(SEMANTIC_TEXT);
        m.append(
            "` handler to be registered (it embeds chunk text and entity names for semantic search)",
        );
        return Err(IngestError::Type(m));
    }
    let ghost dm = doc.deep_view();
    let mut g = Gathering {
        chunk_rows: Vec::new(),
        has_chunk_rows: Vec::new(),
        entities: StrMap::new(),
        mentions: StrMap::new(),
        user_rels: Vec::new(),
        effects: Vec::new(),
    };
    assert(g.chunk_rows.deep_view() =~= Seq::<NodeDataModel>::empty());
    assert(g.has_chunk_rows.deep_view() =~= Seq::<RelationDataModel>::empty());
    assert(g.user_rels.deep_view() =~= Seq::<(Seq<Seq<char>>, Seq<RelationDataModel>)>::empty());
    assert(g.effects.deep_view() =~= Seq::<SideEffectModel>::empty());
    let mut i: usize = 0;
    while i < doc.document.chunks.len()
        invariant
            dm == doc.deep_view(),
            registry.registered(SEMANTIC_TEXT@),
            opts.max_batch_size != 0,
            g.wf(),
            *effects == *old(effects),
            0 <= i <= doc.document.chunks@.len(),
            walked(*registry, dm, i as nat) == going(g),
        decreases doc.document.chunks@.len() - i,
    {
        assert(dm.chunks[i as int] == doc.document.chunks@[i as int].deep_view());
        match walk_chunk(
            registry,
            doc.document.path.as_str(),
            i,
            &doc.document.chunks[i],
            &mut g,
        ) {
            Err(e) => {
                proof {
                    walk_stays_failed(*registry, dm, (i + 1) as nat, dm.chunks.len());
                }
                append_effects(effects, g.effects);
                return Err(e);
            },
            Ok(_) => {},
        }
        i += 1;
    }
    proof {
        walk_keeps_keys(*registry, dm, dm.chunks.len());
    }
    let queued = g.effects;
    g.effects = Vec::new();
    append_effects(effects, queued);
    Ok(assemble(doc, g))
}

} // verus!
