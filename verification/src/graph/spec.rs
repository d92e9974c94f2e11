//! The record of which entity types and properties a graph holds, by key.

use vstd::prelude::*;
use crate::embeddings;
use crate::embeddings::EmbedError;
use crate::embeddings::EmbedErrorModel;
use crate::embeddings::recorded::Recorded;
use crate::embeddings::Embedder;
use crate::graph::schema;
use crate::graph::schema::PropertyType;
use crate::ingest::convert;
use crate::seqs;
use crate::seqs::Copied;
use crate::sorting;
use crate::strmap;
use crate::strmap::StrMap;
use crate::text;

verus! {

broadcast use vstd::string::group_string_axioms;

/// An entity type, with the vector of its description where it was computed.
#[derive(Debug, PartialEq)]
pub struct EntitySpecRecord {
    pub name: String,
    pub description: String,
    pub embedding: Option<Vec<u32>>,
}

pub struct EntitySpecModel {
    pub name: Seq<char>,
    pub description: Seq<char>,
    pub embedding: Option<Seq<u32>>,
}

impl DeepView for EntitySpecRecord {
    type V = EntitySpecModel;

    open spec fn deep_view(&self) -> EntitySpecModel {
        EntitySpecModel {
            name: self.name@,
            description: self.description@,
            embedding: self.embedding.deep_view(),
        }
    }
}

/// A property of an entity type.
#[derive(Debug, PartialEq)]
pub struct PropertySpecRecord {
    pub entity: String,
    pub name: String,
    pub kind: PropertyType,
    pub description: String,
}

pub struct PropertySpecModel {
    pub entity: Seq<char>,
    pub name: Seq<char>,
    pub kind: PropertyType,
    pub description: Seq<char>,
}

impl DeepView for PropertySpecRecord {
    type V = PropertySpecModel;

    open spec fn deep_view(&self) -> PropertySpecModel {
        PropertySpecModel {
            entity: self.entity@,
            name: self.name@,
            kind: self.kind,
            description: self.description@,
        }
    }
}

/// A record of either kind.
#[derive(Debug, PartialEq)]
pub enum SpecRecord {
    Entity(EntitySpecRecord),
    Property(PropertySpecRecord),
}

pub enum SpecModel {
    Entity(EntitySpecModel),
    Property(PropertySpecModel),
}

impl DeepView for SpecRecord {
    type V = SpecModel;

    open spec fn deep_view(&self) -> SpecModel {
        match self {
            SpecRecord::Entity(e) => SpecModel::Entity(e.deep_view()),
            SpecRecord::Property(p) => SpecModel::Property(p.deep_view()),
        }
    }
}

impl Copied for SpecRecord {
    fn copied(&self) -> (r: Self) {
        match self {
            SpecRecord::Entity(e) => SpecRecord::Entity(
                EntitySpecRecord {
                    name: e.name.clone(),
                    description: e.description.clone(),
                    embedding: match &e.embedding {
                        Some(v) => Some(embeddings::cache::copy_vector(v)),
                        None => None,
                    },
                },
            ),
            SpecRecord::Property(p) => SpecRecord::Property(
                PropertySpecRecord {
                    entity: p.entity.clone(),
                    name: p.name.clone(),
                    kind: p.kind,
                    description: p.description.clone(),
                },
            ),
        }
    }
}

/// The key of a property.
pub open spec fn property_key_of(entity: Seq<char>, property: Seq<char>) -> Seq<char> {
    entity + "."@ + property
}

/// The key that a record is held under.
pub open spec fn record_key(r: SpecModel) -> Seq<char> {
    match r {
        SpecModel::Entity(e) => e.name,
        SpecModel::Property(p) => property_key_of(p.entity, p.name),
    }
}

/// The entity type that a record speaks of.
pub open spec fn record_entity(r: SpecModel) -> Seq<char> {
    match r {
        SpecModel::Entity(e) => e.name,
        SpecModel::Property(p) => p.entity,
    }
}

fn property_key(entity: &str, property: &str) -> (r: String)
    ensures
        r@ == property_key_of(entity@, property@),
{
    let mut s = entity.to_owned();
    s.append(".");
    s.append(property);
    s
}

impl EntitySpecRecord {
    /// A record without a vector.
    pub fn new(name: &str, description: &str) -> (r: Self)
        ensures
            r.deep_view() == (EntitySpecModel {
                name: name@,
                description: description@,
                embedding: None,
            }),
    {
        EntitySpecRecord {
            name: name.to_owned(),
            description: description.to_owned(),
            embedding: None,
        }
    }

    /// The key of the record: the name of the type.
    pub fn key(&self) -> (r: String)
        ensures
            r@ == record_key(SpecModel::Entity(self.deep_view())),
    {
        self.name.clone()
    }

    /// The vector, where it was computed.
    pub fn embedding(&self) -> (r: Option<&Vec<u32>>)
        ensures
            r.deep_view() == self.deep_view().embedding,
    {
        match &self.embedding {
            Some(v) => Some(v),
            None => None,
        }
    }
}

/// The handler that filters on a property, where the type is one of text.
pub open spec fn query_type_of(kind: PropertyType) -> Option<Seq<char>> {
    match kind {
        PropertyType::Keyword => Some(schema::handler_of(kind)),
        PropertyType::Text => Some(schema::handler_of(kind)),
        _ => None,
    }
}

impl PropertySpecRecord {
    /// A record of a property.
    pub fn new(entity: &str, name: &str, kind: PropertyType, description: &str) -> (r: Self)
        ensures
            r.deep_view() == (PropertySpecModel {
                entity: entity@,
                name: name@,
                kind,
                description: description@,
            }),
    {
        PropertySpecRecord {
            entity: entity.to_owned(),
            name: name.to_owned(),
            kind,
            description: description.to_owned(),
        }
    }

    /// The key of the record: type and property.
    pub fn key(&self) -> (r: String)
        ensures
            r@ == record_key(SpecModel::Property(self.deep_view())),
    {
        property_key(self.entity.as_str(), self.name.as_str())
    }

    /// The handler that stores the property.
    pub fn type_id(&self) -> (r: &'static str)
        ensures
            r@ == schema::handler_of(self.kind),
    {
        self.kind.handler_id()
    }
}

impl SpecRecord {
    /// The key that the record is held under.
    pub fn key(&self) -> (r: String)
        ensures
            r@ == record_key(self.deep_view()),
    {
        match self {
            SpecRecord::Entity(e) => e.key(),
            SpecRecord::Property(p) => p.key(),
        }
    }

    /// The entity type that the record speaks of.
    pub fn entity_name(&self) -> (r: &str)
        ensures
            r@ == record_entity(self.deep_view()),
    {
        match self {
            SpecRecord::Entity(e) => e.name.as_str(),
            SpecRecord::Property(p) => p.entity.as_str(),
        }
    }

    /// The record of an entity type, if it is one.
    pub fn as_entity(&self) -> (r: Option<&EntitySpecRecord>)
        ensures
            match self {
                SpecRecord::Entity(e) => r == Some(e),
                SpecRecord::Property(_) => r is None,
            },
    {
        match self {
            SpecRecord::Entity(e) => Some(e),
            SpecRecord::Property(_) => None,
        }
    }

    /// The record of a property, if it is one.
    pub fn as_property(&self) -> (r: Option<&PropertySpecRecord>)
        ensures
            match self {
                SpecRecord::Entity(_) => r is None,
                SpecRecord::Property(p) => r == Some(p),
            },
    {
        match self {
            SpecRecord::Entity(_) => None,
            SpecRecord::Property(p) => Some(p),
        }
    }
}

/// The records of a graph, by key.
#[derive(Debug, PartialEq)]
pub struct GraphSpecification {
    pub records: StrMap<SpecRecord>,
}

pub type GraphSpecModel = Seq<(Seq<char>, SpecModel)>;

impl DeepView for GraphSpecification {
    type V = GraphSpecModel;

    open spec fn deep_view(&self) -> GraphSpecModel {
        self.records.deep_view()
    }
}

impl Copied for GraphSpecification {
    fn copied(&self) -> (r: Self) {
        GraphSpecification { records: self.records.copied() }
    }
}

/// Keys ascend, and each record stands under its own key.
pub open spec fn well_keyed(s: GraphSpecModel) -> bool {
    strmap::assoc_sorted(s) && forall|i: int|
        0 <= i < s.len() ==> (#[trigger] s[i]).0 == record_key(s[i].1)
}

/// The records with one more, in place of what its key held.
pub open spec fn with_record_of(s: GraphSpecModel, r: SpecModel) -> GraphSpecModel {
    strmap::assoc_insert(s, record_key(r), r)
}

/// The records of `s` with those of `other` put in.
pub open spec fn merged_records(s: GraphSpecModel, other: GraphSpecModel) -> GraphSpecModel
    decreases other.len(),
{
    if other.len() == 0 {
        s
    } else {
        with_record_of(merged_records(s, other.drop_last()), other.last().1)
    }
}

proof fn insert_keeps_keys(s: GraphSpecModel, r: SpecModel)
    requires
        forall|i: int| 0 <= i < s.len() ==> (#[trigger] s[i]).0 == record_key(s[i].1),
    ensures
        forall|i: int|
            0 <= i < with_record_of(s, r).len() ==> (#[trigger] with_record_of(s, r)[i]).0
                == record_key(with_record_of(s, r)[i].1),
    decreases s.len(),
{
    let t = with_record_of(s, r);
    if s.len() > 0 {
        let rest = s.drop_first();
        assert forall|i: int| 0 <= i < rest.len() implies (#[trigger] rest[i]).0 == record_key(
            rest[i].1,
        ) by {
            assert(rest[i] == s[i + 1]);
        }
        insert_keeps_keys(rest, r);
        assert forall|i: int| 0 <= i < t.len() implies (#[trigger] t[i]).0 == record_key(
            t[i].1,
        ) by {
            if s[0].0 == record_key(r) {
                if i > 0 {
                    assert(t[i] == s[i]);
                }
            } else if text::lex_lt(s[0].0, record_key(r)) {
                if i > 0 {
                    assert(t[i] == with_record_of(rest, r)[i - 1]);
                } else {
                    assert(t[0] == s[0]);
                }
            } else {
                if i > 0 {
                    assert(t[i] == s[i - 1]);
                }
            }
        }
    }
}

/// Putting a record in keeps every record under its own key.
pub proof fn law_insert_keeps_well_keyed(s: GraphSpecModel, r: SpecModel)
    requires
        well_keyed(s),
    ensures
        well_keyed(with_record_of(s, r)),
{
    strmap::law_insert_keeps_order(s, record_key(r), r);
    insert_keeps_keys(s, r);
}

/// A merge holds the incoming record under each of its keys and leaves every
/// other key as it was.
pub proof fn law_merge_prefers_incoming(s: GraphSpecModel, other: GraphSpecModel, k: Seq<char>)
    requires
        well_keyed(other),
    ensures
        strmap::assoc_get(merged_records(s, other), k) == (match strmap::assoc_get(other, k) {
            Some(r) => Some(r),
            None => strmap::assoc_get(s, k),
        }),
    decreases other.len(),
{
    if other.len() > 0 {
        let rest = other.drop_last();
        assert(well_keyed(rest)) by {
            assert forall|i: int, j: int| 0 <= i < j < rest.len() implies #[trigger] text::lex_lt(
                rest[i].0,
                rest[j].0,
            ) by {
                assert(text::lex_lt(other[i].0, other[j].0));
            }
            assert forall|i: int| 0 <= i < rest.len() implies (#[trigger] rest[i]).0 == record_key(
                rest[i].1,
            ) by {
                assert(rest[i] == other[i]);
            }
        }
        law_merge_prefers_incoming(s, rest, k);
        let last = other.last();
        assert(other[other.len() - 1] == last);
        let key = record_key(last.1);
        assert(last.0 == key);
        let before = merged_records(s, rest);
        get_from_front(other, k);
        if k == key {
            strmap::law_get_after_insert(before, key, last.1);
            if strmap::assoc_get(rest, k) is Some {
                let i = strmap::get_is_an_entry(rest, k);
                assert(text::lex_lt(other[i].0, other[other.len() - 1].0));
                text::lex_lt_irreflexive(k);
            }
        } else {
            strmap::law_get_other_after_insert(before, key, last.1, k);
        }
    }
}

proof fn get_from_front(s: GraphSpecModel, k: Seq<char>)
    requires
        s.len() > 0,
    ensures
        strmap::assoc_get(s, k) == (match strmap::assoc_get(s.drop_last(), k) {
            Some(r) => Some(r),
            None => if s.last().0 == k {
                Some(s.last().1)
            } else {
                None
            },
        }),
    decreases s.len(),
{
    if s.len() > 1 && s[0].0 != k {
        get_from_front(s.drop_first(), k);
        assert(s.drop_first().drop_last() =~= s.drop_last().drop_first());
    } else if s.len() == 1 {
        assert(s.drop_first() =~= Seq::<(Seq<char>, SpecModel)>::empty());
        assert(s.drop_last() =~= Seq::<(Seq<char>, SpecModel)>::empty());
    }
}

/// The records of an entity type, in the order of the keys.
pub open spec fn records_of(s: GraphSpecModel, entity: Seq<char>) -> Seq<SpecModel>
    decreases s.len(),
{
    if s.len() == 0 {
        Seq::empty()
    } else if record_entity(s.last().1) == entity {
        records_of(s.drop_last(), entity).push(s.last().1)
    } else {
        records_of(s.drop_last(), entity)
    }
}

/// The properties of an entity type, in the order of the keys.
pub open spec fn properties_of(s: GraphSpecModel, entity: Seq<char>) -> Seq<PropertySpecModel>
    decreases s.len(),
{
    if s.len() == 0 {
        Seq::empty()
    } else {
        let before = properties_of(s.drop_last(), entity);
        match s.last().1 {
            SpecModel::Property(p) => if p.entity == entity {
                before.push(p)
            } else {
                before
            },
            SpecModel::Entity(_) => before,
        }
    }
}

/// Properties by name.
pub open spec fn property_order() -> spec_fn(PropertySpecModel, PropertySpecModel) -> bool {
    |a: PropertySpecModel, b: PropertySpecModel| text::lex_le(a.name, b.name)
}

/// A line on each property.
pub open spec fn property_lines(properties: Seq<PropertySpecModel>) -> Seq<char>
    decreases properties.len(),
{
    if properties.len() == 0 {
        Seq::empty()
    } else {
        let p = properties.last();
        property_lines(properties.drop_last()) + ("\n- "@ + p.name + " ("@ + convert::type_word(
            p.kind,
        ) + "): "@ + p.description)
    }
}

/// The passage that is embedded for an entity type.
pub open spec fn embedding_text_of(s: GraphSpecModel, e: EntitySpecModel) -> Seq<char> {
    let properties = sorting::sorted_by(properties_of(s, e.name), property_order());
    let head = e.name + " - "@ + e.description + "\n"@;
    if properties.len() == 0 {
        head
    } else {
        head + "Properties:"@ + property_lines(properties)
    }
}

/// The entity types without a vector, with the passages to embed for them.
pub open spec fn pending_of(s: GraphSpecModel, whole: GraphSpecModel) -> Seq<(Seq<char>, Seq<char>)>
    decreases s.len(),
{
    if s.len() == 0 {
        Seq::empty()
    } else {
        let before = pending_of(s.drop_last(), whole);
        match s.last().1 {
            SpecModel::Entity(e) => if e.embedding is None {
                before.push((e.name, embedding_text_of(whole, e)))
            } else {
                before
            },
            SpecModel::Property(_) => before,
        }
    }
}

/// The records with a vector put on the entity type under `key`; nothing
/// changes where no entity type is held there.
pub open spec fn with_vector(s: GraphSpecModel, key: Seq<char>, vector: Seq<u32>) ->
    GraphSpecModel {
    match strmap::assoc_get(s, key) {
        Some(SpecModel::Entity(e)) => strmap::assoc_insert(
            s,
            key,
            SpecModel::Entity(EntitySpecModel { embedding: Some(vector), ..e }),
        ),
        _ => s,
    }
}

/// The records with the vectors of the jobs put on.
pub open spec fn with_vectors(
    s: GraphSpecModel,
    jobs: Seq<(Seq<char>, Seq<char>)>,
    vectors: Seq<Seq<u32>>,
) -> GraphSpecModel
    decreases jobs.len(),
{
    if jobs.len() == 0 {
        s
    } else {
        with_vector(
            with_vectors(s, jobs.drop_last(), vectors.drop_last()),
            jobs.last().0,
            vectors.last(),
        )
    }
}

/// What a record becomes where a vector is put on an entity type.
spec fn filled(before: SpecModel, after: SpecModel, due: bool) -> bool {
    match before {
        SpecModel::Entity(e) => match after {
            SpecModel::Entity(f) => f.name == e.name && (e.embedding is Some || due
                ==> f.embedding is Some),
            SpecModel::Property(_) => false,
        },
        SpecModel::Property(_) => after == before,
    }
}

spec fn is_due(jobs: Seq<(Seq<char>, Seq<char>)>, key: Seq<char>) -> bool {
    exists|j: int| 0 <= j < jobs.len() && (#[trigger] jobs[j]).0 == key
}

proof fn one_vector_fills(s: GraphSpecModel, key: Seq<char>, vector: Seq<u32>)
    requires
        well_keyed(s),
    ensures
        well_keyed(with_vector(s, key, vector)),
        with_vector(s, key, vector).len() == s.len(),
        forall|i: int|
            0 <= i < s.len() ==> (#[trigger] with_vector(s, key, vector)[i]).0 == s[i].0 && filled(
                s[i].1,
                with_vector(s, key, vector)[i].1,
                s[i].0 == key,
            ),
{
    let t = with_vector(s, key, vector);
    match strmap::assoc_get(s, key) {
        Some(SpecModel::Entity(e)) => {
            let at = strmap::get_is_an_entry(s, key);
            let r = SpecModel::Entity(EntitySpecModel { embedding: Some(vector), ..e });
            strmap::update_in_place(s, key, r, at);
            assert(s[at].0 == record_key(s[at].1));
            assert(record_key(r) == key);
            law_insert_keeps_well_keyed(s, r);
            assert forall|i: int| 0 <= i < s.len() implies (#[trigger] t[i]).0 == s[i].0 && filled(
                s[i].1,
                t[i].1,
                s[i].0 == key,
            ) by {
                if i != at && s[i].0 == key {
                    strmap::entry_is_read(s, i);
                    assert(text::lex_lt(s[i].0, s[at].0) || text::lex_lt(s[at].0, s[i].0));
                    text::lex_lt_irreflexive(key);
                }
            }
        },
        _ => {
            assert forall|i: int| 0 <= i < s.len() implies (#[trigger] t[i]).0 == s[i].0 && filled(
                s[i].1,
                t[i].1,
                s[i].0 == key,
            ) by {
                strmap::entry_is_read(s, i);
            }
        },
    }
}

proof fn vectors_fill(
    s: GraphSpecModel,
    jobs: Seq<(Seq<char>, Seq<char>)>,
    vectors: Seq<Seq<u32>>,
)
    requires
        well_keyed(s),
    ensures
        well_keyed(with_vectors(s, jobs, vectors)),
        with_vectors(s, jobs, vectors).len() == s.len(),
        forall|i: int|
            0 <= i < s.len() ==> (#[trigger] with_vectors(s, jobs, vectors)[i]).0 == s[i].0
                && filled(s[i].1, with_vectors(s, jobs, vectors)[i].1, is_due(jobs, s[i].0)),
    decreases jobs.len(),
{
    if jobs.len() > 0 {
        let rest = jobs.drop_last();
        let before = with_vectors(s, rest, vectors.drop_last());
        let t = with_vectors(s, jobs, vectors);
        vectors_fill(s, rest, vectors.drop_last());
        one_vector_fills(before, jobs.last().0, vectors.last());
        assert forall|i: int| 0 <= i < s.len() implies (#[trigger] t[i]).0 == s[i].0 && filled(
            s[i].1,
            t[i].1,
            is_due(jobs, s[i].0),
        ) by {
            assert(before[i].0 == s[i].0);
            if is_due(jobs, s[i].0) {
                let j = choose|j: int| 0 <= j < jobs.len() && (#[trigger] jobs[j]).0 == s[i].0;
                if j < rest.len() {
                    assert(rest[j].0 == s[i].0);
                }
            }
        }
    }
}

proof fn pending_are_listed(s: GraphSpecModel, whole: GraphSpecModel, i: int)
    requires
        0 <= i < s.len(),
        s[i].1 matches SpecModel::Entity(e) && e.embedding is None,
    ensures
        is_due(pending_of(s, whole), record_key(s[i].1)),
    decreases s.len(),
{
    let all = pending_of(s, whole);
    let before = pending_of(s.drop_last(), whole);
    if i < s.len() - 1 {
        pending_are_listed(s.drop_last(), whole, i);
        let key = record_key(s[i].1);
        let j = choose|j: int| 0 <= j < before.len() && (#[trigger] before[j]).0 == key;
        assert(all[j].0 == key);
    } else {
        assert(all[all.len() - 1].0 == record_key(s[i].1));
    }
}

proof fn none_is_pending(s: GraphSpecModel, whole: GraphSpecModel)
    requires
        forall|i: int|
            0 <= i < s.len() ==> ((#[trigger] s[i]).1 matches SpecModel::Entity(e)
                ==> e.embedding is Some),
    ensures
        pending_of(s, whole).len() == 0,
    decreases s.len(),
{
    if s.len() > 0 {
        let rest = s.drop_last();
        assert forall|i: int| 0 <= i < rest.len() implies ((#[trigger] rest[i]).1 matches
            SpecModel::Entity(e) ==> e.embedding is Some) by {
            assert(rest[i] == s[i]);
        }
        none_is_pending(rest, whole);
        assert(s[s.len() - 1] == s.last());
    }
}

/// Once a vector has been put on every entity type that lacked one, none lacks
/// one: a second pass has nothing to embed.
pub proof fn law_nothing_is_pending_twice(s: GraphSpecModel, vectors: Seq<Seq<u32>>)
    requires
        well_keyed(s),
        vectors.len() == pending_of(s, s).len(),
    ensures
        ({
            let t = with_vectors(s, pending_of(s, s), vectors);
            pending_of(t, t).len() == 0
        }),
{
    let jobs = pending_of(s, s);
    let t = with_vectors(s, jobs, vectors);
    vectors_fill(s, jobs, vectors);
    assert forall|i: int| 0 <= i < t.len() implies ((#[trigger] t[i]).1 matches SpecModel::Entity(e)
        ==> e.embedding is Some) by {
        assert(t[i].0 == s[i].0);
        assert(s[i].0 == record_key(s[i].1));
        if let SpecModel::Entity(e) = s[i].1 {
            if e.embedding is None {
                pending_are_listed(s, s, i);
            }
        }
    }
    none_is_pending(t, t);
}

/// The passages of the jobs.
pub open spec fn job_texts(jobs: Seq<(Seq<char>, Seq<char>)>) -> Seq<Seq<char>> {
    Seq::new(jobs.len(), |i: int| jobs[i].1)
}

/// What the embedder is asked for the jobs: once, for all their passages, and never
/// where there are none.
pub open spec fn asks_for(jobs: Seq<(Seq<char>, Seq<char>)>) -> Seq<Seq<Seq<char>>> {
    if jobs.len() == 0 {
        Seq::empty()
    } else {
        seq![job_texts(jobs)]
    }
}

/// The records once an embedder has answered for the jobs. A failed answer, or one
/// of the wrong length, changes nothing.
pub open spec fn embedded(
    s: GraphSpecModel,
    jobs: Seq<(Seq<char>, Seq<char>)>,
    reply: Result<Seq<Seq<u32>>, EmbedErrorModel>,
) -> Result<GraphSpecModel, EmbedErrorModel> {
    match reply {
        Err(e) => Err(e),
        Ok(vectors) => if vectors.len() != jobs.len() {
            Err(
                embeddings::count_mismatch(
                    "embedder"@,
                    vectors.len(),
                    " vectors for "@,
                    jobs.len(),
                    " entity specs"@,
                ),
            )
        } else {
            Ok(with_vectors(s, jobs, vectors))
        },
    }
}

/// The query that entity types are searched with.
pub open spec fn find_query(s: Seq<char>) -> Seq<char> {
    "User query:"@ + s
        + "\nTask: Identify database schema elements need for answering this query"@
}

/// The entity types that have a vector, until one of another dimension.
pub open spec fn candidates_of(s: GraphSpecModel, dim: nat) -> Result<
    Seq<EntitySpecModel>,
    EmbedErrorModel,
>
    decreases s.len(),
{
    if s.len() == 0 {
        Ok(Seq::empty())
    } else {
        match candidates_of(s.drop_last(), dim) {
            Err(e) => Err(e),
            Ok(before) => match s.last().1 {
                SpecModel::Entity(e) => match e.embedding {
                    Some(v) => if v.len() != dim {
                        Err(
                            EmbedErrorModel::Backend(
                                "embedding dimension mismatch for entity '"@ + e.name
                                    + "': entity vector has "@ + text::nat_text(v.len())
                                    + ", query vector has "@ + text::nat_text(dim),
                            ),
                        )
                    } else {
                        Ok(before.push(e))
                    },
                    None => Ok(before),
                },
                SpecModel::Property(_) => Ok(before),
            },
        }
    }
}

/// An entity type that a query found, with the bits of its score.
#[derive(Debug, Clone, Copy)]
pub struct EntitySpecMatch<'a> {
    pub record: &'a EntitySpecRecord,
    pub score: u32,
}

pub struct EntitySpecMatchModel {
    pub record: EntitySpecModel,
    pub score: u32,
}

impl<'a> DeepView for EntitySpecMatch<'a> {
    type V = EntitySpecMatchModel;

    open spec fn deep_view(&self) -> EntitySpecMatchModel {
        EntitySpecMatchModel { record: self.record.deep_view(), score: self.score }
    }
}

/// The candidates whose score reaches the threshold.
pub open spec fn matches_of(found: Seq<EntitySpecModel>, scores: Seq<u32>, threshold: u32) -> Seq<
    EntitySpecMatchModel,
>
    decreases found.len(),
{
    if found.len() == 0 {
        Seq::empty()
    } else {
        let before = matches_of(found.drop_last(), scores.drop_last(), threshold);
        if embeddings::at_least(scores.last(), threshold) {
            before.push(EntitySpecMatchModel { record: found.last(), score: scores.last() })
        } else {
            before
        }
    }
}

/// The passages of the matches, for a reranker.
pub open spec fn documents_of(s: GraphSpecModel, matches: Seq<EntitySpecMatchModel>) -> Seq<
    Seq<char>,
> {
    Seq::new(matches.len(), |i: int| embedding_text_of(s, matches[i].record))
}

/// A score of a reranker: the bits of the 64-bit float, and of the 32-bit float
/// nearest to it.
#[derive(Debug, Clone, Copy, PartialEq)]
pub struct RerankScore {
    pub wide: u64,
    pub narrow: u32,
}

/// The matches whose new score reaches the threshold, with that score.
pub open spec fn kept_matches(
    matches: Seq<EntitySpecMatchModel>,
    scores: Seq<RerankScore>,
    threshold: u64,
) -> Seq<EntitySpecMatchModel>
    decreases matches.len(),
{
    if matches.len() == 0 {
        Seq::empty()
    } else {
        let before = kept_matches(matches.drop_last(), scores.drop_last(), threshold);
        if embeddings::wide_at_least(scores.last().wide, threshold) {
            before.push(
                EntitySpecMatchModel { record: matches.last().record, score: scores.last().narrow },
            )
        } else {
            before
        }
    }
}

/// The matches after a reranker answered.
pub open spec fn reranked_of(
    matches: Seq<EntitySpecMatchModel>,
    scores: Seq<RerankScore>,
    threshold: u64,
) -> Result<Seq<EntitySpecMatchModel>, EmbedErrorModel> {
    if scores.len() != matches.len() {
        Err(
            embeddings::count_mismatch(
                "reranker"@,
                scores.len(),
                " scores for "@,
                matches.len(),
                " entity specs"@,
            ),
        )
    } else {
        Ok(kept_matches(matches, scores, threshold))
    }
}

/// Higher scores first, then names in order.
pub open spec fn match_order() -> spec_fn(EntitySpecMatchModel, EntitySpecMatchModel) -> bool {
    |a: EntitySpecMatchModel, b: EntitySpecMatchModel|
        embeddings::total_rank(b.score) < embeddings::total_rank(a.score) || (
        embeddings::total_rank(b.score) == embeddings::total_rank(a.score) && text::lex_le(
            a.record.name,
            b.record.name,
        ))
}

/// The order of matches is total, so that ranking is sorting.
pub proof fn law_match_order_is_total()
    ensures
        sorting::is_total_preorder(match_order()),
{
    let le = match_order();
    assert forall|a: EntitySpecMatchModel, b: EntitySpecMatchModel| #[trigger] le(a, b) || le(
        b,
        a,
    ) by {
        if text::lex_lt(b.record.name, a.record.name) {
            text::lex_lt_asymmetric(b.record.name, a.record.name);
        }
    }
    assert forall|a: EntitySpecMatchModel, b: EntitySpecMatchModel, c: EntitySpecMatchModel|
        #[trigger] le(a, b) && #[trigger] le(b, c) implies le(a, c) by {
        if text::lex_le(a.record.name, b.record.name) && text::lex_le(
            b.record.name,
            c.record.name,
        ) {
            text::lex_le_transitive(a.record.name, b.record.name, c.record.name);
        }
    }
}

fn match_before(a: &EntitySpecMatch, b: &EntitySpecMatch) -> (r: bool)
    ensures
        r == match_order()(a.deep_view(), b.deep_view()),
{
    let x = embeddings::float_place(a.score);
    let y = embeddings::float_place(b.score);
    y < x || (y == x && !text::text_lt(b.record.name.as_str(), a.record.name.as_str()))
}

fn property_before(a: &PropertySpecRecord, b: &PropertySpecRecord) -> (r: bool)
    ensures
        r == property_order()(a.deep_view(), b.deep_view()),
{
    !text::text_lt(b.name.as_str(), a.name.as_str())
}

fn borrowed_before(a: &&PropertySpecRecord, b: &&PropertySpecRecord) -> (r: bool)
    ensures
        r == property_order()(a.deep_view(), b.deep_view()),
{
    property_before(a, b)
}

impl GraphSpecification {
    /// No records.
    pub fn new() -> (r: Self)
        ensures
            r.deep_view() == Seq::<(Seq<char>, SpecModel)>::empty(),
    {
        GraphSpecification { records: StrMap::new() }
    }

    /// Put a record in, and give back what its key held.
    pub fn insert(&mut self, record: SpecRecord) -> (r: Option<SpecRecord>)
        ensures
            final(self).deep_view() == with_record_of(old(self).deep_view(), record.deep_view()),
            r.deep_view() == strmap::assoc_get(
                old(self).deep_view(),
                record_key(record.deep_view()),
            ),
    {
        let key = record.key();
        let held = match self.records.get(key.as_str()) {
            Some(r) => Some(r.copied()),
            None => None,
        };
        self.records.insert(key, record);
        held
    }

    /// The records with one more.
    pub fn with_record(self, record: SpecRecord) -> (r: Self)
        ensures
            r.deep_view() == with_record_of(self.deep_view(), record.deep_view()),
    {
        let mut out = self;
        out.insert(record);
        out
    }

    /// The records with one more entity type.
    pub fn with_entity(self, name: &str, description: &str) -> (r: Self)
        ensures
            r.deep_view() == with_record_of(
                self.deep_view(),
                SpecModel::Entity(
                    EntitySpecModel { name: name@, description: description@, embedding: None },
                ),
            ),
    {
        self.with_record(SpecRecord::Entity(EntitySpecRecord::new(name, description)))
    }

    /// The records with one more property.
    pub fn with_property(
        self,
        entity: &str,
        name: &str,
        kind: PropertyType,
        description: &str,
    ) -> (r: Self)
        ensures
            r.deep_view() == with_record_of(
                self.deep_view(),
                SpecModel::Property(
                    PropertySpecModel {
                        entity: entity@,
                        name: name@,
                        kind,
                        description: description@,
                    },
                ),
            ),
    {
        self.with_record(
            SpecRecord::Property(PropertySpecRecord::new(entity, name, kind, description)),
        )
    }

    /// Put an entity type in.
    pub fn add_entity(&mut self, name: &str, description: &str) -> (r: Option<SpecRecord>)
        ensures
            final(self).deep_view() == with_record_of(
                old(self).deep_view(),
                SpecModel::Entity(
                    EntitySpecModel { name: name@, description: description@, embedding: None },
                ),
            ),
            r.deep_view() == strmap::assoc_get(old(self).deep_view(), name@),
    {
        self.insert(SpecRecord::Entity(EntitySpecRecord::new(name, description)))
    }

    /// Put a property in.
    pub fn add_property(
        &mut self,
        entity: &str,
        name: &str,
        kind: PropertyType,
        description: &str,
    ) -> (r: Option<SpecRecord>)
        ensures
            final(self).deep_view() == with_record_of(
                old(self).deep_view(),
                SpecModel::Property(
                    PropertySpecModel {
                        entity: entity@,
                        name: name@,
                        kind,
                        description: description@,
                    },
                ),
            ),
            r.deep_view() == strmap::assoc_get(
                old(self).deep_view(),
                property_key_of(entity@, name@),
            ),
    {
        self.insert(SpecRecord::Property(PropertySpecRecord::new(entity, name, kind, description)))
    }

    /// Put all records of `other` in.
    pub fn merge(&mut self, other: &GraphSpecification)
        ensures
            final(self).deep_view() == merged_records(old(self).deep_view(), other.deep_view()),
    {
        let ghost start = self.deep_view();
        let ghost all = other.deep_view();
        let mut i: usize = 0;
        while i < other.records.entries.len()
            invariant
                all == other.deep_view(),
                0 <= i <= other.records.entries@.len(),
                self.deep_view() == merged_records(start, all.take(i as int)),
            decreases other.records.entries@.len() - i,
        {
            proof {
                assert(all.take(i + 1).drop_last() =~= all.take(i as int));
                assert(all.take(i + 1).last().1 == other.records.entries@[i as int].1.deep_view());
            }
            self.insert(other.records.entries[i].1.copied());
            i += 1;
        }
        assert(all.take(i as int) =~= all);
    }

    /// These records with all of `other` put in.
    pub fn merged(self, other: &GraphSpecification) -> (r: Self)
        ensures
            r.deep_view() == merged_records(self.deep_view(), other.deep_view()),
    {
        let mut out = self;
        out.merge(other);
        out
    }

    /// The record under a key.
    pub fn get(&self, key: &str) -> (r: Option<&SpecRecord>)
        ensures
            r.deep_view() == strmap::assoc_get(self.deep_view(), key@),
    {
        self.records.get(key)
    }

    /// The entity type of a name.
    pub fn get_entity(&self, entity: &str) -> (r: Option<&EntitySpecRecord>)
        ensures
            r.deep_view() == (match strmap::assoc_get(self.deep_view(), entity@) {
                Some(SpecModel::Entity(e)) => Some(e),
                _ => None,
            }),
    {
        match self.get(entity) {
            Some(r) => r.as_entity(),
            None => None,
        }
    }

    /// The property of an entity type.
    pub fn get_property(&self, entity: &str, property: &str) -> (r: Option<&PropertySpecRecord>)
        ensures
            r.deep_view() == (match strmap::assoc_get(
                self.deep_view(),
                property_key_of(entity@, property@),
            ) {
                Some(SpecModel::Property(p)) => Some(p),
                _ => None,
            }),
    {
        match self.get(property_key(entity, property).as_str()) {
            Some(r) => r.as_property(),
            None => None,
        }
    }

    /// The handler that stores a property.
    pub fn get_type(&self, entity: &str, property: &str) -> (r: Option<&str>)
        ensures
            r.deep_view() == (match strmap::assoc_get(
                self.deep_view(),
                property_key_of(entity@, property@),
            ) {
                Some(SpecModel::Property(p)) => Some(schema::handler_of(p.kind)),
                _ => None,
            }),
    {
        match self.get_property(entity, property) {
            Some(p) => Some(p.type_id()),
            None => None,
        }
    }

    /// The handler that filters on a property, where its type is one of text.
    pub fn get_query_type(&self, entity: &str, property: &str) -> (r: Option<&str>)
        ensures
            r.deep_view() == (match strmap::assoc_get(
                self.deep_view(),
                property_key_of(entity@, property@),
            ) {
                Some(SpecModel::Property(p)) => query_type_of(p.kind),
                _ => None,
            }),
    {
        match self.get_property(entity, property) {
            Some(p) => match p.kind {
                PropertyType::Keyword => Some(p.type_id()),
                PropertyType::Text => Some(p.type_id()),
                _ => None,
            },
            None => None,
        }
    }

    /// The records of an entity type.
    pub fn records_for_entity(&self, entity: &str) -> (r: Vec<&SpecRecord>)
        ensures
            r.deep_view() == records_of(self.deep_view(), entity@),
    {
        let ghost all = self.deep_view();
        let mut out: Vec<&SpecRecord> = seqs::no_items();
        let mut i: usize = 0;
        while i < self.records.entries.len()
            invariant
                all == self.deep_view(),
                0 <= i <= self.records.entries@.len(),
                out.deep_view() == records_of(all.take(i as int), entity@),
            decreases self.records.entries@.len() - i,
        {
            proof {
                assert(all.take(i + 1).drop_last() =~= all.take(i as int));
                assert(all.take(i + 1).last().1 == self.records.entries@[i as int].1.deep_view());
            }
            let record = &self.records.entries[i].1;
            if text::text_eq(record.entity_name(), entity) {
                seqs::push_item(&mut out, record);
            }
            i += 1;
        }
        assert(all.take(i as int) =~= all);
        out
    }

    /// The properties of an entity type.
    pub fn properties_for_entity(&self, entity: &str) -> (r: Vec<&PropertySpecRecord>)
        ensures
            r.deep_view() == properties_of(self.deep_view(), entity@),
    {
        let ghost all = self.deep_view();
        let mut out: Vec<&PropertySpecRecord> = seqs::no_items();
        let mut i: usize = 0;
        while i < self.records.entries.len()
            invariant
                all == self.deep_view(),
                0 <= i <= self.records.entries@.len(),
                out.deep_view() == properties_of(all.take(i as int), entity@),
            decreases self.records.entries@.len() - i,
        {
            proof {
                assert(all.take(i + 1).drop_last() =~= all.take(i as int));
                assert(all.take(i + 1).last().1 == self.records.entries@[i as int].1.deep_view());
            }
            if let SpecRecord::Property(p) = &self.records.entries[i].1 {
                if text::text_eq(p.entity.as_str(), entity) {
                    seqs::push_item(&mut out, p);
                }
            }
            i += 1;
        }
        assert(all.take(i as int) =~= all);
        out
    }

    /// The properties of an entity type.
    pub fn get_properties(&self, entity: String) -> (r: Vec<&PropertySpecRecord>)
        ensures
            r.deep_view() == properties_of(self.deep_view(), entity@),
    {
        self.properties_for_entity(entity.as_str())
    }

    /// Is a record held under the key?
    pub fn contains_key(&self, key: &str) -> (r: bool)
        ensures
            r == strmap::assoc_get(self.deep_view(), key@) is Some,
    {
        self.records.contains_key(key)
    }

    /// How many records there are.
    pub fn len(&self) -> (r: usize)
        ensures
            r == self.deep_view().len(),
    {
        self.records.len()
    }

    /// Are there no records?
    pub fn is_empty(&self) -> (r: bool)
        ensures
            r == (self.deep_view().len() == 0),
    {
        self.records.len() == 0
    }

    /// All records by key.
    pub fn records(&self) -> (r: &StrMap<SpecRecord>)
        ensures
            r.deep_view() == self.deep_view(),
    {
        &self.records
    }

    /// The passage that is embedded for an entity type.
    pub fn entity_embedding_text(&self, entity: &EntitySpecRecord) -> (r: String)
        ensures
            r@ == embedding_text_of(self.deep_view(), entity.deep_view()),
    {
        let mut properties = self.properties_for_entity(entity.name.as_str());
        sorting::sort_items(&mut properties, borrowed_before, Ghost(property_order()));
        let ghost all = properties.deep_view();
        let mut out = entity.name.clone();
        out.append(" - ");
        out.append(entity.description.as_str());
        out.append("\n");
        if properties.len() == 0 {
            return out;
        }
        out.append("Properties:");
        let ghost head = out@;
        let mut i: usize = 0;
        assert(head + property_lines(all.take(0)) =~= head);
        while i < properties.len()
            invariant
                all == properties.deep_view(),
                0 <= i <= properties@.len(),
                out@ == head + property_lines(all.take(i as int)),
            decreases properties@.len() - i,
        {
            proof {
                assert(all.take(i + 1).drop_last() =~= all.take(i as int));
                assert(all.take(i + 1).last() == properties@[i as int].deep_view());
            }
            let p = properties[i];
            let mut line = "\n- ".to_owned();
            line.append(p.name.as_str());
            line.append(" (");
            line.append(convert::name_of_type(p.kind));
            line.append("): ");
            line.append(p.description.as_str());
            let ghost before = out@;
            out.append(line.as_str());
            assert(out@ =~= head + (property_lines(all.take(i as int)) + line@));
            i += 1;
        }
        assert(all.take(i as int) =~= all);
        out
    }

    /// The entity types without a vector, by key, with the passages to embed.
    pub fn pending_embeddings(&self) -> (r: Vec<(String, String)>)
        ensures
            r.deep_view() == pending_of(self.deep_view(), self.deep_view()),
    {
        let ghost all = self.deep_view();
        let mut out: Vec<(String, String)> = seqs::no_items();
        let mut i: usize = 0;
        while i < self.records.entries.len()
            invariant
                all == self.deep_view(),
                0 <= i <= self.records.entries@.len(),
                out.deep_view() == pending_of(all.take(i as int), all),
            decreases self.records.entries@.len() - i,
        {
            proof {
                assert(all.take(i + 1).drop_last() =~= all.take(i as int));
                assert(all.take(i + 1).last().1 == self.records.entries@[i as int].1.deep_view());
            }
            if let SpecRecord::Entity(e) = &self.records.entries[i].1 {
                if e.embedding.is_none() {
                    let passage = self.entity_embedding_text(e);
                    seqs::push_item(&mut out, (e.key(), passage));
                }
            }
            i += 1;
        }
        assert(all.take(i as int) =~= all);
        out
    }

    /// Embed the entity types that have no vector yet. The embedder is asked once,
    /// and not at all where every entity type has its vector.
    pub fn compute<E: Embedder>(&mut self, embedder: &mut Recorded<'_, E>) -> (r: Result<
        (),
        EmbedError,
    >)
        ensures
            final(embedder).backend() == old(embedder).backend(),
            final(embedder).asked() == old(embedder).asked() + asks_for(
                pending_of(old(self).deep_view(), old(self).deep_view()),
            ),
            ({
                let start = old(self).deep_view();
                let jobs = pending_of(start, start);
                &&& jobs.len() == 0 ==> r is Ok && final(self).deep_view() == start
                &&& jobs.len() > 0 ==> exists|
                    asked: Vec<String>,
                    reply: Result<Vec<Vec<u32>>, EmbedError>,
                |
                    #[trigger] call_ensures(
                        E::embed_batch,
                        (old(embedder).backend(), &asked),
                        reply,
                    )
                        && asked.deep_view() == job_texts(jobs) && match embedded(
                        start,
                        jobs,
                        embeddings::reply_model(reply),
                    ) {
                        Ok(s) => r is Ok && final(self).deep_view() == s,
                        Err(e) => r is Err && r->Err_0.deep_view() == e && final(self).deep_view()
                            == start,
                    }
            }),
    {
        let jobs = self.pending_embeddings();
        if jobs.len() == 0 {
            assert(embedder.asked() =~= old(embedder).asked() + asks_for(jobs.deep_view()));
            return Ok(());
        }
        let asked = texts_of(&jobs);
        let reply = embedder.embed_batch(&asked);
        assert(call_ensures(E::embed_batch, (old(embedder).backend(), &asked), reply));
        assert(embedder.asked() =~= old(embedder).asked() + asks_for(jobs.deep_view()));
        match reply {
            Err(e) => Err(e),
            Ok(vectors) => self.store_embeddings(&jobs, vectors),
        }
    }

    /// Put the vectors of the passages on their entity types.
    pub fn store_embeddings(&mut self, jobs: &Vec<(String, String)>, vectors: Vec<Vec<u32>>) -> (r:
        Result<(), EmbedError>)
        ensures
            if vectors@.len() != jobs@.len() {
                r is Err && r->Err_0.deep_view() == embeddings::count_mismatch(
                    "embedder"@,
                    vectors@.len(),
                    " vectors for "@,
                    jobs@.len(),
                    " entity specs"@,
                ) && final(self).deep_view() == old(self).deep_view()
            } else {
                r is Ok && final(self).deep_view() == with_vectors(
                    old(self).deep_view(),
                    jobs.deep_view(),
                    vectors.deep_view(),
                )
            },
    {
        if vectors.len() != jobs.len() {
            return Err(
                embeddings::count_error(
                    "embedder",
                    vectors.len(),
                    " vectors for ",
                    jobs.len(),
                    " entity specs",
                ),
            );
        }
        let ghost start = self.deep_view();
        let ghost js = jobs.deep_view();
        let ghost vs = vectors.deep_view();
        let mut rest = vectors;
        let mut i: usize = 0;
        while i < jobs.len()
            invariant
                js == jobs.deep_view(),
                vs.len() == js.len(),
                js.len() == jobs@.len(),
                0 <= i <= jobs@.len(),
                rest.deep_view() == vs.skip(i as int),
                self.deep_view() == with_vectors(start, js.take(i as int), vs.take(i as int)),
            decreases jobs@.len() - i,
        {
            let ghost left = rest.deep_view();
            proof {
                assert(rest@.len() == left.len());
                assert(left[0] == vs[i as int]);
                assert(js.take(i + 1).drop_last() =~= js.take(i as int));
                assert(vs.take(i + 1).drop_last() =~= vs.take(i as int));
                assert(js.take(i + 1).last() == jobs@[i as int].deep_view());
                assert(vs.take(i + 1).last() == left[0]);
            }
            let vector = rest.remove(0);
            assert(rest.deep_view() =~= left.remove(0));
            assert(rest.deep_view() =~= vs.skip(i + 1));
            let held = match self.records.get(jobs[i].0.as_str()) {
                Some(SpecRecord::Entity(e)) => Some(
                    EntitySpecRecord {
                        name: e.name.clone(),
                        description: e.description.clone(),
                        embedding: Some(vector),
                    },
                ),
                _ => None,
            };
            if let Some(e) = held {
                self.records.insert(jobs[i].0.clone(), SpecRecord::Entity(e));
            }
            i += 1;
        }
        assert(js.take(i as int) =~= js);
        assert(vs.take(i as int) =~= vs);
        Ok(())
    }

    /// The entity types that have a vector, all of dimension `dim`. The first one
    /// of another dimension is an error.
    pub fn find_candidates(&self, dim: usize) -> (r: Result<Vec<&EntitySpecRecord>, EmbedError>)
        ensures
            match r {
                Ok(v) => candidates_of(self.deep_view(), dim as nat) == Ok::<
                    Seq<EntitySpecModel>,
                    EmbedErrorModel,
                >(v.deep_view()),
                Err(e) => candidates_of(self.deep_view(), dim as nat) == Err::<
                    Seq<EntitySpecModel>,
                    EmbedErrorModel,
                >(e.deep_view()),
            },
    {
        let ghost all = self.deep_view();
        let mut out: Vec<&EntitySpecRecord> = seqs::no_items();
        let mut i: usize = 0;
        while i < self.records.entries.len()
            invariant
                all == self.deep_view(),
                0 <= i <= self.records.entries@.len(),
                candidates_of(all.take(i as int), dim as nat) == Ok::<
                    Seq<EntitySpecModel>,
                    EmbedErrorModel,
                >(out.deep_view()),
            decreases self.records.entries@.len() - i,
        {
            proof {
                assert(all.take(i + 1).drop_last() =~= all.take(i as int));
                assert(all.take(i + 1).last().1 == self.records.entries@[i as int].1.deep_view());
            }
            if let SpecRecord::Entity(e) = &self.records.entries[i].1 {
                if let Some(v) = &e.embedding {
                    if v.len() != dim {
                        let mut m = "embedding dimension mismatch for entity '".to_owned();
                        m.append(e.name.as_str());
                        m.append("': entity vector has ");
                        m.append(text::usize_text(v.len()).as_str());
                        m.append(", query vector has ");
                        m.append(text::usize_text(dim).as_str());
                        proof {
                            candidates_stay_failed(all, i + 1, dim as nat);
                        }
                        return Err(EmbedError::Backend(m));
                    }
                    seqs::push_item(&mut out, e);
                }
            }
            i += 1;
        }
        assert(all.take(i as int) =~= all);
        Ok(out)
    }

    /// The passages of the matches, for a reranker.
    pub fn rerank_documents(&self, matches: &Vec<EntitySpecMatch>) -> (r: Vec<String>)
        ensures
            r.deep_view() == documents_of(self.deep_view(), matches.deep_view()),
    {
        let ghost all = matches.deep_view();
        let mut out: Vec<String> = seqs::no_items();
        let mut i: usize = 0;
        while i < matches.len()
            invariant
                all == matches.deep_view(),
                0 <= i <= matches@.len(),
                out.deep_view() == documents_of(self.deep_view(), all).take(i as int),
            decreases matches@.len() - i,
        {
            seqs::push_item(&mut out, self.entity_embedding_text(matches[i].record));
            i += 1;
            assert(out.deep_view() =~= documents_of(self.deep_view(), all).take(i as int));
        }
        assert(out.deep_view() =~= documents_of(self.deep_view(), all));
        out
    }
}

proof fn candidates_stay_failed(s: GraphSpecModel, n: int, dim: nat)
    requires
        0 <= n <= s.len(),
        candidates_of(s.take(n), dim) is Err,
    ensures
        candidates_of(s, dim) == candidates_of(s.take(n), dim),
    decreases s.len(),
{
    if n == s.len() {
        assert(s.take(n) =~= s);
    } else {
        assert(s.drop_last().take(n) =~= s.take(n));
        candidates_stay_failed(s.drop_last(), n, dim);
    }
}

/// The query that entity types are searched with.
pub fn find_query_text(s: &str) -> (r: String)
    ensures
        r@ == find_query(s@),
{
    let mut out = "User query:".to_owned();
    out.append(s);
    out.append("\nTask: Identify database schema elements need for answering this query");
    out
}

/// The candidates whose score reaches the threshold.
pub fn matches_above<'a>(
    candidates: &Vec<&'a EntitySpecRecord>,
    scores: &Vec<u32>,
    threshold: u32,
) -> (r: Vec<EntitySpecMatch<'a>>)
    requires
        candidates@.len() == scores@.len(),
    ensures
        r.deep_view() == matches_of(candidates.deep_view(), scores@, threshold),
{
    let ghost all = candidates.deep_view();
    let mut out: Vec<EntitySpecMatch<'a>> = seqs::no_items();
    let mut i: usize = 0;
    while i < candidates.len()
        invariant
            all == candidates.deep_view(),
            candidates@.len() == scores@.len(),
            0 <= i <= candidates@.len(),
            out.deep_view() == matches_of(all.take(i as int), scores@.take(i as int), threshold),
        decreases candidates@.len() - i,
    {
        proof {
            assert(all.take(i + 1).drop_last() =~= all.take(i as int));
            assert(scores@.take(i + 1).drop_last() =~= scores@.take(i as int));
            assert(all.take(i + 1).last() == candidates@[i as int].deep_view());
        }
        if embeddings::float_at_least(scores[i], threshold) {
            seqs::push_item(&mut out, EntitySpecMatch { record: candidates[i], score: scores[i] });
        }
        i += 1;
    }
    assert(all.take(i as int) =~= all);
    assert(scores@.take(i as int) =~= scores@);
    out
}

/// The matches after a reranker answered for them.
pub fn reranked<'a>(
    matches: Vec<EntitySpecMatch<'a>>,
    scores: &Vec<RerankScore>,
    threshold: u64,
) -> (r: Result<Vec<EntitySpecMatch<'a>>, EmbedError>)
    ensures
        match r {
            Ok(v) => reranked_of(matches.deep_view(), scores@, threshold) == Ok::<
                Seq<EntitySpecMatchModel>,
                EmbedErrorModel,
            >(v.deep_view()),
            Err(e) => reranked_of(matches.deep_view(), scores@, threshold) == Err::<
                Seq<EntitySpecMatchModel>,
                EmbedErrorModel,
            >(e.deep_view()),
        },
{
    let ghost all = matches.deep_view();
    if scores.len() != matches.len() {
        return Err(
            embeddings::count_error(
                "reranker",
                scores.len(),
                " scores for ",
                matches.len(),
                " entity specs",
            ),
        );
    }
    let mut out: Vec<EntitySpecMatch<'a>> = seqs::no_items();
    let mut i: usize = 0;
    while i < matches.len()
        invariant
            all == matches.deep_view(),
            matches@.len() == scores@.len(),
            0 <= i <= matches@.len(),
            out.deep_view() == kept_matches(all.take(i as int), scores@.take(i as int), threshold),
        decreases matches@.len() - i,
    {
        proof {
            assert(all.take(i + 1).drop_last() =~= all.take(i as int));
            assert(scores@.take(i + 1).drop_last() =~= scores@.take(i as int));
            assert(all.take(i + 1).last() == matches@[i as int].deep_view());
        }
        if embeddings::double_at_least(scores[i].wide, threshold) {
            seqs::push_item(
                &mut out,
                EntitySpecMatch { record: matches[i].record, score: scores[i].narrow },
            );
        }
        i += 1;
    }
    assert(all.take(i as int) =~= all);
    assert(scores@.take(i as int) =~= scores@);
    Ok(out)
}

/// Matches with the highest score first, then by name.
pub fn rank_matches<'a>(matches: Vec<EntitySpecMatch<'a>>) -> (r: Vec<EntitySpecMatch<'a>>)
    ensures
        r.deep_view() == sorting::sorted_by(matches.deep_view(), match_order()),
{
    let mut out = matches;
    sorting::sort_items(&mut out, match_before, Ghost(match_order()));
    out
}

fn texts_of(jobs: &Vec<(String, String)>) -> (r: Vec<String>)
    ensures
        r.deep_view() == job_texts(jobs.deep_view()),
{
    let ghost want = job_texts(jobs.deep_view());
    let mut out: Vec<String> = seqs::no_items();
    let mut i: usize = 0;
    while i < jobs.len()
        invariant
            want == job_texts(jobs.deep_view()),
            0 <= i <= jobs@.len(),
            out.deep_view() == want.take(i as int),
        decreases jobs@.len() - i,
    {
        assert(jobs.deep_view()[i as int].1 == jobs@[i as int].1@);
        seqs::push_item(&mut out, jobs[i].1.clone());
        assert(want.take(i + 1) =~= want.take(i as int).push(want[i as int]));
        i += 1;
    }
    assert(want.take(i as int) =~= want);
    out
}

} // verus!
