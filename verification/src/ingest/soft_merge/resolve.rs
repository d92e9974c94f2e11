//! Which entities are to be merged, and merging them: first among themselves, then
//! with nodes of the database.

use vstd::prelude::*;
use crate::embeddings;
use crate::graph::builder::Graph;
use crate::graph::builder::CANONICAL_FIELD;
use crate::graph::canonical;
use crate::graph::schema::EntityGraph;
use crate::graph::schema::EntityGraphModel;
use crate::graph::schema::PrimaryKey;
use crate::graph::schema::PrimaryKeyModel;
use crate::graph::schema::Property;
use crate::graph::schema::PropertyModel;
use crate::groups;
use crate::ingest::delete;
use crate::ingest::error;
use crate::ingest::error::IngestError;
use crate::ingest::error::IngestErrorModel;
use crate::ingest::soft_merge::decision;
use crate::ingest::soft_merge::decision::Decision;
use crate::ingest::soft_merge::decision::DecisionModel;
use crate::ingest::soft_merge::decision::GateReason;
use crate::ingest::soft_merge::decision::GateReasonModel;
use crate::ingest::soft_merge::decision::Measure;
use crate::ingest::soft_merge::decision::ReviewHit;
use crate::ingest::soft_merge::decision::ReviewHitModel;
use crate::ingest::soft_merge::decision::SoftMergeConfig;
use crate::ingest::soft_merge::decision::SoftMergeConfigModel;
use crate::ingest::soft_merge::lexical;
use crate::ingest::soft_merge::query::EmbeddedCandidate;
use crate::ingest::soft_merge::query::EmbeddedCandidateModel;
use crate::ingest::soft_merge::query::Hit;
use crate::ingest::soft_merge::query::HitModel;
use crate::json::Float;
use crate::json::FloatModel;
use crate::json::Json;
use crate::json::JsonModel;
use crate::seqs;
use crate::seqs::Copied;
use crate::sorting;
use crate::strmap;
use crate::strmap::StrMap;
use crate::text;
use crate::types;

verus! {

broadcast use vstd::string::group_string_axioms;

/// An entity to be merged, with the text that is embedded for it.
#[derive(Debug, PartialEq)]
pub struct Candidate {
    pub entity_index: usize,
    pub label: String,
    pub field: String,
    pub text: String,
}

pub struct CandidateModel {
    pub entity_index: usize,
    pub label: Seq<char>,
    pub field: Seq<char>,
    pub text: Seq<char>,
}

impl DeepView for Candidate {
    type V = CandidateModel;

    open spec fn deep_view(&self) -> CandidateModel {
        CandidateModel {
            entity_index: self.entity_index,
            label: self.label@,
            field: self.field@,
            text: self.text@,
        }
    }
}

/// What a similar entity was found among.
#[derive(Debug, Clone, Copy, PartialEq, Eq, Structural)]
pub enum ReviewSource {
    /// The other entities of the graph; ids are their places in it.
    InBatch,
    /// The nodes of the database.
    Existing,
}

impl DeepView for ReviewSource {
    type V = ReviewSource;

    open spec fn deep_view(&self) -> ReviewSource {
        *self
    }
}

/// An entity that may be another one and was not merged with it.
#[derive(Debug, PartialEq)]
pub struct ReviewCandidate {
    /// Its place in the graph.
    pub entity_index: usize,
    pub label: String,
    pub field: String,
    pub incoming_value: String,
    pub source: ReviewSource,
    pub top: ReviewHit,
    pub runners_up: Vec<ReviewHit>,
    /// All that stopped the merge.
    pub rejected_by: Vec<GateReason>,
}

pub struct ReviewCandidateModel {
    pub entity_index: usize,
    pub label: Seq<char>,
    pub field: Seq<char>,
    pub incoming_value: Seq<char>,
    pub source: ReviewSource,
    pub top: ReviewHitModel,
    pub runners_up: Seq<ReviewHitModel>,
    pub rejected_by: Seq<GateReasonModel>,
}

impl DeepView for ReviewCandidate {
    type V = ReviewCandidateModel;

    open spec fn deep_view(&self) -> ReviewCandidateModel {
        ReviewCandidateModel {
            entity_index: self.entity_index,
            label: self.label@,
            field: self.field@,
            incoming_value: self.incoming_value@,
            source: self.source,
            top: self.top.deep_view(),
            runners_up: self.runners_up.deep_view(),
            rejected_by: self.rejected_by.deep_view(),
        }
    }
}

/// What became of the entities to be merged.
#[derive(Debug, PartialEq)]
pub struct SoftMergeReport {
    /// How many were looked for in the database.
    pub candidates: usize,
    /// How many were merged with a node.
    pub auto_merges: usize,
    /// How many records for review there were.
    pub needs_review: usize,
    /// How many are new.
    pub no_merge: usize,
    /// How many were merged with another of the graph.
    pub in_batch_dedup_collapsed: usize,
    pub review_candidates: Vec<ReviewCandidate>,
}

pub struct SoftMergeReportModel {
    pub candidates: usize,
    pub auto_merges: usize,
    pub needs_review: usize,
    pub no_merge: usize,
    pub in_batch_dedup_collapsed: usize,
    pub review_candidates: Seq<ReviewCandidateModel>,
}

impl DeepView for SoftMergeReport {
    type V = SoftMergeReportModel;

    open spec fn deep_view(&self) -> SoftMergeReportModel {
        SoftMergeReportModel {
            candidates: self.candidates,
            auto_merges: self.auto_merges,
            needs_review: self.needs_review,
            no_merge: self.no_merge,
            in_batch_dedup_collapsed: self.in_batch_dedup_collapsed,
            review_candidates: self.review_candidates.deep_view(),
        }
    }
}

impl Default for SoftMergeReport {
    fn default() -> (r: SoftMergeReport)
        ensures
            r.deep_view() == (SoftMergeReportModel {
                candidates: 0,
                auto_merges: 0,
                needs_review: 0,
                no_merge: 0,
                in_batch_dedup_collapsed: 0,
                review_candidates: Seq::empty(),
            }),
    {
        SoftMergeReport {
            candidates: 0,
            auto_merges: 0,
            needs_review: 0,
            no_merge: 0,
            in_batch_dedup_collapsed: 0,
            review_candidates: seqs::no_items(),
        }
    }
}

/// Has an entity no key of its own?
pub open spec fn is_soft(e: EntityGraphModel) -> bool {
    e.primary_key == Some(PrimaryKeyModel::Soft)
}

fn entity_is_soft(e: &EntityGraph) -> (r: bool)
    ensures
        r == is_soft(e.deep_view()),
{
    match &e.primary_key {
        Some(PrimaryKey::Soft) => true,
        _ => false,
    }
}

/// Is there any entity to be merged?
pub fn has_soft_merge_candidates(graph: &Graph) -> (r: bool)
    ensures
        r == exists|i: int|
            0 <= i < graph.deep_view().entities.len() && is_soft(
                #[trigger] graph.deep_view().entities[i],
            ),
{
    let ghost all = graph.deep_view().entities;
    let mut i: usize = 0;
    while i < graph.entities.len()
        invariant
            all == graph.deep_view().entities,
            0 <= i <= graph.entities@.len(),
            forall|k: int| 0 <= k < i ==> !is_soft(#[trigger] all[k]),
        decreases graph.entities@.len() - i,
    {
        assert(all[i as int] == graph.entities@[i as int].deep_view());
        if entity_is_soft(&graph.entities[i]) {
            return true;
        }
        i += 1;
    }
    false
}

/// The text of a key; null is none.
pub open spec fn key_text(v: JsonModel) -> Seq<char> {
    match v {
        JsonModel::Null => Seq::empty(),
        other => canonical::plain_text(other),
    }
}

fn json_to_text(v: &Json) -> (r: String)
    ensures
        r@ == key_text(v.deep_view()),
{
    match v {
        Json::Null => String::new(),
        other => canonical::json_to_string(other),
    }
}

/// An entity without the text that it would be merged by.
pub open spec fn missing_key(label: Seq<char>) -> IngestErrorModel {
    IngestErrorModel::MissingGraphPrimaryKeyValue { label, field: CANONICAL_FIELD@ }
}

/// The entities to be merged, or the first that has no text to be merged by.
pub open spec fn collected(entities: Seq<EntityGraphModel>) -> Result<
    Seq<CandidateModel>,
    IngestErrorModel,
>
    decreases entities.len(),
{
    if entities.len() == 0 {
        Ok(Seq::empty())
    } else {
        let e = entities.last();
        match collected(entities.drop_last()) {
            Err(x) => Err(x),
            Ok(before) => if !is_soft(e) {
                Ok(before)
            } else {
                match strmap::assoc_get(e.properties, CANONICAL_FIELD@) {
                    None => Err(missing_key(e.kind)),
                    Some(p) => if key_text(p.value).len() == 0 {
                        Err(missing_key(e.kind))
                    } else {
                        Ok(
                            before.push(
                                CandidateModel {
                                    entity_index: (entities.len() - 1) as usize,
                                    label: e.kind,
                                    field: CANONICAL_FIELD@,
                                    text: key_text(p.value),
                                },
                            ),
                        )
                    },
                }
            },
        }
    }
}

proof fn collection_stays_failed(entities: Seq<EntityGraphModel>, n: int)
    requires
        0 <= n <= entities.len(),
        collected(entities.take(n)) is Err,
    ensures
        collected(entities) == collected(entities.take(n)),
    decreases entities.len() - n,
{
    if n < entities.len() {
        assert(entities.take(n + 1).drop_last() =~= entities.take(n));
        collection_stays_failed(entities, n + 1);
    } else {
        assert(entities.take(n) =~= entities);
    }
}

fn missing_key_error(label: &str) -> (r: IngestError)
    ensures
        r.deep_view() == missing_key(label@),
{
    IngestError::MissingGraphPrimaryKeyValue {
        label: label.to_owned(),
        field: CANONICAL_FIELD.to_owned(),
    }
}

/// The entities to be merged, with the texts that are embedded for them.
pub fn collect_candidates(graph: &Graph) -> (r: Result<Vec<Candidate>, IngestError>)
    ensures
        error::outcome_model(r) == collected(graph.deep_view().entities),
{
    let ghost all = graph.deep_view().entities;
    let mut out: Vec<Candidate> = seqs::no_items();
    let mut i: usize = 0;
    while i < graph.entities.len()
        invariant
            all == graph.deep_view().entities,
            0 <= i <= graph.entities@.len(),
            collected(all.take(i as int)) == Ok::<Seq<CandidateModel>, IngestErrorModel>(
                out.deep_view(),
            ),
        decreases graph.entities@.len() - i,
    {
        let entity = &graph.entities[i];
        proof {
            assert(all.take(i + 1).drop_last() =~= all.take(i as int));
            assert(all.take(i + 1).last() == entity.deep_view());
        }
        if entity_is_soft(entity) {
            let text = match entity.properties.get(CANONICAL_FIELD) {
                Some(p) => json_to_text(&p.value),
                None => String::new(),
            };
            if text::is_empty_text(text.as_str()) {
                proof {
                    collection_stays_failed(all, i + 1);
                }
                return Err(missing_key_error(entity.kind.as_str()));
            }
            seqs::push_item(
                &mut out,
                Candidate {
                    entity_index: i,
                    label: entity.kind.clone(),
                    field: CANONICAL_FIELD.to_owned(),
                    text,
                },
            );
        }
        i += 1;
    }
    assert(all.take(i as int) =~= all);
    Ok(out)
}

/// Only entities without a key of their own are merged, each by a text.
pub proof fn law_candidates_are_soft(entities: Seq<EntityGraphModel>, k: int)
    requires
        entities.len() <= usize::MAX,
        collected(entities) is Ok,
        0 <= k < collected(entities)->Ok_0.len(),
    ensures
        ({
            let c = collected(entities)->Ok_0[k];
            c.entity_index < entities.len() && is_soft(entities[c.entity_index as int]) && c.label
                == entities[c.entity_index as int].kind && c.text.len() > 0
        }),
    decreases entities.len(),
{
    let rest = entities.drop_last();
    let before = collected(rest)->Ok_0;
    if k < before.len() {
        law_candidates_are_soft(rest, k);
        let c = before[k];
        assert(entities[c.entity_index as int] == rest[c.entity_index as int]);
        assert(collected(entities)->Ok_0[k] == c);
    } else {
        assert(entities[entities.len() - 1] == entities.last());
    }
}

pub type GroupsModel = Seq<(Seq<Seq<char>>, Seq<EmbeddedCandidateModel>)>;

/// The candidates with their vectors, grouped by label and field.
pub open spec fn grouped(
    candidates: Seq<CandidateModel>,
    vectors: Seq<Seq<FloatModel>>,
) -> GroupsModel
    decreases candidates.len(),
{
    if candidates.len() == 0 {
        Seq::empty()
    } else {
        let c = candidates.last();
        groups::group_push(
            grouped(candidates.drop_last(), vectors),
            seq![c.label, c.field],
            EmbeddedCandidateModel {
                entity_index: c.entity_index,
                vec: vectors[candidates.len() - 1],
            },
        )
    }
}

/// The complaint about an embedder that does not answer one by one.
pub open spec fn embedding_mismatch(vectors: nat, candidates: nat) -> IngestErrorModel {
    IngestErrorModel::SoftMerge(
        "embedder returned "@ + text::nat_text(vectors) + " vectors for "@ + text::nat_text(
            candidates,
        ) + " inputs"@,
    )
}

/// The candidates with their vectors, grouped by label and field. There must be a
/// vector for each.
pub fn group_candidates(candidates: &Vec<Candidate>, vectors: &Vec<Vec<Float>>) -> (r: Result<
    Vec<(Vec<String>, Vec<EmbeddedCandidate>)>,
    IngestError,
>)
    ensures
        match r {
            Ok(v) => candidates@.len() == vectors@.len() && v.deep_view() == grouped(
                candidates.deep_view(),
                vectors.deep_view(),
            ),
            Err(e) => candidates@.len() != vectors@.len() && e.deep_view() == embedding_mismatch(
                vectors@.len(),
                candidates@.len(),
            ),
        },
{
    if vectors.len() != candidates.len() {
        let mut s = "embedder returned ".to_owned();
        s.append(text::usize_text(vectors.len()).as_str());
        s.append(" vectors for ");
        s.append(text::usize_text(candidates.len()).as_str());
        s.append(" inputs");
        return Err(IngestError::SoftMerge(s));
    }
    let ghost all = candidates.deep_view();
    let ghost vs = vectors.deep_view();
    let mut out: Vec<(Vec<String>, Vec<EmbeddedCandidate>)> = seqs::no_items();
    let mut i: usize = 0;
    while i < candidates.len()
        invariant
            all == candidates.deep_view(),
            vs == vectors.deep_view(),
            candidates@.len() == vectors@.len(),
            0 <= i <= candidates@.len(),
            out.deep_view() == grouped(all.take(i as int), vs),
        decreases candidates@.len() - i,
    {
        let c = &candidates[i];
        proof {
            assert(all.take(i + 1).drop_last() =~= all.take(i as int));
            assert(all.take(i + 1).last() == c.deep_view());
            assert(vs[i as int] == vectors@[i as int].deep_view());
        }
        let mut key: Vec<String> = seqs::no_items();
        seqs::push_item(&mut key, c.label.clone());
        seqs::push_item(&mut key, c.field.clone());
        assert(key.deep_view() =~= seq![c.label@, c.field@]);
        let member = EmbeddedCandidate {
            entity_index: c.entity_index,
            vec: vectors[i].copied(),
        };
        groups::push_to_group(&mut out, key, member);
        i += 1;
    }
    assert(all.take(i as int) =~= all);
    Ok(out)
}

/// The text in a field of an entity; a missing field has none.
pub open spec fn field_text(e: EntityGraphModel, field: Seq<char>) -> Seq<char> {
    match strmap::assoc_get(e.properties, field) {
        Some(p) => canonical::plain_text(p.value),
        None => Seq::empty(),
    }
}

fn text_in_field(e: &EntityGraph, field: &str) -> (r: String)
    ensures
        r@ == field_text(e.deep_view(), field@),
{
    match e.properties.get(field) {
        Some(p) => canonical::json_to_string(&p.value),
        None => String::new(),
    }
}

/// The text that the entity at a place is known by, as it stands in a field; a place
/// that is not in the graph has none.
pub open spec fn known_text(
    entities: Seq<EntityGraphModel>,
    at: usize,
    field: Seq<char>,
) -> Seq<char> {
    if at < entities.len() {
        field_text(entities[at as int], field)
    } else {
        Seq::empty()
    }
}

/// The text that the entity at a place is known by.
pub fn known_by(graph: &Graph, at: usize, field: &str) -> (r: String)
    ensures
        r@ == known_text(graph.deep_view().entities, at, field@),
{
    assert(graph.deep_view().entities.len() == graph.entities@.len());
    if at < graph.entities.len() {
        assert(graph.deep_view().entities[at as int] == graph.entities@[at as int].deep_view());
        text_in_field(&graph.entities[at], field)
    } else {
        String::new()
    }
}

/// The values of properties.
pub open spec fn property_values(props: Seq<(Seq<char>, PropertyModel)>) -> Seq<
    (Seq<char>, JsonModel),
> {
    Seq::new(props.len(), |i: int| (props[i].0, props[i].1.value))
}

fn values_of(props: &StrMap<Property>) -> (r: StrMap<Json>)
    ensures
        r.deep_view() == property_values(props.deep_view()),
{
    let ghost want = property_values(props.deep_view());
    let mut out: Vec<(String, Json)> = seqs::no_items();
    let mut i: usize = 0;
    while i < props.entries.len()
        invariant
            want == property_values(props.deep_view()),
            want.len() == props.entries@.len(),
            0 <= i <= props.entries@.len(),
            out.deep_view() == want.take(i as int),
        decreases props.entries@.len() - i,
    {
        assert(props.deep_view()[i as int] == props.entries@[i as int].deep_view());
        seqs::push_item(
            &mut out,
            (props.entries[i].0.clone(), props.entries[i].1.value.copied()),
        );
        i += 1;
        assert(out.deep_view() =~= want.take(i as int));
    }
    assert(out.deep_view() =~= want);
    StrMap { entries: out }
}

/// The entities with a field of one of them set to a text, where that entity has
/// the field.
pub open spec fn rewritten(
    entities: Seq<EntityGraphModel>,
    at: int,
    field: Seq<char>,
    value: Seq<char>,
) -> Seq<EntityGraphModel> {
    let e = entities[at];
    match strmap::assoc_get(e.properties, field) {
        Some(p) => entities.update(
            at,
            EntityGraphModel {
                properties: strmap::assoc_insert(
                    e.properties,
                    field,
                    PropertyModel { value: JsonModel::Str(value), ..p },
                ),
                ..e
            },
        ),
        None => entities,
    }
}

fn rewrite(graph: &mut Graph, at: usize, field: &str, value: String) -> (r: bool)
    requires
        at < old(graph).entities@.len(),
    ensures
        r == (strmap::assoc_get(old(graph).deep_view().entities[at as int].properties, field@)
            is Some),
        final(graph).deep_view().entities == rewritten(
            old(graph).deep_view().entities,
            at as int,
            field@,
            value@,
        ),
        final(graph).deep_view().relations == old(graph).deep_view().relations,
        final(graph).entities@.len() == old(graph).entities@.len(),
{
    let ghost all = graph.deep_view().entities;
    assert(all[at as int] == graph.entities@[at as int].deep_view());
    let prop = match graph.entities[at].properties.get(field) {
        Some(p) => Property {
            name: p.name.clone(),
            property_type: p.property_type,
            value: Json::Str(value),
        },
        None => {
            return false;
        },
    };
    graph.entities[at].properties.insert(field.to_owned(), prop);
    assert(graph.deep_view().entities =~= rewritten(all, at as int, field@, value@));
    true
}

/// An entity that a rewrite leaves as it is, but for the value of a field.
pub open spec fn same_but_field(
    a: EntityGraphModel,
    b: EntityGraphModel,
    field: Seq<char>,
) -> bool {
    &&& a.kind == b.kind
    &&& a.labels == b.labels
    &&& a.domain == b.domain
    &&& a.scopes == b.scopes
    &&& a.primary_key == b.primary_key
    &&& forall|k: Seq<char>|
        k != field ==> #[trigger] strmap::assoc_get(a.properties, k) == strmap::assoc_get(
            b.properties,
            k,
        )
}

/// A merge rewrites nothing but the field that entities are merged by, and that of
/// one entity alone.
pub proof fn law_rewrites_touch_one_field(
    entities: Seq<EntityGraphModel>,
    at: int,
    field: Seq<char>,
    value: Seq<char>,
    i: int,
)
    requires
        0 <= at < entities.len(),
        0 <= i < entities.len(),
    ensures
        rewritten(entities, at, field, value).len() == entities.len(),
        i != at ==> rewritten(entities, at, field, value)[i] == entities[i],
        same_but_field(entities[i], rewritten(entities, at, field, value)[i], field),
{
    let e = entities[at];
    if let Some(p) = strmap::assoc_get(e.properties, field) {
        let q = PropertyModel { value: JsonModel::Str(value), ..p };
        assert forall|k: Seq<char>| k != field implies #[trigger] strmap::assoc_get(
            e.properties,
            k,
        ) == strmap::assoc_get(strmap::assoc_insert(e.properties, field, q), k) by {
            strmap::law_get_other_after_insert(e.properties, field, q, k);
        }
    }
}

/// The best hit comes first. A score that is not a number counts as equal to every
/// score.
pub open spec fn hit_order() -> spec_fn(HitModel, HitModel) -> bool {
    |a: HitModel, b: HitModel| !embeddings::wide_less(a.score, b.score)
}

/// Where the scores of hits are numbers, sorting them puts the best first, and neither
/// loses nor adds one.
pub proof fn law_hits_descend(hits: Seq<HitModel>)
    requires
        forall|i: int|
            0 <= i < hits.len() ==> !embeddings::is_wide_nan((#[trigger] hits[i]).score),
    ensures
        sorting::sorted_by(hits, hit_order()).to_multiset() =~= hits.to_multiset(),
        forall|i: int, j: int|
            0 <= i < j < hits.len() ==> embeddings::wide_rank(
                (#[trigger] sorting::sorted_by(hits, hit_order())[i]).score,
            ) >= embeddings::wide_rank(
                (#[trigger] sorting::sorted_by(hits, hit_order())[j]).score,
            ),
{
    let sorted = sorting::sorted_by(hits, hit_order());
    let by_rank = |a: HitModel, b: HitModel|
        embeddings::wide_rank(a.score) >= embeddings::wide_rank(b.score);
    assert forall|h: HitModel| #[trigger] hits.contains(h) implies !embeddings::is_wide_nan(
        h.score,
    ) by {
        let i = choose|i: int| 0 <= i < hits.len() && hits[i] == h;
        assert(!embeddings::is_wide_nan(hits[i].score));
    }
    sorting::law_sorted_where_sound(hits, hit_order(), by_rank);
    assert forall|i: int, j: int| 0 <= i < j < hits.len() implies embeddings::wide_rank(
        (#[trigger] sorted[i]).score,
    ) >= embeddings::wide_rank((#[trigger] sorted[j]).score) by {
        assert(hit_order()(sorted[i], sorted[j]));
        sorting::sorting_adds_none(hits, hit_order(), sorted[i]);
        sorting::sorting_adds_none(hits, hit_order(), sorted[j]);
    }
}

fn hit_before(a: &Hit, b: &Hit) -> (r: bool)
    ensures
        r == hit_order()(a.deep_view(), b.deep_view()),
{
    !embeddings::double_less(a.score, b.score)
}

/// The complaint about a place that is not in the graph.
pub open spec fn out_of_bounds(head: Seq<char>, at: nat, tail: Seq<char>) -> IngestErrorModel {
    IngestErrorModel::SoftMerge(head + text::nat_text(at) + tail)
}

fn bounds_error(head: &str, at: usize, tail: &str) -> (r: IngestError)
    ensures
        r.deep_view() == out_of_bounds(head@, at as nat, tail@),
{
    let mut s = head.to_owned();
    s.append(text::usize_text(at).as_str());
    s.append(tail);
    IngestError::SoftMerge(s)
}

/// An entity of the graph as a hit.
pub open spec fn entity_hit(e: EntityGraphModel, at: usize, score: u64, field: Seq<char>) ->
    HitModel {
    HitModel {
        id: at as i64,
        score,
        canonical: field_text(e, field),
        props: property_values(e.properties),
    }
}

/// The representatives that are similar enough, in the order in which they were
/// chosen. `places` are the places of the members of the group.
pub open spec fn similar_ones(
    entities: Seq<EntityGraphModel>,
    places: Seq<usize>,
    chosen: Seq<usize>,
    scores: Seq<u64>,
    threshold: u64,
    field: Seq<char>,
) -> Result<Seq<HitModel>, IngestErrorModel>
    decreases chosen.len(),
{
    if chosen.len() == 0 {
        Ok(Seq::empty())
    } else {
        match similar_ones(entities, places, chosen.drop_last(), scores, threshold, field) {
            Err(e) => Err(e),
            Ok(before) => {
                let score = scores[chosen.len() - 1];
                let at = places[chosen.last() as int];
                if embeddings::wide_less(score, threshold) {
                    Ok(before)
                } else if at >= entities.len() {
                    Err(
                        out_of_bounds("in-batch dedup: entity idx "@, at as nat, " out of bounds"@),
                    )
                } else {
                    Ok(before.push(entity_hit(entities[at as int], at, score, field)))
                }
            },
        }
    }
}

proof fn similar_ones_stay_failed(
    entities: Seq<EntityGraphModel>,
    places: Seq<usize>,
    chosen: Seq<usize>,
    scores: Seq<u64>,
    threshold: u64,
    field: Seq<char>,
    n: int,
)
    requires
        0 <= n <= chosen.len(),
        similar_ones(entities, places, chosen.take(n), scores, threshold, field) is Err,
    ensures
        similar_ones(entities, places, chosen, scores, threshold, field) == similar_ones(
            entities,
            places,
            chosen.take(n),
            scores,
            threshold,
            field,
        ),
    decreases chosen.len() - n,
{
    if n < chosen.len() {
        assert(chosen.take(n + 1).drop_last() =~= chosen.take(n));
        similar_ones_stay_failed(entities, places, chosen, scores, threshold, field, n + 1);
    } else {
        assert(chosen.take(n) =~= chosen);
    }
}

/// The hits of a member of a group among the representatives, best first.
pub open spec fn batch_hits(
    entities: Seq<EntityGraphModel>,
    places: Seq<usize>,
    chosen: Seq<usize>,
    scores: Seq<u64>,
    threshold: u64,
    field: Seq<char>,
    i: int,
) -> Result<Seq<HitModel>, IngestErrorModel> {
    if places[i] >= entities.len() {
        Err(out_of_bounds("in-batch dedup: entity idx "@, places[i] as nat, " out of bounds"@))
    } else {
        match similar_ones(entities, places, chosen, scores, threshold, field) {
            Ok(hits) => Ok(sorting::sorted_by(hits, hit_order())),
            Err(e) => Err(e),
        }
    }
}

/// How far the merging of a group within itself has come.
#[derive(Debug, PartialEq)]
pub struct InBatchState {
    /// The members that stay, by their places in the group.
    pub representatives: Vec<usize>,
    /// How many members were merged with one of those.
    pub collapsed: usize,
    /// How many records for review there were.
    pub needs_review: usize,
    pub review_candidates: Vec<ReviewCandidate>,
}

pub struct InBatchStateModel {
    pub representatives: Seq<usize>,
    pub collapsed: usize,
    pub needs_review: usize,
    pub review_candidates: Seq<ReviewCandidateModel>,
}

impl DeepView for InBatchState {
    type V = InBatchStateModel;

    open spec fn deep_view(&self) -> InBatchStateModel {
        InBatchStateModel {
            representatives: self.representatives.deep_view(),
            collapsed: self.collapsed,
            needs_review: self.needs_review,
            review_candidates: self.review_candidates.deep_view(),
        }
    }
}

impl Default for InBatchState {
    fn default() -> (r: InBatchState)
        ensures
            r.deep_view() == (InBatchStateModel {
                representatives: Seq::empty(),
                collapsed: 0,
                needs_review: 0,
                review_candidates: Seq::empty(),
            }),
            r.wf(0),
    {
        InBatchState {
            representatives: seqs::no_items(),
            collapsed: 0,
            needs_review: 0,
            review_candidates: seqs::no_items(),
        }
    }
}

impl InBatchState {
    /// What holds after `n` members: representatives ascend and are among them,
    /// and every member counts at most once.
    pub open spec fn wf(&self, n: int) -> bool {
        &&& self.representatives@.len() + self.collapsed <= n
        &&& self.needs_review <= self.representatives@.len()
        &&& forall|i: int|
            0 <= i < self.representatives@.len() ==> (#[trigger] self.representatives@[i]) < n
        &&& forall|i: int, j: int|
            0 <= i < j < self.representatives@.len() ==> (#[trigger] self.representatives@[i])
                < (#[trigger] self.representatives@[j])
    }
}

/// The places of the members of a group.
pub open spec fn places_of(group: Seq<EmbeddedCandidateModel>) -> Seq<usize> {
    Seq::new(group.len(), |i: int| group[i].entity_index)
}

/// The hits of a member of a group among the representatives. `scores` are the
/// similarities to each of them.
pub fn in_batch_hits(
    graph: &Graph,
    group: &Vec<EmbeddedCandidate>,
    state: &InBatchState,
    scores: &Vec<u64>,
    threshold: u64,
    field: &str,
    i: usize,
) -> (r: Result<Vec<Hit>, IngestError>)
    requires
        i < group@.len(),
        state.wf(i as int),
        scores@.len() == state.representatives@.len(),
        forall|k: int|
            0 <= k < group@.len() ==> (#[trigger] group@[k]).entity_index <= i64::MAX,
    ensures
        error::outcome_model(r) == batch_hits(
            graph.deep_view().entities,
            places_of(group.deep_view()),
            state.representatives@,
            scores@,
            threshold,
            field@,
            i as int,
        ),
{
    let ghost entities = graph.deep_view().entities;
    let ghost places = places_of(group.deep_view());
    let ghost chosen = state.representatives@;
    assert(places[i as int] == group@[i as int].entity_index);
    assert(entities.len() == graph.entities@.len());
    if group[i].entity_index >= graph.entities.len() {
        return Err(
            bounds_error(
                "in-batch dedup: entity idx ",
                group[i].entity_index,
                " out of bounds",
            ),
        );
    }
    let mut hits: Vec<Hit> = seqs::no_items();
    let mut k: usize = 0;
    while k < state.representatives.len()
        invariant
            entities == graph.deep_view().entities,
            entities.len() == graph.entities@.len(),
            places == places_of(group.deep_view()),
            chosen == state.representatives@,
            i < group@.len(),
            places[i as int] < entities.len(),
            state.wf(i as int),
            scores@.len() == state.representatives@.len(),
            forall|k: int|
                0 <= k < group@.len() ==> (#[trigger] group@[k]).entity_index <= i64::MAX,
            0 <= k <= state.representatives@.len(),
            similar_ones(
                entities,
                places,
                chosen.take(k as int),
                scores@,
                threshold,
                field@,
            ) == Ok::<Seq<HitModel>, IngestErrorModel>(hits.deep_view()),
        decreases state.representatives@.len() - k,
    {
        proof {
            assert(chosen.take(k + 1).drop_last() =~= chosen.take(k as int));
            assert(chosen.take(k + 1).last() == chosen[k as int]);
        }
        let rep = state.representatives[k];
        assert(rep < i);
        let at = group[rep].entity_index;
        assert(places[rep as int] == at);
        assert(group@[rep as int].entity_index <= i64::MAX);
        if !embeddings::double_less(scores[k], threshold) {
            if at >= graph.entities.len() {
                proof {
                    similar_ones_stay_failed(
                        entities,
                        places,
                        chosen,
                        scores@,
                        threshold,
                        field@,
                        k + 1,
                    );
                }
                return Err(
                    bounds_error("in-batch dedup: entity idx ", at, " out of bounds"),
                );
            }
            let entity = &graph.entities[at];
            assert(entities[at as int] == entity.deep_view());
            seqs::push_item(
                &mut hits,
                Hit {
                    id: at as i64,
                    score: scores[k],
                    canonical: text_in_field(entity, field),
                    props: values_of(&entity.properties),
                },
            );
        }
        k += 1;
    }
    assert(chosen.take(k as int) =~= chosen);
    sorting::sort_items(&mut hits, hit_before, Ghost(hit_order()));
    Ok(hits)
}

/// What comes of settling one member of a group.
pub struct Settled {
    pub entities: Seq<EntityGraphModel>,
    pub state: InBatchStateModel,
    pub error: Option<IngestErrorModel>,
}

/// A record for review.
pub open spec fn review_record(
    at: usize,
    label: Seq<char>,
    field: Seq<char>,
    text: Seq<char>,
    source: ReviewSource,
    top: ReviewHitModel,
    runners_up: Seq<ReviewHitModel>,
    rejected_by: Seq<GateReasonModel>,
) -> ReviewCandidateModel {
    ReviewCandidateModel {
        entity_index: at,
        label,
        field,
        incoming_value: lexical::name_in(text),
        source,
        top,
        runners_up,
        rejected_by,
    }
}

/// Is a place that of a representative?
pub open spec fn is_chosen(places: Seq<usize>, chosen: Seq<usize>, at: int) -> bool {
    exists|k: int| 0 <= k < chosen.len() && places[(#[trigger] chosen[k]) as int] == at
}

/// Settle one member of a group by its hits. A merged member takes the text of the
/// other and leaves the group; any other stays as a representative.
pub open spec fn settle(
    entities: Seq<EntityGraphModel>,
    places: Seq<usize>,
    state: InBatchStateModel,
    i: int,
    label: Seq<char>,
    field: Seq<char>,
    hits: Seq<HitModel>,
    measures: Seq<Measure>,
    cfg: SoftMergeConfigModel,
) -> Settled {
    let at = places[i];
    if at >= entities.len() {
        Settled {
            entities,
            state,
            error: Some(
                out_of_bounds("in-batch dedup: entity idx "@, at as nat, " out of bounds"@),
            ),
        }
    } else {
        let e = entities[at as int];
        let text = field_text(e, field);
        let stays = InBatchStateModel {
            representatives: state.representatives.push(i as usize),
            ..state
        };
        match decision::decide(text, e.properties, hits, measures, cfg) {
            DecisionModel::NoMerge => Settled { entities, state: stays, error: None },
            DecisionModel::NeedsReview { top, runners_up, rejected_by } => Settled {
                entities,
                state: InBatchStateModel {
                    needs_review: (state.needs_review + 1) as usize,
                    review_candidates: if cfg.emit_review_candidates {
                        state.review_candidates.push(
                            review_record(
                                at,
                                label,
                                field,
                                text,
                                ReviewSource::InBatch,
                                top,
                                runners_up,
                                rejected_by,
                            ),
                        )
                    } else {
                        state.review_candidates
                    },
                    ..stays
                },
                error: None,
            },
            DecisionModel::AutoMerge { canonical, hit_id, top_score: _ } => Settled {
                entities: rewritten(entities, at as int, field, canonical),
                state: if strmap::assoc_get(e.properties, field) is Some {
                    InBatchStateModel { collapsed: (state.collapsed + 1) as usize, ..state }
                } else {
                    state
                },
                error: if is_chosen(places, state.representatives, hit_id as int) {
                    None
                } else {
                    Some(
                        out_of_bounds(
                            "in-batch dedup: representative entity_index "@,
                            hit_id as nat,
                            " not present in representatives"@,
                        ),
                    )
                },
            },
        }
    }
}

/// Settling a member leaves every entity in its place, and changes nothing of it but
/// the field that it is merged by.
pub proof fn law_settling_touches_one_field(
    entities: Seq<EntityGraphModel>,
    places: Seq<usize>,
    state: InBatchStateModel,
    i: int,
    label: Seq<char>,
    field: Seq<char>,
    hits: Seq<HitModel>,
    measures: Seq<Measure>,
    cfg: SoftMergeConfigModel,
    k: int,
)
    requires
        0 <= k < entities.len(),
    ensures
        ({
            let s = settle(entities, places, state, i, label, field, hits, measures, cfg);
            s.entities.len() == entities.len() && same_but_field(entities[k], s.entities[k], field)
        }),
{
    let at = places[i];
    if at < entities.len() {
        let e = entities[at as int];
        let what = decision::decide(field_text(e, field), e.properties, hits, measures, cfg);
        if let DecisionModel::AutoMerge { canonical, hit_id: _, top_score: _ } = what {
            law_rewrites_touch_one_field(entities, at as int, field, canonical, k);
        }
    }
}

fn chosen_at(group: &Vec<EmbeddedCandidate>, chosen: &Vec<usize>, at: usize) -> (r: bool)
    requires
        forall|k: int| 0 <= k < chosen@.len() ==> (#[trigger] chosen@[k]) < group@.len(),
    ensures
        r == is_chosen(places_of(group.deep_view()), chosen@, at as int),
{
    let ghost places = places_of(group.deep_view());
    let mut k: usize = 0;
    while k < chosen.len()
        invariant
            places == places_of(group.deep_view()),
            forall|k: int| 0 <= k < chosen@.len() ==> (#[trigger] chosen@[k]) < group@.len(),
            0 <= k <= chosen@.len(),
            forall|j: int| 0 <= j < k ==> places[(#[trigger] chosen@[j]) as int] != at,
        decreases chosen@.len() - k,
    {
        assert(chosen@[k as int] < group@.len());
        assert(places[chosen@[k as int] as int] == group@[chosen@[k as int] as int].entity_index);
        if group[chosen[k]].entity_index == at {
            return true;
        }
        k += 1;
    }
    false
}

/// Settle one member of a group by its hits.
pub fn settle_in_batch(
    graph: &mut Graph,
    group: &Vec<EmbeddedCandidate>,
    state: &mut InBatchState,
    i: usize,
    label: &str,
    field: &str,
    hits: &Vec<Hit>,
    measures: &Vec<Measure>,
    cfg: &SoftMergeConfig,
) -> (r: Result<(), IngestError>)
    requires
        i < group@.len(),
        old(state).wf(i as int),
        measures@.len() == hits@.len(),
        forall|k: int| 0 <= k < hits@.len() ==> 0 <= (#[trigger] hits@[k]).id <= usize::MAX,
    ensures
        ({
            let s = settle(
                old(graph).deep_view().entities,
                places_of(group.deep_view()),
                old(state).deep_view(),
                i as int,
                label@,
                field@,
                hits.deep_view(),
                measures@,
                cfg.deep_view(),
            );
            &&& final(graph).deep_view().entities == s.entities
            &&& final(graph).deep_view().relations == old(graph).deep_view().relations
            &&& final(state).deep_view() == s.state
            &&& match r {
                Ok(_) => s.error is None,
                Err(e) => s.error == Some(e.deep_view()),
            }
        }),
        final(state).wf(i + 1),
{
    let ghost places = places_of(group.deep_view());
    let members = group.len();
    assert(i < members);
    let at = group[i].entity_index;
    proof {
        assert(places[i as int] == at);
        assert(graph.deep_view().entities.len() == graph.entities@.len());
        assert(state.representatives.deep_view() =~= state.representatives@);
    }
    if at >= graph.entities.len() {
        return Err(bounds_error("in-batch dedup: entity idx ", at, " out of bounds"));
    }
    assert(graph.deep_view().entities[at as int] == graph.entities@[at as int].deep_view());
    let text = text_in_field(&graph.entities[at], field);
    let what = decision::classify(
        text.as_str(),
        &graph.entities[at].properties,
        hits,
        measures,
        cfg,
    );
    match what {
        Decision::NoMerge => {
            state.representatives.push(i);
            assert(state.representatives.deep_view() =~= state.representatives@);
            Ok(())
        },
        Decision::NeedsReview { top, runners_up, rejected_by } => {
            state.needs_review += 1;
            if cfg.emit_review_candidates {
                seqs::push_item(
                    &mut state.review_candidates,
                    ReviewCandidate {
                        entity_index: at,
                        label: label.to_owned(),
                        field: field.to_owned(),
                        incoming_value: decision::incoming_name(text.as_str()),
                        source: ReviewSource::InBatch,
                        top,
                        runners_up,
                        rejected_by,
                    },
                );
            }
            state.representatives.push(i);
            assert(state.representatives.deep_view() =~= state.representatives@);
            Ok(())
        },
        Decision::AutoMerge { canonical, hit_id, top_score: _ } => {
            proof {
                assert(hits.deep_view()[0] == hits@[0].deep_view());
                assert(0 <= hits@[0].id <= usize::MAX);
            }
            if rewrite(graph, at, field, canonical) {
                state.collapsed += 1;
            }
            let rep = hit_id as usize;
            if chosen_at(group, &state.representatives, rep) {
                Ok(())
            } else {
                Err(
                    bounds_error(
                        "in-batch dedup: representative entity_index ",
                        rep,
                        " not present in representatives",
                    ),
                )
            }
        },
    }
}

/// The members of a group that stay.
pub open spec fn kept(group: Seq<EmbeddedCandidateModel>, chosen: Seq<usize>) -> Seq<
    EmbeddedCandidateModel,
> {
    Seq::new(chosen.len(), |k: int| group[chosen[k] as int])
}

/// The members of a group that stay, in their order.
pub fn keep_representatives(group: &Vec<EmbeddedCandidate>, state: &InBatchState) -> (r: Vec<
    EmbeddedCandidate,
>)
    requires
        state.wf(group@.len() as int),
    ensures
        r.deep_view() == kept(group.deep_view(), state.representatives@),
{
    let ghost want = kept(group.deep_view(), state.representatives@);
    let mut out: Vec<EmbeddedCandidate> = seqs::no_items();
    let mut k: usize = 0;
    while k < state.representatives.len()
        invariant
            want == kept(group.deep_view(), state.representatives@),
            state.wf(group@.len() as int),
            0 <= k <= state.representatives@.len(),
            out.deep_view() == want.take(k as int),
        decreases state.representatives@.len() - k,
    {
        let rep = state.representatives[k];
        assert(rep < group@.len());
        assert(group.deep_view()[rep as int] == group@[rep as int].deep_view());
        seqs::push_item(
            &mut out,
            EmbeddedCandidate {
                entity_index: group[rep].entity_index,
                vec: group[rep].vec.copied(),
            },
        );
        k += 1;
        assert(out.deep_view() =~= want.take(k as int));
    }
    assert(out.deep_view() =~= want);
    out
}

/// The collection that is searched for a field.
pub fn search_collection(prefix_index: &Option<String>, base: &str, field: &str) -> (r: String)
    ensures
        r@ == types::field_collection(prefix_index.deep_view(), base@, field@),
{
    delete::with_prefix_index(prefix_index, base, field)
}

/// How far the merging of a group with the database has come.
pub struct Resolving {
    pub entities: Seq<EntityGraphModel>,
    pub report: SoftMergeReportModel,
    pub error: Option<IngestErrorModel>,
}

/// Merge one entity with the best of its hits, put it up for review, or leave it.
pub open spec fn resolve_one(
    r: Resolving,
    at: usize,
    field: Seq<char>,
    hits: Seq<HitModel>,
    measures: Seq<Measure>,
    cfg: SoftMergeConfigModel,
) -> Resolving {
    if r.error is Some {
        r
    } else if at >= r.entities.len() {
        Resolving {
            error: Some(out_of_bounds("entity idx "@, at as nat, " out of bounds"@)),
            ..r
        }
    } else {
        let e = r.entities[at as int];
        let text = field_text(e, field);
        match decision::decide(text, e.properties, hits, measures, cfg) {
            DecisionModel::NoMerge => Resolving {
                report: SoftMergeReportModel {
                    no_merge: (r.report.no_merge + 1) as usize,
                    ..r.report
                },
                ..r
            },
            DecisionModel::NeedsReview { top, runners_up, rejected_by } => Resolving {
                report: SoftMergeReportModel {
                    needs_review: (r.report.needs_review + 1) as usize,
                    review_candidates: if cfg.emit_review_candidates {
                        r.report.review_candidates.push(
                            review_record(
                                at,
                                e.kind,
                                field,
                                text,
                                ReviewSource::Existing,
                                top,
                                runners_up,
                                rejected_by,
                            ),
                        )
                    } else {
                        r.report.review_candidates
                    },
                    ..r.report
                },
                ..r
            },
            DecisionModel::AutoMerge { canonical, hit_id: _, top_score: _ } => Resolving {
                entities: rewritten(r.entities, at as int, field, canonical),
                report: if strmap::assoc_get(e.properties, field) is Some {
                    SoftMergeReportModel {
                        auto_merges: (r.report.auto_merges + 1) as usize,
                        ..r.report
                    }
                } else {
                    r.report
                },
                ..r
            },
        }
    }
}

/// Merge the members of a group one by one, up to the first fault.
pub open spec fn resolve_group(
    start: Resolving,
    places: Seq<usize>,
    field: Seq<char>,
    hits: Seq<Seq<HitModel>>,
    measures: Seq<Seq<Measure>>,
    cfg: SoftMergeConfigModel,
) -> Resolving
    decreases places.len(),
{
    if places.len() == 0 {
        start
    } else {
        resolve_one(
            resolve_group(start, places.drop_last(), field, hits, measures, cfg),
            places.last(),
            field,
            hits[places.len() - 1],
            measures[places.len() - 1],
            cfg,
        )
    }
}

proof fn resolve_stays_failed(
    start: Resolving,
    places: Seq<usize>,
    field: Seq<char>,
    hits: Seq<Seq<HitModel>>,
    measures: Seq<Seq<Measure>>,
    cfg: SoftMergeConfigModel,
    n: int,
)
    requires
        0 <= n <= places.len(),
        resolve_group(start, places.take(n), field, hits, measures, cfg).error is Some,
    ensures
        resolve_group(start, places, field, hits, measures, cfg) == resolve_group(
            start,
            places.take(n),
            field,
            hits,
            measures,
            cfg,
        ),
    decreases places.len() - n,
{
    if n < places.len() {
        assert(places.take(n + 1).drop_last() =~= places.take(n));
        resolve_stays_failed(start, places, field, hits, measures, cfg, n + 1);
    } else {
        assert(places.take(n) =~= places);
    }
}

proof fn same_but_field_chains(
    a: EntityGraphModel,
    b: EntityGraphModel,
    c: EntityGraphModel,
    field: Seq<char>,
)
    requires
        same_but_field(a, b, field),
        same_but_field(b, c, field),
    ensures
        same_but_field(a, c, field),
{
    assert forall|k: Seq<char>| k != field implies #[trigger] strmap::assoc_get(a.properties, k)
        == strmap::assoc_get(c.properties, k) by {
        assert(strmap::assoc_get(a.properties, k) == strmap::assoc_get(b.properties, k));
        assert(strmap::assoc_get(b.properties, k) == strmap::assoc_get(c.properties, k));
    }
}

proof fn resolve_one_touches_one_field(
    r: Resolving,
    at: usize,
    field: Seq<char>,
    hits: Seq<HitModel>,
    measures: Seq<Measure>,
    cfg: SoftMergeConfigModel,
    i: int,
)
    requires
        0 <= i < r.entities.len(),
    ensures
        resolve_one(r, at, field, hits, measures, cfg).entities.len() == r.entities.len(),
        same_but_field(
            r.entities[i],
            resolve_one(r, at, field, hits, measures, cfg).entities[i],
            field,
        ),
{
    if r.error is None && at < r.entities.len() {
        let e = r.entities[at as int];
        let what = decision::decide(field_text(e, field), e.properties, hits, measures, cfg);
        if let DecisionModel::AutoMerge { canonical, hit_id: _, top_score: _ } = what {
            law_rewrites_touch_one_field(r.entities, at as int, field, canonical, i);
        }
    }
}

/// Merging a group with the database leaves every entity in its place, and changes
/// nothing of it but the field that it is merged by.
pub proof fn law_resolution_touches_one_field(
    start: Resolving,
    places: Seq<usize>,
    field: Seq<char>,
    hits: Seq<Seq<HitModel>>,
    measures: Seq<Seq<Measure>>,
    cfg: SoftMergeConfigModel,
    i: int,
)
    requires
        0 <= i < start.entities.len(),
    ensures
        resolve_group(start, places, field, hits, measures, cfg).entities.len()
            == start.entities.len(),
        same_but_field(
            start.entities[i],
            resolve_group(start, places, field, hits, measures, cfg).entities[i],
            field,
        ),
    decreases places.len(),
{
    if places.len() > 0 {
        let rest = places.drop_last();
        let before = resolve_group(start, rest, field, hits, measures, cfg);
        let after = resolve_group(start, places, field, hits, measures, cfg);
        law_resolution_touches_one_field(start, rest, field, hits, measures, cfg, i);
        resolve_one_touches_one_field(
            before,
            places.last(),
            field,
            hits[places.len() - 1],
            measures[places.len() - 1],
            cfg,
            i,
        );
        same_but_field_chains(start.entities[i], before.entities[i], after.entities[i], field);
    }
}

/// Merge the members of a group with the database, by their hits, best first.
pub fn settle_existing(
    graph: &mut Graph,
    report: &mut SoftMergeReport,
    group: &Vec<EmbeddedCandidate>,
    field: &str,
    hits: &Vec<Vec<Hit>>,
    measures: &Vec<Vec<Measure>>,
    cfg: &SoftMergeConfig,
) -> (r: Result<(), IngestError>)
    requires
        hits@.len() == group@.len(),
        measures@.len() == group@.len(),
        forall|k: int|
            0 <= k < group@.len() ==> (#[trigger] hits@[k])@.len() == measures@[k]@.len(),
        old(report).auto_merges + group@.len() <= usize::MAX,
        old(report).needs_review + group@.len() <= usize::MAX,
        old(report).no_merge + group@.len() <= usize::MAX,
    ensures
        ({
            let s = resolve_group(
                Resolving {
                    entities: old(graph).deep_view().entities,
                    report: old(report).deep_view(),
                    error: None,
                },
                places_of(group.deep_view()),
                field@,
                hits.deep_view(),
                measures.deep_view(),
                cfg.deep_view(),
            );
            &&& final(graph).deep_view().entities == s.entities
            &&& final(graph).deep_view().relations == old(graph).deep_view().relations
            &&& final(report).deep_view() == s.report
            &&& match r {
                Ok(_) => s.error is None,
                Err(e) => s.error == Some(e.deep_view()),
            }
        }),
{
    let ghost start = Resolving {
        entities: graph.deep_view().entities,
        report: report.deep_view(),
        error: None,
    };
    let ghost places = places_of(group.deep_view());
    let ghost hs = hits.deep_view();
    let ghost ms = measures.deep_view();
    let ghost conf = cfg.deep_view();
    let mut i: usize = 0;
    proof {
        assert(places.take(0) =~= Seq::<usize>::empty());
    }
    while i < group.len()
        invariant
            start == (Resolving {
                entities: old(graph).deep_view().entities,
                report: old(report).deep_view(),
                error: None,
            }),
            places == places_of(group.deep_view()),
            places.len() == group@.len(),
            hs == hits.deep_view(),
            ms == measures.deep_view(),
            conf == cfg.deep_view(),
            hits@.len() == group@.len(),
            measures@.len() == group@.len(),
            forall|k: int|
                0 <= k < group@.len() ==> (#[trigger] hits@[k])@.len() == measures@[k]@.len(),
            0 <= i <= group@.len(),
            old(report).auto_merges + group@.len() <= usize::MAX,
            old(report).needs_review + group@.len() <= usize::MAX,
            old(report).no_merge + group@.len() <= usize::MAX,
            report.auto_merges <= old(report).auto_merges + i,
            report.needs_review <= old(report).needs_review + i,
            report.no_merge <= old(report).no_merge + i,
            resolve_group(start, places.take(i as int), field@, hs, ms, conf) == (Resolving {
                entities: graph.deep_view().entities,
                report: report.deep_view(),
                error: None,
            }),
            graph.deep_view().relations == old(graph).deep_view().relations,
        decreases group@.len() - i,
    {
        let at = group[i].entity_index;
        proof {
            assert(places.take(i + 1).drop_last() =~= places.take(i as int));
            assert(places.take(i + 1).last() == at);
            assert(hs[i as int] == hits@[i as int].deep_view());
            assert(ms[i as int] =~= measures@[i as int]@);
            assert(hits@[i as int]@.len() == measures@[i as int]@.len());
            assert(graph.deep_view().entities.len() == graph.entities@.len());
        }
        if at >= graph.entities.len() {
            proof {
                resolve_stays_failed(start, places, field@, hs, ms, conf, i + 1);
            }
            return Err(bounds_error("entity idx ", at, " out of bounds"));
        }
        assert(graph.deep_view().entities[at as int] == graph.entities@[at as int].deep_view());
        let text = text_in_field(&graph.entities[at], field);
        let what = decision::classify(
            text.as_str(),
            &graph.entities[at].properties,
            &hits[i],
            &measures[i],
            cfg,
        );
        match what {
            Decision::NoMerge => {
                report.no_merge += 1;
            },
            Decision::NeedsReview { top, runners_up, rejected_by } => {
                report.needs_review += 1;
                if cfg.emit_review_candidates {
                    let record = ReviewCandidate {
                        entity_index: at,
                        label: graph.entities[at].kind.clone(),
                        field: field.to_owned(),
                        incoming_value: decision::incoming_name(text.as_str()),
                        source: ReviewSource::Existing,
                        top,
                        runners_up,
                        rejected_by,
                    };
                    seqs::push_item(&mut report.review_candidates, record);
                }
            },
            Decision::AutoMerge { canonical, hit_id: _, top_score: _ } => {
                if rewrite(graph, at, field, canonical) {
                    report.auto_merges += 1;
                }
            },
        }
        i += 1;
    }
    assert(places.take(i as int) =~= places);
    Ok(())
}

/// The report with what came of merging a group within itself, and with the members
/// that are left to be looked for.
pub open spec fn with_in_batch(
    report: SoftMergeReportModel,
    state: InBatchStateModel,
    left: nat,
) -> SoftMergeReportModel {
    SoftMergeReportModel {
        candidates: (report.candidates + left) as usize,
        needs_review: (report.needs_review + state.needs_review) as usize,
        in_batch_dedup_collapsed: (report.in_batch_dedup_collapsed + state.collapsed) as usize,
        review_candidates: report.review_candidates + state.review_candidates,
        ..report
    }
}

/// Add to a report what came of merging a group within itself.
pub fn add_in_batch(report: &mut SoftMergeReport, state: InBatchState, left: usize)
    requires
        old(report).candidates + left <= usize::MAX,
        old(report).needs_review + state.needs_review <= usize::MAX,
        old(report).in_batch_dedup_collapsed + state.collapsed <= usize::MAX,
    ensures
        final(report).deep_view() == with_in_batch(
            old(report).deep_view(),
            state.deep_view(),
            left as nat,
        ),
{
    report.candidates += left;
    report.needs_review += state.needs_review;
    report.in_batch_dedup_collapsed += state.collapsed;
    seqs::append_items(&mut report.review_candidates, state.review_candidates);
}

} // verus!
