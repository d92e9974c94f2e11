//! What merging does to the entities of a graph and to the report of it.

use vstd::prelude::*;
use crate::embeddings;
use crate::graph::builder::CANONICAL_FIELD;
use crate::graph::schema::EntityGraphModel;
use crate::graph::schema::PrimaryKeyModel;
use crate::graph::schema::PropertyModel;
use crate::ingest::error::IngestErrorModel;
use crate::ingest::laws;
use crate::ingest::soft_merge::decision;
use crate::ingest::soft_merge::decision::DecisionModel;
use crate::ingest::soft_merge::decision::Measure;
use crate::ingest::soft_merge::decision::SoftMergeConfigModel;
use crate::ingest::soft_merge::query::EmbeddedCandidateModel;
use crate::ingest::soft_merge::query::HitModel;
use crate::ingest::soft_merge::resolve;
use crate::ingest::soft_merge::resolve::CandidateModel;
use crate::ingest::soft_merge::resolve::InBatchStateModel;
use crate::ingest::soft_merge::resolve::Resolving;
use crate::ingest::soft_merge::resolve::SoftMergeReportModel;
use crate::json::FloatModel;
use crate::json::JsonModel;
use crate::sorting;
use crate::strmap;

verus! {

broadcast use vstd::string::group_string_axioms;

/// Is an entity, merged by resemblance, without a text that it could be merged by?
pub open spec fn has_no_text(e: EntityGraphModel) -> bool {
    &&& e.primary_key == Some(PrimaryKeyModel::Soft)
    &&& match strmap::assoc_get(e.properties, CANONICAL_FIELD@) {
        None => true,
        Some(p) => p.value is Null || p.value == JsonModel::Str(Seq::empty()),
    }
}

/// Is there a candidate for the entity at a place, with the text of that entity?
pub open spec fn stands_for(c: CandidateModel, entities: Seq<EntityGraphModel>, at: int) -> bool {
    &&& c.entity_index == at
    &&& c.label == entities[at].kind
    &&& c.field == CANONICAL_FIELD@
    &&& match strmap::assoc_get(entities[at].properties, CANONICAL_FIELD@) {
        Some(p) => p.value is Str ==> c.text == p.value->Str_0,
        None => false,
    }
}

pub open spec fn has_candidate(
    cs: Seq<CandidateModel>,
    entities: Seq<EntityGraphModel>,
    at: int,
) -> bool {
    exists|k: int| 0 <= k < cs.len() && #[trigger] stands_for(cs[k], entities, at)
}

/// The candidates for merging are all entities without a key of their own, each once, in their
/// order and with their own text; collecting them fails where one of those has no text.
pub proof fn law_candidates_are_all(entities: Seq<EntityGraphModel>)
    requires
        entities.len() <= usize::MAX,
    ensures
        (exists|i: int| 0 <= i < entities.len() && has_no_text(#[trigger] entities[i]))
            ==> resolve::collected(entities) is Err,
        match resolve::collected(entities) {
            Ok(cs) => {
                &&& forall|i: int|
                    0 <= i < entities.len() && (#[trigger] entities[i]).primary_key == Some(
                        PrimaryKeyModel::Soft,
                    ) ==> has_candidate(cs, entities, i)
                &&& forall|k: int|
                    0 <= k < cs.len() ==> (#[trigger] cs[k]).entity_index < entities.len()
                        && entities[cs[k].entity_index as int].primary_key == Some(
                        PrimaryKeyModel::Soft,
                    ) && stands_for(cs[k], entities, cs[k].entity_index as int)
                &&& forall|k: int, m: int|
                    0 <= k < m < cs.len() ==> (#[trigger] cs[k]).entity_index < (
                    #[trigger] cs[m]).entity_index
            },
            Err(e) => exists|i: int|
                0 <= i < entities.len() && (#[trigger] entities[i]).primary_key == Some(
                    PrimaryKeyModel::Soft,
                ) && e == (IngestErrorModel::MissingGraphPrimaryKeyValue {
                    label: entities[i].kind,
                    field: CANONICAL_FIELD@,
                }),
        },
    decreases entities.len(),
{
    if entities.len() > 0 {
        let rest = entities.drop_last();
        let e = entities.last();
        let n = entities.len() - 1;
        law_candidates_are_all(rest);
        assert(entities[n] == e);
        if exists|i: int| 0 <= i < entities.len() && has_no_text(#[trigger] entities[i]) {
            let i = choose|i: int| 0 <= i < entities.len() && has_no_text(#[trigger] entities[i]);
            if i < n {
                assert(has_no_text(rest[i]));
            }
        }
        match resolve::collected(rest) {
            Err(x) => {
                let i = choose|i: int|
                    0 <= i < rest.len() && (#[trigger] rest[i]).primary_key == Some(
                        PrimaryKeyModel::Soft,
                    ) && x == (IngestErrorModel::MissingGraphPrimaryKeyValue {
                        label: rest[i].kind,
                        field: CANONICAL_FIELD@,
                    });
                assert(entities[i] == rest[i]);
            },
            Ok(before) => {
                match resolve::collected(entities) {
                    Err(_) => {},
                    Ok(cs) => {
                        assert forall|i: int|
                            0 <= i < entities.len() && (#[trigger] entities[i]).primary_key == Some(
                                PrimaryKeyModel::Soft,
                            ) implies has_candidate(cs, entities, i) by {
                            if i < n {
                                assert(rest[i] == entities[i]);
                                assert(has_candidate(before, rest, i));
                                let k = choose|k: int|
                                    0 <= k < before.len() && #[trigger] stands_for(
                                        before[k],
                                        rest,
                                        i,
                                    );
                                assert(cs[k] == before[k]);
                                assert(stands_for(cs[k], entities, i));
                            } else {
                                assert(stands_for(cs[before.len() as int], entities, n));
                            }
                        }
                        assert forall|k: int| 0 <= k < cs.len() implies (
                        #[trigger] cs[k]).entity_index < entities.len()
                            && entities[cs[k].entity_index as int].primary_key == Some(
                            PrimaryKeyModel::Soft,
                        ) && stands_for(cs[k], entities, cs[k].entity_index as int) by {
                            if k < before.len() {
                                assert(cs[k] == before[k]);
                                assert(stands_for(before[k], rest, before[k].entity_index as int));
                            }
                        }
                        assert forall|k: int, m: int| 0 <= k < m < cs.len() implies (
                        #[trigger] cs[k]).entity_index < (#[trigger] cs[m]).entity_index by {
                            assert(cs[k] == before[k]);
                            if m < before.len() {
                                assert(cs[m] == before[m]);
                            }
                        }
                    },
                }
            },
        }
    }
}

/// Does a member of a group stand for a candidate, with the candidate's own vector?
pub open spec fn is_member_for(
    cs: Seq<CandidateModel>,
    vectors: Seq<Seq<FloatModel>>,
    key: Seq<Seq<char>>,
    m: EmbeddedCandidateModel,
    k: int,
) -> bool {
    &&& key == seq![cs[k].label, cs[k].field]
    &&& m.entity_index == cs[k].entity_index
    &&& m.vec == vectors[k]
}

pub open spec fn stands_for_some(
    cs: Seq<CandidateModel>,
    vectors: Seq<Seq<FloatModel>>,
) -> spec_fn(Seq<Seq<char>>, EmbeddedCandidateModel) -> bool {
    |key: Seq<Seq<char>>, m: EmbeddedCandidateModel|
        exists|k: int| 0 <= k < cs.len() && #[trigger] is_member_for(cs, vectors, key, m, k)
}

/// Every candidate is in the group of its label and field, with its own vector, and the groups
/// hold nothing else.
pub proof fn law_groups_hold_the_candidates(
    cs: Seq<CandidateModel>,
    vectors: Seq<Seq<FloatModel>>,
    k: int,
)
    requires
        0 <= k < cs.len(),
        vectors.len() == cs.len(),
    ensures
        laws::in_group(
            resolve::grouped(cs, vectors),
            seq![cs[k].label, cs[k].field],
            EmbeddedCandidateModel { entity_index: cs[k].entity_index, vec: vectors[k] },
        ),
        laws::rows_hold(resolve::grouped(cs, vectors), stands_for_some(cs, vectors)),
{
    every_candidate_is_grouped(cs, vectors, k);
    groups_are_of_candidates(cs, vectors);
}

proof fn every_candidate_is_grouped(
    cs: Seq<CandidateModel>,
    vectors: Seq<Seq<FloatModel>>,
    k: int,
)
    requires
        0 <= k < cs.len(),
    ensures
        laws::in_group(
            resolve::grouped(cs, vectors),
            seq![cs[k].label, cs[k].field],
            EmbeddedCandidateModel { entity_index: cs[k].entity_index, vec: vectors[k] },
        ),
    decreases cs.len(),
{
    let rest = cs.drop_last();
    let c = cs.last();
    let before = resolve::grouped(rest, vectors);
    let key = seq![c.label, c.field];
    let item = EmbeddedCandidateModel { entity_index: c.entity_index, vec: vectors[cs.len() - 1] };
    if k < rest.len() {
        every_candidate_is_grouped(rest, vectors, k);
        assert(rest[k] == cs[k]);
        laws::push_keeps_groups(
            before,
            key,
            item,
            seq![cs[k].label, cs[k].field],
            EmbeddedCandidateModel { entity_index: cs[k].entity_index, vec: vectors[k] },
        );
    } else {
        laws::push_is_in_group(before, key, item);
    }
}

proof fn groups_are_of_candidates(cs: Seq<CandidateModel>, vectors: Seq<Seq<FloatModel>>)
    ensures
        laws::rows_hold(resolve::grouped(cs, vectors), stands_for_some(cs, vectors)),
    decreases cs.len(),
{
    if cs.len() > 0 {
        let rest = cs.drop_last();
        let c = cs.last();
        groups_are_of_candidates(rest, vectors);
        let before = resolve::grouped(rest, vectors);
        let p = stands_for_some(rest, vectors);
        let q = stands_for_some(cs, vectors);
        assert forall|i: int, j: int|
            0 <= i < before.len() && 0 <= j < before[i].1.len() implies q(
            before[i].0,
            #[trigger] before[i].1[j],
        ) by {
            assert(p(before[i].0, before[i].1[j]));
            let k = choose|k: int|
                0 <= k < rest.len() && #[trigger] is_member_for(
                    rest,
                    vectors,
                    before[i].0,
                    before[i].1[j],
                    k,
                );
            assert(rest[k] == cs[k]);
            assert(is_member_for(cs, vectors, before[i].0, before[i].1[j], k));
        }
        let key = seq![c.label, c.field];
        let item = EmbeddedCandidateModel {
            entity_index: c.entity_index,
            vec: vectors[cs.len() - 1],
        };
        assert(is_member_for(cs, vectors, key, item, cs.len() - 1));
        assert(q(key, item));
        laws::push_keeps_rows(before, key, item, q);
    }
}

/// Is a hit the representative that was chosen as the k-th, with its own score?
pub open spec fn is_hit_of(
    h: HitModel,
    entities: Seq<EntityGraphModel>,
    places: Seq<usize>,
    chosen: Seq<usize>,
    scores: Seq<u64>,
    field: Seq<char>,
    k: int,
) -> bool {
    let at = places[chosen[k] as int];
    &&& h.id == at as i64
    &&& h.score == scores[k]
    &&& match strmap::assoc_get(entities[at as int].properties, field) {
        Some(p) => p.value is Str ==> h.canonical == p.value->Str_0,
        None => h.canonical.len() == 0,
    }
}

pub open spec fn hits_with(
    hits: Seq<HitModel>,
    entities: Seq<EntityGraphModel>,
    places: Seq<usize>,
    chosen: Seq<usize>,
    scores: Seq<u64>,
    field: Seq<char>,
    k: int,
) -> bool {
    exists|h: HitModel|
        hits.contains(h) && #[trigger] is_hit_of(h, entities, places, chosen, scores, field, k)
}

pub open spec fn is_hit_of_some(
    h: HitModel,
    entities: Seq<EntityGraphModel>,
    places: Seq<usize>,
    chosen: Seq<usize>,
    scores: Seq<u64>,
    threshold: u64,
    field: Seq<char>,
) -> bool {
    exists|k: int|
        0 <= k < chosen.len() && !embeddings::wide_less(scores[k], threshold) && #[trigger]
            is_hit_of(h, entities, places, chosen, scores, field, k)
}

/// The hits of a member of a group are exactly the representatives that score no less than
/// the threshold, each with its own score and text.
pub proof fn law_batch_hits_are_the_similar(
    entities: Seq<EntityGraphModel>,
    places: Seq<usize>,
    chosen: Seq<usize>,
    scores: Seq<u64>,
    threshold: u64,
    field: Seq<char>,
    i: int,
)
    requires
        resolve::batch_hits(entities, places, chosen, scores, threshold, field, i) is Ok,
    ensures
        ({
            let hits = resolve::batch_hits(
                entities,
                places,
                chosen,
                scores,
                threshold,
                field,
                i,
            )->Ok_0;
            &&& forall|k: int|
                0 <= k < chosen.len() && !embeddings::wide_less(scores[k], threshold)
                    ==> #[trigger] hits_with(hits, entities, places, chosen, scores, field, k)
            &&& forall|h: HitModel| #[trigger]
                hits.contains(h) ==> is_hit_of_some(
                    h,
                    entities,
                    places,
                    chosen,
                    scores,
                    threshold,
                    field,
                )
        }),
{
    let found = resolve::similar_ones(entities, places, chosen, scores, threshold, field)->Ok_0;
    let hits = resolve::batch_hits(entities, places, chosen, scores, threshold, field, i)->Ok_0;
    assert forall|k: int|
        0 <= k < chosen.len() && !embeddings::wide_less(scores[k], threshold) implies #[trigger]
        hits_with(hits, entities, places, chosen, scores, field, k) by {
        let h = similar_one_is_found(entities, places, chosen, scores, threshold, field, k);
        sorting::sorting_keeps(found, resolve::hit_order(), h);
    }
    assert forall|h: HitModel| #[trigger] hits.contains(h) implies is_hit_of_some(
        h,
        entities,
        places,
        chosen,
        scores,
        threshold,
        field,
    ) by {
        sorting::sorting_adds_none(found, resolve::hit_order(), h);
        found_one_is_similar(entities, places, chosen, scores, threshold, field, h);
    }
}

proof fn similar_one_is_found(
    entities: Seq<EntityGraphModel>,
    places: Seq<usize>,
    chosen: Seq<usize>,
    scores: Seq<u64>,
    threshold: u64,
    field: Seq<char>,
    k: int,
) -> (h: HitModel)
    requires
        resolve::similar_ones(entities, places, chosen, scores, threshold, field) is Ok,
        0 <= k < chosen.len(),
        !embeddings::wide_less(scores[k], threshold),
    ensures
        resolve::similar_ones(entities, places, chosen, scores, threshold, field)->Ok_0.contains(h),
        is_hit_of(h, entities, places, chosen, scores, field, k),
    decreases chosen.len(),
{
    let rest = chosen.drop_last();
    let before = resolve::similar_ones(entities, places, rest, scores, threshold, field)->Ok_0;
    let all = resolve::similar_ones(entities, places, chosen, scores, threshold, field)->Ok_0;
    if k < rest.len() {
        let h = similar_one_is_found(entities, places, rest, scores, threshold, field, k);
        assert(rest[k] == chosen[k]);
        let m = choose|m: int| 0 <= m < before.len() && before[m] == h;
        assert(all[m] == h);
        h
    } else {
        assert(chosen[k] == chosen.last());
        let h = all.last();
        assert(all[before.len() as int] == h);
        h
    }
}

proof fn found_one_is_similar(
    entities: Seq<EntityGraphModel>,
    places: Seq<usize>,
    chosen: Seq<usize>,
    scores: Seq<u64>,
    threshold: u64,
    field: Seq<char>,
    h: HitModel,
)
    requires
        resolve::similar_ones(entities, places, chosen, scores, threshold, field) is Ok,
        resolve::similar_ones(entities, places, chosen, scores, threshold, field)->Ok_0.contains(h),
    ensures
        is_hit_of_some(h, entities, places, chosen, scores, threshold, field),
    decreases chosen.len(),
{
    let all = resolve::similar_ones(entities, places, chosen, scores, threshold, field)->Ok_0;
    let m = choose|m: int| 0 <= m < all.len() && all[m] == h;
    if chosen.len() == 0 {
        assert(all.len() == 0);
    } else {
        let rest = chosen.drop_last();
        let before = resolve::similar_ones(entities, places, rest, scores, threshold, field)->Ok_0;
        if m < before.len() {
            assert(before[m] == h);
            found_one_is_similar(entities, places, rest, scores, threshold, field, h);
            let k = choose|k: int|
                0 <= k < rest.len() && !embeddings::wide_less(scores[k], threshold) && #[trigger]
                    is_hit_of(h, entities, places, rest, scores, field, k);
            assert(rest[k] == chosen[k]);
            assert(is_hit_of(h, entities, places, chosen, scores, field, k));
        } else {
            assert(chosen[chosen.len() - 1] == chosen.last());
            assert(is_hit_of(h, entities, places, chosen, scores, field, chosen.len() - 1));
        }
    }
}

/// Has an entity a text in a field?
pub open spec fn says(e: EntityGraphModel, field: Seq<char>, value: Seq<char>) -> bool {
    match strmap::assoc_get(e.properties, field) {
        Some(p) => p.value == JsonModel::Str(value),
        None => false,
    }
}

/// A rewrite puts the text into the field, where there is one, and keeps its name and type.
pub proof fn law_rewrites_put_the_text(
    entities: Seq<EntityGraphModel>,
    at: int,
    field: Seq<char>,
    value: Seq<char>,
)
    requires
        0 <= at < entities.len(),
    ensures
        ({
            let old_one = strmap::assoc_get(entities[at].properties, field);
            let e = resolve::rewritten(entities, at, field, value)[at];
            &&& old_one is Some ==> says(e, field, value) && strmap::assoc_get(
                e.properties,
                field,
            )->0.name == old_one->0.name && strmap::assoc_get(e.properties, field)->0.property_type
                == old_one->0.property_type
            &&& old_one is None ==> e == entities[at]
        }),
{
    let e = entities[at];
    if let Some(p) = strmap::assoc_get(e.properties, field) {
        strmap::law_get_after_insert(
            e.properties,
            field,
            PropertyModel { value: JsonModel::Str(value), ..p },
        );
    }
}

/// A member of a group that is settled either is merged or stays. One that is merged takes the
/// text of its best hit, is counted as merged, and is no representative; one that stays is the
/// newest representative, and the entities are as they were. Which of the two it is follows
/// from the best hit alone: it stays where there is none, or none good enough for review.
#[verifier::rlimit(40)]
pub proof fn law_settled_members_merge_or_stay(
    entities: Seq<EntityGraphModel>,
    places: Seq<usize>,
    state: InBatchStateModel,
    i: int,
    label: Seq<char>,
    field: Seq<char>,
    hits: Seq<HitModel>,
    measures: Seq<Measure>,
    cfg: SoftMergeConfigModel,
)
    requires
        measures.len() == hits.len(),
        0 <= i < places.len(),
        places.len() <= usize::MAX,
        state.collapsed < usize::MAX,
        state.needs_review < usize::MAX,
        places[i] < entities.len(),
        strmap::assoc_get(entities[places[i] as int].properties, field) is Some,
    ensures
        ({
            let s = resolve::settle(entities, places, state, i, label, field, hits, measures, cfg);
            let at = places[i] as int;
            let merged = s.state.collapsed == state.collapsed + 1;
            let e = entities[at];
            let open = decision::gates_are_open(
                resolve::field_text(e, field),
                e.properties,
                hits,
                measures,
                cfg,
            );
            let apart = hits.len() == 0 || embeddings::wide_less(
                hits[0].score,
                cfg.review_threshold,
            );
            &&& merged <==> !apart && open
            &&& merged ==> says(s.entities[at], field, hits[0].canonical)
                && s.state.representatives == state.representatives && s.state.needs_review
                == state.needs_review && s.state.review_candidates == state.review_candidates
            &&& !merged ==> s.entities == entities && s.state.collapsed == state.collapsed
                && s.state.representatives == state.representatives.push(i as usize) && s.error
                is None
            &&& !merged && apart ==> s.state.needs_review == state.needs_review
                && s.state.review_candidates == state.review_candidates
            &&& !merged && !apart ==> s.state.needs_review == state.needs_review + 1
            &&& !merged && !apart && !cfg.emit_review_candidates ==> s.state.review_candidates
                == state.review_candidates
            &&& !merged && !apart && cfg.emit_review_candidates ==> s.state.review_candidates.len()
                == state.review_candidates.len() + 1 && s.state.review_candidates.drop_last()
                == state.review_candidates && s.state.review_candidates.last().entity_index == at
                && s.state.review_candidates.last().label == label
                && s.state.review_candidates.last().field == field
                && s.state.review_candidates.last().source is InBatch
            &&& merged ==> (s.error is None <==> exists|k: int|
                0 <= k < state.representatives.len() && places[(
                #[trigger] state.representatives[k]) as int] == hits[0].id as int)
        }),
{
    let at = places[i] as int;
    let e = entities[at];
    let text = resolve::field_text(e, field);
    decision::law_merges_are_into_the_best(text, e.properties, hits, measures, cfg);
    if hits.len() > 0 {
        law_rewrites_put_the_text(entities, at, field, hits[0].canonical);
    }
    let s = resolve::settle(entities, places, state, i, label, field, hits, measures, cfg);
    if let DecisionModel::NeedsReview { top, runners_up, rejected_by } = decision::decide(
        text,
        e.properties,
        hits,
        measures,
        cfg,
    ) {
        if cfg.emit_review_candidates {
            assert(s.state.review_candidates.drop_last() =~= state.review_candidates);
        }
    }
}

/// An entity that is looked for in the database is counted once: as merged, as put up for
/// review, or as not merged. One that is merged takes the text of its best hit; otherwise the
/// entities are as they were.
#[verifier::rlimit(40)]
pub proof fn law_resolved_entities_are_counted_once(
    r: Resolving,
    at: usize,
    field: Seq<char>,
    hits: Seq<HitModel>,
    measures: Seq<Measure>,
    cfg: SoftMergeConfigModel,
)
    requires
        measures.len() == hits.len(),
        r.error is None,
        at < r.entities.len(),
        strmap::assoc_get(r.entities[at as int].properties, field) is Some,
        r.report.no_merge < usize::MAX,
        r.report.needs_review < usize::MAX,
        r.report.auto_merges < usize::MAX,
    ensures
        ({
            let s = resolve::resolve_one(r, at, field, hits, measures, cfg);
            let e = r.entities[at as int];
            let open = decision::gates_are_open(
                resolve::field_text(e, field),
                e.properties,
                hits,
                measures,
                cfg,
            );
            let apart = hits.len() == 0 || embeddings::wide_less(
                hits[0].score,
                cfg.review_threshold,
            );
            let merged = s.report.auto_merges == r.report.auto_merges + 1;
            let reviewed = s.report.needs_review == r.report.needs_review + 1;
            let left = s.report.no_merge == r.report.no_merge + 1;
            &&& s.error is None
            &&& merged <==> !apart && open
            &&& reviewed <==> !apart && !open
            &&& left <==> apart
            &&& s.report.auto_merges + s.report.needs_review + s.report.no_merge
                == r.report.auto_merges + r.report.needs_review + r.report.no_merge + 1
            &&& s.report.candidates == r.report.candidates
            &&& s.report.in_batch_dedup_collapsed == r.report.in_batch_dedup_collapsed
            &&& merged ==> says(s.entities[at as int], field, hits[0].canonical)
            &&& !merged ==> s.entities == r.entities
            &&& s.report.review_candidates.len() == r.report.review_candidates.len() + (if reviewed
                && cfg.emit_review_candidates {
                1int
            } else {
                0int
            })
            &&& reviewed && cfg.emit_review_candidates ==> s.report.review_candidates.drop_last()
                == r.report.review_candidates && s.report.review_candidates.last().entity_index
                == at && s.report.review_candidates.last().label == e.kind
                && s.report.review_candidates.last().field == field
                && s.report.review_candidates.last().source is Existing
            &&& !(reviewed && cfg.emit_review_candidates) ==> s.report.review_candidates
                == r.report.review_candidates
        }),
{
    let e = r.entities[at as int];
    let text = resolve::field_text(e, field);
    decision::law_merges_are_into_the_best(text, e.properties, hits, measures, cfg);
    if hits.len() > 0 {
        law_rewrites_put_the_text(r.entities, at as int, field, hits[0].canonical);
    }
    let s = resolve::resolve_one(r, at, field, hits, measures, cfg);
    if decision::decide(text, e.properties, hits, measures, cfg) is NeedsReview
        && cfg.emit_review_candidates {
        assert(s.report.review_candidates.drop_last() =~= r.report.review_candidates);
    }
}

/// What came of merging a group within itself is added to the report: the members that are left
/// to the candidates, the records for review to those, the merged members to the merged ones.
/// What is merged with the database is counted elsewhere.
pub proof fn law_group_counts_are_added(
    report: SoftMergeReportModel,
    state: InBatchStateModel,
    left: nat,
)
    requires
        report.candidates + left <= usize::MAX,
        report.needs_review + state.needs_review <= usize::MAX,
        report.in_batch_dedup_collapsed + state.collapsed <= usize::MAX,
    ensures
        ({
            let r = resolve::with_in_batch(report, state, left);
            &&& r.candidates - report.candidates == left
            &&& r.needs_review - report.needs_review == state.needs_review
            &&& r.in_batch_dedup_collapsed - report.in_batch_dedup_collapsed == state.collapsed
            &&& r.review_candidates == report.review_candidates + state.review_candidates
            &&& r.auto_merges == report.auto_merges
            &&& r.no_merge == report.no_merge
        }),
{
}

/// The members that stay are those that were chosen, in their order.
pub proof fn law_kept_members_are_the_chosen(
    group: Seq<EmbeddedCandidateModel>,
    chosen: Seq<usize>,
    m: EmbeddedCandidateModel,
)
    requires
        forall|k: int| 0 <= k < chosen.len() ==> (#[trigger] chosen[k]) < group.len(),
    ensures
        resolve::kept(group, chosen).len() == chosen.len(),
        resolve::kept(group, chosen).contains(m) <==> exists|k: int|
            0 <= k < chosen.len() && group[(#[trigger] chosen[k]) as int] == m,
{
    let kept = resolve::kept(group, chosen);
    if kept.contains(m) {
        let k = choose|k: int| 0 <= k < kept.len() && kept[k] == m;
        assert(group[chosen[k] as int] == m);
    }
    if exists|k: int| 0 <= k < chosen.len() && group[(#[trigger] chosen[k]) as int] == m {
        let k = choose|k: int| 0 <= k < chosen.len() && group[(#[trigger] chosen[k]) as int] == m;
        assert(kept[k] == m);
    }
}

} // verus!
