//! Deciding whether an entity is merged with a similar one.
//!
//! A false split can be mended later, a false merge cannot. So every gate is
//! tried, and a merge that one of them stops is put up for review with all the
//! reasons.

use vstd::prelude::*;
use crate::embeddings;
use crate::graph::schema::Property;
use crate::graph::schema::PropertyModel;
use crate::ingest::soft_merge::lexical;
use crate::ingest::soft_merge::query::Hit;
use crate::ingest::soft_merge::query::HitModel;
use crate::json;
use crate::json::Float;
use crate::json::FloatModel;
use crate::json::Json;
use crate::json::JsonModel;
use crate::seqs;
use crate::strmap;
use crate::strmap::StrMap;
use crate::text;

verus! {

broadcast use vstd::string::group_string_axioms;

/// What a merge takes. Numbers are the bits of floats, but for the threshold that is
/// sent with the search.
#[derive(Debug, PartialEq)]
pub struct SoftMergeConfig {
    /// How many similar nodes are looked at.
    pub top_k: u32,
    /// Below this score a node is not looked at.
    pub similarity_threshold: Float,
    /// Below this score a node is another one.
    pub review_threshold: u64,
    /// From this score on entities are merged.
    pub auto_merge_threshold: u64,
    /// How far the best must be ahead of the second.
    pub min_margin: u64,
    /// How similar the names must be.
    pub min_lexical_similarity: u64,
    /// How near the best a node is close.
    pub close_candidate_delta: u64,
    /// How many close nodes are allowed.
    pub max_close_candidates: usize,
    /// Properties that must not differ.
    pub conflict_properties: Vec<String>,
    /// Merge entities of which only the type is known.
    pub allow_type_only_auto_merge: bool,
    /// How many nodes a review shows.
    pub review_max_candidates: usize,
    /// Keep records for review.
    pub emit_review_candidates: bool,
}

pub struct SoftMergeConfigModel {
    pub top_k: u32,
    pub similarity_threshold: FloatModel,
    pub review_threshold: u64,
    pub auto_merge_threshold: u64,
    pub min_margin: u64,
    pub min_lexical_similarity: u64,
    pub close_candidate_delta: u64,
    pub max_close_candidates: usize,
    pub conflict_properties: Seq<Seq<char>>,
    pub allow_type_only_auto_merge: bool,
    pub review_max_candidates: usize,
    pub emit_review_candidates: bool,
}

impl DeepView for SoftMergeConfig {
    type V = SoftMergeConfigModel;

    open spec fn deep_view(&self) -> SoftMergeConfigModel {
        SoftMergeConfigModel {
            top_k: self.top_k,
            similarity_threshold: self.similarity_threshold.deep_view(),
            review_threshold: self.review_threshold,
            auto_merge_threshold: self.auto_merge_threshold,
            min_margin: self.min_margin,
            min_lexical_similarity: self.min_lexical_similarity,
            close_candidate_delta: self.close_candidate_delta,
            max_close_candidates: self.max_close_candidates,
            conflict_properties: self.conflict_properties.deep_view(),
            allow_type_only_auto_merge: self.allow_type_only_auto_merge,
            review_max_candidates: self.review_max_candidates,
            emit_review_candidates: self.emit_review_candidates,
        }
    }
}

/// What floating-point arithmetic says of a hit: how far its score is behind the
/// best, and how similar the names are.
#[derive(Debug, Clone, Copy, PartialEq, Eq, Structural)]
pub struct Measure {
    pub gap: u64,
    pub lexical: u64,
}

impl DeepView for Measure {
    type V = Measure;

    open spec fn deep_view(&self) -> Measure {
        *self
    }
}

/// A similar node as a review shows it.
#[derive(Debug, PartialEq)]
pub struct ReviewHit {
    pub hit_id: i64,
    pub score: u64,
    pub canonical: String,
    pub lexical: u64,
}

pub struct ReviewHitModel {
    pub hit_id: i64,
    pub score: u64,
    pub canonical: Seq<char>,
    pub lexical: u64,
}

impl DeepView for ReviewHit {
    type V = ReviewHitModel;

    open spec fn deep_view(&self) -> ReviewHitModel {
        ReviewHitModel {
            hit_id: self.hit_id,
            score: self.score,
            canonical: self.canonical@,
            lexical: self.lexical,
        }
    }
}

/// Why a merge was stopped, with the numbers that stopped it.
#[derive(Debug, PartialEq)]
pub enum GateReason {
    BelowAutoMergeThreshold { top: u64, required: u64 },
    InsufficientMargin { margin: u64, required: u64 },
    InsufficientLexical { lexical: u64, required: u64 },
    TooManyCloseCandidates { count: usize, allowed: usize },
    HardConflict { property: String, incoming: String, candidate: String },
    TypeOnly,
}

pub enum GateReasonModel {
    BelowAutoMergeThreshold { top: u64, required: u64 },
    InsufficientMargin { margin: u64, required: u64 },
    InsufficientLexical { lexical: u64, required: u64 },
    TooManyCloseCandidates { count: usize, allowed: usize },
    HardConflict { property: Seq<char>, incoming: Seq<char>, candidate: Seq<char> },
    TypeOnly,
}

impl DeepView for GateReason {
    type V = GateReasonModel;

    open spec fn deep_view(&self) -> GateReasonModel {
        match self {
            GateReason::BelowAutoMergeThreshold { top, required } => GateReasonModel::BelowAutoMergeThreshold {
                top: *top,
                required: *required,
            },
            GateReason::InsufficientMargin { margin, required } => GateReasonModel::InsufficientMargin {
                margin: *margin,
                required: *required,
            },
            GateReason::InsufficientLexical { lexical, required } => GateReasonModel::InsufficientLexical {
                lexical: *lexical,
                required: *required,
            },
            GateReason::TooManyCloseCandidates { count, allowed } => GateReasonModel::TooManyCloseCandidates {
                count: *count,
                allowed: *allowed,
            },
            GateReason::HardConflict { property, incoming, candidate } => GateReasonModel::HardConflict {
                property: property@,
                incoming: incoming@,
                candidate: candidate@,
            },
            GateReason::TypeOnly => GateReasonModel::TypeOnly,
        }
    }
}

/// What becomes of an entity.
#[derive(Debug, PartialEq)]
pub enum Decision {
    AutoMerge { canonical: String, hit_id: i64, top_score: u64 },
    NeedsReview { top: ReviewHit, runners_up: Vec<ReviewHit>, rejected_by: Vec<GateReason> },
    NoMerge,
}

pub enum DecisionModel {
    AutoMerge { canonical: Seq<char>, hit_id: i64, top_score: u64 },
    NeedsReview {
        top: ReviewHitModel,
        runners_up: Seq<ReviewHitModel>,
        rejected_by: Seq<GateReasonModel>,
    },
    NoMerge,
}

impl DeepView for Decision {
    type V = DecisionModel;

    open spec fn deep_view(&self) -> DecisionModel {
        match self {
            Decision::AutoMerge { canonical, hit_id, top_score } => DecisionModel::AutoMerge {
                canonical: canonical@,
                hit_id: *hit_id,
                top_score: *top_score,
            },
            Decision::NeedsReview { top, runners_up, rejected_by } => DecisionModel::NeedsReview {
                top: top.deep_view(),
                runners_up: runners_up.deep_view(),
                rejected_by: rejected_by.deep_view(),
            },
            Decision::NoMerge => DecisionModel::NoMerge,
        }
    }
}

pub type PropsModel = Seq<(Seq<char>, PropertyModel)>;

/// A value as it is compared; null is not.
pub open spec fn compared_text(v: JsonModel) -> Option<Seq<char>> {
    match v {
        JsonModel::Null => None,
        JsonModel::Str(s) => Some(s),
        other => Some(json::json_text(other)),
    }
}

fn compare_text(v: &Json) -> (r: Option<String>)
    ensures
        r.deep_view() == compared_text(v.deep_view()),
{
    match v {
        Json::Null => None,
        Json::Str(s) => Some(s.clone()),
        other => Some(json::render_json(other)),
    }
}

/// The value of a property of the entity, as it is compared.
pub open spec fn incoming_text(props: PropsModel, key: Seq<char>) -> Option<Seq<char>> {
    match strmap::assoc_get(props, key) {
        Some(p) => compared_text(p.value),
        None => None,
    }
}

/// The value of a property of the node, as it is compared.
pub open spec fn candidate_text(props: Seq<(Seq<char>, JsonModel)>, key: Seq<char>) -> Option<
    Seq<char>,
> {
    match strmap::assoc_get(props, key) {
        Some(v) => compared_text(v),
        None => None,
    }
}

/// Do entity and node both have the property, with values that differ?
pub open spec fn conflicts(
    incoming: PropsModel,
    candidate: Seq<(Seq<char>, JsonModel)>,
) -> spec_fn(Seq<char>) -> bool {
    |key: Seq<char>|
        {
            let a = incoming_text(incoming, key);
            let b = candidate_text(candidate, key);
            a is Some && b is Some && a->0.len() > 0 && b->0.len() > 0 && a->0 != b->0
        }
}

/// The first property on which entity and node conflict.
pub open spec fn conflict_of(
    incoming: PropsModel,
    candidate: Seq<(Seq<char>, JsonModel)>,
    keys: Seq<Seq<char>>,
) -> Option<GateReasonModel> {
    match seqs::first_where(keys, conflicts(incoming, candidate)) {
        Some(key) => Some(
            GateReasonModel::HardConflict {
                property: key,
                incoming: incoming_text(incoming, key)->0,
                candidate: candidate_text(candidate, key)->0,
            },
        ),
        None => None,
    }
}

/// The first property on which entity and node conflict.
pub fn detect_hard_conflict(
    incoming: &StrMap<Property>,
    candidate: &StrMap<Json>,
    keys: &Vec<String>,
) -> (r: Option<GateReason>)
    ensures
        r.deep_view() == conflict_of(
            incoming.deep_view(),
            candidate.deep_view(),
            keys.deep_view(),
        ),
{
    let ghost all = keys.deep_view();
    let ghost p = conflicts(incoming.deep_view(), candidate.deep_view());
    let mut i: usize = 0;
    while i < keys.len()
        invariant
            all == keys.deep_view(),
            p == conflicts(incoming.deep_view(), candidate.deep_view()),
            0 <= i <= keys@.len(),
            forall|k: int| 0 <= k < i ==> !p(#[trigger] all[k]),
        decreases keys@.len() - i,
    {
        let key = keys[i].as_str();
        assert(all[i as int] == key@);
        let a = match incoming.get(key) {
            Some(prop) => compare_text(&prop.value),
            None => None,
        };
        let b = match candidate.get(key) {
            Some(v) => compare_text(v),
            None => None,
        };
        if let (Some(a), Some(b)) = (a, b) {
            if !text::is_empty_text(a.as_str()) && !text::is_empty_text(b.as_str())
                && !text::text_eq(a.as_str(), b.as_str()) {
                proof {
                    seqs::first_where_at(all, p, i as int);
                }
                return Some(
                    GateReason::HardConflict {
                        property: keys[i].clone(),
                        incoming: a,
                        candidate: b,
                    },
                );
            }
        }
        i += 1;
    }
    proof {
        seqs::first_where_none(all, p);
    }
    None
}

/// How many hits from a place on are close to the best, up to the first that is
/// not.
pub open spec fn close_from(measures: Seq<Measure>, delta: u64, from: int) -> nat
    decreases measures.len() - from,
{
    if from < 0 || from >= measures.len() || !embeddings::wide_at_least(
        delta,
        measures[from].gap,
    ) {
        0
    } else {
        1 + close_from(measures, delta, from + 1)
    }
}

fn count_close(measures: &Vec<Measure>, delta: u64) -> (r: usize)
    ensures
        r == close_from(measures@, delta, 1),
{
    let mut n: usize = 0;
    let mut i: usize = 1;
    while i < measures.len() && embeddings::double_at_least(delta, measures[i].gap)
        invariant
            1 <= i,
            n == i - 1,
            i <= measures@.len() || n == 0,
            close_from(measures@, delta, 1) == n + close_from(measures@, delta, i as int),
        decreases measures@.len() - i,
    {
        n += 1;
        i += 1;
    }
    n
}

/// One reason, where there is one.
pub open spec fn gate(stopped: bool, reason: GateReasonModel) -> Seq<GateReasonModel> {
    if stopped {
        seq![reason]
    } else {
        Seq::empty()
    }
}

fn stop(reasons: &mut Vec<GateReason>, stopped: bool, reason: GateReason)
    ensures
        final(reasons).deep_view() == old(reasons).deep_view() + gate(stopped, reason.deep_view()),
{
    let ghost before = reasons.deep_view();
    let ghost why = reason.deep_view();
    if stopped {
        seqs::push_item(reasons, reason);
    }
    assert(reasons.deep_view() =~= before + gate(stopped, why));
}

/// Every reason that stops the merge of an entity with the best of its hits.
pub open spec fn reasons_of(
    text: Seq<char>,
    props: PropsModel,
    hits: Seq<HitModel>,
    measures: Seq<Measure>,
    cfg: SoftMergeConfigModel,
) -> Seq<GateReasonModel> {
    let top = hits[0];
    let close = close_from(measures, cfg.close_candidate_delta, 1);
    gate(
        embeddings::wide_less(top.score, cfg.auto_merge_threshold),
        GateReasonModel::BelowAutoMergeThreshold {
            top: top.score,
            required: cfg.auto_merge_threshold,
        },
    ) + gate(
        hits.len() >= 2 && embeddings::wide_less(measures[1].gap, cfg.min_margin),
        GateReasonModel::InsufficientMargin {
            margin: measures[1].gap,
            required: cfg.min_margin,
        },
    ) + gate(
        embeddings::wide_less(measures[0].lexical, cfg.min_lexical_similarity),
        GateReasonModel::InsufficientLexical {
            lexical: measures[0].lexical,
            required: cfg.min_lexical_similarity,
        },
    ) + gate(
        close > cfg.max_close_candidates,
        GateReasonModel::TooManyCloseCandidates {
            count: close as usize,
            allowed: cfg.max_close_candidates,
        },
    ) + (match conflict_of(props, top.props, cfg.conflict_properties) {
        Some(reason) => seq![reason],
        None => Seq::empty(),
    }) + gate(
        !cfg.allow_type_only_auto_merge && lexical::says_type_only(text),
        GateReasonModel::TypeOnly,
    )
}

/// A hit as a review shows it.
pub open spec fn review_hit(hit: HitModel, measure: Measure) -> ReviewHitModel {
    ReviewHitModel {
        hit_id: hit.id,
        score: hit.score,
        canonical: hit.canonical,
        lexical: measure.lexical,
    }
}

fn show_hit(hit: &Hit, measure: Measure) -> (r: ReviewHit)
    ensures
        r.deep_view() == review_hit(hit.deep_view(), measure),
{
    ReviewHit {
        hit_id: hit.id,
        score: hit.score,
        canonical: hit.canonical.clone(),
        lexical: measure.lexical,
    }
}

/// How many hits stand beside the best in a review.
pub open spec fn shown_beside(hits: nat, cap: nat) -> nat {
    let rest = if hits == 0 {
        0
    } else {
        (hits - 1) as nat
    };
    let room = if cap == 0 {
        0
    } else {
        (cap - 1) as nat
    };
    if rest < room {
        rest
    } else {
        room
    }
}

/// What becomes of an entity with a canonical text and properties, by its hits,
/// best first.
pub open spec fn decide(
    text: Seq<char>,
    props: PropsModel,
    hits: Seq<HitModel>,
    measures: Seq<Measure>,
    cfg: SoftMergeConfigModel,
) -> DecisionModel {
    if hits.len() == 0 || embeddings::wide_less(hits[0].score, cfg.review_threshold) {
        DecisionModel::NoMerge
    } else {
        let reasons = reasons_of(text, props, hits, measures, cfg);
        if reasons.len() == 0 {
            DecisionModel::AutoMerge {
                canonical: hits[0].canonical,
                hit_id: hits[0].id,
                top_score: hits[0].score,
            }
        } else {
            DecisionModel::NeedsReview {
                top: review_hit(hits[0], measures[0]),
                runners_up: Seq::new(
                    shown_beside(hits.len(), cfg.review_max_candidates as nat),
                    |i: int| review_hit(hits[i + 1], measures[i + 1]),
                ),
                rejected_by: reasons,
            }
        }
    }
}

/// An entity is merged only where the score is high enough, the best is far enough
/// ahead, the names are similar, few others are close, nothing conflicts, and more
/// than the type is known.
pub proof fn law_merge_passes_every_gate(
    text: Seq<char>,
    props: PropsModel,
    hits: Seq<HitModel>,
    measures: Seq<Measure>,
    cfg: SoftMergeConfigModel,
)
    ensures
        decide(text, props, hits, measures, cfg) is AutoMerge ==> {
            &&& hits.len() > 0
            &&& !embeddings::wide_less(hits[0].score, cfg.review_threshold)
            &&& !embeddings::wide_less(hits[0].score, cfg.auto_merge_threshold)
            &&& hits.len() >= 2 ==> !embeddings::wide_less(measures[1].gap, cfg.min_margin)
            &&& !embeddings::wide_less(measures[0].lexical, cfg.min_lexical_similarity)
            &&& close_from(measures, cfg.close_candidate_delta, 1) <= cfg.max_close_candidates
            &&& conflict_of(props, hits[0].props, cfg.conflict_properties) is None
            &&& cfg.allow_type_only_auto_merge || !lexical::says_type_only(text)
        },
{
}

/// A review names at least one reason, and shows no more nodes than it may.
pub proof fn law_reviews_have_reasons(
    text: Seq<char>,
    props: PropsModel,
    hits: Seq<HitModel>,
    measures: Seq<Measure>,
    cfg: SoftMergeConfigModel,
)
    ensures
        match decide(text, props, hits, measures, cfg) {
            DecisionModel::NeedsReview { top, runners_up, rejected_by } => rejected_by.len() > 0
                && top.hit_id == hits[0].id && (cfg.review_max_candidates > 0 ==> runners_up.len()
                + 1 <= cfg.review_max_candidates) && runners_up.len() < hits.len(),
            _ => true,
        },
{
}

/// Without hits nothing is merged, and nothing reviewed.
pub proof fn law_no_hits_no_merge(
    text: Seq<char>,
    props: PropsModel,
    measures: Seq<Measure>,
    cfg: SoftMergeConfigModel,
)
    ensures
        decide(text, props, Seq::empty(), measures, cfg) is NoMerge,
{
}

/// What becomes of an entity, by its hits, best first.
pub fn classify(
    text: &str,
    props: &StrMap<Property>,
    hits: &Vec<Hit>,
    measures: &Vec<Measure>,
    cfg: &SoftMergeConfig,
) -> (r: Decision)
    requires
        measures@.len() == hits@.len(),
    ensures
        r.deep_view() == decide(
            text@,
            props.deep_view(),
            hits.deep_view(),
            measures@,
            cfg.deep_view(),
        ),
{
    let ghost all = hits.deep_view();
    assert(all.len() == hits@.len());
    if hits.len() == 0 {
        return Decision::NoMerge;
    }
    let top = &hits[0];
    assert(all[0] == top.deep_view());
    if embeddings::double_less(top.score, cfg.review_threshold) {
        return Decision::NoMerge;
    }
    let mut reasons: Vec<GateReason> = seqs::no_items();
    let below = embeddings::double_less(top.score, cfg.auto_merge_threshold);
    stop(
        &mut reasons,
        below,
        GateReason::BelowAutoMergeThreshold {
            top: top.score,
            required: cfg.auto_merge_threshold,
        },
    );
    if hits.len() >= 2 {
        let margin = measures[1].gap;
        let narrow = embeddings::double_less(margin, cfg.min_margin);
        stop(
            &mut reasons,
            narrow,
            GateReason::InsufficientMargin { margin, required: cfg.min_margin },
        );
    }
    let likeness = measures[0].lexical;
    let unlike = embeddings::double_less(likeness, cfg.min_lexical_similarity);
    stop(
        &mut reasons,
        unlike,
        GateReason::InsufficientLexical {
            lexical: likeness,
            required: cfg.min_lexical_similarity,
        },
    );
    let close = count_close(measures, cfg.close_candidate_delta);
    stop(
        &mut reasons,
        close > cfg.max_close_candidates,
        GateReason::TooManyCloseCandidates { count: close, allowed: cfg.max_close_candidates },
    );
    let ghost before = reasons.deep_view();
    if let Some(reason) = detect_hard_conflict(props, &top.props, &cfg.conflict_properties) {
        let ghost why = reason.deep_view();
        seqs::push_item(&mut reasons, reason);
        assert(reasons.deep_view() =~= before + seq![why]);
    } else {
        assert(before + Seq::<GateReasonModel>::empty() =~= before);
    }
    let bare = !cfg.allow_type_only_auto_merge && lexical::is_type_only(text);
    stop(&mut reasons, bare, GateReason::TypeOnly);
    proof {
        assert(reasons.deep_view() =~= reasons_of(
            text@,
            props.deep_view(),
            all,
            measures@,
            cfg.deep_view(),
        ));
        assert(reasons.deep_view().len() == reasons@.len());
    }
    if reasons.len() == 0 {
        return Decision::AutoMerge {
            canonical: top.canonical.clone(),
            hit_id: top.id,
            top_score: top.score,
        };
    }
    let ghost beside = shown_beside(all.len(), cfg.review_max_candidates as nat);
    let ghost want = Seq::new(beside, |i: int| review_hit(all[i + 1], measures@[i + 1]));
    let mut runners_up: Vec<ReviewHit> = seqs::no_items();
    let mut i: usize = 1;
    while i < hits.len() && i < cfg.review_max_candidates
        invariant
            all == hits.deep_view(),
            measures@.len() == hits@.len(),
            1 <= i <= hits@.len(),
            beside == shown_beside(all.len(), cfg.review_max_candidates as nat),
            want == Seq::new(beside, |i: int| review_hit(all[i + 1], measures@[i + 1])),
            i - 1 <= beside,
            runners_up.deep_view() == want.take(i - 1),
        decreases hits@.len() - i,
    {
        assert(all[i as int] == hits@[i as int].deep_view());
        seqs::push_item(&mut runners_up, show_hit(&hits[i], measures[i]));
        i += 1;
        assert(runners_up.deep_view() =~= want.take(i - 1));
    }
    assert(runners_up.deep_view() =~= want);
    Decision::NeedsReview {
        top: show_hit(top, measures[0]),
        runners_up,
        rejected_by: reasons,
    }
}

/// The name in a canonical text, as a review shows it.
pub fn incoming_name(canonical: &str) -> (r: String)
    ensures
        r@ == lexical::name_in(canonical@),
{
    lexical::primary_name_of(canonical)
}

/// Do two values say different things? Null and the empty text say nothing.
pub open spec fn values_differ(a: JsonModel, b: JsonModel) -> bool {
    let x = if a is Str {
        a->Str_0
    } else {
        json::json_text(a)
    };
    let y = if b is Str {
        b->Str_0
    } else {
        json::json_text(b)
    };
    a !is Null && b !is Null && x.len() > 0 && y.len() > 0 && x != y
}

/// Have entity and node both a value under a key, and do the two say different things?
pub open spec fn keys_conflict(
    props: PropsModel,
    known: Seq<(Seq<char>, JsonModel)>,
    key: Seq<char>,
) -> bool {
    strmap::assoc_get(props, key) is Some && strmap::assoc_get(known, key) is Some && values_differ(
        strmap::assoc_get(props, key)->0.value,
        strmap::assoc_get(known, key)->0,
    )
}

/// Are the `n` hits behind the best one all close to it?
pub open spec fn runners_are_close(measures: Seq<Measure>, delta: u64, n: int) -> bool {
    n < measures.len() && forall|i: int|
        1 <= i <= n ==> embeddings::wide_at_least(delta, (#[trigger] measures[i]).gap)
}

/// Does every gate let an entity through to the best of its hits?
pub open spec fn gates_are_open(
    text: Seq<char>,
    props: PropsModel,
    hits: Seq<HitModel>,
    measures: Seq<Measure>,
    cfg: SoftMergeConfigModel,
) -> bool {
    &&& !embeddings::wide_less(hits[0].score, cfg.auto_merge_threshold)
    &&& hits.len() >= 2 ==> !embeddings::wide_less(measures[1].gap, cfg.min_margin)
    &&& !embeddings::wide_less(measures[0].lexical, cfg.min_lexical_similarity)
    &&& !runners_are_close(
        measures,
        cfg.close_candidate_delta,
        cfg.max_close_candidates as int + 1,
    )
    &&& forall|k: int|
        0 <= k < cfg.conflict_properties.len() ==> !keys_conflict(
            props,
            hits[0].props,
            #[trigger] cfg.conflict_properties[k],
        )
    &&& cfg.allow_type_only_auto_merge || !lexical::says_type_only(text)
}

/// Does a reason against a merge hold of an entity and the best of its hits?
pub open spec fn reason_holds(
    reason: GateReasonModel,
    text: Seq<char>,
    props: PropsModel,
    hits: Seq<HitModel>,
    measures: Seq<Measure>,
    cfg: SoftMergeConfigModel,
) -> bool {
    match reason {
        GateReasonModel::BelowAutoMergeThreshold { top, required } => top == hits[0].score
            && required == cfg.auto_merge_threshold && embeddings::wide_less(top, required),
        GateReasonModel::InsufficientMargin { margin, required } => hits.len() >= 2 && margin
            == measures[1].gap && required == cfg.min_margin && embeddings::wide_less(
            margin,
            required,
        ),
        GateReasonModel::InsufficientLexical { lexical, required } => lexical
            == measures[0].lexical && required == cfg.min_lexical_similarity
            && embeddings::wide_less(lexical, required),
        GateReasonModel::TooManyCloseCandidates { count, allowed } => allowed
            == cfg.max_close_candidates && count > allowed && runners_are_close(
            measures,
            cfg.close_candidate_delta,
            count as int,
        ) && !runners_are_close(measures, cfg.close_candidate_delta, count + 1),
        GateReasonModel::HardConflict { property, incoming: _, candidate: _ } =>
            cfg.conflict_properties.contains(property) && keys_conflict(
            props,
            hits[0].props,
            property,
        ),
        GateReasonModel::TypeOnly => !cfg.allow_type_only_auto_merge && lexical::says_type_only(
            text,
        ),
    }
}

/// Is a hit shown in a review as it is?
pub open spec fn shows(shown: ReviewHitModel, hit: HitModel, measure: Measure) -> bool {
    shown.hit_id == hit.id && shown.score == hit.score && shown.canonical == hit.canonical
        && shown.lexical == measure.lexical
}

proof fn close_run(measures: Seq<Measure>, delta: u64, from: int, n: int)
    requires
        0 <= from <= measures.len(),
        n >= 0,
    ensures
        close_from(measures, delta, from) >= n <==> (from + n <= measures.len() && forall|i: int|
            from <= i < from + n ==> embeddings::wide_at_least(delta, (#[trigger] measures[i]).gap)),
        close_from(measures, delta, from) + from <= measures.len(),
    decreases measures.len() - from,
{
    if from < measures.len() {
        close_run(measures, delta, from + 1, if n > 0 {
            n - 1
        } else {
            0
        });
        if embeddings::wide_at_least(delta, measures[from].gap) {
        } else if n > 0 {
            assert(!embeddings::wide_at_least(delta, measures[from].gap));
        }
    }
}

proof fn conflict_is_found(props: PropsModel, known: Seq<(Seq<char>, JsonModel)>, keys: Seq<Seq<char>>)
    ensures
        match conflict_of(props, known, keys) {
            Some(reason) => reason is HardConflict && keys.contains(
                reason->HardConflict_property,
            ) && keys_conflict(props, known, reason->HardConflict_property),
            None => forall|k: int|
                0 <= k < keys.len() ==> !keys_conflict(props, known, #[trigger] keys[k]),
        },
{
    let p = conflicts(props, known);
    assert forall|key: Seq<char>| p(key) == #[trigger] keys_conflict(props, known, key) by {}
    match seqs::first_where(keys, p) {
        Some(key) => {
            let i = seqs::first_where_holds(keys, p);
            assert(keys[i] == key);
        },
        None => {
            assert forall|k: int| 0 <= k < keys.len() implies !keys_conflict(
                props,
                known,
                #[trigger] keys[k],
            ) by {
                if p(keys[k]) {
                    first_is_found(keys, p, k);
                }
            }
        },
    }
}

proof fn first_is_found(keys: Seq<Seq<char>>, p: spec_fn(Seq<char>) -> bool, i: int)
    requires
        0 <= i < keys.len(),
        p(keys[i]),
    ensures
        seqs::first_where(keys, p) is Some,
    decreases keys.len(),
{
    if !p(keys[0]) {
        assert(keys.drop_first()[i - 1] == keys[i]);
        first_is_found(keys.drop_first(), p, i - 1);
    }
}

/// The entity is merged exactly when there is a hit that is good enough for review and
/// every gate is open, and then into the best hit, which is the first: the merge takes that
/// hit's text, id and score, and no other's. It stays apart exactly when there is no hit,
/// or the best is not good enough for review. In between it is put up for review.
#[verifier::spinoff_prover]
#[verifier::rlimit(60)]
pub proof fn law_merges_are_into_the_best(
    text: Seq<char>,
    props: PropsModel,
    hits: Seq<HitModel>,
    measures: Seq<Measure>,
    cfg: SoftMergeConfigModel,
)
    requires
        measures.len() == hits.len(),
    ensures
        ({
            let d = decide(text, props, hits, measures, cfg);
            let apart = hits.len() == 0 || embeddings::wide_less(
                hits[0].score,
                cfg.review_threshold,
            );
            let open = gates_are_open(text, props, hits, measures, cfg);
            &&& d is NoMerge <==> apart
            &&& d is AutoMerge <==> !apart && open
            &&& d is NeedsReview <==> !apart && !open
            &&& match d {
                DecisionModel::AutoMerge { canonical, hit_id, top_score } => canonical
                    == hits[0].canonical && hit_id == hits[0].id && top_score == hits[0].score,
                _ => true,
            }
        }),
{
    if hits.len() > 0 {
        close_run(measures, cfg.close_candidate_delta, 1, cfg.max_close_candidates as int + 1);
        conflict_is_found(props, hits[0].props, cfg.conflict_properties);
    }
}

/// Where the hits come best first, the one that an entity is merged into, or that its
/// review shows at the top, has the highest score of all.
pub proof fn law_best_hit_has_the_highest_score(
    text: Seq<char>,
    props: PropsModel,
    hits: Seq<HitModel>,
    measures: Seq<Measure>,
    cfg: SoftMergeConfigModel,
    k: int,
)
    requires
        measures.len() == hits.len(),
        0 <= k < hits.len(),
        forall|i: int, j: int|
            0 <= i < j < hits.len() ==> !embeddings::wide_less(
                (#[trigger] hits[i]).score,
                (#[trigger] hits[j]).score,
            ),
    ensures
        match decide(text, props, hits, measures, cfg) {
            DecisionModel::AutoMerge { canonical: _, hit_id: _, top_score } =>
                !embeddings::wide_less(top_score, hits[k].score),
            DecisionModel::NeedsReview { top, runners_up: _, rejected_by: _ } =>
                !embeddings::wide_less(top.score, hits[k].score),
            DecisionModel::NoMerge => true,
        },
{
    if k > 0 {
        assert(!embeddings::wide_less(hits[0].score, hits[k].score));
    }
}

/// Is every reason of a list one that holds, and every gate that is closed among them?
pub open spec fn reasons_are_right(
    rejected_by: Seq<GateReasonModel>,
    text: Seq<char>,
    props: PropsModel,
    hits: Seq<HitModel>,
    measures: Seq<Measure>,
    cfg: SoftMergeConfigModel,
) -> bool {
    &&& forall|i: int|
        0 <= i < rejected_by.len() ==> reason_holds(
            #[trigger] rejected_by[i],
            text,
            props,
            hits,
            measures,
            cfg,
        )
    &&& embeddings::wide_less(hits[0].score, cfg.auto_merge_threshold) ==> exists|i: int|
        0 <= i < rejected_by.len() && (#[trigger] rejected_by[i]) is BelowAutoMergeThreshold
    &&& hits.len() >= 2 && embeddings::wide_less(measures[1].gap, cfg.min_margin)
        ==> exists|i: int|
        0 <= i < rejected_by.len() && (#[trigger] rejected_by[i]) is InsufficientMargin
    &&& embeddings::wide_less(measures[0].lexical, cfg.min_lexical_similarity)
        ==> exists|i: int|
        0 <= i < rejected_by.len() && (#[trigger] rejected_by[i]) is InsufficientLexical
    &&& runners_are_close(
        measures,
        cfg.close_candidate_delta,
        cfg.max_close_candidates as int + 1,
    ) ==> exists|i: int|
        0 <= i < rejected_by.len() && (#[trigger] rejected_by[i]) is TooManyCloseCandidates
    &&& (exists|k: int|
        0 <= k < cfg.conflict_properties.len() && keys_conflict(
            props,
            hits[0].props,
            #[trigger] cfg.conflict_properties[k],
        )) ==> exists|i: int|
        0 <= i < rejected_by.len() && (#[trigger] rejected_by[i]) is HardConflict
    &&& !cfg.allow_type_only_auto_merge && lexical::says_type_only(text)
        ==> exists|i: int|
        0 <= i < rejected_by.len() && (#[trigger] rejected_by[i]) is TypeOnly
    &&& rejected_by.len() <= 6
}

#[verifier::rlimit(60)]
proof fn reasons_hold(
    text: Seq<char>,
    props: PropsModel,
    hits: Seq<HitModel>,
    measures: Seq<Measure>,
    cfg: SoftMergeConfigModel,
)
    requires
        measures.len() == hits.len(),
        0 < hits.len() <= usize::MAX,
    ensures
        reasons_are_right(
            reasons_of(text, props, hits, measures, cfg),
            text,
            props,
            hits,
            measures,
            cfg,
        ),
{
    let rejected_by = reasons_of(text, props, hits, measures, cfg);
    let delta = cfg.close_candidate_delta;
    let close = close_from(measures, delta, 1);
    close_run(measures, delta, 1, cfg.max_close_candidates as int + 1);
    close_run(measures, delta, 1, close as int);
    close_run(measures, delta, 1, close as int + 1);
    conflict_is_found(props, hits[0].props, cfg.conflict_properties);
    let g1 = gate(
        embeddings::wide_less(hits[0].score, cfg.auto_merge_threshold),
        GateReasonModel::BelowAutoMergeThreshold {
            top: hits[0].score,
            required: cfg.auto_merge_threshold,
        },
    );
    let g2 = gate(
        hits.len() >= 2 && embeddings::wide_less(measures[1].gap, cfg.min_margin),
        GateReasonModel::InsufficientMargin {
            margin: measures[1].gap,
            required: cfg.min_margin,
        },
    );
    let g3 = gate(
        embeddings::wide_less(measures[0].lexical, cfg.min_lexical_similarity),
        GateReasonModel::InsufficientLexical {
            lexical: measures[0].lexical,
            required: cfg.min_lexical_similarity,
        },
    );
    let g4 = gate(
        close > cfg.max_close_candidates,
        GateReasonModel::TooManyCloseCandidates {
            count: close as usize,
            allowed: cfg.max_close_candidates,
        },
    );
    let g5 = match conflict_of(props, hits[0].props, cfg.conflict_properties) {
        Some(reason) => seq![reason],
        None => Seq::empty(),
    };
    let g6 = gate(
        !cfg.allow_type_only_auto_merge && lexical::says_type_only(text),
        GateReasonModel::TypeOnly,
    );
    assert(rejected_by == g1 + g2 + g3 + g4 + g5 + g6);
    let (n1, n2, n3, n4, n5) = (
        g1.len() as int,
        g1.len() + g2.len(),
        g1.len() + g2.len() + g3.len(),
        g1.len() + g2.len() + g3.len() + g4.len(),
        g1.len() + g2.len() + g3.len() + g4.len() + g5.len(),
    );
    if g1.len() > 0 {
        assert(rejected_by[0] == g1[0]);
    }
    if g2.len() > 0 {
        assert(rejected_by[n1] == g2[0]);
    }
    if g3.len() > 0 {
        assert(rejected_by[n2 as int] == g3[0]);
    }
    if g4.len() > 0 {
        assert(rejected_by[n3 as int] == g4[0]);
    }
    if g5.len() > 0 {
        assert(rejected_by[n4 as int] == g5[0]);
    }
    if g6.len() > 0 {
        assert(rejected_by[n5 as int] == g6[0]);
    }
    assert forall|i: int| 0 <= i < rejected_by.len() implies reason_holds(
        #[trigger] rejected_by[i],
        text,
        props,
        hits,
        measures,
        cfg,
    ) by {
        if i < n1 {
        } else if i < n2 {
        } else if i < n3 {
        } else if i < n4 {
        } else if i < n5 {
        }
    }
}

/// A review shows the best hit, then the next ones in their order as far as there is room.
/// Each reason that it names holds, and every gate that is closed is among them.
pub proof fn law_reviews_say_why(
    text: Seq<char>,
    props: PropsModel,
    hits: Seq<HitModel>,
    measures: Seq<Measure>,
    cfg: SoftMergeConfigModel,
)
    requires
        measures.len() == hits.len(),
        hits.len() <= usize::MAX,
    ensures
        match decide(text, props, hits, measures, cfg) {
            DecisionModel::NeedsReview { top, runners_up, rejected_by } => {
                &&& shows(top, hits[0], measures[0])
                &&& forall|i: int|
                    0 <= i < runners_up.len() ==> shows(
                        #[trigger] runners_up[i],
                        hits[i + 1],
                        measures[i + 1],
                    )
                &&& runners_up.len() < hits.len()
                &&& runners_up.len() + 1 < hits.len() ==> runners_up.len() + 1 >= cfg.review_max_candidates
                &&& cfg.review_max_candidates > 0 ==> runners_up.len() + 1
                    <= cfg.review_max_candidates
                &&& cfg.review_max_candidates == 0 ==> runners_up.len() == 0
                &&& reasons_are_right(rejected_by, text, props, hits, measures, cfg)
            },
            _ => true,
        },
{
    if hits.len() > 0 {
        reasons_hold(text, props, hits, measures, cfg);
    }
}

/// Nothing but texts and values decides on a conflict: the first of the keys on which entity
/// and node say different things is named, with what each says.
pub proof fn law_conflicts_are_named(
    props: PropsModel,
    known: Seq<(Seq<char>, JsonModel)>,
    keys: Seq<Seq<char>>,
)
    ensures
        match conflict_of(props, known, keys) {
            Some(GateReasonModel::HardConflict { property, incoming, candidate }) => {
                &&& keys.contains(property)
                &&& keys_conflict(props, known, property)
                &&& incoming != candidate
                &&& strmap::assoc_get(props, property)->0.value is Str ==> incoming
                    == strmap::assoc_get(props, property)->0.value->Str_0
                &&& strmap::assoc_get(known, property)->0 is Str ==> candidate
                    == strmap::assoc_get(known, property)->0->Str_0
            },
            Some(_) => false,
            None => forall|k: int|
                0 <= k < keys.len() ==> !keys_conflict(props, known, #[trigger] keys[k]),
        },
{
    conflict_is_found(props, known, keys);
}

} // verus!
