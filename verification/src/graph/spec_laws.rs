//! What the records of a graph say of entity types, and which vectors go where.

use vstd::prelude::*;
use crate::embeddings::store::EmbeddingKind;
use crate::embeddings::store::ScoredHitModel;
use crate::embeddings;
use crate::floats;
use crate::graph::ontology::CatalogModel;
use crate::graph::ontology::DomainModel;
use crate::graph::ontology::TypeModel;
use crate::graph::projection;
use crate::graph::selection;
use crate::graph::spec::EntitySpecMatchModel;
use crate::graph::spec::EntitySpecModel;
use crate::graph::spec::GraphSpecModel;
use crate::graph::spec::PropertySpecModel;
use crate::graph::spec::RerankScore;
use crate::graph::spec::SpecModel;
use crate::graph::spec;
use crate::ingest::convert;
use crate::sorting;
use crate::strmap;
use crate::text;

verus! {

broadcast use vstd::string::group_string_axioms;

/// Is a record among the records?
pub open spec fn is_on_record(s: GraphSpecModel, r: SpecModel) -> bool {
    exists|i: int| 0 <= i < s.len() && (#[trigger] s[i]).1 == r
}

proof fn record_of_fewer(s: GraphSpecModel, r: SpecModel)
    requires
        s.len() > 0,
    ensures
        is_on_record(s, r) <==> is_on_record(s.drop_last(), r) || s.last().1 == r,
{
    let rest = s.drop_last();
    assert(s[s.len() - 1] == s.last());
    if is_on_record(s, r) {
        let i = choose|i: int| 0 <= i < s.len() && (#[trigger] s[i]).1 == r;
        if i < rest.len() {
            assert(rest[i].1 == r);
        }
    }
    if is_on_record(rest, r) {
        let i = choose|i: int| 0 <= i < rest.len() && (#[trigger] rest[i]).1 == r;
        assert(s[i].1 == r);
    }
}

proof fn pushed_contains<T>(s: Seq<T>, x: T, y: T)
    ensures
        s.push(x).contains(y) <==> s.contains(y) || x == y,
{
    let t = s.push(x);
    if t.contains(y) {
        let i = choose|i: int| 0 <= i < t.len() && t[i] == y;
        if i < s.len() {
            assert(s[i] == y);
        }
    }
    if s.contains(y) {
        let i = choose|i: int| 0 <= i < s.len() && s[i] == y;
        assert(t[i] == y);
    }
    assert(t[s.len() as int] == x);
}

/// The records on an entity type are its own record and those of its properties.
pub proof fn law_records_are_of_their_entity(s: GraphSpecModel, entity: Seq<char>, r: SpecModel)
    ensures
        spec::records_of(s, entity).contains(r) <==> is_on_record(s, r) && match r {
            SpecModel::Entity(e) => e.name == entity,
            SpecModel::Property(p) => p.entity == entity,
        },
    decreases s.len(),
{
    if s.len() > 0 {
        law_records_are_of_their_entity(s.drop_last(), entity, r);
        record_of_fewer(s, r);
        pushed_contains(spec::records_of(s.drop_last(), entity), s.last().1, r);
    }
}

/// The properties of an entity type are all that are on record for it.
pub proof fn law_properties_are_all_listed(
    s: GraphSpecModel,
    entity: Seq<char>,
    p: PropertySpecModel,
)
    ensures
        spec::properties_of(s, entity).contains(p) <==> p.entity == entity && is_on_record(
            s,
            SpecModel::Property(p),
        ),
    decreases s.len(),
{
    if s.len() > 0 {
        law_properties_are_all_listed(s.drop_last(), entity, p);
        record_of_fewer(s, SpecModel::Property(p));
        if let SpecModel::Property(q) = s.last().1 {
            pushed_contains(spec::properties_of(s.drop_last(), entity), q, p);
        }
    }
}

/// A passage is embedded for exactly those entity types on record that have no vector.
pub proof fn law_pending_have_no_vector(
    s: GraphSpecModel,
    whole: GraphSpecModel,
    job: (Seq<char>, Seq<char>),
)
    ensures
        spec::pending_of(s, whole).contains(job) <==> exists|e: EntitySpecModel|
            #[trigger] is_on_record(s, SpecModel::Entity(e)) && e.embedding is None && job
                == (e.name, spec::embedding_text_of(whole, e)),
    decreases s.len(),
{
    if s.len() > 0 {
        let rest = s.drop_last();
        law_pending_have_no_vector(rest, whole, job);
        let before = spec::pending_of(rest, whole);
        if let SpecModel::Entity(x) = s.last().1 {
            pushed_contains(before, (x.name, spec::embedding_text_of(whole, x)), job);
        }
        if spec::pending_of(s, whole).contains(job) {
            if before.contains(job) {
                let e = choose|e: EntitySpecModel|
                    #[trigger] is_on_record(rest, SpecModel::Entity(e)) && e.embedding is None
                        && job == (e.name, spec::embedding_text_of(whole, e));
                record_of_fewer(s, SpecModel::Entity(e));
                assert(is_on_record(s, SpecModel::Entity(e)));
            } else {
                record_of_fewer(s, s.last().1);
                assert(is_on_record(s, s.last().1));
            }
        }
        if exists|e: EntitySpecModel|
            #[trigger] is_on_record(s, SpecModel::Entity(e)) && e.embedding is None && job == (
                e.name,
                spec::embedding_text_of(whole, e),
            ) {
            let e = choose|e: EntitySpecModel|
                #[trigger] is_on_record(s, SpecModel::Entity(e)) && e.embedding is None && job
                    == (e.name, spec::embedding_text_of(whole, e));
            record_of_fewer(s, SpecModel::Entity(e));
            if is_on_record(rest, SpecModel::Entity(e)) {
                assert(before.contains(job));
            }
        }
    }
}

/// The vector at a place goes to the entity type that the passage at that place was made for, and
/// nothing else of that record changes.
pub proof fn law_vectors_go_to_their_entities(
    s: GraphSpecModel,
    jobs: Seq<(Seq<char>, Seq<char>)>,
    vectors: Seq<Seq<u32>>,
    j: int,
)
    requires
        jobs.len() == vectors.len(),
        0 <= j < jobs.len(),
        forall|k: int| 0 <= k < jobs.len() && k != j ==> (#[trigger] jobs[k]).0 != jobs[j].0,
    ensures
        match strmap::assoc_get(s, jobs[j].0) {
            Some(SpecModel::Entity(e)) => match strmap::assoc_get(
                spec::with_vectors(s, jobs, vectors),
                jobs[j].0,
            ) {
                Some(SpecModel::Entity(f)) => f.embedding == Some(vectors[j]) && f.name == e.name
                    && f.description == e.description,
                _ => false,
            },
            other => strmap::assoc_get(spec::with_vectors(s, jobs, vectors), jobs[j].0) == other,
        },
    decreases jobs.len(),
{
    let rest = jobs.drop_last();
    let before = spec::with_vectors(s, rest, vectors.drop_last());
    let key = jobs[j].0;
    if j < rest.len() {
        assert(rest[j] == jobs[j]);
        assert forall|k: int| 0 <= k < rest.len() && k != j implies (#[trigger] rest[k]).0
            != rest[j].0 by {
            assert(rest[k] == jobs[k]);
        }
        law_vectors_go_to_their_entities(s, rest, vectors.drop_last(), j);
        assert(jobs[jobs.len() - 1].0 != key);
        other_is_untouched(before, jobs.last().0, vectors.last(), key);
    } else {
        assert forall|k: int| 0 <= k < rest.len() implies (#[trigger] rest[k]).0 != key by {
            assert(rest[k] == jobs[k]);
        }
        untouched_without_job(s, rest, vectors.drop_last(), key);
        if let Some(SpecModel::Entity(e)) = strmap::assoc_get(before, key) {
            strmap::law_get_after_insert(
                before,
                key,
                SpecModel::Entity(EntitySpecModel { embedding: Some(vectors.last()), ..e }),
            );
        }
    }
}

proof fn other_is_untouched(
    s: GraphSpecModel,
    key: Seq<char>,
    vector: Seq<u32>,
    other: Seq<char>,
)
    requires
        other != key,
    ensures
        strmap::assoc_get(spec::with_vector(s, key, vector), other) == strmap::assoc_get(s, other),
{
    if let Some(SpecModel::Entity(e)) = strmap::assoc_get(s, key) {
        strmap::law_get_other_after_insert(
            s,
            key,
            SpecModel::Entity(EntitySpecModel { embedding: Some(vector), ..e }),
            other,
        );
    }
}

proof fn untouched_without_job(
    s: GraphSpecModel,
    jobs: Seq<(Seq<char>, Seq<char>)>,
    vectors: Seq<Seq<u32>>,
    key: Seq<char>,
)
    requires
        jobs.len() == vectors.len(),
        forall|k: int| 0 <= k < jobs.len() ==> (#[trigger] jobs[k]).0 != key,
    ensures
        strmap::assoc_get(spec::with_vectors(s, jobs, vectors), key) == strmap::assoc_get(s, key),
    decreases jobs.len(),
{
    if jobs.len() > 0 {
        let rest = jobs.drop_last();
        assert forall|k: int| 0 <= k < rest.len() implies (#[trigger] rest[k]).0 != key by {
            assert(rest[k] == jobs[k]);
        }
        untouched_without_job(s, rest, vectors.drop_last(), key);
        assert(jobs[jobs.len() - 1].0 != key);
        other_is_untouched(
            spec::with_vectors(s, rest, vectors.drop_last()),
            jobs.last().0,
            vectors.last(),
            key,
        );
    }
}

proof fn part_of_longer(whole: Seq<char>, part: Seq<char>, before: Seq<char>, after: Seq<char>)
    requires
        text::has_substring(whole, part),
    ensures
        text::has_substring(before + whole + after, part),
{
    let i = choose|i: int| #[trigger] text::occurs_at(whole, part, i);
    let all = before + whole + after;
    assert(all.subrange(before.len() + i, before.len() + i + part.len()) =~= whole.subrange(
        i,
        i + part.len(),
    ));
    assert(text::occurs_at(all, part, before.len() + i));
}

/// The line on a property.
pub open spec fn line_on(p: PropertySpecModel) -> Seq<char> {
    "\n- "@ + p.name + " ("@ + convert::type_word(p.kind) + "): "@ + p.description
}

proof fn line_is_written(properties: Seq<PropertySpecModel>, p: PropertySpecModel)
    requires
        properties.contains(p),
    ensures
        text::has_substring(spec::property_lines(properties), line_on(p)),
    decreases properties.len(),
{
    let i = choose|i: int| 0 <= i < properties.len() && properties[i] == p;
    let rest = properties.drop_last();
    let before = spec::property_lines(rest);
    let all = spec::property_lines(properties);
    let e = Seq::<char>::empty();
    if i < rest.len() {
        assert(rest[i] == p);
        line_is_written(rest, p);
        part_of_longer(before, line_on(p), e, line_on(properties.last()));
        assert(e + before + line_on(properties.last()) =~= all);
    } else {
        assert(all.subrange(before.len() as int, (before.len() + line_on(p).len()) as int) =~= line_on(p));
        assert(text::occurs_at(all, line_on(p), before.len() as int));
    }
}

/// The passage of an entity type starts with its name and description, and has a line on each of
/// its properties, with the name, the type and the description of that property.
pub proof fn law_passages_tell_all_properties(
    s: GraphSpecModel,
    e: EntitySpecModel,
    p: PropertySpecModel,
)
    ensures
        text::has_prefix(spec::embedding_text_of(s, e), e.name + " - "@ + e.description + "\n"@),
        p.entity == e.name && is_on_record(s, SpecModel::Property(p)) ==> text::has_substring(
            spec::embedding_text_of(s, e),
            line_on(p),
        ),
{
    let properties = sorting::sorted_by(spec::properties_of(s, e.name), spec::property_order());
    let head = e.name + " - "@ + e.description + "\n"@;
    let whole = spec::embedding_text_of(s, e);
    assert(whole.subrange(0, head.len() as int) =~= head);
    if p.entity == e.name && is_on_record(s, SpecModel::Property(p)) {
        law_properties_are_all_listed(s, e.name, p);
        sorting::sorting_keeps(spec::properties_of(s, e.name), spec::property_order(), p);
        line_is_written(properties, p);
        let lines = spec::property_lines(properties);
        let empty = Seq::<char>::empty();
        part_of_longer(lines, line_on(p), head + "Properties:"@, empty);
        assert(head + "Properties:"@ + lines + empty =~= whole);
    }
}

/// The candidates of a query are exactly the entity types with a vector; a vector of another
/// dimension than that of the query is an error.
pub proof fn law_candidates_have_vectors(s: GraphSpecModel, dim: nat, e: EntitySpecModel)
    ensures
        match spec::candidates_of(s, dim) {
            Ok(found) => {
                &&& found.contains(e) <==> e.embedding is Some && is_on_record(
                    s,
                    SpecModel::Entity(e),
                )
                &&& e.embedding is Some && is_on_record(s, SpecModel::Entity(e))
                    ==> e.embedding->0.len() == dim
            },
            Err(_) => exists|x: EntitySpecModel|
                #[trigger] is_on_record(s, SpecModel::Entity(x)) && x.embedding is Some
                    && x.embedding->0.len() != dim,
        },
    decreases s.len(),
{
    if s.len() > 0 {
        let rest = s.drop_last();
        law_candidates_have_vectors(rest, dim, e);
        record_of_fewer(s, SpecModel::Entity(e));
        match spec::candidates_of(rest, dim) {
            Err(_) => {
                let x = choose|x: EntitySpecModel|
                    #[trigger] is_on_record(rest, SpecModel::Entity(x)) && x.embedding is Some
                        && x.embedding->0.len() != dim;
                record_of_fewer(s, SpecModel::Entity(x));
                assert(is_on_record(s, SpecModel::Entity(x)));
            },
            Ok(before) => {
                if let SpecModel::Entity(x) = s.last().1 {
                    record_of_fewer(s, SpecModel::Entity(x));
                    assert(is_on_record(s, SpecModel::Entity(x)));
                    pushed_contains(before, x, e);
                }
            },
        }
    }
}

/// A match is a candidate with its own score, where that score is no less than the threshold; every
/// such candidate is a match.
pub proof fn law_matches_reach_the_threshold(
    found: Seq<EntitySpecModel>,
    scores: Seq<u32>,
    threshold: u32,
    m: EntitySpecMatchModel,
)
    requires
        found.len() == scores.len(),
    ensures
        spec::matches_of(found, scores, threshold).contains(m) <==> exists|i: int|
            0 <= i < found.len() && #[trigger] found[i] == m.record && scores[i] == m.score
                && !embeddings::is_nan(scores[i]) && !embeddings::is_nan(threshold)
                && floats::narrow_value(scores[i]) >= floats::narrow_value(threshold),
    decreases found.len(),
{
    if found.len() > 0 {
        let rest = found.drop_last();
        let fewer = scores.drop_last();
        law_matches_reach_the_threshold(rest, fewer, threshold, m);
        floats::law_narrow_floats_compare_by_value(scores.last(), threshold);
        let before = spec::matches_of(rest, fewer, threshold);
        pushed_contains(
            before,
            EntitySpecMatchModel { record: found.last(), score: scores.last() },
            m,
        );
        let n = found.len() - 1;
        assert(found[n] == found.last() && scores[n] == scores.last());
        if before.contains(m) {
            let i = choose|i: int|
                0 <= i < rest.len() && #[trigger] rest[i] == m.record && fewer[i] == m.score
                    && !embeddings::is_nan(fewer[i]) && !embeddings::is_nan(threshold)
                    && floats::narrow_value(fewer[i]) >= floats::narrow_value(threshold);
            assert(found[i] == m.record && scores[i] == m.score);
        }
        if exists|i: int|
            0 <= i < found.len() && #[trigger] found[i] == m.record && scores[i] == m.score
                && !embeddings::is_nan(scores[i]) && !embeddings::is_nan(threshold)
                && floats::narrow_value(scores[i]) >= floats::narrow_value(threshold) {
            let i = choose|i: int|
                0 <= i < found.len() && #[trigger] found[i] == m.record && scores[i] == m.score
                    && !embeddings::is_nan(scores[i]) && !embeddings::is_nan(threshold)
                    && floats::narrow_value(scores[i]) >= floats::narrow_value(threshold);
            if i < n {
                assert(rest[i] == m.record && fewer[i] == m.score);
            }
        }
    }
}

/// A reranked match is one of the matches with its new score, where that is no less than the
/// threshold; every such match is kept. A reranker that does not answer one by one is an error.
pub proof fn law_reranked_reach_the_threshold(
    matches: Seq<EntitySpecMatchModel>,
    scores: Seq<RerankScore>,
    threshold: u64,
    m: EntitySpecMatchModel,
)
    ensures
        match spec::reranked_of(matches, scores, threshold) {
            Err(_) => scores.len() != matches.len(),
            Ok(kept) => scores.len() == matches.len() && (kept.contains(m) <==> exists|i: int|
                0 <= i < matches.len() && (#[trigger] matches[i]).record == m.record
                    && scores[i].narrow == m.score && embeddings::wide_at_least(
                    scores[i].wide,
                    threshold,
                )),
        },
{
    if scores.len() == matches.len() {
        kept_reach_the_threshold(matches, scores, threshold, m);
    }
}

proof fn kept_reach_the_threshold(
    matches: Seq<EntitySpecMatchModel>,
    scores: Seq<RerankScore>,
    threshold: u64,
    m: EntitySpecMatchModel,
)
    requires
        scores.len() == matches.len(),
    ensures
        spec::kept_matches(matches, scores, threshold).contains(m) <==> exists|i: int|
            0 <= i < matches.len() && (#[trigger] matches[i]).record == m.record
                && scores[i].narrow == m.score && embeddings::wide_at_least(
                scores[i].wide,
                threshold,
            ),
    decreases matches.len(),
{
    if matches.len() > 0 {
        let rest = matches.drop_last();
        let fewer = scores.drop_last();
        kept_reach_the_threshold(rest, fewer, threshold, m);
        let before = spec::kept_matches(rest, fewer, threshold);
        pushed_contains(
            before,
            EntitySpecMatchModel { record: matches.last().record, score: scores.last().narrow },
            m,
        );
        let n = matches.len() - 1;
        assert(matches[n] == matches.last() && scores[n] == scores.last());
        if before.contains(m) {
            let i = choose|i: int|
                0 <= i < rest.len() && (#[trigger] rest[i]).record == m.record && fewer[i].narrow
                    == m.score && embeddings::wide_at_least(fewer[i].wide, threshold);
            assert(matches[i] == rest[i] && scores[i] == fewer[i]);
        }
        if exists|i: int|
            0 <= i < matches.len() && (#[trigger] matches[i]).record == m.record
                && scores[i].narrow == m.score && embeddings::wide_at_least(
                scores[i].wide,
                threshold,
            ) {
            let i = choose|i: int|
                0 <= i < matches.len() && (#[trigger] matches[i]).record == m.record
                    && scores[i].narrow == m.score && embeddings::wide_at_least(
                    scores[i].wide,
                    threshold,
                );
            if i < n {
                assert(rest[i] == matches[i] && fewer[i] == scores[i]);
            }
        }
    }
}

/// Ranked matches come highest score first, and are the matches that were ranked.
pub proof fn law_ranked_matches_descend(matches: Seq<EntitySpecMatchModel>, i: int, j: int)
    requires
        0 <= i < j < matches.len(),
    ensures
        ({
            let ranked = sorting::sorted_by(matches, spec::match_order());
            &&& ranked.len() == matches.len()
            &&& ranked.to_multiset() =~= matches.to_multiset()
            &&& floats::narrow_value(ranked[i].score) >= floats::narrow_value(ranked[j].score)
            &&& ranked[i].score == ranked[j].score ==> !text::lex_lt(
                ranked[j].record.name,
                ranked[i].record.name,
            )
        }),
{
    let ranked = sorting::sorted_by(matches, spec::match_order());
    spec::law_match_order_is_total();
    sorting::law_sorted_by(matches, spec::match_order());
    assert(spec::match_order()(ranked[i], ranked[j]));
    floats::law_narrow_floats_compare_by_value(ranked[i].score, ranked[j].score);
}

/// Every domain that is a candidate has a passage, with its own text; where no candidates are
/// named, every domain has one.
pub proof fn law_candidate_domains_have_passages(
    c: CatalogModel,
    candidates: Option<Seq<Seq<char>>>,
    i: int,
)
    requires
        0 <= i < c.len(),
        candidates is Some ==> candidates->0.contains(c[i].0),
    ensures
        exists|k: int|
            0 <= k < selection::passages_of(c, candidates).len() && ({
                let p = #[trigger] selection::passages_of(c, candidates)[k];
                &&& p.0.kind == EmbeddingKind::Domain
                &&& p.0.domain == c[i].0
                &&& p.0.entity is None
                &&& p.0.property is None
                &&& p.1 == projection::domain_text(c[i].0, c[i].1)
            }),
    decreases c.len(),
{
    let rest = c.drop_last();
    let before = selection::passages_of(rest, candidates);
    let all = selection::passages_of(c, candidates);
    if i < rest.len() {
        law_candidate_domains_have_passages(rest, candidates, i);
        let k = choose|k: int|
            0 <= k < before.len() && ({
                let p = #[trigger] selection::passages_of(rest, candidates)[k];
                &&& p.0.kind == EmbeddingKind::Domain
                &&& p.0.domain == rest[i].0
                &&& p.0.entity is None
                &&& p.0.property is None
                &&& p.1 == projection::domain_text(rest[i].0, rest[i].1)
            });
        assert(all[k] == before[k]);
        assert(rest[i] == c[i]);
    } else {
        assert(all[before.len() as int].0.domain == c[i].0);
    }
}

/// A hit is a match exactly when the catalog has its domain, and then with the ontology of that
/// domain and with the score of the hit.
pub proof fn law_matches_are_of_the_catalog(c: CatalogModel, hits: Seq<ScoredHitModel>)
    ensures
        ({
            let found = hits.filter(
                |h: ScoredHitModel| strmap::assoc_get(c, h.payload.domain) is Some,
            );
            let matches = selection::matches_of(c, hits);
            &&& matches.len() == found.len()
            &&& forall|i: int|
                0 <= i < matches.len() ==> (#[trigger] matches[i]).domain
                    == found[i].payload.domain && matches[i].score == found[i].score
                    && strmap::assoc_get(c, matches[i].domain) == Some(matches[i].ontology)
        }),
    decreases hits.len(),
{
    reveal(Seq::filter);
    if hits.len() > 0 {
        law_matches_are_of_the_catalog(c, hits.drop_last());
    }
}

/// A reranker is given the passage of every match, in the order of the matches, and an embedder
/// that of every job.
pub proof fn law_documents_are_of_their_matches(
    s: GraphSpecModel,
    matches: Seq<EntitySpecMatchModel>,
    jobs: Seq<(Seq<char>, Seq<char>)>,
    i: int,
)
    ensures
        spec::documents_of(s, matches).len() == matches.len(),
        0 <= i < matches.len() ==> spec::documents_of(s, matches)[i] == spec::embedding_text_of(
            s,
            matches[i].record,
        ),
        jobs.len() == 0 ==> spec::asks_for(jobs).len() == 0,
        jobs.len() > 0 ==> spec::asks_for(jobs).len() == 1 && spec::asks_for(jobs)[0].len()
            == jobs.len(),
        0 <= i < jobs.len() ==> spec::asks_for(jobs)[0][i] == jobs[i].1,
{
}

/// The domains of passages are those of their payloads, one by one.
pub proof fn law_passage_domains_are_of_the_payloads(
    passages: Seq<(crate::embeddings::store::EmbeddingPayloadModel, Seq<char>)>,
    i: int,
)
    requires
        0 <= i < passages.len(),
    ensures
        selection::passage_domains(passages).len() == passages.len(),
        selection::passage_domains(passages)[i] == passages[i].0.domain,
{
}

/// A statement speaks of its own table; what is read is what was written under the same scope.
pub proof fn law_statements_speak_of_their_table(table: Seq<char>)
    ensures
        text::has_prefix(
            crate::graph::postgres_spec_storage::create_statement(table),
            "CREATE TABLE IF NOT EXISTS "@ + table + " "@,
        ),
        text::has_prefix(
            crate::graph::postgres_spec_storage::select_statement(table),
            "SELECT specification FROM "@ + table + " WHERE scope = $1"@,
        ),
        text::has_prefix(
            crate::graph::postgres_spec_storage::upsert_statement(table),
            "INSERT INTO "@ + table + " (scope, specification, "@,
        ),
        text::has_substring(
            crate::graph::postgres_spec_storage::upsert_statement(table),
            "VALUES ($1, $2, "@,
        ),
{
    reveal_strlit(" ");
    reveal_strlit(" WHERE scope = $1");
    reveal_strlit(" (scope, specification, ");
    reveal_strlit("VALUES ($1, $2, ");
    reveal_strlit(
        " ( scope TEXT PRIMARY KEY, specification JSONB NOT NULL, updated_at TIMESTAMPTZ NOT NULL DEFAULT NOW() )",
    );
    reveal_strlit(
        " (scope, specification, updated_at) VALUES ($1, $2, NOW()) ON CONFLICT (scope) DO UPDATE SET specification = EXCLUDED.specification, updated_at = NOW()",
    );
    let a = crate::graph::postgres_spec_storage::create_statement(table);
    let b = crate::graph::postgres_spec_storage::select_statement(table);
    let c = crate::graph::postgres_spec_storage::upsert_statement(table);
    let x = "CREATE TABLE IF NOT EXISTS "@ + table + " "@;
    assert(a.subrange(0, x.len() as int) =~= x);
    assert(b.subrange(0, b.len() as int) =~= b);
    let z = "INSERT INTO "@ + table + " (scope, specification, "@;
    assert(c.subrange(0, z.len() as int) =~= z);
    let v = "VALUES ($1, $2, "@;
    let at = "INSERT INTO "@.len() + table.len() + 36int;
    assert(c.subrange(at, at + v.len()) =~= v);
    assert(text::occurs_at(c, v, at));
}

/// A load gives what was found, and no records where nothing was.
pub proof fn law_loads_give_what_was_found(found: GraphSpecModel)
    ensures
        crate::graph::spec_storage::loaded(Some(found)) == found,
        crate::graph::spec_storage::loaded(None).len() == 0,
{
}

/// An embedder must answer with as many vectors as it was asked for; then they go to the jobs, and
/// otherwise nothing changes.
pub proof fn law_vectors_must_be_as_many(
    s: GraphSpecModel,
    jobs: Seq<(Seq<char>, Seq<char>)>,
    vectors: Seq<Seq<u32>>,
    e: crate::embeddings::EmbedErrorModel,
)
    ensures
        spec::embedded(s, jobs, Err(e)) == Err::<GraphSpecModel, crate::embeddings::EmbedErrorModel>(
            e,
        ),
        spec::embedded(s, jobs, Ok(vectors)) is Ok <==> vectors.len() == jobs.len(),
        vectors.len() == jobs.len() ==> spec::embedded(s, jobs, Ok(vectors)) == Ok::<
            GraphSpecModel,
            crate::embeddings::EmbedErrorModel,
        >(spec::with_vectors(s, jobs, vectors)),
{
}

proof fn entity_is_itemized(types: Seq<TypeModel>, t: TypeModel)
    requires
        types.contains(t),
    ensures
        text::has_substring(projection::entity_items(types), entity_item(t)),
    decreases types.len(),
{
    let i = choose|i: int| 0 <= i < types.len() && types[i] == t;
    let rest = types.drop_last();
    let before = projection::entity_items(rest);
    let all = projection::entity_items(types);
    let e = Seq::<char>::empty();
    if i < rest.len() {
        assert(rest[i] == t);
        entity_is_itemized(rest, t);
        part_of_longer(before, entity_item(t), e, entity_item(types.last()));
        assert(e + before + entity_item(types.last()) =~= all);
    } else {
        let at = before.len() as int;
        assert(all.subrange(at, at + entity_item(t).len()) =~= entity_item(t));
        assert(text::occurs_at(all, entity_item(t), at));
    }
}

proof fn relation_is_itemized(types: Seq<TypeModel>, t: TypeModel)
    requires
        types.contains(t),
    ensures
        text::has_substring(projection::relation_items(types), "\n- "@ + t.name),
    decreases types.len(),
{
    let i = choose|i: int| 0 <= i < types.len() && types[i] == t;
    let rest = types.drop_last();
    let before = projection::relation_items(rest);
    let all = projection::relation_items(types);
    let e = Seq::<char>::empty();
    let item = "\n- "@ + t.name;
    if i < rest.len() {
        assert(rest[i] == t);
        relation_is_itemized(rest, t);
        let more = "\n- "@ + types.last().name;
        part_of_longer(before, item, e, more);
        assert(e + before + more =~= all);
    } else {
        let at = before.len() as int;
        assert(all.subrange(at, at + item.len()) =~= item);
        assert(text::occurs_at(all, item, at));
    }
}

/// The item on an entity type: its name and its description.
pub open spec fn entity_item(t: TypeModel) -> Seq<char> {
    "\n- "@ + text::trimmed(
        t.name + " - "@ + (match t.description {
            Some(d) => d,
            None => Seq::empty(),
        }) + "\n"@,
    )
}

/// The passage of a domain starts with its name, says its description, and has an item on each of
/// its entity types and each of its relation types.
pub proof fn law_domain_passages_tell_all_types(
    domain: Seq<char>,
    d: DomainModel,
    e: TypeModel,
    r: TypeModel,
)
    ensures
        text::has_prefix(projection::domain_text(domain, d), "Domain: "@ + domain + "\n"@),
        d.description is Some && d.description->0.len() > 0 ==> text::has_substring(
            projection::domain_text(domain, d),
            "Description: "@ + d.description->0 + "\n"@,
        ),
        d.entity_types.contains(e) ==> text::has_substring(
            projection::domain_text(domain, d),
            entity_item(e),
        ),
        d.relation_types.contains(r) ==> text::has_substring(
            projection::domain_text(domain, d),
            "\n- "@ + r.name,
        ),
{
    let whole = projection::domain_text(domain, d);
    let head = "Domain: "@ + domain + "\n"@;
    let said = if d.description is Some && d.description->0.len() > 0 {
        "Description: "@ + d.description->0 + "\n"@
    } else {
        Seq::empty()
    };
    let sorted_entities = sorting::sorted_by(d.entity_types, projection::type_order());
    let sorted_relations = sorting::sorted_by(d.relation_types, projection::type_order());
    let entities = if d.entity_types.len() > 0 {
        "Entities:"@ + projection::entity_items(sorted_entities) + "\n"@
    } else {
        Seq::empty()
    };
    let relations = if d.relation_types.len() > 0 {
        "Relations:"@ + projection::relation_items(sorted_relations) + "\n"@
    } else {
        Seq::empty()
    };
    let none = Seq::<char>::empty();
    assert(whole =~= head + said + entities + relations);
    assert(whole.subrange(0, head.len() as int) =~= head);
    if said.len() > 0 {
        let at = head.len() as int;
        assert(whole.subrange(at, at + said.len()) =~= said);
        assert(text::occurs_at(whole, said, at));
    }
    if d.entity_types.contains(e) {
        sorting::sorting_keeps(d.entity_types, projection::type_order(), e);
        entity_is_itemized(sorted_entities, e);
        let items = projection::entity_items(sorted_entities);
        let before = head + said + "Entities:"@;
        let after = "\n"@ + relations;
        part_of_longer(items, entity_item(e), before, after);
        assert(before + items + after =~= whole);
    }
    if d.relation_types.contains(r) {
        sorting::sorting_keeps(d.relation_types, projection::type_order(), r);
        relation_is_itemized(sorted_relations, r);
        let items = projection::relation_items(sorted_relations);
        let before = head + said + entities + "Relations:"@;
        let after = "\n"@;
        part_of_longer(items, "\n- "@ + r.name, before, after);
        assert(before + items + after =~= whole);
    }
}

/// A query is searched with its own words first.
pub proof fn law_queries_are_searched_as_said(query: Seq<char>)
    ensures
        text::has_prefix(projection::query_text(query), "User query:"@ + query + "\n"@),
        text::has_prefix(spec::find_query(query), "User query:"@ + query + "\n"@),
{
    reveal_strlit("\n");
    reveal_strlit("\nTask: Identify the most relevant ontology domains for this query");
    reveal_strlit("\nTask: Identify database schema elements need for answering this query");
    let head = "User query:"@ + query + "\n"@;
    let a = projection::query_text(query);
    let b = spec::find_query(query);
    assert(a.subrange(0, head.len() as int) =~= head);
    assert(b.subrange(0, head.len() as int) =~= head);
}

} // verus!
