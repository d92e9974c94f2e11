//! Running a suite: its settings, its prefix, what is asked of the database before
//! and after, and its report.

use vstd::prelude::*;
use crate::cypher::CypherQuery;
use crate::cypher::CypherQueryModel;
use crate::cypher;
use crate::db::DbValue;
use crate::db::DbValueModel;
use crate::db::QueryResult;
use crate::db::QueryResultModel;
use crate::db;
use crate::e2e::types::E2eCaseReport;
use crate::e2e::types::E2eCaseReportModel;
use crate::e2e::types::E2eReport;
use crate::e2e::types::E2eReportModel;
use crate::e2e::types::E2eRunOptions;
use crate::e2e::types::E2eRunOptionsModel;
use crate::e2e::types::IndexSpec;
use crate::e2e::types::IndexSpecModel;
use crate::e2e::types::QuestionCase;
use crate::e2e::types::QuestionCaseModel;
use crate::e2e::types::SuiteSettings;
use crate::e2e::types::SuiteSettingsModel;
use crate::e2e::types;
use crate::graph::builder::Graph;
use crate::graph::schema::EntityGraphModel;
use crate::graph::schema::PrimaryKey;
use crate::graph::schema::PrimaryKeyModel;
use crate::json::Float;
use crate::json::FloatModel;
use crate::json::Json;
use crate::json::JsonModel;
use crate::json::JsonNumber;
use crate::json::NumberModel;
use crate::seqs::Copied;
use crate::seqs;
use crate::strmap::StrMap;
use crate::strmap;
use crate::text;

verus! {

broadcast use vstd::string::group_string_axioms;

/// The first of two optional values.
pub open spec fn first_of<T>(a: Option<T>, b: Option<T>) -> Option<T> {
    match a {
        Some(x) => Some(x),
        None => b,
    }
}

/// The settings of a suite with what the caller says put over them. Keeping the
/// data wins over cleaning up.
pub open spec fn overridden(s: SuiteSettingsModel, o: E2eRunOptionsModel) -> SuiteSettingsModel {
    SuiteSettingsModel {
        prefix: first_of(o.prefix, s.prefix),
        cleanup_after: if o.keep_data {
            false
        } else {
            match o.cleanup_after {
                Some(b) => b,
                None => s.cleanup_after,
            }
        },
        include_embeddings_in_report: match o.include_embeddings_in_report {
            Some(b) => b,
            None => s.include_embeddings_in_report,
        },
        llm_base_url: first_of(o.llm_base_url, s.llm_base_url),
        llm_model: first_of(o.llm_model, s.llm_model),
        ..s
    }
}

/// The settings of a suite with what the caller says put over them.
pub fn effective_settings(settings: SuiteSettings, opts: &E2eRunOptions) -> (r: SuiteSettings)
    ensures
        r.deep_view() == overridden(settings.deep_view(), opts.deep_view()),
{
    let mut s = settings;
    if opts.prefix.is_some() {
        s.prefix = opts.prefix.copied();
    }
    if let Some(b) = opts.cleanup_after {
        s.cleanup_after = b;
    }
    if opts.keep_data {
        s.cleanup_after = false;
    }
    if let Some(b) = opts.include_embeddings_in_report {
        s.include_embeddings_in_report = b;
    }
    if opts.llm_base_url.is_some() {
        s.llm_base_url = opts.llm_base_url.copied();
    }
    if opts.llm_model.is_some() {
        s.llm_model = opts.llm_model.copied();
    }
    s
}

/// A letter, a digit or an underscore for each character.
pub open spec fn word_chars(raw: Seq<char>) -> Seq<char> {
    raw.map_values(
        |c: char|
            if text::is_word(c) {
                c
            } else {
                '_'
            },
    )
}

/// An identifier made from any text.
pub open spec fn identifier_of(raw: Seq<char>) -> Seq<char> {
    let out = word_chars(raw);
    if out.len() == 0 || text::is_digit(out[0]) {
        "E2E_"@ + out
    } else {
        out
    }
}

/// What is made from a text is an identifier, so it can be written into a query.
pub proof fn law_prefix_is_an_identifier(raw: Seq<char>)
    ensures
        text::is_identifier(identifier_of(raw)),
{
    reveal_strlit("E2E_");
    let out = word_chars(raw);
    let id = identifier_of(raw);
    assert forall|i: int| 0 <= i < out.len() implies text::is_word(#[trigger] out[i]) by {}
    assert forall|i: int| 0 <= i < id.len() implies text::is_word(#[trigger] id[i]) by {
        if out.len() == 0 || text::is_digit(out[0]) {
            if i >= 4 {
                assert(id[i] == out[i - 4]);
            }
        }
    }
}

/// An identifier stays as it is.
pub proof fn law_identifiers_are_kept(raw: Seq<char>)
    requires
        text::is_identifier(raw),
    ensures
        identifier_of(raw) == raw,
{
    assert(word_chars(raw) =~= raw);
}

/// An identifier made from a text. There always is one.
pub fn sanitize_ident(raw: &str) -> (r: Option<String>)
    ensures
        r.deep_view() == Some(identifier_of(raw@)),
{
    let cs = text::chars_of(raw);
    let ghost want = word_chars(raw@);
    let mut out = String::new();
    let mut i: usize = 0;
    while i < cs.len()
        invariant
            cs@ == raw@,
            want == word_chars(raw@),
            0 <= i <= cs@.len(),
            out@ == want.take(i as int),
        decreases cs@.len() - i,
    {
        let c = cs[i];
        if text::word_char(c) {
            out.push(c);
        } else {
            out.push('_');
        }
        i += 1;
        assert(out@ =~= want.take(i as int));
    }
    assert(out@ =~= want);
    let id = if cs.len() == 0 || text::digit_of(cs[0]) {
        let mut s = "E2E_".to_owned();
        s.append(out.as_str());
        s
    } else {
        out
    };
    proof {
        if cs@.len() > 0 {
            assert(want[0] == if text::is_word(raw@[0]) {
                raw@[0]
            } else {
                '_'
            });
        }
        assert(id@ == identifier_of(raw@));
        law_prefix_is_an_identifier(raw@);
    }
    if text::identifier(id.as_str()) {
        Some(id)
    } else {
        None
    }
}

/// The prefix of a run of a suite that names none, by the milliseconds since 1970.
pub open spec fn timed_prefix(suite: Seq<char>, millis: nat) -> Seq<char> {
    "E2E_"@ + suite + "_"@ + text::nat_text(millis)
}

/// The prefix of a run of a suite that names none.
pub fn unique_prefix(suite: &str, millis: u64) -> (r: String)
    ensures
        r@ == timed_prefix(suite@, millis as nat),
{
    let mut s = "E2E_".to_owned();
    s.append(suite);
    s.append("_");
    s.append(text::u64_text(millis).as_str());
    s
}

/// The prefix of a run: the one in the settings, else one by the time.
pub open spec fn prefix_of(s: SuiteSettingsModel, suite: Seq<char>, millis: nat) -> Seq<char> {
    identifier_of(
        match s.prefix {
            Some(p) => p,
            None => timed_prefix(suite, millis),
        },
    )
}

/// The prefix of a run, under which all its data stands.
pub fn suite_prefix(
    settings: &SuiteSettings,
    suite: &str,
    millis: u64,
) -> (r: Result<String, String>)
    ensures
        r is Ok,
        r->Ok_0@ == prefix_of(settings.deep_view(), suite@, millis as nat),
{
    let raw = match &settings.prefix {
        Some(p) => p.clone(),
        None => unique_prefix(suite, millis),
    };
    match sanitize_ident(raw.as_str()) {
        Some(p) => Ok(p),
        None => {
            let mut e = "suite prefix `".to_owned();
            e.append(raw.as_str());
            e.append("` is not a valid Cypher identifier");
            Err(e)
        },
    }
}

/// The cases of an id.
pub open spec fn cases_of(cases: Seq<QuestionCaseModel>, id: Seq<char>) -> Seq<QuestionCaseModel>
    decreases cases.len(),
{
    if cases.len() == 0 {
        Seq::empty()
    } else {
        let before = cases_of(cases.drop_last(), id);
        if cases.last().id == id {
            before.push(cases.last())
        } else {
            before
        }
    }
}

/// The cases to run: all, or those of the id that is asked for.
pub open spec fn chosen_cases(
    cases: Seq<QuestionCaseModel>,
    id: Option<Seq<char>>,
    path: Seq<char>,
) -> Result<Seq<QuestionCaseModel>, Seq<char>> {
    match id {
        Some(id) => if cases_of(cases, id).len() == 0 {
            Err("question id `"@ + id + "` not found in "@ + path)
        } else {
            Ok(cases_of(cases, id))
        },
        None => Ok(cases),
    }
}

/// Only cases of the id that is asked for are run.
pub proof fn law_chosen_cases_have_the_id(cases: Seq<QuestionCaseModel>, id: Seq<char>, i: int)
    requires
        0 <= i < cases_of(cases, id).len(),
    ensures
        cases_of(cases, id)[i].id == id,
        cases.contains(cases_of(cases, id)[i]),
    decreases cases.len(),
{
    let rest = cases_of(cases.drop_last(), id);
    if i < rest.len() {
        law_chosen_cases_have_the_id(cases.drop_last(), id, i);
        let k = choose|k: int| 0 <= k < cases.drop_last().len() && cases.drop_last()[k] == rest[i];
        assert(cases[k] == rest[i]);
    } else {
        assert(cases[cases.len() - 1] == cases.last());
    }
}

/// The cases to run.
pub fn select_questions(cases: Vec<QuestionCase>, id: &Option<String>, path: &str) -> (r: Result<
    Vec<QuestionCase>,
    String,
>)
    ensures
        match r {
            Ok(v) => chosen_cases(cases.deep_view(), id.deep_view(), path@) == Ok::<
                Seq<QuestionCaseModel>,
                Seq<char>,
            >(v.deep_view()),
            Err(e) => chosen_cases(cases.deep_view(), id.deep_view(), path@) == Err::<
                Seq<QuestionCaseModel>,
                Seq<char>,
            >(e@),
        },
{
    match id {
        Some(id) => {
            let ghost all = cases.deep_view();
            let mut out: Vec<QuestionCase> = seqs::no_items();
            let mut i: usize = 0;
            while i < cases.len()
                invariant
                    all == cases.deep_view(),
                    0 <= i <= cases@.len(),
                    out.deep_view() == cases_of(all.take(i as int), id@),
                decreases cases@.len() - i,
            {
                proof {
                    assert(all.take(i + 1).drop_last() =~= all.take(i as int));
                    assert(all.take(i + 1).last() == cases@[i as int].deep_view());
                }
                if text::text_eq(cases[i].id.as_str(), id.as_str()) {
                    seqs::push_item(&mut out, cases[i].copied());
                }
                i += 1;
            }
            assert(all.take(i as int) =~= all);
            assert(out.deep_view().len() == out@.len());
            if out.len() == 0 {
                let mut e = "question id `".to_owned();
                e.append(id.as_str());
                e.append("` not found in ");
                e.append(path);
                Err(e)
            } else {
                Ok(out)
            }
        },
        None => Ok(cases),
    }
}

pub type Pair = (Seq<char>, Seq<char>);

/// The order of indexes: by label, then by property.
pub open spec fn pair_lt(a: Pair, b: Pair) -> bool {
    text::lex_lt(a.0, b.0) || (a.0 == b.0 && text::lex_lt(a.1, b.1))
}

/// A sorted list of pairs with one more, which stands in it once.
pub open spec fn pair_insert(s: Seq<Pair>, x: Pair) -> Seq<Pair>
    decreases s.len(),
{
    if s.len() == 0 {
        seq![x]
    } else if s.last() == x {
        s
    } else if pair_lt(s.last(), x) {
        s.push(x)
    } else {
        pair_insert(s.drop_last(), x).push(s.last())
    }
}

proof fn pair_lt_is_total(a: Pair, b: Pair)
    ensures
        pair_lt(a, b) || a == b || pair_lt(b, a),
{
    text::lex_lt_total(a.0, b.0);
    text::lex_lt_total(a.1, b.1);
}

proof fn pair_lt_is_transitive(a: Pair, b: Pair, c: Pair)
    requires
        pair_lt(a, b),
        pair_lt(b, c),
    ensures
        pair_lt(a, c),
{
    if text::lex_lt(a.0, b.0) && text::lex_lt(b.0, c.0) {
        text::lex_lt_transitive(a.0, b.0, c.0);
    } else if a.0 == b.0 && b.0 == c.0 {
        text::lex_lt_transitive(a.1, b.1, c.1);
    }
}

/// Each index is made once, in order.
pub open spec fn pairs_sorted(s: Seq<Pair>) -> bool {
    forall|i: int, j: int| 0 <= i < j < s.len() ==> pair_lt(#[trigger] s[i], #[trigger] s[j])
}

/// Putting an index into a sorted list keeps it sorted, keeps what is there and adds
/// that index alone.
pub proof fn law_pair_insert_keeps_order(s: Seq<Pair>, x: Pair)
    requires
        pairs_sorted(s),
    ensures
        pairs_sorted(pair_insert(s, x)),
        pair_insert(s, x).contains(x),
        forall|p: Pair| #[trigger]
            pair_insert(s, x).contains(p) <==> p == x || s.contains(p),
    decreases s.len(),
{
    let t = pair_insert(s, x);
    if s.len() == 0 {
        assert(t[0] == x);
    } else if s.last() == x {
        assert(t[t.len() - 1] == x);
    } else if pair_lt(s.last(), x) {
        assert(t[t.len() - 1] == x);
        assert forall|i: int, j: int| 0 <= i < j < t.len() implies pair_lt(
            #[trigger] t[i],
            #[trigger] t[j],
        ) by {
            if j == s.len() && i < s.len() - 1 {
                assert(pair_lt(s[i], s[s.len() - 1]));
                pair_lt_is_transitive(s[i], s.last(), x);
            }
        }
        assert forall|p: Pair| #[trigger] t.contains(p) implies p == x || s.contains(p) by {
            let k = choose|k: int| 0 <= k < t.len() && t[k] == p;
            if k < s.len() {
                assert(s[k] == p);
            }
        }
        assert forall|p: Pair| s.contains(p) implies #[trigger] t.contains(p) by {
            let k = choose|k: int| 0 <= k < s.len() && s[k] == p;
            assert(t[k] == p);
        }
    } else {
        let r = s.drop_last();
        pair_lt_is_total(s.last(), x);
        law_pair_insert_keeps_order(r, x);
        let u = pair_insert(r, x);
        let w = choose|w: int| 0 <= w < u.len() && u[w] == x;
        assert(t[w] == x);
        assert forall|i: int, j: int| 0 <= i < j < t.len() implies pair_lt(
            #[trigger] t[i],
            #[trigger] t[j],
        ) by {
            if j == u.len() {
                assert(u.contains(u[i]));
                if u[i] != x {
                    let m = choose|m: int| 0 <= m < r.len() && r[m] == u[i];
                    assert(pair_lt(s[m], s[s.len() - 1]));
                }
            } else {
                assert(pair_lt(u[i], u[j]));
            }
        }
        assert forall|p: Pair| #[trigger] t.contains(p) implies p == x || s.contains(p) by {
            let k = choose|k: int| 0 <= k < t.len() && t[k] == p;
            if k < u.len() {
                assert(u.contains(p));
                if p != x {
                    let m = choose|m: int| 0 <= m < r.len() && r[m] == p;
                    assert(s[m] == p);
                }
            } else {
                assert(s[s.len() - 1] == p);
            }
        }
        assert forall|p: Pair| s.contains(p) implies #[trigger] t.contains(p) by {
            let k = choose|k: int| 0 <= k < s.len() && s[k] == p;
            if k < r.len() {
                assert(r[k] == p);
                assert(u.contains(p));
                let m = choose|m: int| 0 <= m < u.len() && u[m] == p;
                assert(t[m] == p);
            } else {
                assert(t[u.len() as int] == p);
            }
        }
    }
}

fn pair_before(a: &(String, String), label: &str, property: &str) -> (r: bool)
    ensures
        r == pair_lt(a.deep_view(), (label@, property@)),
{
    text::text_lt(a.0.as_str(), label) || (text::text_eq(a.0.as_str(), label) && text::text_lt(
        a.1.as_str(),
        property,
    ))
}

fn insert_pair(v: &mut Vec<(String, String)>, label: &str, property: &str)
    ensures
        final(v).deep_view() == pair_insert(old(v).deep_view(), (label@, property@)),
{
    let ghost s = v.deep_view();
    let ghost x = (label@, property@);
    let mut p: usize = v.len();
    proof {
        assert(s.take(p as int) =~= s);
        assert(s.skip(p as int) =~= Seq::<Pair>::empty());
        assert(pair_insert(s, x) + s.skip(p as int) =~= pair_insert(s, x));
    }
    while p > 0
        invariant
            0 <= p <= v@.len(),
            s == v.deep_view(),
            s == old(v).deep_view(),
            x == (label@, property@),
            v@ == old(v)@,
            pair_insert(s, x) == pair_insert(s.take(p as int), x) + s.skip(p as int),
        decreases p,
    {
        proof {
            assert(s[p - 1] == v@[p - 1].deep_view());
            assert(s.take(p as int).last() == s[p - 1]);
            assert(s.take(p as int).drop_last() =~= s.take(p - 1));
        }
        let last = &v[p - 1];
        if text::text_eq(last.0.as_str(), label) && text::text_eq(last.1.as_str(), property) {
            assert(s.take(p as int) + s.skip(p as int) =~= s);
            return;
        }
        if pair_before(last, label, property) {
            let ghost want = s.take(p as int).push(x) + s.skip(p as int);
            v.insert(p, (label.to_owned(), property.to_owned()));
            assert(v.deep_view() =~= want);
            return;
        }
        proof {
            assert(pair_insert(s.take(p - 1), x).push(s[p - 1]) + s.skip(p as int) =~= pair_insert(
                s.take(p - 1),
                x,
            ) + s.skip(p - 1));
        }
        p -= 1;
    }
    v.insert(0, (label.to_owned(), property.to_owned()));
    proof {
        assert(s.take(0) =~= Seq::<Pair>::empty());
        assert(s.skip(0) =~= s);
        assert(v.deep_view() =~= seq![x] + s);
    }
}

/// The indexes of the keys of entities.
pub open spec fn key_indexes(entities: Seq<EntityGraphModel>) -> Seq<Pair>
    decreases entities.len(),
{
    if entities.len() == 0 {
        Seq::empty()
    } else {
        let before = key_indexes(entities.drop_last());
        match entities.last().primary_key {
            Some(PrimaryKeyModel::Strict(field)) => pair_insert(
                before,
                (entities.last().kind, field),
            ),
            _ => before,
        }
    }
}

/// More indexes.
pub open spec fn with_configured(s: Seq<Pair>, configured: Seq<IndexSpecModel>) -> Seq<Pair>
    decreases configured.len(),
{
    if configured.len() == 0 {
        s
    } else {
        pair_insert(
            with_configured(s, configured.drop_last()),
            (configured.last().label, configured.last().property),
        )
    }
}

/// The indexes to have before data is loaded: those of keys, and those that are
/// configured.
pub open spec fn wanted_indexes(
    entities: Seq<EntityGraphModel>,
    configured: Seq<IndexSpecModel>,
) -> Seq<Pair> {
    with_configured(key_indexes(entities), configured)
}

proof fn key_indexes_are_sorted(entities: Seq<EntityGraphModel>)
    ensures
        pairs_sorted(key_indexes(entities)),
    decreases entities.len(),
{
    if entities.len() > 0 {
        key_indexes_are_sorted(entities.drop_last());
        if let Some(PrimaryKeyModel::Strict(field)) = entities.last().primary_key {
            law_pair_insert_keeps_order(
                key_indexes(entities.drop_last()),
                (entities.last().kind, field),
            );
        }
    }
}

/// No index is made twice.
pub proof fn law_indexes_are_distinct(
    entities: Seq<EntityGraphModel>,
    configured: Seq<IndexSpecModel>,
)
    ensures
        pairs_sorted(wanted_indexes(entities, configured)),
    decreases configured.len(),
{
    if configured.len() == 0 {
        key_indexes_are_sorted(entities);
    } else {
        law_indexes_are_distinct(entities, configured.drop_last());
        law_pair_insert_keeps_order(
            wanted_indexes(entities, configured.drop_last()),
            (configured.last().label, configured.last().property),
        );
    }
}

/// The statement that makes an index.
pub open spec fn index_statement(x: Pair) -> CypherQueryModel {
    CypherQueryModel {
        text: "CREATE INDEX ON :"@ + x.0 + "("@ + x.1 + ")"@,
        params: cypher::no_params(),
    }
}

/// The statements that are run for indexes, and the complaint about the first that
/// cannot be written.
pub struct IndexPlanModel {
    pub statements: Seq<CypherQueryModel>,
    pub error: Option<Seq<char>>,
}

/// Indexes are made in order, up to the first that has no valid names.
pub open spec fn index_plan_of(indexes: Seq<Pair>) -> IndexPlanModel
    decreases indexes.len(),
{
    if indexes.len() == 0 {
        IndexPlanModel { statements: Seq::empty(), error: None }
    } else {
        let before = index_plan_of(indexes.drop_last());
        let x = indexes.last();
        if before.error is Some {
            before
        } else if !text::is_identifier(x.0) || !text::is_identifier(x.1) {
            IndexPlanModel {
                error: Some("invalid e2e index `"@ + x.0 + "."@ + x.1 + "`"@),
                ..before
            }
        } else {
            IndexPlanModel { statements: before.statements.push(index_statement(x)), ..before }
        }
    }
}

/// The statements that are run for indexes, and the complaint about the first that
/// cannot be written.
#[derive(Debug, PartialEq)]
pub struct IndexPlan {
    pub statements: Vec<CypherQuery>,
    pub error: Option<String>,
}

impl DeepView for IndexPlan {
    type V = IndexPlanModel;

    open spec fn deep_view(&self) -> IndexPlanModel {
        IndexPlanModel {
            statements: self.statements.deep_view(),
            error: self.error.deep_view(),
        }
    }
}

proof fn index_plan_stays_broken(indexes: Seq<Pair>, n: int)
    requires
        0 <= n <= indexes.len(),
        index_plan_of(indexes.take(n)).error is Some,
    ensures
        index_plan_of(indexes) == index_plan_of(indexes.take(n)),
    decreases indexes.len() - n,
{
    if n < indexes.len() {
        assert(indexes.take(n + 1).drop_last() =~= indexes.take(n));
        index_plan_stays_broken(indexes, n + 1);
    } else {
        assert(indexes.take(n) =~= indexes);
    }
}

/// What is run so that the indexes are there.
pub fn index_plan(graph: &Graph, configured: &Vec<IndexSpec>) -> (r: IndexPlan)
    ensures
        r.deep_view() == index_plan_of(
            wanted_indexes(graph.deep_view().entities, configured.deep_view()),
        ),
{
    let ghost entities = graph.deep_view().entities;
    let ghost extra = configured.deep_view();
    let mut pairs: Vec<(String, String)> = seqs::no_items();
    let list = graph.entities();
    let mut i: usize = 0;
    while i < list.len()
        invariant
            entities == list.deep_view(),
            0 <= i <= list@.len(),
            pairs.deep_view() == key_indexes(entities.take(i as int)),
        decreases list@.len() - i,
    {
        proof {
            assert(entities.take(i + 1).drop_last() =~= entities.take(i as int));
            assert(entities.take(i + 1).last() == list@[i as int].deep_view());
        }
        if let Some(PrimaryKey::Strict(field)) = &list[i].primary_key {
            insert_pair(&mut pairs, list[i].kind.as_str(), field.as_str());
        }
        i += 1;
    }
    assert(entities.take(i as int) =~= entities);
    let mut i: usize = 0;
    while i < configured.len()
        invariant
            extra == configured.deep_view(),
            0 <= i <= configured@.len(),
            pairs.deep_view() == with_configured(key_indexes(entities), extra.take(i as int)),
        decreases configured@.len() - i,
    {
        proof {
            assert(extra.take(i + 1).drop_last() =~= extra.take(i as int));
            assert(extra.take(i + 1).last() == configured@[i as int].deep_view());
        }
        insert_pair(&mut pairs, configured[i].label.as_str(), configured[i].property.as_str());
        i += 1;
    }
    assert(extra.take(i as int) =~= extra);
    let ghost all = pairs.deep_view();
    let mut statements: Vec<CypherQuery> = seqs::no_items();
    let mut i: usize = 0;
    while i < pairs.len()
        invariant
            all == pairs.deep_view(),
            all == wanted_indexes(graph.deep_view().entities, configured.deep_view()),
            0 <= i <= pairs@.len(),
            statements.deep_view() == index_plan_of(all.take(i as int)).statements,
            index_plan_of(all.take(i as int)).error is None,
        decreases pairs@.len() - i,
    {
        proof {
            assert(all.take(i + 1).drop_last() =~= all.take(i as int));
            assert(all.take(i + 1).last() == pairs@[i as int].deep_view());
        }
        let label = pairs[i].0.as_str();
        let property = pairs[i].1.as_str();
        if !text::identifier(label) || !text::identifier(property) {
            let mut e = "invalid e2e index `".to_owned();
            e.append(label);
            e.append(".");
            e.append(property);
            e.append("`");
            proof {
                index_plan_stays_broken(all, i + 1);
            }
            return IndexPlan { statements, error: Some(e) };
        }
        let mut s = "CREATE INDEX ON :".to_owned();
        s.append(label);
        s.append("(");
        s.append(property);
        s.append(")");
        seqs::push_item(&mut statements, CypherQuery::new(s, StrMap::new()));
        i += 1;
    }
    assert(all.take(i as int) =~= all);
    IndexPlan { statements, error: None }
}

/// How many nodes a cleanup takes at once.
pub const CLEANUP_BATCH_SIZE: usize = 1000;

/// The query that removes some of what stands under a prefix, with its vectors or
/// without.
pub open spec fn cleanup_text(prefix: Seq<char>, vectors: bool) -> Seq<char> {
    "MATCH (n:"@ + prefix + ") WITH n LIMIT "@ + text::nat_text(CLEANUP_BATCH_SIZE as nat) + (
    if vectors {
        " WITH collect(id(n)) AS ids CALL libqlink.delete_batch_all(ids) YIELD success, collections WITH ids MATCH (n) WHERE id(n) IN ids DETACH DELETE n RETURN size(ids) AS nodes"@
    } else {
        " DETACH DELETE n RETURN count(*) AS nodes"@
    })
}

/// The query that removes some of what stands under a prefix.
pub fn cleanup_query(prefix: &str, vectors: bool) -> (r: CypherQuery)
    ensures
        r.deep_view() == (CypherQueryModel {
            text: cleanup_text(prefix@, vectors),
            params: cypher::no_params(),
        }),
{
    let mut s = "MATCH (n:".to_owned();
    s.append(prefix);
    s.append(") WITH n LIMIT ");
    s.append(text::usize_text(CLEANUP_BATCH_SIZE).as_str());
    if vectors {
        s.append(
            " WITH collect(id(n)) AS ids CALL libqlink.delete_batch_all(ids) YIELD success, collections WITH ids MATCH (n) WHERE id(n) IN ids DETACH DELETE n RETURN size(ids) AS nodes",
        );
    } else {
        s.append(" DETACH DELETE n RETURN count(*) AS nodes");
    }
    CypherQuery::new(s, StrMap::new())
}

/// The whole part of a number in a cell, or in the text of one; what is below
/// zero counts as nothing. `parsed` is what a text reads as.
pub open spec fn whole_part(cell: Option<DbValueModel>, parsed: Option<FloatModel>) -> int {
    match cell {
        Some(DbValueModel::Int(i)) => i as int,
        Some(DbValueModel::Float(f)) => f.truncated as int,
        Some(DbValueModel::Json(JsonModel::Number(NumberModel::Int(i)))) => i as int,
        Some(DbValueModel::Json(JsonModel::Number(NumberModel::Big(i, _)))) => i as int,
        Some(DbValueModel::Json(JsonModel::Number(NumberModel::Float(f)))) => f.truncated as int,
        Some(DbValueModel::Str(_)) => match parsed {
            Some(f) => f.truncated as int,
            None => 0,
        },
        _ => 0,
    }
}

/// The first cell of the column that counts nodes.
pub open spec fn counted_nodes(result: QueryResultModel) -> Option<DbValueModel> {
    if result.rows.len() == 0 {
        None
    } else {
        db::cell(result.rows[0], "nodes"@)
    }
}

/// Is there more to clean up? A batch that removed nothing is the last.
pub fn cleanup_goes_on(result: &QueryResult, parsed: Option<&Float>) -> (r: bool)
    ensures
        r == (whole_part(counted_nodes(result.deep_view()), parsed.deep_view()) > 0),
{
    assert(result.deep_view().rows.len() == result.rows@.len());
    if result.rows.len() == 0 {
        return false;
    }
    assert(result.deep_view().rows[0] == result.rows@[0].deep_view());
    match result.rows[0].fields.get("nodes") {
        Some(DbValue::Int(i)) => *i > 0,
        Some(DbValue::Float(f)) => f.truncated > 0,
        Some(DbValue::Json(Json::Number(JsonNumber::Int(i)))) => *i > 0,
        Some(DbValue::Json(Json::Number(JsonNumber::Big(i, _)))) => *i > 0,
        Some(DbValue::Json(Json::Number(JsonNumber::Float(f)))) => f.truncated > 0,
        Some(DbValue::String(_)) => match parsed {
            Some(f) => f.truncated > 0,
            None => false,
        },
        _ => false,
    }
}

/// How many cases passed.
pub open spec fn passed_count(cases: Seq<E2eCaseReportModel>) -> nat
    decreases cases.len(),
{
    if cases.len() == 0 {
        0
    } else {
        passed_count(cases.drop_last()) + if cases.last().passed {
            1nat
        } else {
            0nat
        }
    }
}

proof fn passed_count_is_bounded(cases: Seq<E2eCaseReportModel>)
    ensures
        passed_count(cases) <= cases.len(),
    decreases cases.len(),
{
    if cases.len() > 0 {
        passed_count_is_bounded(cases.drop_last());
    }
}

/// Where a run reads from.
#[derive(Debug, PartialEq)]
pub struct SuitePaths {
    pub graph: String,
    pub ontology: String,
    pub questions: String,
}

pub struct SuitePathsModel {
    pub graph: Seq<char>,
    pub ontology: Seq<char>,
    pub questions: Seq<char>,
}

impl DeepView for SuitePaths {
    type V = SuitePathsModel;

    open spec fn deep_view(&self) -> SuitePathsModel {
        SuitePathsModel {
            graph: self.graph@,
            ontology: self.ontology@,
            questions: self.questions@,
        }
    }
}

/// The report of a run.
pub open spec fn report_of(
    suite: Seq<char>,
    prefix: Seq<char>,
    paths: SuitePathsModel,
    include_embeddings: bool,
    cases: Seq<E2eCaseReportModel>,
) -> E2eReportModel {
    E2eReportModel {
        suite,
        prefix_label: prefix,
        prefix_index: prefix,
        graph_path: paths.graph,
        ontology_path: paths.ontology,
        questions_path: paths.questions,
        total: cases.len() as usize,
        passed: passed_count(cases) as usize,
        failed: (cases.len() - passed_count(cases)) as usize,
        include_embeddings_in_report: include_embeddings,
        cases,
    }
}

/// The report of a run.
pub fn suite_report(
    suite: String,
    prefix: String,
    paths: SuitePaths,
    include_embeddings: bool,
    cases: Vec<E2eCaseReport>,
) -> (r: E2eReport)
    ensures
        r.deep_view() == report_of(
            suite@,
            prefix@,
            paths.deep_view(),
            include_embeddings,
            cases.deep_view(),
        ),
        r.total == cases@.len(),
        r.passed + r.failed == r.total,
        r.passed == passed_count(cases.deep_view()),
{
    let ghost all = cases.deep_view();
    let mut passed: usize = 0;
    let mut i: usize = 0;
    while i < cases.len()
        invariant
            all == cases.deep_view(),
            0 <= i <= cases@.len(),
            passed == passed_count(all.take(i as int)),
            passed <= i,
        decreases cases@.len() - i,
    {
        proof {
            assert(all.take(i + 1).drop_last() =~= all.take(i as int));
            assert(all.take(i + 1).last() == cases@[i as int].deep_view());
        }
        if cases[i].passed {
            passed += 1;
        }
        i += 1;
    }
    assert(all.take(i as int) =~= all);
    let total = cases.len();
    E2eReport {
        suite,
        prefix_label: prefix.clone(),
        prefix_index: prefix,
        graph_path: paths.graph,
        ontology_path: paths.ontology,
        questions_path: paths.questions,
        total,
        passed,
        failed: total - passed,
        include_embeddings_in_report: include_embeddings,
        cases,
    }
}

/// A run is a success exactly when every case passed.
pub proof fn law_success_means_all_passed(
    suite: Seq<char>,
    prefix: Seq<char>,
    paths: SuitePathsModel,
    include_embeddings: bool,
    cases: Seq<E2eCaseReportModel>,
)
    requires
        cases.len() <= usize::MAX,
    ensures
        types::succeeded(report_of(suite, prefix, paths, include_embeddings, cases)) <==> forall|
            i: int,
        | 0 <= i < cases.len() ==> (#[trigger] cases[i]).passed,
{
    all_passed_counts(cases);
    passed_count_is_bounded(cases);
}

proof fn all_passed_counts(cases: Seq<E2eCaseReportModel>)
    ensures
        passed_count(cases) == cases.len() <==> forall|i: int|
            0 <= i < cases.len() ==> (#[trigger] cases[i]).passed,
    decreases cases.len(),
{
    if cases.len() > 0 {
        let rest = cases.drop_last();
        all_passed_counts(rest);
        passed_count_is_bounded(rest);
        if passed_count(cases) == cases.len() {
            assert forall|i: int| 0 <= i < cases.len() implies (#[trigger] cases[i]).passed by {
                if i < rest.len() {
                    assert(rest[i].passed);
                }
            }
        }
        if forall|i: int| 0 <= i < cases.len() ==> (#[trigger] cases[i]).passed {
            assert forall|i: int| 0 <= i < rest.len() implies (#[trigger] rest[i]).passed by {
                assert(cases[i].passed);
            }
            assert(cases[cases.len() - 1].passed);
        }
    }
}

/// The options of a run come before the settings of the suite: the prefix, the model and its
/// address where they are given, and the rest likewise. Data that is to be kept is not cleaned
/// up afterwards, whatever else is said. No other setting changes.
pub proof fn law_options_come_first(s: SuiteSettingsModel, o: E2eRunOptionsModel)
    ensures
        ({
            let r = overridden(s, o);
            &&& o.prefix is Some ==> r.prefix == o.prefix
            &&& o.prefix is None ==> r.prefix == s.prefix
            &&& o.llm_base_url is Some ==> r.llm_base_url == o.llm_base_url
            &&& o.llm_base_url is None ==> r.llm_base_url == s.llm_base_url
            &&& o.llm_model is Some ==> r.llm_model == o.llm_model
            &&& o.llm_model is None ==> r.llm_model == s.llm_model
            &&& o.keep_data ==> !r.cleanup_after
            &&& !o.keep_data && o.cleanup_after is Some ==> r.cleanup_after == o.cleanup_after->0
            &&& !o.keep_data && o.cleanup_after is None ==> r.cleanup_after == s.cleanup_after
            &&& o.include_embeddings_in_report is Some ==> r.include_embeddings_in_report
                == o.include_embeddings_in_report->0
            &&& o.include_embeddings_in_report is None ==> r.include_embeddings_in_report
                == s.include_embeddings_in_report
            &&& r.cleanup_before == s.cleanup_before
            &&& r.cleanup_vectors == s.cleanup_vectors
            &&& r.answer_with_llm == s.answer_with_llm
        }),
{
}

/// The cases of an id are all of those that have it, in their order and as often as they are
/// there; without an id they are all cases.
pub proof fn law_chosen_cases_are_all(
    cases: Seq<QuestionCaseModel>,
    id: Seq<char>,
    path: Seq<char>,
)
    ensures
        cases_of(cases, id) == cases.filter(|c: QuestionCaseModel| c.id == id),
        chosen_cases(cases, None, path) == Ok::<Seq<QuestionCaseModel>, Seq<char>>(cases),
        chosen_cases(cases, Some(id), path) is Err <==> forall|i: int|
            0 <= i < cases.len() ==> (#[trigger] cases[i]).id != id,
    decreases cases.len(),
{
    reveal(Seq::filter);
    if cases.len() > 0 {
        let rest = cases.drop_last();
        law_chosen_cases_are_all(rest, id, path);
        if cases_of(cases, id).len() == 0 {
            assert forall|i: int| 0 <= i < cases.len() implies (#[trigger] cases[i]).id != id by {
                if i < rest.len() {
                    assert(rest[i] == cases[i]);
                }
            }
        } else if cases_of(rest, id).len() > 0 {
            let i = choose|i: int| 0 <= i < rest.len() && (#[trigger] rest[i]).id == id;
            assert(cases[i].id == id);
        } else {
            assert(cases[cases.len() - 1].id == id);
        }
    }
}

proof fn passed_are_counted(cases: Seq<E2eCaseReportModel>)
    ensures
        passed_count(cases) == cases.filter(|c: E2eCaseReportModel| c.passed).len(),
        passed_count(cases) <= cases.len(),
    decreases cases.len(),
{
    reveal(Seq::filter);
    if cases.len() > 0 {
        passed_are_counted(cases.drop_last());
    }
}

/// A report counts its cases: all of them, those that passed, and the rest as failed. It tells
/// the suite, the prefix, the paths and the cases as they are.
pub proof fn law_reports_count_their_cases(
    suite: Seq<char>,
    prefix: Seq<char>,
    paths: SuitePathsModel,
    include_embeddings: bool,
    cases: Seq<E2eCaseReportModel>,
)
    requires
        cases.len() <= usize::MAX,
    ensures
        ({
            let r = report_of(suite, prefix, paths, include_embeddings, cases);
            &&& r.total == cases.len()
            &&& r.passed == cases.filter(|c: E2eCaseReportModel| c.passed).len()
            &&& r.passed + r.failed == r.total
            &&& r.cases == cases
            &&& r.suite == suite && r.prefix_label == prefix && r.prefix_index == prefix
            &&& r.graph_path == paths.graph && r.ontology_path == paths.ontology
                && r.questions_path == paths.questions
        }),
{
    passed_are_counted(cases);
}

proof fn key_index_is_of_an_entity(entities: Seq<EntityGraphModel>, x: Pair)
    ensures
        key_indexes(entities).contains(x) <==> exists|i: int|
            0 <= i < entities.len() && (#[trigger] entities[i]).kind == x.0
                && entities[i].primary_key == Some(PrimaryKeyModel::Strict(x.1)),
    decreases entities.len(),
{
    if entities.len() > 0 {
        let rest = entities.drop_last();
        let e = entities.last();
        key_index_is_of_an_entity(rest, x);
        key_indexes_are_sorted(rest);
        if let Some(PrimaryKeyModel::Strict(field)) = e.primary_key {
            law_pair_insert_keeps_order(key_indexes(rest), (e.kind, field));
        }
        if key_indexes(rest).contains(x) {
            let i = choose|i: int|
                0 <= i < rest.len() && (#[trigger] rest[i]).kind == x.0 && rest[i].primary_key
                    == Some(PrimaryKeyModel::Strict(x.1));
            assert(entities[i].kind == x.0);
        }
        if exists|i: int|
            0 <= i < entities.len() && (#[trigger] entities[i]).kind == x.0
                && entities[i].primary_key == Some(PrimaryKeyModel::Strict(x.1)) {
            let i = choose|i: int|
                0 <= i < entities.len() && (#[trigger] entities[i]).kind == x.0
                    && entities[i].primary_key == Some(PrimaryKeyModel::Strict(x.1));
            if i < rest.len() {
                assert(rest[i].kind == x.0);
            }
        }
        assert(entities[entities.len() - 1] == e);
    }
}

/// An index is wanted for the key of every entity type with a key of its own, and for every
/// pair that is configured, and for nothing else.
pub proof fn law_indexes_are_the_wanted(
    entities: Seq<EntityGraphModel>,
    configured: Seq<IndexSpecModel>,
    x: Pair,
)
    ensures
        wanted_indexes(entities, configured).contains(x) <==> (exists|i: int|
            0 <= i < entities.len() && (#[trigger] entities[i]).kind == x.0
                && entities[i].primary_key == Some(PrimaryKeyModel::Strict(x.1))) || (exists|i: int|
            0 <= i < configured.len() && (#[trigger] configured[i]).label == x.0
                && configured[i].property == x.1),
    decreases configured.len(),
{
    if configured.len() == 0 {
        key_index_is_of_an_entity(entities, x);
    } else {
        let rest = configured.drop_last();
        let c = configured.last();
        law_indexes_are_the_wanted(entities, rest, x);
        law_indexes_are_distinct(entities, rest);
        law_pair_insert_keeps_order(wanted_indexes(entities, rest), (c.label, c.property));
        assert(configured[configured.len() - 1] == c);
        if exists|i: int|
            0 <= i < rest.len() && (#[trigger] rest[i]).label == x.0 && rest[i].property == x.1 {
            let i = choose|i: int|
                0 <= i < rest.len() && (#[trigger] rest[i]).label == x.0 && rest[i].property == x.1;
            assert(configured[i].label == x.0);
        }
        if exists|i: int|
            0 <= i < configured.len() && (#[trigger] configured[i]).label == x.0
                && configured[i].property == x.1 {
            let i = choose|i: int|
                0 <= i < configured.len() && (#[trigger] configured[i]).label == x.0
                    && configured[i].property == x.1;
            if i < rest.len() {
                assert(rest[i].label == x.0);
            }
        }
    }
}

/// Does a statement make the index of a label and a property, both of them identifiers?
pub open spec fn makes_index(q: CypherQueryModel, x: Pair) -> bool {
    &&& text::is_identifier(x.0)
    &&& text::is_identifier(x.1)
    &&& q.text == "CREATE INDEX ON :"@ + x.0 + "("@ + x.1 + ")"@
}

/// An index is made for each of the pairs, in their order, up to the first that is not made of
/// identifiers, which is an error.
pub proof fn law_index_plans_follow_the_pairs(indexes: Seq<Pair>)
    ensures
        ({
            let plan = index_plan_of(indexes);
            &&& plan.statements.len() <= indexes.len()
            &&& plan.error is None <==> plan.statements.len() == indexes.len()
            &&& plan.error is Some ==> ({
                let x = indexes[plan.statements.len() as int];
                !text::is_identifier(x.0) || !text::is_identifier(x.1)
            })
            &&& forall|i: int|
                0 <= i < plan.statements.len() ==> makes_index(
                    #[trigger] plan.statements[i],
                    indexes[i],
                )
        }),
    decreases indexes.len(),
{
    if indexes.len() == 0 {
        assert(index_plan_of(indexes).statements.len() == 0);
    } else {
        let rest = indexes.drop_last();
        law_index_plans_follow_the_pairs(rest);
        let before = index_plan_of(rest);
        let plan = index_plan_of(indexes);
        let k = plan.statements.len() as int;
        if before.error is Some {
            assert(rest[k] == indexes[k]);
        } else if plan.error is Some {
            assert(k == rest.len());
            assert(indexes[k] == indexes.last());
        }
        assert forall|i: int| 0 <= i < plan.statements.len() implies makes_index(
            #[trigger] plan.statements[i],
            indexes[i],
        ) by {
            if i < before.statements.len() {
                assert(plan.statements[i] == before.statements[i]);
                assert(rest[i] == indexes[i]);
                assert(makes_index(before.statements[i], rest[i]));
            }
        }
    }
}

/// The prefix of a run is made from the one in the settings, or else from the name of the suite and
/// the time; it has as many characters, but for a beginning where it would start with a digit, and
/// those that may stand in an identifier stay.
pub proof fn law_prefixes_are_of_the_suite(
    s: SuiteSettingsModel,
    suite: Seq<char>,
    millis: nat,
    i: int,
)
    ensures
        ({
            let raw = if s.prefix is Some {
                s.prefix->0
            } else {
                "E2E_"@ + suite + "_"@ + text::nat_text(millis)
            };
            let p = prefix_of(s, suite, millis);
            let head = p.len() - raw.len();
            &&& head == 0 || p == "E2E_"@ + p.skip(head)
            &&& 0 <= i < raw.len() && text::is_word(raw[i]) ==> p[head + i] == raw[i]
            &&& 0 <= i < raw.len() && !text::is_word(raw[i]) ==> p[head + i] == '_'
        }),
{
    let raw = if s.prefix is Some {
        s.prefix->0
    } else {
        "E2E_"@ + suite + "_"@ + text::nat_text(millis)
    };
    let p = prefix_of(s, suite, millis);
    let out = word_chars(raw);
    let head = p.len() - raw.len();
    if head != 0 {
        assert(p.skip(head) =~= out);
    }
}

/// What is cleaned up stands under the prefix: the query matches that label first.
pub proof fn law_cleanups_match_the_prefix(prefix: Seq<char>, vectors: bool)
    ensures
        text::has_prefix(cleanup_text(prefix, vectors), "MATCH (n:"@ + prefix + ") "@),
        text::has_substring(cleanup_text(prefix, vectors), "DETACH DELETE n"@),
{
    let t = cleanup_text(prefix, vectors);
    reveal_strlit(") ");
    reveal_strlit(") WITH n LIMIT ");
    reveal_strlit("DETACH DELETE n");
    let head = "MATCH (n:"@ + prefix + ") "@;
    assert(t.subrange(0, head.len() as int) =~= head);
    let d = "DETACH DELETE n"@;
    let a = "MATCH (n:"@ + prefix + ") WITH n LIMIT "@ + text::nat_text(CLEANUP_BATCH_SIZE as nat);
    if vectors {
        reveal_strlit(
            " WITH collect(id(n)) AS ids CALL libqlink.delete_batch_all(ids) YIELD success, collections WITH ids MATCH (n) WHERE id(n) IN ids DETACH DELETE n RETURN size(ids) AS nodes",
        );
        let at = a.len() + 129int;
        assert(t.subrange(at, at + d.len()) =~= d);
        assert(text::occurs_at(t, d, at));
    } else {
        reveal_strlit(" DETACH DELETE n RETURN count(*) AS nodes");
        let at = a.len() + 1int;
        assert(t.subrange(at, at + d.len()) =~= d);
        assert(text::occurs_at(t, d, at));
    }
}

/// Cleaning up goes by the count in the first row: a whole number counts as itself, a text as the
/// number that it reads as, and without a count nothing is left.
pub proof fn law_cleanups_go_by_the_count(
    result: QueryResultModel,
    i: i64,
    s: Seq<char>,
    parsed: Option<FloatModel>,
)
    ensures
        result.rows.len() == 0 ==> whole_part(counted_nodes(result), parsed) == 0,
        result.rows.len() > 0 && strmap::assoc_get(result.rows[0], "nodes"@) is None
            ==> whole_part(counted_nodes(result), parsed) == 0,
        result.rows.len() > 0 && strmap::assoc_get(result.rows[0], "nodes"@) == Some(
            DbValueModel::Int(i),
        ) ==> whole_part(counted_nodes(result), parsed) == i,
        result.rows.len() > 0 && strmap::assoc_get(result.rows[0], "nodes"@) == Some(
            DbValueModel::Str(s),
        ) ==> whole_part(counted_nodes(result), parsed) == (match parsed {
            Some(f) => f.truncated as int,
            None => 0,
        }),
{
}

} // verus!
