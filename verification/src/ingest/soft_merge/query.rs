//! Looking for similar nodes in the database, and reading what comes back.

use vstd::prelude::*;
use crate::cypher::CypherQuery;
use crate::cypher::CypherQueryModel;
use crate::db::DbValue;
use crate::db::DbValueModel;
use crate::db::QueryResult;
use crate::db::RowModel;
use crate::debug;
use crate::floats;
use crate::graph::canonical;
use crate::ingest::error;
use crate::ingest::error::IngestError;
use crate::ingest::error::IngestErrorModel;
use crate::json;
use crate::json::Float;
use crate::json::FloatModel;
use crate::json::Json;
use crate::json::JsonModel;
use crate::json::JsonNumber;
use crate::json::NumberModel;
use crate::literal;
use crate::literal::Literal;
use crate::literal::LiteralModel;
use crate::seqs;
use crate::seqs::Copied;
use crate::strmap;
use crate::strmap::StrMap;
use crate::text;

verus! {

broadcast use vstd::string::group_string_axioms;

/// An entity to be merged, with the numbers of its embedding.
#[derive(Debug, PartialEq)]
pub struct EmbeddedCandidate {
    pub entity_index: usize,
    pub vec: Vec<Float>,
}

pub struct EmbeddedCandidateModel {
    pub entity_index: usize,
    pub vec: Seq<FloatModel>,
}

impl DeepView for EmbeddedCandidate {
    type V = EmbeddedCandidateModel;

    open spec fn deep_view(&self) -> EmbeddedCandidateModel {
        EmbeddedCandidateModel {
            entity_index: self.entity_index,
            vec: self.vec.deep_view(),
        }
    }
}

/// A similar node: its id, the bits of its score, its canonical text and its
/// properties.
#[derive(Debug, PartialEq)]
pub struct Hit {
    pub id: i64,
    pub score: u64,
    pub canonical: String,
    pub props: StrMap<Json>,
}

pub struct HitModel {
    pub id: i64,
    pub score: u64,
    pub canonical: Seq<char>,
    pub props: Seq<(Seq<char>, JsonModel)>,
}

impl DeepView for Hit {
    type V = HitModel;

    open spec fn deep_view(&self) -> HitModel {
        HitModel {
            id: self.id,
            score: self.score,
            canonical: self.canonical@,
            props: self.props.deep_view(),
        }
    }
}

impl Copied for Hit {
    fn copied(&self) -> (r: Self) {
        Hit {
            id: self.id,
            score: self.score,
            canonical: self.canonical.clone(),
            props: self.props.copied(),
        }
    }
}

/// The letters, digits and underscores of a text.
pub open spec fn word_part(s: Seq<char>) -> Seq<char>
    decreases s.len(),
{
    if s.len() == 0 {
        Seq::empty()
    } else if text::is_word(s.last()) {
        word_part(s.drop_last()).push(s.last())
    } else {
        word_part(s.drop_last())
    }
}

/// A name that can be written into a query: an identifier as it is, of anything
/// else the letters, digits and underscores.
pub open spec fn safe_name(s: Seq<char>) -> Seq<char> {
    if text::is_identifier(s) {
        s
    } else {
        word_part(s)
    }
}

proof fn word_part_is_words(s: Seq<char>)
    ensures
        forall|i: int| 0 <= i < word_part(s).len() ==> text::is_word(#[trigger] word_part(s)[i]),
    decreases s.len(),
{
    if s.len() > 0 {
        let rest = word_part(s.drop_last());
        word_part_is_words(s.drop_last());
        assert forall|i: int| 0 <= i < word_part(s).len() implies text::is_word(
            #[trigger] word_part(s)[i],
        ) by {
            if i < rest.len() {
                assert(word_part(s)[i] == rest[i]);
            }
        }
    }
}

/// A name that is written into a query holds nothing but letters, digits and
/// underscores.
pub proof fn law_safe_names_are_words(s: Seq<char>)
    ensures
        forall|i: int| 0 <= i < safe_name(s).len() ==> text::is_word(#[trigger] safe_name(s)[i]),
{
    word_part_is_words(s);
}

/// A name that can be written into a query.
pub fn sanitize_ident(s: &str) -> (r: String)
    ensures
        r@ == safe_name(s@),
{
    if text::identifier(s) {
        return s.to_owned();
    }
    let cs = text::chars_of(s);
    let mut out = String::new();
    let mut i: usize = 0;
    while i < cs.len()
        invariant
            cs@ == s@,
            0 <= i <= cs@.len(),
            out@ == word_part(s@.take(i as int)),
        decreases cs@.len() - i,
    {
        let c = cs[i];
        proof {
            assert(s@.take(i + 1).drop_last() =~= s@.take(i as int));
            assert(s@.take(i + 1).last() == c);
        }
        if text::word_char(c) {
            out.push(c);
        }
        i += 1;
    }
    assert(s@.take(i as int) =~= s@);
    out
}

/// Numbers as literals.
pub open spec fn float_literals(v: Seq<FloatModel>) -> Seq<LiteralModel> {
    v.map_values(|f: FloatModel| LiteralModel::Float(f))
}

fn float_list(v: &Vec<Float>) -> (r: Literal)
    ensures
        r.deep_view() == LiteralModel::List(float_literals(v.deep_view())),
{
    let ghost want = float_literals(v.deep_view());
    let mut out: Vec<Literal> = seqs::no_items();
    let mut i: usize = 0;
    while i < v.len()
        invariant
            want == float_literals(v.deep_view()),
            0 <= i <= v@.len(),
            out.deep_view() == want.take(i as int),
        decreases v@.len() - i,
    {
        assert(v.deep_view()[i as int] == v@[i as int].deep_view());
        seqs::push_item(&mut out, Literal::Float(v[i].copy()));
        i += 1;
        assert(out.deep_view() =~= want.take(i as int));
    }
    assert(out.deep_view() =~= want);
    proof {
        literal::literal_list_model(out);
    }
    Literal::List(out)
}

pub open spec fn no_entries() -> Seq<(Seq<char>, LiteralModel)> {
    Seq::empty()
}

/// One row of the search: the place of the entity, and its vector.
pub open spec fn search_row(c: EmbeddedCandidateModel) -> LiteralModel {
    LiteralModel::Object(
        strmap::assoc_insert(
            strmap::assoc_insert(
                no_entries(),
                "idx"@,
                LiteralModel::Int(c.entity_index as i64),
            ),
            "vec"@,
            LiteralModel::List(float_literals(c.vec)),
        ),
    )
}

/// The rows of the search.
pub open spec fn search_rows(group: Seq<EmbeddedCandidateModel>) -> Seq<LiteralModel> {
    Seq::new(group.len(), |i: int| search_row(group[i]))
}

/// The text of the search. For each row it keeps every hit at or above the
/// threshold, best first, with its canonical text and its properties.
pub open spec fn search_text(label: Seq<char>, field: Seq<char>) -> Seq<char> {
    "UNWIND $rows AS row\nCALL libqlink.search_labeled([$coll], row.vec, $top_k, $label) YIELD id AS hit_id, score AS hit_score\nWITH row, hit_id, hit_score\nWHERE hit_score >= $threshold\nMATCH (n:"@
        + label
        + ") WHERE id(n) = hit_id\nWITH row, hit_score, hit_id, n."@ + field
        + " AS canonical, properties(n) AS props\nORDER BY hit_score DESC\nWITH row.idx AS idx, collect({id: hit_id, score: hit_score, canonical: canonical, props: props}) AS hits\nRETURN idx, hits"@
}

/// The search for nodes that are similar to a group of entities.
pub open spec fn search_query(
    collection: Seq<char>,
    label: Seq<char>,
    field: Seq<char>,
    top_k: u32,
    threshold: FloatModel,
    group: Seq<EmbeddedCandidateModel>,
) -> CypherQueryModel {
    let name = safe_name(label);
    let params = strmap::assoc_insert(no_entries(), "coll"@, LiteralModel::Str(collection));
    let params = strmap::assoc_insert(params, "label"@, LiteralModel::Str(name));
    let params = strmap::assoc_insert(params, "rows"@, LiteralModel::List(search_rows(group)));
    let params = strmap::assoc_insert(params, "top_k"@, LiteralModel::Int(top_k as i64));
    let params = strmap::assoc_insert(params, "threshold"@, LiteralModel::Float(threshold));
    CypherQueryModel { text: search_text(name, safe_name(field)), params }
}

/// The search for nodes that are similar to a group of entities.
pub fn build_search_query(
    collection: &str,
    label: &str,
    field: &str,
    top_k: u32,
    threshold: &Float,
    group: &Vec<EmbeddedCandidate>,
) -> (r: CypherQuery)
    requires
        forall|i: int|
            0 <= i < group@.len() ==> (#[trigger] group@[i]).entity_index <= i64::MAX,
    ensures
        r.deep_view() == search_query(
            collection@,
            label@,
            field@,
            top_k,
            threshold.deep_view(),
            group.deep_view(),
        ),
{
    let name = sanitize_ident(label);
    let key = sanitize_ident(field);
    let ghost want = search_rows(group.deep_view());
    let mut rows: Vec<Literal> = seqs::no_items();
    let mut i: usize = 0;
    while i < group.len()
        invariant
            want == search_rows(group.deep_view()),
            want.len() == group@.len(),
            0 <= i <= group@.len(),
            forall|i: int|
                0 <= i < group@.len() ==> (#[trigger] group@[i]).entity_index <= i64::MAX,
            rows.deep_view() == want.take(i as int),
        decreases group@.len() - i,
    {
        assert(group.deep_view()[i as int] == group@[i as int].deep_view());
        assert(group@[i as int].entity_index <= i64::MAX);
        let mut row: StrMap<Literal> = StrMap::new();
        row.insert("idx".to_owned(), Literal::Int(group[i].entity_index as i64));
        row.insert("vec".to_owned(), float_list(&group[i].vec));
        proof {
            literal::literal_object_model(row);
        }
        seqs::push_item(&mut rows, Literal::Object(row));
        i += 1;
        assert(rows.deep_view() =~= want.take(i as int));
    }
    assert(rows.deep_view() =~= want);
    proof {
        literal::literal_list_model(rows);
    }
    let mut params: StrMap<Literal> = StrMap::new();
    params.insert("coll".to_owned(), Literal::String(collection.to_owned()));
    params.insert("label".to_owned(), Literal::String(name.clone()));
    params.insert("rows".to_owned(), Literal::List(rows));
    params.insert("top_k".to_owned(), Literal::Int(top_k as i64));
    params.insert("threshold".to_owned(), Literal::Float(threshold.copy()));
    let mut s =
        "UNWIND $rows AS row\nCALL libqlink.search_labeled([$coll], row.vec, $top_k, $label) YIELD id AS hit_id, score AS hit_score\nWITH row, hit_id, hit_score\nWHERE hit_score >= $threshold\nMATCH (n:".to_owned();
    s.append(name.as_str());
    s.append(") WHERE id(n) = hit_id\nWITH row, hit_score, hit_id, n.");
    s.append(key.as_str());
    s.append(
        " AS canonical, properties(n) AS props\nORDER BY hit_score DESC\nWITH row.idx AS idx, collect({id: hit_id, score: hit_score, canonical: canonical, props: props}) AS hits\nRETURN idx, hits",
    );
    CypherQuery::new(s, params)
}

/// The whole number in a cell.
pub open spec fn whole_number(v: DbValueModel) -> Option<i64> {
    match v {
        DbValueModel::Int(i) => Some(i),
        DbValueModel::Float(f) => if f.integral {
            Some(f.truncated)
        } else {
            None
        },
        DbValueModel::Json(JsonModel::Number(NumberModel::Int(i))) => Some(i),
        _ => None,
    }
}

/// The whole number in a cell.
pub fn field_as_i64(v: &DbValue) -> (r: Option<i64>)
    ensures
        r == whole_number(v.deep_view()),
{
    match v {
        DbValue::Int(i) => Some(*i),
        DbValue::Float(f) => if f.integral {
            Some(f.truncated)
        } else {
            None
        },
        DbValue::Json(Json::Number(JsonNumber::Int(i))) => Some(*i),
        _ => None,
    }
}

/// What comes of reading one hit.
pub open spec fn hit_in(value: JsonModel) -> Result<HitModel, IngestErrorModel> {
    match value {
        JsonModel::Object(map) => match strmap::assoc_get(map, "id"@) {
            Some(JsonModel::Number(NumberModel::Int(id))) => match strmap::assoc_get(
                map,
                "score"@,
            ) {
                Some(JsonModel::Number(score)) => {
                    let canonical = match strmap::assoc_get(map, "canonical"@) {
                        Some(JsonModel::Null) => Seq::empty(),
                        Some(other) => canonical::plain_text(other),
                        None => Seq::empty(),
                    };
                    let bits = floats::number_bits(score);
                    match strmap::assoc_get(map, "props"@) {
                        Some(JsonModel::Object(props)) => Ok(
                            HitModel { id, score: bits, canonical, props },
                        ),
                        Some(JsonModel::Null) => Ok(
                            HitModel { id, score: bits, canonical, props: Seq::empty() },
                        ),
                        None => Ok(HitModel { id, score: bits, canonical, props: Seq::empty() }),
                        Some(other) => Err(
                            IngestErrorModel::SoftMerge(
                                "hit `props` must be a map, got: "@ + debug::json_debug(other),
                            ),
                        ),
                    }
                },
                _ => Err(
                    IngestErrorModel::SoftMerge(
                        "hit missing/non-float `score`: "@ + debug::map_debug(map),
                    ),
                ),
            },
            _ => Err(
                IngestErrorModel::SoftMerge(
                    "hit missing/non-int `id`: "@ + debug::map_debug(map),
                ),
            ),
        },
        _ => Err(
            IngestErrorModel::SoftMerge(
                "soft-merge hit must be an object, got: "@ + debug::json_debug(value),
            ),
        ),
    }
}

fn soft_merge_error(head: &str, rest: &str) -> (r: IngestError)
    ensures
        r.deep_view() == IngestErrorModel::SoftMerge(head@ + rest@),
{
    let mut s = head.to_owned();
    s.append(rest);
    IngestError::SoftMerge(s)
}

/// Read one hit.
pub fn parse_hit_json(value: &Json) -> (r: Result<Hit, IngestError>)
    ensures
        error::outcome_model(r) == hit_in(value.deep_view()),
{
    let map = match value {
        Json::Object(map) => map,
        _ => {
            return Err(
                soft_merge_error(
                    "soft-merge hit must be an object, got: ",
                    debug::render_json_debug(value).as_str(),
                ),
            );
        },
    };
    proof {
        json::json_object_model(*map);
    }
    let id = match map.get("id") {
        Some(Json::Number(JsonNumber::Int(id))) => *id,
        _ => {
            return Err(
                soft_merge_error(
                    "hit missing/non-int `id`: ",
                    debug::render_map_debug(map).as_str(),
                ),
            );
        },
    };
    let score: u64 = match map.get("score") {
        Some(Json::Number(n)) => floats::bits_of_number(n),
        _ => {
            return Err(
                soft_merge_error(
                    "hit missing/non-float `score`: ",
                    debug::render_map_debug(map).as_str(),
                ),
            );
        },
    };
    let canonical = match map.get("canonical") {
        Some(Json::Null) => String::new(),
        Some(other) => canonical::json_to_string(other),
        None => String::new(),
    };
    let props = match map.get("props") {
        Some(Json::Object(props)) => {
            proof {
                json::json_object_model(*props);
            }
            props.copied()
        },
        Some(Json::Null) => StrMap::new(),
        None => StrMap::new(),
        Some(other) => {
            return Err(
                soft_merge_error(
                    "hit `props` must be a map, got: ",
                    debug::render_json_debug(other).as_str(),
                ),
            );
        },
    };
    Ok(Hit { id, score, canonical, props })
}

/// What comes of reading hits one by one, up to the first that cannot be read.
pub open spec fn hits_in(items: Seq<JsonModel>) -> Result<
    Seq<HitModel>,
    IngestErrorModel,
>
    decreases items.len(),
{
    if items.len() == 0 {
        Ok(Seq::empty())
    } else {
        match hits_in(items.drop_last()) {
            Ok(before) => match hit_in(items.last()) {
                Ok(hit) => Ok(before.push(hit)),
                Err(e) => Err(e),
            },
            Err(e) => Err(e),
        }
    }
}

proof fn hits_stay_unread(items: Seq<JsonModel>, n: int)
    requires
        0 <= n <= items.len(),
        hits_in(items.take(n)) is Err,
    ensures
        hits_in(items) == hits_in(items.take(n)),
    decreases items.len() - n,
{
    if n < items.len() {
        assert(items.take(n + 1).drop_last() =~= items.take(n));
        hits_stay_unread(items, n + 1);
    } else {
        assert(items.take(n) =~= items);
    }
}

/// What comes of reading a cell of hits. Null is no hits.
pub open spec fn cell_hits(v: DbValueModel) -> Result<
    Seq<HitModel>,
    IngestErrorModel,
> {
    match v {
        DbValueModel::Null => Ok(Seq::empty()),
        DbValueModel::Json(JsonModel::Null) => Ok(Seq::empty()),
        DbValueModel::Json(JsonModel::Array(items)) => hits_in(items),
        _ => Err(
            IngestErrorModel::SoftMerge(
                "soft-merge query returned non-list hits: "@ + debug::cell_debug(v),
            ),
        ),
    }
}

/// Read a cell of hits.
pub fn parse_hits(v: &DbValue) -> (r: Result<Vec<Hit>, IngestError>)
    ensures
        error::outcome_model(r) == cell_hits(v.deep_view()),
{
    match v {
        DbValue::Null => Ok(seqs::no_items()),
        DbValue::Json(Json::Null) => Ok(seqs::no_items()),
        DbValue::Json(Json::Array(items)) => {
            let ghost all = items.deep_view();
            proof {
                json::json_array_model(*items);
            }
            let mut out: Vec<Hit> = seqs::no_items();
            let mut i: usize = 0;
            while i < items.len()
                invariant
                    all == items.deep_view(),
                    v.deep_view() == DbValueModel::Json(JsonModel::Array(all)),
                    0 <= i <= items@.len(),
                    hits_in(all.take(i as int)) == Ok::<Seq<HitModel>, IngestErrorModel>(
                        out.deep_view(),
                    ),
                decreases items@.len() - i,
            {
                proof {
                    assert(all.take(i + 1).drop_last() =~= all.take(i as int));
                    assert(all.take(i + 1).last() == items@[i as int].deep_view());
                }
                match parse_hit_json(&items[i]) {
                    Ok(hit) => {
                        seqs::push_item(&mut out, hit);
                    },
                    Err(e) => {
                        proof {
                            hits_stay_unread(all, i + 1);
                        }
                        return Err(e);
                    },
                }
                i += 1;
            }
            assert(all.take(i as int) =~= all);
            Ok(out)
        },
        other => Err(
            soft_merge_error(
                "soft-merge query returned non-list hits: ",
                debug::render_cell_debug(other).as_str(),
            ),
        ),
    }
}

/// What one row of the search says: nothing, or the hits of an entity.
pub open spec fn row_hits(row: RowModel) -> Result<
    Option<(i64, Seq<HitModel>)>,
    IngestErrorModel,
> {
    match strmap::assoc_get(row, "idx"@) {
        None => Ok(None),
        Some(idx) => match whole_number(idx) {
            None => Err(
                IngestErrorModel::SoftMerge(
                    "soft-merge query returned non-integer idx: "@ + debug::cell_debug(idx),
                ),
            ),
            Some(i) => match strmap::assoc_get(row, "hits"@) {
                None => Ok(None),
                Some(cell) => match cell_hits(cell) {
                    Ok(hits) => Ok(Some((i, hits))),
                    Err(e) => Err(e),
                },
            },
        },
    }
}

/// What the rows of the search say, up to the first that cannot be read.
pub open spec fn rows_hits(rows: Seq<RowModel>) -> Result<
    Seq<(i64, Seq<HitModel>)>,
    IngestErrorModel,
>
    decreases rows.len(),
{
    if rows.len() == 0 {
        Ok(Seq::empty())
    } else {
        match rows_hits(rows.drop_last()) {
            Ok(before) => match row_hits(rows.last()) {
                Ok(Some(x)) => Ok(before.push(x)),
                Ok(None) => Ok(before),
                Err(e) => Err(e),
            },
            Err(e) => Err(e),
        }
    }
}

proof fn rows_stay_unread(rows: Seq<RowModel>, n: int)
    requires
        0 <= n <= rows.len(),
        rows_hits(rows.take(n)) is Err,
    ensures
        rows_hits(rows) == rows_hits(rows.take(n)),
    decreases rows.len() - n,
{
    if n < rows.len() {
        assert(rows.take(n + 1).drop_last() =~= rows.take(n));
        rows_stay_unread(rows, n + 1);
    } else {
        assert(rows.take(n) =~= rows);
    }
}

fn read_row(row: &crate::db::Row) -> (r: Result<
    Option<(i64, Vec<Hit>)>,
    IngestError,
>)
    ensures
        match r {
            Ok(x) => row_hits(row.deep_view()) == Ok::<
                Option<(i64, Seq<HitModel>)>,
                IngestErrorModel,
            >(x.deep_view()),
            Err(e) => row_hits(row.deep_view()) == Err::<
                Option<(i64, Seq<HitModel>)>,
                IngestErrorModel,
            >(e.deep_view()),
        },
{
    let idx = match row.fields.get("idx") {
        Some(idx) => idx,
        None => {
            return Ok(None);
        },
    };
    let i = match field_as_i64(idx) {
        Some(i) => i,
        None => {
            return Err(
                soft_merge_error(
                    "soft-merge query returned non-integer idx: ",
                    debug::render_cell_debug(idx).as_str(),
                ),
            );
        },
    };
    match row.fields.get("hits") {
        Some(cell) => match parse_hits(cell) {
            Ok(hits) => Ok(Some((i, hits))),
            Err(e) => Err(e),
        },
        None => Ok(None),
    }
}

/// Read the rows of the search.
pub fn decode_rows(result: &QueryResult) -> (r: Result<
    Vec<(i64, Vec<Hit>)>,
    IngestError,
>)
    ensures
        error::outcome_model(r) == rows_hits(result.deep_view().rows),
{
    let ghost all = result.deep_view().rows;
    let mut out: Vec<(i64, Vec<Hit>)> = seqs::no_items();
    let mut i: usize = 0;
    while i < result.rows.len()
        invariant
            all == result.deep_view().rows,
            0 <= i <= result.rows@.len(),
            rows_hits(all.take(i as int)) == Ok::<
                Seq<(i64, Seq<HitModel>)>,
                IngestErrorModel,
            >(out.deep_view()),
        decreases result.rows@.len() - i,
    {
        proof {
            assert(all.take(i + 1).drop_last() =~= all.take(i as int));
            assert(all.take(i + 1).last() == result.rows@[i as int].deep_view());
        }
        match read_row(&result.rows[i]) {
            Ok(Some(x)) => {
                seqs::push_item(&mut out, x);
            },
            Ok(None) => {},
            Err(e) => {
                proof {
                    rows_stay_unread(all, i + 1);
                }
                return Err(e);
            },
        }
        i += 1;
    }
    assert(all.take(i as int) =~= all);
    Ok(out)
}

/// The hits of an entity: those of the last row about it.
pub open spec fn hits_of(rows: Seq<(i64, Seq<HitModel>)>, entity: usize) -> Seq<HitModel>
    decreases rows.len(),
{
    if rows.len() == 0 {
        Seq::empty()
    } else if rows.last().0 == entity {
        rows.last().1
    } else {
        hits_of(rows.drop_last(), entity)
    }
}

/// The hits of an entity; none where the search has no row about it.
pub fn hits_for(rows: &Vec<(i64, Vec<Hit>)>, entity: usize) -> (r: Vec<Hit>)
    ensures
        r.deep_view() == hits_of(rows.deep_view(), entity),
{
    let ghost all = rows.deep_view();
    let mut n: usize = rows.len();
    assert(all.take(n as int) =~= all);
    while n > 0
        invariant
            all == rows.deep_view(),
            0 <= n <= rows@.len(),
            hits_of(all, entity) == hits_of(all.take(n as int), entity),
        decreases n,
    {
        proof {
            assert(all.take(n as int).last() == rows@[n - 1].deep_view());
            assert(all.take(n as int).drop_last() =~= all.take(n - 1));
        }
        let i = rows[n - 1].0;
        if i >= 0 && i as u64 == entity as u64 {
            return rows[n - 1].1.copied();
        }
        n -= 1;
    }
    assert(all.take(0) =~= Seq::<(i64, Seq<HitModel>)>::empty());
    seqs::no_items()
}

/// Of a name that is no identifier its letters, digits and underscores are left, in their order.
pub proof fn law_safe_names_keep_their_words(s: Seq<char>)
    ensures
        word_part(s) == s.filter(|c: char| text::is_word(c)),
        text::is_identifier(s) ==> safe_name(s) == s,
    decreases s.len(),
{
    reveal(Seq::filter);
    if s.len() > 0 {
        law_safe_names_keep_their_words(s.drop_last());
    }
}

/// A row of the search names the entity by its place and gives its own vector.
pub proof fn law_search_rows_are_of_their_entities(c: EmbeddedCandidateModel)
    requires
        c.entity_index <= i64::MAX,
    ensures
        match search_row(c) {
            LiteralModel::Object(m) => {
                &&& match strmap::assoc_get(m, "idx"@) {
                    Some(LiteralModel::Int(i)) => i == c.entity_index,
                    _ => false,
                }
                &&& match strmap::assoc_get(m, "vec"@) {
                    Some(LiteralModel::List(v)) => v.len() == c.vec.len() && forall|i: int|
                        0 <= i < v.len() ==> #[trigger] v[i] == LiteralModel::Float(c.vec[i]),
                    _ => false,
                }
            },
            _ => false,
        },
{
    reveal_strlit("idx");
    reveal_strlit("vec");
    assert("idx"@[0] == 'i' && "vec"@[0] == 'v');
    let x = LiteralModel::Int(c.entity_index as i64);
    let y = LiteralModel::List(float_literals(c.vec));
    let a = strmap::assoc_insert(no_entries(), "idx"@, x);
    strmap::law_get_after_insert(no_entries(), "idx"@, x);
    strmap::law_get_after_insert(a, "vec"@, y);
    strmap::law_get_other_after_insert(a, "vec"@, y, "idx"@);
}

/// The search is told the collection, the label, the number of hits, the threshold, and a row for
/// each entity of the group, in their order.
pub proof fn law_searches_are_told_all(
    collection: Seq<char>,
    label: Seq<char>,
    field: Seq<char>,
    top_k: u32,
    threshold: FloatModel,
    group: Seq<EmbeddedCandidateModel>,
)
    ensures
        ({
            let p = search_query(collection, label, field, top_k, threshold, group).params;
            &&& strmap::assoc_get(p, "coll"@) == Some(LiteralModel::Str(collection))
            &&& strmap::assoc_get(p, "label"@) == Some(LiteralModel::Str(safe_name(label)))
            &&& strmap::assoc_get(p, "top_k"@) == Some(LiteralModel::Int(top_k as i64))
            &&& strmap::assoc_get(p, "threshold"@) == Some(LiteralModel::Float(threshold))
            &&& match strmap::assoc_get(p, "rows"@) {
                Some(LiteralModel::List(rows)) => rows.len() == group.len() && forall|i: int|
                    0 <= i < rows.len() ==> #[trigger] rows[i] == search_row(group[i]),
                _ => false,
            }
        }),
{
    reveal_strlit("coll");
    reveal_strlit("label");
    reveal_strlit("rows");
    reveal_strlit("top_k");
    reveal_strlit("threshold");
    assert("coll"@[0] == 'c' && "label"@[0] == 'l' && "rows"@[0] == 'r');
    assert("top_k"@.len() == 5 && "threshold"@.len() == 9 && "coll"@.len() == 4 && "label"@.len()
        == 5 && "rows"@.len() == 4);
    assert("top_k"@[0] == 't');
    let c = LiteralModel::Str(collection);
    let l = LiteralModel::Str(safe_name(label));
    let r = LiteralModel::List(search_rows(group));
    let k = LiteralModel::Int(top_k as i64);
    let t = LiteralModel::Float(threshold);
    let p0 = no_entries();
    let p1 = strmap::assoc_insert(p0, "coll"@, c);
    let p2 = strmap::assoc_insert(p1, "label"@, l);
    let p3 = strmap::assoc_insert(p2, "rows"@, r);
    let p4 = strmap::assoc_insert(p3, "top_k"@, k);
    strmap::law_get_after_insert(p0, "coll"@, c);
    strmap::law_get_after_insert(p1, "label"@, l);
    strmap::law_get_after_insert(p2, "rows"@, r);
    strmap::law_get_after_insert(p3, "top_k"@, k);
    strmap::law_get_after_insert(p4, "threshold"@, t);
    strmap::law_get_other_after_insert(p1, "label"@, l, "coll"@);
    strmap::law_get_other_after_insert(p2, "rows"@, r, "coll"@);
    strmap::law_get_other_after_insert(p2, "rows"@, r, "label"@);
    strmap::law_get_other_after_insert(p3, "top_k"@, k, "coll"@);
    strmap::law_get_other_after_insert(p3, "top_k"@, k, "label"@);
    strmap::law_get_other_after_insert(p3, "top_k"@, k, "rows"@);
    strmap::law_get_other_after_insert(p4, "threshold"@, t, "coll"@);
    strmap::law_get_other_after_insert(p4, "threshold"@, t, "label"@);
    strmap::law_get_other_after_insert(p4, "threshold"@, t, "rows"@);
    strmap::law_get_other_after_insert(p4, "threshold"@, t, "top_k"@);
}

/// A hit has the id, the score, the text and the properties that the search gave for it; a search
/// that gives no whole id, no score, or properties of another kind is an error.
pub proof fn law_hits_are_as_given(value: JsonModel)
    ensures
        match hit_in(value) {
            Ok(h) => value is Object && ({
                let m = value->Object_0;
                &&& strmap::assoc_get(m, "id"@) == Some(
                    JsonModel::Number(NumberModel::Int(h.id)),
                )
                &&& match strmap::assoc_get(m, "score"@) {
                    Some(JsonModel::Number(n)) => h.score == floats::number_bits(n),
                    _ => false,
                }
                &&& match strmap::assoc_get(m, "canonical"@) {
                    Some(JsonModel::Str(s)) => h.canonical == s,
                    Some(JsonModel::Null) => h.canonical.len() == 0,
                    None => h.canonical.len() == 0,
                    _ => true,
                }
                &&& match strmap::assoc_get(m, "props"@) {
                    Some(JsonModel::Object(p)) => h.props == p,
                    Some(JsonModel::Null) => h.props.len() == 0,
                    None => h.props.len() == 0,
                    _ => false,
                }
            }),
            Err(_) => !(value is Object) || ({
                let m = value->Object_0;
                let props = strmap::assoc_get(m, "props"@);
                ||| !(strmap::assoc_get(m, "id"@) is Some && strmap::assoc_get(
                    m,
                    "id"@,
                )->0 is Number && strmap::assoc_get(m, "id"@)->0->Number_0 is Int)
                ||| !(strmap::assoc_get(m, "score"@) is Some && strmap::assoc_get(
                    m,
                    "score"@,
                )->0 is Number)
                ||| props is Some && !(props->0 is Object) && !(props->0 is Null)
            }),
        },
{
}

/// The hits of a list are those of its items, one by one.
pub proof fn law_hits_come_one_by_one(items: Seq<JsonModel>)
    ensures
        match hits_in(items) {
            Ok(hits) => hits.len() == items.len() && forall|i: int|
                0 <= i < items.len() ==> hit_in(#[trigger] items[i]) == Ok::<
                    HitModel,
                    IngestErrorModel,
                >(hits[i]),
            Err(_) => exists|i: int| 0 <= i < items.len() && hit_in(#[trigger] items[i]) is Err,
        },
    decreases items.len(),
{
    if items.len() > 0 {
        let rest = items.drop_last();
        law_hits_come_one_by_one(rest);
        match hits_in(rest) {
            Ok(before) => {
                if let Ok(hits) = hits_in(items) {
                    assert forall|i: int| 0 <= i < items.len() implies hit_in(#[trigger] items[i])
                        == Ok::<HitModel, IngestErrorModel>(hits[i]) by {
                        if i < rest.len() {
                            assert(rest[i] == items[i]);
                        }
                    }
                } else {
                    assert(hit_in(items[items.len() - 1]) is Err);
                }
            },
            Err(_) => {
                let i = choose|i: int| 0 <= i < rest.len() && hit_in(#[trigger] rest[i]) is Err;
                assert(hit_in(items[i]) is Err);
            },
        }
    }
}

/// The hits of an entity are those of the last row about it; without such a row there are none.
pub proof fn law_hits_are_of_their_entity(
    rows: Seq<(i64, Seq<HitModel>)>,
    entity: usize,
    k: int,
)
    requires
        0 <= k < rows.len(),
        forall|j: int| k < j < rows.len() ==> (#[trigger] rows[j]).0 != entity,
    ensures
        rows[k].0 == entity ==> hits_of(rows, entity) == rows[k].1,
        (forall|j: int| 0 <= j < rows.len() ==> (#[trigger] rows[j]).0 != entity) ==> hits_of(
            rows,
            entity,
        ).len() == 0,
    decreases rows.len(),
{
    let rest = rows.drop_last();
    if k < rest.len() {
        assert forall|j: int| k < j < rest.len() implies (#[trigger] rest[j]).0 != entity by {
            assert(rest[j] == rows[j]);
        }
        assert(rows[rows.len() - 1].0 != entity);
        law_hits_are_of_their_entity(rest, entity, k);
    } else if forall|j: int| 0 <= j < rows.len() ==> (#[trigger] rows[j]).0 != entity {
        assert(rows[k].0 != entity);
        if rest.len() > 0 {
            assert forall|j: int| 0 <= j < rest.len() implies (#[trigger] rest[j]).0 != entity by {
                assert(rest[j] == rows[j]);
            }
            law_hits_are_of_their_entity(rest, entity, rest.len() - 1);
        } else {
            assert(hits_of(rest, entity).len() == 0);
        }
    }
    if forall|j: int| 0 <= j < rows.len() ==> (#[trigger] rows[j]).0 != entity {
        assert forall|j: int| 0 <= j < rest.len() implies (#[trigger] rest[j]).0 != entity by {
            assert(rest[j] == rows[j]);
        }
    }
}

/// A row of a search tells of the entity of its number, which is a whole one, and of the hits in
/// its list; a row without a number or a list tells of nothing.
pub proof fn law_rows_tell_their_hits(row: RowModel)
    ensures
        match row_hits(row) {
            Ok(Some((entity, hits))) => {
                &&& strmap::assoc_get(row, "idx"@) is Some
                &&& whole_number(strmap::assoc_get(row, "idx"@)->0) == Some(entity)
                &&& match strmap::assoc_get(row, "hits"@) {
                    Some(DbValueModel::Json(JsonModel::Array(items))) => hits.len() == items.len()
                        && forall|i: int|
                        0 <= i < items.len() ==> hit_in(#[trigger] items[i]) == Ok::<
                            HitModel,
                            IngestErrorModel,
                        >(hits[i]),
                    Some(DbValueModel::Json(JsonModel::Null)) => hits.len() == 0,
                    Some(DbValueModel::Null) => hits.len() == 0,
                    _ => false,
                }
            },
            Ok(None) => strmap::assoc_get(row, "idx"@) is None || strmap::assoc_get(row, "hits"@)
                is None,
            Err(_) => strmap::assoc_get(row, "idx"@) is Some && (whole_number(
                strmap::assoc_get(row, "idx"@)->0,
            ) is None || ({
                let cell = strmap::assoc_get(row, "hits"@);
                &&& cell is Some
                &&& cell->0 !is Null
                &&& cell->0 != DbValueModel::Json(JsonModel::Null)
                &&& cell->0 is Json && cell->0->Json_0 is Array ==> exists|i: int|
                    0 <= i < cell->0->Json_0->Array_0.len() && hit_in(
                        #[trigger] cell->0->Json_0->Array_0[i],
                    ) is Err
            })),
        },
{
    if let Some(DbValueModel::Json(JsonModel::Array(items))) = strmap::assoc_get(row, "hits"@) {
        law_hits_come_one_by_one(items);
    }
}

/// A number in a cell is whole where it is an integer or a float without a fraction.
pub proof fn law_whole_numbers_are_read(i: i64, f: FloatModel)
    ensures
        whole_number(DbValueModel::Int(i)) == Some(i),
        whole_number(DbValueModel::Json(JsonModel::Number(NumberModel::Int(i)))) == Some(i),
        whole_number(DbValueModel::Float(f)) is Some <==> f.integral,
        f.integral ==> whole_number(DbValueModel::Float(f)) == Some(f.truncated),
        whole_number(DbValueModel::Null) is None,
{
}

/// The rows of a search tell all that each of them tells, and nothing else; one that cannot be read
/// is an error.
pub proof fn law_all_rows_tell_their_hits(rows: Seq<RowModel>, x: (i64, Seq<HitModel>))
    ensures
        match rows_hits(rows) {
            Ok(all) => {
                &&& forall|k: int| 0 <= k < rows.len() ==> row_hits(#[trigger] rows[k]) is Ok
                &&& all.contains(x) <==> exists|k: int|
                    0 <= k < rows.len() && row_hits(#[trigger] rows[k]) == Ok::<
                        Option<(i64, Seq<HitModel>)>,
                        IngestErrorModel,
                    >(Some(x))
                &&& all.len() <= rows.len()
            },
            Err(_) => exists|k: int| 0 <= k < rows.len() && row_hits(#[trigger] rows[k]) is Err,
        },
    decreases rows.len(),
{
    if rows.len() > 0 {
        let rest = rows.drop_last();
        law_all_rows_tell_their_hits(rest, x);
        let n = rows.len() - 1;
        assert(rows[n] == rows.last());
        match rows_hits(rest) {
            Ok(before) => {
                if let Ok(all) = rows_hits(rows) {
                    assert forall|k: int| 0 <= k < rows.len() implies row_hits(#[trigger] rows[k])
                        is Ok by {
                        if k < n {
                            assert(rest[k] == rows[k]);
                        }
                    }
                    if all.contains(x) {
                        let i = choose|i: int| 0 <= i < all.len() && all[i] == x;
                        if i < before.len() {
                            assert(before[i] == x);
                            let k = choose|k: int|
                                0 <= k < rest.len() && row_hits(#[trigger] rest[k]) == Ok::<
                                    Option<(i64, Seq<HitModel>)>,
                                    IngestErrorModel,
                                >(Some(x));
                            assert(rows[k] == rest[k]);
                        }
                    }
                    if exists|k: int|
                        0 <= k < rows.len() && row_hits(#[trigger] rows[k]) == Ok::<
                            Option<(i64, Seq<HitModel>)>,
                            IngestErrorModel,
                        >(Some(x)) {
                        let k = choose|k: int|
                            0 <= k < rows.len() && row_hits(#[trigger] rows[k]) == Ok::<
                                Option<(i64, Seq<HitModel>)>,
                                IngestErrorModel,
                            >(Some(x));
                        if k < n {
                            assert(rest[k] == rows[k]);
                            let i = choose|i: int| 0 <= i < before.len() && before[i] == x;
                            assert(all[i] == x);
                        } else {
                            assert(all[all.len() - 1] == x);
                        }
                    }
                }
            },
            Err(_) => {
                let k = choose|k: int| 0 <= k < rest.len() && row_hits(#[trigger] rest[k]) is Err;
                assert(rows[k] == rest[k]);
            },
        }
    }
}

} // verus!
