//! The queries behind the explorer.
//!
//! Labels, relation types and property names cannot be parameters, so they are
//! written into the text, and only where they are identifiers. Every value
//! travels as a parameter.

use vstd::prelude::*;
use crate::cypher;
use crate::cypher::CypherQuery;
use crate::cypher::CypherQueryModel;
use crate::explore::dto::RelDirection;
use crate::explore::error::ExploreError;
use crate::explore::error::ExploreErrorModel;
use crate::graph::builtins::MENTION_REL;
use crate::graph::builtins::PART_OF_REL;
use crate::graph::builtins::SOURCE_LABEL;
use crate::literal::Literal;
use crate::literal::LiteralModel;
use crate::strmap;
use crate::strmap::StrMap;
use crate::text;

verus! {

broadcast use vstd::string::group_string_axioms;

/// Prefix of a handle that names a node by its internal id.
pub const NID_HANDLE_PREFIX: &'static str = "_nid:";

/// What a lookup names a node by: its `id` property, or its internal id.
#[derive(Debug, PartialEq)]
pub enum NodeHandle {
    AppId(String),
    Nid(i64),
}

pub enum NodeHandleModel {
    AppId(Seq<char>),
    Nid(i64),
}

impl DeepView for NodeHandle {
    type V = NodeHandleModel;

    open spec fn deep_view(&self) -> NodeHandleModel {
        match self {
            NodeHandle::AppId(x) => NodeHandleModel::AppId(x@),
            NodeHandle::Nid(x) => NodeHandleModel::Nid(*x),
        }
    }
}

pub type Params = Seq<(Seq<char>, LiteralModel)>;

/// The handle that a text stands for.
pub open spec fn handle_of(raw: Seq<char>) -> NodeHandleModel {
    if text::has_prefix(raw, NID_HANDLE_PREFIX@) && text::i64_of(
        raw.skip(NID_HANDLE_PREFIX@.len() as int),
    ) is Some {
        NodeHandleModel::Nid(text::i64_of(raw.skip(NID_HANDLE_PREFIX@.len() as int))->0)
    } else {
        NodeHandleModel::AppId(raw)
    }
}

/// The internal id that an `id` of digits may stand for.
pub open spec fn fallback_of(h: NodeHandleModel) -> Option<NodeHandleModel> {
    match h {
        NodeHandleModel::AppId(id) => match text::i64_of(id) {
            Some(n) => Some(NodeHandleModel::Nid(n)),
            None => None,
        },
        NodeHandleModel::Nid(_) => None,
    }
}

/// The condition that selects the node `n` of a handle.
pub open spec fn handle_condition(h: NodeHandleModel) -> Seq<char> {
    match h {
        NodeHandleModel::AppId(id) => if text::i64_of(id) is Some {
            "(n.id = $id OR n.id = $id_int)"@
        } else {
            "n.id = $id"@
        },
        NodeHandleModel::Nid(_) => "id(n) = $nid"@,
    }
}

/// The parameters of the condition.
pub open spec fn handle_params(h: NodeHandleModel) -> Params {
    match h {
        NodeHandleModel::AppId(id) => match text::i64_of(id) {
            Some(n) => strmap::assoc_insert(
                cypher::one_param("id"@, LiteralModel::Str(id)),
                "id_int"@,
                LiteralModel::Int(n),
            ),
            None => cypher::one_param("id"@, LiteralModel::Str(id)),
        },
        NodeHandleModel::Nid(n) => cypher::one_param("nid"@, LiteralModel::Int(n)),
    }
}

/// The handle of a node without an `id` stands for the node it was made for.
pub proof fn law_internal_handles_resolve(nid: i64)
    ensures
        handle_of(NID_HANDLE_PREFIX@ + text::int_text(nid as int)) == NodeHandleModel::Nid(nid),
{
    let raw = NID_HANDLE_PREFIX@ + text::int_text(nid as int);
    assert(raw.skip(NID_HANDLE_PREFIX@.len() as int) =~= text::int_text(nid as int));
    assert(raw.subrange(0, NID_HANDLE_PREFIX@.len() as int) =~= NID_HANDLE_PREFIX@);
    text::law_written_integers_are_read(nid);
}

impl NodeHandle {
    /// The handle that a text stands for. A malformed internal id is an `id`.
    pub fn parse(raw: &str) -> (r: Self)
        ensures
            r.deep_view() == handle_of(raw@),
    {
        if let Some(rest) = text::text_after(raw, NID_HANDLE_PREFIX) {
            if let Some(n) = text::parse_i64(rest.as_str()) {
                return NodeHandle::Nid(n);
            }
        }
        NodeHandle::AppId(raw.to_owned())
    }

    /// The internal id to try where a lookup by an `id` of digits finds nothing.
    pub fn internal_id_fallback(&self) -> (r: Option<NodeHandle>)
        ensures
            r.deep_view() == fallback_of(self.deep_view()),
    {
        match self {
            NodeHandle::AppId(id) => match text::parse_i64(id.as_str()) {
                Some(n) => Some(NodeHandle::Nid(n)),
                None => None,
            },
            NodeHandle::Nid(_) => None,
        }
    }

    /// The condition that selects the node, and its parameters. An `id` of
    /// digits matches integer properties too.
    pub fn where_clause(&self) -> (r: (String, StrMap<Literal>))
        ensures
            r.0@ == handle_condition(self.deep_view()),
            r.1.deep_view() == handle_params(self.deep_view()),
    {
        match self {
            NodeHandle::AppId(id) => {
                let mut params = cypher::with_param("id", Literal::String(id.clone()));
                match text::parse_i64(id.as_str()) {
                    Some(n) => {
                        params.insert("id_int".to_owned(), Literal::Int(n));
                        ("(n.id = $id OR n.id = $id_int)".to_owned(), params)
                    },
                    None => ("n.id = $id".to_owned(), params),
                }
            },
            NodeHandle::Nid(n) => (
                "id(n) = $nid".to_owned(),
                cypher::with_param("nid", Literal::Int(*n)),
            ),
        }
    }
}

/// The error of a name that is no identifier.
pub open spec fn not_identifier(s: Seq<char>) -> ExploreErrorModel {
    ExploreErrorModel::InvalidIdentifier(s)
}

/// The label suffix of a prefix, or the error where it is no identifier.
pub open spec fn suffix_of(prefix: Option<Seq<char>>) -> Result<Seq<char>, ExploreErrorModel> {
    match prefix {
        None => Ok(Seq::empty()),
        Some(p) => if text::is_identifier(p) {
            Ok(":"@ + p)
        } else {
            Err(not_identifier(p))
        },
    }
}

/// What a query builder says.
pub open spec fn query_model(r: Result<CypherQuery, ExploreError>) -> Result<
    CypherQueryModel,
    ExploreErrorModel,
> {
    match r {
        Ok(q) => Ok(q.deep_view()),
        Err(e) => Err(e.deep_view()),
    }
}

/// The `:Prefix` suffix of every node pattern; nothing without a prefix.
pub fn label_suffix(prefix: Option<&str>) -> (r: Result<String, ExploreError>)
    ensures
        match r {
            Ok(s) => suffix_of(prefix.deep_view()) == Ok::<Seq<char>, ExploreErrorModel>(s@),
            Err(e) => suffix_of(prefix.deep_view()) == Err::<Seq<char>, ExploreErrorModel>(
                e.deep_view(),
            ),
        },
{
    match prefix {
        None => Ok(String::new()),
        Some(p) => {
            if text::identifier(p) {
                let mut s = ":".to_owned();
                s.append(p);
                Ok(s)
            } else {
                Err(ExploreError::InvalidIdentifier(p.to_owned()))
            }
        },
    }
}

/// The list of the built-in relations, as it stands in a query.
pub open spec fn builtin_rels() -> Seq<char> {
    "[\""@ + MENTION_REL@ + "\", \""@ + PART_OF_REL@ + "\"]"@
}

fn builtin_rels_cypher_list() -> (r: String)
    ensures
        r@ == builtin_rels(),
{
    let mut s = "[\"".to_owned();
    s.append(MENTION_REL);
    s.append("\", \"");
    s.append(PART_OF_REL);
    s.append("\"]");
    s
}

/// One entity by handle: labels, properties and sources.
pub open spec fn entity_by_id_query(
    handle: NodeHandleModel,
    prefix: Option<Seq<char>>,
) -> Result<CypherQueryModel, ExploreErrorModel> {
    match suffix_of(prefix) {
        Err(e) => Err(e),
        Ok(p) => Ok(
            CypherQueryModel {
                text: "MATCH (n"@ + p + ") WHERE "@ + handle_condition(handle)
                    + " WITH n LIMIT 1 OPTIONAL MATCH (n)-[:"@ + MENTION_REL@ + "|"@ + PART_OF_REL@
                    + "]->(src:"@ + SOURCE_LABEL@ + p
                    + ") WITH n, collect(DISTINCT {id: src.id, name: src.name}) AS sources RETURN id(n) AS nid, n.id AS id, labels(n) AS labels, properties(n) AS props, sources"@,
                params: handle_params(handle),
            },
        ),
    }
}

/// One entity by handle: labels, properties and sources.
pub fn entity_by_id(
    handle: &NodeHandle,
    prefix: Option<&str>,
) -> (r: Result<CypherQuery, ExploreError>)
    ensures
        query_model(r) == entity_by_id_query(handle.deep_view(), prefix.deep_view()),
{
    let p = match label_suffix(prefix) {
        Ok(p) => p,
        Err(e) => return Err(e),
    };
    let (condition, params) = handle.where_clause();
    let mut t = "MATCH (n".to_owned();
    t.append(p.as_str());
    t.append(") WHERE ");
    t.append(condition.as_str());
    t.append(" WITH n LIMIT 1 OPTIONAL MATCH (n)-[:");
    t.append(MENTION_REL);
    t.append("|");
    t.append(PART_OF_REL);
    t.append("]->(src:");
    t.append(SOURCE_LABEL);
    t.append(p.as_str());
    t.append(") WITH n, collect(DISTINCT {id: src.id, name: src.name}) AS sources RETURN id(n) AS nid, n.id AS id, labels(n) AS labels, properties(n) AS props, sources");
    Ok(CypherQuery::new(t, params))
}

/// The relations of one entity by type, direction and labels of the neighbour. Edges to
/// sources are left out.
pub open spec fn relation_summary_query(
    handle: NodeHandleModel,
    prefix: Option<Seq<char>>,
) -> Result<CypherQueryModel, ExploreErrorModel> {
    match suffix_of(prefix) {
        Err(e) => Err(e),
        Ok(p) => Ok(
            CypherQueryModel {
                text: "MATCH (n"@ + p + ")-[r]->(m"@ + p + ") WHERE "@ + handle_condition(handle)
                    + " AND NOT type(r) IN "@ + builtin_rels()
                    + " RETURN type(r) AS rel, \"out\" AS dir, labels(m) AS neighbor_labels, count(*) AS cnt UNION ALL MATCH (n"@
                    + p + ")<-[r]-(m"@ + p + ") WHERE "@ + handle_condition(handle)
                    + " AND NOT type(r) IN "@ + builtin_rels()
                    + " RETURN type(r) AS rel, \"in\" AS dir, labels(m) AS neighbor_labels, count(*) AS cnt"@,
                params: handle_params(handle),
            },
        ),
    }
}

/// The relations of one entity by type, direction and labels of the neighbour. Edges to
/// sources are left out.
pub fn relation_summary(
    handle: &NodeHandle,
    prefix: Option<&str>,
) -> (r: Result<CypherQuery, ExploreError>)
    ensures
        query_model(r) == relation_summary_query(handle.deep_view(), prefix.deep_view()),
{
    let p = match label_suffix(prefix) {
        Ok(p) => p,
        Err(e) => return Err(e),
    };
    let (condition, params) = handle.where_clause();
    let builtin = builtin_rels_cypher_list();
    let mut t = "MATCH (n".to_owned();
    t.append(p.as_str());
    t.append(")-[r]->(m");
    t.append(p.as_str());
    t.append(") WHERE ");
    t.append(condition.as_str());
    t.append(" AND NOT type(r) IN ");
    t.append(builtin.as_str());
    t.append(" RETURN type(r) AS rel, \"out\" AS dir, labels(m) AS neighbor_labels, count(*) AS cnt UNION ALL MATCH (n");
    t.append(p.as_str());
    t.append(")<-[r]-(m");
    t.append(p.as_str());
    t.append(") WHERE ");
    t.append(condition.as_str());
    t.append(" AND NOT type(r) IN ");
    t.append(builtin.as_str());
    t.append(" RETURN type(r) AS rel, \"in\" AS dir, labels(m) AS neighbor_labels, count(*) AS cnt");
    Ok(CypherQuery::new(t, params))
}

/// The filters and page of a walk to neighbours.
pub struct NeighborQuery<'a> {
    pub handle: &'a NodeHandle,
    pub edge_types: Option<&'a [String]>,
    pub target_labels: Option<&'a [String]>,
    pub direction: Option<RelDirection>,
    pub limit: u32,
    pub offset: u32,
}

pub struct NeighborQueryModel {
    pub handle: NodeHandleModel,
    pub edge_types: Option<Seq<Seq<char>>>,
    pub target_labels: Option<Seq<Seq<char>>>,
    pub direction: Option<RelDirection>,
    pub limit: u32,
    pub offset: u32,
}

impl<'a> DeepView for NeighborQuery<'a> {
    type V = NeighborQueryModel;

    open spec fn deep_view(&self) -> NeighborQueryModel {
        NeighborQueryModel {
            handle: self.handle.deep_view(),
            edge_types: match self.edge_types {
                Some(v) => Some(v.deep_view()),
                None => None,
            },
            target_labels: match self.target_labels {
                Some(v) => Some(v.deep_view()),
                None => None,
            },
            direction: self.direction,
            limit: self.limit,
            offset: self.offset,
        }
    }
}

/// The edge pattern of a direction.
pub open spec fn arrow_text(d: Option<RelDirection>) -> Seq<char> {
    match d {
        Some(RelDirection::Out) => "-[r]->"@,
        Some(RelDirection::In) => "<-[r]-"@,
        None => "-[r]-"@,
    }
}

/// The condition of a walk. Without edge types the built-in relations are left
/// out.
pub open spec fn neighbor_condition(q: NeighborQueryModel) -> Seq<char> {
    let edges = if q.edge_types is Some {
        handle_condition(q.handle) + " AND "@ + "type(r) IN $edge_types"@
    } else {
        handle_condition(q.handle) + " AND "@ + "NOT type(r) IN "@ + builtin_rels()
    };
    if q.target_labels is Some {
        edges + " AND "@ + "any(l IN labels(m) WHERE l IN $target_labels)"@
    } else {
        edges
    }
}

/// The parameters of a walk.
pub open spec fn neighbor_params(q: NeighborQueryModel) -> Params {
    let edges = match q.edge_types {
        Some(types) => strmap::assoc_insert(
            handle_params(q.handle),
            "edge_types"@,
            LiteralModel::List(cypher::text_literals(types)),
        ),
        None => handle_params(q.handle),
    };
    match q.target_labels {
        Some(labels) => strmap::assoc_insert(
            edges,
            "target_labels"@,
            LiteralModel::List(cypher::text_literals(labels)),
        ),
        None => edges,
    }
}

/// One hop from an entity, a page of it.
pub open spec fn neighbors_query(
    q: NeighborQueryModel,
    prefix: Option<Seq<char>>,
) -> Result<CypherQueryModel, ExploreErrorModel> {
    match suffix_of(prefix) {
        Err(e) => Err(e),
        Ok(p) => Ok(
            CypherQueryModel {
                text: "MATCH (n"@ + p + ")"@ + arrow_text(q.direction) + "(m"@ + p + ") WHERE "@
                    + neighbor_condition(q)
                    + " RETURN id(m) AS nid, m.id AS id, labels(m) AS labels, properties(m) AS props, type(r) AS rel, properties(r) AS rel_props, startNode(r) = n AS outgoing ORDER BY rel ASC, id ASC SKIP "@
                    + text::nat_text(q.offset as nat) + " LIMIT "@ + text::nat_text(q.limit as nat),
                params: neighbor_params(q),
            },
        ),
    }
}

/// One hop from an entity, a page of it.
pub fn neighbors(q: &NeighborQuery, prefix: Option<&str>) -> (r: Result<CypherQuery, ExploreError>)
    ensures
        query_model(r) == neighbors_query(q.deep_view(), prefix.deep_view()),
{
    let p = match label_suffix(prefix) {
        Ok(p) => p,
        Err(e) => return Err(e),
    };
    let arrow = match q.direction {
        Some(RelDirection::Out) => "-[r]->",
        Some(RelDirection::In) => "<-[r]-",
        None => "-[r]-",
    };
    let (mut condition, mut params) = q.handle.where_clause();
    condition.append(" AND ");
    match q.edge_types {
        Some(types) => {
            condition.append("type(r) IN $edge_types");
            params.insert("edge_types".to_owned(), cypher::text_list(types));
        },
        None => {
            condition.append("NOT type(r) IN ");
            condition.append(builtin_rels_cypher_list().as_str());
        },
    }
    if let Some(labels) = q.target_labels {
        condition.append(" AND ");
        condition.append("any(l IN labels(m) WHERE l IN $target_labels)");
        params.insert("target_labels".to_owned(), cypher::text_list(labels));
    }
    let offset = text::u64_text(q.offset as u64);
    let limit = text::u64_text(q.limit as u64);
    let mut t = "MATCH (n".to_owned();
    t.append(p.as_str());
    t.append(")");
    t.append(arrow);
    t.append("(m");
    t.append(p.as_str());
    t.append(") WHERE ");
    t.append(condition.as_str());
    t.append(" RETURN id(m) AS nid, m.id AS id, labels(m) AS labels, properties(m) AS props, type(r) AS rel, properties(r) AS rel_props, startNode(r) = n AS outgoing ORDER BY rel ASC, id ASC SKIP ");
    t.append(offset.as_str());
    t.append(" LIMIT ");
    t.append(limit.as_str());
    Ok(CypherQuery::new(t, params))
}

/// The integers that ids of digits stand for.
pub open spec fn numeric_ids(ids: Seq<Seq<char>>) -> Seq<i64>
    decreases ids.len(),
{
    if ids.len() == 0 {
        Seq::empty()
    } else {
        match text::i64_of(ids.last()) {
            Some(n) => numeric_ids(ids.drop_last()).push(n),
            None => numeric_ids(ids.drop_last()),
        }
    }
}

/// The condition that a field is one of the ids.
pub open spec fn ids_condition(field: Seq<char>, ids: Seq<Seq<char>>, param: Seq<char>) -> Seq<
    char,
> {
    if numeric_ids(ids).len() == 0 {
        field + " IN $"@ + param + "ids"@
    } else {
        "("@ + field + " IN $"@ + param + "ids OR "@ + field + " IN $"@ + param + "ids_int)"@
    }
}

/// The parameters of the condition.
pub open spec fn ids_params(ids: Seq<Seq<char>>, param: Seq<char>) -> Params {
    let texts = cypher::one_param(
        param + "ids"@,
        LiteralModel::List(cypher::text_literals(ids)),
    );
    if numeric_ids(ids).len() == 0 {
        texts
    } else {
        strmap::assoc_insert(
            texts,
            param + "ids_int"@,
            LiteralModel::List(cypher::int_literals(numeric_ids(ids))),
        )
    }
}

/// The condition that a field is one of the ids, as text or, for ids of digits,
/// as integer, with its parameters.
pub fn id_list_predicate(field: &str, ids: &[String], param_prefix: &str) -> (r: (
    String,
    StrMap<Literal>,
))
    ensures
        r.0@ == ids_condition(field@, ids.deep_view(), param_prefix@),
        r.1.deep_view() == ids_params(ids.deep_view(), param_prefix@),
{
    let ghost all = ids.deep_view();
    let mut name = param_prefix.to_owned();
    name.append("ids");
    let mut params = cypher::with_param(name.as_str(), cypher::text_list(ids));
    let mut numeric: Vec<i64> = Vec::new();
    let mut i: usize = 0;
    while i < ids.len()
        invariant
            all == ids.deep_view(),
            0 <= i <= ids@.len(),
            numeric@ == numeric_ids(all.take(i as int)),
        decreases ids@.len() - i,
    {
        proof {
            assert(all.take(i + 1).drop_last() =~= all.take(i as int));
            assert(all.take(i + 1).last() == ids@[i as int]@);
        }
        if let Some(n) = text::parse_i64(ids[i].as_str()) {
            numeric.push(n);
        }
        i += 1;
    }
    assert(all.take(i as int) =~= all);
    if numeric.len() == 0 {
        let mut t = field.to_owned();
        t.append(" IN $");
        t.append(param_prefix);
        t.append("ids");
        (t, params)
    } else {
        let mut int_name = param_prefix.to_owned();
        int_name.append("ids_int");
        params.insert(int_name, cypher::int_list(numeric.as_slice()));
        let mut t = "(".to_owned();
        t.append(field);
        t.append(" IN $");
        t.append(param_prefix);
        t.append("ids OR ");
        t.append(field);
        t.append(" IN $");
        t.append(param_prefix);
        t.append("ids_int)");
        (t, params)
    }
}

/// Nodes by their `id` properties.
pub open spec fn nodes_by_ids_query(
    ids: Seq<Seq<char>>,
    prefix: Option<Seq<char>>,
) -> Result<CypherQueryModel, ExploreErrorModel> {
    match suffix_of(prefix) {
        Err(e) => Err(e),
        Ok(p) => Ok(
            CypherQueryModel {
                text: "MATCH (n"@ + p + ") WHERE "@ + ids_condition("n.id"@, ids, ""@)
                    + " RETURN id(n) AS nid, n.id AS id, labels(n) AS labels, properties(n) AS props"@,
                params: ids_params(ids, ""@),
            },
        ),
    }
}

/// Nodes by their `id` properties.
pub fn nodes_by_ids(ids: &[String], prefix: Option<&str>) -> (r: Result<CypherQuery, ExploreError>)
    ensures
        query_model(r) == nodes_by_ids_query(ids.deep_view(), prefix.deep_view()),
{
    let p = match label_suffix(prefix) {
        Ok(p) => p,
        Err(e) => return Err(e),
    };
    let (condition, params) = id_list_predicate("n.id", ids, "");
    let mut t = "MATCH (n".to_owned();
    t.append(p.as_str());
    t.append(") WHERE ");
    t.append(condition.as_str());
    t.append(" RETURN id(n) AS nid, n.id AS id, labels(n) AS labels, properties(n) AS props");
    Ok(CypherQuery::new(t, params))
}

/// Nodes by their internal ids.
pub open spec fn nodes_by_nids_query(
    nids: Seq<i64>,
    prefix: Option<Seq<char>>,
) -> Result<CypherQueryModel, ExploreErrorModel> {
    match suffix_of(prefix) {
        Err(e) => Err(e),
        Ok(p) => Ok(
            CypherQueryModel {
                text: "MATCH (n"@ + p
                    + ") WHERE id(n) IN $nids RETURN id(n) AS nid, n.id AS id, labels(n) AS labels, properties(n) AS props"@,
                params: cypher::one_param("nids"@, LiteralModel::List(cypher::int_literals(nids))),
            },
        ),
    }
}

/// Nodes by their internal ids.
pub fn nodes_by_nids(nids: &[i64], prefix: Option<&str>) -> (r: Result<CypherQuery, ExploreError>)
    ensures
        query_model(r) == nodes_by_nids_query(nids@, prefix.deep_view()),
{
    let p = match label_suffix(prefix) {
        Ok(p) => p,
        Err(e) => return Err(e),
    };
    let mut t = "MATCH (n".to_owned();
    t.append(p.as_str());
    t.append(") WHERE id(n) IN $nids RETURN id(n) AS nid, n.id AS id, labels(n) AS labels, properties(n) AS props");
    Ok(CypherQuery::new(t, cypher::with_param("nids", cypher::int_list(nids))))
}

/// The edges between the nodes of the ids, edges to sources left out.
pub open spec fn edges_among_query(
    ids: Seq<Seq<char>>,
    edge_cap: nat,
    prefix: Option<Seq<char>>,
) -> Result<CypherQueryModel, ExploreErrorModel> {
    match suffix_of(prefix) {
        Err(e) => Err(e),
        Ok(p) => Ok(
            CypherQueryModel {
                text: "MATCH (a"@ + p + ")-[r]->(b"@ + p + ") WHERE "@
                    + ids_condition("a.id"@, ids, ""@) + " AND "@
                    + ids_condition("b.id"@, ids, ""@) + " AND NOT type(r) IN "@ + builtin_rels()
                    + " RETURN a.id AS from_id, b.id AS to_id, type(r) AS rel, properties(r) AS props LIMIT "@
                    + text::nat_text(edge_cap),
                params: ids_params(ids, ""@),
            },
        ),
    }
}

/// The edges between the nodes of the ids, edges to sources left out.
pub fn edges_among(
    ids: &[String],
    edge_cap: usize,
    prefix: Option<&str>,
) -> (r: Result<CypherQuery, ExploreError>)
    ensures
        query_model(r) == edges_among_query(ids.deep_view(), edge_cap as nat, prefix.deep_view()),
{
    let p = match label_suffix(prefix) {
        Ok(p) => p,
        Err(e) => return Err(e),
    };
    let builtin = builtin_rels_cypher_list();
    let (from, params) = id_list_predicate("a.id", ids, "");
    let (to, _) = id_list_predicate("b.id", ids, "");
    let cap = text::usize_text(edge_cap);
    let mut t = "MATCH (a".to_owned();
    t.append(p.as_str());
    t.append(")-[r]->(b");
    t.append(p.as_str());
    t.append(") WHERE ");
    t.append(from.as_str());
    t.append(" AND ");
    t.append(to.as_str());
    t.append(" AND NOT type(r) IN ");
    t.append(builtin.as_str());
    t.append(" RETURN a.id AS from_id, b.id AS to_id, type(r) AS rel, properties(r) AS props LIMIT ");
    t.append(cap.as_str());
    Ok(CypherQuery::new(t, params))
}

/// How many nodes carry each set of labels.
pub open spec fn label_set_counts_query(
    prefix: Option<Seq<char>>,
) -> Result<CypherQueryModel, ExploreErrorModel> {
    match suffix_of(prefix) {
        Err(e) => Err(e),
        Ok(p) => Ok(
            CypherQueryModel {
                text: "MATCH (n"@ + p + ") RETURN labels(n) AS labels, count(*) AS cnt"@,
                params: cypher::no_params(),
            },
        ),
    }
}

/// How many nodes carry each set of labels.
pub fn label_set_counts(prefix: Option<&str>) -> (r: Result<CypherQuery, ExploreError>)
    ensures
        query_model(r) == label_set_counts_query(prefix.deep_view()),
{
    let p = match label_suffix(prefix) {
        Ok(p) => p,
        Err(e) => return Err(e),
    };
    let mut t = "MATCH (n".to_owned();
    t.append(p.as_str());
    t.append(") RETURN labels(n) AS labels, count(*) AS cnt");
    Ok(CypherQuery::new(t, StrMap::new()))
}

/// How many relations there are of each type.
pub open spec fn relation_type_counts_query(
    prefix: Option<Seq<char>>,
) -> Result<CypherQueryModel, ExploreErrorModel> {
    match suffix_of(prefix) {
        Err(e) => Err(e),
        Ok(p) => Ok(
            CypherQueryModel {
                text: "MATCH (a"@ + p + ")-[r]->(b"@ + p
                    + ") RETURN type(r) AS rel, count(*) AS cnt ORDER BY cnt DESC"@,
                params: cypher::no_params(),
            },
        ),
    }
}

/// How many relations there are of each type.
pub fn relation_type_counts(prefix: Option<&str>) -> (r: Result<CypherQuery, ExploreError>)
    ensures
        query_model(r) == relation_type_counts_query(prefix.deep_view()),
{
    let p = match label_suffix(prefix) {
        Ok(p) => p,
        Err(e) => return Err(e),
    };
    let mut t = "MATCH (a".to_owned();
    t.append(p.as_str());
    t.append(")-[r]->(b");
    t.append(p.as_str());
    t.append(") RETURN type(r) AS rel, count(*) AS cnt ORDER BY cnt DESC");
    Ok(CypherQuery::new(t, StrMap::new()))
}

/// The sources by name.
pub open spec fn list_sources_query(
    limit: nat,
    prefix: Option<Seq<char>>,
) -> Result<CypherQueryModel, ExploreErrorModel> {
    match suffix_of(prefix) {
        Err(e) => Err(e),
        Ok(p) => Ok(
            CypherQueryModel {
                text: "MATCH (s:"@ + SOURCE_LABEL@ + p
                    + ") RETURN s.id AS id, s.name AS name ORDER BY name ASC LIMIT "@
                    + text::nat_text(limit),
                params: cypher::no_params(),
            },
        ),
    }
}

/// The sources by name.
pub fn list_sources(limit: u32, prefix: Option<&str>) -> (r: Result<CypherQuery, ExploreError>)
    ensures
        query_model(r) == list_sources_query(limit as nat, prefix.deep_view()),
{
    let p = match label_suffix(prefix) {
        Ok(p) => p,
        Err(e) => return Err(e),
    };
    let cap = text::u64_text(limit as u64);
    let mut t = "MATCH (s:".to_owned();
    t.append(SOURCE_LABEL);
    t.append(p.as_str());
    t.append(") RETURN s.id AS id, s.name AS name ORDER BY name ASC LIMIT ");
    t.append(cap.as_str());
    Ok(CypherQuery::new(t, StrMap::new()))
}

/// The name of the normalised copy of a property.
pub open spec fn normalized_name(property: Seq<char>) -> Seq<char> {
    "_lg_norm_"@ + property
}

/// The name of the normalised copy of a property.
pub fn normalized_property_name(property: &str) -> (r: String)
    ensures
        r@ == normalized_name(property@),
{
    let mut s = "_lg_norm_".to_owned();
    s.append(property);
    s
}

/// A value as it is compared with normalised copies: in lower case.
pub fn normalize_for_match(value: &str) -> (r: String)
    ensures
        r@ == text::lowercase(value@),
{
    text::to_lowercase(value)
}

/// The condition on one property.
pub open spec fn keyword_condition(property: Seq<char>, exact: bool) -> Seq<char> {
    if exact {
        "n."@ + property + " = $q"@
    } else {
        "toString(coalesce(n."@ + normalized_name(property) + ", \"\")) CONTAINS $q"@
    }
}

/// The conditions on the properties that are identifiers, joined by `OR`. Other
/// names are passed over.
pub open spec fn keyword_conditions(properties: Seq<Seq<char>>, exact: bool) -> Option<Seq<char>>
    decreases properties.len(),
{
    if properties.len() == 0 {
        None
    } else {
        let before = keyword_conditions(properties.drop_last(), exact);
        let last = properties.last();
        if !text::is_identifier(last) {
            before
        } else {
            match before {
                Some(t) => Some(t + " OR "@ + keyword_condition(last, exact)),
                None => Some(keyword_condition(last, exact)),
            }
        }
    }
}

/// A search for a word in properties.
pub open spec fn keyword_query(
    needle: Seq<char>,
    properties: Seq<Seq<char>>,
    entity_type: Option<Seq<char>>,
    exact: bool,
    limit: nat,
    prefix: Option<Seq<char>>,
) -> Result<CypherQueryModel, ExploreErrorModel> {
    match suffix_of(prefix) {
        Err(e) => Err(e),
        Ok(p) => match suffix_of(entity_type) {
            Err(e) => Err(e),
            Ok(label) => match keyword_conditions(properties, exact) {
                None => Err(ExploreErrorModel::NoSearchableProperties),
                Some(condition) => Ok(
                    CypherQueryModel {
                        text: "MATCH (n"@ + label + p + ") WHERE "@ + (if entity_type is None {
                            "NOT n:Chunk AND "@
                        } else {
                            Seq::empty()
                        }) + "("@ + condition
                            + ") RETURN id(n) AS nid, n.id AS id, labels(n) AS labels, properties(n) AS props LIMIT "@
                            + text::nat_text(limit),
                        params: cypher::one_param(
                            "q"@,
                            LiteralModel::Str(
                                if exact {
                                    needle
                                } else {
                                    text::lowercase(needle)
                                },
                            ),
                        ),
                    },
                ),
            },
        },
    }
}

/// A search for a word in the given properties, which have to hold texts.
/// Chunks are left out unless a type is asked for.
pub fn keyword_search(
    needle: &str,
    string_props: &[String],
    entity_type: Option<&str>,
    exact: bool,
    limit: u32,
    prefix: Option<&str>,
) -> (r: Result<CypherQuery, ExploreError>)
    ensures
        query_model(r) == keyword_query(
            needle@,
            string_props.deep_view(),
            entity_type.deep_view(),
            exact,
            limit as nat,
            prefix.deep_view(),
        ),
{
    let p = match label_suffix(prefix) {
        Ok(p) => p,
        Err(e) => return Err(e),
    };
    let label = match label_suffix(entity_type) {
        Ok(l) => l,
        Err(e) => return Err(e),
    };
    let ghost all = string_props.deep_view();
    let mut condition: Option<String> = None;
    let mut i: usize = 0;
    while i < string_props.len()
        invariant
            all == string_props.deep_view(),
            0 <= i <= string_props@.len(),
            condition.deep_view() == keyword_conditions(all.take(i as int), exact),
        decreases string_props@.len() - i,
    {
        proof {
            assert(all.take(i + 1).drop_last() =~= all.take(i as int));
            assert(all.take(i + 1).last() == string_props@[i as int]@);
        }
        if text::identifier(string_props[i].as_str()) {
            let mut one = if exact {
                "n.".to_owned()
            } else {
                "toString(coalesce(n.".to_owned()
            };
            if exact {
                one.append(string_props[i].as_str());
                one.append(" = $q");
            } else {
                one.append(normalized_property_name(string_props[i].as_str()).as_str());
                one.append(", \"\")) CONTAINS $q");
            }
            condition = match condition {
                Some(mut t) => {
                    t.append(" OR ");
                    t.append(one.as_str());
                    Some(t)
                },
                None => Some(one),
            };
        }
        i += 1;
    }
    assert(all.take(i as int) =~= all);
    let condition = match condition {
        Some(c) => c,
        None => return Err(ExploreError::NoSearchableProperties),
    };
    let guard = if entity_type.is_none() {
        "NOT n:Chunk AND ".to_owned()
    } else {
        String::new()
    };
    let mut t = "MATCH (n".to_owned();
    t.append(label.as_str());
    t.append(p.as_str());
    t.append(") WHERE ");
    t.append(guard.as_str());
    t.append("(");
    t.append(condition.as_str());
    t.append(
        ") RETURN id(n) AS nid, n.id AS id, labels(n) AS labels, properties(n) AS props LIMIT ",
    );
    t.append(text::u64_text(limit as u64).as_str());
    let value = if exact {
        needle.to_owned()
    } else {
        normalize_for_match(needle)
    };
    Ok(CypherQuery::new(t, cypher::with_param("q", Literal::String(value))))
}

/// A name, where it is an identifier.
pub open spec fn checked_name(s: Seq<char>) -> Result<Seq<char>, ExploreErrorModel> {
    if text::is_identifier(s) {
        Ok(s)
    } else {
        Err(not_identifier(s))
    }
}

fn validated_ident(raw: &str) -> (r: Result<(), ExploreError>)
    ensures
        match r {
            Ok(_) => text::is_identifier(raw@),
            Err(e) => !text::is_identifier(raw@) && e.deep_view() == not_identifier(raw@),
        },
{
    if text::identifier(raw) {
        Ok(())
    } else {
        Err(ExploreError::InvalidIdentifier(raw.to_owned()))
    }
}

/// A page of the entities of a type.
pub open spec fn table_page_query(
    entity_type: Seq<char>,
    sort_prop: Seq<char>,
    limit: nat,
    offset: nat,
    prefix: Option<Seq<char>>,
) -> Result<CypherQueryModel, ExploreErrorModel> {
    match (suffix_of(prefix), checked_name(entity_type), checked_name(sort_prop)) {
        (Err(e), _, _) => Err(e),
        (_, Err(e), _) => Err(e),
        (_, _, Err(e)) => Err(e),
        (Ok(p), Ok(kind), Ok(sort)) => Ok(
            CypherQueryModel {
                text: "MATCH (n:"@ + kind + p
                    + ") RETURN id(n) AS nid, n.id AS id, labels(n) AS labels, properties(n) AS props ORDER BY n."@
                    + sort + " ASC SKIP "@ + text::nat_text(offset) + " LIMIT "@
                    + text::nat_text(limit),
                params: cypher::no_params(),
            },
        ),
    }
}

/// A page of the entities of a type, in the order of a property.
pub fn entity_table_page(
    entity_type: &str,
    sort_prop: &str,
    limit: u32,
    offset: u32,
    prefix: Option<&str>,
) -> (r: Result<CypherQuery, ExploreError>)
    ensures
        query_model(r) == table_page_query(
            entity_type@,
            sort_prop@,
            limit as nat,
            offset as nat,
            prefix.deep_view(),
        ),
{
    let p = match label_suffix(prefix) {
        Ok(p) => p,
        Err(e) => return Err(e),
    };
    if let Err(e) = validated_ident(entity_type) {
        return Err(e);
    }
    if let Err(e) = validated_ident(sort_prop) {
        return Err(e);
    }
    let mut t = "MATCH (n:".to_owned();
    t.append(entity_type);
    t.append(p.as_str());
    t.append(
        ") RETURN id(n) AS nid, n.id AS id, labels(n) AS labels, properties(n) AS props ORDER BY n.",
    );
    t.append(sort_prop);
    t.append(" ASC SKIP ");
    t.append(text::u64_text(offset as u64).as_str());
    t.append(" LIMIT ");
    t.append(text::u64_text(limit as u64).as_str());
    Ok(CypherQuery::new(t, StrMap::new()))
}

/// How many entities of a type there are.
pub open spec fn entity_count_query(entity_type: Seq<char>, prefix: Option<Seq<char>>) -> Result<
    CypherQueryModel,
    ExploreErrorModel,
> {
    match (suffix_of(prefix), checked_name(entity_type)) {
        (Err(e), _) => Err(e),
        (_, Err(e)) => Err(e),
        (Ok(p), Ok(kind)) => Ok(
            CypherQueryModel {
                text: "MATCH (n:"@ + kind + p + ") RETURN count(n) AS total"@,
                params: cypher::no_params(),
            },
        ),
    }
}

/// How many entities of a type there are.
pub fn entity_count(entity_type: &str, prefix: Option<&str>) -> (r: Result<
    CypherQuery,
    ExploreError,
>)
    ensures
        query_model(r) == entity_count_query(entity_type@, prefix.deep_view()),
{
    let p = match label_suffix(prefix) {
        Ok(p) => p,
        Err(e) => return Err(e),
    };
    if let Err(e) = validated_ident(entity_type) {
        return Err(e);
    }
    let mut t = "MATCH (n:".to_owned();
    t.append(entity_type);
    t.append(p.as_str());
    t.append(") RETURN count(n) AS total");
    Ok(CypherQuery::new(t, StrMap::new()))
}

/// A prefix, an entity type or a sort property that is no identifier never
/// reaches the text of a query: the query is refused.
pub proof fn law_only_identifiers_are_written(
    entity_type: Seq<char>,
    sort_prop: Seq<char>,
    limit: nat,
    offset: nat,
    prefix: Option<Seq<char>>,
    handle: NodeHandleModel,
    neighbors: NeighborQueryModel,
    needle: Seq<char>,
    properties: Seq<Seq<char>>,
    exact: bool,
)
    ensures
        table_page_query(entity_type, sort_prop, limit, offset, prefix) is Ok ==>
            text::is_identifier(entity_type) && text::is_identifier(sort_prop),
        entity_count_query(entity_type, prefix) is Ok ==> text::is_identifier(entity_type),
        prefix is Some && !text::is_identifier(prefix->0) ==> table_page_query(
            entity_type,
            sort_prop,
            limit,
            offset,
            prefix,
        ) is Err && entity_count_query(entity_type, prefix) is Err && entity_by_id_query(
            handle,
            prefix,
        ) is Err && relation_summary_query(handle, prefix) is Err && neighbors_query(
            neighbors,
            prefix,
        ) is Err && keyword_query(needle, properties, Some(entity_type), exact, limit, prefix) is Err,
        keyword_query(needle, properties, Some(entity_type), exact, limit, prefix) is Ok ==>
            text::is_identifier(entity_type),
{
}

/// A property whose name is no identifier adds nothing to a search.
pub proof fn law_odd_names_are_passed_over(properties: Seq<Seq<char>>, odd: Seq<char>, exact: bool)
    requires
        !text::is_identifier(odd),
    ensures
        keyword_conditions(properties.push(odd), exact) == keyword_conditions(properties, exact),
{
    assert(properties.push(odd).drop_last() =~= properties);
}

} // verus!
