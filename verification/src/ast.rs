//! The insert query: batches of rows of bounded size.

use vstd::prelude::*;
use crate::literal::Literal;
use crate::literal::LiteralModel;
use crate::strmap::StrMap;

verus! {

/// One node to merge; the labels of its scopes go on it beside those of its batch.
#[derive(Debug, PartialEq)]
pub struct NodeRow {
    pub id: Literal,
    pub props: StrMap<Literal>,
    pub scope_labels: Vec<String>,
}

pub struct NodeRowModel {
    pub id: LiteralModel,
    pub props: Seq<(Seq<char>, LiteralModel)>,
    pub scope_labels: Seq<Seq<char>>,
}

impl DeepView for NodeRow {
    type V = NodeRowModel;

    open spec fn deep_view(&self) -> NodeRowModel {
        NodeRowModel {
            id: self.id.deep_view(),
            props: self.props.deep_view(),
            scope_labels: self.scope_labels.deep_view(),
        }
    }
}

/// Nodes of one label, merged on one property; the optional labels go on every
/// one of them.
#[derive(Debug, PartialEq)]
pub struct NodeBatch {
    pub label: String,
    pub merge_on: String,
    pub prefix_label: Option<String>,
    pub domain_label: Option<String>,
    pub rows: Vec<NodeRow>,
}

pub struct NodeBatchModel {
    pub label: Seq<char>,
    pub merge_on: Seq<char>,
    pub prefix_label: Option<Seq<char>>,
    pub domain_label: Option<Seq<char>>,
    pub rows: Seq<NodeRowModel>,
}

impl DeepView for NodeBatch {
    type V = NodeBatchModel;

    open spec fn deep_view(&self) -> NodeBatchModel {
        NodeBatchModel {
            label: self.label@,
            merge_on: self.merge_on@,
            prefix_label: self.prefix_label.deep_view(),
            domain_label: self.domain_label.deep_view(),
            rows: self.rows.deep_view(),
        }
    }
}

/// One relation to merge.
#[derive(Debug, PartialEq)]
pub struct RelationRow {
    pub from_id: Literal,
    pub to_id: Literal,
    pub props: StrMap<Literal>,
}

pub struct RelationRowModel {
    pub from_id: LiteralModel,
    pub to_id: LiteralModel,
    pub props: Seq<(Seq<char>, LiteralModel)>,
}

impl DeepView for RelationRow {
    type V = RelationRowModel;

    open spec fn deep_view(&self) -> RelationRowModel {
        RelationRowModel {
            from_id: self.from_id.deep_view(),
            to_id: self.to_id.deep_view(),
            props: self.props.deep_view(),
        }
    }
}

/// Relations of one type between nodes of two labels.
#[derive(Debug, PartialEq)]
pub struct RelationBatch {
    pub rel_type: String,
    pub from_label: String,
    pub from_key: String,
    pub to_label: String,
    pub to_key: String,
    pub prefix_label: Option<String>,
    pub domain_label: Option<String>,
    pub rows: Vec<RelationRow>,
}

pub struct RelationBatchModel {
    pub rel_type: Seq<char>,
    pub from_label: Seq<char>,
    pub from_key: Seq<char>,
    pub to_label: Seq<char>,
    pub to_key: Seq<char>,
    pub prefix_label: Option<Seq<char>>,
    pub domain_label: Option<Seq<char>>,
    pub rows: Seq<RelationRowModel>,
}

impl DeepView for RelationBatch {
    type V = RelationBatchModel;

    open spec fn deep_view(&self) -> RelationBatchModel {
        RelationBatchModel {
            rel_type: self.rel_type@,
            from_label: self.from_label@,
            from_key: self.from_key@,
            to_label: self.to_label@,
            to_key: self.to_key@,
            prefix_label: self.prefix_label.deep_view(),
            domain_label: self.domain_label.deep_view(),
            rows: self.rows.deep_view(),
        }
    }
}

/// All batches of one ingestion: nodes first, then the relations between them.
#[derive(Debug, PartialEq)]
pub struct InsertQuery {
    pub node_batches: Vec<NodeBatch>,
    pub relation_batches: Vec<RelationBatch>,
}

pub struct InsertQueryModel {
    pub node_batches: Seq<NodeBatchModel>,
    pub relation_batches: Seq<RelationBatchModel>,
}

impl DeepView for InsertQuery {
    type V = InsertQueryModel;

    open spec fn deep_view(&self) -> InsertQueryModel {
        InsertQueryModel {
            node_batches: self.node_batches.deep_view(),
            relation_batches: self.relation_batches.deep_view(),
        }
    }
}

/// `s` cut into runs of `n` items; the last run may be shorter.
pub open spec fn chunked<T>(s: Seq<T>, n: nat) -> Seq<Seq<T>>
    decreases s.len(),
{
    if s.len() == 0 || n == 0 {
        Seq::empty()
    } else if s.len() <= n {
        seq![s]
    } else {
        seq![s.take(n as int)] + chunked(s.skip(n as int), n)
    }
}

/// The runs put together again.
pub open spec fn flattened<T>(runs: Seq<Seq<T>>) -> Seq<T>
    decreases runs.len(),
{
    if runs.len() == 0 {
        Seq::empty()
    } else {
        runs[0] + flattened(runs.drop_first())
    }
}

/// Cutting into runs keeps every item in its place, and no run is empty or
/// longer than the limit.
pub proof fn law_chunks_keep_rows<T>(s: Seq<T>, n: nat)
    requires
        n > 0,
    ensures
        flattened(chunked(s, n)) == s,
        forall|i: int|
            0 <= i < chunked(s, n).len() ==> 0 < (#[trigger] chunked(s, n)[i]).len() <= n,
    decreases s.len(),
{
    let runs = chunked(s, n);
    if s.len() == 0 {
        assert(flattened(runs) =~= s);
    } else if s.len() <= n {
        assert(flattened(runs.drop_first()) =~= Seq::<T>::empty());
        assert(flattened(runs) =~= s);
    } else {
        let rest = s.skip(n as int);
        law_chunks_keep_rows(rest, n);
        assert(runs.drop_first() =~= chunked(rest, n));
        assert(flattened(runs) =~= s);
        assert forall|i: int| 0 <= i < runs.len() implies 0 < (#[trigger] runs[i]).len() <= n by {
            if i > 0 {
                assert(runs[i] == chunked(rest, n)[i - 1]);
            }
        }
    }
}

proof fn chunked_prepends<T>(done: Seq<Seq<T>>, s: Seq<T>, n: nat)
    requires
        0 < n < s.len(),
    ensures
        done + chunked(s, n) == done.push(s.take(n as int)) + chunked(s.skip(n as int), n),
{
    assert(done + chunked(s, n) =~= done.push(s.take(n as int)) + chunked(s.skip(n as int), n));
}

/// Cut rows into runs of `n`.
pub fn chunk_rows<T: DeepView>(rows: Vec<T>, n: usize) -> (r: Vec<Vec<T>>)
    requires
        n > 0,
    ensures
        r.deep_view() == chunked(rows.deep_view(), n as nat),
{
    let ghost all = rows.deep_view();
    let mut rest = rows;
    let mut out: Vec<Vec<T>> = Vec::new();
    assert(out.deep_view() + chunked(all, n as nat) =~= chunked(all, n as nat));
    while rest.len() > n
        invariant
            n > 0,
            out.deep_view() + chunked(rest.deep_view(), n as nat) == chunked(all, n as nat),
        decreases rest@.len(),
    {
        let ghost s = rest.deep_view();
        let ghost done = out.deep_view();
        let tail = rest.split_off(n);
        assert(rest.deep_view() =~= s.take(n as int));
        assert(tail.deep_view() =~= s.skip(n as int));
        out.push(rest);
        assert(out.deep_view() =~= done.push(s.take(n as int)));
        proof {
            chunked_prepends(done, s, n as nat);
        }
        rest = tail;
    }
    if rest.len() > 0 {
        let ghost s = rest.deep_view();
        let ghost done = out.deep_view();
        out.push(rest);
        assert(out.deep_view() =~= done + seq![s]);
    } else {
        assert(out.deep_view() + chunked(rest.deep_view(), n as nat) =~= out.deep_view());
    }
    out
}

} // verus!
