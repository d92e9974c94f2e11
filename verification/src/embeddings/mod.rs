//! Embeddings: sparse terms, stored vectors and their cache.
//!
//! A vector is held by the bits of its 32-bit floats, and so is a score.

use vstd::prelude::*;
use crate::text;

pub mod batches;
pub mod bm25;
pub mod cache;
pub mod laws;
pub mod recorded;
pub mod store;

verus! {

broadcast use vstd::string::group_string_axioms;

/// Why texts could not be embedded.
#[derive(Debug, PartialEq)]
pub enum EmbedError {
    Io(String),
    Backend(String),
    Unconfigured(String),
}

pub enum EmbedErrorModel {
    Io(Seq<char>),
    Backend(Seq<char>),
    Unconfigured(Seq<char>),
}

impl DeepView for EmbedError {
    type V = EmbedErrorModel;

    open spec fn deep_view(&self) -> EmbedErrorModel {
        match self {
            EmbedError::Io(m) => EmbedErrorModel::Io(m@),
            EmbedError::Backend(m) => EmbedErrorModel::Backend(m@),
            EmbedError::Unconfigured(m) => EmbedErrorModel::Unconfigured(m@),
        }
    }
}

/// The text of an embedding error.
pub open spec fn embed_error_text(e: EmbedErrorModel) -> Seq<char> {
    match e {
        EmbedErrorModel::Io(m) => "embedder I/O error: "@ + m,
        EmbedErrorModel::Backend(m) => "embedder backend error: "@ + m,
        EmbedErrorModel::Unconfigured(m) => "embedder is not configured for model '"@ + m + "'"@,
    }
}

impl EmbedError {
    /// The text of the error.
    pub fn message(&self) -> (r: String)
        ensures
            r@ == embed_error_text(self.deep_view()),
    {
        match self {
            EmbedError::Io(m) => {
                let mut s = "embedder I/O error: ".to_owned();
                s.append(m.as_str());
                s
            },
            EmbedError::Backend(m) => {
                let mut s = "embedder backend error: ".to_owned();
                s.append(m.as_str());
                s
            },
            EmbedError::Unconfigured(m) => {
                let mut s = "embedder is not configured for model '".to_owned();
                s.append(m.as_str());
                s.append("'");
                s
            },
        }
    }
}

/// An embedding backend. Nothing is promised of what it answers.
pub trait Embedder {
    /// Length of the vectors that the backend makes.
    fn dim(&self) -> usize;

    /// The vectors of the texts, each by the bits of its components.
    fn embed_batch(&self, texts: &Vec<String>) -> Result<Vec<Vec<u32>>, EmbedError>;
}

/// What an embedder answered.
pub open spec fn reply_model(reply: Result<Vec<Vec<u32>>, EmbedError>) -> Result<
    Seq<Seq<u32>>,
    EmbedErrorModel,
> {
    match reply {
        Ok(v) => Ok(v.deep_view()),
        Err(e) => Err(e.deep_view()),
    }
}

/// A message on a backend that gave `got` things, worded `what`, for `asked`.
pub open spec fn count_mismatch(
    who: Seq<char>,
    got: nat,
    what: Seq<char>,
    asked: nat,
    of: Seq<char>,
) -> EmbedErrorModel {
    EmbedErrorModel::Backend(
        who + " returned "@ + text::nat_text(got) + what + text::nat_text(asked) + of,
    )
}

/// The error of a backend that answered with the wrong number of things.
pub fn count_error(who: &str, got: usize, what: &str, asked: usize, of: &str) -> (r: EmbedError)
    ensures
        r.deep_view() == count_mismatch(who@, got as nat, what@, asked as nat, of@),
{
    let mut m = who.to_owned();
    m.append(" returned ");
    m.append(text::usize_text(got).as_str());
    m.append(what);
    m.append(text::usize_text(asked).as_str());
    m.append(of);
    EmbedError::Backend(m)
}

/// The vector of a single text: the last one of the batch.
pub open spec fn sole(out: Seq<Seq<u32>>) -> Result<Seq<u32>, EmbedErrorModel> {
    if out.len() == 0 {
        Err(EmbedErrorModel::Backend("empty embedder output"@))
    } else {
        Ok(out.last())
    }
}

/// The vector of a single text, out of the batch that was made for it.
pub fn sole_vector(out: Vec<Vec<u32>>) -> (r: Result<Vec<u32>, EmbedError>)
    ensures
        match r {
            Ok(v) => sole(out.deep_view()) == Ok::<Seq<u32>, EmbedErrorModel>(v@),
            Err(e) => sole(out.deep_view()) == Err::<Seq<u32>, EmbedErrorModel>(e.deep_view()),
        },
{
    let ghost all = out.deep_view();
    let mut out = out;
    match out.pop() {
        Some(v) => {
            assert(v.deep_view() =~= v@);
            Ok(v)
        },
        None => Err(EmbedError::Backend("empty embedder output".to_owned())),
    }
}

/// What is wrong with the vectors of documents that a query vector is compared
/// with: their number, or the length of the first that differs.
pub open spec fn rerank_fault(lengths: Seq<nat>, documents: nat, query: nat) -> Option<
    EmbedErrorModel,
> {
    if lengths.len() != documents {
        Some(
            count_mismatch(
                "reranker embedder"@,
                lengths.len(),
                " vectors for "@,
                documents,
                " documents"@,
            ),
        )
    } else {
        first_length_fault(lengths, query)
    }
}

/// The fault of the first length that is not the query's.
pub open spec fn first_length_fault(lengths: Seq<nat>, query: nat) -> Option<EmbedErrorModel>
    decreases lengths.len(),
{
    if lengths.len() == 0 {
        None
    } else {
        match first_length_fault(lengths.drop_last(), query) {
            Some(e) => Some(e),
            None => if lengths.last() != query {
                Some(
                    EmbedErrorModel::Backend(
                        "reranker embedding dimension mismatch: document vector has "@
                            + text::nat_text(lengths.last()) + ", query vector has "@
                            + text::nat_text(query),
                    ),
                )
            } else {
                None
            },
        }
    }
}

/// The lengths of vectors.
pub open spec fn lengths_of(vectors: Seq<Seq<u32>>) -> Seq<nat> {
    Seq::new(vectors.len(), |i: int| vectors[i].len())
}

/// Can a query vector be compared with the vectors of the documents?
pub fn check_rerank(vectors: &Vec<Vec<u32>>, documents: usize, query: usize) -> (r: Result<
    (),
    EmbedError,
>)
    ensures
        match r {
            Ok(_) => rerank_fault(
                lengths_of(vectors.deep_view()),
                documents as nat,
                query as nat,
            ) is None,
            Err(e) => rerank_fault(
                lengths_of(vectors.deep_view()),
                documents as nat,
                query as nat,
            ) == Some(e.deep_view()),
        },
{
    let ghost all = lengths_of(vectors.deep_view());
    if vectors.len() != documents {
        return Err(
            count_error("reranker embedder", vectors.len(), " vectors for ", documents, " documents"),
        );
    }
    let mut i: usize = 0;
    while i < vectors.len()
        invariant
            all == lengths_of(vectors.deep_view()),
            all.len() == documents,
            0 <= i <= vectors@.len(),
            first_length_fault(all.take(i as int), query as nat) is None,
        decreases vectors@.len() - i,
    {
        proof {
            assert(all.take(i + 1).drop_last() =~= all.take(i as int));
            assert(all.take(i + 1).last() == vectors@[i as int]@.len());
        }
        if vectors[i].len() != query {
            let mut m = "reranker embedding dimension mismatch: document vector has ".to_owned();
            m.append(text::usize_text(vectors[i].len()).as_str());
            m.append(", query vector has ");
            m.append(text::usize_text(query).as_str());
            proof {
                fault_stays(all, i + 1, query as nat);
            }
            return Err(EmbedError::Backend(m));
        }
        i += 1;
    }
    assert(all.take(i as int) =~= all);
    Ok(())
}

proof fn fault_stays(lengths: Seq<nat>, n: int, query: nat)
    requires
        0 <= n <= lengths.len(),
        first_length_fault(lengths.take(n), query) is Some,
    ensures
        first_length_fault(lengths, query) == first_length_fault(lengths.take(n), query),
    decreases lengths.len(),
{
    if n == lengths.len() {
        assert(lengths.take(n) =~= lengths);
    } else {
        let rest = lengths.drop_last();
        assert(rest.take(n) =~= lengths.take(n));
        fault_stays(rest, n, query);
    }
}

/// Bits of a 32-bit float that is not a number.
pub open spec fn is_nan(bits: u32) -> bool {
    bits % 0x8000_0000 > 0x7f80_0000
}

/// The place of a number among the numbers: both zeros are `0`.
pub open spec fn value_rank(bits: u32) -> int {
    if bits < 0x8000_0000 {
        bits as int
    } else {
        0x8000_0000 - bits
    }
}

/// `a >= b` as floats compare: never where one of them is not a number.
pub open spec fn at_least(a: u32, b: u32) -> bool {
    !is_nan(a) && !is_nan(b) && value_rank(a) >= value_rank(b)
}

/// The place of a float in the total order of all bits: negative zero comes
/// before zero, and what is not a number beyond the infinities of its sign.
pub open spec fn total_rank(bits: u32) -> int {
    if bits < 0x8000_0000 {
        bits as int
    } else {
        0x7fff_ffff - bits
    }
}

/// Is the float `a` at least `b`?
pub fn float_at_least(a: u32, b: u32) -> (r: bool)
    ensures
        r == at_least(a, b),
{
    if a % 0x8000_0000 > 0x7f80_0000 || b % 0x8000_0000 > 0x7f80_0000 {
        return false;
    }
    let x: i64 = if a < 0x8000_0000 {
        a as i64
    } else {
        0x8000_0000i64 - a as i64
    };
    let y: i64 = if b < 0x8000_0000 {
        b as i64
    } else {
        0x8000_0000i64 - b as i64
    };
    x >= y
}

/// The place of the float in the total order.
pub fn float_place(bits: u32) -> (r: i64)
    ensures
        r == total_rank(bits),
{
    if bits < 0x8000_0000 {
        bits as i64
    } else {
        0x7fff_ffffi64 - bits as i64
    }
}

/// Bits of a 64-bit float that is not a number.
pub open spec fn is_wide_nan(bits: u64) -> bool {
    bits % 0x8000_0000_0000_0000 > 0x7ff0_0000_0000_0000
}

/// The place of a number among the numbers: both zeros are `0`.
pub open spec fn wide_rank(bits: u64) -> int {
    if bits < 0x8000_0000_0000_0000 {
        bits as int
    } else {
        0x8000_0000_0000_0000 - bits
    }
}

/// `a >= b` as floats compare.
pub open spec fn wide_at_least(a: u64, b: u64) -> bool {
    !is_wide_nan(a) && !is_wide_nan(b) && wide_rank(a) >= wide_rank(b)
}

/// Is the 64-bit float `a` at least `b`?
pub fn double_at_least(a: u64, b: u64) -> (r: bool)
    ensures
        r == wide_at_least(a, b),
{
    if a % 0x8000_0000_0000_0000 > 0x7ff0_0000_0000_0000 || b % 0x8000_0000_0000_0000
        > 0x7ff0_0000_0000_0000 {
        return false;
    }
    let x: i128 = if a < 0x8000_0000_0000_0000 {
        a as i128
    } else {
        0x8000_0000_0000_0000i128 - a as i128
    };
    let y: i128 = if b < 0x8000_0000_0000_0000 {
        b as i128
    } else {
        0x8000_0000_0000_0000i128 - b as i128
    };
    x >= y
}

/// `a < b` as floats compare.
pub open spec fn wide_less(a: u64, b: u64) -> bool {
    !is_wide_nan(a) && !is_wide_nan(b) && wide_rank(a) < wide_rank(b)
}

/// Is the 64-bit float `a` less than `b`?
pub fn double_less(a: u64, b: u64) -> (r: bool)
    ensures
        r == wide_less(a, b),
{
    double_at_least(b, a) && !double_at_least(a, b)
}

/// The total order of floats is total on their bits: two floats in the same
/// place are the same.
pub proof fn law_total_rank_separates(a: u32, b: u32)
    ensures
        total_rank(a) == total_rank(b) <==> a == b,
{
}

} // verus!
