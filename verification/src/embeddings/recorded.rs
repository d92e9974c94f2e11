//! An embedder behind a record of what it is asked for.

use vstd::prelude::*;
use crate::embeddings::EmbedError;
use crate::embeddings::Embedder;

verus! {

/// An embedder that is reached through its record alone: every request made of it
/// is in the record, in order.
pub struct Recorded<'a, E: Embedder> {
    embedder: &'a E,
    asked: Ghost<Seq<Seq<Seq<char>>>>,
}

impl<'a, E: Embedder> Recorded<'a, E> {
    /// The embedder behind the record.
    pub closed spec fn backend(&self) -> &'a E {
        self.embedder
    }

    /// The texts of every request so far.
    pub closed spec fn asked(&self) -> Seq<Seq<Seq<char>>> {
        self.asked@
    }

    /// The embedder, not asked for anything yet.
    pub fn new(embedder: &'a E) -> (r: Self)
        ensures
            r.backend() == embedder,
            r.asked() == Seq::<Seq<Seq<char>>>::empty(),
    {
        Recorded { embedder, asked: Ghost(Seq::empty()) }
    }

    /// Ask the embedder for the vectors of the texts.
    pub fn embed_batch(&mut self, texts: &Vec<String>) -> (r: Result<Vec<Vec<u32>>, EmbedError>)
        ensures
            call_ensures(E::embed_batch, (old(self).backend(), texts), r),
            final(self).backend() == old(self).backend(),
            final(self).asked() == old(self).asked().push(texts.deep_view()),
    {
        let reply = self.embedder.embed_batch(texts);
        self.asked = Ghost(self.asked@.push(texts.deep_view()));
        reply
    }
}

} // verus!
