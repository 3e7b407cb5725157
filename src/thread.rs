use vstd::prelude::*;

use crate::message::{duplicate_optional_embedding, embedding_view, Embedding};
use crate::outside::random_id;

verus! {

/// What a stored thread holds.
pub struct ThreadView {
    pub id: u128,
    pub summary: Option<Seq<char>>,
    pub summary_embedding: Option<Seq<u32>>,
}

/// A conversation thread, with the running summary of its messages and that
/// summary's embedding once enrichment has written them.
#[derive(Clone, Debug)]
pub struct Thread {
    pub id: u128,
    pub summary: Option<String>,
    pub summary_embedding: Option<Embedding>,
}

pub open spec fn summary_view(s: Option<String>) -> Option<Seq<char>> {
    match s {
        Some(t) => Some(t@),
        None => None,
    }
}

impl View for Thread {
    type V = ThreadView;

    open spec fn view(&self) -> ThreadView {
        ThreadView {
            id: self.id,
            summary: summary_view(self.summary),
            summary_embedding: embedding_view(self.summary_embedding),
        }
    }
}

impl Thread {
    /// An empty thread with a fresh random id.
    pub fn new() -> (r: Thread)
        ensures
            r@.summary is None,
            r@.summary_embedding is None,
    {
        Thread::with_id(random_id())
    }

    /// An empty thread with the given id.
    pub fn with_id(id: u128) -> (r: Thread)
        ensures
            r@ == (ThreadView { id, summary: None, summary_embedding: None }),
    {
        Thread { id, summary: None, summary_embedding: None }
    }

    pub fn id(&self) -> (r: u128)
        ensures
            r == self.id,
    {
        self.id
    }

    pub fn duplicate(&self) -> (r: Thread)
        ensures
            r@ == self@,
    {
        let summary = match &self.summary {
            Some(s) => Some(s.clone()),
            None => None,
        };
        Thread {
            id: self.id,
            summary,
            summary_embedding: duplicate_optional_embedding(&self.summary_embedding),
        }
    }
}

} // verus!
