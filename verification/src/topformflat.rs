//! The reduction state of reducer scripts that remove chunks of the seed as
//! flattened by `topformflat`.

use crate::finders::Chunks;
use crate::ranges::{kept_bytes, next_on_interesting_result, window, RemoveRangesReducer};
use crate::script::Reducer;
use std::marker::PhantomData;
use vstd::prelude::*;

verus! {

/// A trait for defining reducer scripts that use `topformflat`.
pub trait Topformflat {
    /// Get the number of levels to flatten with `topformflat`.
    fn flatten() -> u8;
}

/// The state of a `topformflat` reducer script: either `topformflat` was not
/// found (or failed on the seed), or the line chunks of the flattened seed
/// are being removed.
#[derive(Debug, PartialEq, Eq)]
pub enum TopformflatReducer<T: Topformflat> {
    NotFound,
    Found { t: PhantomData<T>, topformflat: String, chunks: RemoveRangesReducer<Chunks> },
}

impl<T: Topformflat> TopformflatReducer<T> {
    /// The initial state, given the `topformflat` executable if one was
    /// found, and the seed as it flattened, if flattening succeeded.
    pub fn new(topformflat: Option<String>, flattened: Option<&[u8]>) -> (r: Self)
        ensures
            (topformflat is None || flattened is None) <==> r is NotFound,
            r matches TopformflatReducer::Found { topformflat: path, chunks, .. } ==> path
                == topformflat->Some_0 && chunks.wf() && chunks.index == 0 && chunks.chunk_size
                == chunks.ranges.len(),
    {
        match (topformflat, flattened) {
            (Some(path), Some(flat)) => TopformflatReducer::Found {
                t: PhantomData,
                topformflat: path,
                chunks: RemoveRangesReducer::new(flat),
            },
            _ => TopformflatReducer::NotFound,
        }
    }

    /// Generate the reduction of the flattened seed `flattened` for the
    /// current state; there is none when `topformflat` was not found or the
    /// chunks are empty. Every range of the window must lie within the
    /// flattened seed.
    pub fn reduce(&self, flattened: &[u8]) -> (r: Option<Vec<u8>>)
        requires
            self.valid(),
            self matches TopformflatReducer::Found { chunks, .. } ==> forall|j: int|
                chunks.index <= j < chunks.index + chunks.chunk_size ==> #[trigger] chunks.ranges@[j].start
                    < flattened.len() && chunks.ranges@[j].end <= flattened.len(),
        ensures
            self is NotFound ==> r is None,
            self matches TopformflatReducer::Found { chunks, .. } ==> (chunks.chunk_size == 0
                <==> r is None) && (r matches Some(out) ==> out@ == kept_bytes(
                flattened@,
                window(chunks.ranges@, chunks.index as int, chunks.chunk_size as int),
                flattened.len() as int,
            )),
    {
        match self {
            TopformflatReducer::NotFound => None,
            TopformflatReducer::Found { chunks, .. } => chunks.reduce(flattened),
        }
    }
}

impl<T: Topformflat> Reducer for TopformflatReducer<T> {
    open spec fn valid(&self) -> bool {
        match self {
            TopformflatReducer::NotFound => true,
            TopformflatReducer::Found { chunks, .. } => chunks.wf(),
        }
    }

    open spec fn spec_next(self) -> Option<Self> {
        match self {
            TopformflatReducer::NotFound => None,
            TopformflatReducer::Found { t, topformflat, chunks } => match chunks.spec_next() {
                None => None,
                Some(c) => Some(TopformflatReducer::Found { t, topformflat, chunks: c }),
            },
        }
    }

    fn next(self) -> (r: Option<Self>) {
        let ghost expected = self.spec_next();
        match self {
            TopformflatReducer::NotFound => None,
            TopformflatReducer::Found { t, topformflat, chunks } => match chunks.next() {
                None => None,
                Some(c) => Some(TopformflatReducer::Found { t, topformflat, chunks: c }),
            },
        }
    }

    /// Advance the chunks of the flattened seed, given that removing the
    /// current window made a new interesting seed: as the chunks advance
    /// (see `next_on_interesting_result`), keeping the `topformflat`
    /// executable.
    fn next_on_interesting(self, new_seed_len: u64) -> (r: Option<Self>)
        ensures
            self is NotFound ==> r is None,
            self matches TopformflatReducer::Found { topformflat, chunks, .. } ==> (match r {
                None => next_on_interesting_result(chunks, new_seed_len, None),
                Some(TopformflatReducer::Found { topformflat: path, chunks: next, .. }) => path
                    == topformflat && next_on_interesting_result(chunks, new_seed_len, Some(next)),
                Some(TopformflatReducer::NotFound) => false,
            }),
    {
        match self {
            TopformflatReducer::NotFound => None,
            TopformflatReducer::Found { t, topformflat, chunks } => match chunks.next_on_interesting(
                new_seed_len,
            ) {
                None => None,
                Some(c) => Some(TopformflatReducer::Found { t, topformflat, chunks: c }),
            },
        }
    }
}

} // verus!
