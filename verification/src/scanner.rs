//! The chunked scanner: counts the newlines of a stream from the chunks that
//! its owner reads, one after the other.
//!
//! The scanner never touches the stream. It says how many bytes it wants
//! next, is fed what a read returned, and stops at the first empty chunk or
//! when its budget of chunks is spent.

use crate::error::CountError;
use crate::newlines::{count_newlines, lemma_count_byte_concat, lemma_count_byte_empty, NEWLINE};
use crate::sample::SampleResult;
use vstd::prelude::*;

verus! {

/// What a scanner knows at a point of its run.
pub struct ScanState {
    /// The bytes fed so far, in order.
    pub seen: Seq<u8>,
    /// The number of chunks that may still be fed; `None` for no limit.
    pub budget: Option<nat>,
    /// Whether the scan is over.
    pub finished: bool,
}

impl ScanState {
    /// The state before anything was fed.
    pub open spec fn initial(budget: Option<nat>) -> ScanState {
        ScanState { seen: Seq::empty(), budget, finished: false }
    }

    /// The state after `chunk` was fed.
    ///
    /// A finished scan ignores the chunk. An empty chunk ends the scan: the
    /// stream has no more bytes. Any other chunk is appended to the bytes
    /// seen and takes one unit of the budget; the chunk that takes the last
    /// unit ends the scan.
    pub open spec fn fed(self, chunk: Seq<u8>) -> ScanState {
        if self.finished {
            self
        } else if chunk.len() == 0 {
            ScanState { finished: true, ..self }
        } else {
            ScanState {
                seen: self.seen + chunk,
                budget: match self.budget {
                    Some(left) => Some((left - 1) as nat),
                    None => None,
                },
                finished: self.budget == Some(1nat),
            }
        }
    }

    /// The state after each of `chunks` was fed, the first of them first.
    pub open spec fn fed_all(self, chunks: Seq<Seq<u8>>) -> ScanState
        decreases chunks.len(),
    {
        if chunks.len() == 0 {
            self
        } else {
            self.fed_all(chunks.drop_last()).fed(chunks.last())
        }
    }
}

/// The bytes of `chunks`, one chunk after the other.
pub open spec fn joined(chunks: Seq<Seq<u8>>) -> Seq<u8>
    decreases chunks.len(),
{
    if chunks.len() == 0 {
        Seq::empty()
    } else {
        joined(chunks.drop_last()) + chunks.last()
    }
}

/// However a run of bytes is cut into chunks, none of them empty, a scan
/// without a budget that is fed the chunks has seen the run, and so counts
/// the newlines of the run: where the cuts fall makes no difference.
pub proof fn lemma_cuts_make_no_difference(chunks: Seq<Seq<u8>>)
    requires
        forall|i: int| 0 <= i < chunks.len() ==> (#[trigger] chunks[i]).len() > 0,
    ensures
        ScanState::initial(None).fed_all(chunks).seen == joined(chunks),
        !ScanState::initial(None).fed_all(chunks).finished,
        ScanState::initial(None).fed_all(chunks).budget is None,
    decreases chunks.len(),
{
    if chunks.len() > 0 {
        lemma_cuts_make_no_difference(chunks.drop_last());
    }
}

/// Counts newlines chunk by chunk, up to a budget of chunks or to the end of
/// the stream.
#[derive(Clone, Copy)]
pub struct ChunkScanner {
    chunk_size: usize,
    budget: Option<usize>,
    finished: bool,
    totals: SampleResult,
    seen: Ghost<Seq<u8>>,
}

impl View for ChunkScanner {
    type V = ScanState;

    closed spec fn view(&self) -> ScanState {
        ScanState {
            seen: self.seen@,
            budget: match self.budget {
                Some(left) => Some(left as nat),
                None => None,
            },
            finished: self.finished,
        }
    }
}

impl ChunkScanner {
    #[verifier::type_invariant]
    spec fn consistent(self) -> bool {
        &&& self.chunk_size > 0
        &&& self.totals.bytes() == self.seen@.len()
        &&& self.totals.newlines() == count_newlines(self.seen@)
        &&& !self.finished ==> self.budget != Some(0usize)
    }

    /// The number of bytes that the scanner asks for at a time.
    pub closed spec fn chunk_size(&self) -> nat {
        self.chunk_size as nat
    }

    /// A scanner that reads chunks of `chunk_size` bytes: `budget` of them at
    /// most, or, with `None`, until the stream is exhausted. A chunk size or a
    /// budget of zero is refused.
    pub fn new(chunk_size: usize, budget: Option<usize>) -> (r: Result<Self, CountError>)
        ensures
            chunk_size == 0 || budget == Some(0usize) ==> r matches Err(
                CountError::InvalidConfiguration,
            ),
            chunk_size > 0 && budget != Some(0usize) ==> (r matches Ok(scanner) && {
                &&& scanner.chunk_size() == chunk_size
                &&& scanner@ == ScanState::initial(
                    match budget {
                        Some(left) => Some(left as nat),
                        None => None,
                    },
                )
            }),
    {
        if chunk_size == 0 {
            return Err(CountError::InvalidConfiguration);
        }
        if let Some(left) = budget {
            if left == 0 {
                return Err(CountError::InvalidConfiguration);
            }
        }
        Ok(ChunkScanner::with_sizes(chunk_size, budget))
    }

    /// A scanner with sizes that are known to be positive.
    pub(crate) fn with_sizes(chunk_size: usize, budget: Option<usize>) -> (scanner: Self)
        requires
            chunk_size > 0,
            budget != Some(0usize),
        ensures
            scanner.chunk_size() == chunk_size,
            scanner@ == ScanState::initial(
                match budget {
                    Some(left) => Some(left as nat),
                    None => None,
                },
            ),
    {
        proof {
            lemma_count_byte_empty(NEWLINE);
        }
        ChunkScanner {
            chunk_size,
            budget,
            finished: false,
            totals: SampleResult::new(),
            seen: Ghost(Seq::empty()),
        }
    }

    /// The size of the read that the scanner wants next, or `None` when the
    /// scan is over.
    pub fn next_read(&self) -> (wanted: Option<usize>)
        ensures
            self@.finished ==> wanted is None,
            !self@.finished ==> wanted == Some(self.chunk_size() as usize),
            self.chunk_size() > 0,
            self.chunk_size() <= usize::MAX,
    {
        proof {
            use_type_invariant(self);
        }
        if self.finished {
            None
        } else {
            Some(self.chunk_size)
        }
    }

    /// Takes the bytes that a read returned; an empty chunk says that the
    /// stream has ended. Fails, and leaves the scanner as it was, when the
    /// bytes seen would no longer fit in a `u64`.
    pub fn feed(&mut self, chunk: &[u8]) -> (r: Result<(), CountError>)
        ensures
            final(self).chunk_size() == old(self).chunk_size(),
            old(self)@.fed(chunk@).seen.len() <= u64::MAX ==> r is Ok && final(self)@ == old(
                self,
            )@.fed(chunk@),
            old(self)@.fed(chunk@).seen.len() > u64::MAX ==> r == Err::<(), CountError>(
                CountError::InputTooLarge,
            ) && final(self)@ == old(self)@,
    {
        proof {
            use_type_invariant(&*self);
            self.totals.lemma_counts_fit();
        }
        if self.finished {
            return Ok(());
        }
        if chunk.len() == 0 {
            self.finished = true;
            return Ok(());
        }
        let mut totals = self.totals;
        match totals.record(chunk) {
            Err(e) => Err(e),
            Ok(()) => {
                proof {
                    lemma_count_byte_concat(self.seen@, chunk@, NEWLINE);
                }
                let (budget, finished) = match self.budget {
                    Some(left) => (Some(left - 1), left == 1),
                    None => (None, false),
                };
                *self = ChunkScanner {
                    chunk_size: self.chunk_size,
                    budget,
                    finished,
                    totals,
                    seen: Ghost(self.seen@ + chunk@),
                };
                Ok(())
            },
        }
    }

    /// The totals of the chunks fed so far.
    pub fn totals(&self) -> (t: SampleResult)
        ensures
            t.bytes() == self@.seen.len(),
            t.newlines() == count_newlines(self@.seen),
    {
        proof {
            use_type_invariant(self);
        }
        self.totals
    }
}

/// The number of bytes that a scan covers on a stream with `remaining` bytes
/// left: all of them, or `budget` chunks of `chunk_size` bytes where that is
/// less.
pub open spec fn scan_reach(remaining: nat, chunk_size: nat, budget: Option<nat>) -> nat {
    match budget {
        Some(chunks) => if remaining <= chunks * chunk_size {
            remaining
        } else {
            chunks * chunk_size
        },
        None => remaining,
    }
}

/// The budget of a scan as a number without bound.
pub open spec fn budget_of(budget: Option<usize>) -> Option<nat> {
    match budget {
        Some(chunks) => Some(chunks as nat),
        None => None,
    }
}

/// Whether a scan that was started with `budget` at the front of `left`, and
/// has since been fed one read of `chunk_size` bytes after the other, may
/// stand at `state`: it has seen a prefix of `left`, no longer than its
/// reach, and all of its reach once it is over.
pub open spec fn on_course(
    state: ScanState,
    left: Seq<u8>,
    chunk_size: nat,
    budget: Option<nat>,
) -> bool {
    let reach = scan_reach(left.len(), chunk_size, budget);
    &&& state.seen.len() <= left.len()
    &&& state.seen == left.take(state.seen.len() as int)
    &&& state.finished ==> state.seen.len() == reach
    &&& match budget {
        None => state.budget is None,
        Some(chunks) => {
            &&& state.budget matches Some(units)
            &&& units <= chunks
            &&& state.seen.len() <= (chunks - units) * chunk_size
            &&& !state.finished ==> units >= 1 && reach - state.seen.len() <= units * chunk_size
        },
    }
}

/// A scan is on course when it starts.
pub proof fn lemma_on_course_at_start(left: Seq<u8>, chunk_size: nat, budget: Option<nat>)
    requires
        chunk_size > 0,
        budget != Some(0nat),
    ensures
        on_course(ScanState::initial(budget), left, chunk_size, budget),
{
    assert(left.take(0) =~= Seq::<u8>::empty());
    if let Some(chunks) = budget {
        assert((chunks - chunks) * chunk_size == 0) by (nonlinear_arith);
    }
}

/// A scan on course stays on course when it is fed what a read of
/// `chunk_size` bytes returns behind the bytes it has seen: the next
/// `chunk_size` bytes, or those that are left where they are fewer.
pub proof fn lemma_on_course_after_read(
    state: ScanState,
    left: Seq<u8>,
    chunk_size: nat,
    budget: Option<nat>,
    chunk: Seq<u8>,
)
    requires
        chunk_size > 0,
        on_course(state, left, chunk_size, budget),
        !state.finished,
        chunk == left.skip(state.seen.len() as int).take(chunk.len() as int),
        chunk.len() == if chunk_size <= left.len() - state.seen.len() {
            chunk_size
        } else {
            (left.len() - state.seen.len()) as nat
        },
    ensures
        on_course(state.fed(chunk), left, chunk_size, budget),
{
    let after = state.fed(chunk);
    assert(after.seen =~= left.take(after.seen.len() as int));
    if let Some(chunks) = budget {
        let units = state.budget->0;
        assert((chunks - units + 1) * chunk_size == (chunks - units) * chunk_size + chunk_size)
            by (nonlinear_arith);
        assert((units - 1) * chunk_size == units * chunk_size - chunk_size) by (nonlinear_arith);
        assert(units == 1 ==> units * chunk_size == chunk_size) by (nonlinear_arith);
        assert(chunks * chunk_size >= (chunks - units) * chunk_size) by (nonlinear_arith)
            requires
                units >= 0,
                chunk_size >= 0,
        ;
    }
}

} // verus!
