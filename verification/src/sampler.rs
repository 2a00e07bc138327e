//! The sampler: reads one window of the input at each of a list of offsets
//! and adds up what the chunked scanner finds in them.
//!
//! Like the scanner, the sampler never touches the input. It says what is to
//! be done next, a seek or a read, and is told when the seek is done or fed
//! what the read returned.

use crate::error::CountError;
use crate::estimate::{agrees, estimate, estimated};
use crate::newlines::{count_newlines, lemma_count_byte_concat, lemma_count_byte_empty, NEWLINE};
use crate::plan::SamplingPlan;
use crate::sample::SampleResult;
use crate::scanner::{lemma_on_course_after_read, on_course, ChunkScanner, ScanState};
use rand::rngs::StdRng;
use vstd::prelude::*;

verus! {

/// What the owner of the input is to do next.
#[derive(Clone, Copy, Debug, PartialEq, Eq, Structural)]
pub enum Step {
    /// Move the read position to this offset from the start of the input,
    /// then tell the sampler with `sought`.
    Seek(u64),
    /// Read this many bytes at most, then `feed` the sampler what the read
    /// returned.
    Read(usize),
    /// Nothing more: every window is read.
    Finished,
}

/// What a sampler knows at a point of its run.
pub struct SamplerState {
    /// The start of each window.
    pub offsets: Seq<u64>,
    /// The number of bytes of one read.
    pub chunk_size: nat,
    /// The number of chunks of one window.
    pub sample_length: nat,
    /// The number of windows that are read.
    pub completed: nat,
    /// The scan of the window that is being read, once the seek to its start
    /// is done.
    pub reading: Option<ScanState>,
    /// The bytes of the windows that are read, one window after the other.
    pub gathered: Seq<u8>,
}

impl SamplerState {
    /// The state before the first window.
    pub open spec fn initial(
        offsets: Seq<u64>,
        chunk_size: nat,
        sample_length: nat,
    ) -> SamplerState {
        SamplerState {
            offsets,
            chunk_size,
            sample_length,
            completed: 0,
            reading: None,
            gathered: Seq::empty(),
        }
    }

    /// Whether every window is read.
    pub open spec fn finished(self) -> bool {
        self.completed >= self.offsets.len()
    }

    /// What is to be done next: nothing once every window is read, a seek to
    /// the start of the next window before it is begun, a read of one chunk
    /// while it is being read.
    pub open spec fn next_step(self) -> Step {
        if self.finished() {
            Step::Finished
        } else if self.reading is None {
            Step::Seek(self.offsets[self.completed as int])
        } else {
            Step::Read(self.chunk_size as usize)
        }
    }

    /// The state after the seek to the start of the next window is done: the
    /// scan of the window begins. Where no seek was due nothing changes.
    pub open spec fn sought(self) -> SamplerState {
        if !self.finished() && self.reading is None {
            SamplerState { reading: Some(ScanState::initial(Some(self.sample_length))), ..self }
        } else {
            self
        }
    }

    /// The state after `chunk` was fed: the scan of the window takes it, and
    /// where that ends the scan, the bytes of the window are gathered and the
    /// window is read. Where no read was due nothing changes.
    pub open spec fn fed(self, chunk: Seq<u8>) -> SamplerState {
        match self.reading {
            None => self,
            Some(window) => {
                let after = window.fed(chunk);
                if after.finished {
                    SamplerState {
                        completed: self.completed + 1,
                        reading: None,
                        gathered: self.gathered + after.seen,
                        ..self
                    }
                } else {
                    SamplerState { reading: Some(after), ..self }
                }
            },
        }
    }

    /// Whether `chunk` would bring the bytes of a window, or of all the
    /// windows read, beyond what a `u64` counts.
    pub open spec fn too_large(self, chunk: Seq<u8>) -> bool {
        match self.reading {
            None => false,
            Some(window) => {
                let after = window.fed(chunk);
                ||| after.seen.len() > u64::MAX
                ||| after.finished && self.gathered.len() + after.seen.len() > u64::MAX
            },
        }
    }
}

/// The part of a sampler that changes as it runs.
#[derive(Clone, Copy)]
struct Progress {
    completed: usize,
    scanner: Option<ChunkScanner>,
    totals: SampleResult,
    gathered: Ghost<Seq<u8>>,
}

/// Reads the window at each of its offsets through a chunked scanner, and
/// keeps the totals of the windows read.
pub struct Sampler {
    sampling: SamplingPlan,
    offsets: Vec<u64>,
    progress: Progress,
}

impl View for Sampler {
    type V = SamplerState;

    closed spec fn view(&self) -> SamplerState {
        SamplerState {
            offsets: self.offsets@,
            chunk_size: self.sampling@.chunk_size,
            sample_length: self.sampling@.sample_length,
            completed: self.progress.completed as nat,
            reading: match self.progress.scanner {
                Some(scanner) => Some(scanner@),
                None => None,
            },
            gathered: self.progress.gathered@,
        }
    }
}

impl Sampler {
    #[verifier::type_invariant]
    spec fn consistent(self) -> bool {
        &&& self.sampling@.valid()
        &&& self.progress.completed <= self.offsets@.len()
        &&& self.progress.totals.bytes() == self.progress.gathered@.len()
        &&& self.progress.totals.newlines() == count_newlines(self.progress.gathered@)
        &&& self.progress.scanner matches Some(scanner) ==> {
            &&& self.progress.completed < self.offsets@.len()
            &&& !scanner@.finished
            &&& scanner.chunk_size() == self.sampling@.chunk_size
        }
    }

    /// The length of the input that the sampler was planned for.
    pub closed spec fn length(&self) -> nat {
        self.sampling@.length
    }

    /// A sampler that reads the windows at `offsets`, with the sizes of
    /// `sampling`. The offsets may be any: a window that starts near the end
    /// of the input is cut short there.
    pub fn with_offsets(sampling: SamplingPlan, offsets: Vec<u64>) -> (sampler: Sampler)
        ensures
            sampling@.valid(),
            sampler.length() == sampling@.length,
            sampler@ == SamplerState::initial(
                offsets@,
                sampling@.chunk_size,
                sampling@.sample_length,
            ),
    {
        proof {
            use_type_invariant(&sampling);
            sampling.lemma_valid();
            lemma_count_byte_empty(NEWLINE);
        }
        Sampler {
            sampling,
            offsets,
            progress: Progress {
                completed: 0,
                scanner: None,
                totals: SampleResult::new(),
                gathered: Ghost(Seq::empty()),
            },
        }
    }

    /// A sampler that reads windows at offsets drawn from `rng`: one for each
    /// sample of `sampling`, each such that the whole window lies within the
    /// input.
    pub fn new(sampling: SamplingPlan, rng: &mut StdRng) -> (sampler: Sampler)
        ensures
            sampling@.valid(),
            sampler.length() == sampling@.length,
            sampling@.admits(sampler@.offsets),
            sampler@ == SamplerState::initial(
                sampler@.offsets,
                sampling@.chunk_size,
                sampling@.sample_length,
            ),
    {
        let offsets = sampling.draw_offsets(rng);
        Sampler::with_offsets(sampling, offsets)
    }

    /// What is to be done next.
    pub fn next_step(&self) -> (step: Step)
        ensures
            step == self@.next_step(),
            self@.chunk_size > 0,
            self@.chunk_size <= usize::MAX,
            self@.sample_length > 0,
            self@.gathered.len() <= u64::MAX,
            self@.completed <= self@.offsets.len(),
            self@.reading matches Some(window) ==> !window.finished && !self@.finished(),
    {
        proof {
            use_type_invariant(self);
            use_type_invariant(&self.sampling);
            self.sampling.lemma_valid();
            self.progress.totals.lemma_counts_fit();
        }
        if self.progress.completed >= self.offsets.len() {
            Step::Finished
        } else {
            match self.progress.scanner {
                None => Step::Seek(self.offsets[self.progress.completed]),
                Some(scanner) => match scanner.next_read() {
                    Some(wanted) => Step::Read(wanted),
                    None => Step::Finished,
                },
            }
        }
    }

    /// Says that the seek to the start of the next window is done.
    pub fn sought(&mut self)
        ensures
            final(self)@ == old(self)@.sought(),
            final(self).length() == old(self).length(),
    {
        proof {
            use_type_invariant(&*self);
        }
        if self.progress.completed < self.offsets.len() && self.progress.scanner.is_none() {
            self.progress = Progress {
                completed: self.progress.completed,
                scanner: Some(self.sampling.window_scanner()),
                totals: self.progress.totals,
                gathered: self.progress.gathered,
            };
        }
    }

    /// Takes the bytes that a read returned; an empty chunk says that the
    /// input has ended. Fails, and leaves the sampler as it was, when the
    /// bytes would no longer fit in a `u64`.
    pub fn feed(&mut self, chunk: &[u8]) -> (r: Result<(), CountError>)
        ensures
            final(self).length() == old(self).length(),
            !old(self)@.too_large(chunk@) ==> r is Ok && final(self)@ == old(self)@.fed(chunk@),
            old(self)@.too_large(chunk@) ==> r == Err::<(), CountError>(
                CountError::InputTooLarge,
            ) && final(self)@ == old(self)@,
    {
        proof {
            use_type_invariant(&*self);
        }
        let mut scanner = match self.progress.scanner {
            Some(scanner) => scanner,
            None => {
                return Ok(());
            },
        };
        if let Err(e) = scanner.feed(chunk) {
            return Err(e);
        }
        if scanner.next_read().is_some() {
            self.progress = Progress {
                completed: self.progress.completed,
                scanner: Some(scanner),
                totals: self.progress.totals,
                gathered: self.progress.gathered,
            };
            return Ok(());
        }
        let mut totals = self.progress.totals;
        let window = scanner.totals();
        if let Err(e) = totals.merge(&window) {
            return Err(e);
        }
        proof {
            lemma_count_byte_concat(self.progress.gathered@, scanner@.seen, NEWLINE);
            assert(self.offsets@.len() == self.offsets.len());
        }
        self.progress = Progress {
            completed: self.progress.completed + 1,
            scanner: None,
            totals,
            gathered: Ghost(self.progress.gathered@ + scanner@.seen),
        };
        Ok(())
    }

    /// The totals of the windows read so far.
    pub fn totals(&self) -> (t: SampleResult)
        ensures
            t.bytes() == self@.gathered.len(),
            t.newlines() == count_newlines(self@.gathered),
    {
        proof {
            use_type_invariant(self);
        }
        self.progress.totals
    }

    /// The line count that the windows read so far give for the whole input.
    pub fn estimate(&self) -> (r: Result<u64, CountError>)
        ensures
            agrees(
                r,
                estimated(self.length(), self@.gathered.len(), count_newlines(self@.gathered)),
            ),
    {
        proof {
            use_type_invariant(self);
        }
        estimate(&self.progress.totals, self.sampling.length())
    }
}

/// The start of the window at `offset` in an input of `length` bytes: the
/// offset, or the end of the input where the offset lies beyond it.
pub open spec fn window_start(length: nat, offset: u64) -> nat {
    if offset <= length {
        offset as nat
    } else {
        length
    }
}

/// The bytes of the sample window at `offset`: `window_bytes` bytes from
/// there, or as many as the input has left. A window never reaches past the
/// end of the input.
pub open spec fn window_at(content: Seq<u8>, offset: u64, window_bytes: nat) -> Seq<u8> {
    let rest = content.skip(window_start(content.len(), offset) as int);
    if window_bytes <= rest.len() {
        rest.take(window_bytes as int)
    } else {
        rest
    }
}

/// The bytes of the windows at `offsets`, one window after the other.
/// Windows that overlap contribute their common bytes once each.
pub open spec fn sampled(content: Seq<u8>, offsets: Seq<u64>, window_bytes: nat) -> Seq<u8>
    decreases offsets.len(),
{
    if offsets.len() == 0 {
        Seq::empty()
    } else {
        sampled(content, offsets.drop_last(), window_bytes) + window_at(
            content,
            offsets.last(),
            window_bytes,
        )
    }
}

/// Where the read position stands once the windows at `offsets` are read:
/// behind the last of them, or at `position`, where it stood before, if
/// there is none.
pub open spec fn position_after(
    content: Seq<u8>,
    position: nat,
    offsets: Seq<u64>,
    window_bytes: nat,
) -> nat {
    if offsets.len() == 0 {
        position
    } else {
        window_start(content.len(), offsets.last()) + window_at(
            content,
            offsets.last(),
            window_bytes,
        ).len()
    }
}

/// Whether `position` is where the read position stands when a sample has
/// outgrown what a `u64` counts: behind the first window with which it does.
pub open spec fn position_at_overflow(
    content: Seq<u8>,
    offsets: Seq<u64>,
    window_bytes: nat,
    position: nat,
) -> bool {
    exists|read: int|
        {
            &&& 0 < read <= offsets.len()
            &&& sampled(content, offsets.take(read - 1), window_bytes).len() <= u64::MAX
            &&& (#[trigger] sampled(content, offsets.take(read), window_bytes)).len() > u64::MAX
            &&& position == position_after(content, 0, offsets.take(read), window_bytes)
        }
}

/// The sample of fewer windows is no longer than that of more.
pub proof fn lemma_sampled_grows(
    content: Seq<u8>,
    offsets: Seq<u64>,
    window_bytes: nat,
    windows: int,
)
    requires
        0 <= windows <= offsets.len(),
    ensures
        sampled(content, offsets.take(windows), window_bytes).len() <= sampled(
            content,
            offsets,
            window_bytes,
        ).len(),
    decreases offsets.len(),
{
    if windows == offsets.len() {
        assert(offsets.take(windows) =~= offsets);
    } else {
        lemma_sampled_grows(content, offsets.drop_last(), window_bytes, windows);
        assert(offsets.drop_last().take(windows) =~= offsets.take(windows));
    }
}

/// A window that starts at least `window_bytes` before the end of the input
/// is whole, so the sample of windows that all start there has as many bytes
/// as there are windows times `window_bytes`.
pub proof fn lemma_sampled_whole(content: Seq<u8>, offsets: Seq<u64>, window_bytes: nat)
    requires
        forall|i: int| 0 <= i < offsets.len() ==> offsets[i] + window_bytes <= content.len(),
    ensures
        sampled(content, offsets, window_bytes).len() == offsets.len() * window_bytes,
    decreases offsets.len(),
{
    if offsets.len() == 0 {
        assert(0 * window_bytes == 0) by (nonlinear_arith);
    } else {
        lemma_sampled_whole(content, offsets.drop_last(), window_bytes);
        assert(offsets.len() * window_bytes == (offsets.len() - 1) * window_bytes + window_bytes)
            by (nonlinear_arith);
    }
}

/// Whether a sampler that was started on a stream of `content`, whose read
/// position stood at `origin`, may stand at `state` with the read position
/// at `position`: it has gathered the windows that are read, and the scan of
/// the window that is being read is on course.
pub open spec fn sampler_on_course(
    state: SamplerState,
    content: Seq<u8>,
    origin: nat,
    position: nat,
) -> bool {
    let window_bytes = state.chunk_size * state.sample_length;
    let read = state.offsets.take(state.completed as int);
    &&& state.completed <= state.offsets.len()
    &&& state.gathered == sampled(content, read, window_bytes)
    &&& match state.reading {
        None => position == position_after(content, origin, read, window_bytes),
        Some(window) => {
            let start = window_start(content.len(), state.offsets[state.completed as int]);
            &&& state.completed < state.offsets.len()
            &&& !window.finished
            &&& position == start + window.seen.len()
            &&& on_course(
                window,
                content.skip(start as int),
                state.chunk_size,
                Some(state.sample_length),
            )
        },
    }
}

/// A sampler on course stays on course when it is fed what a read of one
/// chunk returns at the read position, and the read position moves behind
/// the chunk.
pub proof fn lemma_sampler_on_course_after_read(
    state: SamplerState,
    content: Seq<u8>,
    origin: nat,
    position: nat,
    chunk: Seq<u8>,
)
    requires
        state.chunk_size > 0,
        state.sample_length > 0,
        state.reading is Some,
        sampler_on_course(state, content, origin, position),
        position <= content.len(),
        chunk == content.skip(position as int).take(chunk.len() as int),
        chunk.len() == if state.chunk_size <= content.len() - position {
            state.chunk_size
        } else {
            (content.len() - position) as nat
        },
    ensures
        sampler_on_course(state.fed(chunk), content, origin, position + chunk.len()),
{
    let window = state.reading->0;
    let offset = state.offsets[state.completed as int];
    let start = window_start(content.len(), offset);
    let left = content.skip(start as int);
    let window_bytes = state.chunk_size * state.sample_length;
    assert(content.skip(position as int) =~= left.skip(window.seen.len() as int));
    lemma_on_course_after_read(window, left, state.chunk_size, Some(state.sample_length), chunk);
    let after = window.fed(chunk);
    if after.finished {
        let read = state.offsets.take((state.completed + 1) as int);
        assert(read.drop_last() =~= state.offsets.take(state.completed as int));
        assert(state.sample_length * state.chunk_size == window_bytes) by (nonlinear_arith)
            requires
                window_bytes == state.chunk_size * state.sample_length,
        ;
        assert(after.seen =~= window_at(content, offset, window_bytes));
    }
}

} // verus!
