//! The mode selector: which of the two methods counts an input, decided
//! before anything is read.

use crate::error::CountError;
use crate::random::random_below;
use crate::scanner::{ChunkScanner, ScanState};
use rand::rngs::StdRng;
use vstd::prelude::*;

verus! {

/// Inputs shorter than this, 2 GiB, are counted exactly unless an estimate is
/// asked for.
pub const SMALL_FILE_THRESHOLD: u64 = 2147483648;

/// How much of the input an estimate reads, and the source of its offsets.
pub struct EstimateOptions {
    /// The number of bytes of one read.
    pub chunk_size: usize,
    /// The number of chunks of one sample window.
    pub sample_length: usize,
    /// The number of sample windows.
    pub num_samples: usize,
    /// The generator that the window offsets are drawn from.
    pub rng: StdRng,
}

impl Clone for EstimateOptions {
    /// The same sizes, with a copy of the generator.
    fn clone(&self) -> (copy: Self)
        ensures
            copy.chunk_size == self.chunk_size,
            copy.sample_length == self.sample_length,
            copy.num_samples == self.num_samples,
    {
        EstimateOptions {
            chunk_size: self.chunk_size,
            sample_length: self.sample_length,
            num_samples: self.num_samples,
            rng: self.rng.clone(),
        }
    }
}

/// What the caller asks for.
#[derive(Clone, Copy, Debug, PartialEq, Eq, Structural)]
pub enum Mode {
    /// Count every newline.
    Exact,
    /// Estimate from a sample, whatever the size of the input.
    Estimate,
    /// Estimate large inputs, count small ones.
    Auto,
}

/// Why an input is counted exactly.
#[derive(Clone, Copy, Debug, PartialEq, Eq, Structural)]
pub enum ExactReason {
    /// The caller asked for an exact count.
    Requested,
    /// The input cannot be repositioned, so no window can be sampled.
    NotSeekable,
    /// The input is shorter than the threshold of the automatic mode.
    SmallInput,
    /// The sample would read at least as many bytes as the input has.
    SampleCoversInput,
}

/// The sizes of a sampling run over an input of known length.
pub struct SamplingShape {
    /// The length of the input in bytes.
    pub length: nat,
    /// The number of bytes of one read.
    pub chunk_size: nat,
    /// The number of chunks of one sample window.
    pub sample_length: nat,
    /// The number of sample windows.
    pub num_samples: nat,
}

impl SamplingShape {
    /// The number of bytes of one sample window.
    pub open spec fn window_bytes(self) -> nat {
        self.chunk_size * self.sample_length
    }

    /// The number of bytes that all the windows read together.
    pub open spec fn volume(self) -> nat {
        self.chunk_size * self.sample_length * self.num_samples
    }

    /// The offsets at which a window may start are those below this bound:
    /// a window that starts there lies within the input.
    pub open spec fn offset_bound(self) -> int {
        self.length - self.window_bytes()
    }

    /// Every size is positive, and the windows together read less than the
    /// input holds.
    pub open spec fn valid(self) -> bool {
        &&& self.chunk_size > 0
        &&& self.sample_length > 0
        &&& self.num_samples > 0
        &&& self.volume() < self.length
        &&& self.length <= u64::MAX
    }

    /// There is one offset for each window, and each is below the bound.
    pub open spec fn admits(self, offsets: Seq<u64>) -> bool {
        &&& offsets.len() == self.num_samples
        &&& forall|i: int| 0 <= i < offsets.len() ==> offsets[i] < self.offset_bound()
    }

    /// A window of a valid shape is shorter than the input, so the bound on
    /// the offsets is positive.
    pub proof fn lemma_window_fits(self)
        requires
            self.valid(),
        ensures
            0 < self.window_bytes() <= self.volume(),
            0 < self.offset_bound() <= self.length,
    {
        let window = self.chunk_size * self.sample_length;
        assert(window > 0) by (nonlinear_arith)
            requires
                window == self.chunk_size * self.sample_length,
                self.chunk_size > 0,
                self.sample_length > 0,
        ;
        assert(window * self.num_samples >= window) by (nonlinear_arith)
            requires
                window > 0,
                self.num_samples > 0,
        ;
    }
}

/// The sizes of a sampling run that the mode selector has accepted.
#[derive(Clone, Copy, Debug)]
pub struct SamplingPlan {
    length: u64,
    chunk_size: usize,
    sample_length: usize,
    num_samples: usize,
    window_bytes: u64,
}

impl View for SamplingPlan {
    type V = SamplingShape;

    closed spec fn view(&self) -> SamplingShape {
        SamplingShape {
            length: self.length as nat,
            chunk_size: self.chunk_size as nat,
            sample_length: self.sample_length as nat,
            num_samples: self.num_samples as nat,
        }
    }
}

impl SamplingPlan {
    /// What holds of every plan: its sizes are valid.
    #[verifier::type_invariant]
    pub closed spec fn consistent(self) -> bool {
        &&& self@.valid()
        &&& self.window_bytes == self@.window_bytes()
    }

    /// The sizes of a plan are valid, and each fits in a `usize`.
    pub proof fn lemma_valid(self)
        requires
            self.consistent(),
        ensures
            self@.valid(),
            self@.chunk_size <= usize::MAX,
            self@.sample_length <= usize::MAX,
            self@.num_samples <= usize::MAX,
    {
    }

    /// The length of the input in bytes.
    pub fn length(&self) -> (n: u64)
        ensures
            n == self@.length,
            self@.valid(),
    {
        proof {
            use_type_invariant(self);
        }
        self.length
    }

    /// The number of bytes of one read.
    pub fn chunk_size(&self) -> (n: usize)
        ensures
            n == self@.chunk_size,
            self@.valid(),
    {
        proof {
            use_type_invariant(self);
        }
        self.chunk_size
    }

    /// The number of chunks of one sample window.
    pub fn sample_length(&self) -> (n: usize)
        ensures
            n == self@.sample_length,
            self@.valid(),
    {
        proof {
            use_type_invariant(self);
        }
        self.sample_length
    }

    /// The number of sample windows.
    pub fn num_samples(&self) -> (n: usize)
        ensures
            n == self@.num_samples,
            self@.valid(),
    {
        proof {
            use_type_invariant(self);
        }
        self.num_samples
    }

    /// The number of bytes of one sample window.
    pub fn window_bytes(&self) -> (n: u64)
        ensures
            n == self@.window_bytes(),
            self@.valid(),
    {
        proof {
            use_type_invariant(self);
        }
        self.window_bytes
    }

    /// Draws the start of each sample window: independently of one another,
    /// each from the offsets at which a whole window lies within the input.
    /// Windows may overlap.
    pub fn draw_offsets(&self, rng: &mut StdRng) -> (offsets: Vec<u64>)
        ensures
            self@.valid(),
            self@.admits(offsets@),
    {
        proof {
            use_type_invariant(self);
            self@.lemma_window_fits();
        }
        let bound = self.length - self.window_bytes;
        let mut offsets: Vec<u64> = Vec::new();
        let mut drawn: usize = 0;
        while drawn < self.num_samples
            invariant
                bound > 0,
                bound == self@.offset_bound(),
                drawn <= self.num_samples,
                offsets@.len() == drawn,
                forall|i: int| 0 <= i < offsets@.len() ==> offsets@[i] < bound,
            decreases self.num_samples - drawn,
        {
            let offset = random_below(rng, bound);
            offsets.push(offset);
            drawn = drawn + 1;
        }
        offsets
    }

    /// A scanner for one sample window: it reads `sample_length` chunks of
    /// `chunk_size` bytes, or fewer where the input ends before.
    pub fn window_scanner(&self) -> (scanner: ChunkScanner)
        ensures
            self@.valid(),
            scanner.chunk_size() == self@.chunk_size,
            scanner@ == ScanState::initial(Some(self@.sample_length)),
    {
        proof {
            use_type_invariant(self);
        }
        ChunkScanner::with_sizes(self.chunk_size, Some(self.sample_length))
    }
}

/// What the mode selector has decided.
#[derive(Clone, Copy, Debug)]
pub enum Plan {
    /// Scan the whole input, for the reason given.
    Exact(ExactReason),
    /// Sample the input with the sizes given.
    Estimate(SamplingPlan),
}

/// The sizes of an estimate over an input of `length` bytes.
pub open spec fn shape_of(length: u64, options: EstimateOptions) -> SamplingShape {
    SamplingShape {
        length: length as nat,
        chunk_size: options.chunk_size as nat,
        sample_length: options.sample_length as nat,
        num_samples: options.num_samples as nat,
    }
}

/// Whether each of the three sizes is positive.
pub open spec fn sizes_positive(options: EstimateOptions) -> bool {
    options.chunk_size > 0 && options.sample_length > 0 && options.num_samples > 0
}

/// The reason for which an input is counted exactly, or `None` where it is
/// sampled. `length` is `None` for an input that cannot be repositioned.
///
/// An exact count that was asked for is made. An input that cannot be
/// repositioned is counted exactly, since no window can be read from it. In
/// automatic mode an input below the threshold is counted exactly. Of what is
/// left, an input that the sample would cover is counted exactly: sampling
/// it would read no less than scanning it.
pub open spec fn exact_reason(
    mode: Mode,
    length: Option<u64>,
    options: EstimateOptions,
    threshold: u64,
) -> Option<ExactReason> {
    if mode == Mode::Exact {
        Some(ExactReason::Requested)
    } else {
        match length {
            None => Some(ExactReason::NotSeekable),
            Some(length) => if mode == Mode::Auto && length < threshold {
                Some(ExactReason::SmallInput)
            } else if shape_of(length, options).volume() >= length {
                Some(ExactReason::SampleCoversInput)
            } else {
                None
            },
        }
    }
}

/// Decides how an input is counted, from the caller's wish, the length of
/// the input (`None` where it cannot be repositioned), the sampling sizes and
/// the threshold of the automatic mode.
///
/// A size of zero is refused, whatever the mode. Otherwise the input is
/// counted exactly for the reason that `exact_reason` gives, or sampled with
/// the sizes given where it gives none.
pub fn plan(mode: Mode, length: Option<u64>, options: &EstimateOptions, threshold: u64) -> (r:
    Result<Plan, CountError>)
    ensures
        !sizes_positive(*options) ==> r matches Err(CountError::InvalidConfiguration),
        sizes_positive(*options) ==> match exact_reason(mode, length, *options, threshold) {
            Some(reason) => r == Ok::<Plan, CountError>(Plan::Exact(reason)),
            None => r matches Ok(Plan::Estimate(sampling)) && sampling@ == shape_of(
                length->0,
                *options,
            ) && sampling@.valid(),
        },
{
    if options.chunk_size == 0 || options.sample_length == 0 || options.num_samples == 0 {
        return Err(CountError::InvalidConfiguration);
    }
    if mode == Mode::Exact {
        return Ok(Plan::Exact(ExactReason::Requested));
    }
    let length = match length {
        Some(length) => length,
        None => {
            return Ok(Plan::Exact(ExactReason::NotSeekable));
        },
    };
    if mode == Mode::Auto && length < threshold {
        return Ok(Plan::Exact(ExactReason::SmallInput));
    }
    let ghost shape = shape_of(length, *options);
    let chunk_size = options.chunk_size as u64;
    let sample_length = options.sample_length as u64;
    let num_samples = options.num_samples as u64;
    let window = match chunk_size.checked_mul(sample_length) {
        Some(window) => window,
        None => {
            proof {
                lemma_volume_at_least_window(shape);
            }
            return Ok(Plan::Exact(ExactReason::SampleCoversInput));
        },
    };
    let volume = match window.checked_mul(num_samples) {
        Some(volume) => volume,
        None => {
            return Ok(Plan::Exact(ExactReason::SampleCoversInput));
        },
    };
    if volume >= length {
        return Ok(Plan::Exact(ExactReason::SampleCoversInput));
    }
    Ok(
        Plan::Estimate(
            SamplingPlan {
                length,
                chunk_size: options.chunk_size,
                sample_length: options.sample_length,
                num_samples: options.num_samples,
                window_bytes: window,
            },
        ),
    )
}

proof fn lemma_volume_at_least_window(shape: SamplingShape)
    requires
        shape.num_samples > 0,
    ensures
        shape.volume() >= shape.window_bytes(),
{
    let window = shape.chunk_size * shape.sample_length;
    assert(window * shape.num_samples >= window) by (nonlinear_arith)
        requires
            window >= 0,
            shape.num_samples > 0,
    ;
}

} // verus!
