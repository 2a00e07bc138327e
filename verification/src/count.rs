//! Line counts of an in-memory stream.

use crate::error::CountError;
use crate::estimate::{agrees, estimated};
use crate::newlines::count_newlines;
use crate::plan::{
    exact_reason, plan, shape_of, sizes_positive, EstimateOptions, Mode, Plan, SamplingPlan,
    SamplingShape,
};
use crate::sample::SampleResult;
use crate::sampler::{
    lemma_sampled_grows, lemma_sampled_whole, lemma_sampler_on_course_after_read, position_after,
    position_at_overflow, sampled, sampler_on_course, Sampler, SamplerState, Step,
};
use crate::scanner::{
    budget_of, lemma_on_course_after_read, lemma_on_course_at_start, on_course, scan_reach,
    ChunkScanner,
};
use crate::stream::ByteStream;
use vstd::prelude::*;

verus! {

/// The chunk size of an exact count: 64 KiB.
pub const CHUNK_SIZE: usize = 65536;

/// Runs a chunked scanner over `stream` from its read position: reads chunks
/// of `chunk_size` bytes until `budget` of them are read or the stream ends.
///
/// The totals are those of the bytes covered, whatever the chunk size, and
/// the read position ends behind them. A chunk size or a budget of zero is
/// refused before anything is read.
pub fn scan(stream: &mut ByteStream, chunk_size: usize, budget: Option<usize>) -> (r: Result<
    SampleResult,
    CountError,
>)
    ensures
        final(stream).content() == old(stream).content(),
        old(stream).in_bounds(),
        final(stream).in_bounds(),
        chunk_size == 0 || budget == Some(0usize) ==> {
            &&& r matches Err(CountError::InvalidConfiguration)
            &&& final(stream).position() == old(stream).position()
        },
        chunk_size > 0 && budget != Some(0usize) ==> (r matches Ok(totals) && {
            let reach = scan_reach(
                old(stream).remaining().len(),
                chunk_size as nat,
                budget_of(budget),
            );
            &&& totals.bytes() == reach
            &&& totals.newlines() == count_newlines(old(stream).remaining().take(reach as int))
            &&& final(stream).position() == old(stream).position() + reach
        }),
{
    proof {
        use_type_invariant(&*stream);
        stream.lemma_in_bounds();
    }
    let mut scanner = match ChunkScanner::new(chunk_size, budget) {
        Ok(scanner) => scanner,
        Err(e) => {
            return Err(e);
        },
    };
    let ghost start = stream.position();
    let ghost left = stream.remaining();
    proof {
        lemma_on_course_at_start(left, chunk_size as nat, budget_of(budget));
    }
    loop
        invariant
            chunk_size > 0,
            scanner.chunk_size() == chunk_size,
            stream.content() == old(stream).content(),
            stream.in_bounds(),
            left == old(stream).remaining(),
            start == old(stream).position(),
            stream.position() == start + scanner@.seen.len(),
            on_course(scanner@, left, chunk_size as nat, budget_of(budget)),
        ensures
            scanner@.finished,
        decreases left.len() - scanner@.seen.len(), if scanner@.finished { 0int } else { 1int },
    {
        let wanted = match scanner.next_read() {
            Some(wanted) => wanted,
            None => {
                break ;
            },
        };
        let ghost before = scanner@;
        let ghost rest = stream.remaining();
        let chunk = stream.read(wanted);
        let fed = scanner.feed(chunk);
        proof {
            assert(rest =~= left.skip(before.seen.len() as int));
            lemma_on_course_after_read(
                before,
                left,
                chunk_size as nat,
                budget_of(budget),
                chunk@,
            );
        }
        if let Err(e) = fed {
            return Err(e);
        }
    }
    Ok(scanner.totals())
}

/// Counts the newlines from the read position of `reader` to its end, and
/// leaves the read position there.
pub fn count_lines_exact_reader(reader: &mut ByteStream) -> (r: Result<u64, CountError>)
    ensures
        r == Ok::<u64, CountError>(count_newlines(old(reader).remaining()) as u64),
        count_newlines(old(reader).remaining()) <= u64::MAX,
        final(reader).content() == old(reader).content(),
        final(reader).position() == old(reader).content().len(),
{
    let ghost left = reader.remaining();
    assert(left.take(left.len() as int) =~= left);
    match scan(reader, CHUNK_SIZE, None) {
        Ok(totals) => Ok(totals.total_newlines()),
        Err(e) => Err(e),
    }
}

/// Counts the newlines of the whole of `stream`, wherever its read position
/// stands, and leaves the read position at the end.
pub fn count_lines_exact(stream: &mut ByteStream) -> (r: Result<u64, CountError>)
    ensures
        r == Ok::<u64, CountError>(count_newlines(old(stream).content()) as u64),
        count_newlines(old(stream).content()) <= u64::MAX,
        final(stream).content() == old(stream).content(),
        final(stream).position() == old(stream).content().len(),
{
    stream.seek(0);
    assert(stream.remaining() =~= stream.content());
    count_lines_exact_reader(stream)
}

/// The estimate that the sampled bytes give for an input of `length` bytes.
/// There is none for a sample with more bytes than a `u64` counts, nor for
/// one without a newline.
pub open spec fn sample_estimate(length: nat, sample: Seq<u8>) -> Result<nat, CountError> {
    if sample.len() > u64::MAX {
        Err(CountError::InputTooLarge)
    } else {
        estimated(length, sample.len(), count_newlines(sample))
    }
}

/// Whether `r` and `position` are what sampling a stream of `content` with
/// the sizes of `shape` can end with: the estimate from the windows at some
/// offsets that the shape admits, and the read position behind the last of
/// them.
pub open spec fn sampled_somewhere(
    content: Seq<u8>,
    shape: SamplingShape,
    r: Result<u64, CountError>,
    position: nat,
) -> bool {
    exists|offsets: Seq<u64>|
        {
            &&& #[trigger] shape.admits(offsets)
            &&& agrees(
                r,
                sample_estimate(shape.length, sampled(content, offsets, shape.window_bytes())),
            )
            &&& position == offsets.last() + shape.window_bytes()
        }
}

/// The estimate is reproducible: the bytes of the input, the sizes and the
/// offsets of the windows leave room for one result only, so two runs that
/// agree on them agree on the result.
pub proof fn lemma_estimate_is_reproducible(
    content: Seq<u8>,
    shape: SamplingShape,
    offsets: Seq<u64>,
    first: Result<u64, CountError>,
    second: Result<u64, CountError>,
)
    requires
        agrees(
            first,
            sample_estimate(shape.length, sampled(content, offsets, shape.window_bytes())),
        ),
        agrees(
            second,
            sample_estimate(shape.length, sampled(content, offsets, shape.window_bytes())),
        ),
    ensures
        first == second,
{
}

/// Runs a sampler that has not begun over `stream`, until every window is
/// read.
fn run_sampler(stream: &mut ByteStream, fresh: Sampler) -> (r: Result<Sampler, CountError>)
    requires
        fresh@ == SamplerState::initial(
            fresh@.offsets,
            fresh@.chunk_size,
            fresh@.sample_length,
        ),
    ensures
        final(stream).content() == old(stream).content(),
        old(stream).in_bounds(),
        ({
            let window_bytes = fresh@.chunk_size * fresh@.sample_length;
            let sample = sampled(old(stream).content(), fresh@.offsets, window_bytes);
            if sample.len() <= u64::MAX {
                &&& r matches Ok(done)
                &&& done.length() == fresh.length()
                &&& done@.gathered == sample
                &&& final(stream).position() == position_after(
                    old(stream).content(),
                    old(stream).position(),
                    fresh@.offsets,
                    window_bytes,
                )
            } else {
                &&& r matches Err(CountError::InputTooLarge)
                &&& position_at_overflow(
                    old(stream).content(),
                    fresh@.offsets,
                    window_bytes,
                    final(stream).position(),
                )
            }
        }),
{
    proof {
        use_type_invariant(&*stream);
        stream.lemma_in_bounds();
    }
    let mut sampler = fresh;
    let ghost content = stream.content();
    let ghost origin = stream.position();
    let ghost offsets = sampler@.offsets;
    let ghost window_bytes = sampler@.chunk_size * sampler@.sample_length;
    assert(offsets.take(0) =~= Seq::<u64>::empty());
    loop
        invariant
            stream.content() == content,
            content == old(stream).content(),
            origin == old(stream).position(),
            stream.in_bounds(),
            old(stream).in_bounds(),
            sampler@.offsets == offsets,
            sampler@.chunk_size == fresh@.chunk_size,
            sampler@.sample_length == fresh@.sample_length,
            fresh@.offsets == offsets,
            window_bytes == sampler@.chunk_size * sampler@.sample_length,
            sampler.length() == fresh.length(),
            sampler_on_course(sampler@, content, origin, stream.position()),
        ensures
            sampler@.finished(),
            sampler@.reading is None,
            sampler@.gathered.len() <= u64::MAX,
        decreases
                offsets.len() - sampler@.completed,
                match sampler@.reading {
                    None => content.len() + 2,
                    Some(window) => (content.len() + 1 - stream.position()) as nat,
                },
    {
        let ghost before = sampler@;
        let ghost position = stream.position();
        match sampler.next_step() {
            Step::Finished => {
                break ;
            },
            Step::Seek(offset) => {
                stream.seek(offset);
                sampler.sought();
                proof {
                    lemma_on_course_at_start(
                        content.skip(stream.position() as int),
                        before.chunk_size,
                        Some(before.sample_length),
                    );
                }
            },
            Step::Read(wanted) => {
                let chunk = stream.read(wanted);
                let fed = sampler.feed(chunk);
                proof {
                    lemma_sampler_on_course_after_read(before, content, origin, position, chunk@);
                    if before.fed(chunk@).completed > before.completed {
                        let read = (before.completed + 1) as int;
                        lemma_sampled_grows(content, offsets, window_bytes, read);
                        assert(offsets.take(read - 1) == offsets.take(before.completed as int));
                        if fed is Err {
                            assert(sampled(content, offsets.take(read), window_bytes).len()
                                > u64::MAX);
                        }
                    }
                }
                if let Err(e) = fed {
                    return Err(e);
                }
            },
        }
    }
    proof {
        assert(offsets.take(sampler@.completed as int) =~= offsets);
    }
    Ok(sampler)
}

/// Reads the window at each of `offsets` and adds up what the chunked
/// scanner finds in them.
///
/// The totals are those of the sampled bytes. The call fails only where the
/// windows together hold more bytes than a `u64` counts.
pub fn sample_at(stream: &mut ByteStream, sampling: SamplingPlan, offsets: Vec<u64>) -> (r:
    Result<SampleResult, CountError>)
    ensures
        final(stream).content() == old(stream).content(),
        old(stream).in_bounds(),
        sampling@.valid(),
        ({
            let sample = sampled(old(stream).content(), offsets@, sampling@.window_bytes());
            if sample.len() <= u64::MAX {
                &&& r matches Ok(totals) && totals.bytes() == sample.len() && totals.newlines()
                    == count_newlines(sample)
                &&& final(stream).position() == position_after(
                    old(stream).content(),
                    old(stream).position(),
                    offsets@,
                    sampling@.window_bytes(),
                )
            } else {
                &&& r matches Err(CountError::InputTooLarge)
                &&& position_at_overflow(
                    old(stream).content(),
                    offsets@,
                    sampling@.window_bytes(),
                    final(stream).position(),
                )
            }
        }),
{
    match run_sampler(stream, Sampler::with_offsets(sampling, offsets)) {
        Ok(sampler) => Ok(sampler.totals()),
        Err(e) => Err(e),
    }
}

/// Estimates the line count of `stream` from the windows at `offsets`.
///
/// The result is a function of the bytes of the stream, the sizes of the
/// plan and the offsets: two runs that agree on them agree on the estimate.
pub fn estimate_at(stream: &mut ByteStream, sampling: SamplingPlan, offsets: Vec<u64>) -> (r:
    Result<u64, CountError>)
    ensures
        final(stream).content() == old(stream).content(),
        old(stream).in_bounds(),
        sampling@.valid(),
        agrees(
            r,
            sample_estimate(
                sampling@.length,
                sampled(old(stream).content(), offsets@, sampling@.window_bytes()),
            ),
        ),
        if r matches Err(CountError::InputTooLarge) {
            position_at_overflow(
                old(stream).content(),
                offsets@,
                sampling@.window_bytes(),
                final(stream).position(),
            )
        } else {
            final(stream).position() == position_after(
                old(stream).content(),
                old(stream).position(),
                offsets@,
                sampling@.window_bytes(),
            )
        },
{
    match run_sampler(stream, Sampler::with_offsets(sampling, offsets)) {
        Ok(sampler) => sampler.estimate(),
        Err(e) => Err(e),
    }
}

/// Counts the lines of `stream` by the method that the mode selector picks
/// for its length.
///
/// A size of zero is refused. Where the selector gives a reason to count
/// exactly, the result is the exact count. Where it gives none, the result is
/// the estimate from the windows at some offsets that the plan admits; which
/// ones is up to the generator. A sample without a newline gives an error,
/// never a number.
pub fn count_lines(
    stream: &mut ByteStream,
    mode: Mode,
    options: EstimateOptions,
    threshold: u64,
) -> (r: Result<u64, CountError>)
    ensures
        final(stream).content() == old(stream).content(),
        old(stream).in_bounds(),
        !sizes_positive(options) ==> {
            &&& r matches Err(CountError::InvalidConfiguration)
            &&& final(stream).position() == old(stream).position()
        },
        sizes_positive(options) ==> match exact_reason(
            mode,
            Some(old(stream).content().len() as u64),
            options,
            threshold,
        ) {
            Some(_) => {
                &&& r == Ok::<u64, CountError>(count_newlines(old(stream).content()) as u64)
                &&& final(stream).position() == old(stream).content().len()
            },
            None => {
                &&& sampled_somewhere(
                    old(stream).content(),
                    shape_of(old(stream).content().len() as u64, options),
                    r,
                    final(stream).position(),
                )
                &&& r matches Err(e) ==> e == CountError::EstimationDegenerate
            },
        },
{
    let length = stream.len();
    let decided = plan(mode, Some(length), &options, threshold);
    match decided {
        Err(e) => Err(e),
        Ok(Plan::Exact(_)) => count_lines_exact(stream),
        Ok(Plan::Estimate(sampling)) => {
            let mut rng = options.rng;
            let sampler = Sampler::new(sampling, &mut rng);
            let ghost offsets = sampler@.offsets;
            proof {
                sampling@.lemma_window_fits();
                lemma_sampled_whole(stream.content(), offsets, sampling@.window_bytes());
                assert(offsets.len() * sampling@.window_bytes() == sampling@.volume())
                    by (nonlinear_arith)
                    requires
                        offsets.len() == sampling@.num_samples,
                        sampling@.window_bytes() == sampling@.chunk_size
                            * sampling@.sample_length,
                        sampling@.volume() == sampling@.chunk_size * sampling@.sample_length
                            * sampling@.num_samples,
                ;
            }
            let r = match run_sampler(stream, sampler) {
                Ok(sampler) => sampler.estimate(),
                Err(e) => Err(e),
            };
            assert(sampling@.admits(offsets));
            r
        },
    }
}

/// Estimates the line count of `stream` from windows at random offsets, or
/// counts it exactly where the windows would cover it.
///
/// A size of zero is refused. Where the windows together would read at least
/// as many bytes as the stream holds, the result is the exact count. Where
/// they read less, it is the estimate from the windows at some offsets that
/// the plan admits; which ones is up to the generator. A sample without a
/// newline gives an error, never a number.
pub fn count_lines_estimate(stream: &mut ByteStream, options: EstimateOptions) -> (r: Result<
    u64,
    CountError,
>)
    ensures
        final(stream).content() == old(stream).content(),
        old(stream).in_bounds(),
        !sizes_positive(options) ==> {
            &&& r matches Err(CountError::InvalidConfiguration)
            &&& final(stream).position() == old(stream).position()
        },
        sizes_positive(options) && shape_of(old(stream).content().len() as u64, options).volume()
            >= old(stream).content().len() ==> {
            &&& r == Ok::<u64, CountError>(count_newlines(old(stream).content()) as u64)
            &&& final(stream).position() == old(stream).content().len()
        },
        sizes_positive(options) && shape_of(old(stream).content().len() as u64, options).volume()
            < old(stream).content().len() ==> {
            &&& sampled_somewhere(
                old(stream).content(),
                shape_of(old(stream).content().len() as u64, options),
                r,
                final(stream).position(),
            )
            &&& r matches Err(e) ==> e == CountError::EstimationDegenerate
        },
{
    count_lines(stream, Mode::Estimate, options, 0)
}

} // verus!
