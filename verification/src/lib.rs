//! Counting newline-delimited lines, exactly or by estimation from a random
//! sample of windows.
//!
//! A line is what a newline byte ends: the count is the number of `\n` bytes,
//! and text behind the last of them is no line.
//!
//! The crate reads no file. It decides what is to be read and what the bytes
//! amount to; its caller reads and seeks:
//!
//! - [`plan`] is the mode selector. From the caller's wish, the length of the
//!   input and the sampling sizes it picks the exact count or the estimate.
//! - [`ChunkScanner`] is the chunked scanner. It asks for one read after the
//!   other, is fed what each returned, and keeps the totals.
//! - [`Sampler`] is the sampler. It draws the start of each sample window,
//!   asks for the seek to it and for its reads, and adds up the windows.
//! - [`estimate`] extrapolates the totals of the windows to the whole input.
//!
//! The functions of [`count`] run these parts over a [`ByteStream`], a stream
//! held in memory, and their contracts say what the parts compute together in
//! terms of the bytes of the stream.

pub mod count;
pub mod error;
pub mod estimate;
pub mod newlines;
pub mod plan;
pub mod random;
pub mod sample;
pub mod sampler;
pub mod scanner;
pub mod size;
pub mod stream;

pub use count::{
    count_lines, count_lines_estimate, count_lines_exact, count_lines_exact_reader, estimate_at,
    sample_at, scan, CHUNK_SIZE,
};
pub use error::CountError;
pub use estimate::estimate;
pub use newlines::NEWLINE;
pub use plan::{
    plan, EstimateOptions, ExactReason, Mode, Plan, SamplingPlan, SMALL_FILE_THRESHOLD,
};
pub use sample::SampleResult;
pub use sampler::{Sampler, Step};
pub use scanner::ChunkScanner;
pub use size::{parse_bytes, SizeError};
pub use stream::ByteStream;
