use linecount::{
    count_lines, count_lines_estimate, count_lines_exact, estimate, estimate_at, plan, sample_at,
    ByteStream, CountError, EstimateOptions, Mode, Plan, SampleResult, Sampler, SamplingPlan, Step,
};
use rand::rngs::StdRng;
use rand::SeedableRng;

fn stream_of(content: &str) -> ByteStream {
    ByteStream::new(content.as_bytes().to_vec())
}

fn options(
    chunk_size: usize,
    sample_length: usize,
    num_samples: usize,
    seed: u64,
) -> EstimateOptions {
    EstimateOptions { chunk_size, sample_length, num_samples, rng: StdRng::seed_from_u64(seed) }
}

fn sampling(
    length: u64,
    chunk_size: usize,
    sample_length: usize,
    num_samples: usize,
) -> SamplingPlan {
    let sizes = options(chunk_size, sample_length, num_samples, 0);
    match plan(Mode::Estimate, Some(length), &sizes, 0) {
        Ok(Plan::Estimate(sampling)) => sampling,
        other => panic!("no sampling plan: {:?}", other),
    }
}

fn totals(bytes: u64, newlines: u64) -> SampleResult {
    SampleResult::from_counts(bytes, newlines).unwrap()
}

#[test]
fn estimate_scales_the_sample_to_the_input() {
    assert_eq!(estimate(&totals(100, 7), 1000), Ok(70));
    assert_eq!(estimate(&totals(12, 4), 300), Ok(100));
    assert_eq!(estimate(&totals(50, 50), 50), Ok(50));
    assert_eq!(estimate(&totals(7, 1), 0), Ok(0));
}

#[test]
fn estimate_rounds_to_nearest_and_halves_upward() {
    // 1/3, 2/3, 1/2, 3/2, 5/2
    assert_eq!(estimate(&totals(3, 1), 1), Ok(0));
    assert_eq!(estimate(&totals(3, 2), 1), Ok(1));
    assert_eq!(estimate(&totals(4, 2), 1), Ok(1));
    assert_eq!(estimate(&totals(2, 1), 3), Ok(2));
    assert_eq!(estimate(&totals(2, 1), 5), Ok(3));
    // 10 * 3 / 7 = 4.29, 10 * 4 / 7 = 5.71
    assert_eq!(estimate(&totals(7, 3), 10), Ok(4));
    assert_eq!(estimate(&totals(7, 4), 10), Ok(6));
}

#[test]
fn estimate_is_exact_beyond_the_reach_of_floating_point() {
    assert_eq!(estimate(&totals(u64::MAX, u64::MAX), u64::MAX), Ok(u64::MAX));
    assert_eq!(estimate(&totals(u64::MAX, 1), u64::MAX), Ok(1));
    // (2^64 - 1) / 2 rounds upward to 2^63.
    assert_eq!(estimate(&totals(2, 1), u64::MAX), Ok(1 << 63));
    // (2^64 - 1) * (2^64 - 2) / (2^64 - 1)
    assert_eq!(estimate(&totals(u64::MAX, u64::MAX - 1), u64::MAX), Ok(u64::MAX - 1));
    // 9007199254740993 = 2^53 + 1 is no f64.
    assert_eq!(estimate(&totals(1, 1), 9007199254740993), Ok(9007199254740993));
}

#[test]
fn sample_without_newline_gives_no_estimate() {
    assert_eq!(estimate(&totals(4096, 0), 1 << 40), Err(CountError::EstimationDegenerate));
    assert_eq!(estimate(&totals(0, 0), 0), Err(CountError::EstimationDegenerate));
}

#[test]
fn estimate_of_input_without_newline_is_an_error() {
    let content = "x".repeat(10_000);
    let mut stream = stream_of(&content);
    let result = count_lines_estimate(&mut stream, options(16, 4, 3, 7));
    assert_eq!(result, Err(CountError::EstimationDegenerate));
    // The exact count of the same input is a plain zero.
    assert_eq!(count_lines_exact(&mut stream), Ok(0));
}

#[test]
fn estimate_from_given_offsets() {
    let content = "ab\n".repeat(100);
    let mut stream = stream_of(&content);
    let plan = sampling(300, 3, 2, 2);
    assert_eq!(plan.length(), 300);
    assert_eq!(plan.chunk_size(), 3);
    assert_eq!(plan.sample_length(), 2);
    assert_eq!(plan.num_samples(), 2);
    assert_eq!(plan.window_bytes(), 6);

    let totals = sample_at(&mut stream, plan, vec![0, 3]).unwrap();
    assert_eq!((totals.total_bytes_read(), totals.total_newlines()), (12, 4));
    assert_eq!(estimate_at(&mut stream, plan, vec![0, 3]), Ok(100));
    // Windows may overlap, and need not start at a line.
    assert_eq!(estimate_at(&mut stream, plan, vec![1, 2]), Ok(100));

    let narrow = sampling(300, 2, 1, 1);
    assert_eq!(estimate_at(&mut stream, narrow, vec![0]), Err(CountError::EstimationDegenerate));
    assert_eq!(estimate_at(&mut stream, narrow, vec![1]), Ok(150));
    assert_eq!(estimate_at(&mut stream, narrow, vec![0, 1, 2]), Ok(100));
}

#[test]
fn window_ends_with_the_input() {
    let content = "ab\n".repeat(100);
    let mut stream = stream_of(&content);
    let plan = sampling(300, 3, 2, 2);
    // One byte is left at 299, none at 300 and beyond.
    let totals = sample_at(&mut stream, plan, vec![299, 300, 1000, 296]).unwrap();
    assert_eq!((totals.total_bytes_read(), totals.total_newlines()), (5, 3));
    let totals = sample_at(&mut stream, plan, vec![]).unwrap();
    assert_eq!((totals.total_bytes_read(), totals.total_newlines()), (0, 0));
    assert_eq!(estimate_at(&mut stream, plan, vec![]), Err(CountError::EstimationDegenerate));
}

#[test]
fn estimate_is_a_function_of_the_offsets() {
    let content: String = (0..5000).map(|i| format!("{}\n", "y".repeat(i % 17))).collect();
    let mut stream = stream_of(&content);
    let plan = sampling(content.len() as u64, 64, 4, 5);
    let offsets = vec![0, 999, 20_000, 31_337, 40_000];
    let first = estimate_at(&mut stream, plan, offsets.clone());
    let second = estimate_at(&mut stream, plan, offsets.clone());
    assert!(first.is_ok());
    assert_eq!(first, second);
}

#[test]
fn estimate_repeats_with_the_seed() {
    let content: String = (0..5000).map(|i| format!("{}\n", "y".repeat(i % 17))).collect();
    let mut stream = stream_of(&content);
    // 64 * 4 * 5 bytes are far less than the input, so windows are sampled.
    assert!(content.len() > 10 * 64 * 4 * 5);
    let first = count_lines_estimate(&mut stream, options(64, 4, 5, 42)).unwrap();
    let second = count_lines_estimate(&mut stream, options(64, 4, 5, 42)).unwrap();
    assert_eq!(first, second);
    // The lines are 9 bytes on average; whatever windows are drawn, the
    // estimate is of that order.
    assert!(first > 2500 && first < 10_000, "estimate {}", first);
}

#[test]
fn drawn_offsets_leave_room_for_a_window() {
    let plan = sampling(1000, 10, 9, 11);
    let mut rng = StdRng::seed_from_u64(3);
    for _ in 0..50 {
        let offsets = plan.draw_offsets(&mut rng);
        assert_eq!(offsets.len(), 11);
        assert!(offsets.iter().all(|offset| *offset < 910));
    }
    // Offsets differ from draw to draw.
    let first = plan.draw_offsets(&mut rng);
    let second = plan.draw_offsets(&mut rng);
    assert_ne!(first, second);
}

#[test]
fn only_offset_zero_fits_a_window_one_byte_short_of_the_input() {
    let plan = sampling(5, 2, 2, 1);
    let mut rng = StdRng::seed_from_u64(11);
    for _ in 0..20 {
        assert_eq!(plan.draw_offsets(&mut rng), vec![0]);
    }
}

#[test]
fn window_scanner_has_the_sizes_of_the_plan() {
    let plan = sampling(1000, 10, 2, 3);
    let mut scanner = plan.window_scanner();
    assert_eq!(scanner.next_read(), Some(10));
    scanner.feed(b"0123456789").unwrap();
    assert_eq!(scanner.next_read(), Some(10));
    scanner.feed(b"0123456789").unwrap();
    assert_eq!(scanner.next_read(), None);
}

#[test]
fn estimate_falls_back_to_the_exact_count() {
    let content: String = (0..700).map(|i| format!("{}\n", i)).collect();
    let length = content.len();
    let mut stream = stream_of(&content);
    let exact = count_lines_exact(&mut stream).unwrap();
    assert_eq!(exact, 700);
    // More than the input, and exactly the input.
    assert_eq!(count_lines_estimate(&mut stream, options(1 << 16, 500, 5, 1)), Ok(exact));
    assert_eq!(count_lines_estimate(&mut stream, options(length, 1, 1, 1)), Ok(exact));
    assert_eq!(count_lines_estimate(&mut stream, options(1, length, 1, 1)), Ok(exact));
    assert_eq!(count_lines_estimate(&mut stream, options(1, 1, length, 1)), Ok(exact));
    // Sizes whose product does not fit in any integer type.
    assert_eq!(
        count_lines_estimate(&mut stream, options(usize::MAX, usize::MAX, usize::MAX, 1)),
        Ok(exact)
    );
    // An empty input is covered by any sample.
    assert_eq!(count_lines_estimate(&mut stream_of(""), options(1, 1, 1, 1)), Ok(0));
}

#[test]
fn estimate_refuses_zero_sizes() {
    let mut stream = stream_of("a\nb\n");
    assert_eq!(
        count_lines_estimate(&mut stream, options(0, 1, 1, 1)),
        Err(CountError::InvalidConfiguration)
    );
    assert_eq!(
        count_lines_estimate(&mut stream, options(1, 0, 1, 1)),
        Err(CountError::InvalidConfiguration)
    );
    assert_eq!(
        count_lines_estimate(&mut stream, options(1, 1, 0, 1)),
        Err(CountError::InvalidConfiguration)
    );
    assert_eq!(
        count_lines(&mut stream, Mode::Exact, options(0, 0, 0, 1), 0),
        Err(CountError::InvalidConfiguration)
    );
}

#[test]
fn count_lines_follows_the_mode() {
    let content = "ab\n".repeat(1000);
    let mut stream = stream_of(&content);
    // One window of two bytes: an estimate is 0 lines short of 1500 or fails.
    let sampled = |stream: &mut ByteStream, mode: Mode, threshold: u64| {
        count_lines(stream, mode, options(2, 1, 1, 5), threshold)
    };
    assert_eq!(sampled(&mut stream, Mode::Exact, 0), Ok(1000));
    assert_eq!(sampled(&mut stream, Mode::Auto, 3001), Ok(1000));
    let estimated = sampled(&mut stream, Mode::Auto, 3000);
    assert!(estimated == Ok(1500) || estimated == Err(CountError::EstimationDegenerate));
    let estimated = sampled(&mut stream, Mode::Estimate, u64::MAX);
    assert!(estimated == Ok(1500) || estimated == Err(CountError::EstimationDegenerate));
}

#[test]
fn options_can_be_cloned() {
    let first = options(64, 4, 5, 42);
    let second = first.clone();
    assert_eq!(second.chunk_size, 64);
    assert_eq!(second.sample_length, 4);
    assert_eq!(second.num_samples, 5);
    let content: String = (0..5000).map(|i| format!("{}\n", i)).collect();
    let mut stream = stream_of(&content);
    assert_eq!(
        count_lines_estimate(&mut stream, first),
        count_lines_estimate(&mut stream, second)
    );
}

#[test]
fn sampler_asks_for_a_seek_then_for_the_chunks_of_each_window() {
    let plan = sampling(1000, 4, 2, 2);
    let mut sampler = Sampler::with_offsets(plan, vec![100, 7]);
    assert_eq!(sampler.next_step(), Step::Seek(100));
    sampler.sought();
    assert_eq!(sampler.next_step(), Step::Read(4));
    sampler.feed(b"ab\nc").unwrap();
    assert_eq!(sampler.next_step(), Step::Read(4));
    sampler.feed(b"\n\nde").unwrap();
    // The budget of the first window is spent.
    assert_eq!(sampler.next_step(), Step::Seek(7));
    assert_eq!(sampler.totals().total_bytes_read(), 8);
    assert_eq!(sampler.totals().total_newlines(), 3);
    sampler.sought();
    assert_eq!(sampler.next_step(), Step::Read(4));
    sampler.feed(b"x\n").unwrap();
    assert_eq!(sampler.next_step(), Step::Read(4));
    // The input has ended within the second window.
    sampler.feed(b"").unwrap();
    assert_eq!(sampler.next_step(), Step::Finished);
    assert_eq!(sampler.totals().total_bytes_read(), 10);
    assert_eq!(sampler.totals().total_newlines(), 4);
    // 1000 * 4 / 10
    assert_eq!(sampler.estimate(), Ok(400));
}

#[test]
fn sampler_ignores_what_is_not_due() {
    let plan = sampling(1000, 4, 1, 1);
    let mut sampler = Sampler::with_offsets(plan, vec![5]);
    // A chunk before the seek is done is no part of a window.
    sampler.feed(b"\n\n\n\n").unwrap();
    assert_eq!(sampler.next_step(), Step::Seek(5));
    assert_eq!(sampler.totals().total_bytes_read(), 0);
    sampler.sought();
    // A second notice of the seek does not begin the window anew.
    sampler.sought();
    sampler.feed(b"a\nb").unwrap();
    assert_eq!(sampler.next_step(), Step::Finished);
    sampler.sought();
    sampler.feed(b"\n\n").unwrap();
    assert_eq!(sampler.next_step(), Step::Finished);
    assert_eq!(sampler.totals().total_bytes_read(), 3);
    assert_eq!(sampler.totals().total_newlines(), 1);
    assert_eq!(sampler.estimate(), Ok(333));
}

#[test]
fn sampler_without_offsets_is_finished() {
    let plan = sampling(1000, 4, 1, 1);
    let sampler = Sampler::with_offsets(plan, vec![]);
    assert_eq!(sampler.next_step(), Step::Finished);
    assert_eq!(sampler.estimate(), Err(CountError::EstimationDegenerate));
}

#[test]
fn sampler_draws_its_offsets_from_the_generator() {
    let plan = sampling(1000, 10, 9, 3);
    let mut first = StdRng::seed_from_u64(99);
    let mut second = StdRng::seed_from_u64(99);
    let mut one = Sampler::new(plan, &mut first);
    let mut other = Sampler::new(plan, &mut second);
    for _ in 0..3 {
        let step = one.next_step();
        assert_eq!(step, other.next_step());
        match step {
            Step::Seek(offset) => assert!(offset < 910),
            step => panic!("no seek: {:?}", step),
        }
        for sampler in [&mut one, &mut other] {
            sampler.sought();
            sampler.feed(b"\n").unwrap();
            sampler.feed(b"").unwrap();
        }
    }
    assert_eq!(one.next_step(), Step::Finished);
    assert_eq!(one.estimate(), Ok(1000));
}
