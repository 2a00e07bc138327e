use linecount::{plan, CountError, EstimateOptions, ExactReason, Mode, Plan, SMALL_FILE_THRESHOLD};
use rand::rngs::StdRng;
use rand::SeedableRng;

fn options(chunk_size: usize, sample_length: usize, num_samples: usize) -> EstimateOptions {
    EstimateOptions { chunk_size, sample_length, num_samples, rng: StdRng::seed_from_u64(0) }
}

fn reason(
    mode: Mode,
    length: Option<u64>,
    options: &EstimateOptions,
    threshold: u64,
) -> Option<ExactReason> {
    match plan(mode, length, options, threshold) {
        Ok(Plan::Exact(reason)) => Some(reason),
        Ok(Plan::Estimate(_)) => None,
        Err(e) => panic!("refused: {:?}", e),
    }
}

#[test]
fn threshold_is_two_gibibytes() {
    assert_eq!(SMALL_FILE_THRESHOLD, 2 * 1024 * 1024 * 1024);
}

#[test]
fn exact_mode_is_always_exact() {
    let sizes = options(64, 4, 5);
    assert_eq!(reason(Mode::Exact, Some(1 << 40), &sizes, 0), Some(ExactReason::Requested));
    assert_eq!(reason(Mode::Exact, Some(0), &sizes, 0), Some(ExactReason::Requested));
    assert_eq!(reason(Mode::Exact, None, &sizes, 0), Some(ExactReason::Requested));
}

#[test]
fn input_that_cannot_seek_is_counted_exactly() {
    let sizes = options(64, 4, 5);
    assert_eq!(reason(Mode::Estimate, None, &sizes, 0), Some(ExactReason::NotSeekable));
    assert_eq!(reason(Mode::Auto, None, &sizes, 0), Some(ExactReason::NotSeekable));
}

#[test]
fn automatic_mode_counts_below_the_threshold() {
    let sizes = options(64, 4, 5);
    assert_eq!(reason(Mode::Auto, Some(9_999), &sizes, 10_000), Some(ExactReason::SmallInput));
    assert_eq!(reason(Mode::Auto, Some(10_000), &sizes, 10_000), None);
    assert_eq!(reason(Mode::Auto, Some(10_001), &sizes, 10_000), None);
    // The threshold does not bind an estimate that was asked for.
    assert_eq!(reason(Mode::Estimate, Some(9_999), &sizes, 10_000), None);
    // Below the threshold the size of the sample does not matter.
    assert_eq!(reason(Mode::Auto, Some(100), &sizes, 10_000), Some(ExactReason::SmallInput));
}

#[test]
fn sample_that_covers_the_input_is_not_drawn() {
    let sizes = options(64, 4, 5);
    let covered = Some(ExactReason::SampleCoversInput);
    assert_eq!(reason(Mode::Estimate, Some(1279), &sizes, 0), covered);
    assert_eq!(reason(Mode::Estimate, Some(1280), &sizes, 0), covered);
    assert_eq!(reason(Mode::Estimate, Some(1281), &sizes, 0), None);
    assert_eq!(reason(Mode::Auto, Some(1280), &sizes, 1000), covered);
    assert_eq!(reason(Mode::Estimate, Some(0), &sizes, 0), covered);
    let huge = options(usize::MAX, usize::MAX, 2);
    assert_eq!(reason(Mode::Estimate, Some(u64::MAX), &huge, 0), covered);
    let wide = options(usize::MAX, 1, 2);
    assert_eq!(reason(Mode::Estimate, Some(u64::MAX), &wide, 0), covered);
}

#[test]
fn plan_keeps_the_sizes() {
    match plan(Mode::Auto, Some(1 << 32), &options(1 << 16, 500, 5), SMALL_FILE_THRESHOLD) {
        Ok(Plan::Estimate(sampling)) => {
            assert_eq!(sampling.length(), 1 << 32);
            assert_eq!(sampling.chunk_size(), 1 << 16);
            assert_eq!(sampling.sample_length(), 500);
            assert_eq!(sampling.num_samples(), 5);
            assert_eq!(sampling.window_bytes(), 500 << 16);
        }
        other => panic!("no sampling plan: {:?}", other),
    }
}

#[test]
fn zero_sizes_are_refused_in_every_mode() {
    for mode in [Mode::Exact, Mode::Estimate, Mode::Auto] {
        for length in [None, Some(0), Some(1 << 40)] {
            let refused = [options(0, 4, 5), options(64, 0, 5), options(64, 4, 0), options(0, 0, 0)];
            for sizes in refused {
                assert!(matches!(
                    plan(mode, length, &sizes, 1000),
                    Err(CountError::InvalidConfiguration)
                ));
            }
        }
    }
}
