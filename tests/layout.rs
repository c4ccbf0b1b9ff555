use sigproc::covariance::CovarianceType;
use sigproc::fft::{num_real_bins, signed_bins, StridedView};
use sigproc::filter::{Block, BlockPlan};
use sigproc::pow2::{is_power_of_two, next_power_of_two};
use sigproc::s_transform::{num_rows, shifted_bins, spectrum_sources, window_offsets, BinSource};
use sigproc::stft::FramePlan;
use sigproc::wavelet::{time_offsets, MexicanHat, Morlet, WaveletKind};

#[test]
fn powers_of_two() {
    assert!(is_power_of_two(1));
    assert!(is_power_of_two(64));
    assert!(!is_power_of_two(0));
    assert!(!is_power_of_two(12));
    assert_eq!(next_power_of_two(0), 1);
    assert_eq!(next_power_of_two(1), 1);
    assert_eq!(next_power_of_two(3), 4);
    assert_eq!(next_power_of_two(8), 8);
    assert_eq!(next_power_of_two(9), 16);
}

#[test]
fn moving_average_plan() {
    // three taps over five samples: transforms of 32, one block, 7 outputs
    let p = BlockPlan::new(3, 5).unwrap();
    assert_eq!(p.block_len, 32);
    assert_eq!(p.step, 30);
    assert_eq!(p.output_len(), 7);
    assert_eq!(p.num_blocks(), 1);
    assert_eq!(p.block(0), Block { start: 0, chunk_len: 5, end: 7 });
}

#[test]
fn impulse_plan() {
    let p = BlockPlan::new(3, 1).unwrap();
    assert_eq!(p.output_len(), 3);
    assert_eq!(p.block(0), Block { start: 0, chunk_len: 1, end: 3 });
}

#[test]
fn long_signal_is_cut_into_blocks() {
    // two taps: n = 16, l = 15
    let p = BlockPlan::new(2, 40).unwrap();
    assert_eq!((p.block_len, p.step), (16, 15));
    assert_eq!(p.output_len(), 41);
    assert_eq!(p.num_blocks(), 3);
    assert_eq!(p.block(0), Block { start: 0, chunk_len: 15, end: 16 });
    assert_eq!(p.block(1), Block { start: 15, chunk_len: 15, end: 31 });
    assert_eq!(p.block(2), Block { start: 30, chunk_len: 10, end: 41 });
}

#[test]
fn zero_length_signal_plan() {
    let p = BlockPlan::new(3, 0).unwrap();
    assert_eq!(p.output_len(), 2);
    assert_eq!(p.num_blocks(), 0);
}

#[test]
fn plan_without_taps_is_refused() {
    assert!(BlockPlan::new(0, 10).is_none());
    assert!(BlockPlan::new(usize::MAX, 1).is_none());
}

#[test]
fn stft_frames() {
    let p = FramePlan::new(10, 3, 2).unwrap();
    assert_eq!(p.padded_len, 4);
    assert_eq!(p.num_frames, 4);
    assert_eq!(p.frame_start(0), 0);
    assert_eq!(p.frame_start(3), 6);
    let q = FramePlan::new(8, 8, 1).unwrap();
    assert_eq!((q.padded_len, q.num_frames), (8, 1));
}

#[test]
fn stft_rejects_short_signal_and_zero_hop() {
    assert!(FramePlan::new(4, 5, 1).is_none());
    assert!(FramePlan::new(10, 4, 0).is_none());
}

#[test]
fn gaussian_window_is_mirrored() {
    assert_eq!(window_offsets(8), vec![0, 1, 2, 3, 4, 3, 2, 1]);
    assert_eq!(window_offsets(1), vec![0]);
    assert_eq!(window_offsets(5), vec![0, 1, 2, 2, 1]);
}

#[test]
fn spectrum_is_shifted_circularly() {
    assert_eq!(shifted_bins(4, 1), vec![1, 2, 3, 0]);
    assert_eq!(shifted_bins(8, 4), vec![4, 5, 6, 7, 0, 1, 2, 3]);
    assert_eq!(shifted_bins(4, 0), vec![0, 1, 2, 3]);
}

#[test]
fn s_transform_shape() {
    assert_eq!(num_rows(8), 5);
    assert_eq!(num_rows(1), 1);
}

#[test]
fn inverse_rebuilds_upper_half_by_conjugation() {
    let v = spectrum_sources(num_rows(4), 4).unwrap();
    assert_eq!(
        v,
        vec![
            BinSource::RowSum(0),
            BinSource::RowSum(1),
            BinSource::RowSum(2),
            BinSource::ConjRowSum(1)
        ]
    );
    let w = spectrum_sources(5, 8).unwrap();
    assert_eq!(w[5], BinSource::ConjRowSum(3));
    assert_eq!(w[7], BinSource::ConjRowSum(1));
    let short = spectrum_sources(2, 8).unwrap();
    assert_eq!(short[2], BinSource::Zero);
    assert_eq!(short[7], BinSource::ConjRowSum(1));
    assert_eq!(short[6], BinSource::Zero);
}

#[test]
fn inverse_refuses_more_rows_than_columns() {
    assert!(spectrum_sources(5, 4).is_none());
}

#[test]
fn strided_views_split_even_and_odd() {
    let w = StridedView::whole(8);
    let e = w.even();
    let o = w.odd();
    assert_eq!((e.offset, e.stride, e.len), (0, 2, 4));
    assert_eq!((o.offset, o.stride, o.len), (1, 2, 4));
    let oe = o.even();
    let oo = o.odd();
    let idx: Vec<usize> = (0..oe.len).map(|k| oe.index(k)).collect();
    assert_eq!(idx, vec![1, 5]);
    let idx: Vec<usize> = (0..oo.len).map(|k| oo.index(k)).collect();
    assert_eq!(idx, vec![3, 7]);
}

#[test]
fn frequency_bins() {
    assert_eq!(signed_bins(4), vec![0, 1, -2, -1]);
    assert_eq!(signed_bins(5), vec![0, 1, -3, -2, -1]);
    assert_eq!(num_real_bins(8), 5);
}

#[test]
fn wavelet_time_axis() {
    assert_eq!(time_offsets(3, 1), vec![-1, 0, 1]);
    assert_eq!(time_offsets(0, 0), Vec::<i64>::new());
    assert_eq!(Morlet.kind(), WaveletKind::Morlet);
    assert!(Morlet.kind().is_complex());
    assert!(!MexicanHat.kind().is_complex());
}

#[test]
fn covariance_divisors() {
    assert_eq!(CovarianceType::Population.divisor(10), Some(10));
    assert_eq!(CovarianceType::Sample.divisor(10), Some(9));
    assert_eq!(CovarianceType::Sample.divisor(0), None);
}
