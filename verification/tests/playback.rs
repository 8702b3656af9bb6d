use piwfs::resample::{convolve, filters, shift, tail, UNIT};
use piwfs::steering::{
    along, corrected, drift, fill_threshold, frames_in, frames_read, jump, place_due,
    read_position, samples_in, seek_target, taps_for, Progress, MAX_JUMP, PARTS,
};
use piwfs::timing::{
    later, mean_sample_length, next_frame_time, nominal_length, observed_length, preroll,
    sample_length, spin, Forecasts, Spin, Status, ATTOS, SECOND,
};

fn impulse(quality: usize) -> Vec<i32> {
    let mut taps = vec![0; 2 * quality + 1];
    taps[quality] = UNIT;
    taps
}

#[test]
fn shift_by_nothing_is_identity() {
    let buf: Vec<i16> = (0..40).map(|i| (i * 700 - 14000) as i16).collect();
    for channels in 1..4usize {
        for quality in 0..4usize {
            let taps = impulse(quality);
            assert_eq!(filters(buf.len(), taps.len(), channels), Some(true));
            let out = convolve(&buf, &taps, channels);
            assert_eq!(out.len(), buf.len() - (2 * quality + 1) * channels);
            assert_eq!(out[..], buf[quality * channels..quality * channels + out.len()]);
        }
    }
}

#[test]
fn shift_keeps_the_channels_apart() {
    // Two channels: the left one rises, the right one is constant.
    let buf: Vec<i16> = vec![0, 50, 10, 50, 20, 50, 30, 50, 40, 50];
    // Half of a frame and half of the next one.
    let taps = vec![UNIT / 2, UNIT / 2, 0];
    let out = convolve(&buf, &taps, 2);
    assert_eq!(out, vec![5, 50, 15, 50]);
}

#[test]
fn shift_holds_samples_in_range() {
    let buf: Vec<i16> = vec![30000, -30000, 30000, -30000];
    let taps = vec![UNIT, UNIT, 0];
    assert_eq!(convolve(&buf, &taps, 1), vec![0]);
    let taps = vec![UNIT, 0, UNIT];
    assert_eq!(convolve(&buf, &taps, 1), vec![32767]);
    let buf: Vec<i16> = vec![-30000, 5, -30000, 7];
    assert_eq!(convolve(&buf, &taps, 1), vec![-32768]);
    // Weighted sums are rounded toward zero.
    let buf: Vec<i16> = vec![3, -3, 0, 0];
    assert_eq!(convolve(&buf, &vec![UNIT / 2], 1), vec![1, -1, 0]);
}

#[test]
fn shift_is_linear() {
    let u: Vec<i16> = vec![100, -200, 300, 40, -52, 60, 8, 12];
    let v: Vec<i16> = vec![-8, 80, 72, -600, 500, 4, -4, 20];
    let w: Vec<i16> = u.iter().zip(v.iter()).map(|(a, b)| 4 * a - 8 * b).collect();
    // Samples that are multiples of four and weights that are multiples of
    // a quarter, so that no sum of this test is rounded.
    let taps = vec![UNIT / 4, -UNIT / 2, UNIT / 4 * 3];
    let fu = convolve(&u, &taps, 2);
    let fv = convolve(&v, &taps, 2);
    let fw = convolve(&w, &taps, 2);
    let combined: Vec<i16> = fu.iter().zip(fv.iter()).map(|(a, b)| 4 * a - 8 * b).collect();
    assert_eq!(fw, combined);
}

#[test]
fn short_blocks_pass_their_tail() {
    let buf: Vec<i16> = vec![1, 2, 3, 4, 5, 6];
    assert_eq!(filters(6, 3, 2), Some(false));
    assert_eq!(filters(7, 3, 2), Some(true));
    assert_eq!(filters(6, usize::MAX, 2), None);
    assert_eq!(tail(&buf, 2), vec![3, 4, 5, 6]);
    assert_eq!(tail(&buf, 0), buf);
    assert_eq!(tail(&buf, 6), Vec::<i16>::new());
    assert_eq!(tail(&buf, 7), Vec::<i16>::new());
}

#[test]
fn blocks_are_filtered_or_passed() {
    let taps = impulse(1);
    let long: Vec<i16> = vec![1, 2, 3, 4, 5, 6, 7, 8];
    // Longer than the filter: filtered.
    assert_eq!(shift(&long, &taps, 1, 2), Some(vec![3, 4]));
    // As long as the filter, or shorter: passed from frame 1 on.
    let short: Vec<i16> = vec![1, 2, 3, 4, 5, 6];
    assert_eq!(shift(&short, &taps, 1, 2), Some(vec![3, 4, 5, 6]));
    assert_eq!(shift(&vec![1], &taps, 1, 2), Some(vec![]));
    assert_eq!(shift(&long, &taps, 1, 0), None);
    assert_eq!(shift(&long, &taps, usize::MAX, 2), None);
}

#[test]
fn sizes_of_blocks() {
    assert_eq!(taps_for(2), Some(5));
    assert_eq!(taps_for(0), Some(1));
    assert_eq!(taps_for(usize::MAX / 2), Some(usize::MAX));
    assert_eq!(taps_for(usize::MAX / 2 + 1), None);
    assert_eq!(samples_in(1024, 2), Some(2048));
    assert_eq!(samples_in(usize::MAX, 2), None);
    assert_eq!(fill_threshold(1024, 2), Some(4096));
    assert_eq!(fill_threshold(0, 2), Some(0));
    assert_eq!(fill_threshold(1 << 30, 1), None);
    assert_eq!(fill_threshold((1 << 30) - 1, 1), Some(i32::MAX - 1));
}

#[test]
fn spinning_keeps_every_new_report() {
    let mut stamps = Vec::new();
    let mut delays = Vec::new();
    let first = Status { stamp: 1000, delay: 5000, running: true };
    assert_eq!(spin(&mut stamps, &mut delays, first, true, 4096), Spin::Wait);
    assert_eq!(spin(&mut stamps, &mut delays, first, true, 4096), Spin::Repeat);
    let second = Status { stamp: 2000, delay: 4096, running: true };
    assert_eq!(spin(&mut stamps, &mut delays, second, true, 4096), Spin::Wait);
    let third = Status { stamp: 3000, delay: 4095, running: true };
    assert_eq!(spin(&mut stamps, &mut delays, third, true, 4096), Spin::Fill);
    assert_eq!(stamps, vec![1000, 2000, 3000]);
    assert_eq!(delays, vec![5000, 4096, 4095]);
}

#[test]
fn a_loop_that_does_not_spin_keeps_the_last_report() {
    let mut stamps = Vec::new();
    let mut delays = Vec::new();
    let first = Status { stamp: 1000, delay: 5000, running: true };
    assert_eq!(spin(&mut stamps, &mut delays, first, false, 4096), Spin::Wait);
    assert!(stamps.is_empty());
    let second = Status { stamp: 2000, delay: 5000, running: false };
    assert_eq!(spin(&mut stamps, &mut delays, second, false, 4096), Spin::Fill);
    assert_eq!(stamps, vec![2000]);
    assert_eq!(delays, vec![5000]);
    // A device that always reports a queue just below the threshold is
    // filled after each report.
    let low = Status { stamp: 3000, delay: 4095, running: true };
    assert_eq!(spin(&mut stamps, &mut delays, low, false, 4096), Spin::Fill);
    assert_eq!(stamps, vec![2000, 3000]);
}

#[test]
fn forecasts_are_settled_in_order() {
    let mut forecasts = Forecasts::new();
    forecasts.record(0, 100);
    forecasts.record(480, 10_100);
    forecasts.record(960, 20_100);
    forecasts.record(1440, 30_100);
    assert_eq!(forecasts.len(), 4);
    // A report on a frame before all forecasts settles nothing.
    assert_eq!(forecasts.settle(-5, 50), None);
    assert_eq!(forecasts.len(), 4);
    // The forecast for frame 480 was 40 ns late; the one before it is dropped.
    assert_eq!(forecasts.settle(480, 10_060), Some(40));
    assert_eq!(forecasts.len(), 2);
    // A report on a frame between forecasts drops the older one.
    assert_eq!(forecasts.settle(1000, 21_000), None);
    assert_eq!(forecasts.len(), 1);
    // The report came after the forecast: early by 25 ns.
    assert_eq!(forecasts.settle(1440, 30_125), Some(-25));
    assert_eq!(forecasts.len(), 0);
    assert_eq!(forecasts.settle(1440, 30_125), None);
}

#[test]
fn length_of_a_sample() {
    assert_eq!(ATTOS, 1_000_000_000);
    assert_eq!(SECOND, 1_000_000_000_000_000_000);
    assert_eq!(nominal_length(48000), Some(20_833_333_333_333));
    assert_eq!(nominal_length(1), Some(SECOND));
    assert_eq!(nominal_length(0), None);
    let earlier = Status { stamp: 1_000_000, delay: 1000, running: true };
    let later = Status { stamp: 2_000_000, delay: 952, running: true };
    // A millisecond for 48 frames.
    assert_eq!(sample_length(earlier, later, 7), 20_833_333_333_333);
    // No frame played, time running backwards, queue growing: the fallback.
    assert_eq!(sample_length(earlier, Status { delay: 1000, ..later }, 7), 7);
    assert_eq!(sample_length(later, earlier, 7), 7);
    assert_eq!(sample_length(earlier, Status { delay: 1001, ..later }, 7), 7);
    let stamps = vec![0, 1_000_000, 3_000_000, 3_000_000];
    let delays = vec![1000, 952, 852, 800];
    // 20833333333333, 20000000000000 and the fallback 9.
    assert_eq!(mean_sample_length(&stamps, &delays, 9), Some(13_611_111_111_114));
    assert_eq!(mean_sample_length(&stamps, &delays, i128::MAX), None);
    assert_eq!(observed_length(true, true, &stamps, &delays, 9), 13_611_111_111_114);
    assert_eq!(observed_length(false, true, &stamps, &delays, 9), 9);
    assert_eq!(observed_length(true, false, &stamps, &delays, 9), 9);
    assert_eq!(observed_length(true, true, &vec![5], &vec![1000], 9), 9);
    assert_eq!(observed_length(true, true, &vec![5, 5], &vec![1000, 1000], -9), -9);
}

#[test]
fn time_of_the_next_frame() {
    let length = 20_833_333_333_333;
    // 480 frames of 20.83 us are 10 ms.
    assert_eq!(next_frame_time(&vec![1_000_000_000], &vec![480], length), Some(1_009_999_999));
    assert_eq!(
        next_frame_time(&vec![1_000_000_000, 1_002_000_000], &vec![480, 384], length),
        Some(1_009_999_999)
    );
    assert_eq!(next_frame_time(&vec![i64::MAX], &vec![480], length), None);
    assert_eq!(next_frame_time(&vec![0], &vec![i64::MAX], i128::MAX), None);
    assert_eq!(later(1_000, length, 48), Some(1_000 + 999_999));
    assert_eq!(later(1_000, length, 0), Some(1_000));
    assert_eq!(later(i64::MAX, length, 48), None);
}

#[test]
fn silence_before_the_start() {
    let length = 20_833_333_333_333;
    // The start lies in the past or is now: no silence.
    assert_eq!(preroll(0, 1_000_000_000, length, 1024), 0);
    assert_eq!(preroll(5, 5, length, 1024), 0);
    // One nanosecond ahead takes one frame; a millisecond takes 48 frames
    // and, for the rounding of the length, one more.
    assert_eq!(preroll(6, 5, length, 1024), 1);
    assert_eq!(preroll(1_000_000, 0, length, 1024), 49);
    assert_eq!(preroll(1_000_000, 0, ATTOS * 1_000_000 / 48, 1024), 49);
    assert_eq!(preroll(1_000_000, 0, ATTOS * 1_000_000 / 50, 1024), 50);
    // A start far ahead takes one period, and no more.
    assert_eq!(preroll(i64::MAX, 0, length, 1024), 1024);
    assert_eq!(preroll(i64::MAX, i64::MIN, 1, 1024), 1024);
    assert_eq!(preroll(10, 0, 0, 1024), 1024);
    assert_eq!(preroll(10, 0, length, 0), 0);
}

#[test]
fn places_in_the_file() {
    assert_eq!(frames_read(96000, 96000, 2), Some(0));
    assert_eq!(frames_read(96000, 95000, 2), Some(500));
    assert_eq!(frames_read(96000, 0, 2), Some(48000));
    assert_eq!(frames_read(96000, 1, 0), None);
    assert_eq!(frames_read(10, 11, 2), None);
    assert_eq!(frames_in(96000, 2), Some(48000));
    assert_eq!(frames_in(96001, 2), Some(48000));
    assert_eq!(frames_in(96000, 0), None);
    assert_eq!(read_position(500, 2), 497);
    assert_eq!(read_position(3, 2), 0);
    assert_eq!(read_position(2, 2), 0);
    assert_eq!(read_position(7, u32::MAX), 0);
    let nominal = nominal_length(48000).unwrap();
    // One second after the start, at 48 kHz: frame 48000.
    assert_eq!(place_due(1_000_000_000, 0, nominal), Some(48_000 * PARTS));
    assert_eq!(place_due(0, 1_000_000_000, nominal), Some(-48_000 * PARTS));
    assert_eq!(place_due(1_000_000, 0, SECOND / 3), Some(3_000_000));
    assert_eq!(place_due(1, 0, SECOND), Some(1));
    assert_eq!(place_due(1, 0, 0), None);
    assert_eq!(place_due(1, 0, -5), None);
    assert_eq!(drift(48_000 * PARTS + 5, 47_990), Some(10 * PARTS + 5));
    assert_eq!(drift(i128::MIN, 1), None);
    assert_eq!(along(7, 3, -2), Some(1));
    assert_eq!(along(i128::MAX, 1, 1), None);
    assert_eq!(along(0, i128::MAX, 2), None);
}

#[test]
fn jumps_of_the_reader() {
    assert_eq!(MAX_JUMP, 100);
    assert_eq!(jump(0, 0), 0);
    assert_eq!(jump(PARTS - 1, 0), 0);
    assert_eq!(jump(PARTS, 0), 1);
    assert_eq!(jump(5 * PARTS / 2, 0), 2);
    // Rounded down, not toward zero.
    assert_eq!(jump(-1, 0), -1);
    assert_eq!(jump(-PARTS, 0), -1);
    assert_eq!(jump(-PARTS - 1, 0), -2);
    assert_eq!(jump(7 * PARTS, 4 * PARTS + 1), 2);
    // Held to a hundred frames either way.
    assert_eq!(jump(100 * PARTS, 0), 100);
    assert_eq!(jump(101 * PARTS, 0), 100);
    assert_eq!(jump(-100 * PARTS, 0), -100);
    assert_eq!(jump(-100 * PARTS - 1, 0), -100);
    assert_eq!(jump(i128::MAX, i128::MIN), 100);
    assert_eq!(jump(i128::MIN, i128::MAX), -100);

    assert_eq!(seek_target(500, 3, 2, 48000), 501);
    assert_eq!(seek_target(500, -3, 2, 48000), 495);
    assert_eq!(seek_target(500, 0, 2, 48000), 498);
    assert_eq!(seek_target(1, -3, 2, 48000), 0);
    assert_eq!(seek_target(4, -3, 2, 48000), 0);
    assert_eq!(seek_target(47_999, 100, 2, 48000), 48000);
    assert_eq!(seek_target(u32::MAX, 100, 2, u32::MAX), u32::MAX - 2);
    assert_eq!(seek_target(500, 3, 2, 100), 100);

    assert_eq!(corrected(0, 501, 500, 2), Some(3 * PARTS));
    assert_eq!(corrected(7, 495, 500, 2), Some(7 - 3 * PARTS));
    assert_eq!(corrected(7, 0, 1, 2), Some(7));
    assert_eq!(corrected(i128::MAX, 501, 500, 2), None);
}

#[test]
fn count_of_frames() {
    let mut progress = Progress::new();
    assert_eq!(progress.frames(), 0);
    assert!(progress.begin());
    assert_eq!(progress.frames(), 0);
    assert!(progress.wrote(1024));
    assert_eq!(progress.frames(), 0);
    assert!(progress.begin());
    assert_eq!(progress.frames(), 1024);
    assert_eq!(progress.played(24), 1000);
    assert!(progress.wrote(512));
    assert!(progress.begin());
    assert_eq!(progress.frames(), 1536);
    // After an underrun the frames of the write before it are not counted
    // again, and the count goes on from where it was.
    progress.underrun();
    assert!(progress.begin());
    assert_eq!(progress.frames(), 1536);
    assert!(progress.wrote(1024));
    assert!(progress.begin());
    assert_eq!(progress.frames(), 2560);
    assert!(!progress.wrote(usize::MAX));
    assert!(progress.wrote(i64::MAX as usize));
    assert!(!progress.begin());
    assert_eq!(progress.frames(), 2560);
}
