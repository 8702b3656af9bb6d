use piwfs::controller::{ControlError, Controller, Outlook, Settings};
use piwfs::steering::{Progress, PARTS};
use piwfs::timing::{Forecasts, SECOND};

const RATE: u32 = 48000;
const PERIOD: u32 = 1024;
const THRESHOLD: i64 = 2048;
const QUALITY: u32 = 2;
const FRAMES: u32 = 40_000_000;

/// A device that plays one frame every `length` attoseconds, and a file
/// that is read by the block.
struct World {
    /// The length of a frame of the device, in attoseconds.
    length: i128,
    /// The time, in attoseconds.
    now: i128,
    /// The time at which the device played, or will play, the first frame
    /// that it has not played yet.
    due: i128,
    /// The frames in the queue of the device.
    queued: i64,
    /// The frame at which the reader of the file stands.
    position: u32,
}

impl World {
    fn new(length: i128, now: i128) -> World {
        World { length, now, due: now, queued: 0, position: 0 }
    }

    /// Lets time go by.
    fn wait(&mut self, span: i128) {
        self.now += span;
        while self.queued > 0 && self.due <= self.now {
            self.queued -= 1;
            self.due += self.length;
        }
        if self.queued == 0 && self.due < self.now {
            self.due = self.now;
        }
    }

    fn stamp(&self) -> i64 {
        (self.now / 1_000_000_000) as i64
    }

    /// Waits until the queue is below the threshold, and reports on the way.
    fn reports(&mut self) -> (Vec<i64>, Vec<i64>) {
        let mut stamps = Vec::new();
        let mut delays = Vec::new();
        loop {
            stamps.push(self.stamp());
            delays.push(self.queued);
            if self.queued < THRESHOLD {
                return (stamps, delays);
            }
            // A fifth of a period between reports.
            self.wait(self.length * (PERIOD as i128) / 5);
        }
    }

    /// Hands a block of `frames` frames to the device.
    fn write(&mut self, frames: u32) {
        if self.queued == 0 {
            self.due = self.now;
        }
        self.queued += frames as i64;
    }
}

fn settings(start: i64, correcting: bool) -> Settings {
    Settings {
        start,
        rate: RATE,
        period: PERIOD,
        quality: QUALITY,
        correcting,
        estimating: true,
    }
}

#[test]
fn controllers_that_cannot_be_made() {
    let good = settings(0, true);
    assert!(Controller::new(good, 1000, 1000).is_ok());
    assert_eq!(
        Controller::new(Settings { rate: 0, ..good }, 1000, 1000).err(),
        Some(ControlError::NoRate)
    );
    assert_eq!(Controller::new(good, 0, 1000).err(), Some(ControlError::InvalidSize));
    assert_eq!(Controller::new(good, 1000, 0).err(), Some(ControlError::InvalidSize));
    assert_eq!(Controller::new(good, 1000, usize::MAX).err(), Some(ControlError::InvalidSize));
    assert_eq!(
        Controller::new(Settings { rate: 0, ..good }, 0, 0).err(),
        Some(ControlError::NoRate)
    );
}

#[test]
fn a_start_in_the_past_takes_no_silence() {
    let mut controller = Controller::new(settings(0, false), 1000, 1000).unwrap();
    let nominal = SECOND / RATE as i128;
    assert_eq!(controller.nominal_length(), nominal);
    assert_eq!(controller.length(), nominal);
    // One report: a queue just below the threshold.
    let outlook = controller.observe(&vec![5_000_000_000], &vec![THRESHOLD - 1], true);
    let queued = (THRESHOLD as i128 - 1) * nominal / 1_000_000_000;
    assert_eq!(
        outlook,
        Some(Outlook {
            expected: 5_000_000_000 + queued as i64,
            silence: 0,
            next_time: 5_000_000_000 + queued as i64,
        })
    );
    assert_eq!(controller.length(), nominal);
    assert_eq!(controller.made_up(), 0);
}

#[test]
fn a_start_ahead_takes_silence_up_to_a_period() {
    let nominal = SECOND / RATE as i128;
    let now = 5_000_000_000;
    // The start is 100 frames after the next frame.
    let start = now + (100 * nominal / 1_000_000_000) as i64;
    let mut controller = Controller::new(settings(start, true), 1000, 1000).unwrap();
    let outlook = controller.observe(&vec![now], &vec![0], true).unwrap();
    assert_eq!(outlook.expected, now);
    assert_eq!(outlook.silence, 100);
    assert_eq!(outlook.next_time, now + (100 * nominal / 1_000_000_000) as i64);
    // The start is far ahead.
    let mut controller = Controller::new(settings(now + 1_000_000_000, true), 1000, 1000).unwrap();
    let outlook = controller.observe(&vec![now], &vec![0], true).unwrap();
    assert_eq!(outlook.silence, PERIOD);
    assert_eq!(outlook.next_time, now + (PERIOD as i128 * nominal / 1_000_000_000) as i64);
    // Times that do not fit the machine.
    assert_eq!(controller.observe(&vec![i64::MAX], &vec![THRESHOLD], true), None);
}

#[test]
fn the_estimate_follows_the_reports() {
    let nominal = SECOND / RATE as i128;
    let mut controller = Controller::new(settings(0, true), 1000, 3).unwrap();
    // 48 frames in a millisecond and a thousandth of it: a frame lasts a
    // thousandth longer than the nominal one.
    let stamps = vec![0, 1_001_000];
    let delays = vec![3000, 2952];
    controller.observe(&stamps, &delays, true).unwrap();
    let shown = 1_001_000 * 1_000_000_000 / 48;
    assert_eq!(controller.length(), shown);
    // A device that is not playing shows nothing: the length in use goes
    // to the estimator once more, and stays.
    controller.observe(&stamps, &delays, false).unwrap();
    assert_eq!(controller.length(), shown);
    // The median of shown, shown and the nominal length.
    controller.observe(&vec![0, 1_000_000], &vec![3000, 2952], true).unwrap();
    assert_eq!(controller.length(), shown);
    controller.observe(&vec![0, 1_000_000], &vec![3000, 2952], true).unwrap();
    assert_eq!(controller.length(), nominal);
    // A loop that does not estimate goes by the nominal length.
    let mut fixed =
        Controller::new(Settings { estimating: false, ..settings(0, true) }, 1000, 3).unwrap();
    fixed.observe(&stamps, &delays, true).unwrap();
    assert_eq!(fixed.length(), nominal);
}

#[test]
fn steering_without_correction_leaves_the_reader() {
    let nominal = SECOND / RATE as i128;
    let mut controller = Controller::new(settings(0, false), 1000, 1000).unwrap();
    // A second after the start the reader stands at frame 47003: with the
    // three frames that the filter holds, the frame read next is 47000,
    // and a thousand frames are missing.
    let second = 1_000_000_000;
    let steering = controller.steer(second, 47_003, FRAMES).unwrap();
    let due = second as i128 * 1_000_000_000 * PARTS / nominal;
    assert_eq!(steering.drift, due - 47_000 * PARTS);
    // One point determines no line.
    assert_eq!(steering.desync, 0);
    assert_eq!(steering.jump, 0);
    assert_eq!(steering.target, 46_998);
    assert_eq!(steering.residual, 0);
    assert_eq!(controller.made_up(), 0);
    // A second point, a second later and a thousand frames on: the drift is
    // the same, the line is level, and the reader would jump as far as it
    // may.
    let steering = controller.steer(2 * second, 95_003, FRAMES).unwrap();
    let later = 2 * second as i128 * 1_000_000_000 * PARTS / nominal;
    assert_eq!(steering.drift, later - 95_000 * PARTS);
    assert_eq!(steering.desync, (due - 47_000 * PARTS + later - 95_000 * PARTS) / 2);
    assert_eq!(steering.jump, 100);
    assert_eq!(steering.target, 95_098);
    assert_eq!(steering.residual, steering.desync);
    assert_eq!(controller.made_up(), 0);
}

#[test]
fn a_slow_device_is_made_up_for() {
    let nominal = SECOND / RATE as i128;
    // The device takes a thousandth longer for a frame than the file says.
    let mut world = World::new(nominal + nominal / 1000, 1_000_000 * SECOND);
    let start = world.stamp();
    let mut controller = Controller::new(settings(start, true), 1000, 1000).unwrap();
    let mut forecasts = Forecasts::new();
    let mut pushed: i64 = 0;
    let mut corrections = Vec::new();
    for turn in 0..6000 {
        let (stamps, delays) = world.reports();
        for (stamp, delay) in stamps.iter().zip(delays.iter()) {
            forecasts.settle((pushed - delay) as i128, *stamp);
        }
        let outlook = controller.observe(&stamps, &delays, world.queued > 0).unwrap();
        forecasts.record(pushed, outlook.expected);
        assert_eq!(outlook.silence, 0);
        let steering = controller.steer(outlook.next_time, world.position, FRAMES).unwrap();
        world.position = steering.target + PERIOD + 2 * QUALITY + 1;
        world.write(PERIOD);
        pushed += PERIOD as i64;
        corrections.push(controller.made_up());
        if turn >= 3000 {
            // What is left for the filter is less than a frame.
            assert!(
                steering.residual.abs() < PARTS,
                "turn {}: residual {}",
                turn,
                steering.residual
            );
        }
    }
    // Over the last 2000 turns, 2048000 frames, the reader has skipped a
    // frame in a thousand, give or take a hundredth of that.
    let skipped = (corrections[5999] - corrections[3999]) / PARTS;
    assert!((2028..=2068).contains(&skipped), "skipped {}", skipped);
    // After the longest time that the estimator looks back on, the length
    // of a frame is known to a part in a hundred thousand.
    let error = (controller.length() - world.length).abs();
    assert!(error * 100_000 < world.length, "length {}", controller.length());
}

#[test]
fn an_underrun_is_recovered_from() {
    let nominal = SECOND / RATE as i128;
    let mut world = World::new(nominal, 1_000_000 * SECOND);
    let start = world.stamp();
    let mut controller = Controller::new(settings(start, true), 1000, 1000).unwrap();
    let mut progress = Progress::new();
    let mut drifts = Vec::new();
    let mut targets = Vec::new();
    let mut corrections = Vec::new();
    for turn in 0..3000 {
        assert!(progress.begin());
        if turn == 1000 {
            // The loop stalls for a tenth of a second, the queue runs
            // empty, and the write that follows fails.
            world.wait(SECOND / 10);
            assert_eq!(world.queued, 0);
            progress.underrun();
            assert!(progress.begin());
            assert_eq!(progress.frames(), 1000 * PERIOD as i64);
        }
        let (stamps, delays) = world.reports();
        let outlook = controller.observe(&stamps, &delays, world.queued > 0).unwrap();
        let steering = controller.steer(outlook.next_time, world.position, FRAMES).unwrap();
        world.position = steering.target + PERIOD + 2 * QUALITY + 1;
        world.write(PERIOD);
        assert!(progress.wrote(PERIOD as usize));
        drifts.push(steering.drift);
        targets.push(steering.target);
        corrections.push(controller.made_up());
    }
    // Before the stall the reader goes through the file a period at a time,
    // and the frame that is read is the one that is due.
    assert_eq!(targets[999] - targets[998], PERIOD);
    assert!(drifts[999].abs() < PARTS, "drift {}", drifts[999]);
    // The stall opens a gap of more than a thousand frames: a tenth of a
    // second, less the frames that fill the queue again.
    let gap = drifts[1002];
    assert!(gap > 1000 * PARTS && gap < 4800 * PARTS, "gap {}", gap);
    // The reader closes it by a hundred frames at a time at most, and then
    // goes on as before.
    assert!(targets[1003] - targets[1002] <= PERIOD + 100);
    assert_eq!(targets[2999] - targets[2998], PERIOD);
    assert!(drifts[2999].abs() < PARTS, "drift {}", drifts[2999]);
    let closed = corrections[2999] - corrections[999];
    assert!((closed - gap).abs() < 102 * PARTS, "closed {} of {}", closed, gap);
    assert_eq!(progress.frames(), 2999 * PERIOD as i64);
}
