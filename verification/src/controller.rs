//! The decisions of the playback loop, turn by turn.
//!
//! In each turn the loop reads reports from the audio device, hands them to
//! `observe`, plays the silence that `observe` asks for and, if the block is
//! not full of silence, asks `steer` where to set the reader of the file
//! and by what fraction of a frame to shift the block. The controller keeps
//! what carries over from turn to turn: the estimate of the length of a
//! sample, the line through the drift, and the drift that has been made up
//! for.

use crate::indicator::{Indicator, IndicatorError};
use crate::median::Median;
use crate::number::{Bounded, Exact};
use crate::regression::LinearRegression;
use crate::steering::PARTS;
use crate::timing::{ATTOS, SECOND};
use vstd::prelude::*;

verus! {

/// The nanoseconds in the unit of time of the line through the drift, a
/// microsecond.
pub const TICK: i128 = 1000;

/// What the loop is told when it starts.
#[derive(Clone, Copy, Debug, PartialEq, Eq, Structural)]
pub struct Settings {
    /// The time at which frame 0 of the file is to be played.
    pub start: i64,
    /// The number of frames of the file that are played in a second.
    pub rate: u32,
    /// The number of frames in a period of the device.
    pub period: u32,
    /// The number of frames on either side of a frame that the filter
    /// weighs.
    pub quality: u32,
    /// Whether the loop moves the reader and shifts the blocks.
    pub correcting: bool,
    /// Whether the loop estimates the length of a sample from the reports.
    pub estimating: bool,
}

/// Why a controller could not be made.
#[derive(Clone, Copy, Debug, PartialEq, Eq, Structural)]
pub enum ControlError {
    /// The file is played at no frames in a second.
    NoRate,
    /// One of the window sizes is one that its indicator cannot have.
    InvalidSize,
}

/// What `observe` makes of the reports of a turn.
#[derive(Clone, Copy, Debug, PartialEq, Eq, Structural)]
pub struct Outlook {
    /// The time at which the next frame handed to the device is expected
    /// to be played.
    pub expected: i64,
    /// The number of frames of silence to hand to the device first.
    pub silence: u32,
    /// The time at which the frame after the silence is expected to be
    /// played.
    pub next_time: i64,
}

/// What `steer` decides.
#[derive(Clone, Copy, Debug, PartialEq, Eq, Structural)]
pub struct Steering {
    /// The drift that was measured, in parts of a frame.
    pub drift: i128,
    /// The drift that the line through the measurements expects now, in
    /// parts of a frame.
    pub desync: i128,
    /// The number of whole frames by which the reader is moved.
    pub jump: i64,
    /// The frame at which the reader is set, where the loop is correcting.
    pub target: u32,
    /// The drift that is left for the filter, in parts of a frame.
    pub residual: i128,
}

/// The state of the playback loop that its decisions rest on.
pub struct Controller {
    settings: Settings,
    nominal: i128,
    length: i128,
    lengths: Median<i128>,
    desync: LinearRegression<i128>,
    correction: i128,
}

/// The length of a sample that the loop uses once the estimator holds
/// `lengths`: the nominal length where the loop does not estimate, else the
/// median of `lengths`, and the length used before where the median cannot
/// be computed.
pub open spec fn length_in_use(
    estimating: bool,
    nominal: int,
    lengths: Seq<int>,
    previous: int,
) -> int {
    if !estimating {
        nominal
    } else if lengths.len() > 0 && (lengths.len() % 2 == 0 ==> i128::MIN <= crate::stats::ranked(
        lengths,
        lengths.len() as int / 2 - 1,
    ) + crate::stats::ranked(lengths, lengths.len() as int / 2) <= i128::MAX) {
        crate::stats::median(lengths)
    } else {
        previous
    }
}

/// What `observe` answers when it has settled on the length `length` of a
/// sample.
pub open spec fn outlook(
    settings: Settings,
    stamps: Seq<i64>,
    delays: Seq<i64>,
    length: int,
) -> Option<Outlook> {
    let expected = crate::timing::expected(stamps, delays, length);
    let silence = crate::timing::silence(
        settings.start as int,
        expected,
        length,
        settings.period as int,
    );
    if crate::timing::expected_fits(stamps, delays, length) && crate::timing::after_frames_fits(
        expected,
        length,
        silence,
    ) {
        Some(
            Outlook {
                expected: expected as i64,
                silence: silence as u32,
                next_time: crate::timing::after_frames(expected, length, silence) as i64,
            },
        )
    } else {
        None
    }
}

/// The time since the start at `time`, in the unit of the line through the
/// drift, rounded toward zero.
pub open spec fn ticks(time: int, start: int) -> int {
    crate::number::quotient(time - start, TICK as int)
}

/// The drift at the time `time` with the reader at frame `position`, in
/// parts of a frame: the place in the file that is due, less the place that
/// is read.
pub open spec fn measured(settings: Settings, nominal: int, time: int, position: int) -> int {
    crate::steering::due(time, settings.start as int, nominal) - crate::steering::reading_at(
        position,
        settings.quality as int,
    ) * PARTS
}

impl Controller {
    /// What the loop was told when it started.
    pub closed spec fn settings(&self) -> Settings {
        self.settings
    }

    /// The length of a sample that the rate of the file gives, in
    /// attoseconds.
    pub closed spec fn nominal(&self) -> int {
        self.nominal as int
    }

    /// The length of a sample that the loop uses, in attoseconds.
    pub closed spec fn sample_length(&self) -> int {
        self.length as int
    }

    /// The estimator of the length of a sample.
    pub closed spec fn estimator(&self) -> Median<i128> {
        self.lengths
    }

    /// The line through the drift.
    pub closed spec fn regression(&self) -> LinearRegression<i128> {
        self.desync
    }

    /// The drift that has been made up for, in parts of a frame.
    pub closed spec fn correction(&self) -> int {
        self.correction as int
    }

    /// The invariant of the controller.
    pub closed spec fn wf(&self) -> bool {
        &&& self.lengths.wf()
        &&& self.desync.wf()
        &&& self.settings.rate > 0
        &&& self.nominal == (SECOND as int) / (self.settings.rate as int)
        &&& self.nominal > 0
    }

    /// The intercept and the slope of the line through the drift, or zero
    /// for both where the measurements determine no line or the line cannot
    /// be computed.
    pub open spec fn line(&self) -> (int, int) {
        let r = self.regression();
        if r.readable() && r.determined() {
            (r.intercept(), r.slope())
        } else {
            (0, 0)
        }
    }

    /// A controller at the start of the loop: the length of a sample is the
    /// nominal one, no drift has been measured and none made up for.
    pub fn new(settings: Settings, desync_size: usize, estimation_size: usize) -> (r: Result<
        Self,
        ControlError,
    >)
        ensures
            r is Ok <==> settings.rate > 0 && desync_size >= 1 && 1 <= estimation_size
                < usize::MAX,
            r is Err ==> r == Err::<Self, ControlError>(
                if settings.rate == 0 {
                    ControlError::NoRate
                } else {
                    ControlError::InvalidSize
                },
            ),
            r is Ok ==> {
                let c = r.unwrap();
                &&& c.wf()
                &&& c.settings() == settings
                &&& c.nominal() == (SECOND as int) / (settings.rate as int)
                &&& c.sample_length() == c.nominal()
                &&& c.correction() == 0
                &&& c.estimator().capacity() == estimation_size
                &&& c.estimator().window() == Seq::<i128>::empty()
                &&& c.regression().capacity() == desync_size
                &&& c.regression().window() == Seq::<(i128, i128)>::empty()
            },
    {
        let nominal = match crate::timing::nominal_length(settings.rate) {
            Some(nominal) => nominal,
            None => { return Err(ControlError::NoRate); },
        };
        proof {
            vstd::arithmetic::div_mod::lemma_div_non_zero(SECOND as int, settings.rate as int);
        }
        let desync = match LinearRegression::new(desync_size) {
            Ok(desync) => desync,
            Err(_) => { return Err(ControlError::InvalidSize); },
        };
        let lengths = match Median::new(estimation_size) {
            Ok(lengths) => lengths,
            Err(_) => { return Err(ControlError::InvalidSize); },
        };
        Ok(Controller { settings, nominal, length: nominal, lengths, desync, correction: 0 })
    }

    /// The length of a sample that the loop uses, in attoseconds.
    pub fn length(&self) -> (r: i128)
        ensures
            r == self.sample_length(),
    {
        self.length
    }

    /// The length of a sample that the rate of the file gives, in
    /// attoseconds.
    pub fn nominal_length(&self) -> (r: i128)
        ensures
            r == self.nominal(),
    {
        self.nominal
    }

    /// The drift that has been made up for, in parts of a frame.
    pub fn made_up(&self) -> (r: i128)
        ensures
            r == self.correction(),
    {
        self.correction
    }

    /// Takes the reports of a turn of the loop. The length of a sample that
    /// they show goes to the estimator, and the loop goes on with the
    /// length that `length_in_use` gives. With it the controller says when
    /// the next frame is expected to be played and how many frames of
    /// silence go before the file; it says nothing where a time does not
    /// fit the machine.
    pub fn observe(&mut self, stamps: &Vec<i64>, delays: &Vec<i64>, running: bool) -> (r: Option<
        Outlook,
    >)
        requires
            old(self).wf(),
            stamps.len() == delays.len(),
            stamps.len() >= 1,
        ensures
            final(self).wf(),
            final(self).settings() == old(self).settings(),
            final(self).nominal() == old(self).nominal(),
            final(self).regression() == old(self).regression(),
            final(self).correction() == old(self).correction(),
            final(self).estimator().capacity() == old(self).estimator().capacity(),
            final(self).estimator().window() == crate::window::slide(
                old(self).estimator().window(),
                old(self).estimator().capacity(),
                crate::timing::observed(
                    old(self).settings().estimating,
                    running,
                    stamps@,
                    delays@,
                    old(self).sample_length(),
                ) as i128,
            ),
            final(self).sample_length() == length_in_use(
                old(self).settings().estimating,
                old(self).nominal(),
                crate::stats::vals(final(self).estimator().window()),
                old(self).sample_length(),
            ),
            r == outlook(old(self).settings(), stamps@, delays@, final(self).sample_length()),
    {
        let observed = crate::timing::observed_length(
            self.settings.estimating,
            running,
            stamps,
            delays,
            self.length,
        );
        self.lengths.next(observed);
        if !self.settings.estimating {
            self.length = self.nominal;
        } else if self.lengths.reads() {
            proof {
                assert(crate::stats::vals(self.lengths.window()).len()
                    == self.lengths.window().len());
            }
            match self.lengths.value() {
                Some(length) => {
                    self.length = length;
                },
                None => {},
            }
        } else {
            proof {
                assert(crate::stats::vals(self.lengths.window()).len()
                    == self.lengths.window().len());
            }
        }
        let expected = match crate::timing::next_frame_time(stamps, delays, self.length) {
            Some(expected) => expected,
            None => { return None; },
        };
        let silence = crate::timing::preroll(
            self.settings.start,
            expected,
            self.length,
            self.settings.period,
        );
        match crate::timing::later(expected, self.length, silence) {
            Some(next_time) => Some(Outlook { expected, silence, next_time }),
            None => None,
        }
    }

    /// The point that `steer` hands to the line through the drift: the time
    /// since the start, and the drift that would have been measured had
    /// none been made up for.
    pub open spec fn point(&self, next_time: int, position: int) -> (int, int) {
        (
            ticks(next_time, self.settings().start as int),
            self.correction() + measured(self.settings(), self.nominal(), next_time, position),
        )
    }

    /// Whether the line through the drift takes the point of `steer`: the
    /// point must fit the machine, and so must every step of the line on
    /// the way to its new state.
    pub open spec fn takes(&self, next_time: int, position: int) -> bool {
        let p = self.point(next_time, position);
        &&& i128::MIN <= p.1 <= i128::MAX
        &&& self.regression().accepts((p.0 as i128, p.1 as i128))
    }

    /// What `steer` answers once the line through the drift is `line`.
    pub open spec fn steering(
        &self,
        line: (int, int),
        next_time: int,
        position: int,
        frames: int,
    ) -> Option<Steering> {
        let settings = self.settings();
        let at = ticks(next_time, settings.start as int);
        let drift = measured(settings, self.nominal(), next_time, position);
        let desync = line.0 + line.1 * at;
        let jump = crate::steering::whole_jump(desync, self.correction());
        let next_read = crate::steering::reading_at(position, settings.quality as int);
        let target = crate::steering::target(next_read, jump, settings.quality as int, frames);
        let correction = if settings.correcting {
            crate::steering::made_up(
                self.correction(),
                target,
                next_read,
                settings.quality as int,
            )
        } else {
            self.correction()
        };
        if (i128::MIN <= self.correction() + drift <= i128::MAX) && (i128::MIN <= line.1 * at
            <= i128::MAX) && (i128::MIN <= desync <= i128::MAX) && (i128::MIN <= correction
            <= i128::MAX) && (i128::MIN <= desync - correction <= i128::MAX) {
            Some(
                Steering {
                    drift: drift as i128,
                    desync: desync as i128,
                    jump: jump as i64,
                    target: target as u32,
                    residual: (desync - correction) as i128,
                },
            )
        } else {
            None
        }
    }

    /// Steers the reader of the file. The drift at `next_time`, with the
    /// reader at frame `position` of a file of `frames` frames, goes to the
    /// line through the drift, if the line takes it. What the line expects
    /// the drift to be now, less what has been made up for, is the gap to
    /// close: the reader is moved by its whole frames, as far as `jump` and
    /// `seek_target` allow, and its rest is left for the filter. Where the
    /// loop is correcting, what is made up for is brought up to date. The
    /// controller says nothing, and what is made up for stays, where a
    /// number on the way does not fit the machine.
    pub fn steer(&mut self, next_time: i64, position: u32, frames: u32) -> (r: Option<Steering>)
        requires
            old(self).wf(),
        ensures
            final(self).wf(),
            final(self).settings() == old(self).settings(),
            final(self).nominal() == old(self).nominal(),
            final(self).sample_length() == old(self).sample_length(),
            final(self).estimator() == old(self).estimator(),
            final(self).regression().capacity() == old(self).regression().capacity(),
            !old(self).takes(next_time as int, position as int) ==> final(self).regression()
                == old(self).regression(),
            old(self).takes(next_time as int, position as int) ==> {
                let p = old(self).point(next_time as int, position as int);
                let before = old(self).regression();
                let after = final(self).regression();
                after.window() == crate::window::slide(
                    before.window(),
                    before.capacity(),
                    (p.0 as i128, p.1 as i128),
                )
            },
            r == old(self).steering(
                final(self).line(),
                next_time as int,
                position as int,
                frames as int,
            ),
            final(self).correction() == if r is Some && old(self).settings().correcting {
                crate::steering::made_up(
                    old(self).correction(),
                    r.unwrap().target as int,
                    crate::steering::reading_at(
                        position as int,
                        old(self).settings().quality as int,
                    ),
                    old(self).settings().quality as int,
                )
            } else {
                old(self).correction()
            },
    {
        let due = crate::steering::place_due(next_time, self.settings.start, self.nominal).unwrap();
        let next_read = crate::steering::read_position(position, self.settings.quality);
        proof {
            lemma_due_is_near(
                next_time as int - self.settings.start as int,
                self.nominal as int,
            );
            assert(0 <= next_read * PARTS <= 0x1_0000_0000 * PARTS) by (nonlinear_arith)
                requires
                    0 <= next_read <= 0x1_0000_0000,
                    PARTS == 1_000_000_000,
            ;
        }
        let drift = crate::steering::drift(due, next_read).unwrap();
        let at = crate::integers::divide(next_time as i128 - self.settings.start as i128, TICK);
        let total = match self.correction.checked_add(drift) {
            Some(total) => total,
            None => { return None; },
        };
        if self.desync.admits((at, total)) {
            self.desync.next((at, total));
        }
        let (intercept, slope) = if self.desync.reads() {
            match self.desync.value() {
                Some(line) => line,
                None => (0, 0),
            }
        } else {
            (0, 0)
        };
        let desync = match crate::steering::along(intercept, slope, at) {
            Some(desync) => desync,
            None => { return None; },
        };
        let jump = crate::steering::jump(desync, self.correction);
        let target = crate::steering::seek_target(next_read, jump, self.settings.quality, frames);
        let correction = if self.settings.correcting {
            match crate::steering::corrected(
                self.correction,
                target,
                next_read,
                self.settings.quality,
            ) {
                Some(correction) => correction,
                None => { return None; },
            }
        } else {
            self.correction
        };
        match desync.checked_sub(correction) {
            Some(residual) => {
                self.correction = correction;
                Some(Steering { drift, desync, jump, target, residual })
            },
            None => None,
        }
    }
}

/// The place that is due, in parts of a frame, is no farther from zero
/// than the time since the start in attoseconds times `PARTS`.
proof fn lemma_due_is_near(span: int, nominal: int)
    requires
        nominal > 0,
        -0x1_0000_0000_0000_0000 <= span <= 0x1_0000_0000_0000_0000,
    ensures
        -0x1_0000_0000_0000_0000 * 1_000_000_000_000_000_000 <= crate::number::quotient(
            span * ATTOS * PARTS,
            nominal,
        ) <= 0x1_0000_0000_0000_0000 * 1_000_000_000_000_000_000,
{
    crate::number::lemma_quotient_bounds(span * ATTOS * PARTS, nominal);
    assert(-0x1_0000_0000_0000_0000 * 1_000_000_000_000_000_000 <= span * ATTOS * PARTS
        <= 0x1_0000_0000_0000_0000 * 1_000_000_000_000_000_000) by (nonlinear_arith)
        requires
            -0x1_0000_0000_0000_0000 <= span <= 0x1_0000_0000_0000_0000,
            ATTOS == 1_000_000_000,
            PARTS == 1_000_000_000,
    ;
}

} // verus!
