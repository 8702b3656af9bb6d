//! The file side of the playback loop: where in the file the device is,
//! where it ought to be, and how far the reader is moved to close the gap.
//!
//! Places in the file are whole frames. Drift, the gap between the frame
//! that is due and the frame that is read, is counted in parts of a frame,
//! `PARTS` to the frame, so that the fraction that is left after the reader
//! has moved by whole frames can be handed to the filter.

use vstd::prelude::*;

verus! {

/// The parts of a frame in which drift is counted.
pub const PARTS: i128 = 1_000_000_000;

/// The greatest number of frames by which the reader is moved in one turn
/// of the loop.
pub const MAX_JUMP: i64 = 100;

/// The number of taps of the filter of quality `quality`: the frame itself
/// and `quality` frames on either side. `None` where it does not fit the
/// machine.
pub fn taps_for(quality: usize) -> (r: Option<usize>)
    ensures
        r is Some <==> 2 * quality + 1 <= usize::MAX,
        r is Some ==> r.unwrap() == 2 * quality + 1,
{
    match quality.checked_mul(2) {
        Some(twice) => twice.checked_add(1),
        None => None,
    }
}

/// The number of samples in a block of `frames` frames. `None` where it
/// does not fit the machine.
pub fn samples_in(frames: usize, channels: usize) -> (r: Option<usize>)
    ensures
        r is Some <==> frames * channels <= usize::MAX,
        r is Some ==> r.unwrap() == frames * channels,
{
    frames.checked_mul(channels)
}

/// The number of queued frames below which the loop fills the queue: twice
/// the samples of a period. `None` where that is not a number of 32 bits.
pub fn fill_threshold(period: u32, channels: u32) -> (r: Option<i32>)
    ensures
        r is Some <==> 2 * period * channels <= i32::MAX,
        r is Some ==> r.unwrap() == 2 * period * channels,
{
    assert(2 * period * channels <= 2 * 0xffff_ffff * 0xffff_ffff) by (nonlinear_arith)
        requires
            period <= 0xffff_ffff,
            channels <= 0xffff_ffff,
    ;
    assert(2 * period <= 2 * 0xffff_ffff);
    let wide: u128 = 2 * (period as u128) * (channels as u128);
    if wide <= i32::MAX as u128 {
        Some(wide as i32)
    } else {
        None
    }
}

/// The frame at which the reader stands: the samples of the file less
/// those that are left to read, in frames. `None` where the file has no
/// channels, or more is left than there is.
pub fn frames_read(samples: u32, remaining: u32, channels: u16) -> (r: Option<u32>)
    ensures
        r is Some <==> channels > 0 && remaining <= samples,
        r is Some ==> r.unwrap() == (samples - remaining) / (channels as int),
{
    if channels == 0 || remaining > samples {
        None
    } else {
        Some((samples - remaining) / channels as u32)
    }
}

/// The number of frames in a file of `samples` samples. `None` where the
/// file has no channels.
pub fn frames_in(samples: u32, channels: u16) -> (r: Option<u32>)
    ensures
        r is Some <==> channels > 0,
        r is Some ==> r.unwrap() == samples / (channels as u32),
{
    if channels == 0 {
        None
    } else {
        Some(samples / channels as u32)
    }
}

/// The frame of the file that the frame read next stands for, when the
/// reader stands at `frame`: the filter looks `quality` frames ahead, and
/// one more is on its way.
pub open spec fn reading_at(frame: int, quality: int) -> int {
    if frame >= quality + 1 {
        frame - (quality + 1)
    } else {
        0
    }
}

/// The frame of the file that the frame read next stands for.
pub fn read_position(frame: u32, quality: u32) -> (r: u32)
    ensures
        r == reading_at(frame as int, quality as int),
{
    frame.saturating_sub(quality.saturating_add(1))
}

/// The place in the file, in parts of a frame, that is due at the time
/// `next`, when frame 0 is due at `start` and a frame lasts `nominal`
/// attoseconds: the time since `start` divided by `nominal`, rounded toward
/// zero.
pub open spec fn due(next: int, start: int, nominal: int) -> int {
    crate::number::quotient((next - start) * crate::timing::ATTOS * PARTS, nominal)
}

/// The place in the file that is due at the time `next`. `None` where
/// `nominal` is not positive.
pub fn place_due(next: i64, start: i64, nominal: i128) -> (r: Option<i128>)
    ensures
        r is Some <==> nominal > 0,
        r is Some ==> r.unwrap() == due(next as int, start as int, nominal as int),
{
    if nominal <= 0 {
        return None;
    }
    let span = next as i128 - start as i128;
    assert(-0x1_0000_0000_0000_0000 * 1_000_000_000_000_000_000 <= span * crate::timing::ATTOS
        * PARTS <= 0x1_0000_0000_0000_0000 * 1_000_000_000_000_000_000) by (nonlinear_arith)
        requires
            -0x1_0000_0000_0000_0000 <= span <= 0x1_0000_0000_0000_0000,
            crate::timing::ATTOS == 1_000_000_000,
            PARTS == 1_000_000_000,
    ;
    assert(-0x1_0000_0000_0000_0000 * 1_000_000_000 <= span * crate::timing::ATTOS
        <= 0x1_0000_0000_0000_0000 * 1_000_000_000) by (nonlinear_arith)
        requires
            -0x1_0000_0000_0000_0000 <= span <= 0x1_0000_0000_0000_0000,
            crate::timing::ATTOS == 1_000_000_000,
    ;
    Some(crate::integers::divide(span * crate::timing::ATTOS * PARTS, nominal))
}

/// The drift, in parts of a frame: the place that is due less the place
/// that is read. `None` where it does not fit the machine.
pub fn drift(due: i128, next_read: u32) -> (r: Option<i128>)
    ensures
        r is Some <==> i128::MIN <= due - next_read * PARTS <= i128::MAX,
        r is Some ==> r.unwrap() == due - next_read * PARTS,
{
    assert(0 <= next_read * PARTS <= 0x1_0000_0000 * PARTS) by (nonlinear_arith)
        requires
            0 <= next_read <= 0x1_0000_0000,
            PARTS == 1_000_000_000,
    ;
    due.checked_sub(next_read as i128 * PARTS)
}

/// The value at `at` of the line with the given intercept and slope. `None`
/// where it does not fit the machine.
pub fn along(intercept: i128, slope: i128, at: i128) -> (r: Option<i128>)
    ensures
        r is Some <==> i128::MIN <= slope * at <= i128::MAX && i128::MIN <= intercept + slope
            * at <= i128::MAX,
        r is Some ==> r.unwrap() == intercept + slope * at,
{
    match slope.checked_mul(at) {
        Some(rise) => intercept.checked_add(rise),
        None => None,
    }
}

/// The number of whole frames by which the reader is moved when the drift
/// is expected to be `desync` parts and `correction` parts of it have been
/// made up for: the whole frames in what is left, rounded down, and at most
/// `MAX_JUMP` either way.
pub open spec fn whole_jump(desync: int, correction: int) -> int {
    let whole = (desync - correction) / (PARTS as int);
    if whole > MAX_JUMP {
        MAX_JUMP as int
    } else if whole < -MAX_JUMP {
        -MAX_JUMP
    } else {
        whole
    }
}

/// The number of whole frames by which the reader is moved.
pub fn jump(desync: i128, correction: i128) -> (r: i64)
    ensures
        r == whole_jump(desync as int, correction as int),
        -MAX_JUMP <= r <= MAX_JUMP,
{
    let limit = MAX_JUMP as i128 * PARTS;
    match desync.checked_sub(correction) {
        Some(left) => {
            proof {
                vstd::arithmetic::div_mod::lemma_fundamental_div_mod(left as int, PARTS as int);
                vstd::arithmetic::div_mod::lemma_mod_bound(left as int, PARTS as int);
            }
            if left >= limit + PARTS {
                assert(left / PARTS > MAX_JUMP) by (nonlinear_arith)
                    requires
                        left >= MAX_JUMP * PARTS + PARTS,
                        left == PARTS * (left / PARTS) + left % PARTS,
                        0 <= left % PARTS < PARTS,
                        PARTS > 0,
                ;
                MAX_JUMP
            } else if left < -limit {
                assert(left / PARTS < -MAX_JUMP) by (nonlinear_arith)
                    requires
                        left < -(MAX_JUMP * PARTS),
                        left == PARTS * (left / PARTS) + left % PARTS,
                        0 <= left % PARTS < PARTS,
                        PARTS > 0,
                ;
                -MAX_JUMP
            } else {
                let toward_zero = crate::integers::divide(left, PARTS);
                let down = if left < 0 && toward_zero * PARTS != left {
                    toward_zero - 1
                } else {
                    toward_zero
                };
                proof {
                    lemma_floor(left as int, PARTS as int);
                    assert(-MAX_JUMP <= left / PARTS <= MAX_JUMP) by (nonlinear_arith)
                        requires
                            -(MAX_JUMP * PARTS) <= left < MAX_JUMP * PARTS + PARTS,
                            left == PARTS * (left / PARTS) + left % PARTS,
                            0 <= left % PARTS < PARTS,
                            PARTS > 0,
                    ;
                }
                down as i64
            }
        },
        None => {
            proof {
                vstd::arithmetic::div_mod::lemma_fundamental_div_mod(
                    desync - correction,
                    PARTS as int,
                );
                vstd::arithmetic::div_mod::lemma_mod_bound(desync - correction, PARTS as int);
                let left = desync - correction;
                if desync > correction {
                    assert(left / (PARTS as int) > MAX_JUMP) by (nonlinear_arith)
                        requires
                            left > 0x7fff_ffff_ffff_ffff_ffff_ffff_ffff_ffff,
                            left == PARTS * (left / (PARTS as int)) + left % (PARTS as int),
                            0 <= left % (PARTS as int) < PARTS,
                            PARTS == 1_000_000_000,
                            MAX_JUMP == 100,
                    ;
                } else {
                    assert(left / (PARTS as int) < -MAX_JUMP) by (nonlinear_arith)
                        requires
                            left < -0x8000_0000_0000_0000_0000_0000_0000_0000,
                            left == PARTS * (left / (PARTS as int)) + left % (PARTS as int),
                            0 <= left % (PARTS as int) < PARTS,
                            PARTS == 1_000_000_000,
                            MAX_JUMP == 100,
                    ;
                }
            }
            if desync > correction {
                MAX_JUMP
            } else {
                -MAX_JUMP
            }
        },
    }
}

/// Rounding down and rounding toward zero differ by one where the number
/// divided is negative and the division leaves a remainder.
pub proof fn lemma_floor(x: int, d: int)
    requires
        d > 0,
    ensures
        x / d == if x < 0 && crate::number::quotient(x, d) * d != x {
            crate::number::quotient(x, d) - 1
        } else {
            crate::number::quotient(x, d)
        },
{
    if x < 0 {
        let q = (-x) / d;
        let r = (-x) % d;
        vstd::arithmetic::div_mod::lemma_fundamental_div_mod(-x, d);
        vstd::arithmetic::div_mod::lemma_mod_bound(-x, d);
        if r == 0 {
            assert(x == (-q) * d + 0) by (nonlinear_arith)
                requires
                    -x == d * q + r,
                    r == 0,
            ;
            vstd::arithmetic::div_mod::lemma_fundamental_div_mod_converse(x, d, -q, 0);
            assert((-q) * d == x) by (nonlinear_arith)
                requires
                    x == (-q) * d + 0,
            ;
        } else {
            assert(x == (-q - 1) * d + (d - r)) by (nonlinear_arith)
                requires
                    -x == d * q + r,
            ;
            vstd::arithmetic::div_mod::lemma_fundamental_div_mod_converse(x, d, -q - 1, d - r);
            assert((-q) * d != x) by (nonlinear_arith)
                requires
                    -x == d * q + r,
                    r != 0,
            ;
        }
    }
}

/// The frame at which the reader is set: `jump` frames from `next_read`,
/// then back by the `quality` frames that the filter looks behind, and no
/// further than either end of the file.
pub open spec fn target(next_read: int, jump: int, quality: int, frames: int) -> int {
    let moved = if next_read + jump < 0 {
        0
    } else if next_read + jump > u32::MAX {
        u32::MAX as int
    } else {
        next_read + jump
    };
    let back = if moved >= quality {
        moved - quality
    } else {
        0
    };
    if back > frames {
        frames
    } else {
        back
    }
}

/// The frame at which the reader is set.
pub fn seek_target(next_read: u32, jump: i64, quality: u32, frames: u32) -> (r: u32)
    ensures
        r == target(next_read as int, jump as int, quality as int, frames as int),
        r <= frames,
{
    let moved = next_read as i128 + jump as i128;
    let moved: u32 = if moved < 0 {
        0
    } else if moved > u32::MAX as i128 {
        u32::MAX
    } else {
        moved as u32
    };
    let back = moved.saturating_sub(quality);
    if back > frames {
        frames
    } else {
        back
    }
}

/// The drift that has been made up for once the reader is set at `target`,
/// in parts of a frame: what had been made up for before, and the frames
/// between `target` and where the reader would have stood after the
/// `quality` frames that the filter looks behind.
pub open spec fn made_up(correction: int, target: int, next_read: int, quality: int) -> int {
    let stay = if next_read >= quality {
        next_read - quality
    } else {
        0
    };
    correction + (target - stay) * PARTS
}

/// The drift that has been made up for once the reader is set at `target`.
/// `None` where it does not fit the machine.
pub fn corrected(correction: i128, target: u32, next_read: u32, quality: u32) -> (r: Option<
    i128,
>)
    ensures
        r is Some <==> i128::MIN <= made_up(
            correction as int,
            target as int,
            next_read as int,
            quality as int,
        ) <= i128::MAX,
        r is Some ==> r.unwrap() == made_up(
            correction as int,
            target as int,
            next_read as int,
            quality as int,
        ),
{
    let stay = next_read.saturating_sub(quality);
    let moved = target as i128 - stay as i128;
    assert(-0x1_0000_0000 * PARTS <= moved * PARTS <= 0x1_0000_0000 * PARTS)
        by (nonlinear_arith)
        requires
            -0x1_0000_0000 <= moved <= 0x1_0000_0000,
            PARTS == 1_000_000_000,
    ;
    correction.checked_add(moved * PARTS)
}

/// The count of the frames that the loop has handed to the device.
pub struct Progress {
    pushed: i64,
    last: i64,
}

impl Progress {
    /// The number of frames handed to the device before this turn of the
    /// loop.
    pub closed spec fn pushed(&self) -> int {
        self.pushed as int
    }

    /// The number of frames that the last write handed to the device, and
    /// that the next turn of the loop will count.
    pub closed spec fn last(&self) -> int {
        self.last as int
    }

    /// The invariant of the count.
    pub closed spec fn wf(&self) -> bool {
        self.pushed >= 0 && self.last >= 0
    }

    /// Nothing handed to the device yet.
    pub fn new() -> (r: Self)
        ensures
            r.wf(),
            r.pushed() == 0,
            r.last() == 0,
    {
        Progress { pushed: 0, last: 0 }
    }

    /// Opens a turn of the loop: the frames of the last write are counted.
    /// Says whether the count still fits the machine; if not, nothing
    /// changes.
    pub fn begin(&mut self) -> (r: bool)
        requires
            old(self).wf(),
        ensures
            final(self).wf(),
            r <==> old(self).pushed() + old(self).last() <= i64::MAX,
            r ==> final(self).pushed() == old(self).pushed() + old(self).last(),
            r ==> final(self).last() == old(self).last(),
            !r ==> *final(self) == *old(self),
            final(self).pushed() >= old(self).pushed(),
    {
        match self.pushed.checked_add(self.last) {
            Some(sum) => {
                self.pushed = sum;
                true
            },
            None => false,
        }
    }

    /// The number of frames handed to the device before this turn of the
    /// loop.
    pub fn frames(&self) -> (r: i64)
        ensures
            r == self.pushed(),
    {
        self.pushed
    }

    /// The frame that the device played when `delay` frames were queued.
    pub fn played(&self, delay: i64) -> (r: i128)
        ensures
            r == self.pushed() - delay,
    {
        self.pushed as i128 - delay as i128
    }

    /// The device took `frames` frames. Says whether that is a number the
    /// count can hold; if not, nothing changes.
    pub fn wrote(&mut self, frames: usize) -> (r: bool)
        requires
            old(self).wf(),
        ensures
            final(self).wf(),
            r <==> frames <= i64::MAX,
            r ==> final(self).last() == frames,
            !r ==> final(self).last() == old(self).last(),
            final(self).pushed() == old(self).pushed(),
    {
        if frames as u128 <= i64::MAX as u128 {
            self.last = frames as i64;
            true
        } else {
            false
        }
    }

    /// The device ran out of frames and took none.
    pub fn underrun(&mut self)
        requires
            old(self).wf(),
        ensures
            final(self).wf(),
            final(self).last() == 0,
            final(self).pushed() == old(self).pushed(),
    {
        self.last = 0;
    }
}

} // verus!
