//! The clock side of the playback loop: what the loop keeps of the reports
//! of the audio device, and what it computes from them.
//!
//! Times are whole nanoseconds since the epoch of the wall clock. The
//! length of one sample is in attoseconds, a billion to the nanosecond, so
//! that it can follow a clock that is off by a few parts in a million.
//! Numbers of frames are whole.

use std::collections::VecDeque;
use vstd::prelude::*;

verus! {

/// The attoseconds in a nanosecond.
pub const ATTOS: i128 = 1_000_000_000;

/// One report of the audio device.
#[derive(Clone, Copy, Debug, PartialEq, Eq, Structural)]
pub struct Status {
    /// The time at which the device made the report.
    pub stamp: i64,
    /// The number of frames that were queued at that time.
    pub delay: i64,
    /// Whether the device was playing.
    pub running: bool,
}

/// What the loop does after a report.
#[derive(Clone, Copy, Debug, PartialEq, Eq, Structural)]
pub enum Spin {
    /// The report bears the time of the one before it: ask again at once.
    Repeat,
    /// The queue is still above the threshold: ask again, after a pause if
    /// the loop is not spinning.
    Wait,
    /// The device has stopped or the queue has fallen below the threshold:
    /// go on to fill it.
    Fill,
}

/// What `spin` answers to `status` after the reports at `stamps`.
pub open spec fn spin_answer(stamps: Seq<i64>, status: Status, threshold: i64) -> Spin {
    if stamps.len() > 0 && stamps.last() == status.stamp {
        Spin::Repeat
    } else if !status.running || status.delay < threshold {
        Spin::Fill
    } else {
        Spin::Wait
    }
}

/// Whether `spin` keeps `status`: a report that repeats the time of the one
/// before it is never kept; a spinning loop keeps every other report, a
/// loop that does not spin only the one on which it goes on to fill.
pub open spec fn spin_keeps(
    stamps: Seq<i64>,
    status: Status,
    spinning: bool,
    threshold: i64,
) -> bool {
    match spin_answer(stamps, status, threshold) {
        Spin::Repeat => false,
        Spin::Wait => spinning,
        Spin::Fill => true,
    }
}

/// Takes one report of the device into the lists of this turn of the loop
/// and decides how the loop goes on.
pub fn spin(
    stamps: &mut Vec<i64>,
    delays: &mut Vec<i64>,
    status: Status,
    spinning: bool,
    threshold: i64,
) -> (r: Spin)
    ensures
        r == spin_answer(old(stamps)@, status, threshold),
        final(stamps)@ == if spin_keeps(old(stamps)@, status, spinning, threshold) {
            old(stamps)@.push(status.stamp)
        } else {
            old(stamps)@
        },
        final(delays)@ == if spin_keeps(old(stamps)@, status, spinning, threshold) {
            old(delays)@.push(status.delay)
        } else {
            old(delays)@
        },
{
    let seen = stamps.len();
    if seen > 0 && stamps[seen - 1] == status.stamp {
        return Spin::Repeat;
    }
    if spinning {
        stamps.push(status.stamp);
        delays.push(status.delay);
    }
    if !status.running || status.delay < threshold {
        if !spinning {
            stamps.push(status.stamp);
            delays.push(status.delay);
        }
        Spin::Fill
    } else {
        Spin::Wait
    }
}

/// A time at which a frame was expected to be played.
#[derive(Clone, Copy, Debug, PartialEq, Eq, Structural)]
pub struct Forecast {
    /// The number of frames that had been handed to the device before the
    /// frame.
    pub frame: i64,
    /// The time at which the frame was expected to be played.
    pub time: i64,
}

/// The number of forecasts at the head of `queue` that are for frames
/// before `frame`.
pub open spec fn stale(queue: Seq<Forecast>, frame: int) -> nat
    decreases queue.len(),
{
    if queue.len() > 0 && queue[0].frame < frame {
        1 + stale(queue.subrange(1, queue.len() as int), frame)
    } else {
        0
    }
}

/// The forecasts that wait for the device to report on their frames, oldest
/// first.
pub struct Forecasts {
    queue: VecDeque<Forecast>,
}

impl Forecasts {
    /// The forecasts that wait, oldest first.
    pub closed spec fn view(&self) -> Seq<Forecast> {
        self.queue@
    }

    /// No forecasts.
    pub fn new() -> (r: Self)
        ensures
            r@ == Seq::<Forecast>::empty(),
    {
        Forecasts { queue: VecDeque::new() }
    }

    /// The number of forecasts that wait.
    pub fn len(&self) -> (r: usize)
        ensures
            r == self@.len(),
    {
        self.queue.len()
    }

    /// Adds the forecast that the frame after `frame` frames will be played
    /// at `time`.
    pub fn record(&mut self, frame: i64, time: i64)
        ensures
            final(self)@ == old(self)@.push(Forecast { frame, time }),
    {
        self.queue.push_back(Forecast { frame, time });
    }

    /// Holds the report that frame `frame` was played at `stamp` against
    /// the forecasts. Forecasts for earlier frames are dropped. If the
    /// oldest one left is for `frame`, it is dropped too, and the result is
    /// by how many nanoseconds it was late: the forecast less the report.
    pub fn settle(&mut self, frame: i128, stamp: i64) -> (r: Option<i128>)
        ensures
            ({
                let gone = stale(old(self)@, frame as int) as int;
                if gone < old(self)@.len() && old(self)@[gone].frame == frame {
                    &&& r == Some((old(self)@[gone].time - stamp) as i128)
                    &&& final(self)@ == old(self)@.subrange(gone + 1, old(self)@.len() as int)
                } else {
                    &&& r is None
                    &&& final(self)@ == old(self)@.subrange(gone, old(self)@.len() as int)
                }
            }),
    {
        let ghost gone: int = 0;
        loop
            invariant_except_break
                0 <= gone <= old(self)@.len(),
                self@ == old(self)@.subrange(gone, old(self)@.len() as int),
                stale(old(self)@, frame as int) == gone + stale(self@, frame as int),
            ensures
                gone == stale(old(self)@, frame as int),
                0 <= gone <= old(self)@.len(),
                self@ == old(self)@.subrange(gone, old(self)@.len() as int),
            decreases self@.len(),
        {
            if self.queue.len() == 0 {
                break ;
            }
            let head = self.queue[0];
            if head.frame as i128 >= frame {
                break ;
            }
            let ghost before = self@;
            self.queue.pop_front();
            proof {
                assert(self@ =~= before.subrange(1, before.len() as int));
                assert(self@ =~= old(self)@.subrange(gone + 1, old(self)@.len() as int));
                gone = gone + 1;
            }
        }
        if self.queue.len() > 0 {
            let head = self.queue[0];
            if head.frame as i128 == frame {
                let ghost before = self@;
                self.queue.pop_front();
                proof {
                    assert(self@ =~= before.subrange(1, before.len() as int));
                    assert(self@ =~= old(self)@.subrange(gone + 1, old(self)@.len() as int));
                }
                return Some(head.time as i128 - stamp as i128);
            }
        }
        None
    }
}

/// The length of one sample as two reports show it: the time between
/// them, divided by the number of frames that were played in it. Where no
/// frame was played or no time went by, the reports do not show it, and the
/// length is `fallback`.
pub open spec fn interval_length(earlier: Status, later: Status, fallback: int) -> int {
    let span = later.stamp - earlier.stamp;
    let played = earlier.delay - later.delay;
    if played > 0 && span > 0 {
        crate::number::quotient(span * ATTOS, played)
    } else {
        fallback
    }
}

/// The length of one sample, in attoseconds, as two reports show it.
pub fn sample_length(earlier: Status, later: Status, fallback: i128) -> (r: i128)
    ensures
        r == interval_length(earlier, later, fallback as int),
{
    let span = later.stamp as i128 - earlier.stamp as i128;
    let played = earlier.delay as i128 - later.delay as i128;
    if played > 0 && span > 0 {
        assert(0 < span * ATTOS <= 0x1_0000_0000_0000_0000 * ATTOS) by (nonlinear_arith)
            requires
                0 < span <= 0x1_0000_0000_0000_0000,
                ATTOS == 1_000_000_000,
        ;
        crate::integers::divide(span * ATTOS, played)
    } else {
        fallback
    }
}

/// The report number `i` of a turn of the loop.
pub open spec fn report(stamps: Seq<i64>, delays: Seq<i64>, i: int) -> Status {
    Status { stamp: stamps[i], delay: delays[i], running: true }
}

/// The sum of the lengths of one sample that the first `n` pairs of
/// reports next to each other show.
pub open spec fn lengths(stamps: Seq<i64>, delays: Seq<i64>, fallback: int, n: int) -> int
    decreases n,
{
    if n <= 0 {
        0
    } else {
        lengths(stamps, delays, fallback, n - 1) + interval_length(
            report(stamps, delays, n - 1),
            report(stamps, delays, n),
            fallback,
        )
    }
}

/// Whether the sums of `lengths` up to the one of `n` pairs fit the machine.
pub open spec fn lengths_fit(stamps: Seq<i64>, delays: Seq<i64>, fallback: int, n: int) -> bool
    decreases n,
{
    n <= 0 || (lengths_fit(stamps, delays, fallback, n - 1) && i128::MIN <= lengths(
        stamps,
        delays,
        fallback,
        n,
    ) <= i128::MAX)
}

/// The length of one sample, in attoseconds, as the reports of one turn of
/// the loop show it: the mean of what each pair of reports next to each
/// other shows, rounded toward zero. `None` where the sum does not fit the
/// machine.
pub fn mean_sample_length(stamps: &Vec<i64>, delays: &Vec<i64>, fallback: i128) -> (r: Option<
    i128,
>)
    requires
        stamps.len() == delays.len(),
        stamps.len() >= 2,
    ensures
        r is Some ==> r.unwrap() == crate::number::quotient(
            lengths(stamps@, delays@, fallback as int, stamps.len() - 1),
            stamps.len() - 1,
        ),
        r is Some <==> lengths_fit(stamps@, delays@, fallback as int, stamps.len() - 1),
{
    let mut sum: i128 = 0;
    let mut n: usize = 0;
    while n < stamps.len() - 1
        invariant
            stamps.len() == delays.len(),
            stamps.len() >= 2,
            n <= stamps.len() - 1,
            sum == lengths(stamps@, delays@, fallback as int, n as int),
            lengths_fit(stamps@, delays@, fallback as int, n as int),
        decreases stamps.len() - 1 - n,
    {
        let earlier = Status { stamp: stamps[n], delay: delays[n], running: true };
        let later = Status { stamp: stamps[n + 1], delay: delays[n + 1], running: true };
        let length = sample_length(earlier, later, fallback);
        match sum.checked_add(length) {
            Some(next) => {
                sum = next;
            },
            None => {
                proof {
                    if lengths_fit(stamps@, delays@, fallback as int, stamps.len() - 1) {
                        lemma_lengths_fit_on(
                            stamps@,
                            delays@,
                            fallback as int,
                            n + 1,
                            stamps.len() - 1,
                        );
                    }
                }
                return None;
            },
        }
        n += 1;
    }
    let pairs = (stamps.len() - 1) as i128;
    Some(crate::integers::divide(sum, pairs))
}

/// Where the sums of `lengths` fit the machine up to `m` pairs, they fit up
/// to any smaller number of pairs.
pub proof fn lemma_lengths_fit_on(
    stamps: Seq<i64>,
    delays: Seq<i64>,
    fallback: int,
    n: int,
    m: int,
)
    requires
        n <= m,
        lengths_fit(stamps, delays, fallback, m),
    ensures
        lengths_fit(stamps, delays, fallback, n),
    decreases m - n,
{
    if n < m {
        lemma_lengths_fit_on(stamps, delays, fallback, n, m - 1);
    }
}

/// What report `n - 1` expects, and whether the numbers on the way to the
/// sum of the first `n` expectations fit the machine.
pub open spec fn arrivals_fit(stamps: Seq<i64>, delays: Seq<i64>, length: int, n: int) -> bool
    decreases n,
{
    n <= 0 || {
        &&& arrivals_fit(stamps, delays, length, n - 1)
        &&& i128::MIN <= delays[n - 1] * length <= i128::MAX
        &&& i128::MIN <= stamps[n - 1] + crate::number::quotient(
            delays[n - 1] * length,
            ATTOS as int,
        ) <= i128::MAX
        &&& i128::MIN <= arrivals(stamps, delays, length, n) <= i128::MAX
    }
}

/// Where the numbers on the way to the sum of `m` expectations fit the
/// machine, so do those on the way to the sum of fewer.
pub proof fn lemma_arrivals_fit_on(
    stamps: Seq<i64>,
    delays: Seq<i64>,
    length: int,
    n: int,
    m: int,
)
    requires
        n <= m,
        arrivals_fit(stamps, delays, length, m),
    ensures
        arrivals_fit(stamps, delays, length, n),
    decreases m - n,
{
    if n < m {
        lemma_arrivals_fit_on(stamps, delays, length, n, m - 1);
    }
}

/// The attoseconds in a second.
pub const SECOND: i128 = 1_000_000_000_000_000_000;

/// The length of one sample, in attoseconds, at `rate` samples to the
/// second, rounded toward zero. `None` where the rate is zero.
pub fn nominal_length(rate: u32) -> (r: Option<i128>)
    ensures
        r is Some <==> rate > 0,
        r is Some ==> r.unwrap() == (SECOND as int) / (rate as int),
{
    if rate == 0 {
        None
    } else {
        Some(crate::integers::divide(SECOND, rate as i128))
    }
}

/// The length of one sample that a turn of the loop hands to its
/// estimator: what the reports of the turn show, where the loop estimates,
/// the device is playing, there are at least two reports, and what they
/// show is a positive length; else the length in use before.
pub open spec fn observed(
    estimating: bool,
    running: bool,
    stamps: Seq<i64>,
    delays: Seq<i64>,
    previous: int,
) -> int {
    let shown = crate::number::quotient(
        lengths(stamps, delays, previous, stamps.len() - 1),
        stamps.len() - 1,
    );
    if estimating && running && stamps.len() >= 2 && lengths_fit(
        stamps,
        delays,
        previous,
        stamps.len() - 1,
    ) && shown > 0 {
        shown
    } else {
        previous
    }
}

/// The length of one sample that a turn of the loop hands to its estimator.
pub fn observed_length(
    estimating: bool,
    running: bool,
    stamps: &Vec<i64>,
    delays: &Vec<i64>,
    previous: i128,
) -> (r: i128)
    requires
        stamps.len() == delays.len(),
    ensures
        r == observed(estimating, running, stamps@, delays@, previous as int),
{
    if estimating && running && stamps.len() >= 2 {
        match mean_sample_length(stamps, delays, previous) {
            Some(length) => if length > 0 {
                length
            } else {
                previous
            },
            None => previous,
        }
    } else {
        previous
    }
}

/// The sum of the times at which the first `n` reports expect the next
/// frame to be played: each its own time and the time that the frames
/// queued before it take, rounded toward zero to the nanosecond.
pub open spec fn arrivals(stamps: Seq<i64>, delays: Seq<i64>, length: int, n: int) -> int
    decreases n,
{
    if n <= 0 {
        0
    } else {
        arrivals(stamps, delays, length, n - 1) + stamps[n - 1] + crate::number::quotient(
            delays[n - 1] * length,
            ATTOS as int,
        )
    }
}

/// The time at which the reports of a turn of the loop expect the next
/// frame to be played: the mean of what each of them expects, rounded
/// toward zero.
pub open spec fn expected(stamps: Seq<i64>, delays: Seq<i64>, length: int) -> int {
    crate::number::quotient(
        arrivals(stamps, delays, length, stamps.len() as int),
        stamps.len() as int,
    )
}

/// Whether `expected` and the numbers on the way to it fit the machine.
pub open spec fn expected_fits(stamps: Seq<i64>, delays: Seq<i64>, length: int) -> bool {
    &&& arrivals_fit(stamps, delays, length, stamps.len() as int)
    &&& i64::MIN <= expected(stamps, delays, length) <= i64::MAX
}

/// The time `frames` frames of `length` attoseconds after `time`.
pub open spec fn after_frames(time: int, length: int, frames: int) -> int {
    time + crate::number::quotient(frames * length, ATTOS as int)
}

/// Whether `after_frames` and the numbers on the way to it fit the machine.
pub open spec fn after_frames_fits(time: int, length: int, frames: int) -> bool {
    &&& i128::MIN <= frames * length <= i128::MAX
    &&& i64::MIN <= after_frames(time, length, frames) <= i64::MAX
}

/// The time at which the next frame handed to the device will be played:
/// the mean of what each report of this turn of the loop expects, rounded
/// toward zero. `None` where a report is so far off that the time does not
/// fit the machine.
pub fn next_frame_time(stamps: &Vec<i64>, delays: &Vec<i64>, length: i128) -> (r: Option<i64>)
    requires
        stamps.len() == delays.len(),
        stamps.len() >= 1,
    ensures
        r is Some <==> expected_fits(stamps@, delays@, length as int),
        r is Some ==> r.unwrap() == expected(stamps@, delays@, length as int),
{
    let mut sum: i128 = 0;
    let mut n: usize = 0;
    while n < stamps.len()
        invariant
            stamps.len() == delays.len(),
            n <= stamps.len(),
            sum == arrivals(stamps@, delays@, length as int, n as int),
            arrivals_fit(stamps@, delays@, length as int, n as int),
        decreases stamps.len() - n,
    {
        proof {
            if arrivals_fit(stamps@, delays@, length as int, stamps.len() as int) {
                lemma_arrivals_fit_on(
                    stamps@,
                    delays@,
                    length as int,
                    n + 1,
                    stamps.len() as int,
                );
            }
        }
        let queued = match (delays[n] as i128).checked_mul(length) {
            Some(q) => crate::integers::divide(q, ATTOS),
            None => { return None; },
        };
        let arrival = match (stamps[n] as i128).checked_add(queued) {
            Some(a) => a,
            None => { return None; },
        };
        sum = match sum.checked_add(arrival) {
            Some(s) => s,
            None => { return None; },
        };
        n += 1;
    }
    let mean = crate::integers::divide(sum, stamps.len() as i128);
    if mean < i64::MIN as i128 || mean > i64::MAX as i128 {
        None
    } else {
        Some(mean as i64)
    }
}

/// The number of frames of silence that go before the first frame of the
/// file, so that it is played at `start` and not before: none if the next
/// frame is due at `start` or after it, else as many as it takes to reach
/// `start`, and at most one period.
pub open spec fn silence(start: int, next: int, length: int, period: int) -> int {
    let gap = (start - next) * ATTOS;
    if gap <= 0 || period <= 0 {
        0
    } else if length <= 0 {
        period
    } else {
        let whole = gap / length;
        let frames = if gap % length == 0 {
            whole
        } else {
            whole + 1
        };
        if frames < period {
            frames
        } else {
            period
        }
    }
}

/// The number of frames of silence to play before the file begins.
pub fn preroll(start: i64, next: i64, length: i128, period: u32) -> (r: u32)
    ensures
        r == silence(start as int, next as int, length as int, period as int),
        r <= period,
{
    let span = start as i128 - next as i128;
    if span <= 0 {
        assert(span * ATTOS <= 0) by (nonlinear_arith)
            requires
                span <= 0,
                ATTOS == 1_000_000_000,
        ;
        return 0;
    }
    if period == 0 {
        return 0;
    }
    assert(0 < span * ATTOS <= 0x1_0000_0000_0000_0000 * ATTOS) by (nonlinear_arith)
        requires
            0 < span <= 0x1_0000_0000_0000_0000,
            ATTOS == 1_000_000_000,
    ;
    let gap = span * ATTOS;
    if length <= 0 {
        return period;
    }
    proof {
        vstd::arithmetic::div_mod::lemma_fundamental_div_mod(gap as int, length as int);
        vstd::arithmetic::div_mod::lemma_div_pos_is_pos(gap as int, length as int);
        vstd::arithmetic::div_mod::lemma_mod_bound(gap as int, length as int);
        crate::number::lemma_quotient_bounds(gap as int, length as int);
    }
    let whole = crate::integers::divide(gap, length);
    proof {
        assert(whole * length == length * (gap / length)) by (nonlinear_arith)
            requires
                whole == gap / length,
        ;
    }
    let rest = gap - whole * length;
    let frames = if rest == 0 {
        whole
    } else {
        whole + 1
    };
    if frames < period as i128 {
        frames as u32
    } else {
        period
    }
}

/// The time `frames` frames after `time`, rounded toward zero to the
/// nanosecond. `None` where it does not fit the machine.
pub fn later(time: i64, length: i128, frames: u32) -> (r: Option<i64>)
    ensures
        r is Some <==> after_frames_fits(time as int, length as int, frames as int),
        r is Some ==> r.unwrap() == after_frames(time as int, length as int, frames as int),
{
    match (frames as i128).checked_mul(length) {
        Some(span) => {
            let whole = crate::integers::divide(span, ATTOS);
            proof {
                crate::number::lemma_quotient_bounds(span as int, ATTOS as int);
            }
            let at = time as i128 + whole;
            if at < i64::MIN as i128 || at > i64::MAX as i128 {
                None
            } else {
                Some(at as i64)
            }
        },
        None => None,
    }
}

} // verus!
