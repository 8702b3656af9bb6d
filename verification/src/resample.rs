//! The filter that shifts a block of interleaved samples by a fraction of a
//! sample.
//!
//! A block holds frames of `channels` samples each. The filter has an odd
//! number of taps, `2 K + 1`; sample `j` of a channel of the output is the
//! sum of the taps times the samples `j`, `j + 1`, ... of that channel of the
//! input, so the output is shorter than the input by the length of the
//! filter. The taps are whole numbers that stand for weights in units of
//! one in `UNIT`.

use vstd::prelude::*;

verus! {

/// The least value of a sample.
pub const SAMPLE_MIN: i16 = -32768;

/// The greatest value of a sample.
pub const SAMPLE_MAX: i16 = 32767;

/// The tap that stands for the weight one.
pub const UNIT: i32 = 0x4000_0000;

/// The sum of the first `n` taps times the samples that they meet when the
/// filter stands at frame `frame` of channel `channel`.
pub open spec fn weighted(
    buf: Seq<i16>,
    taps: Seq<i32>,
    channels: int,
    frame: int,
    channel: int,
    n: int,
) -> int
    decreases n,
{
    if n <= 0 {
        0
    } else {
        weighted(buf, taps, channels, frame, channel, n - 1) + buf[(frame + n - 1) * channels
            + channel] * taps[n - 1]
    }
}

/// The sample that stands for the weighted sum `acc`: `acc` in units of
/// one in `UNIT`, rounded toward zero and held to the range of a sample.
pub open spec fn to_sample(acc: int) -> int {
    let whole = crate::number::quotient(acc, UNIT as int);
    if whole < SAMPLE_MIN {
        SAMPLE_MIN as int
    } else if whole > SAMPLE_MAX {
        SAMPLE_MAX as int
    } else {
        whole
    }
}

/// Whether a block of `len` samples is long enough to be filtered by `taps`
/// taps: it must hold more samples than the filter takes away. `None` where
/// the length of the filter does not fit the machine.
pub fn filters(len: usize, taps: usize, channels: usize) -> (r: Option<bool>)
    ensures
        r is Some <==> taps * channels <= usize::MAX,
        r is Some ==> r.unwrap() == (len > taps * channels),
{
    match taps.checked_mul(channels) {
        Some(over) => Some(len > over),
        None => None,
    }
}

/// The block from sample `start` on, or nothing if the block is shorter.
pub fn tail(buf: &Vec<i16>, start: usize) -> (r: Vec<i16>)
    ensures
        r@ == if start <= buf.len() {
            buf@.subrange(start as int, buf.len() as int)
        } else {
            Seq::empty()
        },
{
    let mut out: Vec<i16> = Vec::new();
    if start > buf.len() {
        return out;
    }
    let mut at = start;
    while at < buf.len()
        invariant
            start <= at <= buf.len(),
            out@ == buf@.subrange(start as int, at as int),
        decreases buf.len() - at,
    {
        out.push(buf[at]);
        proof {
            assert(out@ =~= buf@.subrange(start as int, at + 1));
        }
        at += 1;
    }
    out
}

/// The weighted sum at one place of the output, and the sample that stands
/// for it.
fn filtered(buf: &Vec<i16>, taps: &Vec<i32>, channels: usize, frame: usize, channel: usize) -> (r:
    i16)
    requires
        channel < channels,
        (frame + taps.len()) * channels <= buf.len(),
    ensures
        r == to_sample(
            weighted(
                buf@,
                taps@,
                channels as int,
                frame as int,
                channel as int,
                taps.len() as int,
            ),
        ),
{
    let mut acc: i128 = 0;
    let mut n: usize = 0;
    while n < taps.len()
        invariant
            n <= taps.len(),
            channel < channels,
            (frame + taps.len()) * channels <= buf.len(),
            acc == weighted(buf@, taps@, channels as int, frame as int, channel as int, n as int),
            -0x1_0000_0000_0000 * n <= acc <= 0x1_0000_0000_0000 * n,
        decreases taps.len() - n,
    {
        proof {
            assert(frame + taps.len() <= (frame + taps.len()) * channels) by (nonlinear_arith)
                requires
                    channels >= 1,
            ;
            assert((frame + n) * channels + channel < (frame + taps.len()) * channels)
                by (nonlinear_arith)
                requires
                    n < taps.len(),
                    channel < channels,
            ;
        }
        let at = (frame + n) * channels + channel;
        let sample = buf[at] as i128;
        let tap = taps[n] as i128;
        proof {
            assert(-0x1_0000_0000_0000 <= sample * tap <= 0x1_0000_0000_0000)
                by (nonlinear_arith)
                requires
                    -0x8000 <= sample <= 0x7fff,
                    -0x8000_0000 <= tap <= 0x7fff_ffff,
            ;
        }
        acc = acc + sample * tap;
        n += 1;
    }
    let whole = crate::integers::divide(acc, UNIT as i128);
    if whole < SAMPLE_MIN as i128 {
        SAMPLE_MIN
    } else if whole > SAMPLE_MAX as i128 {
        SAMPLE_MAX
    } else {
        whole as i16
    }
}

/// Filters a block: each sample of the output is the weighted sum of the
/// samples of its channel that the filter meets from its own frame on, in
/// units of one in `UNIT`, rounded toward zero and held to the range of a
/// sample. The output is shorter than the block by the length of the filter.
pub fn convolve(buf: &Vec<i16>, taps: &Vec<i32>, channels: usize) -> (r: Vec<i16>)
    requires
        channels >= 1,
        taps.len() * channels <= buf.len(),
    ensures
        r.len() == buf.len() - taps.len() * channels,
        forall|at: int|
            0 <= at < r.len() ==> #[trigger] r[at] == to_sample(
                weighted(
                    buf@,
                    taps@,
                    channels as int,
                    at / (channels as int),
                    at % (channels as int),
                    taps.len() as int,
                ),
            ),
{
    let over = taps.len() * channels;
    let out_size = buf.len() - over;
    let mut out: Vec<i16> = Vec::with_capacity(out_size);
    let mut at: usize = 0;
    while at < out_size
        invariant
            at <= out_size,
            channels >= 1,
            over == taps.len() * channels,
            out_size == buf.len() - over,
            out.len() == at,
            forall|k: int|
                0 <= k < at ==> #[trigger] out[k] == to_sample(
                    weighted(
                        buf@,
                        taps@,
                        channels as int,
                        k / (channels as int),
                        k % (channels as int),
                        taps.len() as int,
                    ),
                ),
        decreases out_size - at,
    {
        let frame = at / channels;
        let channel = at % channels;
        proof {
            vstd::arithmetic::div_mod::lemma_fundamental_div_mod(at as int, channels as int);
            assert((frame + taps.len()) * channels == frame * channels + taps.len() * channels)
                by (nonlinear_arith);
            assert(channels * frame == frame * channels) by (nonlinear_arith);
        }
        let sample = filtered(buf, taps, channels, frame, channel);
        out.push(sample);
        at += 1;
    }
    out
}

/// A filter whose tap `k` is the weight one and whose other taps are zero
/// hands each sample on: its weighted sum at a place is the sample `k`
/// frames later, in units of one in `UNIT`.
pub proof fn lemma_impulse_sum(
    buf: Seq<i16>,
    taps: Seq<i32>,
    channels: int,
    frame: int,
    channel: int,
    k: int,
    n: int,
)
    requires
        0 <= k < taps.len(),
        0 <= n <= taps.len(),
        taps[k] == UNIT,
        forall|i: int| 0 <= i < taps.len() && i != k ==> taps[i] == 0,
    ensures
        weighted(buf, taps, channels, frame, channel, n) == if n > k {
            buf[(frame + k) * channels + channel] * UNIT
        } else {
            0
        },
    decreases n,
{
    if n > 0 {
        lemma_impulse_sum(buf, taps, channels, frame, channel, k, n - 1);
        if n - 1 != k {
            assert(buf[(frame + n - 1) * channels + channel] * taps[n - 1] == 0)
                by (nonlinear_arith)
                requires
                    taps[n - 1] == 0,
            ;
        }
    }
}

/// Shifting by nothing changes nothing: filtered with the taps of
/// `lemma_impulse_sum`, a block comes out as it went in, without its first
/// `k` frames and its last frames.
pub proof fn lemma_impulse_is_identity(
    buf: Seq<i16>,
    taps: Seq<i32>,
    channels: int,
    k: int,
    out: Seq<i16>,
)
    requires
        channels >= 1,
        0 <= k < taps.len(),
        taps[k] == UNIT,
        forall|i: int| 0 <= i < taps.len() && i != k ==> taps[i] == 0,
        taps.len() * channels <= buf.len(),
        out.len() == buf.len() - taps.len() * channels,
        forall|at: int|
            0 <= at < out.len() ==> #[trigger] out[at] == to_sample(
                weighted(buf, taps, channels, at / channels, at % channels, taps.len() as int),
            ),
    ensures
        k * channels + out.len() <= buf.len(),
        out == buf.subrange(k * channels, k * channels + out.len()),
{
    assert(k * channels + out.len() <= buf.len()) by (nonlinear_arith)
        requires
            k < taps.len(),
            channels >= 1,
            out.len() == buf.len() - taps.len() * channels,
            taps.len() * channels <= buf.len(),
    ;
    assert forall|at: int| 0 <= at < out.len() implies out[at] == buf[k * channels + at] by {
        let frame = at / channels;
        let channel = at % channels;
        lemma_impulse_sum(buf, taps, channels, frame, channel, k, taps.len() as int);
        vstd::arithmetic::div_mod::lemma_fundamental_div_mod(at, channels);
        assert((frame + k) * channels + channel == k * channels + at) by (nonlinear_arith)
            requires
                at == channels * frame + channel,
        ;
        let x = buf[k * channels + at] as int;
        crate::textbook::lemma_quotient_scaled(x, 1, UNIT as int);
        assert(x * UNIT == UNIT * x) by (nonlinear_arith);
    }
    assert(out =~= buf.subrange(k * channels, k * channels + out.len()));
}

/// The weighted sums are linear in the block: where each sample of `w` is
/// `a` times that of `u` plus `b` times that of `v`, so is each weighted sum.
pub proof fn lemma_weighted_is_linear(
    u: Seq<i16>,
    v: Seq<i16>,
    w: Seq<i16>,
    a: int,
    b: int,
    taps: Seq<i32>,
    channels: int,
    frame: int,
    channel: int,
    n: int,
)
    requires
        channels >= 1,
        0 <= frame,
        0 <= channel < channels,
        0 <= n <= taps.len(),
        u.len() == v.len(),
        u.len() == w.len(),
        (frame + n) * channels <= u.len(),
        forall|i: int| 0 <= i < w.len() ==> #[trigger] w[i] == a * u[i] + b * v[i],
    ensures
        weighted(w, taps, channels, frame, channel, n) == a * weighted(
            u,
            taps,
            channels,
            frame,
            channel,
            n,
        ) + b * weighted(v, taps, channels, frame, channel, n),
    decreases n,
{
    if n > 0 {
        assert((frame + n - 1) * channels <= (frame + n) * channels) by (nonlinear_arith)
            requires
                channels >= 1,
        ;
        lemma_weighted_is_linear(u, v, w, a, b, taps, channels, frame, channel, n - 1);
        let at = (frame + n - 1) * channels + channel;
        assert(at < (frame + n) * channels) by (nonlinear_arith)
            requires
                at == (frame + n - 1) * channels + channel,
                channel < channels,
        ;
        assert(0 <= at) by (nonlinear_arith)
            requires
                at == (frame + n - 1) * channels + channel,
                0 <= frame,
                n >= 1,
                channels >= 1,
                channel >= 0,
        ;
        let t = taps[n - 1] as int;
        let wu = weighted(u, taps, channels, frame, channel, n - 1);
        let wv = weighted(v, taps, channels, frame, channel, n - 1);
        let ua = u[at] as int;
        let va = v[at] as int;
        assert(w[at] == a * ua + b * va);
        assert((a * ua + b * va) * t == a * (ua * t) + b * (va * t)) by (nonlinear_arith);
        assert(a * (wu + ua * t) == a * wu + a * (ua * t)) by (nonlinear_arith);
        assert(b * (wv + va * t) == b * wv + b * (va * t)) by (nonlinear_arith);
    }
}

/// Whether `out` is what filtering `buf` by `taps` gives: shorter than
/// `buf` by the length of the filter, each sample the weighted sum at its
/// place, rounded and held to the range of a sample.
pub open spec fn is_filtered(out: Seq<i16>, buf: Seq<i16>, taps: Seq<i32>, channels: int) -> bool {
    &&& out.len() == buf.len() - taps.len() * channels
    &&& forall|at: int|
        0 <= at < out.len() ==> #[trigger] out[at] == to_sample(
            weighted(buf, taps, channels, at / channels, at % channels, taps.len() as int),
        )
}

/// What is left of `buf` from sample `start` on.
pub open spec fn rest(buf: Seq<i16>, start: int) -> Seq<i16> {
    if start <= buf.len() {
        buf.subrange(start, buf.len() as int)
    } else {
        Seq::empty()
    }
}

/// Shifts a block by the filter `taps` of quality `quality`. A block that
/// holds more samples than the filter takes away is filtered; a shorter one
/// is handed on from its frame `quality` on, as it is. `None` where there
/// are no channels, or the length of the filter in samples does not fit the
/// machine.
pub fn shift(buf: &Vec<i16>, taps: &Vec<i32>, quality: usize, channels: usize) -> (r: Option<
    Vec<i16>,
>)
    ensures
        r is Some <==> channels >= 1 && taps.len() * channels <= usize::MAX && quality
            * channels <= usize::MAX,
        r is Some ==> if buf.len() > taps.len() * channels {
            is_filtered(r.unwrap()@, buf@, taps@, channels as int)
        } else {
            r.unwrap()@ == rest(buf@, quality * channels)
        },
{
    if channels < 1 {
        return None;
    }
    let start = quality.checked_mul(channels)?;
    match filters(buf.len(), taps.len(), channels) {
        Some(true) => Some(convolve(buf, taps, channels)),
        Some(false) => Some(tail(buf, start)),
        None => None,
    }
}

/// The samples are linear in the block where nothing is rounded or held
/// back: where the weighted sums `su` and `sv` are whole samples, and `a`
/// times the one plus `b` times the other is in the range of a sample, the
/// sample of `a su + b sv` is `a` times that of `su` plus `b` times that of
/// `sv`.
pub proof fn lemma_samples_are_linear(su: int, sv: int, a: int, b: int)
    requires
        su % (UNIT as int) == 0,
        sv % (UNIT as int) == 0,
        SAMPLE_MIN <= su / (UNIT as int) <= SAMPLE_MAX,
        SAMPLE_MIN <= sv / (UNIT as int) <= SAMPLE_MAX,
        SAMPLE_MIN <= a * (su / (UNIT as int)) + b * (sv / (UNIT as int)) <= SAMPLE_MAX,
    ensures
        to_sample(a * su + b * sv) == a * to_sample(su) + b * to_sample(sv),
{
    let unit = UNIT as int;
    let qu = su / unit;
    let qv = sv / unit;
    vstd::arithmetic::div_mod::lemma_fundamental_div_mod(su, unit);
    vstd::arithmetic::div_mod::lemma_fundamental_div_mod(sv, unit);
    crate::textbook::lemma_quotient_scaled(qu, 1, unit);
    crate::textbook::lemma_quotient_scaled(qv, 1, unit);
    crate::textbook::lemma_quotient_scaled(a * qu + b * qv, 1, unit);
    assert(a * su + b * sv == unit * (a * qu + b * qv)) by (nonlinear_arith)
        requires
            su == unit * qu,
            sv == unit * qv,
    ;
}

} // verus!
