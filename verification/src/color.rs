//! Colours and the fixed-point linear interpolator between two of them.

use vstd::prelude::*;
use vstd::arithmetic::div_mod::{
    lemma_div_is_ordered,
    lemma_div_multiples_vanish,
    lemma_multiply_divide_lt,
};
use crate::progress::PROGRESS_SCALE;

verus! {

/// A 24-bit RGB colour. Channels are carried as signed, wider-than-byte
/// integers so interpolation arithmetic never wraps; a well-formed colour
/// keeps every channel in [0, 255].
#[derive(Clone, Copy, Debug, PartialEq, Eq, Structural)]
pub struct Rgb {
    pub r: i16,
    pub g: i16,
    pub b: i16,
}

impl Rgb {
    /// Every channel lies in the byte range.
    pub open spec fn wf(self) -> bool {
        &&& 0 <= self.r <= 255
        &&& 0 <= self.g <= 255
        &&& 0 <= self.b <= 255
    }

    pub fn new(r: i16, g: i16, b: i16) -> (c: Rgb)
        requires
            0 <= r <= 255,
            0 <= g <= 255,
            0 <= b <= 255,
        ensures
            c == (Rgb { r, g, b }),
            c.wf(),
    {
        Rgb { r, g, b }
    }
}

/// One interpolated channel: `s + p * (e - s)` over the fixed-point scale,
/// truncated to an integer (floor; the value is never negative for
/// well-formed inputs).
pub open spec fn lerp_channel(s: int, e: int, p: int) -> int {
    (s * PROGRESS_SCALE + p * (e - s)) / (PROGRESS_SCALE as int)
}

/// The colour blended from `s` towards `e` by progress `p`.
pub open spec fn lerp_spec(s: Rgb, e: Rgb, p: int) -> Rgb {
    Rgb {
        r: lerp_channel(s.r as int, e.r as int, p) as i16,
        g: lerp_channel(s.g as int, e.g as int, p) as i16,
        b: lerp_channel(s.b as int, e.b as int, p) as i16,
    }
}

/// Interpolated channels of well-formed colours stay in the byte range.
pub proof fn lemma_lerp_channel_in_range(s: int, e: int, p: int)
    requires
        0 <= s <= 255,
        0 <= e <= 255,
        0 <= p < PROGRESS_SCALE,
    ensures
        0 <= lerp_channel(s, e, p) <= 255,
{
    let num = s * PROGRESS_SCALE + p * (e - s);
    assert(0 <= num <= 255 * (PROGRESS_SCALE as int)) by (nonlinear_arith)
        requires
            0 <= s <= 255,
            0 <= e <= 255,
            0 <= p < PROGRESS_SCALE,
            num == s * PROGRESS_SCALE + p * (e - s),
    ;
    assert(0 <= num / (PROGRESS_SCALE as int) <= 255) by (nonlinear_arith)
        requires
            0 <= num <= 255 * (PROGRESS_SCALE as int),
    ;
}

fn lerp_channel_exec(s: i16, e: i16, p: u32) -> (r: i16)
    requires
        0 <= s <= 255,
        0 <= e <= 255,
        p < PROGRESS_SCALE,
    ensures
        r == lerp_channel(s as int, e as int, p as int),
        0 <= r <= 255,
{
    proof {
        lemma_lerp_channel_in_range(s as int, e as int, p as int);
    }
    if e >= s {
        let diff: u32 = (e - s) as u32;
        proof {
            assert(p * diff <= 10000 * 255) by (nonlinear_arith)
                requires
                    p < 10000,
                    diff <= 255,
            ;
        }
        let num: u32 = (s as u32) * PROGRESS_SCALE + p * diff;
        proof {
            assert(num == s * PROGRESS_SCALE + p * (e - s));
            assert(num / PROGRESS_SCALE == lerp_channel(s as int, e as int, p as int));
        }
        (num / PROGRESS_SCALE) as i16
    } else {
        let diff: u32 = (s - e) as u32;
        proof {
            assert(p * diff < 10000 * (s as int)) by (nonlinear_arith)
                requires
                    p < 10000,
                    0 < diff <= s,
            ;
        }
        let sub: u32 = p * diff;
        let num: u32 = (s as u32) * PROGRESS_SCALE - sub;
        proof {
            assert((p as int) * ((e - s) as int) == -((p as int) * ((s - e) as int)))
                by (nonlinear_arith);
            assert(num == s * PROGRESS_SCALE + p * (e - s));
            assert(num / PROGRESS_SCALE == lerp_channel(s as int, e as int, p as int));
        }
        (num / PROGRESS_SCALE) as i16
    }
}

/// At zero progress an interpolated channel is the start channel exactly.
proof fn lemma_lerp_channel_at_zero(s: int, e: int)
    requires
        0 <= s <= 255,
        0 <= e <= 255,
    ensures
        lerp_channel(s, e, 0) == s,
{
    assert(s * PROGRESS_SCALE + 0 * (e - s) == (PROGRESS_SCALE as int) * s) by (nonlinear_arith);
    lemma_div_multiples_vanish(s, PROGRESS_SCALE as int);
}

/// One step before full progress an interpolated channel is within one
/// unit of the end channel.
proof fn lemma_lerp_channel_near_one(s: int, e: int)
    requires
        0 <= s <= 255,
        0 <= e <= 255,
    ensures
        e - 1 <= lerp_channel(s, e, PROGRESS_SCALE - 1) <= e,
{
    let num = s * PROGRESS_SCALE + (PROGRESS_SCALE - 1) * (e - s);
    assert((PROGRESS_SCALE as int) * (e - 1) <= num && num < (PROGRESS_SCALE as int) * (e + 1))
        by (nonlinear_arith)
        requires
            num == s * 10000 + (10000 - 1) * (e - s),
            0 <= s <= 255,
            0 <= e <= 255,
    ;
    lemma_div_is_ordered((PROGRESS_SCALE as int) * (e - 1), num, PROGRESS_SCALE as int);
    lemma_div_multiples_vanish(e - 1, PROGRESS_SCALE as int);
    lemma_multiply_divide_lt(num, PROGRESS_SCALE as int, e + 1);
}

/// A later progress moves an interpolated channel no closer to the start:
/// non-decreasing when the end channel is at or above the start channel,
/// non-increasing when it is at or below.
proof fn lemma_lerp_channel_monotonic(s: int, e: int, p1: int, p2: int)
    requires
        0 <= s <= 255,
        0 <= e <= 255,
        0 <= p1 <= p2 < PROGRESS_SCALE,
    ensures
        s <= e ==> lerp_channel(s, e, p1) <= lerp_channel(s, e, p2),
        e <= s ==> lerp_channel(s, e, p2) <= lerp_channel(s, e, p1),
{
    let n1 = s * PROGRESS_SCALE + p1 * (e - s);
    let n2 = s * PROGRESS_SCALE + p2 * (e - s);
    if s <= e {
        assert(n1 <= n2) by (nonlinear_arith)
            requires
                p1 <= p2,
                e - s >= 0,
                n1 == s * 10000 + p1 * (e - s),
                n2 == s * 10000 + p2 * (e - s),
        ;
        lemma_div_is_ordered(n1, n2, PROGRESS_SCALE as int);
    }
    if e <= s {
        assert(n2 <= n1) by (nonlinear_arith)
            requires
                p1 <= p2,
                e - s <= 0,
                n1 == s * 10000 + p1 * (e - s),
                n2 == s * 10000 + p2 * (e - s),
        ;
        lemma_div_is_ordered(n2, n1, PROGRESS_SCALE as int);
    }
}

/// Law: interpolation at zero progress returns the start colour exactly.
pub proof fn lemma_lerp_at_zero(s: Rgb, e: Rgb)
    requires
        s.wf(),
        e.wf(),
    ensures
        lerp_spec(s, e, 0) == s,
{
    lemma_lerp_channel_at_zero(s.r as int, e.r as int);
    lemma_lerp_channel_at_zero(s.g as int, e.g as int);
    lemma_lerp_channel_at_zero(s.b as int, e.b as int);
}

/// Law: as progress approaches one, the result approaches the end colour:
/// at the last representable progress step every channel is within one
/// unit of the end channel.
pub proof fn lemma_lerp_near_one(s: Rgb, e: Rgb)
    requires
        s.wf(),
        e.wf(),
    ensures
        e.r - 1 <= lerp_spec(s, e, PROGRESS_SCALE - 1).r <= e.r,
        e.g - 1 <= lerp_spec(s, e, PROGRESS_SCALE - 1).g <= e.g,
        e.b - 1 <= lerp_spec(s, e, PROGRESS_SCALE - 1).b <= e.b,
{
    lemma_lerp_channel_near_one(s.r as int, e.r as int);
    lemma_lerp_channel_near_one(s.g as int, e.g as int);
    lemma_lerp_channel_near_one(s.b as int, e.b as int);
    lemma_lerp_channel_in_range(s.r as int, e.r as int, PROGRESS_SCALE - 1);
    lemma_lerp_channel_in_range(s.g as int, e.g as int, PROGRESS_SCALE - 1);
    lemma_lerp_channel_in_range(s.b as int, e.b as int, PROGRESS_SCALE - 1);
}

/// Law: interpolation is monotonic per channel. As progress grows, a
/// channel never decreases when the end channel is at or above the start
/// channel, and never increases when it is at or below.
pub proof fn lemma_lerp_monotonic(s: Rgb, e: Rgb, p1: int, p2: int)
    requires
        s.wf(),
        e.wf(),
        0 <= p1 <= p2 < PROGRESS_SCALE,
    ensures
        s.r <= e.r ==> lerp_spec(s, e, p1).r <= lerp_spec(s, e, p2).r,
        e.r <= s.r ==> lerp_spec(s, e, p2).r <= lerp_spec(s, e, p1).r,
        s.g <= e.g ==> lerp_spec(s, e, p1).g <= lerp_spec(s, e, p2).g,
        e.g <= s.g ==> lerp_spec(s, e, p2).g <= lerp_spec(s, e, p1).g,
        s.b <= e.b ==> lerp_spec(s, e, p1).b <= lerp_spec(s, e, p2).b,
        e.b <= s.b ==> lerp_spec(s, e, p2).b <= lerp_spec(s, e, p1).b,
{
    lemma_lerp_channel_monotonic(s.r as int, e.r as int, p1, p2);
    lemma_lerp_channel_monotonic(s.g as int, e.g as int, p1, p2);
    lemma_lerp_channel_monotonic(s.b as int, e.b as int, p1, p2);
    lemma_lerp_channel_in_range(s.r as int, e.r as int, p1);
    lemma_lerp_channel_in_range(s.g as int, e.g as int, p1);
    lemma_lerp_channel_in_range(s.b as int, e.b as int, p1);
    lemma_lerp_channel_in_range(s.r as int, e.r as int, p2);
    lemma_lerp_channel_in_range(s.g as int, e.g as int, p2);
    lemma_lerp_channel_in_range(s.b as int, e.b as int, p2);
}

/// Relies on rand's `RngExt::random_range` on the thread-local generator:
/// a sample drawn from `0..=255` lies in that range, whatever else the
/// generator does. Nothing more is assumed of the value.
#[verifier::external_body]
fn sample_channel() -> (v: i16)
    ensures
        0 <= v <= 255,
{
    rand::RngExt::random_range(&mut rand::rng(), 0..=255)
}

/// A colour whose three channels are drawn uniformly at random from the
/// full byte range. Only well-formedness is promised of the result.
pub fn random_color() -> (c: Rgb)
    ensures
        c.wf(),
{
    Rgb { r: sample_channel(), g: sample_channel(), b: sample_channel() }
}

/// The blended colour at progress `p` on the way from `start` to `end`.
pub fn lerp(start: &Rgb, end: &Rgb, p: u32) -> (c: Rgb)
    requires
        start.wf(),
        end.wf(),
        p < PROGRESS_SCALE,
    ensures
        c == lerp_spec(*start, *end, p as int),
        c.wf(),
{
    Rgb {
        r: lerp_channel_exec(start.r, end.r, p),
        g: lerp_channel_exec(start.g, end.g, p),
        b: lerp_channel_exec(start.b, end.b, p),
    }
}

} // verus!
