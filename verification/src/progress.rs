//! Fixed-point progress values.
//!
//! A progress value stands for a real number in [0, 1): it is an integer
//! numerator over the fixed denominator [`PROGRESS_SCALE`]. The diagonal
//! distance of a character position and the per-tick phase offset are both
//! computed here, exactly, in integer arithmetic.

use vstd::prelude::*;
use vstd::arithmetic::div_mod::{lemma_basic_div, lemma_multiply_divide_lt};

verus! {

/// Denominator of every fixed-point progress value: a progress value `p`
/// stands for the real number `p / PROGRESS_SCALE`.
pub const PROGRESS_SCALE: u32 = 10000;

/// The animation phase counter runs modulo this period.
pub const PHASE_PERIOD: u8 = 100;

/// Fixed-point steps contributed by one unit of phase:
/// `PROGRESS_SCALE` split over the `PHASE_PERIOD` phase values.
pub const PHASE_STEP: u32 = 100;

/// The integer square root: the largest `r` with `r * r <= x`.
pub open spec fn isqrt_spec(x: int) -> int
    decreases x,
{
    if x < 1 {
        0
    } else {
        let r = isqrt_spec(x - 1);
        if (r + 1) * (r + 1) <= x {
            r + 1
        } else {
            r
        }
    }
}

/// `isqrt_spec(x)` is the floor of the real square root of `x`.
pub proof fn lemma_isqrt_spec_bounds(x: int)
    requires
        x >= 0,
    ensures
        0 <= isqrt_spec(x),
        isqrt_spec(x) * isqrt_spec(x) <= x,
        x < (isqrt_spec(x) + 1) * (isqrt_spec(x) + 1),
    decreases x,
{
    if x >= 1 {
        lemma_isqrt_spec_bounds(x - 1);
        let r = isqrt_spec(x - 1);
        if (r + 1) * (r + 1) <= x {
            assert(x < ((r + 1) + 1) * ((r + 1) + 1)) by (nonlinear_arith)
                requires
                    r >= 0,
                    x - 1 < (r + 1) * (r + 1),
            ;
        }
    }
}

/// Any `r` with `r * r <= x < (r + 1) * (r + 1)` is the integer square root.
pub proof fn lemma_isqrt_unique(x: int, r: int)
    requires
        x >= 0,
        r >= 0,
        r * r <= x,
        x < (r + 1) * (r + 1),
    ensures
        r == isqrt_spec(x),
{
    lemma_isqrt_spec_bounds(x);
    let s = isqrt_spec(x);
    assert(r == s) by (nonlinear_arith)
        requires
            r >= 0,
            s >= 0,
            r * r <= x,
            x < (r + 1) * (r + 1),
            s * s <= x,
            x < (s + 1) * (s + 1),
    ;
}

/// Integer square root by bisection.
fn isqrt(x: u128) -> (r: u128)
    requires
        x < 0x1_0000_0000_0000_0000,
    ensures
        r == isqrt_spec(x as int),
        r * r <= x < (r + 1) * (r + 1),
{
    let mut lo: u128 = 0;
    let mut hi: u128 = 0x1_0000_0000;
    while lo + 1 < hi
        invariant
            0 <= lo < hi <= 0x1_0000_0000,
            lo * lo <= x,
            x < hi * hi,
        decreases hi - lo,
    {
        let mid: u128 = lo + (hi - lo) / 2;
        proof {
            assert(lo < mid < hi);
            assert(mid * mid <= 0xFFFF_FFFF * 0xFFFF_FFFF) by (nonlinear_arith)
                requires
                    0 <= mid <= 0xFFFF_FFFF,
            ;
        }
        if mid * mid <= x {
            lo = mid;
        } else {
            hi = mid;
        }
    }
    proof {
        lemma_isqrt_unique(x as int, lo as int);
    }
    lo
}

/// The normalized diagonal distance of position `(row, col)` inside a
/// `rows`-by-`cols` bounding rectangle, as a fixed-point progress value:
/// the floor of `PROGRESS_SCALE * hypot(row, col) / hypot(rows, cols)`.
pub open spec fn pos_progress_spec(row: int, col: int, rows: int, cols: int) -> int {
    isqrt_spec(
        (PROGRESS_SCALE * PROGRESS_SCALE * (row * row + col * col)) / (rows * rows + cols * cols),
    )
}

/// Diagonal distance of a character position, normalized by the text's
/// bounding rectangle. Any position strictly inside the rectangle gets a
/// value in [0, 1); the origin gets exactly 0.
pub fn position_progress(row: usize, col: usize, rows: usize, cols: usize) -> (p: u32)
    requires
        0 < rows <= 0xFFFF_FFFF,
        0 < cols <= 0xFFFF_FFFF,
        row < rows,
        col < cols,
    ensures
        p == pos_progress_spec(row as int, col as int, rows as int, cols as int),
        p < PROGRESS_SCALE,
        row == 0 && col == 0 ==> p == 0,
{
    let r = row as u128;
    let c = col as u128;
    let rr = rows as u128;
    let cc = cols as u128;
    proof {
        assert(r * r <= 0xFFFF_FFFF * 0xFFFF_FFFF && c * c <= 0xFFFF_FFFF * 0xFFFF_FFFF
            && rr * rr <= 0xFFFF_FFFF * 0xFFFF_FFFF && cc * cc <= 0xFFFF_FFFF * 0xFFFF_FFFF
            && 1 <= rr * rr && r * r + c * c < rr * rr + cc * cc) by (nonlinear_arith)
            requires
                0 <= r < rr <= 0xFFFF_FFFF,
                0 <= c < cc <= 0xFFFF_FFFF,
        ;
    }
    let sum2: u128 = r * r + c * c;
    let den: u128 = rr * rr + cc * cc;
    // 0x5F5E100 below is PROGRESS_SCALE * PROGRESS_SCALE.
    proof {
        assert(0x5F5E100 * sum2 < 0x5F5E100 * den
            && 0x5F5E100 * den <= 0x5F5E100 * (0xFFFF_FFFF * 0xFFFF_FFFF * 2))
            by (nonlinear_arith)
            requires
                0 <= sum2 < den,
                den <= 0xFFFF_FFFF * 0xFFFF_FFFF * 2,
        ;
    }
    let num: u128 = (PROGRESS_SCALE as u128) * (PROGRESS_SCALE as u128) * sum2;
    let q: u128 = num / den;
    proof {
        assert(num < den * 0x5F5E100) by (nonlinear_arith)
            requires
                num == 0x5F5E100 * sum2,
                0 <= sum2 < den,
        ;
        lemma_multiply_divide_lt(num as int, den as int, 0x5F5E100);
        assert(q < 0x5F5E100);
        assert(q == (PROGRESS_SCALE * PROGRESS_SCALE * (row * row + col * col)) / (
        rows * rows + cols * cols));
    }
    let s: u128 = isqrt(q);
    proof {
        assert(s < PROGRESS_SCALE) by (nonlinear_arith)
            requires
                s * s <= q < 10000 * 10000,
                s >= 0,
        ;
        if row == 0 && col == 0 {
            assert(sum2 == 0 && num == 0) by (nonlinear_arith)
                requires
                    sum2 == r * r + c * c,
                    r == 0,
                    c == 0,
                    num == 0x5F5E100 * sum2,
            ;
            lemma_basic_div(num as int, den as int);
            assert(s == 0);
        }
    }
    s as u32
}

/// The combined per-character progress: the phase's offset plus the
/// position's diagonal distance, reduced modulo one whole progress unit.
pub open spec fn char_progress_spec(phase: int, pos: int) -> int {
    (phase * PHASE_STEP + pos) % (PROGRESS_SCALE as int)
}

/// Combine the global phase with a position's diagonal distance, wrapping
/// modulo one so the wave is seamless at the boundary.
pub fn char_progress(phase: u8, pos: u32) -> (p: u32)
    requires
        phase < PHASE_PERIOD,
        pos < PROGRESS_SCALE,
    ensures
        p == char_progress_spec(phase as int, pos as int),
        p < PROGRESS_SCALE,
{
    let sum: u32 = (phase as u32) * PHASE_STEP + pos;
    if sum >= PROGRESS_SCALE {
        proof {
            vstd::arithmetic::div_mod::lemma_mod_sub_multiples_vanish(
                sum as int,
                PROGRESS_SCALE as int,
            );
            vstd::arithmetic::div_mod::lemma_small_mod(
                (sum - PROGRESS_SCALE) as nat,
                PROGRESS_SCALE as nat,
            );
        }
        sum - PROGRESS_SCALE
    } else {
        proof {
            vstd::arithmetic::div_mod::lemma_small_mod(sum as nat, PROGRESS_SCALE as nat);
        }
        sum
    }
}

} // verus!
