//! The frame renderer: one fully coloured rendition of the text.
//!
//! A frame mirrors the text's shape cell for cell; each cell carries its
//! character and the foreground colour resolved from the character's
//! diagonal distance and the current phase. Emitting the cells, the line
//! breaks between rows and the cursor motion around a frame is terminal
//! work and happens outside this crate's verified core.

use vstd::prelude::*;
use crate::color::{lerp, lerp_spec, Rgb};
use crate::progress::{
    char_progress,
    char_progress_spec,
    pos_progress_spec,
    position_progress,
    PHASE_PERIOD,
};
use crate::text::{lemma_max_len_bounds, max_len_spec, max_line_len, views};

verus! {

/// One rendered character: the glyph and its foreground colour.
#[derive(Clone, Copy, Debug, PartialEq, Eq, Structural)]
pub struct Cell {
    pub ch: char,
    pub color: Rgb,
}

/// Appending one cell grows a row by one and leaves earlier cells as they
/// were; spelled out because the prover does not always reach for the
/// sequence axioms here on its own.
proof fn lemma_row_push(s: Seq<Cell>, c: Cell)
    ensures
        s.push(c).len() == s.len() + 1,
        s.push(c)[s.len() as int] == c,
        forall|k: int| 0 <= k < s.len() ==> #[trigger] s.push(c)[k] == s[k],
{
}

/// The colour of the character at `(row, col)` of the text: the endpoint
/// colours blended by the character's diagonal distance combined with the
/// global phase.
pub open spec fn cell_color_spec(
    text: Seq<Seq<char>>,
    start: Rgb,
    end: Rgb,
    phase: int,
    row: int,
    col: int,
) -> Rgb {
    lerp_spec(
        start,
        end,
        char_progress_spec(phase, pos_progress_spec(row, col, text.len() as int, max_len_spec(text))),
    )
}

/// Law: at phase zero, the character at the origin of any non-empty text
/// is drawn in the start colour exactly: its diagonal distance is zero,
/// the phase adds nothing, and interpolation at zero progress returns the
/// start colour.
pub proof fn lemma_origin_cell_at_phase_zero(text: Seq<Seq<char>>, start: Rgb, end: Rgb)
    requires
        start.wf(),
        end.wf(),
        text.len() >= 1,
        max_len_spec(text) >= 1,
    ensures
        cell_color_spec(text, start, end, 0, 0, 0) == start,
{
    let rows = text.len() as int;
    let cols = max_len_spec(text);
    let den = rows * rows + cols * cols;
    assert(den >= 2) by (nonlinear_arith)
        requires
            den == rows * rows + cols * cols,
            rows >= 1,
            cols >= 1,
    ;
    vstd::arithmetic::div_mod::lemma_basic_div(0, den);
    assert(pos_progress_spec(0, 0, rows, cols) == 0);
    vstd::arithmetic::div_mod::lemma_small_mod(0, crate::progress::PROGRESS_SCALE as nat);
    assert(char_progress_spec(0, 0) == 0);
    crate::color::lemma_lerp_at_zero(start, end);
}

/// Render one frame at the given phase: every character of the text,
/// paired with its colour. An empty text renders to an empty frame.
#[verifier::rlimit(100)]
pub fn render_frame(lines: &Vec<Vec<char>>, start: &Rgb, end: &Rgb, phase: u8) -> (frame: Vec<
    Vec<Cell>,
>)
    requires
        start.wf(),
        end.wf(),
        phase < PHASE_PERIOD,
        lines@.len() <= 0xFFFF_FFFF,
        max_len_spec(views(lines@)) <= 0xFFFF_FFFF,
    ensures
        frame@.len() == lines@.len(),
        forall|i: int| 0 <= i < lines@.len() ==> (#[trigger] frame@[i])@.len()
            == lines@[i]@.len(),
        forall|i: int, j: int|
            0 <= i < lines@.len() && 0 <= j < lines@[i]@.len() ==> {
                &&& (#[trigger] frame@[i]@[j]).ch == lines@[i]@[j]
                &&& frame@[i]@[j].color == cell_color_spec(
                    views(lines@),
                    *start,
                    *end,
                    phase as int,
                    i,
                    j,
                )
                &&& frame@[i]@[j].color.wf()
            },
{
    let ghost text = views(lines@);
    proof {
        lemma_max_len_bounds(text);
    }
    let rows = lines.len();
    let maxc = max_line_len(lines);
    let mut frame: Vec<Vec<Cell>> = Vec::new();
    let mut i: usize = 0;
    while i < rows
        invariant
            start.wf(),
            end.wf(),
            phase < PHASE_PERIOD,
            text == views(lines@),
            rows == lines@.len() <= 0xFFFF_FFFF,
            maxc == max_len_spec(text) <= 0xFFFF_FFFF,
            forall|r: int| 0 <= r < lines@.len() ==> #[trigger] text[r].len() <= maxc,
            i <= rows,
            frame@.len() == i,
            forall|r: int| 0 <= r < i ==> (#[trigger] frame@[r])@.len() == lines@[r]@.len(),
            forall|r: int, c: int|
                0 <= r < i && 0 <= c < lines@[r]@.len() ==> {
                    &&& (#[trigger] frame@[r]@[c]).ch == lines@[r]@[c]
                    &&& frame@[r]@[c].color == cell_color_spec(
                        text,
                        *start,
                        *end,
                        phase as int,
                        r,
                        c,
                    )
                    &&& frame@[r]@[c].color.wf()
                },
        decreases rows - i,
    {
        let width = lines[i].len();
        proof {
            assert(text[i as int] == lines@[i as int]@);
        }
        let mut row: Vec<Cell> = Vec::new();
        let mut j: usize = 0;
        while j < width
            invariant
                start.wf(),
                end.wf(),
                phase < PHASE_PERIOD,
                text == views(lines@),
                rows == lines@.len() <= 0xFFFF_FFFF,
                maxc == max_len_spec(text) <= 0xFFFF_FFFF,
                i < rows,
                width == lines@[i as int]@.len(),
                width <= maxc,
                j <= width,
                row@.len() == j,
                forall|c: int|
                    0 <= c < j ==> {
                        &&& (#[trigger] row@[c]).ch == lines@[i as int]@[c]
                        &&& row@[c].color == cell_color_spec(
                            text,
                            *start,
                            *end,
                            phase as int,
                            i as int,
                            c,
                        )
                        &&& row@[c].color.wf()
                    },
            decreases width - j,
        {
            let ch = lines[i][j];
            let pos = position_progress(i, j, rows, maxc);
            let p = char_progress(phase, pos);
            let color = lerp(start, end, p);
            proof {
                assert(text.len() == lines@.len());
                assert(color == cell_color_spec(text, *start, *end, phase as int, i as int, j as int));
            }
            let cell = Cell { ch, color };
            let ghost row_before = row@;
            row.push(cell);
            proof {
                lemma_row_push(row_before, cell);
            }
            j = j + 1;
        }
        frame.push(row);
        i = i + 1;
    }
    frame
}

} // verus!
