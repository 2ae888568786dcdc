use textwave::animation::{Animation, Status};
use textwave::color::{lerp, random_color, Rgb};
use textwave::progress::{char_progress, position_progress, PHASE_PERIOD, PROGRESS_SCALE};
use textwave::render::render_frame;
use textwave::text::{max_line_len, split_lines};

fn chars(s: &str) -> Vec<char> {
    s.chars().collect()
}

fn line_strings(lines: &[Vec<char>]) -> Vec<String> {
    lines.iter().map(|l| l.iter().collect()).collect()
}

#[test]
fn position_progress_at_origin_is_zero() {
    assert_eq!(position_progress(0, 0, 5, 7), 0);
    assert_eq!(position_progress(0, 0, 1, 1), 0);
}

#[test]
fn position_progress_lies_in_unit_range() {
    let rows: usize = 4;
    let cols: usize = 9;
    for r in 0..rows {
        for c in 0..cols {
            let p = position_progress(r, c, rows, cols);
            assert!(p < PROGRESS_SCALE);
        }
    }
}

#[test]
fn position_progress_halfway_up_the_diagonal() {
    // hypot(1, 1) / hypot(2, 2) is exactly one half.
    assert_eq!(position_progress(1, 1, 2, 2), PROGRESS_SCALE / 2);
}

#[test]
fn lerp_at_zero_returns_start_exactly() {
    let start = Rgb::new(10, 20, 30);
    let end = Rgb::new(200, 100, 0);
    assert_eq!(lerp(&start, &end, 0), start);
}

#[test]
fn lerp_near_one_approaches_end() {
    let start = Rgb::new(10, 250, 30);
    let end = Rgb::new(200, 0, 30);
    let c = lerp(&start, &end, PROGRESS_SCALE - 1);
    assert!(end.r - 1 <= c.r && c.r <= end.r);
    assert!(end.g - 1 <= c.g && c.g <= end.g);
    assert!(end.b - 1 <= c.b && c.b <= end.b);
}

#[test]
fn lerp_midpoint_of_black_and_white_truncates() {
    let black = Rgb::new(0, 0, 0);
    let white = Rgb::new(255, 255, 255);
    let mid = lerp(&black, &white, PROGRESS_SCALE / 2);
    assert_eq!(mid, Rgb::new(127, 127, 127));
}

#[test]
fn lerp_is_monotonic_per_channel() {
    let start = Rgb::new(40, 200, 0);
    let end = Rgb::new(250, 10, 0);
    let mut prev = lerp(&start, &end, 0);
    let mut p: u32 = 250;
    while p < PROGRESS_SCALE {
        let cur = lerp(&start, &end, p);
        assert!(cur.r >= prev.r);
        assert!(cur.g <= prev.g);
        assert_eq!(cur.b, 0);
        prev = cur;
        p += 250;
    }
}

#[test]
fn phase_returns_to_zero_after_a_full_period() {
    let mut anim = Animation::new();
    assert_eq!(anim.phase, 0);
    for _ in 0..PHASE_PERIOD {
        anim.tick(false);
        assert_eq!(anim.status, Status::Running);
    }
    assert_eq!(anim.phase, 0);
}

#[test]
fn phase_advances_by_one_each_tick() {
    let mut anim = Animation::new();
    anim.tick(false);
    assert_eq!(anim.phase, 1);
    anim.tick(false);
    assert_eq!(anim.phase, 2);
}

#[test]
fn keypress_stops_the_animation_and_keeps_the_phase() {
    let mut anim = Animation::new();
    anim.tick(false);
    anim.tick(false);
    anim.tick(true);
    assert_eq!(anim.status, Status::Stopped);
    assert_eq!(anim.phase, 2);
}

#[test]
fn frame_at_phase_zero_starts_at_the_start_colour() {
    let lines = split_lines(&chars("AB\nCD"));
    let start = Rgb::new(0, 0, 0);
    let end = Rgb::new(255, 255, 255);
    let frame = render_frame(&lines, &start, &end, 0);
    assert_eq!(frame.len(), 2);
    assert_eq!(frame[0][0].ch, 'A');
    assert_eq!(frame[0][0].color, Rgb::new(0, 0, 0));
}

#[test]
fn frame_at_phase_fifty_is_the_grey_midpoint() {
    let lines = split_lines(&chars("AB\nCD"));
    let start = Rgb::new(0, 0, 0);
    let end = Rgb::new(255, 255, 255);
    let frame = render_frame(&lines, &start, &end, 50);
    assert_eq!(frame[0][0].ch, 'A');
    assert_eq!(frame[0][0].color, Rgb::new(127, 127, 127));
}

#[test]
fn empty_text_renders_no_cells() {
    let lines = split_lines(&chars(""));
    assert_eq!(lines.len(), 0);
    let start = Rgb::new(1, 2, 3);
    let end = Rgb::new(4, 5, 6);
    let frame = render_frame(&lines, &start, &end, 0);
    assert_eq!(frame.len(), 0);
}

#[test]
fn frame_mirrors_the_text_shape_and_colours_match_the_pipeline() {
    let lines = split_lines(&chars("A\nBCD"));
    let start = Rgb::new(12, 240, 99);
    let end = Rgb::new(230, 3, 99);
    let phase: u8 = 73;
    let frame = render_frame(&lines, &start, &end, phase);
    assert_eq!(frame.len(), 2);
    assert_eq!(frame[0].len(), 1);
    assert_eq!(frame[1].len(), 3);
    let rows = lines.len();
    let cols = max_line_len(&lines);
    for (i, line) in lines.iter().enumerate() {
        for (j, &ch) in line.iter().enumerate() {
            assert_eq!(frame[i][j].ch, ch);
            let p = char_progress(phase, position_progress(i, j, rows, cols));
            assert_eq!(frame[i][j].color, lerp(&start, &end, p));
        }
    }
}

#[test]
fn split_lines_splits_at_line_feeds() {
    let lines = split_lines(&chars("AB\nCD"));
    assert_eq!(line_strings(&lines), vec!["AB".to_string(), "CD".to_string()]);
}

#[test]
fn split_lines_trailing_terminator_opens_no_line() {
    assert_eq!(line_strings(&split_lines(&chars("AB\n"))), vec!["AB".to_string()]);
    assert_eq!(line_strings(&split_lines(&chars("\n"))), vec![String::new()]);
}

#[test]
fn split_lines_understands_crlf() {
    let lines = split_lines(&chars("AB\r\nCD\r\n"));
    assert_eq!(line_strings(&lines), vec!["AB".to_string(), "CD".to_string()]);
}

#[test]
fn split_lines_keeps_a_lone_carriage_return() {
    assert_eq!(line_strings(&split_lines(&chars("A\rB"))), vec!["A\rB".to_string()]);
    assert_eq!(line_strings(&split_lines(&chars("A\r"))), vec!["A\r".to_string()]);
}

#[test]
fn split_lines_keeps_empty_middle_lines() {
    let lines = split_lines(&chars("A\n\nB"));
    assert_eq!(
        line_strings(&lines),
        vec!["A".to_string(), String::new(), "B".to_string()]
    );
}

#[test]
fn max_line_len_is_the_longest_line() {
    assert_eq!(max_line_len(&split_lines(&chars(""))), 0);
    assert_eq!(max_line_len(&split_lines(&chars("A\nBCD\nEE"))), 3);
}

#[test]
fn char_progress_wraps_modulo_one() {
    assert_eq!(char_progress(0, 0), 0);
    assert_eq!(char_progress(50, 0), PROGRESS_SCALE / 2);
    assert_eq!(char_progress(99, PROGRESS_SCALE - 1), 9899);
}

#[test]
fn random_colour_channels_stay_in_the_byte_range() {
    for _ in 0..32 {
        let c = random_color();
        assert!(0 <= c.r && c.r <= 255);
        assert!(0 <= c.g && c.g <= 255);
        assert!(0 <= c.b && c.b <= 255);
    }
}
