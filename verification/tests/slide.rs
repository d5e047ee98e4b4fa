use gridslide::grid::{StyledChar, TerminalGrid};
use gridslide::style::{Color, TextStyle};
use gridslide::transition::{
    AnimateTransition, Line, SlideHorizontalAnimation, TransitionDirection, WindowSize,
};

fn plain_style() -> TextStyle {
    TextStyle { size: 1, color: None }
}

fn build_grid(rows: &[&str]) -> TerminalGrid {
    let rows = rows
        .iter()
        .map(|r| r.chars().map(|c| StyledChar { character: c, style: plain_style() }).collect())
        .collect();
    TerminalGrid { rows, background_color: None, images: vec![] }
}

fn as_text(line: &Line) -> String {
    line.0.iter().flat_map(|t| t.content.iter()).collect()
}

fn frame_texts(
    transition: &SlideHorizontalAnimation,
    frame: usize,
    direction: TransitionDirection,
) -> Vec<String> {
    transition.build_frame(frame, direction).lines.iter().map(as_text).collect()
}

fn two_by_four() -> SlideHorizontalAnimation {
    let left = build_grid(&["AB", "CD"]);
    let right = build_grid(&["EF", "GH"]);
    let dimensions = WindowSize { rows: 2, columns: 2 };
    SlideHorizontalAnimation::new(left, right, dimensions)
}

#[test]
fn combine_concatenates_rows() {
    let left = build_grid(&["AB", "CD"]);
    let right = build_grid(&["EF", "GH"]);
    let transition = SlideHorizontalAnimation::new(
        left.clone(),
        right.clone(),
        WindowSize { rows: 2, columns: 2 },
    );
    assert_eq!(transition.grid.rows.len(), 2);
    for i in 0..2 {
        let mut expected = left.rows[i].clone();
        expected.extend(right.rows[i].iter().copied());
        assert_eq!(transition.grid.rows[i], expected);
    }
    assert_eq!(transition.grid.background_color, None);
    assert!(transition.grid.images.is_empty());
}

#[test]
fn combine_keeps_background() {
    let color = Some(Color { red: 1, green: 2, blue: 3 });
    let mut left = build_grid(&["A"]);
    let mut right = build_grid(&["B"]);
    left.background_color = color;
    right.background_color = color;
    let transition =
        SlideHorizontalAnimation::new(left, right, WindowSize { rows: 1, columns: 1 });
    assert_eq!(transition.grid.background_color, color);
    assert_eq!(transition.build_frame(0, TransitionDirection::Next).background_color, color);
}

#[test]
fn total_frames_is_width_minus_viewport() {
    assert_eq!(two_by_four().total_frames(), 2);
}

#[test]
fn total_frames_zero_when_viewport_wider() {
    let left = build_grid(&["A"]);
    let right = build_grid(&["B"]);
    let transition =
        SlideHorizontalAnimation::new(left, right, WindowSize { rows: 1, columns: 5 });
    assert_eq!(transition.total_frames(), 0);
}

#[test]
fn build_frame_next_frame0() {
    assert_eq!(frame_texts(&two_by_four(), 0, TransitionDirection::Next), vec!["AB", "CD"]);
}

#[test]
fn build_frame_next_frame1() {
    assert_eq!(frame_texts(&two_by_four(), 1, TransitionDirection::Next), vec!["BE", "DG"]);
}

#[test]
fn build_frame_next_frame2() {
    assert_eq!(frame_texts(&two_by_four(), 2, TransitionDirection::Next), vec!["EF", "GH"]);
}

#[test]
fn build_frame_next_way_past_clamps() {
    assert_eq!(frame_texts(&two_by_four(), 100, TransitionDirection::Next), vec!["EF", "GH"]);
}

#[test]
fn build_frame_previous_frame0() {
    assert_eq!(frame_texts(&two_by_four(), 0, TransitionDirection::Previous), vec!["EF", "GH"]);
}

#[test]
fn build_frame_previous_frame1() {
    assert_eq!(frame_texts(&two_by_four(), 1, TransitionDirection::Previous), vec!["BE", "DG"]);
}

#[test]
fn build_frame_previous_frame2() {
    assert_eq!(frame_texts(&two_by_four(), 2, TransitionDirection::Previous), vec!["AB", "CD"]);
}

#[test]
fn build_frame_previous_way_past_clamps() {
    assert_eq!(frame_texts(&two_by_four(), 100, TransitionDirection::Previous), vec!["AB", "CD"]);
}

#[test]
fn build_frame_mirrors_directions() {
    let transition = two_by_four();
    let total = transition.total_frames();
    for frame in 0..=total {
        assert_eq!(
            transition.build_frame(frame, TransitionDirection::Previous),
            transition.build_frame(total - frame, TransitionDirection::Next),
        );
    }
}

#[test]
fn build_frame_is_deterministic() {
    let transition = two_by_four();
    for direction in [TransitionDirection::Next, TransitionDirection::Previous] {
        for frame in 0..4 {
            assert_eq!(
                transition.build_frame(frame, direction),
                transition.build_frame(frame, direction),
            );
        }
    }
}

#[test]
fn viewport_wider_than_grid_shows_everything() {
    let left = build_grid(&["AB"]);
    let right = build_grid(&["CD"]);
    let transition =
        SlideHorizontalAnimation::new(left, right, WindowSize { rows: 1, columns: 9 });
    assert_eq!(frame_texts(&transition, 0, TransitionDirection::Next), vec!["ABCD"]);
    assert_eq!(frame_texts(&transition, 7, TransitionDirection::Previous), vec!["ABCD"]);
}

#[test]
fn empty_grids_give_empty_frames() {
    let left = build_grid(&[]);
    let right = build_grid(&[]);
    let transition =
        SlideHorizontalAnimation::new(left, right, WindowSize { rows: 2, columns: 2 });
    assert_eq!(transition.total_frames(), 0);
    let frame = transition.build_frame(0, TransitionDirection::Next);
    assert!(frame.lines.is_empty());
}

#[test]
fn oversized_run_is_truncated_to_remaining_slots() {
    // One row "AAB": the As are double-width cells of one style, B another.
    // With three columns the first run is four columns wide, so it is cut to
    // floor(3 / 2) = 1 character, and B never reaches the line.
    let big = TextStyle { size: 2, color: None };
    let small = TextStyle { size: 1, color: None };
    let row = vec![
        StyledChar { character: 'A', style: big },
        StyledChar { character: 'A', style: big },
        StyledChar { character: 'B', style: small },
    ];
    let left = TerminalGrid { rows: vec![row], background_color: None, images: vec![] };
    let right = build_grid(&["xyz"]);
    let transition =
        SlideHorizontalAnimation::new(left, right, WindowSize { rows: 1, columns: 3 });
    let frame = transition.build_frame(0, TransitionDirection::Next);
    assert_eq!(frame.lines.len(), 1);
    let runs = &frame.lines[0].0;
    assert_eq!(runs.len(), 1);
    assert_eq!(runs[0].content, vec!['A']);
    assert_eq!(runs[0].style, big);
}

#[test]
fn dropped_run_closes_the_line() {
    // "ABC" with B three columns wide: A fits, B overflows with no whole slot
    // left, so B is dropped and C is never considered though it would fit.
    let wide = TextStyle { size: 3, color: None };
    let small = TextStyle { size: 1, color: None };
    let row = vec![
        StyledChar { character: 'A', style: small },
        StyledChar { character: 'B', style: wide },
        StyledChar { character: 'C', style: small },
    ];
    let left = TerminalGrid { rows: vec![row], background_color: None, images: vec![] };
    let right = build_grid(&["xyz"]);
    let transition =
        SlideHorizontalAnimation::new(left, right, WindowSize { rows: 1, columns: 3 });
    let frame = transition.build_frame(0, TransitionDirection::Next);
    let texts: Vec<String> = frame.lines.iter().map(as_text).collect();
    assert_eq!(texts, vec!["A"]);
}

#[test]
fn wide_glyph_counts_two_columns() {
    // "x" and a double-column glyph fill a three-column viewport exactly; the
    // size-two run after them has no whole slot left, so it is dropped.
    let small = TextStyle { size: 1, color: None };
    let big = TextStyle { size: 2, color: None };
    let left_row = vec![
        StyledChar { character: 'x', style: small },
        StyledChar { character: '\u{4E16}', style: small },
    ];
    let right_row = vec![
        StyledChar { character: 'A', style: big },
        StyledChar { character: 'B', style: big },
    ];
    let left = TerminalGrid { rows: vec![left_row], background_color: None, images: vec![] };
    let right = TerminalGrid { rows: vec![right_row], background_color: None, images: vec![] };
    let transition =
        SlideHorizontalAnimation::new(left, right, WindowSize { rows: 1, columns: 3 });
    let frame = transition.build_frame(0, TransitionDirection::Next);
    let texts: Vec<String> = frame.lines.iter().map(as_text).collect();
    assert_eq!(texts, vec!["x\u{4E16}"]);
}

#[test]
fn mismatched_row_counts_are_rejected() {
    let left = build_grid(&["AB", "CD"]);
    let right = build_grid(&["EF"]);
    assert!(!SlideHorizontalAnimation::grids_compatible(&left, &right));
}

#[test]
fn mismatched_column_counts_are_rejected() {
    let left = build_grid(&["AB"]);
    let right = build_grid(&["EFG"]);
    assert!(!SlideHorizontalAnimation::grids_compatible(&left, &right));
}

#[test]
fn differing_backgrounds_are_rejected() {
    let left = build_grid(&["AB"]);
    let mut right = build_grid(&["CD"]);
    right.background_color = Some(Color { red: 0, green: 0, blue: 0 });
    assert!(!SlideHorizontalAnimation::grids_compatible(&left, &right));
}

#[test]
fn matching_grids_are_compatible() {
    let left = build_grid(&["AB", "CD"]);
    let right = build_grid(&["EF", "GH"]);
    assert!(SlideHorizontalAnimation::grids_compatible(&left, &right));
}
