use common_lib::frame_ascii::letter_frame;
use common_lib::matrix::MatrixCell::{Lit, Off};
use common_lib::matrix::{FrameRecorder, MatrixFrame};
use common_lib::scroller::{
    ScrollDirection, Scroller, ScrollerError, MATRIX_SIZE, TRANSITION_FRAMES,
};
use common_lib::transition::scroll_frames;
use embassy_time::Duration;

fn glyph(c: char) -> MatrixFrame<MATRIX_SIZE> {
    letter_frame(c).unwrap()
}

fn a_to_b_leftwards() -> [MatrixFrame<MATRIX_SIZE>; 4] {
    [
        MatrixFrame([
            [Off, Lit, Off, Off, Off],
            [Lit, Off, Lit, Off, Off],
            [Lit, Lit, Lit, Off, Off],
            [Lit, Off, Lit, Off, Off],
            [Lit, Off, Lit, Off, Off],
        ]),
        MatrixFrame([
            [Lit, Off, Off, Off, Lit],
            [Off, Lit, Off, Off, Lit],
            [Lit, Lit, Off, Off, Lit],
            [Off, Lit, Off, Off, Lit],
            [Off, Lit, Off, Off, Lit],
        ]),
        MatrixFrame([
            [Off, Off, Off, Lit, Lit],
            [Lit, Off, Off, Lit, Off],
            [Lit, Off, Off, Lit, Lit],
            [Lit, Off, Off, Lit, Off],
            [Lit, Off, Off, Lit, Lit],
        ]),
        MatrixFrame([
            [Off, Off, Lit, Lit, Off],
            [Off, Off, Lit, Off, Lit],
            [Off, Off, Lit, Lit, Off],
            [Off, Off, Lit, Off, Lit],
            [Off, Off, Lit, Lit, Off],
        ]),
    ]
}

#[test]
fn test_scroll_frames_left() {
    let mut matrix = FrameRecorder::new();
    let frames = [glyph('A'), glyph('B')];

    let mut scroller = Scroller::new(&mut matrix);

    let outputted_frames = scroller.generate_transition_frames(&frames, ScrollDirection::Left);

    let expected_frames = a_to_b_leftwards();

    assert_eq!(outputted_frames, expected_frames);
}

#[test]
fn test_scroll_frames_right() {
    let mut matrix = FrameRecorder::new();
    let frames = [glyph('B'), glyph('A')];
    let mut scroller = Scroller::new(&mut matrix);
    let outputted_frames = scroller.generate_transition_frames(&frames, ScrollDirection::Right);

    let expected_frames = [
        MatrixFrame([
            [Off, Off, Lit, Lit, Off],
            [Off, Off, Lit, Off, Lit],
            [Off, Off, Lit, Lit, Off],
            [Off, Off, Lit, Off, Lit],
            [Off, Off, Lit, Lit, Off],
        ]),
        MatrixFrame([
            [Off, Off, Off, Lit, Lit],
            [Lit, Off, Off, Lit, Off],
            [Lit, Off, Off, Lit, Lit],
            [Lit, Off, Off, Lit, Off],
            [Lit, Off, Off, Lit, Lit],
        ]),
        MatrixFrame([
            [Lit, Off, Off, Off, Lit],
            [Off, Lit, Off, Off, Lit],
            [Lit, Lit, Off, Off, Lit],
            [Off, Lit, Off, Off, Lit],
            [Off, Lit, Off, Off, Lit],
        ]),
        MatrixFrame([
            [Off, Lit, Off, Off, Off],
            [Lit, Off, Lit, Off, Off],
            [Lit, Lit, Lit, Off, Off],
            [Lit, Off, Lit, Off, Off],
            [Lit, Off, Lit, Off, Off],
        ]),
    ];

    assert_eq!(outputted_frames, expected_frames);
}

#[test]
fn test_display_string() {
    let mut matrix = FrameRecorder::new();
    let frame_time = Duration::from_millis(0);
    let test_string = "TEST";

    let mut scroller = Scroller::new(&mut matrix);
    scroller
        .display_string(&test_string, ScrollDirection::Right, frame_time)
        .unwrap();

    let initial_transitions = 4;
    let outputted_char_frames = matrix
        .holds
        .iter()
        .skip(initial_transitions)
        .enumerate()
        .filter(|(i, _)| i % MATRIX_SIZE == 0)
        .map(|(_, h)| h.frame)
        .collect::<Vec<MatrixFrame<MATRIX_SIZE>>>();

    let expected_char_frames = test_string
        .as_bytes()
        .iter()
        .filter_map(|&c| letter_frame(c as char))
        .collect::<Vec<MatrixFrame<MATRIX_SIZE>>>();

    assert_eq!(outputted_char_frames, expected_char_frames);
}

#[test]
fn test_display_string_error() {
    let mut matrix = FrameRecorder::new();
    let frame_time = Duration::from_millis(0);
    let test_string = "@";

    let mut scroller = Scroller::new(&mut matrix);
    let err = scroller
        .display_string(&test_string, ScrollDirection::Right, frame_time)
        .unwrap_err();

    assert_eq!(err, ScrollerError::UnsupportedCharacter('@'));
    assert!(matrix.holds.is_empty());
}

#[test]
fn transition_has_one_frame_less_than_the_panel_has_columns() {
    let mut matrix = FrameRecorder::new();
    let mut scroller = Scroller::new(&mut matrix);
    for direction in [ScrollDirection::Left, ScrollDirection::Right] {
        let frames = scroller.generate_transition_frames(&[glyph('M'), glyph('W')], direction);
        assert_eq!(frames.len(), MATRIX_SIZE - 1);
        assert_eq!(frames.len(), TRANSITION_FRAMES);
    }
    assert!(matrix.is_empty());
}

#[test]
fn first_left_frame_is_a_shifted_with_column_of_b() {
    let mut matrix = FrameRecorder::new();
    let mut scroller = Scroller::new(&mut matrix);
    let frames = scroller.generate_transition_frames(&[glyph('A'), glyph('B')], ScrollDirection::Left);
    assert_eq!(frames[0].0[0], [Off, Lit, Off, Off, Off]);
    let a = glyph('A');
    let b = glyph('B');
    for row in 0..MATRIX_SIZE {
        for col in 0..MATRIX_SIZE - 1 {
            assert_eq!(frames[0].0[row][col], a.0[row][col + 1]);
        }
        assert_eq!(frames[0].0[row][MATRIX_SIZE - 1], b.0[row][0]);
    }
}

#[test]
fn left_transition_reversed_is_right_transition_of_swapped_pair() {
    let mut matrix = FrameRecorder::new();
    let mut scroller = Scroller::new(&mut matrix);
    let letters = ['A', 'B', 'M', 'Q', ' ', 'Z'];
    for &x in letters.iter() {
        for &y in letters.iter() {
            let left = scroller.generate_transition_frames(&[glyph(x), glyph(y)], ScrollDirection::Left);
            let mut right =
                scroller.generate_transition_frames(&[glyph(y), glyph(x)], ScrollDirection::Right);
            right.reverse();
            assert_eq!(left, right);
        }
    }
}

#[test]
fn display_string_holds_every_frame_for_the_given_time() {
    let mut matrix = FrameRecorder::new();
    let frame_time = Duration::from_millis(300);
    let mut scroller = Scroller::new(&mut matrix);
    scroller
        .display_string("AB", ScrollDirection::Left, frame_time)
        .unwrap();
    assert_eq!(matrix.len(), 10);
    for i in 0..matrix.len() {
        assert_eq!(matrix.duration(i), frame_time);
    }
    let blank = glyph(' ');
    let lead_in = {
        let mut other = FrameRecorder::new();
        let mut s = Scroller::new(&mut other);
        s.generate_transition_frames(&[blank, glyph('A')], ScrollDirection::Left)
    };
    for i in 0..4 {
        assert_eq!(matrix.frame(i), lead_in[i]);
    }
    assert_eq!(matrix.frame(4), glyph('A'));
    let between = a_to_b_leftwards();
    for i in 0..4 {
        assert_eq!(matrix.frame(5 + i), between[i]);
    }
    assert_eq!(matrix.frame(9), glyph('B'));
}

#[test]
fn display_string_frame_count_follows_the_formula() {
    for (text, k) in [("A", 1usize), ("AB", 2), ("HELLO WORLD", 11)] {
        let mut matrix = FrameRecorder::new();
        let mut scroller = Scroller::new(&mut matrix);
        scroller
            .display_string(text, ScrollDirection::Left, Duration::from_millis(0))
            .unwrap();
        let n = MATRIX_SIZE;
        assert_eq!(matrix.len(), (n - 1) + (k - 1) * (1 + (n - 1)) + 1);
    }
}

#[test]
fn one_character_slides_in_and_rests() {
    let mut matrix = FrameRecorder::new();
    let mut scroller = Scroller::new(&mut matrix);
    scroller
        .display_string("T", ScrollDirection::Right, Duration::from_millis(0))
        .unwrap();
    assert_eq!(matrix.len(), 5);
    assert_eq!(matrix.frame(4), glyph('T'));
}

#[test]
fn empty_string_shows_nothing() {
    let mut matrix = FrameRecorder::new();
    let mut scroller = Scroller::new(&mut matrix);
    let result = scroller.display_string("", ScrollDirection::Left, Duration::from_millis(10));
    assert_eq!(result, Ok(()));
    assert!(matrix.is_empty());
}

#[test]
fn first_unsupported_character_is_reported_and_nothing_shown() {
    let mut matrix = FrameRecorder::new();
    matrix.display_frame_for_duration(&glyph('X'), Duration::from_millis(1));
    let mut scroller = Scroller::new(&mut matrix);
    let result = scroller.display_string("AB?C@", ScrollDirection::Left, Duration::from_millis(10));
    assert_eq!(result, Err(ScrollerError::UnsupportedCharacter('?')));
    let result = scroller.display_string("hello", ScrollDirection::Left, Duration::from_millis(10));
    assert_eq!(result, Err(ScrollerError::UnsupportedCharacter('h')));
    assert_eq!(matrix.len(), 1);
    assert_eq!(matrix.frame(0), glyph('X'));
}

#[test]
fn scroll_frames_goes_from_first_to_second_in_half_second_holds() {
    let mut matrix = FrameRecorder::new();
    scroll_frames(&[glyph('A'), glyph('B')], &mut matrix, ScrollDirection::Left);
    assert_eq!(matrix.len(), MATRIX_SIZE + 1);
    assert_eq!(matrix.frame(0), glyph('A'));
    let between = a_to_b_leftwards();
    for i in 0..4 {
        assert_eq!(matrix.frame(1 + i), between[i]);
    }
    assert_eq!(matrix.frame(5), glyph('B'));
    for i in 0..matrix.len() {
        assert_eq!(matrix.duration(i), Duration::from_millis(500));
    }
}
