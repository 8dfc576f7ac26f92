use common_lib::frame_ascii::{contains_key, letter_frame};
use common_lib::matrix::MatrixCell::{Lit, Off};
use common_lib::matrix::{
    display_animation, display_frame, get_cycle_rate, Animation, FrameHold, FrameRecorder,
    HoldAction, MatrixFrame, PinAction,
};
use embassy_time::Duration;

#[test]
fn test_display_frame_1x1_all_lit() {
    let frame = MatrixFrame([[Lit]]);
    assert_eq!(
        display_frame(&frame),
        vec![
            PinAction::RowHigh(0),
            PinAction::ColumnLow(0),
            PinAction::Wait,
            PinAction::ColumnHigh(0),
            PinAction::RowLow(0),
        ]
    );
}

#[test]
fn test_display_frame_1x1_all_off() {
    let frame = MatrixFrame([[Off]]);
    let actions = display_frame(&frame);
    assert_eq!(
        actions,
        vec![
            PinAction::RowHigh(0),
            PinAction::Wait,
            PinAction::ColumnHigh(0),
            PinAction::RowLow(0),
        ]
    );
    let waits = actions.iter().filter(|a| **a == PinAction::Wait).count();
    assert_eq!(waits, 1);
}

#[test]
fn test_display_frame_2x2_all_lit() {
    let frame = MatrixFrame([[Lit, Lit], [Lit, Lit]]);
    let actions = display_frame(&frame);
    assert_eq!(
        actions,
        vec![
            PinAction::RowHigh(0),
            PinAction::ColumnLow(0),
            PinAction::ColumnLow(1),
            PinAction::Wait,
            PinAction::ColumnHigh(0),
            PinAction::ColumnHigh(1),
            PinAction::RowLow(0),
            PinAction::RowHigh(1),
            PinAction::ColumnLow(0),
            PinAction::ColumnLow(1),
            PinAction::Wait,
            PinAction::ColumnHigh(0),
            PinAction::ColumnHigh(1),
            PinAction::RowLow(1),
        ]
    );
    let waits = actions.iter().filter(|a| **a == PinAction::Wait).count();
    assert_eq!(waits, 2);
}

#[test]
fn test_display_frame_2x2_diagonal() {
    let frame = MatrixFrame([[Lit, Off], [Off, Lit]]);
    assert_eq!(
        display_frame(&frame),
        vec![
            PinAction::RowHigh(0),
            PinAction::ColumnLow(0),
            PinAction::Wait,
            PinAction::ColumnHigh(0),
            PinAction::ColumnHigh(1),
            PinAction::RowLow(0),
            PinAction::RowHigh(1),
            PinAction::ColumnLow(1),
            PinAction::Wait,
            PinAction::ColumnHigh(0),
            PinAction::ColumnHigh(1),
            PinAction::RowLow(1),
        ]
    );
}

#[test]
fn test_display_frame_for_duration() {
    let duration = Duration::from_millis(50).as_ticks();
    let start = 1_000u64;
    let mut hold = FrameHold::new(duration);
    let mut scans = 0;
    let mut now = start;
    loop {
        match hold.next(now) {
            HoldAction::Scan => scans += 1,
            HoldAction::Refresh => {
                now += Duration::from_millis(1).as_ticks();
                scans += 1;
            }
            HoldAction::Done => break,
        }
    }
    assert!(now - start >= duration);
    assert!(now - start <= duration + Duration::from_millis(1).as_ticks());
    assert_eq!(scans, 51);
    assert_eq!(hold, FrameHold::Finished);
}

#[test]
fn zero_hold_still_scans_once() {
    for now in [0u64, 7, u64::MAX] {
        let mut hold = FrameHold::new(0);
        assert_eq!(hold.next(now), HoldAction::Scan);
        assert_eq!(hold, FrameHold::Running { end_time: now });
        assert_eq!(hold.next(now), HoldAction::Done);
        assert_eq!(hold.next(now), HoldAction::Done);
    }
}

#[test]
fn hold_refreshes_until_the_clock_reaches_its_end() {
    let mut hold = FrameHold::new(10);
    assert_eq!(hold.next(100), HoldAction::Scan);
    assert_eq!(hold.next(100), HoldAction::Refresh);
    assert_eq!(hold.next(109), HoldAction::Refresh);
    assert_eq!(hold.next(110), HoldAction::Done);
}

#[test]
fn cycle_rate_is_a_sixtieth_of_a_second_shared_by_the_rows() {
    assert_eq!(get_cycle_rate::<5>(), Duration::from_millis(3));
    assert_eq!(get_cycle_rate::<1>(), Duration::from_millis(16));
    assert_eq!(get_cycle_rate::<2>(), Duration::from_millis(8));
    assert_eq!(get_cycle_rate::<17>(), Duration::from_millis(0));
}

#[test]
fn default_frame_is_all_off() {
    let frame: MatrixFrame<5> = Default::default();
    assert_eq!(frame, MatrixFrame([[Off; 5]; 5]));
    for row in 0..5 {
        for col in 0..5 {
            assert_eq!(frame.get(row, col), Off);
        }
    }
    let empty: MatrixFrame<0> = Default::default();
    assert!(display_frame(&empty).is_empty());
}

#[test]
fn glyphs_of_a_and_b() {
    assert_eq!(
        letter_frame('A'),
        Some(MatrixFrame([
            [Off, Off, Lit, Off, Off],
            [Off, Lit, Off, Lit, Off],
            [Off, Lit, Lit, Lit, Off],
            [Off, Lit, Off, Lit, Off],
            [Off, Lit, Off, Lit, Off],
        ]))
    );
    assert_eq!(
        letter_frame('B'),
        Some(MatrixFrame([
            [Off, Lit, Lit, Off, Off],
            [Off, Lit, Off, Lit, Off],
            [Off, Lit, Lit, Off, Off],
            [Off, Lit, Off, Lit, Off],
            [Off, Lit, Lit, Off, Off],
        ]))
    );
}

#[test]
fn font_has_capitals_and_space_only() {
    for c in 'A'..='Z' {
        assert!(contains_key(c));
        assert!(letter_frame(c).is_some());
    }
    assert!(contains_key(' '));
    assert_eq!(letter_frame(' '), Some(MatrixFrame::default()));
    for c in ['@', 'a', 'z', '0', '[', '\n', 'é'] {
        assert!(!contains_key(c));
        assert_eq!(letter_frame(c), None);
    }
}

#[test]
fn glyphs_of_distinct_letters_differ() {
    let letters: Vec<char> = ('A'..='Z').collect();
    for (i, &x) in letters.iter().enumerate() {
        for &y in letters.iter().skip(i + 1) {
            assert_ne!(letter_frame(x), letter_frame(y));
        }
    }
}

#[test]
fn animation_stops_at_its_first_empty_entry() {
    let a = letter_frame('A').unwrap();
    let b = letter_frame('B').unwrap();
    let c = letter_frame('C').unwrap();
    let short = Duration::from_millis(10);
    let long = Duration::from_millis(20);
    let mut entries = [None; 10];
    entries[0] = Some((a, short));
    entries[1] = Some((b, long));
    entries[3] = Some((c, long));
    let mut matrix = FrameRecorder::new();
    display_animation(&Animation(entries), &mut matrix);
    assert_eq!(matrix.len(), 2);
    assert_eq!(matrix.frame(0), a);
    assert_eq!(matrix.duration(0), short);
    assert_eq!(matrix.frame(1), b);
    assert_eq!(matrix.duration(1), long);

    let full = [Some((c, short)); 10];
    let mut matrix = FrameRecorder::new();
    display_animation(&Animation(full), &mut matrix);
    assert_eq!(matrix.len(), 10);
}
