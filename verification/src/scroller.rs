//! Scrolling a string across the panel, glyph by glyph.

use crate::frame_ascii::{all_supported, contains_key, glyph, letter_frame};
use crate::matrix::{is_square, FrameRecorder, FrameView, MatrixFrame};
use crate::transition::{
    frame_views, holds, lemma_step_advances, lemma_transition_start, pending_frame, scroll_step,
    transition_frame, transition_frames,
};
use embassy_time::Duration;
use vstd::prelude::*;

verus! {

/// Side of the panel, in cells.
pub const MATRIX_SIZE: usize = 5;

/// Number of frames between two glyphs: one per column of travel, the fully
/// arrived glyph not counted.
pub const TRANSITION_FRAMES: usize = 4;

/// Why a string could not be displayed.
#[derive(Clone, Copy, Debug, PartialEq, Eq, Structural)]
pub enum ScrollerError {
    /// The font has no glyph for this character.
    UnsupportedCharacter(char),
}

/// The way the text travels across the panel.
#[derive(Clone, Copy, Debug, PartialEq, Eq, Structural)]
pub enum ScrollDirection {
    Left,
    Right,
}

/// The character that `text[index]` follows onto the panel: the one before
/// it, or, for the first, a space.
pub open spec fn predecessor(text: Seq<char>, index: int) -> char {
    if index == 0 {
        ' '
    } else {
        text[index - 1]
    }
}

/// The frames that bring `glyph(to)` onto the panel after `glyph(from)`: the
/// transition between the two, then `glyph(to)` at rest.
pub open spec fn arrival_frames(from: char, to: char, direction: ScrollDirection) -> Seq<
    FrameView,
> {
    transition_frames(glyph(from)->0, glyph(to)->0, direction).push(glyph(to)->0)
}

/// The frames that scroll `text` across the panel, in order: for each
/// character the transition from its predecessor and then its own glyph at
/// rest. The empty text gives no frame.
pub open spec fn string_frames(text: Seq<char>, direction: ScrollDirection) -> Seq<FrameView>
    decreases text.len(),
{
    if text.len() == 0 {
        Seq::empty()
    } else {
        string_frames(text.drop_last(), direction) + arrival_frames(
            predecessor(text, text.len() - 1),
            text.last(),
            direction,
        )
    }
}

/// `c` is the first character of `text` that the font has no glyph for.
pub open spec fn is_first_unsupported(text: Seq<char>, c: char) -> bool {
    exists|i: int|
        0 <= i < text.len() && #[trigger] text[i] == c && glyph(c) is None && all_supported(
            text.take(i),
        )
}

/// A text of `k` supported characters scrolls in `k` times the panel's side
/// frames; for `k >= 1` that is the lead-in transition, then for each further
/// character one glyph at rest and one transition, then the last glyph at rest.
pub proof fn lemma_string_frames_len(text: Seq<char>, direction: ScrollDirection)
    requires
        all_supported(text),
    ensures
        string_frames(text, direction).len() == text.len() * MATRIX_SIZE,
        text.len() >= 1 ==> string_frames(text, direction).len() == (MATRIX_SIZE - 1) + (text.len()
            - 1) * (1 + (MATRIX_SIZE - 1)) + 1,
    decreases text.len(),
{
    if text.len() > 0 {
        let head = text.drop_last();
        assert(all_supported(head)) by {
            assert forall|i: int| 0 <= i < head.len() implies (#[trigger] glyph(head[i])) is Some by {
                assert(head[i] == text[i]);
            }
        }
        lemma_string_frames_len(head, direction);
        let from = predecessor(text, text.len() - 1);
        assert(glyph(from) is Some) by {
            if text.len() > 1 {
                assert(from == text[text.len() - 2]);
            }
        }
        assert(glyph(text.last()) is Some) by {
            assert(text.last() == text[text.len() - 1]);
        }
        assert(arrival_frames(from, text.last(), direction).len() == MATRIX_SIZE);
        assert(text.len() * MATRIX_SIZE == head.len() * MATRIX_SIZE + MATRIX_SIZE) by (nonlinear_arith)
            requires
                head.len() == text.len() - 1,
        ;
        assert((text.len() - 1) * (1 + (MATRIX_SIZE - 1)) == (text.len() - 1) * MATRIX_SIZE);
    }
}

/// In the frames that scroll `text`, each character's glyph stands at rest
/// right after the transition that brings it in: skip the frames of the
/// first transition, and every further `MATRIX_SIZE`-th frame is the glyph
/// of the next character of `text`.
pub proof fn lemma_string_frames_glyph_at(text: Seq<char>, direction: ScrollDirection, index: int)
    requires
        all_supported(text),
        0 <= index < text.len(),
    ensures
        (MATRIX_SIZE - 1) + index * MATRIX_SIZE < string_frames(text, direction).len(),
        string_frames(text, direction)[(MATRIX_SIZE - 1) + index * MATRIX_SIZE] == glyph(
            text[index],
        )->0,
    decreases text.len(),
{
    let head = text.drop_last();
    assert(all_supported(head)) by {
        assert forall|i: int| 0 <= i < head.len() implies (#[trigger] glyph(head[i])) is Some by {
            assert(head[i] == text[i]);
        }
    }
    lemma_string_frames_len(head, direction);
    lemma_string_frames_len(text, direction);
    let from = predecessor(text, text.len() - 1);
    assert(glyph(from) is Some) by {
        if text.len() > 1 {
            assert(from == text[text.len() - 2]);
        }
    }
    assert(glyph(text.last()) is Some) by {
        assert(text.last() == text[text.len() - 1]);
    }
    let arrival = arrival_frames(from, text.last(), direction);
    assert(arrival.len() == MATRIX_SIZE);
    assert(index * MATRIX_SIZE + MATRIX_SIZE <= text.len() * MATRIX_SIZE) by (nonlinear_arith)
        requires
            0 <= index < text.len(),
    ;
    if index == text.len() - 1 {
        assert(head.len() * MATRIX_SIZE == index * MATRIX_SIZE);
        assert(string_frames(text, direction)[(MATRIX_SIZE - 1) + index * MATRIX_SIZE]
            == arrival[MATRIX_SIZE - 1]);
    } else {
        lemma_string_frames_glyph_at(head, direction, index);
        assert(head[index] == text[index]);
    }
}

/// Every frame that scrolls `text` is one stage of the travel from the
/// glyph of a character's predecessor to the character's own glyph: the
/// frame at `index` belongs to the character at `index / MATRIX_SIZE` and is
/// stage `index % MATRIX_SIZE + 1` of its arrival, the last stage being the
/// glyph at rest. The panel is never asked for anything else.
pub proof fn lemma_string_frames_stage(text: Seq<char>, direction: ScrollDirection, index: int)
    requires
        all_supported(text),
        0 <= index < text.len() * MATRIX_SIZE,
    ensures
        string_frames(text, direction).len() == text.len() * MATRIX_SIZE,
        0 <= index / (MATRIX_SIZE as int) < text.len(),
        string_frames(text, direction)[index] == transition_frame(
            glyph(predecessor(text, index / (MATRIX_SIZE as int)))->0,
            glyph(text[index / (MATRIX_SIZE as int)])->0,
            direction,
            index % (MATRIX_SIZE as int) + 1,
        ),
    decreases text.len(),
{
    let head = text.drop_last();
    let last = text.len() - 1;
    assert(all_supported(head)) by {
        assert forall|i: int| 0 <= i < head.len() implies (#[trigger] glyph(head[i])) is Some by {
            assert(head[i] == text[i]);
        }
    }
    lemma_string_frames_len(head, direction);
    lemma_string_frames_len(text, direction);
    let from = predecessor(text, last);
    let to = text.last();
    assert(glyph(from) is Some) by {
        if text.len() > 1 {
            assert(from == text[text.len() - 2]);
        }
    }
    assert(glyph(to) is Some) by {
        assert(to == text[last]);
    }
    let arrival = arrival_frames(from, to, direction);
    assert(head.len() * MATRIX_SIZE == text.len() * MATRIX_SIZE - MATRIX_SIZE) by (nonlinear_arith)
        requires
            head.len() == text.len() - 1,
    ;
    if index >= head.len() * MATRIX_SIZE {
        let stage = index - head.len() * MATRIX_SIZE;
        assert(index == last * MATRIX_SIZE + stage);
        assert(index / (MATRIX_SIZE as int) == last && index % (MATRIX_SIZE as int) == stage) by {
            vstd::arithmetic::div_mod::lemma_fundamental_div_mod_converse(
                index,
                MATRIX_SIZE as int,
                last,
                stage,
            );
        }
        assert(string_frames(text, direction)[index] == arrival[stage]);
        if stage == MATRIX_SIZE - 1 {
            crate::frame_ascii::lemma_glyph_is_square(from);
            crate::frame_ascii::lemma_glyph_is_square(to);
            crate::transition::lemma_transition_end(glyph(from)->0, glyph(to)->0, direction);
        }
    } else {
        lemma_string_frames_stage(head, direction, index);
        let owner = index / (MATRIX_SIZE as int);
        assert(head[owner] == text[owner]);
        assert(predecessor(head, owner) == predecessor(text, owner)) by {
            if owner > 0 {
                assert(head[owner - 1] == text[owner - 1]);
            }
        }
    }
}

/// A scrolling session on a panel, which it holds for as long as it lives.
pub struct Scroller<'a> {
    /// The panel that this session writes to.
    pub matrix: &'a mut FrameRecorder<MATRIX_SIZE>,
}

impl<'a> Scroller<'a> {
    /// Starts a session on `matrix`.
    pub fn new(matrix: &'a mut FrameRecorder<MATRIX_SIZE>) -> (scroller: Self)
        ensures
            *scroller.matrix == *old(matrix),
            *final(scroller.matrix) == *final(matrix),
    {
        Scroller { matrix }
    }

    /// The frames to show between `frames[0]` and `frames[1]`, in order: one
    /// per column of travel, the fully arrived `frames[1]` left out.
    pub fn generate_transition_frames(
        &mut self,
        frames: &[MatrixFrame<MATRIX_SIZE>; 2],
        direction: ScrollDirection,
    ) -> (transition: [MatrixFrame<MATRIX_SIZE>; TRANSITION_FRAMES])
        ensures
            *final(self) == *old(self),
            transition@.len() == MATRIX_SIZE - 1,
            frame_views(transition@) == transition_frames(frames[0]@, frames[1]@, direction),
    {
        broadcast use vstd::array::group_array_axioms;

        let mut current_frame = frames[0];
        let mut new_frame = frames[1];
        let ghost from = frames[0]@;
        let ghost to = frames[1]@;
        proof {
            frames[0].lemma_view();
            frames[1].lemma_view();
            lemma_transition_start(from, to, direction);
        }
        let mut transition: [MatrixFrame<MATRIX_SIZE>; TRANSITION_FRAMES] = [MatrixFrame::default();
            TRANSITION_FRAMES];
        let mut i: usize = 0;
        while i < TRANSITION_FRAMES
            invariant
                i <= TRANSITION_FRAMES,
                is_square(from, MATRIX_SIZE as nat),
                is_square(to, MATRIX_SIZE as nat),
                current_frame@ == transition_frame(from, to, direction, i as int),
                new_frame@ == pending_frame(to, direction, i as int),
                forall|j: int|
                    0 <= j < i ==> (#[trigger] transition@[j])@ == transition_frame(
                        from,
                        to,
                        direction,
                        j + 1,
                    ),
            decreases TRANSITION_FRAMES - i,
        {
            scroll_step(&mut current_frame, &mut new_frame, direction);
            proof {
                lemma_step_advances(from, to, direction, i as int, current_frame@, new_frame@);
            }
            transition[i] = current_frame;
            i += 1;
        }
        assert(frame_views(transition@) =~= transition_frames(from, to, direction));
        transition
    }

    /// Asks the panel to hold each of `frames` for `frame_time`, in order.
    fn hold_transition(
        &mut self,
        frames: &[MatrixFrame<MATRIX_SIZE>; TRANSITION_FRAMES],
        frame_time: Duration,
    )
        ensures
            *final(final(self).matrix) == *final(old(self).matrix),
            final(self).matrix@ == old(self).matrix@ + holds(frame_views(frames@), frame_time),
    {
        broadcast use vstd::array::group_array_axioms;

        let mut i: usize = 0;
        while i < TRANSITION_FRAMES
            invariant
                i <= TRANSITION_FRAMES,
                *final(self.matrix) == *final(old(self).matrix),
                self.matrix@ == old(self).matrix@ + holds(
                    frame_views(frames@).take(i as int),
                    frame_time,
                ),
            decreases TRANSITION_FRAMES - i,
        {
            self.matrix.display_frame_for_duration(&frames[i], frame_time);
            assert(self.matrix@ =~= old(self).matrix@ + holds(
                frame_views(frames@).take(i + 1),
                frame_time,
            ));
            i += 1;
        }
        assert(frame_views(frames@).take(TRANSITION_FRAMES as int) =~= frame_views(frames@));
    }

    /// Scrolls `string` across the panel in `direction`, each frame held for
    /// `frame_time`.
    ///
    /// Every character is looked up before anything is shown. Where one has
    /// no glyph, the first such character is reported and the panel is asked
    /// for nothing. Otherwise the panel is asked, in order, for the frames of
    /// [`string_frames`]: the first glyph sliding in after a blank, then each
    /// glyph at rest followed by its transition to the next, then the last
    /// glyph at rest. The empty string succeeds and shows nothing. Either
    /// way the session goes on writing to the same panel.
    pub fn display_string(
        &mut self,
        string: &str,
        direction: ScrollDirection,
        frame_time: Duration,
    ) -> (result: Result<(), ScrollerError>)
        ensures
            *final(final(self).matrix) == *final(old(self).matrix),
            match result {
                Ok(()) => {
                    &&& all_supported(string@)
                    &&& final(self).matrix@ == old(self).matrix@ + holds(
                        string_frames(string@, direction),
                        frame_time,
                    )
                },
                Err(ScrollerError::UnsupportedCharacter(c)) => {
                    &&& is_first_unsupported(string@, c)
                    &&& final(self).matrix@ == old(self).matrix@
                },
            },
    {
        let ghost text = string@;
        let len: usize = string.unicode_len();
        let mut checked: usize = 0;
        while checked < len
            invariant
                checked <= len,
                len == text.len(),
                text == string@,
                all_supported(text.take(checked as int)),
            decreases len - checked,
        {
            let c = string.get_char(checked);
            if !contains_key(c) {
                assert(text[checked as int] == c);
                return Err(ScrollerError::UnsupportedCharacter(c));
            }
            assert(all_supported(text.take(checked + 1))) by {
                assert forall|i: int| 0 <= i < checked + 1 implies (#[trigger] glyph(
                    text.take(checked + 1)[i],
                )) is Some by {
                    if i < checked {
                        assert(text.take(checked as int)[i] == text[i]);
                    }
                }
            }
            checked += 1;
        }
        assert(text.take(len as int) =~= text);
        if len == 0 {
            assert(self.matrix@ =~= old(self).matrix@ + holds(
                string_frames(text, direction),
                frame_time,
            ));
            return Ok(());
        }
        assert(glyph(text[0]) is Some);
        let blank = letter_frame(' ').unwrap();
        let first = letter_frame(string.get_char(0)).unwrap();
        let initial_frames = self.generate_transition_frames(&[blank, first], direction);
        self.hold_transition(&initial_frames, frame_time);
        proof {
            assert(text.take(1).drop_last() =~= Seq::<char>::empty());
            assert(string_frames(text.take(1).drop_last(), direction) =~= Seq::<
                FrameView,
            >::empty());
            assert(text.take(1).last() == text[0]);
            assert(predecessor(text.take(1), 0) == ' ');
            assert(string_frames(text.take(1), direction) =~= arrival_frames(
                ' ',
                text[0],
                direction,
            ));
            assert(string_frames(text.take(1), direction).drop_last() =~= transition_frames(
                glyph(' ')->0,
                glyph(text[0])->0,
                direction,
            ));
        }
        let mut shown: usize = 0;
        while shown + 1 < len
            invariant
                0 < len,
                shown < len,
                len == text.len(),
                text == string@,
                all_supported(text),
                *final(self.matrix) == *final(old(self).matrix),
                self.matrix@ == old(self).matrix@ + holds(
                    string_frames(text.take(shown + 1), direction).drop_last(),
                    frame_time,
                ),
            decreases len - shown,
        {
            assert(glyph(text[shown as int]) is Some);
            assert(glyph(text[shown + 1]) is Some);
            let current = letter_frame(string.get_char(shown)).unwrap();
            let next = letter_frame(string.get_char(shown + 1)).unwrap();
            self.matrix.display_frame_for_duration(&current, frame_time);
            let trans_frames = self.generate_transition_frames(&[current, next], direction);
            self.hold_transition(&trans_frames, frame_time);
            proof {
                let so_far = string_frames(text.take(shown + 1), direction);
                let further = string_frames(text.take(shown + 2), direction);
                let between = transition_frames(current@, next@, direction);
                assert(text.take(shown + 1).last() == text[shown as int]);
                assert(so_far.last() == current@);
                assert(so_far =~= so_far.drop_last().push(current@));
                assert(text.take(shown + 2).drop_last() =~= text.take(shown + 1));
                assert(text.take(shown + 2).last() == text[shown + 1]);
                assert(predecessor(text.take(shown + 2), shown + 1) == text[shown as int]);
                assert(further =~= so_far + between.push(next@));
                assert(further.drop_last() =~= so_far + between);
                assert(self.matrix@ =~= old(self).matrix@ + holds(further.drop_last(), frame_time));
            }
            shown += 1;
        }
        assert(glyph(text[len - 1]) is Some);
        let last_char_frame = letter_frame(string.get_char(len - 1)).unwrap();
        self.matrix.display_frame_for_duration(&last_char_frame, frame_time);
        proof {
            let all = string_frames(text, direction);
            assert(text.take(len as int) =~= text);
            assert(text.last() == text[len - 1]);
            assert(all.last() == last_char_frame@);
            assert(all =~= all.drop_last().push(last_char_frame@));
            assert(self.matrix@ =~= old(self).matrix@ + holds(all, frame_time));
        }
        Ok(())
    }
}

} // verus!
