//! The travel of one frame out of the panel and of the next one into it.

use crate::matrix::{
    duration_of_millis, is_square, FrameRecorder, FrameView, MatrixCell, MatrixFrame,
};
use crate::scroller::ScrollDirection;
use embassy_time::Duration;
use vstd::prelude::*;

verus! {

/// A request to hold each of `frames` for `duration`, in order.
pub open spec fn holds(frames: Seq<FrameView>, duration: Duration) -> Seq<(FrameView, Duration)> {
    Seq::new(frames.len(), |i: int| (frames[i], duration))
}

/// The cell at (`row`, `col`) once `from` has travelled `step` columns out of
/// a panel of side `size` and `to` has followed it in by as many.
pub open spec fn transition_cell(
    from: FrameView,
    to: FrameView,
    direction: ScrollDirection,
    size: int,
    step: int,
    row: int,
    col: int,
) -> MatrixCell {
    match direction {
        ScrollDirection::Left => if col + step < size {
            from[row][col + step]
        } else {
            to[row][col + step - size]
        },
        ScrollDirection::Right => if col >= step {
            from[row][col - step]
        } else {
            to[row][size - step + col]
        },
    }
}

/// The panel after `step` columns of travel from `from` towards `to`:
/// step 0 is `from`, and the step equal to the panel's side is `to`.
pub open spec fn transition_frame(
    from: FrameView,
    to: FrameView,
    direction: ScrollDirection,
    step: int,
) -> FrameView {
    Seq::new(
        from.len(),
        |row: int|
            Seq::new(
                from.len(),
                |col: int| transition_cell(from, to, direction, from.len() as int, step, row, col),
            ),
    )
}

/// Number of frames between two glyphs on a panel of side `size`: one per
/// column of travel, the fully arrived glyph not counted.
pub open spec fn transition_count(size: nat) -> nat {
    if size == 0 {
        0
    } else {
        (size - 1) as nat
    }
}

/// The frames shown between `from` and `to`: steps 1 to N - 1 for a panel of
/// side N. Neither `from` nor the fully arrived `to` is among them.
pub open spec fn transition_frames(
    from: FrameView,
    to: FrameView,
    direction: ScrollDirection,
) -> Seq<FrameView> {
    Seq::new(
        transition_count(from.len()),
        |i: int| transition_frame(from, to, direction, i + 1),
    )
}

/// Between two frames of a panel of side N there are exactly N - 1 transition
/// frames, whichever way the text travels.
pub proof fn lemma_transition_frames_len<const SIZE: usize>(
    from: MatrixFrame<SIZE>,
    to: MatrixFrame<SIZE>,
    direction: ScrollDirection,
)
    requires
        SIZE >= 1,
    ensures
        transition_frames(from@, to@, direction).len() == SIZE - 1,
{
}

/// What is left of `to` to enter the panel after `step` columns of travel:
/// `to` moved by `step` columns, the vacated cells off.
pub open spec fn pending_frame(to: FrameView, direction: ScrollDirection, step: int) -> FrameView {
    Seq::new(
        to.len(),
        |row: int|
            Seq::new(
                to.len(),
                |col: int|
                    match direction {
                        ScrollDirection::Left => if col + step < to.len() {
                            to[row][col + step]
                        } else {
                            MatrixCell::Off
                        },
                        ScrollDirection::Right => if col >= step {
                            to[row][col - step]
                        } else {
                            MatrixCell::Off
                        },
                    },
            ),
    )
}

/// One column of travel for one row of the composite: the row rotated by one
/// position, the cell that wrapped round replaced by the next cell of
/// `incoming` due to enter.
pub open spec fn shift_in(
    current: Seq<MatrixCell>,
    incoming: Seq<MatrixCell>,
    direction: ScrollDirection,
) -> Seq<MatrixCell> {
    match direction {
        ScrollDirection::Left => current.drop_first().push(incoming.first()),
        ScrollDirection::Right => seq![incoming.last()] + current.drop_last(),
    }
}

/// One column of travel for one row of the entering frame: the row rotated
/// by one position, the cell that wrapped round turned off.
pub open spec fn shift_out(incoming: Seq<MatrixCell>, direction: ScrollDirection) -> Seq<
    MatrixCell,
> {
    match direction {
        ScrollDirection::Left => incoming.drop_first().push(MatrixCell::Off),
        ScrollDirection::Right => seq![MatrixCell::Off] + incoming.drop_last(),
    }
}

/// Before any travel the panel shows `from`, and all of `to` is still due.
pub proof fn lemma_transition_start(from: FrameView, to: FrameView, direction: ScrollDirection)
    requires
        is_square(from, from.len()),
        is_square(to, from.len()),
    ensures
        transition_frame(from, to, direction, 0) == from,
        pending_frame(to, direction, 0) == to,
{
    let n = from.len();
    assert forall|row: int| 0 <= row < n implies transition_frame(from, to, direction, 0)[row]
        == from[row] by {
        assert(transition_frame(from, to, direction, 0)[row] =~= from[row]);
    }
    assert(transition_frame(from, to, direction, 0) =~= from);
    assert forall|row: int| 0 <= row < n implies pending_frame(to, direction, 0)[row]
        == to[row] by {
        assert(pending_frame(to, direction, 0)[row] =~= to[row]);
    }
    assert(pending_frame(to, direction, 0) =~= to);
}

/// After as many columns of travel as the panel is wide, it shows `to`.
pub proof fn lemma_transition_end(from: FrameView, to: FrameView, direction: ScrollDirection)
    requires
        is_square(from, from.len()),
        is_square(to, from.len()),
    ensures
        transition_frame(from, to, direction, from.len() as int) == to,
{
    let n = from.len();
    assert forall|row: int| 0 <= row < n implies transition_frame(
        from,
        to,
        direction,
        n as int,
    )[row] == to[row] by {
        assert(transition_frame(from, to, direction, n as int)[row] =~= to[row]);
    }
    assert(transition_frame(from, to, direction, n as int) =~= to);
}

/// Rotating each row by one position and filling the vacated cell from the
/// entering frame advances the composite by one step.
pub proof fn lemma_transition_step(
    from: FrameView,
    to: FrameView,
    direction: ScrollDirection,
    step: int,
    row: int,
)
    requires
        is_square(from, from.len()),
        is_square(to, from.len()),
        0 <= step < from.len(),
        0 <= row < from.len(),
    ensures
        shift_in(
            transition_frame(from, to, direction, step)[row],
            pending_frame(to, direction, step)[row],
            direction,
        ) == transition_frame(from, to, direction, step + 1)[row],
        shift_out(pending_frame(to, direction, step)[row], direction) == pending_frame(
            to,
            direction,
            step + 1,
        )[row],
{
    let current = transition_frame(from, to, direction, step)[row];
    let incoming = pending_frame(to, direction, step)[row];
    assert(shift_in(current, incoming, direction) =~= transition_frame(
        from,
        to,
        direction,
        step + 1,
    )[row]);
    assert(shift_out(incoming, direction) =~= pending_frame(to, direction, step + 1)[row]);
}

/// A composite and an entering frame that were moved one column on from
/// stage `step` of the travel are at stage `step + 1`.
pub proof fn lemma_step_advances(
    from: FrameView,
    to: FrameView,
    direction: ScrollDirection,
    step: int,
    current: FrameView,
    incoming: FrameView,
)
    requires
        is_square(from, from.len()),
        is_square(to, from.len()),
        is_square(current, from.len()),
        is_square(incoming, from.len()),
        0 <= step < from.len(),
        forall|row: int|
            0 <= row < from.len() ==> #[trigger] current[row] == shift_in(
                transition_frame(from, to, direction, step)[row],
                pending_frame(to, direction, step)[row],
                direction,
            ),
        forall|row: int|
            0 <= row < from.len() ==> #[trigger] incoming[row] == shift_out(
                pending_frame(to, direction, step)[row],
                direction,
            ),
    ensures
        current == transition_frame(from, to, direction, step + 1),
        incoming == pending_frame(to, direction, step + 1),
{
    assert forall|row: int| 0 <= row < from.len() implies current[row] == transition_frame(
        from,
        to,
        direction,
        step + 1,
    )[row] && incoming[row] == pending_frame(to, direction, step + 1)[row] by {
        lemma_transition_step(from, to, direction, step, row);
    }
    assert(current =~= transition_frame(from, to, direction, step + 1));
    assert(incoming =~= pending_frame(to, direction, step + 1));
}

/// A leftward transition from `a` to `b`, read backwards, is the rightward
/// transition from `b` to `a`, cell for cell.
pub proof fn lemma_transition_symmetry<const SIZE: usize>(
    a: MatrixFrame<SIZE>,
    b: MatrixFrame<SIZE>,
)
    ensures
        transition_frames(a@, b@, ScrollDirection::Left) == transition_frames(
            b@,
            a@,
            ScrollDirection::Right,
        ).reverse(),
{
    a.lemma_view();
    b.lemma_view();
    lemma_transition_symmetry_of_grids(a@, b@);
}

/// The same of any two square grids of one size.
pub proof fn lemma_transition_symmetry_of_grids(a: FrameView, b: FrameView)
    requires
        is_square(a, a.len()),
        is_square(b, a.len()),
    ensures
        transition_frames(a, b, ScrollDirection::Left) == transition_frames(
            b,
            a,
            ScrollDirection::Right,
        ).reverse(),
{
    let n = a.len() as int;
    let left = transition_frames(a, b, ScrollDirection::Left);
    let right = transition_frames(b, a, ScrollDirection::Right);
    let backwards = right.reverse();
    assert(left.len() == right.len());
    assert(backwards.len() == right.len());
    assert forall|i: int| 0 <= i < left.len() implies left[i] == backwards[i] by {
        assert(backwards[i] == right[n - 2 - i]);
        let l = left[i];
        let r = right[n - 2 - i];
        assert forall|row: int| 0 <= row < n implies l[row] == r[row] by {
            assert(l[row] =~= r[row]);
        }
        assert(l =~= r);
    }
    assert(left =~= backwards);
}

/// The views of a run of frames, in order.
pub open spec fn frame_views<const SIZE: usize>(frames: Seq<MatrixFrame<SIZE>>) -> Seq<FrameView> {
    Seq::new(frames.len(), |i: int| frames[i]@)
}

/// Moves one row of the composite, and the matching row of the entering
/// frame, by one column.
fn shift_row<const SIZE: usize>(
    current: &mut [MatrixCell; SIZE],
    incoming: &mut [MatrixCell; SIZE],
    direction: ScrollDirection,
)
    requires
        SIZE > 0,
    ensures
        final(current)@ == shift_in(old(current)@, old(incoming)@, direction),
        final(incoming)@ == shift_out(old(incoming)@, direction),
{
    broadcast use vstd::array::group_array_axioms;

    let ghost current0 = current@;
    let ghost incoming0 = incoming@;
    match direction {
        ScrollDirection::Left => {
            let entering = incoming[0];
            let mut col: usize = 0;
            while col + 1 < SIZE
                invariant
                    SIZE > 0,
                    col < SIZE,
                    current0.len() == SIZE,
                    incoming0.len() == SIZE,
                    forall|c: int| 0 <= c < col ==> current@[c] == current0[c + 1],
                    forall|c: int| col <= c < SIZE ==> current@[c] == current0[c],
                    forall|c: int| 0 <= c < col ==> incoming@[c] == incoming0[c + 1],
                    forall|c: int| col <= c < SIZE ==> incoming@[c] == incoming0[c],
                decreases SIZE - col,
            {
                current[col] = current[col + 1];
                incoming[col] = incoming[col + 1];
                col += 1;
            }
            current[SIZE - 1] = entering;
            incoming[SIZE - 1] = MatrixCell::Off;
            assert(current@ =~= shift_in(current0, incoming0, direction));
            assert(incoming@ =~= shift_out(incoming0, direction));
        },
        ScrollDirection::Right => {
            let entering = incoming[SIZE - 1];
            let mut col: usize = SIZE - 1;
            while col > 0
                invariant
                    SIZE > 0,
                    col < SIZE,
                    current0.len() == SIZE,
                    incoming0.len() == SIZE,
                    forall|c: int| col < c < SIZE ==> current@[c] == current0[c - 1],
                    forall|c: int| 0 <= c <= col ==> current@[c] == current0[c],
                    forall|c: int| col < c < SIZE ==> incoming@[c] == incoming0[c - 1],
                    forall|c: int| 0 <= c <= col ==> incoming@[c] == incoming0[c],
                decreases col,
            {
                current[col] = current[col - 1];
                incoming[col] = incoming[col - 1];
                col -= 1;
            }
            current[0] = entering;
            incoming[0] = MatrixCell::Off;
            assert(current@ =~= shift_in(current0, incoming0, direction));
            assert(incoming@ =~= shift_out(incoming0, direction));
        },
    }
}

/// Moves the composite `current` one column on its way out of the panel and
/// takes the next column of `incoming` in after it.
pub fn scroll_step<const SIZE: usize>(
    current: &mut MatrixFrame<SIZE>,
    incoming: &mut MatrixFrame<SIZE>,
    direction: ScrollDirection,
)
    ensures
        is_square(final(current)@, SIZE as nat),
        is_square(final(incoming)@, SIZE as nat),
        forall|row: int|
            0 <= row < SIZE ==> #[trigger] final(current)@[row] == shift_in(
                old(current)@[row],
                old(incoming)@[row],
                direction,
            ),
        forall|row: int|
            0 <= row < SIZE ==> #[trigger] final(incoming)@[row] == shift_out(
                old(incoming)@[row],
                direction,
            ),
{
    broadcast use vstd::array::group_array_axioms;

    let ghost current0 = current@;
    let ghost incoming0 = incoming@;
    let mut row: usize = 0;
    while row < SIZE
        invariant
            row <= SIZE,
            current0.len() == SIZE,
            incoming0.len() == SIZE,
            forall|r: int|
                0 <= r < row ==> #[trigger] current@[r] == shift_in(
                    current0[r],
                    incoming0[r],
                    direction,
                ),
            forall|r: int| row <= r < SIZE ==> #[trigger] current@[r] == current0[r],
            forall|r: int|
                0 <= r < row ==> #[trigger] incoming@[r] == shift_out(incoming0[r], direction),
            forall|r: int| row <= r < SIZE ==> #[trigger] incoming@[r] == incoming0[r],
        decreases SIZE - row,
    {
        let mut current_row = current.0[row];
        let mut incoming_row = incoming.0[row];
        assert(current_row@ == current@[row as int]);
        assert(incoming_row@ == incoming@[row as int]);
        shift_row(&mut current_row, &mut incoming_row, direction);
        let ghost current1 = current@;
        let ghost incoming1 = incoming@;
        current.0[row] = current_row;
        incoming.0[row] = incoming_row;
        assert forall|r: int| 0 <= r < SIZE implies #[trigger] current@[r] == (if r == row {
            current_row@
        } else {
            current1[r]
        }) by {}
        assert forall|r: int| 0 <= r < SIZE implies #[trigger] incoming@[r] == (if r == row {
            incoming_row@
        } else {
            incoming1[r]
        }) by {}
        row += 1;
    }
    proof {
        current.lemma_view();
        incoming.lemma_view();
    }
}

/// Every stage of the travel from `from` to `to`, both ends included: `from`
/// at rest, then one frame per column of travel, the last of them `to`.
pub open spec fn scroll_sequence(from: FrameView, to: FrameView, direction: ScrollDirection) -> Seq<
    FrameView,
> {
    Seq::new(from.len() + 1, |step: int| transition_frame(from, to, direction, step))
}

/// Milliseconds that [`scroll_frames`] holds each stage for.
pub const SCROLL_HOLD_MILLIS: u64 = 500;

/// Scrolls from `frames[0]` to `frames[1]` on `matrix`: `frames[0]` at rest,
/// then one frame per column of travel, the last of them `frames[1]`, each
/// held for half a second.
pub fn scroll_frames<const SIZE: usize>(
    frames: &[MatrixFrame<SIZE>; 2],
    matrix: &mut FrameRecorder<SIZE>,
    direction: ScrollDirection,
)
    ensures
        final(matrix)@ == old(matrix)@ + holds(
            scroll_sequence(frames[0]@, frames[1]@, direction),
            duration_of_millis(SCROLL_HOLD_MILLIS),
        ),
        scroll_sequence(frames[0]@, frames[1]@, direction).first() == frames[0]@,
        scroll_sequence(frames[0]@, frames[1]@, direction).last() == frames[1]@,
{
    broadcast use vstd::array::group_array_axioms;

    let duration = Duration::from_millis(SCROLL_HOLD_MILLIS);
    let mut current_frame = frames[0];
    let mut new_frame = frames[1];
    let ghost from = frames[0]@;
    let ghost to = frames[1]@;
    let ghost stages = scroll_sequence(from, to, direction);
    proof {
        frames[0].lemma_view();
        frames[1].lemma_view();
        lemma_transition_start(from, to, direction);
        lemma_transition_end(from, to, direction);
    }
    matrix.display_frame_for_duration(&current_frame, duration);
    assert(matrix@ =~= old(matrix)@ + holds(stages.take(1), duration));
    let mut step: usize = 0;
    while step < SIZE
        invariant
            step <= SIZE,
            stages == scroll_sequence(from, to, direction),
            is_square(from, SIZE as nat),
            is_square(to, SIZE as nat),
            current_frame@ == transition_frame(from, to, direction, step as int),
            new_frame@ == pending_frame(to, direction, step as int),
            matrix@ == old(matrix)@ + holds(stages.take(step + 1), duration),
        decreases SIZE - step,
    {
        scroll_step(&mut current_frame, &mut new_frame, direction);
        proof {
            lemma_step_advances(from, to, direction, step as int, current_frame@, new_frame@);
        }
        matrix.display_frame_for_duration(&current_frame, duration);
        assert(matrix@ =~= old(matrix)@ + holds(stages.take(step + 2), duration));
        step += 1;
    }
    assert(stages.take(SIZE + 1) =~= stages);
}

} // verus!
