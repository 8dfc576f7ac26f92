//! Pixel frames and the scan of one frame onto the row and column drive lines.

use embassy_time::Duration;
use vstd::prelude::*;

verus! {

/// `embassy_time::Duration`, a span of time counted in clock ticks. The
/// library hands such values on and never looks inside one.
#[verifier::external_type_specification]
#[verifier::external_body]
pub struct ExDuration(embassy_time::Duration);

/// State of one panel cell.
#[derive(Clone, Copy, PartialEq, Eq, Debug, Structural)]
pub enum MatrixCell {
    Lit,
    Off,
}

/// Mathematical model of a frame: `SIZE` rows of `SIZE` cells, addressed
/// `[row][column]`, column 0 being the leftmost.
pub type FrameView = Seq<Seq<MatrixCell>>;

/// A `SIZE` x `SIZE` grid of cells, stored row by row.
#[derive(Clone, Copy, PartialEq, Eq, Debug)]
pub struct MatrixFrame<const SIZE: usize>(pub [[MatrixCell; SIZE]; SIZE]);

impl<const SIZE: usize> View for MatrixFrame<SIZE> {
    type V = FrameView;

    open spec fn view(&self) -> FrameView {
        Seq::new(SIZE as nat, |row: int| self.0[row]@)
    }
}

/// A grid of `size` rows, each of `size` cells.
pub open spec fn is_square(frame: FrameView, size: nat) -> bool {
    &&& frame.len() == size
    &&& forall|row: int| 0 <= row < size ==> (#[trigger] frame[row]).len() == size
}

/// The square grid of side `size` in which no cell is lit.
pub open spec fn blank_frame(size: nat) -> FrameView {
    Seq::new(size, |row: int| Seq::new(size, |col: int| MatrixCell::Off))
}

impl<const SIZE: usize> MatrixFrame<SIZE> {
    /// The cell at (`row`, `col`).
    pub open spec fn cell(&self, row: int, col: int) -> MatrixCell {
        self.0[row][col]
    }

    /// The view of a frame is a square grid whose entries are the frame's cells.
    pub proof fn lemma_view(&self)
        ensures
            is_square(self@, SIZE as nat),
            forall|row: int, col: int|
                0 <= row < SIZE && 0 <= col < SIZE ==> #[trigger] self@[row][col] == self.cell(
                    row,
                    col,
                ),
    {
        broadcast use vstd::array::group_array_axioms;

    }

    /// Two frames with the same view are the same frame.
    pub proof fn lemma_view_injective(&self, other: &MatrixFrame<SIZE>)
        requires
            self@ == other@,
        ensures
            *self == *other,
    {
        broadcast use vstd::array::group_array_axioms;

        assert forall|row: int| 0 <= row < SIZE implies self.0[row] == other.0[row] by {
            assert(self@[row] == other@[row]);
            assert(self.0[row]@ == other.0[row]@);
            assert forall|col: int| 0 <= col < SIZE implies self.0[row][col] == other.0[row][col] by {
                assert(self.0[row]@[col] == other.0[row]@[col]);
            }
            assert(self.0[row] =~= other.0[row]);
        }
        assert(self.0 =~= other.0);
    }

    /// Reads the cell at (`row`, `col`).
    pub fn get(&self, row: usize, col: usize) -> (cell: MatrixCell)
        requires
            row < SIZE,
            col < SIZE,
        ensures
            cell == self@[row as int][col as int],
    {
        proof {
            self.lemma_view();
        }
        self.0[row][col]
    }
}

impl<const SIZE: usize> Default for MatrixFrame<SIZE> {
    /// The frame with every cell off.
    fn default() -> (frame: Self)
        ensures
            frame@ == blank_frame(SIZE as nat),
    {
        let frame = MatrixFrame([[MatrixCell::Off; SIZE]; SIZE]);
        proof {
            broadcast use vstd::array::group_array_axioms;

            frame.lemma_view();
            assert forall|row: int| 0 <= row < SIZE implies frame@[row] == blank_frame(
                SIZE as nat,
            )[row] by {
                assert(frame@[row] =~= blank_frame(SIZE as nat)[row]);
            }
            assert(frame@ =~= blank_frame(SIZE as nat));
        }
        frame
    }
}

/// One operation on the panel's drive lines. A row line is driven high to
/// select its row; a column line is driven low to light its cell in the
/// selected row.
#[derive(Clone, Copy, PartialEq, Eq, Debug, Structural)]
pub enum PinAction {
    /// Drive the line of this row high.
    RowHigh(usize),
    /// Drive the line of this column low.
    ColumnLow(usize),
    /// Keep the lines as they are for one cycle time.
    Wait,
    /// Drive the line of this column high.
    ColumnHigh(usize),
    /// Drive the line of this row low.
    RowLow(usize),
}

/// The columns among the first `upto` whose cell in `cells` is lit, each
/// driven low, leftmost first.
pub open spec fn light_actions(cells: Seq<MatrixCell>, upto: int) -> Seq<PinAction>
    decreases upto,
{
    if upto <= 0 {
        Seq::empty()
    } else if cells[upto - 1] == MatrixCell::Lit {
        light_actions(cells, upto - 1).push(PinAction::ColumnLow((upto - 1) as usize))
    } else {
        light_actions(cells, upto - 1)
    }
}

/// Every one of `size` columns driven high, leftmost first.
pub open spec fn release_actions(size: nat) -> Seq<PinAction> {
    Seq::new(size, |col: int| PinAction::ColumnHigh(col as usize))
}

/// The scan of one row: select it, light its lit cells, wait one cycle
/// time, release every column, deselect the row.
pub open spec fn row_actions(frame: FrameView, row: int) -> Seq<PinAction> {
    seq![PinAction::RowHigh(row as usize)] + light_actions(frame[row], frame.len() as int)
        + seq![PinAction::Wait] + release_actions(frame.len()) + seq![
        PinAction::RowLow(row as usize),
    ]
}

/// The scan of the first `rows` rows of `frame`, top row first.
pub open spec fn scan_actions(frame: FrameView, rows: int) -> Seq<PinAction>
    decreases rows,
{
    if rows <= 0 {
        Seq::empty()
    } else {
        scan_actions(frame, rows - 1) + row_actions(frame, rows - 1)
    }
}

/// The line that `action` drives is one of the panel's `size` row or column
/// lines.
pub open spec fn in_panel(action: PinAction, size: nat) -> bool {
    match action {
        PinAction::RowHigh(row) => row < size,
        PinAction::ColumnLow(col) => col < size,
        PinAction::Wait => true,
        PinAction::ColumnHigh(col) => col < size,
        PinAction::RowLow(row) => row < size,
    }
}

/// A scan drives no line but the panel's own.
pub proof fn lemma_scan_in_panel(frame: FrameView, rows: int, index: int)
    requires
        rows <= frame.len(),
        0 <= index < scan_actions(frame, rows).len(),
    ensures
        in_panel(scan_actions(frame, rows)[index], frame.len()),
    decreases rows,
{
    let before = scan_actions(frame, rows - 1);
    if index < before.len() {
        lemma_scan_in_panel(frame, rows - 1, index);
    } else {
        let row = row_actions(frame, rows - 1);
        let lights = light_actions(frame[rows - 1], frame.len() as int);
        let at: int = index - before.len();
        assert(scan_actions(frame, rows)[index] == row[at]);
        if 1 <= at < 1 + lights.len() {
            lemma_light_in_panel(frame[rows - 1], frame.len() as int, at - 1);
        }
    }
}

/// Lighting the first `upto` columns drives no column but those.
pub proof fn lemma_light_in_panel(cells: Seq<MatrixCell>, upto: int, index: int)
    requires
        0 <= index < light_actions(cells, upto).len(),
    ensures
        light_actions(cells, upto)[index] matches PinAction::ColumnLow(col) && col < upto,
    decreases upto,
{
    if upto > 0 {
        let before = light_actions(cells, upto - 1);
        if index < before.len() {
            lemma_light_in_panel(cells, upto - 1, index);
        }
    }
}

/// The operations of one scan cycle of `frame`, in the order in which they
/// are to be carried out: row by row from the top, and within a row the
/// lit columns from the left.
pub fn display_frame<const SIZE: usize>(frame: &MatrixFrame<SIZE>) -> (actions: Vec<PinAction>)
    ensures
        actions@ == scan_actions(frame@, SIZE as int),
{
    let mut actions: Vec<PinAction> = Vec::new();
    proof {
        frame.lemma_view();
    }
    let mut row_index: usize = 0;
    while row_index < SIZE
        invariant
            row_index <= SIZE,
            is_square(frame@, SIZE as nat),
            actions@ == scan_actions(frame@, row_index as int),
        decreases SIZE - row_index,
    {
        let ghost before = actions@;
        actions.push(PinAction::RowHigh(row_index));
        let mut col_index: usize = 0;
        while col_index < SIZE
            invariant
                col_index <= SIZE,
                row_index < SIZE,
                is_square(frame@, SIZE as nat),
                actions@ == before.push(PinAction::RowHigh(row_index)) + light_actions(
                    frame@[row_index as int],
                    col_index as int,
                ),
            decreases SIZE - col_index,
        {
            match frame.get(row_index, col_index) {
                MatrixCell::Lit => actions.push(PinAction::ColumnLow(col_index)),
                _ => (),
            }
            col_index += 1;
            assert(actions@ =~= before.push(PinAction::RowHigh(row_index)) + light_actions(
                frame@[row_index as int],
                col_index as int,
            ));
        }
        actions.push(PinAction::Wait);
        let ghost lit = actions@;
        let mut col_index: usize = 0;
        while col_index < SIZE
            invariant
                col_index <= SIZE,
                actions@ == lit + release_actions(col_index as nat),
            decreases SIZE - col_index,
        {
            actions.push(PinAction::ColumnHigh(col_index));
            col_index += 1;
            assert(actions@ =~= lit + release_actions(col_index as nat));
        }
        actions.push(PinAction::RowLow(row_index));
        assert(actions@ =~= before + row_actions(frame@, row_index as int));
        row_index += 1;
    }
    actions
}

/// What `embassy_time::Duration::from_millis` makes of a number of
/// milliseconds: that many milliseconds counted in ticks of the clock,
/// rounded up. The clock's tick rate is fixed when the program is built, so
/// the same number always gives the same duration.
pub uninterp spec fn duration_of_millis(millis: u64) -> Duration;

/// `embassy_time::Duration::from_millis`. Nothing is proved of it. The
/// contract claims that the result depends on the argument alone, and names
/// it [`duration_of_millis`]. The function multiplies `millis` by the tick
/// rate in `u64` before it divides; the bound keeps that product inside
/// `u64` at every tick rate that the clock can be built with.
pub assume_specification[ embassy_time::Duration::from_millis ](millis: u64) -> (duration: Duration)
    requires
        millis <= 1_000_000_000,
    ensures
        duration == duration_of_millis(millis),
;

/// Milliseconds that one row stays selected, so that a scan of all `size`
/// rows fits in one period of a 60 Hz refresh.
pub open spec fn cycle_millis(size: nat) -> nat {
    ((1000nat / 60) / size) as nat
}

/// Time that one row stays selected during a scan of a panel of `SIZE` rows.
pub fn get_cycle_rate<const SIZE: usize>() -> (rate: Duration)
    requires
        SIZE > 0,
    ensures
        rate == duration_of_millis(cycle_millis(SIZE as nat) as u64),
{
    let per_scan: u64 = 1000 / 60;
    let per_row: u64 = per_scan / (SIZE as u64);
    Duration::from_millis(per_row)
}

/// What to do next while a frame is being held on the panel.
#[derive(Clone, Copy, PartialEq, Eq, Debug, Structural)]
pub enum HoldAction {
    /// Scan the frame once now.
    Scan,
    /// Let other tasks run for one refresh interval, then scan the frame once.
    Refresh,
    /// The hold is over.
    Done,
}

/// Progress of one hold of a frame. Times are tick counts of one clock.
#[derive(Clone, Copy, PartialEq, Eq, Debug, Structural)]
pub enum FrameHold {
    /// Nothing was scanned yet; the frame is to stay for `duration`.
    Pending { duration: u64 },
    /// The frame was scanned at least once and stays until `end_time`.
    Running { end_time: u64 },
    /// The hold is over.
    Finished,
}

/// Milliseconds between two scans of a frame that is being held.
pub const REFRESH_INTERVAL_MILLIS: u64 = 1;

impl FrameHold {
    /// The hold after the clock was read as `now`, and what to do then. A
    /// hold always begins with a scan, however short it is to be; after
    /// that the frame is scanned again for as long as the clock has not
    /// reached the end of the hold.
    pub open spec fn step(self, now: u64) -> (FrameHold, HoldAction) {
        match self {
            FrameHold::Pending { duration } => (
                FrameHold::Running { end_time: (now + duration) as u64 },
                HoldAction::Scan,
            ),
            FrameHold::Running { end_time } => if now < end_time {
                (self, HoldAction::Refresh)
            } else {
                (FrameHold::Finished, HoldAction::Done)
            },
            FrameHold::Finished => (FrameHold::Finished, HoldAction::Done),
        }
    }

    /// A hold of `duration` ticks that has not begun.
    pub fn new(duration: u64) -> (hold: Self)
        ensures
            hold == (FrameHold::Pending { duration }),
    {
        FrameHold::Pending { duration }
    }

    /// Takes the clock's reading `now` and says what to do next.
    pub fn next(&mut self, now: u64) -> (action: HoldAction)
        requires
            *old(self) matches FrameHold::Pending { duration } ==> now + duration <= u64::MAX,
        ensures
            (*final(self), action) == old(self).step(now),
    {
        match *self {
            FrameHold::Pending { duration } => {
                *self = FrameHold::Running { end_time: now + duration };
                HoldAction::Scan
            },
            FrameHold::Running { end_time } => {
                if now < end_time {
                    HoldAction::Refresh
                } else {
                    *self = FrameHold::Finished;
                    HoldAction::Done
                }
            },
            FrameHold::Finished => HoldAction::Done,
        }
    }

    /// Every hold scans its frame at least once: whatever the duration, a
    /// zero one too, and whatever the clock reads, the first thing a new
    /// hold asks for is a scan.
    pub proof fn lemma_first_step_scans(duration: u64, now: u64)
        ensures
            (FrameHold::Pending { duration }).step(now).1 == HoldAction::Scan,
            (FrameHold::Pending { duration }).step(now).0 is Running,
    {
    }

    /// A hold ends at the first reading of the clock, after its first scan,
    /// that is not before the end of the hold.
    pub proof fn lemma_hold_ends(end_time: u64, now: u64)
        ensures
            (FrameHold::Running { end_time }).step(now).1 == HoldAction::Done <==> now >= end_time,
    {
    }
}

/// One request to the panel: show `frame` for `duration`.
#[derive(Clone, Copy, Debug)]
pub struct Hold<const SIZE: usize> {
    pub frame: MatrixFrame<SIZE>,
    pub duration: Duration,
}

/// A panel in memory: it keeps the frames it was asked to hold, in the order
/// in which they came, and shows nothing.
#[derive(Debug)]
pub struct FrameRecorder<const SIZE: usize> {
    pub holds: Vec<Hold<SIZE>>,
}

impl<const SIZE: usize> View for FrameRecorder<SIZE> {
    type V = Seq<(FrameView, Duration)>;

    open spec fn view(&self) -> Seq<(FrameView, Duration)> {
        Seq::new(self.holds@.len(), |i: int| (self.holds@[i].frame@, self.holds@[i].duration))
    }
}

impl<const SIZE: usize> FrameRecorder<SIZE> {
    /// A recorder that has been asked for nothing yet.
    pub fn new() -> (recorder: Self)
        ensures
            recorder@ == Seq::<(FrameView, Duration)>::empty(),
    {
        let recorder = FrameRecorder { holds: Vec::new() };
        assert(recorder@ =~= Seq::<(FrameView, Duration)>::empty());
        recorder
    }

    /// Records a request to show `frame` for `duration`.
    pub fn display_frame_for_duration(&mut self, frame: &MatrixFrame<SIZE>, duration: Duration)
        ensures
            final(self)@ == old(self)@.push((frame@, duration)),
    {
        self.holds.push(Hold { frame: *frame, duration });
        assert(self@ =~= old(self)@.push((frame@, duration)));
    }

    /// Number of requests recorded.
    pub fn len(&self) -> (n: usize)
        ensures
            n == self@.len(),
    {
        self.holds.len()
    }

    /// Whether nothing was recorded.
    pub fn is_empty(&self) -> (empty: bool)
        ensures
            empty == (self@.len() == 0),
    {
        self.holds.len() == 0
    }

    /// The frame of the request at `index`.
    pub fn frame(&self, index: usize) -> (frame: MatrixFrame<SIZE>)
        requires
            index < self@.len(),
        ensures
            frame@ == self@[index as int].0,
    {
        self.holds[index].frame
    }

    /// The duration of the request at `index`.
    pub fn duration(&self, index: usize) -> (duration: Duration)
        requires
            index < self@.len(),
        ensures
            duration == self@[index as int].1,
    {
        self.holds[index].duration
    }
}

/// A fixed run of up to ten holds. The run ends at the first empty entry.
#[derive(Clone, Copy, Debug)]
pub struct Animation<const SIZE: usize>(pub [Option<(MatrixFrame<SIZE>, Duration)>; 10]);

/// The holds of an animation, in order: its entries up to the first empty
/// one.
pub open spec fn animation_holds<const SIZE: usize>(
    entries: Seq<Option<(MatrixFrame<SIZE>, Duration)>>,
) -> Seq<(FrameView, Duration)>
    decreases entries.len(),
{
    if entries.len() == 0 {
        Seq::empty()
    } else {
        match entries.first() {
            Some((frame, duration)) => seq![(frame@, duration)] + animation_holds(
                entries.drop_first(),
            ),
            None => Seq::empty(),
        }
    }
}

/// Plays `animation` on `matrix`: its holds in order, up to its first empty
/// entry.
pub fn display_animation<const SIZE: usize>(
    animation: &Animation<SIZE>,
    matrix: &mut FrameRecorder<SIZE>,
)
    ensures
        final(matrix)@ == old(matrix)@ + animation_holds(animation.0@),
{
    broadcast use vstd::array::group_array_axioms;

    let ghost entries = animation.0@;
    let mut index: usize = 0;
    assert(entries.skip(0) =~= entries);
    while index < 10
        invariant
            index <= 10,
            entries == animation.0@,
            entries.len() == 10,
            old(matrix)@ + animation_holds(entries) == matrix@ + animation_holds(
                entries.skip(index as int),
            ),
        decreases 10 - index,
    {
        let ghost rest = entries.skip(index as int);
        assert(rest.first() == entries[index as int]);
        assert(rest.drop_first() =~= entries.skip(index + 1));
        match animation.0[index] {
            Some((frame, duration)) => {
                let ghost before = matrix@;
                matrix.display_frame_for_duration(&frame, duration);
                assert(matrix@ + animation_holds(entries.skip(index + 1)) =~= before
                    + animation_holds(rest));
            },
            None => {
                assert(matrix@ + animation_holds(rest) =~= matrix@);
                return ;
            },
        }
        index += 1;
    }
    assert(matrix@ + animation_holds(entries.skip(10)) =~= matrix@);
}

} // verus!
