//! Drawing a frame by its difference from the frame drawn before.
//!
//! The renderer keeps what it believes of the terminal: the frame it shows,
//! where its cursor stands and which colours are set. It scans a new frame
//! row by row and emits operations for the cells that changed only: a move
//! where the cursor is not already in place, the colours that differ from
//! those set, and the character.

use crate::terminal::{blank, Cell, TermColor, Terminal};
use vstd::prelude::*;

verus! {

/// An operation of the terminal.
#[derive(Debug, Clone, Copy, PartialEq, Eq, Structural)]
pub enum TermOp {
    /// Move the cursor to a column and a row, both counted from 0.
    MoveTo(u16, u16),
    /// Move the cursor right by a number of columns.
    MoveRight(u16),
    /// Draw in this colour from now on.
    SetForeground(TermColor),
    /// Draw on this colour from now on.
    SetBackground(TermColor),
    /// Draw in the default colours from now on.
    ResetColors,
    /// Write a character under the cursor; the cursor moves right by one.
    Put(char),
}

/// What the renderer believes of the terminal.
pub struct TermState {
    /// Where the cursor stands: column and row.
    pub cursor: (u16, u16),
    /// The frame that the terminal shows, if one was drawn.
    pub buffer: Option<Terminal>,
    pub foreground: TermColor,
    pub background: TermColor,
}

impl Default for TermState {
    /// A terminal on which nothing was drawn yet.
    fn default() -> (state: TermState)
        ensures
            state.cursor == (0u16, 0u16),
            state.buffer is None,
            state.foreground == TermColor::Default,
            state.background == TermColor::Default,
    {
        TermState {
            cursor: (0, 0),
            buffer: None,
            foreground: TermColor::Default,
            background: TermColor::Default,
        }
    }
}

/// Whether two cells differ in their character or in a colour.
pub fn cell_diff(a: Cell, b: Cell) -> (differ: bool)
    ensures
        differ == (a != b),
{
    if a.data != b.data {
        return true;
    }
    if a.foreground != b.foreground {
        return true;
    }
    if a.background != b.background {
        return true;
    }
    false
}

/// The state of a scan: where the cursor of the terminal stands, the
/// colours that are set, and whether the cursor is in place, that is, stands
/// on the cell that the scan has come to.
pub ghost struct Scan {
    pub cursor: (int, int),
    pub foreground: TermColor,
    pub background: TermColor,
    pub placed: bool,
}

/// The cells of a frame, by row and column.
pub type Cells = Seq<Seq<Cell>>;

/// Whether the cell at column `x` of row `y` has to be drawn: always where
/// no frame was drawn before, else where it differs from the cell that was
/// drawn there.
pub open spec fn is_changed(new: Cells, prev: Option<Cells>, x: int, y: int) -> bool {
    match prev {
        None => true,
        Some(shown) => new[y][x] != shown[y][x],
    }
}

/// The move that brings the cursor to column `x` of row `y`: none where it
/// is in place, a move to the right where it stands further left on the same
/// row, else a move by coordinates.
pub open spec fn move_ops(scan: Scan, x: int, y: int) -> Seq<TermOp> {
    if scan.placed {
        seq![]
    } else if scan.cursor.1 == y && x > scan.cursor.0 {
        seq![TermOp::MoveRight((x - scan.cursor.0) as u16)]
    } else {
        seq![TermOp::MoveTo(x as u16, y as u16)]
    }
}

/// The operations that set the colours of `cell`: one for each colour that
/// differs from the one set, or a single reset where both differ and both
/// are the default.
pub open spec fn color_ops(scan: Scan, cell: Cell) -> Seq<TermOp> {
    let fg = cell.foreground != scan.foreground;
    let bg = cell.background != scan.background;
    if fg && bg && cell.foreground == TermColor::Default && cell.background
        == TermColor::Default {
        seq![TermOp::ResetColors]
    } else {
        (if fg {
            seq![TermOp::SetForeground(cell.foreground)]
        } else {
            seq![]
        }) + (if bg {
            seq![TermOp::SetBackground(cell.background)]
        } else {
            seq![]
        })
    }
}

/// The operations that draw `cell` at column `x` of row `y`.
pub open spec fn cell_ops(scan: Scan, cell: Cell, x: int, y: int) -> Seq<TermOp> {
    move_ops(scan, x, y) + color_ops(scan, cell) + seq![TermOp::Put(cell.data)]
}

/// The state of the scan after `cell` was drawn at column `x` of row `y`.
pub open spec fn after_put(cell: Cell, x: int, y: int) -> Scan {
    Scan {
        cursor: (x + 1, y),
        foreground: cell.foreground,
        background: cell.background,
        placed: true,
    }
}

/// The operations for the first `upto` cells of row `y`, and the state of
/// the scan after them, for a scan that comes to the row in the state
/// `start`.
pub open spec fn scan_row(new: Cells, prev: Option<Cells>, y: int, upto: int, start: Scan) -> (
    Seq<TermOp>,
    Scan,
)
    decreases upto,
{
    if upto <= 0 {
        (seq![], start)
    } else {
        let (ops, scan) = scan_row(new, prev, y, upto - 1, start);
        let x = upto - 1;
        if is_changed(new, prev, x, y) {
            (ops + cell_ops(scan, new[y][x], x, y), after_put(new[y][x], x, y))
        } else {
            (ops, Scan { placed: false, ..scan })
        }
    }
}

/// The operations for the first `upto` rows of a frame, and the state of
/// the scan after them. No row starts with the cursor in place.
pub open spec fn scan_rows(new: Cells, prev: Option<Cells>, upto: int, start: Scan) -> (
    Seq<TermOp>,
    Scan,
)
    decreases upto,
{
    if upto <= 0 {
        (seq![], Scan { placed: false, ..start })
    } else {
        let (ops, scan) = scan_rows(new, prev, upto - 1, start);
        let row = scan_row(new, prev, upto - 1, new[upto - 1].len() as int, scan);
        (ops + row.0, Scan { placed: false, ..row.1 })
    }
}

impl TermState {
    /// The state in which a scan starts.
    pub open spec fn scan(&self) -> Scan {
        Scan {
            cursor: (self.cursor.0 as int, self.cursor.1 as int),
            foreground: self.foreground,
            background: self.background,
            placed: false,
        }
    }

    /// The cells of the frame that the terminal shows, if one was drawn.
    pub open spec fn shown(&self) -> Option<Cells> {
        match self.buffer {
            Some(frame) => Some(frame@.cells),
            None => None,
        }
    }

    /// Whether the frame that the terminal shows, if any, has a cell for
    /// each cell of a frame of `width` columns and `height` rows.
    pub open spec fn covers(&self, width: int, height: int) -> bool {
        match self.buffer {
            Some(shown) => shown.shaped() && (width == 0 || height == 0 || (shown.size.0 >= width
                && shown.size.1 >= height)),
            None => true,
        }
    }

    /// Whether the frame that the terminal shows, if any, has a cell for
    /// each cell of a frame of `width` columns and `height` rows.
    pub fn has_cells_for(&self, width: usize, height: usize) -> (covered: bool)
        ensures
            covered == self.covers(width as int, height as int),
    {
        match &self.buffer {
            Some(shown) => shown.is_shaped() && (width == 0 || height == 0 || (shown.size.0 >= width
                && shown.size.1 >= height)),
            None => true,
        }
    }
}

/// The operations that turn the frame that the terminal shows into `frame`.
pub open spec fn frame_ops(frame: &Terminal, state: &TermState) -> Seq<TermOp> {
    scan_rows(frame@.cells, state.shown(), frame.size.1 as int, state.scan()).0
}

/// Draws `buffer`: returns the operations that make a terminal which shows
/// the frame drawn before show `buffer` instead, and takes `buffer` as the
/// frame that the terminal shows from now on.
///
/// The cells are scanned row by row from the top, each row from the left.
/// A cell that is as it was drawn before costs nothing. For any other cell
/// the cursor is moved unless the cell before it, on the same row, was
/// drawn too; the colours are set as far as they differ from those set
/// last; and the character is written.
pub fn draw_terminal(buffer: Terminal, term_state: &mut TermState) -> (ops: Vec<TermOp>)
    requires
        buffer.shaped(),
        buffer.size.0 <= u16::MAX,
        buffer.size.1 <= u16::MAX,
        old(term_state).covers(buffer.size.0 as int, buffer.size.1 as int),
    ensures
        ops@ == frame_ops(&buffer, old(term_state)),
        final(term_state).buffer == Some(buffer),
        final(term_state).scan() == scan_rows(
            buffer@.cells,
            old(term_state).shown(),
            buffer.size.1 as int,
            old(term_state).scan(),
        ).1,
{
    let ghost new = buffer@.cells;
    let ghost prev = term_state.shown();
    let ghost start = term_state.scan();
    let mut ops: Vec<TermOp> = Vec::new();
    let mut cursor = term_state.cursor;
    let mut foreground = term_state.foreground;
    let mut background = term_state.background;
    let mut placed = false;
    let height = buffer.rows.len();
    let mut y: usize = 0;
    while y < height
        invariant
            buffer.shaped(),
            buffer.size.0 <= u16::MAX,
            buffer.size.1 <= u16::MAX,
            height == buffer.size.1,
            term_state.covers(buffer.size.0 as int, buffer.size.1 as int),
            term_state.shown() == prev,
            new == buffer@.cells,
            y <= height,
            !placed,
            ops@ == scan_rows(new, prev, y as int, start).0,
            (Scan {
                cursor: (cursor.0 as int, cursor.1 as int),
                foreground,
                background,
                placed,
            }) == scan_rows(new, prev, y as int, start).1,
        decreases height - y,
    {
        let width = buffer.rows[y].len();
        let ghost row_start = scan_rows(new, prev, y as int, start).1;
        let ghost done = ops@;
        let mut x: usize = 0;
        while x < width
            invariant
                buffer.shaped(),
                buffer.size.0 <= u16::MAX,
                buffer.size.1 <= u16::MAX,
                height == buffer.size.1,
                width == buffer.size.0,
                term_state.covers(buffer.size.0 as int, buffer.size.1 as int),
                term_state.shown() == prev,
                new == buffer@.cells,
                y < height,
                x <= width,
                ops@ == done + scan_row(new, prev, y as int, x as int, row_start).0,
                (Scan {
                    cursor: (cursor.0 as int, cursor.1 as int),
                    foreground,
                    background,
                    placed,
                }) == scan_row(new, prev, y as int, x as int, row_start).1,
            decreases width - x,
        {
            let ghost scan = scan_row(new, prev, y as int, x as int, row_start).1;
            let ghost before = ops@;
            let cell = buffer.rows[y][x];
            assert(cell == new[y as int][x as int]);
            let change = match &term_state.buffer {
                Some(shown) => cell_diff(cell, shown.rows[y][x]),
                None => true,
            };
            assert(change == is_changed(new, prev, x as int, y as int));
            if change {
                if !placed {
                    if cursor.1 == y as u16 && x as u16 > cursor.0 {
                        ops.push(TermOp::MoveRight(x as u16 - cursor.0));
                    } else {
                        ops.push(TermOp::MoveTo(x as u16, y as u16));
                    }
                    placed = true;
                }
                assert(ops@ =~= before + move_ops(scan, x as int, y as int));
                let fg = cell.foreground != foreground;
                let bg = cell.background != background;
                if fg && bg && cell.foreground == TermColor::Default && cell.background
                    == TermColor::Default {
                    ops.push(TermOp::ResetColors);
                } else {
                    if fg {
                        ops.push(TermOp::SetForeground(cell.foreground));
                    }
                    if bg {
                        ops.push(TermOp::SetBackground(cell.background));
                    }
                }
                foreground = cell.foreground;
                background = cell.background;
                assert(ops@ =~= before + move_ops(scan, x as int, y as int) + color_ops(
                    scan,
                    cell,
                ));
                ops.push(TermOp::Put(cell.data));
                cursor = (x as u16 + 1, y as u16);
                assert(ops@ =~= before + cell_ops(scan, cell, x as int, y as int));
                assert(ops@ =~= done + (scan_row(new, prev, y as int, x as int, row_start).0
                    + cell_ops(scan, cell, x as int, y as int)));
            } else {
                placed = false;
            }
            x += 1;
        }
        placed = false;
        y += 1;
        assert(ops@ =~= scan_rows(new, prev, y as int, start).0);
    }
    term_state.buffer = Some(buffer);
    term_state.foreground = foreground;
    term_state.background = background;
    term_state.cursor = cursor;
    ops
}

/// The number of characters that `ops` writes.
pub open spec fn puts(ops: Seq<TermOp>) -> nat
    decreases ops.len(),
{
    if ops.len() == 0 {
        0
    } else {
        puts(ops.drop_last()) + if ops.last() is Put {
            1nat
        } else {
            0nat
        }
    }
}

/// The number of cells among the first `upto` of row `y` that have to be
/// drawn.
pub open spec fn changes_in_row(new: Cells, prev: Option<Cells>, y: int, upto: int) -> nat
    decreases upto,
{
    if upto <= 0 {
        0
    } else {
        changes_in_row(new, prev, y, upto - 1) + if is_changed(new, prev, upto - 1, y) {
            1nat
        } else {
            0nat
        }
    }
}

/// The number of cells in the first `upto` rows that have to be drawn.
pub open spec fn changes(new: Cells, prev: Option<Cells>, upto: int) -> nat
    decreases upto,
{
    if upto <= 0 {
        0
    } else {
        changes(new, prev, upto - 1) + changes_in_row(
            new,
            prev,
            upto - 1,
            new[upto - 1].len() as int,
        )
    }
}

/// The number of cells among the first `upto` of `row` that are not blank.
pub open spec fn marks_in_row(row: Seq<Cell>, upto: int) -> nat
    decreases upto,
{
    if upto <= 0 {
        0
    } else {
        marks_in_row(row, upto - 1) + if row[upto - 1] != blank() {
            1nat
        } else {
            0nat
        }
    }
}

/// The number of cells in the first `upto` rows of `cells` that are not
/// blank.
pub open spec fn marks(cells: Cells, upto: int) -> nat
    decreases upto,
{
    if upto <= 0 {
        0
    } else {
        marks(cells, upto - 1) + marks_in_row(cells[upto - 1], cells[upto - 1].len() as int)
    }
}

/// Operations in a row write what their parts write.
pub proof fn lemma_puts_append(a: Seq<TermOp>, b: Seq<TermOp>)
    ensures
        puts(a + b) == puts(a) + puts(b),
    decreases b.len(),
{
    if b.len() == 0 {
        assert(a + b =~= a);
    } else {
        assert((a + b).drop_last() =~= a + b.drop_last());
        lemma_puts_append(a, b.drop_last());
    }
}

/// Drawing a cell writes one character.
pub proof fn lemma_cell_ops_put_once(scan: Scan, cell: Cell, x: int, y: int)
    ensures
        puts(cell_ops(scan, cell, x, y)) == 1,
{
    let moves = move_ops(scan, x, y);
    let colors = color_ops(scan, cell);
    let last = seq![TermOp::Put(cell.data)];
    assert(puts(moves) == 0) by {
        reveal_with_fuel(puts, 2);
    }
    assert(puts(colors) == 0) by {
        reveal_with_fuel(puts, 3);
        let fg = cell.foreground != scan.foreground;
        let bg = cell.background != scan.background;
        if fg && bg && !(cell.foreground == TermColor::Default && cell.background
            == TermColor::Default) {
            assert(colors =~= seq![
                TermOp::SetForeground(cell.foreground),
                TermOp::SetBackground(cell.background),
            ]);
            assert(colors.drop_last() =~= seq![TermOp::SetForeground(cell.foreground)]);
        } else if fg && !bg {
            assert(colors =~= seq![TermOp::SetForeground(cell.foreground)]);
        } else if bg && !fg {
            assert(colors =~= seq![TermOp::SetBackground(cell.background)]);
        } else if !fg && !bg {
            assert(colors =~= Seq::<TermOp>::empty());
        }
    }
    assert(puts(last) == 1) by {
        reveal_with_fuel(puts, 2);
    }
    lemma_puts_append(moves, colors);
    lemma_puts_append(moves + colors, last);
}

/// A scan over a row writes one character for each of its cells that has
/// to be drawn.
pub proof fn lemma_row_puts_each_change(
    new: Cells,
    prev: Option<Cells>,
    y: int,
    upto: int,
    start: Scan,
)
    ensures
        puts(scan_row(new, prev, y, upto, start).0) == changes_in_row(new, prev, y, upto),
    decreases upto,
{
    if upto > 0 {
        lemma_row_puts_each_change(new, prev, y, upto - 1, start);
        let (ops, scan) = scan_row(new, prev, y, upto - 1, start);
        if is_changed(new, prev, upto - 1, y) {
            lemma_cell_ops_put_once(scan, new[y][upto - 1], upto - 1, y);
            lemma_puts_append(ops, cell_ops(scan, new[y][upto - 1], upto - 1, y));
        }
    }
}

/// A scan over a frame writes one character for each of its cells that
/// has to be drawn.
pub proof fn lemma_puts_each_change(new: Cells, prev: Option<Cells>, upto: int, start: Scan)
    ensures
        puts(scan_rows(new, prev, upto, start).0) == changes(new, prev, upto),
    decreases upto,
{
    if upto > 0 {
        lemma_puts_each_change(new, prev, upto - 1, start);
        let (ops, scan) = scan_rows(new, prev, upto - 1, start);
        let row = scan_row(new, prev, upto - 1, new[upto - 1].len() as int, scan);
        lemma_row_puts_each_change(new, prev, upto - 1, new[upto - 1].len() as int, scan);
        lemma_puts_append(ops, row.0);
    }
}

/// A scan over a row that is shown as it is yields no operation and
/// leaves cursor and colours as they are.
proof fn lemma_same_row_no_ops(new: Cells, y: int, upto: int, start: Scan)
    ensures
        scan_row(new, Some(new), y, upto, start).0 == Seq::<TermOp>::empty(),
        scan_row(new, Some(new), y, upto, start).1.cursor == start.cursor,
        scan_row(new, Some(new), y, upto, start).1.foreground == start.foreground,
        scan_row(new, Some(new), y, upto, start).1.background == start.background,
    decreases upto,
{
    if upto > 0 {
        lemma_same_row_no_ops(new, y, upto - 1, start);
    }
}

/// A scan over rows that are shown as they are yields no operation and
/// leaves cursor and colours as they are.
proof fn lemma_same_rows_no_ops(new: Cells, upto: int, start: Scan)
    ensures
        scan_rows(new, Some(new), upto, start).0 == Seq::<TermOp>::empty(),
        scan_rows(new, Some(new), upto, start).1 == (Scan { placed: false, ..start }),
    decreases upto,
{
    if upto > 0 {
        lemma_same_rows_no_ops(new, upto - 1, start);
        let (ops, scan) = scan_rows(new, Some(new), upto - 1, start);
        lemma_same_row_no_ops(new, upto - 1, new[upto - 1].len() as int, scan);
        assert(ops + Seq::<TermOp>::empty() =~= Seq::<TermOp>::empty());
    }
}

/// Drawing the frame that the terminal shows already takes no operation:
/// nothing is moved, no colour is set, no character is written, and the
/// renderer records the cursor and the colours that it had recorded.
pub proof fn lemma_same_frame_draws_nothing(frame: &Terminal, state: &TermState)
    requires
        state.shown() == Some(frame@.cells),
    ensures
        frame_ops(frame, state) == Seq::<TermOp>::empty(),
        puts(frame_ops(frame, state)) == 0,
        scan_rows(frame@.cells, state.shown(), frame.size.1 as int, state.scan()).1 == state.scan(),
{
    lemma_same_rows_no_ops(frame@.cells, frame.size.1 as int, state.scan());
}

/// Where no frame was drawn before, every cell of a row has to be drawn.
proof fn lemma_first_row_changes(new: Cells, y: int, upto: int)
    requires
        0 <= upto,
    ensures
        changes_in_row(new, None, y, upto) == upto,
    decreases upto,
{
    if upto > 0 {
        lemma_first_row_changes(new, y, upto - 1);
    }
}

/// Where no frame was drawn before, every cell has to be drawn.
proof fn lemma_first_changes(new: Cells, width: int, upto: int)
    requires
        0 <= upto <= new.len(),
        0 <= width,
        forall|y: int| 0 <= y < new.len() ==> (#[trigger] new[y]).len() == width,
    ensures
        changes(new, None, upto) == upto * width,
    decreases upto,
{
    if upto > 0 {
        lemma_first_changes(new, width, upto - 1);
        lemma_first_row_changes(new, upto - 1, width);
        assert(upto * width == (upto - 1) * width + width) by (nonlinear_arith);
    } else {
        assert(upto * width == 0) by (nonlinear_arith)
            requires
                upto == 0,
        ;
    }
}

/// The first frame is drawn in full: one character is written for each of
/// its cells, blank or not.
pub proof fn lemma_first_frame_draws_all(frame: &Terminal, state: &TermState)
    requires
        frame.shaped(),
        state.buffer is None,
    ensures
        puts(frame_ops(frame, state)) == frame.size.1 * frame.size.0,
{
    let new = frame@.cells;
    assert forall|y: int| 0 <= y < new.len() implies (#[trigger] new[y]).len() == frame.size.0 by {
        assert(new[y] == frame.rows@[y]@);
    }
    lemma_puts_each_change(new, None, frame.size.1 as int, state.scan());
    lemma_first_changes(new, frame.size.0 as int, frame.size.1 as int);
}

/// Over a blank row, the cells to draw are those that are not blank.
proof fn lemma_blank_row_changes(new: Cells, shown: Cells, y: int, upto: int)
    requires
        0 <= y < new.len(),
        0 <= y < shown.len(),
        0 <= upto <= new[y].len(),
        upto <= shown[y].len(),
        forall|x: int| 0 <= x < upto ==> (#[trigger] shown[y][x]) == blank(),
    ensures
        changes_in_row(new, Some(shown), y, upto) == marks_in_row(new[y], upto),
    decreases upto,
{
    if upto > 0 {
        lemma_blank_row_changes(new, shown, y, upto - 1);
        assert(shown[y][upto - 1] == blank());
    }
}

/// Over a blank frame, the cells to draw are those that are not blank.
proof fn lemma_blank_changes(new: Cells, shown: Cells, upto: int)
    requires
        0 <= upto <= new.len(),
        upto <= shown.len(),
        forall|y: int, x: int|
            0 <= y < upto && 0 <= x < new[y].len() ==> x < shown[y].len()
                && (#[trigger] shown[y][x]) == blank(),
    ensures
        changes(new, Some(shown), upto) == marks(new, upto),
    decreases upto,
{
    if upto > 0 {
        lemma_blank_changes(new, shown, upto - 1);
        let y = upto - 1;
        if new[y].len() > 0 {
            assert(shown[y][0] == blank());
            assert(new[y].len() - 1 < shown[y].len()) by {
                assert(shown[y][new[y].len() - 1] == blank());
            }
        }
        lemma_blank_row_changes(new, shown, y, new[y].len() as int);
    }
}

/// A frame drawn over a blank one is drawn by its marks: one character is
/// written for each of its cells that is not blank, and none for any other.
pub proof fn lemma_frame_over_blank_draws_marks(frame: &Terminal, state: &TermState)
    requires
        frame.shaped(),
        state.shown() == Some(
            crate::terminal::blank_cells(frame.size.0 as nat, frame.size.1 as nat),
        ),
    ensures
        puts(frame_ops(frame, state)) == marks(frame@.cells, frame.size.1 as int),
{
    let new = frame@.cells;
    let shown = crate::terminal::blank_cells(frame.size.0 as nat, frame.size.1 as nat);
    assert forall|y: int, x: int| 0 <= y < frame.size.1 && 0 <= x < new[y].len() implies x
        < shown[y].len() && (#[trigger] shown[y][x]) == blank() by {
        assert(new[y] == frame.rows@[y]@);
    }
    lemma_puts_each_change(new, Some(shown), frame.size.1 as int, state.scan());
    lemma_blank_changes(new, shown, frame.size.1 as int);
}

} // verus!
