//! A model of the terminal, to hold the renderer to its purpose: the
//! operations that it returns turn what the terminal shows into the new
//! frame.

use crate::diff::{
    after_put, cell_ops, color_ops, frame_ops, is_changed, move_ops, scan_row, scan_rows, Cells,
    Scan, TermOp, TermState,
};
use crate::terminal::{Cell, TermColor, Terminal};
use vstd::prelude::*;

verus! {

/// A terminal as its operations see it: the cells that it shows, where its
/// cursor stands, and the colours that are set.
pub ghost struct Display {
    pub cells: Cells,
    pub cursor: (int, int),
    pub foreground: TermColor,
    pub background: TermColor,
}

impl Display {
    /// Whether the terminal has a cell at column `x` of row `y`.
    pub open spec fn has(self, x: int, y: int) -> bool {
        0 <= y < self.cells.len() && 0 <= x < self.cells[y].len()
    }

    /// The terminal after one operation.
    pub open spec fn perform(self, op: TermOp) -> Display {
        match op {
            TermOp::MoveTo(x, y) => Display { cursor: (x as int, y as int), ..self },
            TermOp::MoveRight(n) => Display { cursor: (self.cursor.0 + n, self.cursor.1), ..self },
            TermOp::SetForeground(color) => Display { foreground: color, ..self },
            TermOp::SetBackground(color) => Display { background: color, ..self },
            TermOp::ResetColors => Display {
                foreground: TermColor::Default,
                background: TermColor::Default,
                ..self
            },
            TermOp::Put(c) => Display {
                cells: if self.has(self.cursor.0, self.cursor.1) {
                    self.cells.update(
                        self.cursor.1,
                        self.cells[self.cursor.1].update(
                            self.cursor.0,
                            Cell {
                                foreground: self.foreground,
                                background: self.background,
                                data: c,
                            },
                        ),
                    )
                } else {
                    self.cells
                },
                cursor: (self.cursor.0 + 1, self.cursor.1),
                ..self
            },
        }
    }

    /// The terminal after the operations `ops`, in their order.
    pub open spec fn perform_all(self, ops: Seq<TermOp>) -> Display
        decreases ops.len(),
    {
        if ops.len() == 0 {
            self
        } else {
            self.perform_all(ops.drop_last()).perform(ops.last())
        }
    }

    /// Whether the terminal agrees with what the renderer believes of it.
    pub open spec fn believed_by(self, state: &TermState, width: int, height: int) -> bool {
        &&& self.cursor == state.scan().cursor
        &&& self.foreground == state.foreground
        &&& self.background == state.background
        &&& forall|x: int, y: int| 0 <= x < width && 0 <= y < height ==> self.has(x, y)
        &&& match state.shown() {
            Some(shown) => forall|x: int, y: int|
                0 <= x < width && 0 <= y < height ==> self.cells[y][x] == shown[y][x],
            None => true,
        }
    }
}

/// Operations in a row are performed one part after the other.
pub proof fn lemma_perform_append(display: Display, a: Seq<TermOp>, b: Seq<TermOp>)
    ensures
        display.perform_all(a + b) == display.perform_all(a).perform_all(b),
    decreases b.len(),
{
    if b.len() == 0 {
        assert(a + b =~= a);
    } else {
        assert((a + b).drop_last() =~= a + b.drop_last());
        assert((a + b).last() == b.last());
        lemma_perform_append(display, a, b.drop_last());
    }
}

/// What a scan has done to the terminal when it has come to column `x` of
/// row `y`: the cells that it has passed show the new frame, all others are
/// as they were; the terminal is as the scan believes it to be; and a
/// cursor that is in place stands on the cell that the scan has come to.
spec fn tracks(
    before: Display,
    now: Display,
    new: Cells,
    scan: Scan,
    x: int,
    y: int,
    width: int,
    height: int,
) -> bool {
    &&& now.cells.len() == before.cells.len()
    &&& forall|r: int|
        0 <= r < before.cells.len() ==> (#[trigger] now.cells[r]).len() == before.cells[r].len()
    &&& forall|c: int, r: int|
        before.has(c, r) ==> #[trigger] now.cells[r][c] == if 0 <= c < width && (r < y || (r == y
            && c < x)) {
            new[r][c]
        } else {
            before.cells[r][c]
        }
    &&& now.cursor == scan.cursor
    &&& now.foreground == scan.foreground
    &&& now.background == scan.background
    &&& 0 <= scan.cursor.0 <= u16::MAX
    &&& scan.placed ==> scan.cursor == (x, y)
}

/// After the move that a cell needs, the cursor stands on the cell.
proof fn lemma_perform_move(display: Display, scan: Scan, x: int, y: int)
    requires
        display.cursor == scan.cursor,
        0 <= scan.cursor.0,
        0 <= x <= u16::MAX,
        0 <= y <= u16::MAX,
        scan.placed ==> scan.cursor == (x, y),
    ensures
        display.perform_all(move_ops(scan, x, y)) == (Display { cursor: (x, y), ..display }),
{
    reveal_with_fuel(Display::perform_all, 2);
    let ops = move_ops(scan, x, y);
    if scan.placed {
    } else {
        assert(ops.drop_last() =~= Seq::<TermOp>::empty());
    }
}

/// After the colours that a cell needs are set, the colours of the cell
/// are set.
proof fn lemma_perform_colors(display: Display, scan: Scan, cell: Cell)
    requires
        display.foreground == scan.foreground,
        display.background == scan.background,
    ensures
        display.perform_all(color_ops(scan, cell)) == (Display {
            foreground: cell.foreground,
            background: cell.background,
            ..display
        }),
{
    reveal_with_fuel(Display::perform_all, 3);
    let ops = color_ops(scan, cell);
    let fg = cell.foreground != scan.foreground;
    let bg = cell.background != scan.background;
    if fg && bg && cell.foreground == TermColor::Default && cell.background == TermColor::Default {
        assert(ops.drop_last() =~= Seq::<TermOp>::empty());
    } else if fg && bg {
        assert(ops =~= seq![
            TermOp::SetForeground(cell.foreground),
            TermOp::SetBackground(cell.background),
        ]);
        assert(ops.drop_last() =~= seq![TermOp::SetForeground(cell.foreground)]);
        assert(ops.drop_last().drop_last() =~= Seq::<TermOp>::empty());
    } else if fg {
        assert(ops =~= seq![TermOp::SetForeground(cell.foreground)]);
        assert(ops.drop_last() =~= Seq::<TermOp>::empty());
    } else if bg {
        assert(ops =~= seq![TermOp::SetBackground(cell.background)]);
        assert(ops.drop_last() =~= Seq::<TermOp>::empty());
    } else {
        assert(ops =~= Seq::<TermOp>::empty());
    }
}

/// Drawing a cell puts the cell on the terminal and leaves the cursor
/// behind it.
proof fn lemma_perform_cell(display: Display, scan: Scan, cell: Cell, x: int, y: int)
    requires
        display.cursor == scan.cursor,
        display.foreground == scan.foreground,
        display.background == scan.background,
        0 <= scan.cursor.0,
        0 <= x <= u16::MAX,
        0 <= y <= u16::MAX,
        scan.placed ==> scan.cursor == (x, y),
        display.has(x, y),
    ensures
        display.perform_all(cell_ops(scan, cell, x, y)) == (Display {
            cells: display.cells.update(y, display.cells[y].update(x, cell)),
            cursor: (x + 1, y),
            foreground: cell.foreground,
            background: cell.background,
        }),
{
    let moves = move_ops(scan, x, y);
    let colors = color_ops(scan, cell);
    let put = seq![TermOp::Put(cell.data)];
    lemma_perform_move(display, scan, x, y);
    let moved = display.perform_all(moves);
    lemma_perform_colors(moved, scan, cell);
    let colored = moved.perform_all(colors);
    lemma_perform_append(display, moves, colors);
    lemma_perform_append(display, moves + colors, put);
    assert(colored.perform_all(put) == colored.perform(TermOp::Put(cell.data))) by {
        reveal_with_fuel(Display::perform_all, 2);
        assert(put.drop_last() =~= Seq::<TermOp>::empty());
    }
}

/// A scan over the first `upto` cells of a row keeps track of the terminal.
proof fn lemma_row_tracks(
    before: Display,
    at_start: Display,
    new: Cells,
    prev: Option<Cells>,
    start: Scan,
    y: int,
    upto: int,
    width: int,
    height: int,
)
    requires
        0 <= y < height <= u16::MAX,
        0 <= upto <= width <= u16::MAX,
        forall|c: int, r: int| 0 <= c < width && 0 <= r < height ==> before.has(c, r),
        prev matches Some(shown) ==> forall|c: int, r: int|
            0 <= c < width && 0 <= r < height ==> before.cells[r][c] == shown[r][c],
        tracks(before, at_start, new, start, 0, y, width, height),
    ensures
        tracks(
            before,
            at_start.perform_all(scan_row(new, prev, y, upto, start).0),
            new,
            scan_row(new, prev, y, upto, start).1,
            upto,
            y,
            width,
            height,
        ),
    decreases upto,
{
    if upto > 0 {
        lemma_row_tracks(before, at_start, new, prev, start, y, upto - 1, width, height);
        let (ops, scan) = scan_row(new, prev, y, upto - 1, start);
        let now = at_start.perform_all(ops);
        let x = upto - 1;
        assert(before.has(x, y));
        assert(now.cells[y].len() == before.cells[y].len());
        if is_changed(new, prev, x, y) {
            let cell = new[y][x];
            lemma_perform_cell(now, scan, cell, x, y);
            lemma_perform_append(at_start, ops, cell_ops(scan, cell, x, y));
            let then = now.perform_all(cell_ops(scan, cell, x, y));
            assert(tracks(before, then, new, after_put(cell, x, y), upto, y, width, height));
        } else {
            assert(before.cells[y][x] == new[y][x]);
            assert(now.cells[y][x] == before.cells[y][x]);
            let unplaced = Scan { placed: false, ..scan };
            assert(tracks(before, now, new, unplaced, upto, y, width, height));
        }
    }
}

/// A scan over the first `upto` rows keeps track of the terminal.
proof fn lemma_rows_track(
    before: Display,
    new: Cells,
    prev: Option<Cells>,
    start: Scan,
    upto: int,
    width: int,
    height: int,
)
    requires
        0 <= upto <= height <= u16::MAX,
        0 <= width <= u16::MAX,
        forall|r: int| 0 <= r < height ==> (#[trigger] new[r]).len() == width,
        forall|c: int, r: int| 0 <= c < width && 0 <= r < height ==> before.has(c, r),
        prev matches Some(shown) ==> forall|c: int, r: int|
            0 <= c < width && 0 <= r < height ==> before.cells[r][c] == shown[r][c],
        before.cursor == start.cursor,
        before.foreground == start.foreground,
        before.background == start.background,
        0 <= start.cursor.0 <= u16::MAX,
    ensures
        tracks(
            before,
            before.perform_all(scan_rows(new, prev, upto, start).0),
            new,
            scan_rows(new, prev, upto, start).1,
            0,
            upto,
            width,
            height,
        ),
    decreases upto,
{
    if upto > 0 {
        lemma_rows_track(before, new, prev, start, upto - 1, width, height);
        let (ops, scan) = scan_rows(new, prev, upto - 1, start);
        let now = before.perform_all(ops);
        let y = upto - 1;
        assert(new[y].len() == width);
        lemma_row_tracks(before, now, new, prev, scan, y, width, width, height);
        let row = scan_row(new, prev, y, width, scan);
        lemma_perform_append(before, ops, row.0);
        let then = now.perform_all(row.0);
        assert(tracks(before, then, new, Scan { placed: false, ..row.1 }, 0, upto, width, height));
    }
}

/// The operations for a frame make the terminal show the frame.
///
/// Let the terminal be as the renderer believes it to be: its cursor and
/// colours as recorded, and, where a frame was drawn before, showing the
/// cells of that frame. After the operations that the renderer returns for
/// `frame`, each cell of the terminal within the frame is the cell of the
/// frame, each cell outside it is as it was, and the cursor and the colours
/// of the terminal are the ones that the renderer records.
pub proof fn lemma_ops_show_frame(frame: &Terminal, state: &TermState, display: Display)
    requires
        frame.shaped(),
        frame.size.0 <= u16::MAX,
        frame.size.1 <= u16::MAX,
        display.believed_by(state, frame.size.0 as int, frame.size.1 as int),
    ensures
        ({
            let after = display.perform_all(frame_ops(frame, state));
            let end = scan_rows(frame@.cells, state.shown(), frame.size.1 as int, state.scan()).1;
            &&& forall|x: int, y: int|
                0 <= x < frame.size.0 && 0 <= y < frame.size.1 ==> after.has(x, y)
                    && after.cells[y][x] == frame@.cells[y][x]
            &&& forall|x: int, y: int|
                display.has(x, y) && !(0 <= x < frame.size.0 && 0 <= y < frame.size.1)
                    ==> after.has(x, y) && after.cells[y][x] == display.cells[y][x]
            &&& after.cursor == end.cursor
            &&& after.foreground == end.foreground
            &&& after.background == end.background
        }),
{
    let new = frame@.cells;
    let width = frame.size.0 as int;
    let height = frame.size.1 as int;
    assert forall|r: int| 0 <= r < height implies (#[trigger] new[r]).len() == width by {
        assert(new[r] == frame.rows@[r]@);
    }
    lemma_rows_track(display, new, state.shown(), state.scan(), height, width, height);
    let after = display.perform_all(frame_ops(frame, state));
    assert forall|x: int, y: int| display.has(x, y) implies after.has(x, y) && after.cells[y][x]
        == if 0 <= x < width && y < height {
        new[y][x]
    } else {
        display.cells[y][x]
    } by {
        assert(after.cells[y].len() == display.cells[y].len());
    }
}

/// The cells that `ops` write at column `x` of row `y`, one after the
/// other, when they are performed on `display`: each with the character
/// written and the colours that are set when it is written.
pub open spec fn written_at(display: Display, ops: Seq<TermOp>, x: int, y: int) -> Seq<Cell>
    decreases ops.len(),
{
    if ops.len() == 0 {
        seq![]
    } else {
        let now = display.perform_all(ops.drop_last());
        written_at(display, ops.drop_last(), x, y) + match ops.last() {
            TermOp::Put(c) => if now.cursor == (x, y) {
                seq![Cell { foreground: now.foreground, background: now.background, data: c }]
            } else {
                seq![]
            },
            _ => seq![],
        }
    }
}

/// Operations in a row write at a place what their parts write there.
pub proof fn lemma_written_at_append(
    display: Display,
    a: Seq<TermOp>,
    b: Seq<TermOp>,
    x: int,
    y: int,
)
    ensures
        written_at(display, a + b, x, y) == written_at(display, a, x, y) + written_at(
            display.perform_all(a),
            b,
            x,
            y,
        ),
    decreases b.len(),
{
    if b.len() == 0 {
        assert(a + b =~= a);
        let so_far = written_at(display, a, x, y);
        assert(so_far + Seq::<Cell>::empty() =~= so_far);
    } else {
        assert((a + b).drop_last() =~= a + b.drop_last());
        assert((a + b).last() == b.last());
        lemma_written_at_append(display, a, b.drop_last(), x, y);
        lemma_perform_append(display, a, b.drop_last());
        assert(written_at(display, a + b, x, y) =~= written_at(display, a, x, y) + written_at(
            display.perform_all(a),
            b,
            x,
            y,
        ));
    }
}

/// Drawing a cell writes the cell once, where it lies, and nothing
/// elsewhere.
proof fn lemma_cell_written_at(
    display: Display,
    scan: Scan,
    cell: Cell,
    cx: int,
    cy: int,
    x: int,
    y: int,
)
    requires
        display.cursor == scan.cursor,
        display.foreground == scan.foreground,
        display.background == scan.background,
        0 <= scan.cursor.0,
        0 <= cx <= u16::MAX,
        0 <= cy <= u16::MAX,
        scan.placed ==> scan.cursor == (cx, cy),
    ensures
        written_at(display, cell_ops(scan, cell, cx, cy), x, y) == if x == cx && y == cy {
            seq![cell]
        } else {
            Seq::<Cell>::empty()
        },
{
    let moves = move_ops(scan, cx, cy);
    let colors = color_ops(scan, cell);
    let put = seq![TermOp::Put(cell.data)];
    lemma_perform_move(display, scan, cx, cy);
    let moved = display.perform_all(moves);
    lemma_perform_colors(moved, scan, cell);
    let colored = moved.perform_all(colors);
    lemma_perform_append(display, moves, colors);
    lemma_written_at_append(display, moves, colors, x, y);
    lemma_written_at_append(display, moves + colors, put, x, y);
    assert(written_at(display, moves, x, y) =~= Seq::<Cell>::empty()) by {
        reveal_with_fuel(written_at, 2);
    }
    assert(written_at(moved, colors, x, y) =~= Seq::<Cell>::empty()) by {
        reveal_with_fuel(written_at, 3);
        let fg = cell.foreground != scan.foreground;
        let bg = cell.background != scan.background;
        if fg && bg && !(cell.foreground == TermColor::Default && cell.background
            == TermColor::Default) {
            assert(colors =~= seq![
                TermOp::SetForeground(cell.foreground),
                TermOp::SetBackground(cell.background),
            ]);
            assert(colors.drop_last() =~= seq![TermOp::SetForeground(cell.foreground)]);
        } else if fg && !bg {
            assert(colors =~= seq![TermOp::SetForeground(cell.foreground)]);
        } else if bg && !fg {
            assert(colors =~= seq![TermOp::SetBackground(cell.background)]);
        } else if !fg && !bg {
            assert(colors =~= Seq::<TermOp>::empty());
        }
    }
    assert(written_at(colored, put, x, y) =~= if x == cx && y == cy {
        seq![cell]
    } else {
        Seq::<Cell>::empty()
    }) by {
        reveal_with_fuel(written_at, 2);
        reveal_with_fuel(Display::perform_all, 2);
        assert(put.drop_last() =~= Seq::<TermOp>::empty());
        assert(colored.cursor == (cx, cy));
        assert(colored.foreground == cell.foreground);
        assert(colored.background == cell.background);
    }
    assert(written_at(display, cell_ops(scan, cell, cx, cy), x, y) =~= if x == cx && y == cy {
        seq![cell]
    } else {
        Seq::<Cell>::empty()
    });
}

/// What a scan writes at column `x` of row `y` while it passes the cells
/// that `passed` tells: the cell of the new frame, once, where the scan has
/// passed it and it has to be drawn, and nothing otherwise.
spec fn written_by_scan(new: Cells, prev: Option<Cells>, passed: bool, x: int, y: int) -> Seq<
    Cell,
> {
    if passed && is_changed(new, prev, x, y) {
        seq![new[y][x]]
    } else {
        seq![]
    }
}

/// A scan over the first `upto` cells of a row writes each of them that
/// has to be drawn once, where it lies, and nothing else.
proof fn lemma_row_written_at(
    before: Display,
    at_start: Display,
    new: Cells,
    prev: Option<Cells>,
    start: Scan,
    row: int,
    upto: int,
    width: int,
    height: int,
    x: int,
    y: int,
)
    requires
        0 <= row < height <= u16::MAX,
        0 <= upto <= width <= u16::MAX,
        forall|c: int, r: int| 0 <= c < width && 0 <= r < height ==> before.has(c, r),
        prev matches Some(shown) ==> forall|c: int, r: int|
            0 <= c < width && 0 <= r < height ==> before.cells[r][c] == shown[r][c],
        tracks(before, at_start, new, start, 0, row, width, height),
    ensures
        written_at(at_start, scan_row(new, prev, row, upto, start).0, x, y) == written_by_scan(
            new,
            prev,
            y == row && 0 <= x < upto,
            x,
            y,
        ),
    decreases upto,
{
    if upto > 0 {
        lemma_row_written_at(
            before,
            at_start,
            new,
            prev,
            start,
            row,
            upto - 1,
            width,
            height,
            x,
            y,
        );
        lemma_row_tracks(before, at_start, new, prev, start, row, upto - 1, width, height);
        let (ops, scan) = scan_row(new, prev, row, upto - 1, start);
        let now = at_start.perform_all(ops);
        let cx = upto - 1;
        let so_far = written_at(at_start, ops, x, y);
        if is_changed(new, prev, cx, row) {
            let cell = new[row][cx];
            lemma_cell_written_at(now, scan, cell, cx, row, x, y);
            lemma_written_at_append(at_start, ops, cell_ops(scan, cell, cx, row), x, y);
            assert(so_far + written_at(now, cell_ops(scan, cell, cx, row), x, y)
                =~= written_by_scan(new, prev, y == row && 0 <= x < upto, x, y));
        }
    } else {
        assert(written_at(at_start, scan_row(new, prev, row, upto, start).0, x, y)
            =~= Seq::<Cell>::empty());
    }
}

/// A scan over the first `upto` rows writes each of their cells that has to
/// be drawn once, where it lies, and nothing else.
proof fn lemma_rows_written_at(
    before: Display,
    new: Cells,
    prev: Option<Cells>,
    start: Scan,
    upto: int,
    width: int,
    height: int,
    x: int,
    y: int,
)
    requires
        0 <= upto <= height <= u16::MAX,
        0 <= width <= u16::MAX,
        forall|r: int| 0 <= r < height ==> (#[trigger] new[r]).len() == width,
        forall|c: int, r: int| 0 <= c < width && 0 <= r < height ==> before.has(c, r),
        prev matches Some(shown) ==> forall|c: int, r: int|
            0 <= c < width && 0 <= r < height ==> before.cells[r][c] == shown[r][c],
        before.cursor == start.cursor,
        before.foreground == start.foreground,
        before.background == start.background,
        0 <= start.cursor.0 <= u16::MAX,
    ensures
        written_at(before, scan_rows(new, prev, upto, start).0, x, y) == written_by_scan(
            new,
            prev,
            0 <= y < upto && 0 <= x < width,
            x,
            y,
        ),
    decreases upto,
{
    if upto > 0 {
        lemma_rows_written_at(before, new, prev, start, upto - 1, width, height, x, y);
        lemma_rows_track(before, new, prev, start, upto - 1, width, height);
        let (ops, scan) = scan_rows(new, prev, upto - 1, start);
        let now = before.perform_all(ops);
        let row = upto - 1;
        assert(new[row].len() == width);
        lemma_row_written_at(before, now, new, prev, scan, row, width, width, height, x, y);
        let row_ops = scan_row(new, prev, row, width, scan).0;
        lemma_written_at_append(before, ops, row_ops, x, y);
        assert(written_at(before, ops, x, y) + written_at(now, row_ops, x, y) =~= written_by_scan(
            new,
            prev,
            0 <= y < upto && 0 <= x < width,
            x,
            y,
        ));
    } else {
        assert(written_at(before, scan_rows(new, prev, upto, start).0, x, y)
            =~= Seq::<Cell>::empty());
    }
}

/// The operations for a frame write each cell that has to be drawn once,
/// where it lies, and write nothing else.
///
/// On a terminal that is as the renderer believes it to be, the cell of the
/// frame is written at column `x` of row `y`, with its character and in its
/// colours, and once only, where that is a cell of the frame that differs
/// from the cell shown there, or where no frame was drawn before. Nothing is
/// written at any other place, on the terminal or off it.
pub proof fn lemma_one_write_per_changed_cell(
    frame: &Terminal,
    state: &TermState,
    display: Display,
    x: int,
    y: int,
)
    requires
        frame.shaped(),
        frame.size.0 <= u16::MAX,
        frame.size.1 <= u16::MAX,
        display.believed_by(state, frame.size.0 as int, frame.size.1 as int),
    ensures
        written_at(display, frame_ops(frame, state), x, y) == if 0 <= x < frame.size.0 && 0 <= y
            < frame.size.1 && is_changed(frame@.cells, state.shown(), x, y) {
            seq![frame@.cells[y][x]]
        } else {
            Seq::<Cell>::empty()
        },
        state.buffer is None && 0 <= x < frame.size.0 && 0 <= y < frame.size.1 ==> written_at(
            display,
            frame_ops(frame, state),
            x,
            y,
        ) == seq![frame@.cells[y][x]],
{
    let new = frame@.cells;
    let width = frame.size.0 as int;
    let height = frame.size.1 as int;
    assert forall|r: int| 0 <= r < height implies (#[trigger] new[r]).len() == width by {
        assert(new[r] == frame.rows@[r]@);
    }
    lemma_rows_written_at(display, new, state.shown(), state.scan(), height, width, height, x, y);
}

} // verus!
