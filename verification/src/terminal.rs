//! The frame buffer: a grid of coloured characters with a cursor and a pen.

pub use crate::clamp::clamp;
use vstd::std_specs::iter::IteratorSpec;
use vstd::prelude::*;

verus! {

/// A colour of the terminal: its default, or one of an indexed palette.
#[derive(Debug, Clone, Copy, PartialEq, Eq, Structural)]
pub enum TermColor {
    Default,
    Color(u8),
}

/// One character cell of the terminal.
#[derive(Debug, Clone, Copy, PartialEq, Eq, Structural)]
pub struct Cell {
    pub foreground: TermColor,
    pub background: TermColor,
    pub data: char,
}

/// The cell of an untouched terminal: a space in the default colours.
pub open spec fn blank() -> Cell {
    Cell { foreground: TermColor::Default, background: TermColor::Default, data: ' ' }
}

impl Default for Cell {
    fn default() -> (cell: Cell)
        ensures
            cell == blank(),
    {
        Cell { foreground: TermColor::Default, background: TermColor::Default, data: ' ' }
    }
}

/// What a [`Terminal`] holds, as mathematics: the cells by row and column,
/// where the cursor stands, and the colours of the pen.
pub ghost struct Screen {
    pub width: nat,
    pub height: nat,
    pub cells: Seq<Seq<Cell>>,
    pub cursor: (nat, nat),
    pub foreground: TermColor,
    pub background: TermColor,
}

/// The smaller of two numbers.
pub open spec fn at_most(a: int, b: int) -> int {
    if a <= b {
        a
    } else {
        b
    }
}

impl Screen {
    /// The cells agree with the stated size, which is not empty, and the
    /// cursor stands on a cell.
    pub open spec fn wf(self) -> bool {
        &&& self.cells.len() == self.height
        &&& forall|y: int| 0 <= y < self.height ==> (#[trigger] self.cells[y]).len() == self.width
        &&& self.cursor.0 < self.width
        &&& self.cursor.1 < self.height
    }

    /// The screen with the cursor moved to column `x` of row `y`, or as
    /// near to it as the screen reaches.
    pub open spec fn goto(self, x: nat, y: nat) -> Screen {
        Screen {
            cursor: (
                at_most(x as int, self.width - 1) as nat,
                at_most(y as int, self.height - 1) as nat,
            ),
            ..self
        }
    }

    pub open spec fn up(self, amount: nat) -> Screen {
        self.goto(
            self.cursor.0,
            if amount <= self.cursor.1 {
                (self.cursor.1 - amount) as nat
            } else {
                0
            },
        )
    }

    pub open spec fn right(self, amount: nat) -> Screen {
        self.goto(self.cursor.0 + amount, self.cursor.1)
    }

    pub open spec fn down(self, amount: nat) -> Screen {
        self.goto(self.cursor.0, self.cursor.1 + amount)
    }

    pub open spec fn left(self, amount: nat) -> Screen {
        self.goto(
            if amount <= self.cursor.0 {
                (self.cursor.0 - amount) as nat
            } else {
                0
            },
            self.cursor.1,
        )
    }

    /// The screen with the cursor at the start of its row.
    pub open spec fn ret(self) -> Screen {
        Screen { cursor: (0, self.cursor.1), ..self }
    }

    pub open spec fn with_foreground(self, color: TermColor) -> Screen {
        Screen { foreground: color, ..self }
    }

    pub open spec fn with_background(self, color: TermColor) -> Screen {
        Screen { background: color, ..self }
    }

    /// The screen with every cell blank.
    pub open spec fn cleared(self) -> Screen {
        Screen { cells: blank_cells(self.width, self.height), ..self }
    }

    /// The screen with `c` put under the cursor in the colours of the pen,
    /// and the cursor one column further right, if there is one.
    pub open spec fn put(self, c: char) -> Screen {
        let cell = Cell { foreground: self.foreground, background: self.background, data: c };
        let row = self.cursor.1 as int;
        Screen {
            cells: self.cells.update(row, self.cells[row].update(self.cursor.0 as int, cell)),
            ..self
        }.right(1)
    }

    /// The number of characters that a line may write which starts where
    /// the cursor stands: as many as there are columns from the cursor on,
    /// and one more, which lands on the last column again.
    pub open spec fn room(self) -> nat {
        (self.width - self.cursor.0 + 1) as nat
    }

    /// The screen after the characters of `s`, of which the current line may
    /// still write `room`.
    ///
    /// A line feed moves the cursor to the start of the next row, or of the
    /// last row when there is none below. Any other character is put under
    /// the cursor while the line has room, and is dropped once it has none.
    pub open spec fn write_within(self, s: Seq<char>, room: nat) -> Screen
        decreases s.len(),
    {
        if s.len() == 0 {
            self
        } else if s[0] == '\n' {
            let next = self.goto(0, self.cursor.1 + 1);
            next.write_within(s.drop_first(), next.room())
        } else if room > 0 {
            self.put(s[0]).write_within(s.drop_first(), (room - 1) as nat)
        } else {
            self.write_within(s.drop_first(), 0)
        }
    }

    /// The screen after writing `s` from where the cursor stands.
    pub open spec fn write(self, s: Seq<char>) -> Screen {
        self.write_within(s, self.room())
    }
}

/// Whether `after` is `before` with the characters of `s` written into row
/// `y` from column `x` on, in the colours `foreground` on `background`.
pub open spec fn text_placed(
    before: Seq<Seq<Cell>>,
    after: Seq<Seq<Cell>>,
    s: Seq<char>,
    x: int,
    y: int,
    foreground: TermColor,
    background: TermColor,
) -> bool {
    &&& after.len() == before.len()
    &&& forall|r: int| 0 <= r < before.len() ==> (#[trigger] after[r]).len() == before[r].len()
    &&& forall|c: int, r: int|
        0 <= r < before.len() && 0 <= c < before[r].len() ==> #[trigger] after[r][c] == if r == y
            && x <= c < x + s.len() {
            Cell { foreground, background, data: s[c - x] }
        } else {
            before[r][c]
        }
}

/// A character that is put on a screen in good order changes the cell
/// under the cursor only, and moves the cursor on by one where there is room.
proof fn lemma_put(screen: Screen, c0: char)
    requires
        screen.wf(),
    ensures
        ({
            let after = screen.put(c0);
            let (x, y) = (screen.cursor.0 as int, screen.cursor.1 as int);
            &&& after.wf()
            &&& after == (Screen { cells: after.cells, cursor: after.cursor, ..screen })
            &&& after.cursor == (at_most(x + 1, screen.width - 1) as nat, screen.cursor.1)
            &&& after.cells == screen.cells.update(
                y,
                screen.cells[y].update(
                    x,
                    Cell { foreground: screen.foreground, background: screen.background, data: c0 },
                ),
            )
            &&& after.cells.len() == screen.cells.len()
            &&& forall|r: int| 0 <= r < screen.cells.len() ==> (#[trigger] after.cells[r]).len()
                == screen.cells[r].len()
            &&& forall|c: int, r: int|
                0 <= r < screen.cells.len() && 0 <= c < screen.cells[r].len()
                    ==> #[trigger] after.cells[r][c] == if r == y && c == x {
                    Cell { foreground: screen.foreground, background: screen.background, data: c0 }
                } else {
                    screen.cells[r][c]
                }
        }),
{
}

/// Characters that a line has room for, and that end before the last
/// column, are written one beside the other.
proof fn lemma_write_within_plain(screen: Screen, s: Seq<char>, room: nat)
    requires
        screen.wf(),
        forall|i: int| 0 <= i < s.len() ==> s[i] != '\n',
        screen.cursor.0 + s.len() < screen.width,
        room >= s.len(),
    ensures
        ({
            let after = screen.write_within(s, room);
            &&& after.wf()
            &&& after == (Screen {
                cells: after.cells,
                cursor: (screen.cursor.0 + s.len(), screen.cursor.1),
                ..screen
            })
            &&& text_placed(
                screen.cells,
                after.cells,
                s,
                screen.cursor.0 as int,
                screen.cursor.1 as int,
                screen.foreground,
                screen.background,
            )
        }),
    decreases s.len(),
{
    if s.len() > 0 {
        let next = screen.put(s[0]);
        let rest = s.drop_first();
        lemma_put(screen, s[0]);
        lemma_write_within_plain(next, rest, (room - 1) as nat);
        let after = next.write_within(rest, (room - 1) as nat);
        let (x, y) = (screen.cursor.0 as int, screen.cursor.1 as int);
        assert forall|c: int, r: int|
            0 <= r < screen.cells.len() && 0 <= c < screen.cells[r].len()
            implies #[trigger] after.cells[r][c] == if r == y && x <= c < x + s.len() {
            Cell { foreground: screen.foreground, background: screen.background, data: s[c - x] }
        } else {
            screen.cells[r][c]
        } by {
            let first = Cell {
                foreground: screen.foreground,
                background: screen.background,
                data: s[0],
            };
            assert(next.cells[r].len() == screen.cells[r].len());
            assert(next.cursor == ((x + 1) as nat, y as nat));
            if r == y && c == x {
                assert(after.cells[r][c] == next.cells[r][c]);
                assert(next.cells[r][c] == first);
            } else if r == y && x < c < x + s.len() {
                assert(after.cells[r][c] == (Cell {
                    foreground: screen.foreground,
                    background: screen.background,
                    data: rest[c - (x + 1)],
                }));
                assert(rest[c - (x + 1)] == s[c - x]);
            } else {
                assert(after.cells[r][c] == next.cells[r][c]);
                assert(next.cells[r][c] == screen.cells[r][c]);
            }
        }
        assert forall|r: int| 0 <= r < screen.cells.len() implies (#[trigger] after.cells[r]).len()
            == screen.cells[r].len() by {
            assert(next.cells[r].len() == screen.cells[r].len());
        }
    }
}

/// A text without line feeds that ends before the last column is written
/// as it stands: its characters take the cells from the cursor on, in the
/// colours of the pen, the cursor comes to stand behind the last of them,
/// and nothing else changes.
pub proof fn lemma_write_plain(screen: Screen, s: Seq<char>)
    requires
        screen.wf(),
        forall|i: int| 0 <= i < s.len() ==> s[i] != '\n',
        screen.cursor.0 + s.len() < screen.width,
    ensures
        ({
            let after = screen.write(s);
            &&& after.wf()
            &&& after == (Screen {
                cells: after.cells,
                cursor: (screen.cursor.0 + s.len(), screen.cursor.1),
                ..screen
            })
            &&& text_placed(
                screen.cells,
                after.cells,
                s,
                screen.cursor.0 as int,
                screen.cursor.1 as int,
                screen.foreground,
                screen.background,
            )
        }),
{
    lemma_write_within_plain(screen, s, screen.room());
}

/// A blank screen of `width` columns and `height` rows, the cursor in its top
/// left corner and the pen in the default colours.
pub open spec fn fresh_screen(width: nat, height: nat) -> Screen {
    Screen {
        width: width,
        height: height,
        cells: blank_cells(width, height),
        cursor: (0, 0),
        foreground: TermColor::Default,
        background: TermColor::Default,
    }
}

/// `height` rows of `width` blank cells.
pub open spec fn blank_cells(width: nat, height: nat) -> Seq<Seq<Cell>> {
    Seq::new(height, |y: int| Seq::new(width, |x: int| blank()))
}

/// The character `c`, `count` times.
pub open spec fn repeated(c: char, count: nat) -> Seq<char> {
    Seq::new(count, |i: int| c)
}

/// A frame buffer of `size.0` columns and `size.1` rows.
pub struct Terminal {
    pub foreground: TermColor,
    pub background: TermColor,
    pub size: (usize, usize),
    pub cursor: (usize, usize),
    pub rows: Vec<Vec<Cell>>,
}

impl View for Terminal {
    type V = Screen;

    open spec fn view(&self) -> Screen {
        Screen {
            width: self.size.0 as nat,
            height: self.size.1 as nat,
            cells: Seq::new(self.rows@.len(), |y: int| self.rows@[y]@),
            cursor: (self.cursor.0 as nat, self.cursor.1 as nat),
            foreground: self.foreground,
            background: self.background,
        }
    }
}

/// A row of `width` blank cells.
fn blank_row(width: usize) -> (row: Vec<Cell>)
    ensures
        row@ == Seq::new(width as nat, |x: int| blank()),
{
    let mut row: Vec<Cell> = Vec::new();
    let mut x: usize = 0;
    while x < width
        invariant
            x <= width,
            row@ == Seq::new(x as nat, |i: int| blank()),
        decreases width - x,
    {
        row.push(Cell::default());
        x += 1;
        assert(row@ =~= Seq::new(x as nat, |i: int| blank()));
    }
    row
}

/// `height` rows of `width` blank cells.
fn blank_rows(width: usize, height: usize) -> (rows: Vec<Vec<Cell>>)
    ensures
        rows@.len() == height,
        forall|y: int|
            0 <= y < height ==> (#[trigger] rows@[y])@ == Seq::new(width as nat, |x: int| blank()),
{
    let mut rows: Vec<Vec<Cell>> = Vec::new();
    let mut y: usize = 0;
    while y < height
        invariant
            y <= height,
            rows@.len() == y,
            forall|r: int|
                0 <= r < y ==> (#[trigger] rows@[r])@ == Seq::new(width as nat, |x: int| blank()),
        decreases height - y,
    {
        rows.push(blank_row(width));
        y += 1;
    }
    rows
}

impl Terminal {
    /// The rows agree with the stated size.
    pub open spec fn shaped(&self) -> bool {
        &&& self.rows@.len() == self.size.1
        &&& forall|y: int|
            0 <= y < self.rows@.len() ==> (#[trigger] self.rows@[y])@.len() == self.size.0
    }

    /// The rows agree with the stated size, which is not empty, and the
    /// cursor stands on a cell.
    pub open spec fn wf(&self) -> bool {
        self@.wf()
    }

    /// Whether the rows agree with the stated size.
    pub fn is_shaped(&self) -> (ok: bool)
        ensures
            ok == self.shaped(),
    {
        if self.rows.len() != self.size.1 {
            return false;
        }
        let mut y: usize = 0;
        while y < self.rows.len()
            invariant
                y <= self.rows@.len(),
                self.rows@.len() == self.size.1,
                forall|r: int| 0 <= r < y ==> (#[trigger] self.rows@[r])@.len() == self.size.0,
            decreases self.rows@.len() - y,
        {
            if self.rows[y].len() != self.size.0 {
                return false;
            }
            y += 1;
        }
        true
    }

    /// A buffer in good order has its rows in shape.
    pub proof fn lemma_wf_shaped(&self)
        requires
            self.wf(),
        ensures
            self.shaped(),
            self.size.0 > 0,
            self.size.1 > 0,
            self.cursor.0 < self.size.0,
            self.cursor.1 < self.size.1,
    {
        assert forall|y: int| 0 <= y < self.rows@.len() implies (#[trigger] self.rows@[y])@.len()
            == self.size.0 by {
            assert(self@.cells[y].len() == self.size.0);
        }
    }

    /// A blank buffer of `width` columns and `height` rows, the cursor in
    /// its top left corner and the pen in the default colours.
    pub fn new(width: usize, height: usize) -> (terminal: Terminal)
        ensures
            terminal.size == (width, height),
            terminal@ == fresh_screen(width as nat, height as nat),
            terminal.shaped(),
            width > 0 && height > 0 ==> terminal.wf(),
    {
        let terminal = Terminal {
            foreground: TermColor::Default,
            background: TermColor::Default,
            size: (width, height),
            cursor: (0, 0),
            rows: blank_rows(width, height),
        };
        assert(terminal@.cells =~= Seq::new(
            height as nat,
            |y: int| Seq::new(width as nat, |x: int| blank()),
        ));
        terminal
    }

    /// Blanks every cell. The cursor and the pen stay as they are.
    pub fn clear(&mut self)
        ensures
            final(self).size == old(self).size,
            old(self).wf() ==> final(self).wf(),
            final(self)@ == old(self)@.cleared(),
    {
        self.rows = blank_rows(self.size.0, self.size.1);
        assert(self@.cells =~= old(self)@.cleared().cells);
    }

    /// Sets the colour in which characters are drawn from now on.
    pub fn set_foreground(&mut self, color: TermColor)
        ensures
            final(self).size == old(self).size,
            old(self).wf() ==> final(self).wf(),
            final(self)@ == old(self)@.with_foreground(color),
    {
        self.foreground = color;
    }

    /// Sets the colour behind the characters drawn from now on.
    pub fn set_background(&mut self, color: TermColor)
        ensures
            final(self).size == old(self).size,
            old(self).wf() ==> final(self).wf(),
            final(self)@ == old(self)@.with_background(color),
    {
        self.background = color;
    }

    /// Moves the cursor to column `x` of row `y`, or as near to it as the
    /// buffer reaches.
    pub fn goto(&mut self, x: usize, y: usize)
        requires
            old(self).size.0 > 0,
            old(self).size.1 > 0,
        ensures
            final(self).size == old(self).size,
            old(self).wf() ==> final(self).wf(),
            final(self)@ == old(self)@.goto(x as nat, y as nat),
    {
        let x = clamp(x, 0, self.size.0 - 1);
        let y = clamp(y, 0, self.size.1 - 1);
        self.cursor = (x, y);
    }

    /// Moves the cursor up by `amount` rows, at most to the first row.
    pub fn up(&mut self, amount: usize)
        requires
            old(self).size.0 > 0,
            old(self).size.1 > 0,
        ensures
            final(self).size == old(self).size,
            old(self).wf() ==> final(self).wf(),
            final(self)@ == old(self)@.up(amount as nat),
    {
        let y = match self.cursor.1.checked_sub(amount) {
            Some(y) => y,
            None => 0,
        };
        self.goto(self.cursor.0, y);
    }

    /// Moves the cursor right by `amount` columns, at most to the last
    /// column.
    pub fn right(&mut self, amount: usize)
        requires
            old(self).size.0 > 0,
            old(self).size.1 > 0,
            old(self).cursor.0 + amount <= usize::MAX,
        ensures
            final(self).size == old(self).size,
            old(self).wf() ==> final(self).wf(),
            final(self)@ == old(self)@.right(amount as nat),
    {
        self.goto(self.cursor.0 + amount, self.cursor.1);
    }

    /// Moves the cursor down by `amount` rows, at most to the last row.
    pub fn down(&mut self, amount: usize)
        requires
            old(self).size.0 > 0,
            old(self).size.1 > 0,
            old(self).cursor.1 + amount <= usize::MAX,
        ensures
            final(self).size == old(self).size,
            old(self).wf() ==> final(self).wf(),
            final(self)@ == old(self)@.down(amount as nat),
    {
        self.goto(self.cursor.0, self.cursor.1 + amount);
    }

    /// Moves the cursor left by `amount` columns, at most to the first
    /// column.
    pub fn left(&mut self, amount: usize)
        requires
            old(self).size.0 > 0,
            old(self).size.1 > 0,
        ensures
            final(self).size == old(self).size,
            old(self).wf() ==> final(self).wf(),
            final(self)@ == old(self)@.left(amount as nat),
    {
        let x = match self.cursor.0.checked_sub(amount) {
            Some(x) => x,
            None => 0,
        };
        self.goto(x, self.cursor.1);
    }

    /// Puts `c` under the cursor, in the colours of the pen, and moves the
    /// cursor one column to the right, if there is one.
    pub fn put(&mut self, c: char)
        requires
            old(self).wf(),
        ensures
            final(self).wf(),
            final(self).size == old(self).size,
            final(self)@ == old(self)@.put(c),
    {
        let cell = Cell { foreground: self.foreground, background: self.background, data: c };
        self.rows[self.cursor.1][self.cursor.0] = cell;
        assert(self@.cells =~= old(self)@.cells.update(
            old(self).cursor.1 as int,
            old(self)@.cells[old(self).cursor.1 as int].update(old(self).cursor.0 as int, cell),
        ));
        self.right(1);
    }

    /// Writes one character of a line that may still write `room`
    /// characters, and returns the room that is left.
    fn write_char(&mut self, c: char, room: u128) -> (left: u128)
        requires
            old(self).wf(),
            room <= old(self).size.0 + 1,
        ensures
            final(self).wf(),
            final(self).size == old(self).size,
            left <= final(self).size.0 + 1,
            forall|rest: Seq<char>|
                old(self)@.write_within(seq![c] + rest, room as nat) == final(self)@.write_within(
                    rest,
                    left as nat,
                ),
    {
        let ghost before = self@;
        assert forall|rest: Seq<char>| (#[trigger] (seq![c] + rest)).drop_first() == rest by {
            assert((seq![c] + rest).drop_first() =~= rest);
        }
        if c == '\n' {
            self.goto(0, self.cursor.1 + 1);
            (self.size.0 - self.cursor.0) as u128 + 1
        } else if room > 0 {
            self.put(c);
            room - 1
        } else {
            0
        }
    }

    /// Writes `s` from where the cursor stands, in the colours of the pen.
    ///
    /// Each character takes one cell and moves the cursor right. On the last
    /// column the cursor stays, so that one more character replaces the
    /// one written there, and the rest of the line is dropped. A line feed
    /// moves the cursor to the start of the next row.
    pub fn write_str(&mut self, s: &str)
        requires
            old(self).wf(),
        ensures
            final(self).wf(),
            final(self).size == old(self).size,
            final(self)@ == old(self)@.write(s@),
    {
        let mut room: u128 = (self.size.0 - self.cursor.0) as u128 + 1;
        let ghost mut done: int = 0;
        let mut chars = s.chars();
        assert(s@.subrange(0, s@.len() as int) =~= s@);
        loop
            invariant
                self.wf(),
                self.size == old(self).size,
                room <= self.size.0 + 1,
                0 <= done <= s@.len(),
                chars.remaining() == s@.subrange(done, s@.len() as int),
                self@.write_within(s@.subrange(done, s@.len() as int), room as nat) == old(
                    self
                )@.write(s@),
            ensures
                done == s@.len(),
            decreases s@.len() - done,
        {
            match chars.next() {
                None => {
                    break ;
                },
                Some(c) => {
                    assert(s@.subrange(done, s@.len() as int) =~= seq![c] + s@.subrange(
                        done + 1,
                        s@.len() as int,
                    ));
                    room = self.write_char(c, room);
                    proof {
                        done = done + 1;
                    }
                },
            }
        }
    }

    /// Writes the characters of `s` as [`Terminal::write_str`] writes those
    /// of a string.
    pub fn write_chars(&mut self, s: &Vec<char>)
        requires
            old(self).wf(),
        ensures
            final(self).wf(),
            final(self).size == old(self).size,
            final(self)@ == old(self)@.write(s@),
    {
        let mut room: u128 = (self.size.0 - self.cursor.0) as u128 + 1;
        let mut done: usize = 0;
        assert(s@.subrange(0, s@.len() as int) =~= s@);
        while done < s.len()
            invariant
                self.wf(),
                self.size == old(self).size,
                room <= self.size.0 + 1,
                done <= s@.len(),
                self@.write_within(s@.subrange(done as int, s@.len() as int), room as nat)
                    == old(self)@.write(s@),
            decreases s@.len() - done,
        {
            assert(s@.subrange(done as int, s@.len() as int) =~= seq![s@[done as int]]
                + s@.subrange(done + 1, s@.len() as int));
            room = self.write_char(s[done], room);
            done += 1;
        }
    }

    /// Writes `c` `count` times, as [`Terminal::write_str`] writes a string
    /// of that many characters.
    pub fn write_repeated(&mut self, c: char, count: usize)
        requires
            old(self).wf(),
        ensures
            final(self).wf(),
            final(self).size == old(self).size,
            final(self)@ == old(self)@.write(repeated(c, count as nat)),
    {
        let mut room: u128 = (self.size.0 - self.cursor.0) as u128 + 1;
        let mut done: usize = 0;
        while done < count
            invariant
                self.wf(),
                self.size == old(self).size,
                room <= self.size.0 + 1,
                done <= count,
                self@.write_within(repeated(c, (count - done) as nat), room as nat) == old(
                    self
                )@.write(repeated(c, count as nat)),
            decreases count - done,
        {
            assert(repeated(c, (count - done) as nat) =~= seq![c] + repeated(
                c,
                (count - done - 1) as nat,
            ));
            room = self.write_char(c, room);
            done += 1;
        }
    }

    /// Moves the cursor to the start of its row.
    pub fn ret(&mut self)
        ensures
            final(self).size == old(self).size,
            old(self).wf() ==> final(self).wf(),
            final(self)@ == old(self)@.ret(),
    {
        self.cursor.0 = 0;
    }
}

} // verus!
