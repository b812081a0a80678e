//! The playing board: a grid of colour codes with two board rows for each
//! row of the terminal.

use vstd::prelude::*;

verus! {

/// The value of a cell that holds nothing.
pub const EMPTY: i16 = -1;

/// A grid of cell values, `height + 1` rows of `width` cells each.
///
/// A cell holds [`EMPTY`] or a colour code from 0 to 15. The view of a board
/// is the sequence of its rows from top to bottom, each row the sequence of
/// its cells from left to right.
pub struct Board {
    pub width: usize,
    pub height: usize,
    pub rows: Vec<Vec<i16>>,
}

impl View for Board {
    type V = Seq<Seq<i16>>;

    open spec fn view(&self) -> Seq<Seq<i16>> {
        Seq::new(self.rows@.len(), |y: int| self.rows@[y]@)
    }
}

/// A board as mathematics: the dimensions that it states, and its rows.
pub ghost struct Grid {
    pub width: nat,
    pub height: nat,
    pub rows: Seq<Seq<i16>>,
}

/// A grid of `rows` rows of `width` cells that all hold `value`.
pub open spec fn uniform_grid(width: nat, rows: nat, value: i16) -> Seq<Seq<i16>> {
    Seq::new(rows, |y: int| Seq::new(width, |x: int| value))
}

/// The grid `before` with `value` written to each of its cells whose
/// coordinates `(x, y)` are in `cells`.
pub open spec fn painted(before: Seq<Seq<i16>>, cells: Set<(int, int)>, value: i16) -> Seq<
    Seq<i16>,
> {
    Seq::new(
        before.len(),
        |y: int|
            Seq::new(
                before[y].len(),
                |x: int|
                    if cells.contains((x, y)) {
                        value
                    } else {
                        before[y][x]
                    },
            ),
    )
}

/// Painting with no cells changes nothing.
pub proof fn lemma_painted_nothing(before: Seq<Seq<i16>>, value: i16)
    ensures
        painted(before, Set::empty(), value) == before,
{
    let after = painted(before, Set::empty(), value);
    assert forall|y: int| 0 <= y < before.len() implies after[y] == before[y] by {
        assert(after[y] =~= before[y]);
    }
    assert(after =~= before);
}

/// Painting one set of cells and then another, in the same colour, is
/// painting their union.
pub proof fn lemma_painted_twice(
    before: Seq<Seq<i16>>,
    first: Set<(int, int)>,
    second: Set<(int, int)>,
    value: i16,
)
    ensures
        painted(painted(before, first, value), second, value) == painted(
            before,
            first.union(second),
            value,
        ),
{
    let twice = painted(painted(before, first, value), second, value);
    let once = painted(before, first.union(second), value);
    assert forall|y: int| 0 <= y < before.len() implies twice[y] == once[y] by {
        assert(twice[y] =~= once[y]);
    }
    assert(twice =~= once);
}

/// Writing one cell is painting the set that holds just that cell.
pub proof fn lemma_update_is_painted(before: Seq<Seq<i16>>, x: int, y: int, value: i16)
    requires
        0 <= y < before.len(),
        0 <= x < before[y].len(),
    ensures
        before.update(y, before[y].update(x, value)) == painted(before, set![(x, y)], value),
{
    let a = before.update(y, before[y].update(x, value));
    let b = painted(before, set![(x, y)], value);
    assert forall|r: int| 0 <= r < before.len() implies a[r] == b[r] by {
        assert(a[r] =~= b[r]);
    }
    assert(a =~= b);
}

/// A row of `width` cells that all hold `init`.
fn filled_row(width: usize, init: i16) -> (row: Vec<i16>)
    ensures
        row@ == Seq::new(width as nat, |x: int| init),
{
    let mut row: Vec<i16> = Vec::new();
    let mut x: usize = 0;
    while x < width
        invariant
            x <= width,
            row@ == Seq::new(x as nat, |i: int| init),
        decreases width - x,
    {
        row.push(init);
        x += 1;
        assert(row@ =~= Seq::new(x as nat, |i: int| init));
    }
    row
}

/// A copy of `row`.
fn copied_row(row: &Vec<i16>) -> (copy: Vec<i16>)
    ensures
        copy@ == row@,
{
    let mut copy: Vec<i16> = Vec::new();
    let mut x: usize = 0;
    while x < row.len()
        invariant
            x <= row@.len(),
            copy@ == row@.subrange(0, x as int),
        decreases row@.len() - x,
    {
        copy.push(row[x]);
        x += 1;
        assert(copy@ =~= row@.subrange(0, x as int));
    }
    assert(row@.subrange(0, row@.len() as int) =~= row@);
    copy
}

impl Board {
    /// The rows agree with the stated dimensions.
    pub open spec fn wf(&self) -> bool {
        &&& self.rows@.len() == self.height + 1
        &&& forall|y: int|
            0 <= y < self.rows@.len() ==> (#[trigger] self.rows@[y])@.len() == self.width
    }

    /// The board as mathematics, with the dimensions that it states.
    pub open spec fn grid(&self) -> Grid {
        Grid { width: self.width as nat, height: self.height as nat, rows: self@ }
    }

    /// Whether column `x` of row `y` lies on the board.
    pub open spec fn has(&self, x: int, y: int) -> bool {
        0 <= x < self.width && 0 <= y <= self.height
    }

    /// The value at column `x` of row `y`.
    pub open spec fn cell(&self, x: int, y: int) -> i16 {
        self.rows@[y]@[x]
    }

    /// A board has one row more than its height, so its height is below the
    /// largest machine word.
    pub proof fn lemma_height_fits(&self)
        requires
            self.wf(),
        ensures
            self.height < usize::MAX,
    {
        assert(self.rows@.len() == self.rows.len());
    }

    /// Whether the rows agree with the stated dimensions.
    pub fn is_wf(&self) -> (ok: bool)
        ensures
            ok == self.wf(),
    {
        let count = self.rows.len();
        if self.height == usize::MAX || count != self.height + 1 {
            return false;
        }
        let mut y: usize = 0;
        while y < self.rows.len()
            invariant
                y <= self.rows@.len(),
                self.rows@.len() == self.height + 1,
                forall|r: int| 0 <= r < y ==> (#[trigger] self.rows@[r])@.len() == self.width,
            decreases self.rows@.len() - y,
        {
            if self.rows[y].len() != self.width {
                return false;
            }
            y += 1;
        }
        true
    }

    /// An empty board for a playfield of `width` by `height` cells.
    pub fn new(width: usize, height: usize) -> (board: Board)
        requires
            height < usize::MAX,
        ensures
            board.wf(),
            board.width == width,
            board.height == height,
            board@ == uniform_grid(width as nat, (height + 1) as nat, EMPTY),
    {
        Self::new_init(width, height, EMPTY)
    }

    /// A board for a playfield of `width` by `height` cells, every cell
    /// holding `init`.
    pub fn new_init(width: usize, height: usize, init: i16) -> (board: Board)
        requires
            height < usize::MAX,
        ensures
            board.wf(),
            board.width == width,
            board.height == height,
            board@ == uniform_grid(width as nat, (height + 1) as nat, init),
    {
        let mut rows: Vec<Vec<i16>> = Vec::new();
        let mut y: usize = 0;
        while y < height + 1
            invariant
                y <= height + 1,
                height < usize::MAX,
                rows@.len() == y,
                forall|r: int|
                    0 <= r < y ==> (#[trigger] rows@[r])@ == Seq::new(width as nat, |x: int| init),
            decreases height + 1 - y,
        {
            rows.push(filled_row(width, init));
            y += 1;
        }
        let board = Board { width, height, rows };
        assert(board@ =~= uniform_grid(width as nat, (height + 1) as nat, init));
        board
    }

    /// Writes `val` to column `x` of row `y`.
    pub fn set_pixel(&mut self, x: usize, y: usize, val: i16)
        requires
            old(self).wf(),
            old(self).has(x as int, y as int),
        ensures
            final(self).wf(),
            final(self).width == old(self).width,
            final(self).height == old(self).height,
            final(self)@ == old(self)@.update(y as int, old(self)@[y as int].update(x as int, val)),
            final(self)@ == painted(old(self)@, set![(x as int, y as int)], val),
    {
        self.rows[y][x] = val;
        proof {
            assert(self@ =~= old(self)@.update(
                y as int,
                old(self)@[y as int].update(x as int, val),
            ));
            lemma_update_is_painted(old(self)@, x as int, y as int, val);
        }
    }

    /// Reads column `x` of row `y`.
    pub fn lookup(&self, x: usize, y: usize) -> (val: i16)
        requires
            self.wf(),
            self.has(x as int, y as int),
        ensures
            val == self@[y as int][x as int],
    {
        self.rows[y][x]
    }

    /// Walks the rows two at a time, from the top.
    pub fn iter(&self) -> (it: BoardIterator<'_>)
        ensures
            it.board() == self,
            it.position() == 0,
    {
        BoardIterator::new(self)
    }
}

impl Clone for Board {
    fn clone(&self) -> (copy: Board)
        ensures
            copy.width == self.width,
            copy.height == self.height,
            copy@ == self@,
            self.wf() ==> copy.wf(),
    {
        let mut rows: Vec<Vec<i16>> = Vec::new();
        let mut y: usize = 0;
        while y < self.rows.len()
            invariant
                y <= self.rows@.len(),
                rows@.len() == y,
                forall|r: int| 0 <= r < y ==> (#[trigger] rows@[r])@ == self.rows@[r]@,
            decreases self.rows@.len() - y,
        {
            rows.push(copied_row(&self.rows[y]));
            y += 1;
        }
        let copy = Board { width: self.width, height: self.height, rows };
        assert(copy@ =~= self@);
        copy
    }
}

/// The number of steps that a walk over `rows` rows takes when it visits two
/// rows at each step and a last odd row alone.
pub open spec fn pair_count(rows: nat) -> nat {
    (rows + 1) / 2
}

/// The row that step `k` of such a walk shows first.
pub open spec fn first_of_pair(k: int) -> int {
    2 * k
}

/// The row that step `k` shows second, if that row exists.
pub open spec fn second_of_pair(rows: nat, k: int) -> Option<int> {
    if 2 * k + 1 < rows {
        Some(2 * k + 1)
    } else {
        None
    }
}

/// Whether step `k` of a walk over `rows` rows shows row `r`.
pub open spec fn pair_shows(rows: nat, k: int, r: int) -> bool {
    0 <= k < pair_count(rows) && (first_of_pair(k) == r || second_of_pair(rows, k) == Some(r))
}

/// Every row is shown at exactly one step of the walk, and a step shows
/// only rows that exist and never one row in both of its places.
pub proof fn lemma_pairs_cover_rows_once(rows: nat)
    ensures
        forall|r: int| 0 <= r < rows ==> #[trigger] pair_shows(rows, r / 2, r),
        forall|k: int, r: int| #[trigger] pair_shows(rows, k, r) ==> 0 <= r < rows && k == r / 2,
        forall|k: int|
            0 <= k < pair_count(rows) ==> second_of_pair(rows, k) != Some(
                #[trigger] first_of_pair(k),
            ),
{
}

/// A walk over the rows of a board, two rows at each step.
pub struct BoardIterator<'a>(&'a Board, usize);

impl<'a> BoardIterator<'a> {
    /// The board that is walked.
    pub closed spec fn board(&self) -> &'a Board {
        self.0
    }

    /// The number of steps taken so far.
    pub closed spec fn position(&self) -> nat {
        ((self.1 + 1) / 2) as nat
    }

    /// The walk stands in front of a step or behind the last one.
    #[verifier::type_invariant]
    closed spec fn stands_at_a_step(&self) -> bool {
        self.1 % 2 == 0 || self.1 == self.0.rows@.len()
    }

    /// A walk that starts at the top of `board`.
    pub fn new(board: &'a Board) -> (it: BoardIterator<'a>)
        ensures
            it.board() == board,
            it.position() == 0,
    {
        BoardIterator(board, 0)
    }

    /// Takes the next step: the next two rows, or the last row alone when
    /// the number of rows is odd; `None` when no row is left.
    pub fn next(&mut self) -> (step: Option<(&'a [i16], Option<&'a [i16]>)>)
        ensures
            final(self).board() == old(self).board(),
            match step {
                None => {
                    &&& old(self).position() >= pair_count(old(self).board().rows@.len())
                    &&& final(self).position() == old(self).position()
                },
                Some((upper, lower)) => {
                    let k = old(self).position() as int;
                    let rows = old(self).board().rows@;
                    &&& k < pair_count(rows.len())
                    &&& final(self).position() == k + 1
                    &&& upper@ == rows[first_of_pair(k)]@
                    &&& match second_of_pair(rows.len(), k) {
                        Some(r) => lower.is_some() && lower.unwrap()@ == rows[r]@,
                        None => lower.is_none(),
                    }
                },
            },
    {
        proof {
            use_type_invariant(&*self);
        }
        let max = self.0.rows.len();
        if self.1 >= max {
            return None;
        }
        let upper: &'a [i16] = self.0.rows[self.1].as_slice();
        if self.1 + 1 < max {
            let lower: &'a [i16] = self.0.rows[self.1 + 1].as_slice();
            self.1 += 2;
            Some((upper, Some(lower)))
        } else {
            self.1 = max;
            Some((upper, None))
        }
    }
}

} // verus!
