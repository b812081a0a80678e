//! Straight walls: the cells of a segment between two cells of the board.
//!
//! A segment advances one cell at a time along its dominant axis, the axis
//! along which its endpoints lie further apart. At each step it paints the
//! cell whose centre is nearest to the ideal line; where the line passes
//! exactly between two cells, the one nearer to the start is painted.
//!
//! A segment is painted as a run along its dominant axis, from the end
//! that comes first on that axis. The two runs, to the right and downwards,
//! can also be called by themselves, for any two cells of the board.

use crate::board::{painted, Board};
use vstd::prelude::*;

verus! {

/// The colour code of a wall.
pub const WALL: i16 = 9;

/// The distance between two coordinates.
pub open spec fn span(a: int, b: int) -> int {
    if a <= b {
        b - a
    } else {
        a - b
    }
}

/// Whether a segment that covers `major` cells along its dominant axis and
/// `minor` cells along the other holds, `k` cells from its start along the
/// dominant axis, the cell that lies `j` cells from its start along the
/// other axis.
///
/// The ideal line passes step `k` at `minor * k / major` cells from the
/// start along the other axis. The cell `j` lies within half a cell of it;
/// where the line passes exactly between two cells, `j` is the one nearer to
/// the start.
pub open spec fn near_ideal(major: int, minor: int, k: int, j: int) -> bool {
    if major == 0 {
        k == 0 && j == 0
    } else {
        0 <= k <= major && -major < 2 * (minor * k - major * j) <= major
    }
}

/// Whether `(x, y)` is a cell of the segment from `(x0, y0)` rightwards to
/// `(x1, y1)`, a segment that is wider than it is high.
pub open spec fn on_shallow(x0: int, y0: int, x1: int, y1: int, x: int, y: int) -> bool {
    near_ideal(
        x1 - x0,
        span(y0, y1),
        x - x0,
        if y0 <= y1 {
            y - y0
        } else {
            y0 - y
        },
    )
}

/// Whether `(x, y)` is a cell of the segment from `(x0, y0)` downwards to
/// `(x1, y1)`, a segment that is at least as high as it is wide.
pub open spec fn on_steep(x0: int, y0: int, x1: int, y1: int, x: int, y: int) -> bool {
    near_ideal(
        y1 - y0,
        span(x0, x1),
        y - y0,
        if x0 <= x1 {
            x - x0
        } else {
            x0 - x
        },
    )
}

/// Whether `(x, y)` is a cell of the segment between `(x0, y0)` and
/// `(x1, y1)`, whichever of the two is given first.
pub open spec fn on_line(x0: int, y0: int, x1: int, y1: int, x: int, y: int) -> bool {
    if span(y0, y1) < span(x0, x1) {
        if x0 > x1 {
            on_shallow(x1, y1, x0, y0, x, y)
        } else {
            on_shallow(x0, y0, x1, y1, x, y)
        }
    } else {
        if y0 > y1 {
            on_steep(x1, y1, x0, y0, x, y)
        } else {
            on_steep(x0, y0, x1, y1, x, y)
        }
    }
}

/// The cells of the shallow segment from `(x0, y0)` to `(x1, y1)`.
pub open spec fn shallow_cells(x0: int, y0: int, x1: int, y1: int) -> Set<(int, int)> {
    Set::new(|p: (int, int)| on_shallow(x0, y0, x1, y1, p.0, p.1))
}

/// The cells of the steep segment from `(x0, y0)` to `(x1, y1)`.
pub open spec fn steep_cells(x0: int, y0: int, x1: int, y1: int) -> Set<(int, int)> {
    Set::new(|p: (int, int)| on_steep(x0, y0, x1, y1, p.0, p.1))
}

/// The cells of the segment between `(x0, y0)` and `(x1, y1)`.
pub open spec fn line_cells(x0: int, y0: int, x1: int, y1: int) -> Set<(int, int)> {
    Set::new(|p: (int, int)| on_line(x0, y0, x1, y1, p.0, p.1))
}

/// A segment holds the same cells from whichever end it is drawn.
pub proof fn lemma_line_symmetric(x0: int, y0: int, x1: int, y1: int)
    ensures
        line_cells(x0, y0, x1, y1) == line_cells(x1, y1, x0, y0),
{
    assert forall|p: (int, int)|
        on_line(x0, y0, x1, y1, p.0, p.1) == on_line(x1, y1, x0, y0, p.0, p.1) by {}
    assert(line_cells(x0, y0, x1, y1) =~= line_cells(x1, y1, x0, y0));
}

/// At each step along the dominant axis a segment holds one cell only.
pub proof fn lemma_near_ideal_unique(major: int, minor: int, k: int, j1: int, j2: int)
    requires
        near_ideal(major, minor, k, j1),
        near_ideal(major, minor, k, j2),
    ensures
        j1 == j2,
{
    if major != 0 {
        assert(j1 == j2) by (nonlinear_arith)
            requires
                major > 0,
                -major < 2 * (minor * k - major * j1) <= major,
                -major < 2 * (minor * k - major * j2) <= major,
        ;
    }
}

/// At each step along the dominant axis a segment holds a cell.
pub proof fn lemma_near_ideal_exists(major: int, minor: int, k: int) -> (j: int)
    requires
        0 <= minor <= major,
        0 <= k <= major,
    ensures
        near_ideal(major, minor, k, j),
{
    if major == 0 {
        0
    } else {
        let n = 2 * minor * k + major - 1;
        let j = n / (2 * major);
        assert(n == (2 * major) * j + n % (2 * major) && 0 <= n % (2 * major) < 2 * major) by {
            vstd::arithmetic::div_mod::lemma_fundamental_div_mod(n, 2 * major);
            vstd::arithmetic::div_mod::lemma_mod_bound(n, 2 * major);
        }
        assert(-major < 2 * (minor * k - major * j) <= major) by (nonlinear_arith)
            requires
                n == 2 * minor * k + major - 1,
                n == (2 * major) * j + n % (2 * major),
                0 <= n % (2 * major) < 2 * major,
        ;
        j
    }
}

/// From one step along the dominant axis to the next a segment stays on
/// its row or moves by one, towards its end: it has no gaps.
pub proof fn lemma_near_ideal_connected(major: int, minor: int, k: int, j: int, next: int)
    requires
        0 <= minor <= major,
        near_ideal(major, minor, k, j),
        near_ideal(major, minor, k + 1, next),
    ensures
        j <= next <= j + 1,
{
    assert(j <= next <= j + 1) by (nonlinear_arith)
        requires
            0 <= minor <= major,
            major > 0,
            -major < 2 * (minor * k - major * j) <= major,
            -major < 2 * (minor * (k + 1) - major * next) <= major,
    ;
}

/// A segment that is no steeper than the diagonal stays between its ends.
pub proof fn lemma_near_ideal_bounded(major: int, minor: int, k: int, j: int)
    requires
        0 <= minor <= major,
        near_ideal(major, minor, k, j),
    ensures
        0 <= j <= minor,
{
    if major != 0 {
        assert(0 <= j <= minor) by (nonlinear_arith)
            requires
                0 <= minor <= major,
                major > 0,
                0 <= k <= major,
                -major < 2 * (minor * k - major * j) <= major,
        ;
    }
}

/// A segment starts at its first end and stops at its second.
pub proof fn lemma_near_ideal_ends(major: int, minor: int)
    requires
        0 <= minor <= major,
    ensures
        near_ideal(major, minor, 0, 0),
        near_ideal(major, minor, major, minor),
{
    if major != 0 {
        assert(minor * 0 - major * 0 == 0) by (nonlinear_arith);
        assert(minor * major - major * minor == 0) by (nonlinear_arith);
    }
}

/// Both ends of a segment are cells of it.
pub proof fn lemma_line_holds_ends(x0: int, y0: int, x1: int, y1: int)
    ensures
        on_line(x0, y0, x1, y1, x0, y0),
        on_line(x0, y0, x1, y1, x1, y1),
{
    if span(y0, y1) < span(x0, x1) {
        lemma_near_ideal_ends(span(x0, x1), span(y0, y1));
    } else {
        lemma_near_ideal_ends(span(y0, y1), span(x0, x1));
    }
}

/// Every cell of a segment lies in the rectangle that its ends span.
pub proof fn lemma_line_in_box(x0: int, y0: int, x1: int, y1: int, x: int, y: int)
    requires
        on_line(x0, y0, x1, y1, x, y),
    ensures
        x0 <= x <= x1 || x1 <= x <= x0,
        y0 <= y <= y1 || y1 <= y <= y0,
{
    if span(y0, y1) < span(x0, x1) {
        if x0 > x1 {
            let j = if y1 <= y0 {
                y - y1
            } else {
                y1 - y
            };
            lemma_near_ideal_bounded(x0 - x1, span(y0, y1), x - x1, j);
        } else {
            let j = if y0 <= y1 {
                y - y0
            } else {
                y0 - y
            };
            lemma_near_ideal_bounded(x1 - x0, span(y0, y1), x - x0, j);
        }
    } else {
        if y0 > y1 {
            let j = if x1 <= x0 {
                x - x1
            } else {
                x1 - x
            };
            lemma_near_ideal_bounded(y0 - y1, span(x0, x1), y - y1, j);
        } else {
            let j = if x0 <= x1 {
                x - x0
            } else {
                x0 - x
            };
            lemma_near_ideal_bounded(y1 - y0, span(x0, x1), y - y0, j);
        }
    }
}

/// A segment along one axis holds the cell at each step and no other: with
/// nothing to cover along the other axis it never leaves its row.
pub proof fn lemma_near_ideal_straight(major: int, k: int, j: int)
    requires
        0 <= major,
    ensures
        near_ideal(major, 0, k, j) <==> 0 <= k <= major && j == 0,
{
    if major > 0 {
        assert(0 * k == 0) by (nonlinear_arith);
        if j == 0 {
            assert(major * j == 0) by (nonlinear_arith)
                requires
                    j == 0,
            ;
        }
        if -major < 2 * (0 * k - major * j) <= major {
            assert(j == 0) by (nonlinear_arith)
                requires
                    major > 0,
                    -major < 2 * (0 - major * j) <= major,
            ;
        }
    }
}

/// An upright segment is a piece of a column, and a level segment a piece
/// of a row, both with their ends.
pub proof fn lemma_straight_lines(a: int, from: int, to: int)
    requires
        from <= to,
    ensures
        forall|x: int, y: int| #[trigger]
            on_line(a, from, a, to, x, y) <==> x == a && from <= y <= to,
        forall|x: int, y: int| #[trigger]
            on_line(from, a, to, a, x, y) <==> y == a && from <= x <= to,
{
    assert forall|x: int, y: int| #[trigger]
        on_line(a, from, a, to, x, y) <==> x == a && from <= y <= to by {
        lemma_near_ideal_straight(to - from, y - from, x - a);
    }
    assert forall|x: int, y: int| #[trigger]
        on_line(from, a, to, a, x, y) <==> y == a && from <= x <= to by {
        lemma_near_ideal_straight(to - from, x - from, y - a);
    }
}

/// Whether a run of `major` steps that covers `minor` cells along the other
/// axis stands, after `k` steps, `j` cells from its start along that axis.
///
/// A run that has no further to go along the other axis than along its own
/// follows the ideal line. One that has further to go cannot keep up with
/// the line: it moves one cell along the other axis at every step, and stops
/// short of its end.
pub open spec fn stepped(major: int, minor: int, k: int, j: int) -> bool {
    if minor <= major {
        near_ideal(major, minor, k, j)
    } else {
        0 <= k <= major && j == k
    }
}

/// Whether `(x, y)` is a cell of the run from `(x0, y0)` rightwards towards
/// `(x1, y1)`, one cell in each column up to `x1`. A run to the left has no
/// cells.
pub open spec fn on_low(x0: int, y0: int, x1: int, y1: int, x: int, y: int) -> bool {
    stepped(
        x1 - x0,
        span(y0, y1),
        x - x0,
        if y0 <= y1 {
            y - y0
        } else {
            y0 - y
        },
    )
}

/// Whether `(x, y)` is a cell of the run from `(x0, y0)` downwards towards
/// `(x1, y1)`, one cell in each row down to `y1`. A run upwards has no cells.
pub open spec fn on_high(x0: int, y0: int, x1: int, y1: int, x: int, y: int) -> bool {
    stepped(
        y1 - y0,
        span(x0, x1),
        y - y0,
        if x0 <= x1 {
            x - x0
        } else {
            x0 - x
        },
    )
}

/// The cells of the run from `(x0, y0)` rightwards towards `(x1, y1)`.
pub open spec fn low_cells(x0: int, y0: int, x1: int, y1: int) -> Set<(int, int)> {
    Set::new(|p: (int, int)| on_low(x0, y0, x1, y1, p.0, p.1))
}

/// The cells of the run from `(x0, y0)` downwards towards `(x1, y1)`.
pub open spec fn high_cells(x0: int, y0: int, x1: int, y1: int) -> Set<(int, int)> {
    Set::new(|p: (int, int)| on_high(x0, y0, x1, y1, p.0, p.1))
}

/// A run along the dominant axis of a segment holds the cells of the
/// segment; a run against its direction holds none.
pub proof fn lemma_runs_are_segments(x0: int, y0: int, x1: int, y1: int)
    ensures
        span(y0, y1) <= x1 - x0 ==> low_cells(x0, y0, x1, y1) == shallow_cells(x0, y0, x1, y1),
        span(x0, x1) <= y1 - y0 ==> high_cells(x0, y0, x1, y1) == steep_cells(x0, y0, x1, y1),
        x0 > x1 ==> low_cells(x0, y0, x1, y1) == Set::<(int, int)>::empty(),
        y0 > y1 ==> high_cells(x0, y0, x1, y1) == Set::<(int, int)>::empty(),
{
    if span(y0, y1) <= x1 - x0 {
        assert(low_cells(x0, y0, x1, y1) =~= shallow_cells(x0, y0, x1, y1));
    }
    if span(x0, x1) <= y1 - y0 {
        assert(high_cells(x0, y0, x1, y1) =~= steep_cells(x0, y0, x1, y1));
    }
    if x0 > x1 {
        assert(low_cells(x0, y0, x1, y1) =~= Set::<(int, int)>::empty());
    }
    if y0 > y1 {
        assert(high_cells(x0, y0, x1, y1) =~= Set::<(int, int)>::empty());
    }
}

/// At each step a run holds one cell only.
pub proof fn lemma_stepped_unique(major: int, minor: int, k: int, j1: int, j2: int)
    requires
        stepped(major, minor, k, j1),
        stepped(major, minor, k, j2),
    ensures
        j1 == j2,
{
    if minor <= major {
        lemma_near_ideal_unique(major, minor, k, j1, j2);
    }
}

/// A run stays between its ends.
pub proof fn lemma_stepped_bounded(major: int, minor: int, k: int, j: int)
    requires
        0 <= minor,
        stepped(major, minor, k, j),
    ensures
        0 <= k <= major,
        0 <= j <= minor,
{
    if minor <= major {
        lemma_near_ideal_bounded(major, minor, k, j);
    }
}

/// The first `steps` cells of a run to the right.
spec fn low_prefix(x0: int, y0: int, x1: int, y1: int, steps: int) -> Set<(int, int)> {
    Set::new(|p: (int, int)| p.0 - x0 < steps && on_low(x0, y0, x1, y1, p.0, p.1))
}

/// The first `steps` cells of a run downwards.
spec fn high_prefix(x0: int, y0: int, x1: int, y1: int, steps: int) -> Set<(int, int)> {
    Set::new(|p: (int, int)| p.1 - y0 < steps && on_high(x0, y0, x1, y1, p.0, p.1))
}

/// The error term of the stepping rule after `k` steps of which `j` moved
/// along the minor axis.
spec fn pending(major: int, minor: int, k: int, j: int) -> int {
    2 * minor * (k + 1) - major * (1 + 2 * j)
}

/// How the error term changes with a step, and what it says of the cell.
proof fn lemma_pending_step(major: int, minor: int, k: int, j: int)
    ensures
        pending(major, minor, k + 1, j) == pending(major, minor, k, j) + 2 * minor,
        pending(major, minor, k + 1, j + 1) == pending(major, minor, k, j) + 2 * (minor - major),
        pending(major, minor, k, j) == 2 * (minor * k - major * j) + 2 * minor - major,
        pending(major, minor, 0, 0) == 2 * minor - major,
{
    assert(2 * minor * (k + 2) - major * (1 + 2 * j) == 2 * minor * (k + 1) - major * (1 + 2 * j)
        + 2 * minor) by (nonlinear_arith);
    assert(2 * minor * (k + 2) - major * (1 + 2 * (j + 1)) == 2 * minor * (k + 1) - major * (1 + 2
        * j) + 2 * (minor - major)) by (nonlinear_arith);
    assert(2 * minor * (k + 1) - major * (1 + 2 * j) == 2 * (minor * k - major * j) + 2 * minor
        - major) by (nonlinear_arith);
    assert(2 * minor * (0 + 1) - major * (1 + 2 * 0) == 2 * minor - major) by (nonlinear_arith);
}

/// What the stepping rule keeps between its steps, `k` steps into a run of
/// which `j` moved along the other axis: on a run that follows the line, the
/// error term by which it steps, within its bounds; on one that cannot keep
/// up, a move at every step.
spec fn in_step(major: int, minor: int, k: int, j: int, distance: int) -> bool {
    if minor <= major {
        &&& distance == pending(major, minor, k, j)
        &&& major > 0 ==> 2 * minor - 2 * major < distance <= 2 * minor
        &&& major == 0 ==> j == 0
    } else {
        j == k
    }
}

/// Between its steps the rule stands on a cell of the run.
proof fn lemma_in_step_is_stepped(major: int, minor: int, k: int, j: int, distance: int)
    requires
        0 <= minor,
        0 <= k <= major,
        in_step(major, minor, k, j, distance),
    ensures
        stepped(major, minor, k, j),
        0 <= j <= minor,
{
    lemma_pending_step(major, minor, k, j);
    lemma_stepped_bounded(major, minor, k, j);
}

/// Paints the run from `(x0, y0)` rightwards towards `(x1, y1)`: one cell
/// in each column from `x0` to `x1`.
///
/// Where the segment between the two cells is no higher than it is wide, the
/// run is the segment. Where it is higher, the run moves up or down by one
/// cell in every column. Where `(x1, y1)` lies to the left, nothing is
/// painted.
pub fn draw_line_low(board: &mut Board, x0: usize, y0: usize, x1: usize, y1: usize)
    requires
        old(board).wf(),
        x0 <= x1 ==> old(board).has(x0 as int, y0 as int) && old(board).has(x1 as int, y1 as int),
    ensures
        final(board).wf(),
        final(board).width == old(board).width,
        final(board).height == old(board).height,
        final(board)@ == painted(
            old(board)@,
            low_cells(x0 as int, y0 as int, x1 as int, y1 as int),
            WALL,
        ),
        x0 <= x1 && span(y0 as int, y1 as int) <= x1 - x0 ==> final(board)@ == painted(
            old(board)@,
            shallow_cells(x0 as int, y0 as int, x1 as int, y1 as int),
            WALL,
        ),
        x0 > x1 ==> *final(board) == *old(board),
{
    proof {
        lemma_runs_are_segments(x0 as int, y0 as int, x1 as int, y1 as int);
        lemma_painted_nothing_here(
            old(board)@,
            low_prefix(x0 as int, y0 as int, x1 as int, y1 as int, 0),
        );
    }
    if x0 > x1 {
        proof {
            crate::board::lemma_painted_nothing(old(board)@, WALL);
        }
        return ;
    }
    let dx: i128 = x1 as i128 - x0 as i128;
    let rising: bool = y1 < y0;
    let dy: i128 = if rising {
        y0 as i128 - y1 as i128
    } else {
        y1 as i128 - y0 as i128
    };
    let outrun: bool = dy > dx;
    let mut distance: i128 = 2 * dy - dx;
    let mut y: i128 = y0 as i128;
    let mut x: usize = x0;
    let ghost mut j: int = 0;
    proof {
        lemma_pending_step(dx as int, dy as int, 0, 0);
    }
    while x <= x1
        invariant
            board.wf(),
            board.width == old(board).width,
            board.height == old(board).height,
            old(board).has(x0 as int, y0 as int),
            old(board).has(x1 as int, y1 as int),
            x0 <= x <= x1 + 1,
            dx == x1 - x0,
            dy == span(y0 as int, y1 as int),
            outrun == (dy > dx),
            rising == (y1 < y0),
            y == if rising { y0 - j } else { y0 + j },
            in_step(dx as int, dy as int, x - x0, j, distance as int),
            !outrun ==> -2 * dx <= distance <= 2 * dy,
            board@ == painted(
                old(board)@,
                low_prefix(x0 as int, y0 as int, x1 as int, y1 as int, x - x0),
                WALL,
            ),
        decreases x1 + 1 - x,
    {
        let ghost k: int = x - x0;
        proof {
            lemma_pending_step(dx as int, dy as int, k, j);
            lemma_in_step_is_stepped(dx as int, dy as int, k, j, distance as int);
            assert(on_low(x0 as int, y0 as int, x1 as int, y1 as int, x as int, y as int));
        }
        board.set_pixel(x, y as usize, WALL);
        proof {
            let done = low_prefix(x0 as int, y0 as int, x1 as int, y1 as int, k);
            let next = low_prefix(x0 as int, y0 as int, x1 as int, y1 as int, k + 1);
            assert forall|p: (int, int)| next.contains(p) == (done.contains(p) || p == (
                x as int,
                y as int,
            )) by {
                if on_low(x0 as int, y0 as int, x1 as int, y1 as int, p.0, p.1) && p.0 == x {
                    lemma_stepped_unique(
                        dx as int,
                        dy as int,
                        k,
                        j,
                        if y0 <= y1 {
                            p.1 - y0
                        } else {
                            y0 - p.1
                        },
                    );
                }
            }
            assert(next =~= done.union(set![(x as int, y as int)]));
            crate::board::lemma_painted_twice(old(board)@, done, set![(x as int, y as int)], WALL);
        }
        if outrun || distance > 0 {
            if rising {
                y -= 1;
            } else {
                y += 1;
            }
            if !outrun {
                distance += 2 * (dy - dx);
            }
            proof {
                j = j + 1;
            }
        } else {
            distance += 2 * dy;
        }
        x += 1;
    }
    proof {
        assert(low_prefix(x0 as int, y0 as int, x1 as int, y1 as int, x1 + 1 - x0) =~= low_cells(
            x0 as int,
            y0 as int,
            x1 as int,
            y1 as int,
        )) by {
            assert forall|p: (int, int)|
                on_low(x0 as int, y0 as int, x1 as int, y1 as int, p.0, p.1) implies p.0 - x0 < x1
                + 1 - x0 by {
                lemma_stepped_bounded(
                    x1 - x0,
                    span(y0 as int, y1 as int),
                    p.0 - x0,
                    if y0 <= y1 {
                        p.1 - y0
                    } else {
                        y0 - p.1
                    },
                );
            }
        }
    }
}

/// Paints the run from `(x0, y0)` downwards towards `(x1, y1)`: one cell in
/// each row from `y0` to `y1`.
///
/// Where the segment between the two cells is no wider than it is high, the
/// run is the segment. Where it is wider, the run moves left or right by one
/// cell in every row. Where `(x1, y1)` lies above, nothing is painted.
pub fn draw_line_high(board: &mut Board, x0: usize, y0: usize, x1: usize, y1: usize)
    requires
        old(board).wf(),
        y0 <= y1 ==> old(board).has(x0 as int, y0 as int) && old(board).has(x1 as int, y1 as int),
    ensures
        final(board).wf(),
        final(board).width == old(board).width,
        final(board).height == old(board).height,
        final(board)@ == painted(
            old(board)@,
            high_cells(x0 as int, y0 as int, x1 as int, y1 as int),
            WALL,
        ),
        y0 <= y1 && span(x0 as int, x1 as int) <= y1 - y0 ==> final(board)@ == painted(
            old(board)@,
            steep_cells(x0 as int, y0 as int, x1 as int, y1 as int),
            WALL,
        ),
        y0 > y1 ==> *final(board) == *old(board),
{
    proof {
        lemma_runs_are_segments(x0 as int, y0 as int, x1 as int, y1 as int);
        lemma_painted_nothing_here(
            old(board)@,
            high_prefix(x0 as int, y0 as int, x1 as int, y1 as int, 0),
        );
    }
    if y0 > y1 {
        proof {
            crate::board::lemma_painted_nothing(old(board)@, WALL);
        }
        return ;
    }
    let dy: i128 = y1 as i128 - y0 as i128;
    let leftwards: bool = x1 < x0;
    let dx: i128 = if leftwards {
        x0 as i128 - x1 as i128
    } else {
        x1 as i128 - x0 as i128
    };
    let outrun: bool = dx > dy;
    let mut distance: i128 = 2 * dx - dy;
    let mut x: i128 = x0 as i128;
    let mut y: usize = y0;
    let ghost mut j: int = 0;
    proof {
        board.lemma_height_fits();
        lemma_pending_step(dy as int, dx as int, 0, 0);
    }
    while y <= y1
        invariant
            board.wf(),
            board.width == old(board).width,
            board.height == old(board).height,
            old(board).has(x0 as int, y0 as int),
            old(board).has(x1 as int, y1 as int),
            y0 <= y <= y1 + 1,
            y1 < usize::MAX,
            dy == y1 - y0,
            dx == span(x0 as int, x1 as int),
            outrun == (dx > dy),
            leftwards == (x1 < x0),
            x == if leftwards { x0 - j } else { x0 + j },
            in_step(dy as int, dx as int, y - y0, j, distance as int),
            !outrun ==> -2 * dy <= distance <= 2 * dx,
            board@ == painted(
                old(board)@,
                high_prefix(x0 as int, y0 as int, x1 as int, y1 as int, y - y0),
                WALL,
            ),
        decreases y1 + 1 - y,
    {
        let ghost k: int = y - y0;
        proof {
            lemma_pending_step(dy as int, dx as int, k, j);
            lemma_in_step_is_stepped(dy as int, dx as int, k, j, distance as int);
            assert(on_high(x0 as int, y0 as int, x1 as int, y1 as int, x as int, y as int));
        }
        board.set_pixel(x as usize, y, WALL);
        proof {
            let done = high_prefix(x0 as int, y0 as int, x1 as int, y1 as int, k);
            let next = high_prefix(x0 as int, y0 as int, x1 as int, y1 as int, k + 1);
            assert forall|p: (int, int)| next.contains(p) == (done.contains(p) || p == (
                x as int,
                y as int,
            )) by {
                if on_high(x0 as int, y0 as int, x1 as int, y1 as int, p.0, p.1) && p.1 == y {
                    lemma_stepped_unique(
                        dy as int,
                        dx as int,
                        k,
                        j,
                        if x0 <= x1 {
                            p.0 - x0
                        } else {
                            x0 - p.0
                        },
                    );
                }
            }
            assert(next =~= done.union(set![(x as int, y as int)]));
            crate::board::lemma_painted_twice(old(board)@, done, set![(x as int, y as int)], WALL);
        }
        if outrun || distance > 0 {
            if leftwards {
                x -= 1;
            } else {
                x += 1;
            }
            if !outrun {
                distance += 2 * (dx - dy);
            }
            proof {
                j = j + 1;
            }
        } else {
            distance += 2 * dx;
        }
        y += 1;
    }
    proof {
        assert(high_prefix(x0 as int, y0 as int, x1 as int, y1 as int, y1 + 1 - y0) =~= high_cells(
            x0 as int,
            y0 as int,
            x1 as int,
            y1 as int,
        )) by {
            assert forall|p: (int, int)|
                on_high(x0 as int, y0 as int, x1 as int, y1 as int, p.0, p.1) implies p.1 - y0 < y1
                + 1 - y0 by {
                lemma_stepped_bounded(
                    y1 - y0,
                    span(x0 as int, x1 as int),
                    p.1 - y0,
                    if x0 <= x1 {
                        p.0 - x0
                    } else {
                        x0 - p.0
                    },
                );
            }
        }
    }
}

/// Paints the segment between `(x0, y0)` and `(x1, y1)` as a wall.
pub fn draw_line(board: &mut Board, x0: usize, y0: usize, x1: usize, y1: usize)
    requires
        old(board).wf(),
        old(board).has(x0 as int, y0 as int),
        old(board).has(x1 as int, y1 as int),
    ensures
        final(board).wf(),
        final(board).width == old(board).width,
        final(board).height == old(board).height,
        final(board)@ == painted(
            old(board)@,
            line_cells(x0 as int, y0 as int, x1 as int, y1 as int),
            WALL,
        ),
{
    let across: usize = if x0 <= x1 {
        x1 - x0
    } else {
        x0 - x1
    };
    let down: usize = if y0 <= y1 {
        y1 - y0
    } else {
        y0 - y1
    };
    if down < across {
        if x0 > x1 {
            draw_line_low(board, x1, y1, x0, y0);
            assert(line_cells(x0 as int, y0 as int, x1 as int, y1 as int) =~= shallow_cells(
                x1 as int,
                y1 as int,
                x0 as int,
                y0 as int,
            ));
        } else {
            draw_line_low(board, x0, y0, x1, y1);
            assert(line_cells(x0 as int, y0 as int, x1 as int, y1 as int) =~= shallow_cells(
                x0 as int,
                y0 as int,
                x1 as int,
                y1 as int,
            ));
        }
    } else {
        if y0 > y1 {
            draw_line_high(board, x1, y1, x0, y0);
            assert(line_cells(x0 as int, y0 as int, x1 as int, y1 as int) =~= steep_cells(
                x1 as int,
                y1 as int,
                x0 as int,
                y0 as int,
            ));
        } else {
            draw_line_high(board, x0, y0, x1, y1);
            assert(line_cells(x0 as int, y0 as int, x1 as int, y1 as int) =~= steep_cells(
                x0 as int,
                y0 as int,
                x1 as int,
                y1 as int,
            ));
        }
    }
}

/// Painting the cells of an empty prefix changes nothing.
proof fn lemma_painted_nothing_here(before: Seq<Seq<i16>>, cells: Set<(int, int)>)
    requires
        forall|p: (int, int)| !cells.contains(p),
    ensures
        painted(before, cells, WALL) == before,
{
    assert(cells =~= Set::empty());
    crate::board::lemma_painted_nothing(before, WALL);
}

} // verus!
