//! The levels: where each one has its walls, and where its snake starts.

use crate::board::{lemma_painted_nothing, lemma_painted_twice, painted, Board};
use crate::game::{Direction, SnakeCell};
use crate::raster::{draw_line, line_cells, WALL};
use crate::rng::{random_choice, random_in};
use vstd::prelude::*;

verus! {

/// The number of levels.
pub const LEVEL_COUNT: u8 = 8;

/// Two fifths of `n`, rounded to the nearest whole number.
pub open spec fn two_fifths(n: int) -> int {
    (4 * n + 5) / 10
}

/// Two fifths of `n`, rounded to the nearest whole number.
pub fn rounded_two_fifths(n: usize) -> (r: usize)
    ensures
        r == two_fifths(n as int),
        r <= n,
        n >= 2 ==> r >= 1,
{
    2 * (n / 5) + (4 * (n % 5) + 5) / 10
}

/// The straight wall between two cells.
pub open spec fn bar(x0: int, y0: int, x1: int, y1: int) -> Set<(int, int)> {
    line_cells(x0, y0, x1, y1)
}

/// The walls of the second level: one bar across the middle.
pub open spec fn walls_l2(w: int, h: int) -> Set<(int, int)> {
    let bar_width = w - w / 2;
    let bar_x = w / 2 - bar_width / 2;
    bar(bar_x, h / 2, bar_x + bar_width, h / 2)
}

/// The walls of the third level: two upright bars, a third of the width
/// apart.
pub open spec fn walls_l3(w: int, h: int) -> Set<(int, int)> {
    let bar_height = h - h / 3;
    let bar_y = h / 2 - bar_height / 2;
    bar(w / 3, bar_y, w / 3, bar_y + bar_height).union(
        bar(w / 3 + w / 3, bar_y, w / 3 + w / 3, bar_y + bar_height),
    )
}

/// The walls of the fourth level: a bar from each side, turning like the
/// sails of a windmill.
pub open spec fn walls_l4(w: int, h: int) -> Set<(int, int)> {
    let bar_space = two_fifths(h);
    let bar_height = h - bar_space;
    let bar_width = w - w / 2;
    bar(w / 4, 1, w / 4, 1 + bar_height).union(
        bar(w / 4 + w / 2, h - bar_height, w / 4 + w / 2, h),
    ).union(bar(w - 1 - bar_width, bar_space / 2, w - 1, bar_space / 2)).union(
        bar(1, bar_space / 2 + bar_height, 1 + bar_width, bar_space / 2 + bar_height),
    )
}

/// The walls of the fifth level: a box whose corners are open.
pub open spec fn walls_l5(w: int, h: int) -> Set<(int, int)> {
    let bar_height = h / 2 - 4;
    let bar_y = h / 2 - bar_height / 2;
    let bar_width = w / 2 - 4;
    let bar_x = w / 2 - bar_width / 2 - 1;
    bar(w / 4, bar_y, w / 4, bar_y + bar_height).union(
        bar(w / 4 + w / 2, bar_y, w / 4 + w / 2, bar_y + bar_height),
    ).union(bar(bar_x, h / 4, bar_x + bar_width, h / 4)).union(
        bar(bar_x, h / 4 + h / 2, bar_x + bar_width, h / 4 + h / 2),
    )
}

/// The first `count` pairs of bars of the sixth level: in every eighth of
/// the width one bar down from the top and one up from the bottom, with a gap
/// between them.
pub open spec fn gates_l6(w: int, h: int, count: nat) -> Set<(int, int)>
    decreases count,
{
    if count == 0 {
        Set::empty()
    } else {
        let bar_x = count * (w / 8);
        let bar_height = h / 2 - h / 12;
        gates_l6(w, h, (count - 1) as nat).union(bar(bar_x, 1, bar_x, 1 + bar_height)).union(
            bar(bar_x, h - bar_height, bar_x, h),
        )
    }
}

/// The walls of the sixth level.
pub open spec fn walls_l6(w: int, h: int) -> Set<(int, int)> {
    gates_l6(w, h, 8)
}

/// The walls of the seventh level: every other cell of the middle column.
pub open spec fn walls_l7(w: int, h: int) -> Set<(int, int)> {
    Set::new(|p: (int, int)| p.0 == w / 2 && 0 <= p.1 < h && p.1 % 2 != 0)
}

/// The first `count` bars that hang from the top in the eighth level.
pub open spec fn hanging_l8(w: int, h: int, count: nat) -> Set<(int, int)>
    decreases count,
{
    if count == 0 {
        Set::empty()
    } else {
        let bar_x = 2 + (w / 4) / 2 + (count - 1) * (w / 4);
        hanging_l8(w, h, (count - 1) as nat).union(bar(bar_x, 1, bar_x, 1 + (h - h / 6)))
    }
}

/// The first `count` bars that stand on the bottom in the eighth level.
pub open spec fn standing_l8(w: int, h: int, count: nat) -> Set<(int, int)>
    decreases count,
{
    if count == 0 {
        Set::empty()
    } else {
        let bar_x = count * (w / 4) + 2;
        standing_l8(w, h, (count - 1) as nat).union(bar(bar_x, h - (h - h / 6), bar_x, h))
    }
}

/// The walls of the eighth level: four bars from the top and, between
/// them, three from the bottom.
pub open spec fn walls_l8(w: int, h: int) -> Set<(int, int)> {
    hanging_l8(w, h, 4).union(standing_l8(w, h, 3))
}

/// The walls of `level` on a board for a playfield of `w` by `h` cells.
pub open spec fn walls(level: int, w: int, h: int) -> Set<(int, int)> {
    if level == 2 {
        walls_l2(w, h)
    } else if level == 3 {
        walls_l3(w, h)
    } else if level == 4 {
        walls_l4(w, h)
    } else if level == 5 {
        walls_l5(w, h)
    } else if level == 6 {
        walls_l6(w, h)
    } else if level == 7 {
        walls_l7(w, h)
    } else if level == 8 {
        walls_l8(w, h)
    } else {
        Set::empty()
    }
}

/// Whether the walls of `level` have room on a board for a playfield of `w`
/// by `h` cells.
pub open spec fn walls_fit(level: int, w: int, h: int) -> bool {
    if level == 2 {
        w >= 3
    } else if level == 3 {
        w >= 1
    } else if level == 4 {
        w >= 4 && h >= 2
    } else if level == 5 {
        w >= 8 && h >= 8
    } else if level == 6 {
        w >= 1 && h >= 1 && w % 8 != 0
    } else if level == 7 {
        h >= 2 ==> w >= 1
    } else if level == 8 {
        h >= 6 && 2 + (w / 4) / 2 + 3 * (w / 4) < w
    } else {
        true
    }
}

/// Whether the walls of `level` have room on a board for a playfield of
/// `width` by `height` cells.
pub fn walls_have_room(level: u8, width: usize, height: usize) -> (fit: bool)
    ensures
        fit == walls_fit(level as int, width as int, height as int),
{
    match level {
        2 => width >= 3,
        3 => width >= 1,
        4 => width >= 4 && height >= 2,
        5 => width >= 8 && height >= 8,
        6 => width >= 1 && height >= 1 && width % 8 != 0,
        7 => height < 2 || width >= 1,
        8 => height >= 6 && width >= 3 && 2 + (width / 4) / 2 + 3 * (width / 4) < width,
        _ => true,
    }
}

/// The first level has no walls.
pub fn render_l1(board: &mut Board)
    ensures
        *final(board) == *old(board),
{
}

/// Builds the walls of the second level.
pub fn render_l2(board: &mut Board)
    requires
        old(board).wf(),
        walls_fit(2, old(board).width as int, old(board).height as int),
    ensures
        final(board).wf(),
        final(board).width == old(board).width,
        final(board).height == old(board).height,
        final(board)@ == painted(
            old(board)@,
            walls_l2(old(board).width as int, old(board).height as int),
            WALL,
        ),
{
    let width = board.width;
    let height = board.height;
    let bar_width = width - (width / 2);
    let bar_y = height / 2;
    let bar_x = (width / 2) - (bar_width / 2);
    draw_line(board, bar_x, bar_y, bar_x + bar_width, bar_y);
}

/// Builds the walls of the third level.
pub fn render_l3(board: &mut Board)
    requires
        old(board).wf(),
        walls_fit(3, old(board).width as int, old(board).height as int),
    ensures
        final(board).wf(),
        final(board).width == old(board).width,
        final(board).height == old(board).height,
        final(board)@ == painted(
            old(board)@,
            walls_l3(old(board).width as int, old(board).height as int),
            WALL,
        ),
{
    let width = board.width;
    let height = board.height;
    let bar_height = height - (height / 3);
    let bar_y = height / 2 - bar_height / 2;
    let mut bar_x = width / 3;
    draw_line(board, bar_x, bar_y, bar_x, bar_y + bar_height);
    let ghost first = bar(bar_x as int, bar_y as int, bar_x as int, bar_y + bar_height);
    bar_x += width / 3;
    draw_line(board, bar_x, bar_y, bar_x, bar_y + bar_height);
    proof {
        lemma_painted_twice(
            old(board)@,
            first,
            bar(bar_x as int, bar_y as int, bar_x as int, bar_y + bar_height),
            WALL,
        );
    }
}

/// Builds the walls of the fourth level.
pub fn render_l4(board: &mut Board)
    requires
        old(board).wf(),
        walls_fit(4, old(board).width as int, old(board).height as int),
    ensures
        final(board).wf(),
        final(board).width == old(board).width,
        final(board).height == old(board).height,
        final(board)@ == painted(
            old(board)@,
            walls_l4(old(board).width as int, old(board).height as int),
            WALL,
        ),
{
    let width = board.width;
    let height = board.height;
    let bar_space = rounded_two_fifths(height);
    let bar_height = height - bar_space;
    let mut bar_y: usize = 1;
    let mut bar_x = width / 4;
    draw_line(board, bar_x, bar_y, bar_x, bar_y + bar_height);
    let ghost one = bar(bar_x as int, 1, bar_x as int, 1 + bar_height);

    bar_x += width / 2;
    bar_y = height - bar_height;
    draw_line(board, bar_x, bar_y, bar_x, bar_y + bar_height);
    let ghost two = one.union(bar(bar_x as int, bar_y as int, bar_x as int, bar_y + bar_height));
    proof {
        lemma_painted_twice(
            old(board)@,
            one,
            bar(bar_x as int, bar_y as int, bar_x as int, bar_y + bar_height),
            WALL,
        );
    }

    let bar_width = width - (width / 2);
    let bar_x = width - 1 - bar_width;
    let mut bar_y = bar_space / 2;
    draw_line(board, bar_x, bar_y, bar_x + bar_width, bar_y);
    let ghost three = two.union(bar(bar_x as int, bar_y as int, bar_x + bar_width, bar_y as int));
    proof {
        lemma_painted_twice(
            old(board)@,
            two,
            bar(bar_x as int, bar_y as int, bar_x + bar_width, bar_y as int),
            WALL,
        );
    }

    bar_y += bar_height;
    draw_line(board, 1, bar_y, 1 + bar_width, bar_y);
    proof {
        lemma_painted_twice(
            old(board)@,
            three,
            bar(1, bar_y as int, 1 + bar_width, bar_y as int),
            WALL,
        );
    }
}

/// Builds the walls of the fifth level.
pub fn render_l5(board: &mut Board)
    requires
        old(board).wf(),
        walls_fit(5, old(board).width as int, old(board).height as int),
    ensures
        final(board).wf(),
        final(board).width == old(board).width,
        final(board).height == old(board).height,
        final(board)@ == painted(
            old(board)@,
            walls_l5(old(board).width as int, old(board).height as int),
            WALL,
        ),
{
    let width = board.width;
    let height = board.height;
    let bar_height = (height / 2) - 4;
    let bar_y = height / 2 - bar_height / 2;
    let mut bar_x = width / 4;
    draw_line(board, bar_x, bar_y, bar_x, bar_y + bar_height);
    let ghost one = bar(bar_x as int, bar_y as int, bar_x as int, bar_y + bar_height);

    bar_x += width / 2;
    draw_line(board, bar_x, bar_y, bar_x, bar_y + bar_height);
    let ghost two = one.union(bar(bar_x as int, bar_y as int, bar_x as int, bar_y + bar_height));
    proof {
        lemma_painted_twice(
            old(board)@,
            one,
            bar(bar_x as int, bar_y as int, bar_x as int, bar_y + bar_height),
            WALL,
        );
    }

    let bar_width = (width / 2) - 4;
    let bar_x = width / 2 - bar_width / 2 - 1;
    let mut bar_y = height / 4;
    draw_line(board, bar_x, bar_y, bar_x + bar_width, bar_y);
    let ghost three = two.union(bar(bar_x as int, bar_y as int, bar_x + bar_width, bar_y as int));
    proof {
        lemma_painted_twice(
            old(board)@,
            two,
            bar(bar_x as int, bar_y as int, bar_x + bar_width, bar_y as int),
            WALL,
        );
    }

    bar_y += height / 2;
    draw_line(board, bar_x, bar_y, bar_x + bar_width, bar_y);
    proof {
        lemma_painted_twice(
            old(board)@,
            three,
            bar(bar_x as int, bar_y as int, bar_x + bar_width, bar_y as int),
            WALL,
        );
    }
}

/// Builds the walls of the sixth level.
pub fn render_l6(board: &mut Board)
    requires
        old(board).wf(),
        walls_fit(6, old(board).width as int, old(board).height as int),
    ensures
        final(board).wf(),
        final(board).width == old(board).width,
        final(board).height == old(board).height,
        final(board)@ == painted(
            old(board)@,
            walls_l6(old(board).width as int, old(board).height as int),
            WALL,
        ),
{
    let width = board.width;
    let height = board.height;
    let stepwidth = width / 8;
    let bar_height = height / 2 - height / 12;
    let mut count: usize = 0;
    proof {
        lemma_painted_nothing(old(board)@, WALL);
    }
    while count < 8
        invariant
            board.wf(),
            board.width == width,
            board.height == height,
            width == old(board).width,
            height == old(board).height,
            width >= 1,
            height >= 1,
            width % 8 != 0,
            stepwidth == width / 8,
            bar_height == height / 2 - height / 12,
            count <= 8,
            board@ == painted(
                old(board)@,
                gates_l6(width as int, height as int, count as nat),
                WALL,
            ),
        decreases 8 - count,
    {
        count += 1;
        assert(count * stepwidth <= 8 * stepwidth) by (nonlinear_arith)
            requires
                count <= 8,
                stepwidth >= 0,
        ;
        let bar_x = count * stepwidth;
        let ghost done = gates_l6(width as int, height as int, (count - 1) as nat);
        let ghost upper = bar(bar_x as int, 1, bar_x as int, 1 + bar_height);
        let ghost lower = bar(bar_x as int, height - bar_height, bar_x as int, height as int);
        draw_line(board, bar_x, 1, bar_x, 1 + bar_height);
        draw_line(board, bar_x, height - bar_height, bar_x, height);
        proof {
            lemma_painted_twice(old(board)@, done, upper, WALL);
            lemma_painted_twice(old(board)@, done.union(upper), lower, WALL);
        }
    }
}

/// Builds the walls of the seventh level.
pub fn render_l7(board: &mut Board)
    requires
        old(board).wf(),
        walls_fit(7, old(board).width as int, old(board).height as int),
    ensures
        final(board).wf(),
        final(board).width == old(board).width,
        final(board).height == old(board).height,
        final(board)@ == painted(
            old(board)@,
            walls_l7(old(board).width as int, old(board).height as int),
            WALL,
        ),
{
    let width = board.width;
    let height = board.height;
    let bar_x = width / 2;
    let mut y: usize = 0;
    let ghost dotted = |rows: int|
        Set::new(|p: (int, int)| p.0 == width / 2 && 0 <= p.1 < rows && p.1 % 2 != 0);
    proof {
        assert(dotted(0) =~= Set::empty());
        lemma_painted_nothing(old(board)@, WALL);
    }
    while y < height
        invariant
            board.wf(),
            board.width == width,
            board.height == height,
            width == old(board).width,
            height == old(board).height,
            height >= 2 ==> width >= 1,
            bar_x == width / 2,
            y <= height,
            dotted == |rows: int|
                Set::new(|p: (int, int)| p.0 == width / 2 && 0 <= p.1 < rows && p.1 % 2 != 0),
            board@ == painted(old(board)@, dotted(y as int), WALL),
        decreases height - y,
    {
        if y % 2 != 0 {
            board.set_pixel(bar_x, y, WALL);
            proof {
                assert(dotted(y + 1) =~= dotted(y as int).union(set![(bar_x as int, y as int)]));
                lemma_painted_twice(
                    old(board)@,
                    dotted(y as int),
                    set![(bar_x as int, y as int)],
                    WALL,
                );
            }
        } else {
            assert(dotted(y + 1) =~= dotted(y as int));
        }
        y += 1;
    }
    assert(dotted(height as int) =~= walls_l7(width as int, height as int));
}

/// Builds the walls of the eighth level.
pub fn render_l8(board: &mut Board)
    requires
        old(board).wf(),
        walls_fit(8, old(board).width as int, old(board).height as int),
    ensures
        final(board).wf(),
        final(board).width == old(board).width,
        final(board).height == old(board).height,
        final(board)@ == painted(
            old(board)@,
            walls_l8(old(board).width as int, old(board).height as int),
            WALL,
        ),
{
    let width = board.width;
    let height = board.height;
    let stepwidth = width / 4;
    let bar_height = height - height / 6;
    let mut count: usize = 0;
    proof {
        lemma_painted_nothing(old(board)@, WALL);
    }
    while count < 4
        invariant
            board.wf(),
            board.width == width,
            board.height == height,
            width == old(board).width,
            height == old(board).height,
            walls_fit(8, width as int, height as int),
            stepwidth == width / 4,
            bar_height == height - height / 6,
            count <= 4,
            board@ == painted(
                old(board)@,
                hanging_l8(width as int, height as int, count as nat),
                WALL,
            ),
        decreases 4 - count,
    {
        assert(count * stepwidth <= 3 * stepwidth) by (nonlinear_arith)
            requires
                count <= 3,
                stepwidth >= 0,
        ;
        let bar_x = 2 + stepwidth / 2 + count * stepwidth;
        count += 1;
        let ghost done = hanging_l8(width as int, height as int, (count - 1) as nat);
        draw_line(board, bar_x, 1, bar_x, 1 + bar_height);
        proof {
            lemma_painted_twice(
                old(board)@,
                done,
                bar(bar_x as int, 1, bar_x as int, 1 + bar_height),
                WALL,
            );
        }
    }
    let ghost hanging = hanging_l8(width as int, height as int, 4);
    let ghost half = board@;
    let mut count: usize = 0;
    proof {
        lemma_painted_nothing(half, WALL);
    }
    while count < 3
        invariant
            board.wf(),
            board.width == width,
            board.height == height,
            width == old(board).width,
            height == old(board).height,
            walls_fit(8, width as int, height as int),
            stepwidth == width / 4,
            bar_height == height - height / 6,
            count <= 3,
            board@ == painted(half, standing_l8(width as int, height as int, count as nat), WALL),
        decreases 3 - count,
    {
        count += 1;
        assert(count * stepwidth <= 3 * stepwidth) by (nonlinear_arith)
            requires
                count <= 3,
                stepwidth >= 0,
        ;
        let bar_x = count * stepwidth + 2;
        let ghost done = standing_l8(width as int, height as int, (count - 1) as nat);
        draw_line(board, bar_x, height - bar_height, bar_x, height);
        proof {
            lemma_painted_twice(
                half,
                done,
                bar(bar_x as int, height - bar_height, bar_x as int, height as int),
                WALL,
            );
        }
    }
    proof {
        lemma_painted_twice(
            old(board)@,
            hanging,
            standing_l8(width as int, height as int, 3),
            WALL,
        );
    }
}

/// Builds the walls of `level` on `board`. A level beyond the last has no
/// walls.
pub fn render_level(level: u8, board: &mut Board)
    requires
        old(board).wf(),
        walls_fit(level as int, old(board).width as int, old(board).height as int),
    ensures
        final(board).wf(),
        final(board).width == old(board).width,
        final(board).height == old(board).height,
        final(board)@ == painted(
            old(board)@,
            walls(level as int, old(board).width as int, old(board).height as int),
            WALL,
        ),
{
    proof {
        lemma_painted_nothing(old(board)@, WALL);
    }
    match level {
        2 => render_l2(board),
        3 => render_l3(board),
        4 => render_l4(board),
        5 => render_l5(board),
        6 => render_l6(board),
        7 => render_l7(board),
        8 => render_l8(board),
        _ => render_l1(board),
    }
}

/// The snake at the start of a level: its head at `head`, heading
/// `direction`, and one more cell right behind the head.
pub open spec fn laid_out(head: SnakeCell, direction: Direction) -> Seq<SnakeCell> {
    let behind = direction.behind(head.0 as int, head.1 as int);
    seq![head, SnakeCell(behind.0 as i32, behind.1 as i32)]
}

/// A snake of two cells is two different cells.
pub proof fn lemma_laid_out_apart(head: SnakeCell, direction: Direction)
    requires
        i32::MIN < head.0 < i32::MAX,
        i32::MIN < head.1 < i32::MAX,
    ensures
        laid_out(head, direction).len() == 2,
        laid_out(head, direction).no_duplicates(),
{
}

/// Lays the snake out behind its head.
pub fn lay_snake(head: SnakeCell, direction: Direction) -> (snake: (Vec<SnakeCell>, Direction))
    requires
        i32::MIN < head.0 < i32::MAX,
        i32::MIN < head.1 < i32::MAX,
    ensures
        snake.0@ == laid_out(head, direction),
        snake.1 == direction,
{
    let mut cells: Vec<SnakeCell> = Vec::new();
    cells.push(head);
    let SnakeCell(mut nx, mut ny) = head;
    match direction {
        Direction::Up | Direction::Down => {
            ny -= direction.as_integer();
        },
        Direction::Right | Direction::Left => {
            nx -= direction.as_integer();
        },
    }
    cells.push(SnakeCell(nx, ny));
    assert(cells@ =~= laid_out(head, direction));
    (cells, direction)
}

/// The heading that stands at place `index` among the four: up, right,
/// down, left.
pub open spec fn nth_direction(index: int) -> Direction {
    if index == 0 {
        Direction::Up
    } else if index == 1 {
        Direction::Right
    } else if index == 2 {
        Direction::Down
    } else {
        Direction::Left
    }
}

/// The heading that stands at place `index` among the four.
pub fn direction_from_index(index: usize) -> (direction: Direction)
    requires
        index <= 3,
    ensures
        direction == nth_direction(index as int),
{
    match index {
        0 => Direction::Up,
        1 => Direction::Right,
        2 => Direction::Down,
        _ => Direction::Left,
    }
}

/// A heading drawn by chance from the four.
pub fn random_direction() -> Direction {
    direction_from_index(random_in(0, 4))
}

/// The head of the snake of the second level for a cell drawn at `(x, y)`:
/// the cell itself, or the one above it where the cell lies on the row of
/// the wall.
pub open spec fn head_l2(h: int, x: int, y: int) -> SnakeCell {
    SnakeCell(
        x as i32,
        if y == h / 2 {
            (y - 1) as i32
        } else {
            y as i32
        },
    )
}

/// The head of the snake of the third level for a cell drawn at `(x, y)`:
/// the cell itself, or the one left of it where the cell lies on the column
/// of a wall.
pub open spec fn head_l3(w: int, x: int, y: int) -> SnakeCell {
    SnakeCell(
        if x == w / 3 || x == (w / 3) * 2 {
            (x - 1) as i32
        } else {
            x as i32
        },
        y as i32,
    )
}

/// Whether the snakes of `level` have room to start on a board for a
/// playfield of `w` by `h` cells.
pub open spec fn spawn_fits(level: int, w: int, h: int) -> bool {
    &&& w <= i32::MAX
    &&& h <= i32::MAX
    &&& if level == 1 {
        w / 2 >= 3 && h / 2 >= 3
    } else if level == 2 || level == 3 {
        w >= 2 && h >= 2
    } else {
        true
    }
}

/// Whether the snakes of `level` have room to start on a board for a
/// playfield of `width` by `height` cells.
pub fn spawn_has_room(level: u8, width: usize, height: usize) -> (fit: bool)
    ensures
        fit == spawn_fits(level as int, width as int, height as int),
{
    width <= 0x7fff_ffff && height <= 0x7fff_ffff && match level {
        1 => width / 2 >= 3 && height / 2 >= 3,
        2 | 3 => width >= 2 && height >= 2,
        _ => true,
    }
}

/// Whether `body`, heading `direction`, is a snake with which `level` may
/// start on a board for a playfield of `w` by `h` cells.
///
/// The first level starts near the middle, heading any way. The second
/// starts anywhere off the row of its wall, heading left or right; the third
/// anywhere off the columns of its walls, heading up or down. Every later
/// level starts in the middle, heading any way.
pub open spec fn spawned(
    level: int,
    w: int,
    h: int,
    body: Seq<SnakeCell>,
    direction: Direction,
) -> bool {
    if level == 1 {
        exists|x: int, y: int|
            w / 2 - 3 <= x < w / 2 + 3 && h / 2 - 3 <= y < h / 2 + 3 && body == #[trigger] laid_out(
                SnakeCell(x as i32, y as i32),
                direction,
            )
    } else if level == 2 {
        !direction.is_vertical() && exists|x: int, y: int|
            1 <= x < w && 1 <= y < h && body == laid_out(#[trigger] head_l2(h, x, y), direction)
    } else if level == 3 {
        direction.is_vertical() && exists|x: int, y: int|
            1 <= x < w && 1 <= y < h && body == laid_out(#[trigger] head_l3(w, x, y), direction)
    } else {
        body == laid_out(SnakeCell((w / 2) as i32, (h / 2) as i32), direction)
    }
}

/// Every snake that a level starts with has two different cells, on the
/// board or next to it.
pub proof fn lemma_spawned_snake(
    level: int,
    w: int,
    h: int,
    body: Seq<SnakeCell>,
    direction: Direction,
)
    requires
        spawn_fits(level, w, h),
        0 <= w,
        0 <= h,
        spawned(level, w, h, body, direction),
    ensures
        body.len() == 2,
        body.no_duplicates(),
        forall|i: int|
            0 <= i < 2 ==> -1 <= (#[trigger] body[i]).0 <= w + 1 && -1 <= body[i].1 <= h + 1,
{
    if level == 1 {
        let (x, y) = choose|x: int, y: int|
            w / 2 - 3 <= x < w / 2 + 3 && h / 2 - 3 <= y < h / 2 + 3 && body == #[trigger] laid_out(
                SnakeCell(x as i32, y as i32),
                direction,
            );
        lemma_laid_out_apart(SnakeCell(x as i32, y as i32), direction);
    } else if level == 2 {
        let (x, y) = choose|x: int, y: int|
            1 <= x < w && 1 <= y < h && body == laid_out(#[trigger] head_l2(h, x, y), direction);
        lemma_laid_out_apart(head_l2(h, x, y), direction);
    } else if level == 3 {
        let (x, y) = choose|x: int, y: int|
            1 <= x < w && 1 <= y < h && body == laid_out(#[trigger] head_l3(w, x, y), direction);
        lemma_laid_out_apart(head_l3(w, x, y), direction);
    } else {
        lemma_laid_out_apart(SnakeCell((w / 2) as i32, (h / 2) as i32), direction);
    }
}

/// Starts the snake of the first level: near the middle of the board,
/// heading any way.
pub fn spawn_l1(board: &Board) -> (snake: (Vec<SnakeCell>, Direction))
    requires
        spawn_fits(1, board.width as int, board.height as int),
    ensures
        spawned(1, board.width as int, board.height as int, snake.0@, snake.1),
{
    let center_x = board.width / 2;
    let center_y = board.height / 2;
    let head = SnakeCell(
        random_in(center_x - 3, center_x + 3) as i32,
        random_in(center_y - 3, center_y + 3) as i32,
    );
    let direction = random_direction();
    let snake = lay_snake(head, direction);
    assert(snake.0@ == laid_out(SnakeCell(head.0 as int as i32, head.1 as int as i32), direction));
    snake
}

/// Starts the snake of the second level at the cell drawn at `(x, y)`,
/// heading `direction`.
pub fn spawn_l2_at(board: &Board, x: usize, y: usize, direction: Direction) -> (snake: (
    Vec<SnakeCell>,
    Direction,
))
    requires
        spawn_fits(2, board.width as int, board.height as int),
        1 <= x < board.width,
        1 <= y < board.height,
    ensures
        snake.0@ == laid_out(head_l2(board.height as int, x as int, y as int), direction),
        snake.1 == direction,
{
    let mut head = SnakeCell(x as i32, y as i32);
    if head.1 == board.height as i32 / 2 {
        head.1 -= 1;
    }
    lay_snake(head, direction)
}

/// Starts the snake of the second level: anywhere off the row of the wall,
/// heading left or right.
pub fn spawn_l2(board: &Board) -> (snake: (Vec<SnakeCell>, Direction))
    requires
        spawn_fits(2, board.width as int, board.height as int),
    ensures
        spawned(2, board.width as int, board.height as int, snake.0@, snake.1),
{
    let x = random_in(1, board.width);
    let y = random_in(1, board.height);
    let sides = [Direction::Left, Direction::Right];
    let direction = random_choice(sides.as_slice()).unwrap();
    spawn_l2_at(board, x, y, direction)
}

/// Starts the snake of the third level at the cell drawn at `(x, y)`,
/// heading `direction`.
pub fn spawn_l3_at(board: &Board, x: usize, y: usize, direction: Direction) -> (snake: (
    Vec<SnakeCell>,
    Direction,
))
    requires
        spawn_fits(3, board.width as int, board.height as int),
        1 <= x < board.width,
        1 <= y < board.height,
    ensures
        snake.0@ == laid_out(head_l3(board.width as int, x as int, y as int), direction),
        snake.1 == direction,
{
    let mut head = SnakeCell(x as i32, y as i32);
    if head.0 == board.width as i32 / 3 || head.0 == (board.width as i32 / 3) * 2 {
        head.0 -= 1;
    }
    lay_snake(head, direction)
}

/// Starts the snake of the third level: anywhere off the columns of the
/// walls, heading up or down.
pub fn spawn_l3(board: &Board) -> (snake: (Vec<SnakeCell>, Direction))
    requires
        spawn_fits(3, board.width as int, board.height as int),
    ensures
        spawned(3, board.width as int, board.height as int, snake.0@, snake.1),
{
    let x = random_in(1, board.width);
    let y = random_in(1, board.height);
    let ways = [Direction::Up, Direction::Down];
    let direction = random_choice(ways.as_slice()).unwrap();
    spawn_l3_at(board, x, y, direction)
}

/// Starts a snake in the middle of the board, heading any way.
pub fn spawn_centred(board: &Board) -> (snake: (Vec<SnakeCell>, Direction))
    requires
        board.width <= i32::MAX,
        board.height <= i32::MAX,
    ensures
        snake.0@ == laid_out(
            SnakeCell((board.width / 2) as i32, (board.height / 2) as i32),
            snake.1,
        ),
{
    let head = SnakeCell(board.width as i32 / 2, board.height as i32 / 2);
    let direction = random_direction();
    lay_snake(head, direction)
}

/// Starts the snake of `level` on `board`. A level beyond the third starts
/// in the middle.
pub fn spawn_level(level: u8, board: &Board) -> (snake: (Vec<SnakeCell>, Direction))
    requires
        spawn_fits(level as int, board.width as int, board.height as int),
    ensures
        spawned(level as int, board.width as int, board.height as int, snake.0@, snake.1),
{
    match level {
        1 => spawn_l1(board),
        2 => spawn_l2(board),
        3 => spawn_l3(board),
        _ => spawn_centred(board),
    }
}

} // verus!
