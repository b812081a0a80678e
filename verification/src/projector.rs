//! The projector: how the state of the game and the board become a frame.
//!
//! A frame has a status row, a border around the playfield, the playfield
//! itself, the number to eat, and a box while the game is paused. Two rows of
//! the board share one row of the frame: half blocks show them one above the
//! other. A game that is over shows a banner instead.

use crate::board::{pair_count, second_of_pair, Board, EMPTY};
use crate::game::{game_over, GameState, Play};
use crate::terminal::{at_most, repeated, Cell, Screen, TermColor, Terminal};
use vstd::prelude::*;
use vstd::std_specs::iter::IteratorSpec;

verus! {

/// A whole cell in the colour of the pen.
pub const FULL_BLOCK: char = '\u{2588}';

/// The upper half of a cell in the colour of the pen.
pub const UPPER_HALF: char = '\u{2580}';

/// The lower half of a cell in the colour of the pen.
pub const LOWER_HALF: char = '\u{2584}';

/// The colour of text.
pub const TEXT_COLOR: u8 = 15;

/// The colour of the border.
pub const BORDER_COLOR: u8 = 9;

/// The colour of the banner of a game that is over.
pub const BANNER_COLOR: u8 = 12;

/// The colour of the box of a paused game.
pub const BOX_COLOR: u8 = 1;

/// The columns that the status row counts for lives and level.
pub const RUNNING_WIDTH: usize = 24;

/// The columns that the status row counts for the word of a paused game.
pub const PAUSED_WIDTH: usize = 10;

/// The columns of the box of a paused game.
pub const BOX_WIDTH: usize = 27;

/// The rows of the box of a paused game.
pub const BOX_HEIGHT: usize = 3;

/// The banner of a game that is over.
pub const BANNER: &'static str = r"
   ______                        ____                     
  / ____/___ _____ ___  ___     / __ \_   _____  _____    
 / / __/ __ `/ __ `__ \/ _ \   / / / / | / / _ \/ ___/    
/ /_/ / /_/ / / / / / /  __/  / /_/ /| |/ /  __/ /        
\____/\____/_/ /_/ /_/\___/   \____/ |___/\___/_/         
";

/// The character of the digit `d`.
pub open spec fn digit(d: int) -> char {
    if d == 0 {
        '0'
    } else if d == 1 {
        '1'
    } else if d == 2 {
        '2'
    } else if d == 3 {
        '3'
    } else if d == 4 {
        '4'
    } else if d == 5 {
        '5'
    } else if d == 6 {
        '6'
    } else if d == 7 {
        '7'
    } else if d == 8 {
        '8'
    } else {
        '9'
    }
}

/// The digits of `n` to the base ten, without leading zeros.
pub open spec fn decimal(n: nat) -> Seq<char>
    decreases n,
{
    if n < 10 {
        seq![digit(n as int)]
    } else {
        decimal(n / 10).push(digit((n % 10) as int))
    }
}

/// The digits of `i` to the base ten, behind a minus sign where `i` is
/// negative.
pub open spec fn signed_decimal(i: int) -> Seq<char> {
    if i < 0 {
        seq!['-'] + decimal((-i) as nat)
    } else {
        decimal(i as nat)
    }
}

/// The character of the digit `d`.
fn digit_char(d: u8) -> (c: char)
    requires
        d <= 9,
    ensures
        c == digit(d as int),
{
    match d {
        0 => '0',
        1 => '1',
        2 => '2',
        3 => '3',
        4 => '4',
        5 => '5',
        6 => '6',
        7 => '7',
        8 => '8',
        _ => '9',
    }
}

/// Appends the digits of `n` to `out`.
fn push_decimal(n: u128, out: &mut Vec<char>)
    ensures
        final(out)@ == old(out)@ + decimal(n as nat),
    decreases n,
{
    if n >= 10 {
        push_decimal(n / 10, out);
    }
    out.push(digit_char((n % 10) as u8));
    assert(out@ =~= old(out)@ + decimal(n as nat));
}

/// The digits of `n` to the base ten.
pub fn decimal_text(n: u128) -> (text: Vec<char>)
    ensures
        text@ == decimal(n as nat),
{
    let mut text: Vec<char> = Vec::new();
    push_decimal(n, &mut text);
    assert(text@ =~= decimal(n as nat));
    text
}

/// The digits of `i` to the base ten, behind a minus sign where `i` is
/// negative.
pub fn signed_decimal_text(i: i32) -> (text: Vec<char>)
    ensures
        text@ == signed_decimal(i as int),
{
    let mut text: Vec<char> = Vec::new();
    if i < 0 {
        text.push('-');
        push_decimal((-(i as i64)) as u128, &mut text);
        assert(text@ =~= signed_decimal(i as int));
    } else {
        push_decimal(i as u128, &mut text);
        assert(text@ =~= signed_decimal(i as int));
    }
    text
}

/// The colour that the cell value `v` stands for.
pub open spec fn shade(v: i16) -> TermColor {
    TermColor::Color((v as int % 256) as u8)
}

/// The colour that the cell value `v` stands for.
pub fn shade_of(v: i16) -> (color: TermColor)
    ensures
        color == shade(v),
{
    TermColor::Color(((v as i32 + 32768) % 256) as u8)
}

/// Whether row `y` of the frame's playfield lies on the upper or the lower
/// border, whose row is `bottom`.
pub fn check_bottom_top(bottom: usize, y: usize) -> (edge: bool)
    ensures
        edge == (y == 0 || y == bottom - 1),
{
    y == 0 || (bottom >= 1 && y == bottom - 1)
}

/// The larger of two cell values.
pub open spec fn larger(a: i16, b: i16) -> i16 {
    if a >= b {
        a
    } else {
        b
    }
}

/// The screen after the cell that shows the board values `upper` and
/// `lower`, one above the other.
///
/// Two empty halves leave the cell as it is. Two equal colours give a full
/// block. Two different colours give a lower half block in the lower colour
/// on the upper colour. One colour gives the half block of its half, and on
/// a row of the border it stands on the colour of the border.
pub open spec fn draw_pair(screen: Screen, upper: i16, lower: i16, edge: bool) -> Screen {
    if upper == lower && upper < 0 {
        screen.right(1)
    } else {
        let pen = if upper >= 0 && lower >= 0 {
            screen.with_background(shade(upper)).with_foreground(shade(lower))
        } else if edge {
            screen.with_background(TermColor::Color(BORDER_COLOR)).with_foreground(
                shade(larger(upper, lower)),
            )
        } else {
            screen.with_foreground(shade(larger(upper, lower)))
        };
        let glyph = if upper == lower {
            FULL_BLOCK
        } else if lower >= 0 {
            LOWER_HALF
        } else {
            UPPER_HALF
        };
        pen.write(seq![glyph]).with_background(TermColor::Default).with_foreground(
            TermColor::Default,
        )
    }
}

/// The board value at place `x` of the lower row of a pair, which is empty
/// where the pair has no lower row.
pub open spec fn lower_at(lower: Option<Seq<i16>>, x: int) -> i16 {
    match lower {
        Some(row) => row[x],
        None => EMPTY,
    }
}

/// The screen after the first `upto` cells of a pair of board rows.
pub open spec fn draw_cells(
    screen: Screen,
    upper: Seq<i16>,
    lower: Option<Seq<i16>>,
    edge: bool,
    upto: int,
) -> Screen
    decreases upto,
{
    if upto <= 0 {
        screen
    } else {
        draw_pair(
            draw_cells(screen, upper, lower, edge, upto - 1),
            upper[upto - 1],
            lower_at(lower, upto - 1),
            edge,
        )
    }
}

/// The lower row of pair `k` of `rows`, if the pair has one.
pub open spec fn lower_row(rows: Seq<Seq<i16>>, k: int) -> Option<Seq<i16>> {
    match second_of_pair(rows.len(), k) {
        Some(r) => Some(rows[r]),
        None => None,
    }
}

/// The screen after the first `upto` pairs of board rows, each drawn from
/// the start of a row of the screen, the next one below it. `bottom` is the
/// row of the lower border.
pub open spec fn draw_field(screen: Screen, rows: Seq<Seq<i16>>, bottom: int, upto: int) -> Screen
    decreases upto,
{
    if upto <= 0 {
        screen
    } else {
        let k = upto - 1;
        draw_cells(
            draw_field(screen, rows, bottom, k),
            rows[2 * k],
            lower_row(rows, k),
            k == 0 || k == bottom - 1,
            rows[2 * k].len() as int,
        ).ret().down(1)
    }
}

/// The screen of a game that is over: blank but for the banner and, below
/// it, the word on how to start again.
pub open spec fn drawn_game_over(screen: Screen) -> Screen {
    screen.cleared().with_foreground(TermColor::Color(BANNER_COLOR)).write(
        BANNER@,
    ).with_foreground(TermColor::Color(TEXT_COLOR)).write("\nPress SPACE to start again"@)
}

/// The text of the time between the last two ticks.
pub open spec fn duration_text(play: Play) -> Seq<char> {
    seq![' ', ' ', ' ', ' '] + decimal(play.duration)
}

/// The columns that the status row counts for its texts.
pub open spec fn status_width(play: Play) -> int {
    (if play.paused {
        PAUSED_WIDTH as int
    } else {
        RUNNING_WIDTH as int
    }) + duration_text(play).len() + signed_decimal(play.score).len()
}

/// The screen after the status row: lives and level, or the word of a
/// paused game; the time between the last two ticks; and the score at the
/// right edge.
pub open spec fn drawn_status(play: Play, screen: Screen) -> Screen {
    let pen = screen.with_foreground(TermColor::Color(TEXT_COLOR));
    let state = if !play.paused {
        pen.write("Lives: "@).write(decimal(play.lives as nat)).write("        Level: "@).write(
            decimal(play.level as nat),
        )
    } else {
        pen.write("    Paused"@)
    };
    state.write(duration_text(play)).right((screen.width - status_width(play)) as nat).write(
        signed_decimal(play.score),
    ).write("\n"@)
}

/// The screen after `count` rows of the side borders.
pub open spec fn drawn_sides(screen: Screen, count: nat) -> Screen
    decreases count,
{
    if count == 0 {
        screen
    } else {
        drawn_sides(screen, (count - 1) as nat).write("\u{2588}"@).right(
            (screen.width - 2) as nat,
        ).write("\u{2588}"@).down(1).ret()
    }
}

/// The screen after the border: the upper edge, the sides, and the lower
/// edge on the last row.
pub open spec fn drawn_border(screen: Screen) -> Screen {
    let inner = (screen.width - 2) as nat;
    let sides = if screen.height > 3 {
        (screen.height - 3) as nat
    } else {
        0
    };
    drawn_sides(
        screen.with_foreground(TermColor::Color(BORDER_COLOR)).write("\u{2588}"@).write(
            repeated(UPPER_HALF, inner),
        ).write("\u{2588}\n"@),
        sides,
    ).write("\u{2588}"@).write(repeated(LOWER_HALF, inner)).write("\u{2588}"@)
}

/// The screen after the number to eat, written where it lies.
pub open spec fn drawn_number(play: Play, screen: Screen) -> Screen {
    screen.with_foreground(TermColor::Color(TEXT_COLOR)).with_background(TermColor::Default).goto(
        play.number_pos.0,
        play.number_pos.1 / 2 + 1,
    ).write(decimal(play.current_number as nat))
}

/// The screen after one row of the box: an edge, `content`, an edge, and the
/// cursor back under the start of the row.
pub open spec fn drawn_box_row(screen: Screen, content: Seq<char>) -> Screen {
    screen.write("\u{2588}"@).write(content).write("\u{2588}"@).left(BOX_WIDTH as nat).down(1)
}

/// The screen after the box of a paused game, in the middle of the screen.
pub open spec fn drawn_box(screen: Screen) -> Screen {
    let start = screen.with_foreground(TermColor::Color(TEXT_COLOR)).with_background(
        TermColor::Color(BOX_COLOR),
    ).goto((screen.width / 2 - BOX_WIDTH / 2) as nat, (screen.height / 2 - BOX_HEIGHT / 2) as nat);
    drawn_box_row(
        drawn_box_row(
            drawn_box_row(start, repeated(UPPER_HALF, (BOX_WIDTH - 2) as nat)),
            " Press SPACE to continue "@,
        ),
        repeated(LOWER_HALF, (BOX_WIDTH - 2) as nat),
    ).with_foreground(TermColor::Default).with_background(TermColor::Default)
}

/// The frame of a game on `board`, drawn on `screen`.
pub open spec fn drawn(play: Play, board: &Board, screen: Screen) -> Screen {
    if play.game_over() {
        drawn_game_over(screen)
    } else {
        let field = draw_field(
            drawn_border(drawn_status(play, screen)).goto(0, 1),
            board@,
            screen.height - 1,
            pair_count(board@.len()) as int,
        );
        let number = drawn_number(play, field);
        if play.paused {
            drawn_box(number)
        } else {
            number
        }
    }
}

/// Whether a frame of `width` columns and `height` rows has room for the
/// game: none is needed to say that the game is over; else the status row
/// must hold its texts, and the box of a paused game must fit.
pub open spec fn draw_fits(play: Play, width: int, height: int) -> bool {
    play.game_over() || (width >= status_width(play) && (play.paused ==> width / 2 >= BOX_WIDTH / 2
        && height >= 2))
}

/// Whether a frame of `width` columns and `height` rows has room for the
/// game.
pub fn can_draw(game_state: &GameState, width: usize, height: usize) -> (fits: bool)
    ensures
        fits == draw_fits(game_state@, width as int, height as int),
{
    if game_over(game_state) {
        return true;
    }
    let state_len: usize = if game_state.paused {
        PAUSED_WIDTH
    } else {
        RUNNING_WIDTH
    };
    let duration_len = decimal_text(game_state.duration_since_last_update).len();
    let score_len = signed_decimal_text(game_state.score).len();
    assert(duration_text(game_state@).len() == 4 + duration_len);
    if width < state_len || width - state_len < 4 || width - state_len - 4 < duration_len || width
        - state_len - 4 - duration_len < score_len {
        return false;
    }
    !game_state.paused || (width / 2 >= BOX_WIDTH / 2 && height >= 2)
}

/// Draws one cell for a pair of board values, `upper` above `lower`.
pub fn draw_pair_cell(buffer: &mut Terminal, upper: i16, lower: i16, edge: bool)
    requires
        old(buffer).wf(),
    ensures
        final(buffer).wf(),
        final(buffer).size == old(buffer).size,
        final(buffer)@ == draw_pair(old(buffer)@, upper, lower, edge),
{
    proof {
        buffer.lemma_wf_shaped();
    }
    let mut fullchar = false;
    if upper == lower {
        if upper < 0 {
            buffer.right(1);
            return ;
        }
        fullchar = true;
    }
    let top = if upper >= lower {
        upper
    } else {
        lower
    };
    if upper >= 0 && lower >= 0 {
        buffer.set_background(shade_of(upper));
        buffer.set_foreground(shade_of(lower));
    } else if edge {
        buffer.set_background(TermColor::Color(BORDER_COLOR));
        buffer.set_foreground(shade_of(top));
    } else {
        buffer.set_foreground(shade_of(top));
    }
    buffer.write_repeated(
        if fullchar {
            FULL_BLOCK
        } else if lower >= 0 {
            LOWER_HALF
        } else {
            UPPER_HALF
        },
        1,
    );
    proof {
        let glyph = if upper == lower {
            FULL_BLOCK
        } else if lower >= 0 {
            LOWER_HALF
        } else {
            UPPER_HALF
        };
        assert(repeated(glyph, 1) =~= seq![glyph]);
    }
    buffer.set_background(TermColor::Default);
    buffer.set_foreground(TermColor::Default);
}

/// Draws one row of the box of a paused game.
fn draw_box_row(buffer: &mut Terminal, content: &Vec<char>)
    requires
        old(buffer).wf(),
    ensures
        final(buffer).wf(),
        final(buffer).size == old(buffer).size,
        final(buffer)@ == drawn_box_row(old(buffer)@, content@),
{
    buffer.write_str("\u{2588}");
    buffer.write_chars(content);
    buffer.write_str("\u{2588}");
    proof {
        buffer.lemma_wf_shaped();
    }
    buffer.left(BOX_WIDTH);
    proof {
        buffer.lemma_wf_shaped();
    }
    buffer.down(1);
}

/// Draws the status row.
fn draw_status(game_state: &GameState, buffer: &mut Terminal)
    requires
        old(buffer).wf(),
        old(buffer).size.0 <= usize::MAX / 2,
        old(buffer).size.0 >= status_width(game_state@),
    ensures
        final(buffer).wf(),
        final(buffer).size == old(buffer).size,
        final(buffer)@ == drawn_status(game_state@, old(buffer)@),
{
    let ghost play = game_state@;
    let width = buffer.size.0;
    buffer.set_foreground(TermColor::Color(TEXT_COLOR));
    let state_len: usize = if !game_state.paused {
        buffer.write_str("Lives: ");
        buffer.write_chars(&decimal_text(game_state.lives as u128));
        buffer.write_str("        Level: ");
        buffer.write_chars(&decimal_text(game_state.level as u128));
        RUNNING_WIDTH
    } else {
        buffer.write_str("    Paused");
        PAUSED_WIDTH
    };
    let score_text = signed_decimal_text(game_state.score);
    let mut duration: Vec<char> = Vec::new();
    duration.push(' ');
    duration.push(' ');
    duration.push(' ');
    duration.push(' ');
    push_decimal(game_state.duration_since_last_update, &mut duration);
    assert(duration@ =~= duration_text(play));
    buffer.write_chars(&duration);
    proof {
        buffer.lemma_wf_shaped();
    }
    buffer.right(width - state_len - duration.len() - score_text.len());
    buffer.write_chars(&score_text);
    buffer.write_str("\n");
}

/// Draws the border around the playfield.
fn draw_border(buffer: &mut Terminal)
    requires
        old(buffer).wf(),
        old(buffer).size.0 <= usize::MAX / 2,
        old(buffer).size.0 >= 2,
    ensures
        final(buffer).wf(),
        final(buffer).size == old(buffer).size,
        final(buffer)@ == drawn_border(old(buffer)@),
{
    let (width, height) = buffer.size;
    buffer.set_foreground(TermColor::Color(BORDER_COLOR));
    buffer.write_str("\u{2588}");
    buffer.write_repeated(UPPER_HALF, width - 2);
    buffer.write_str("\u{2588}\n");
    let ghost edge = buffer@;
    let mut row: usize = 3;
    while row < height
        invariant
            buffer.wf(),
            buffer.size == (width, height),
            width <= usize::MAX / 2,
            width >= 2,
            3 <= row,
            height > 3 ==> row <= height,
            edge.width == width,
            buffer@ == drawn_sides(
                edge,
                if height > 3 {
                    (row - 3) as nat
                } else {
                    0
                },
            ),
        decreases height - row,
    {
        buffer.write_str("\u{2588}");
        proof {
            buffer.lemma_wf_shaped();
        }
        buffer.right(width - 2);
        buffer.write_str("\u{2588}");
        proof {
            buffer.lemma_wf_shaped();
        }
        buffer.down(1);
        buffer.ret();
        row += 1;
    }
    buffer.write_str("\u{2588}");
    buffer.write_repeated(LOWER_HALF, width - 2);
    buffer.write_str("\u{2588}");
}

/// Draws the cells of one pair of board rows.
fn draw_pair_row(buffer: &mut Terminal, upper: &[i16], lower: Option<&[i16]>, edge: bool)
    requires
        old(buffer).wf(),
        lower matches Some(cells) ==> cells@.len() == upper@.len(),
    ensures
        final(buffer).wf(),
        final(buffer).size == old(buffer).size,
        final(buffer)@ == draw_cells(
            old(buffer)@,
            upper@,
            match lower {
                Some(cells) => Some(cells@),
                None => None,
            },
            edge,
            upper@.len() as int,
        ),
{
    let ghost below = match lower {
        Some(cells) => Some(cells@),
        None => None,
    };
    let mut x: usize = 0;
    while x < upper.len()
        invariant
            buffer.wf(),
            buffer.size == old(buffer).size,
            x <= upper@.len(),
            lower matches Some(cells) ==> cells@.len() == upper@.len(),
            below == match lower {
                Some(cells) => Some(cells@),
                None => None,
            },
            buffer@ == draw_cells(old(buffer)@, upper@, below, edge, x as int),
        decreases upper@.len() - x,
    {
        let co = upper[x];
        let ce = match lower {
            Some(cells) => cells[x],
            None => EMPTY,
        };
        draw_pair_cell(buffer, co, ce, edge);
        x += 1;
    }
}

/// Draws the board, two of its rows to each row of the frame, from where
/// the cursor stands downwards.
fn draw_board(board: &Board, buffer: &mut Terminal)
    requires
        old(buffer).wf(),
        board.wf(),
    ensures
        final(buffer).wf(),
        final(buffer).size == old(buffer).size,
        final(buffer)@ == draw_field(
            old(buffer)@,
            board@,
            old(buffer).size.1 - 1,
            pair_count(board@.len()) as int,
        ),
{
    proof {
        buffer.lemma_wf_shaped();
    }
    let bottom = buffer.size.1 - 1;
    let ghost top = buffer@;
    let mut pairs = board.iter();
    let mut y: usize = 0;
    loop
        invariant
            buffer.wf(),
            buffer.size == old(buffer).size,
            board.wf(),
            bottom == buffer.size.1 - 1,
            pairs.board() == board,
            pairs.position() == y,
            y <= pair_count(board.rows@.len()),
            buffer@ == draw_field(top, board@, bottom as int, y as int),
        ensures
            buffer.wf(),
            buffer.size == old(buffer).size,
            buffer@ == draw_field(top, board@, bottom as int, pair_count(board.rows@.len()) as int),
        decreases pair_count(board.rows@.len()) - y,
    {
        match pairs.next() {
            None => {
                break ;
            },
            Some((upper, lower)) => {
                let edge = check_bottom_top(bottom, y);
                assert(upper@ == board@[2 * y]);
                assert(match lower {
                    Some(cells) => lower_row(board@, y as int) == Some(cells@),
                    None => lower_row(board@, y as int) is None,
                });
                draw_pair_row(buffer, upper, lower, edge);
                buffer.ret();
                proof {
                    buffer.lemma_wf_shaped();
                }
                buffer.down(1);
                y += 1;
            },
        }
    }
}

/// Writes the number to eat where it lies.
fn draw_number(game_state: &GameState, buffer: &mut Terminal)
    requires
        old(buffer).wf(),
    ensures
        final(buffer).wf(),
        final(buffer).size == old(buffer).size,
        final(buffer)@ == drawn_number(game_state@, old(buffer)@),
{
    proof {
        buffer.lemma_wf_shaped();
    }
    buffer.set_foreground(TermColor::Color(TEXT_COLOR));
    buffer.set_background(TermColor::Default);
    buffer.goto(game_state.number_pos.0, game_state.number_pos.1 / 2 + 1);
    buffer.write_chars(&decimal_text(game_state.current_number as u128));
}

/// Draws the box of a paused game.
fn draw_box(buffer: &mut Terminal)
    requires
        old(buffer).wf(),
        old(buffer).size.0 / 2 >= BOX_WIDTH / 2,
        old(buffer).size.1 >= 2,
    ensures
        final(buffer).wf(),
        final(buffer).size == old(buffer).size,
        final(buffer)@ == drawn_box(old(buffer)@),
{
    let (width, height) = buffer.size;
    let box_x = width / 2 - BOX_WIDTH / 2;
    let box_y = height / 2 - BOX_HEIGHT / 2;
    buffer.set_foreground(TermColor::Color(TEXT_COLOR));
    buffer.set_background(TermColor::Color(BOX_COLOR));
    buffer.goto(box_x, box_y);
    let mut upper_edge: Vec<char> = Vec::new();
    let mut lower_edge: Vec<char> = Vec::new();
    let mut message: Vec<char> = Vec::new();
    fill(&mut upper_edge, UPPER_HALF, BOX_WIDTH - 2);
    fill(&mut lower_edge, LOWER_HALF, BOX_WIDTH - 2);
    copy_text(&mut message, " Press SPACE to continue ");
    draw_box_row(buffer, &upper_edge);
    draw_box_row(buffer, &message);
    draw_box_row(buffer, &lower_edge);
    buffer.set_foreground(TermColor::Default);
    buffer.set_background(TermColor::Default);
}

/// Draws the frame of the game on `buffer`.
///
/// A game that is over shows the banner on a blank screen. Any other game
/// shows the status row, the border, the board with the snake on it, two
/// rows of the board to each row of the screen, the number to eat and,
/// while it is paused, the box that says how to go on.
pub fn draw_buffered(game_state: &GameState, board: &Board, buffer: &mut Terminal)
    requires
        old(buffer).wf(),
        board.wf(),
        old(buffer).size.0 <= usize::MAX / 2,
        draw_fits(game_state@, old(buffer).size.0 as int, old(buffer).size.1 as int),
    ensures
        final(buffer).wf(),
        final(buffer).size == old(buffer).size,
        final(buffer)@ == drawn(game_state@, board, old(buffer)@),
{
    if game_over(game_state) {
        buffer.clear();
        buffer.set_foreground(TermColor::Color(BANNER_COLOR));
        buffer.write_str(BANNER);
        buffer.set_foreground(TermColor::Color(TEXT_COLOR));
        buffer.write_str("\nPress SPACE to start again");
        return ;
    }
    proof {
        lemma_status_is_wide(game_state@);
    }
    draw_status(game_state, buffer);
    draw_border(buffer);
    proof {
        buffer.lemma_wf_shaped();
    }
    buffer.goto(0, 1);
    draw_board(board, buffer);
    draw_number(game_state, buffer);
    if game_state.paused {
        draw_box(buffer);
    }
}

/// The status row counts more than two columns.
proof fn lemma_status_is_wide(play: Play)
    ensures
        status_width(play) >= 2,
{
}

/// Fills `out` with `count` times the character `c`.
fn fill(out: &mut Vec<char>, c: char, count: usize)
    requires
        old(out)@.len() == 0,
    ensures
        final(out)@ == repeated(c, count as nat),
{
    let mut done: usize = 0;
    while done < count
        invariant
            done <= count,
            out@ == repeated(c, done as nat),
        decreases count - done,
    {
        out.push(c);
        done += 1;
        assert(out@ =~= repeated(c, done as nat));
    }
}

/// Fills `out` with the characters of `text`.
fn copy_text(out: &mut Vec<char>, text: &str)
    requires
        old(out)@.len() == 0,
    ensures
        final(out)@ == text@,
{
    let ghost mut done: int = 0;
    let mut chars = text.chars();
    assert(text@.subrange(0, 0) =~= Seq::<char>::empty());
    loop
        invariant
            0 <= done <= text@.len(),
            chars.remaining() == text@.subrange(done, text@.len() as int),
            out@ == text@.subrange(0, done),
        ensures
            done == text@.len(),
            out@ == text@.subrange(0, done),
        decreases text@.len() - done,
    {
        match chars.next() {
            None => {
                break ;
            },
            Some(c) => {
                out.push(c);
                proof {
                    assert(text@.subrange(done, text@.len() as int)[0] == c);
                    done = done + 1;
                    assert(out@ =~= text@.subrange(0, done));
                }
            },
        }
    }
    assert(text@.subrange(0, text@.len() as int) =~= text@);
}

/// The cell that shows the board values `upper` and `lower`, one above the
/// other, where the cell `old` stood before.
///
/// Two empty halves leave the cell. Two equal colours give a full block,
/// two different colours the lower half in its colour on the colour of the
/// upper half. A single colour gives its own half block, on the colour of the
/// border where the row lies on the border, and else on the default colour.
pub open spec fn projected(old: Cell, upper: i16, lower: i16, edge: bool) -> Cell {
    if upper == lower && upper < 0 {
        old
    } else {
        Cell {
            data: if upper == lower {
                FULL_BLOCK
            } else if lower >= 0 {
                LOWER_HALF
            } else {
                UPPER_HALF
            },
            foreground: if upper >= 0 && lower >= 0 {
                shade(lower)
            } else {
                shade(larger(upper, lower))
            },
            background: if upper >= 0 && lower >= 0 {
                shade(upper)
            } else if edge {
                TermColor::Color(BORDER_COLOR)
            } else {
                TermColor::Default
            },
        }
    }
}

/// A pair of board values that is drawn where the screen has room to the
/// right changes the cell under the cursor only, and moves the cursor on by
/// one.
proof fn lemma_draw_pair_at(screen: Screen, upper: i16, lower: i16, edge: bool)
    requires
        screen.wf(),
        screen.cursor.0 + 1 < screen.width,
        screen.background == TermColor::Default,
    ensures
        ({
            let after = draw_pair(screen, upper, lower, edge);
            let (x, y) = (screen.cursor.0 as int, screen.cursor.1 as int);
            &&& after.wf()
            &&& after.width == screen.width
            &&& after.height == screen.height
            &&& after.cells == screen.cells.update(
                y,
                screen.cells[y].update(x, projected(screen.cells[y][x], upper, lower, edge)),
            )
            &&& after.cursor == (screen.cursor.0 + 1, screen.cursor.1)
            &&& after.background == TermColor::Default
        }),
{
    reveal_with_fuel(Screen::write_within, 2);
    let (x, y) = (screen.cursor.0 as int, screen.cursor.1 as int);
    if upper == lower && upper < 0 {
        assert(screen.cells[y].update(x, screen.cells[y][x]) =~= screen.cells[y]);
        assert(screen.cells =~= screen.cells.update(y, screen.cells[y]));
    } else {
        let glyph = if upper == lower {
            FULL_BLOCK
        } else if lower >= 0 {
            LOWER_HALF
        } else {
            UPPER_HALF
        };
        assert(seq![glyph].drop_first() =~= Seq::<char>::empty());
        assert(glyph != '\n');
    }
}

/// Whether `after` is `before` with the first `upto` cells of row `y`
/// replaced by what the board rows `upper` and `lower` project to.
pub open spec fn row_projected(
    before: Seq<Seq<Cell>>,
    after: Seq<Seq<Cell>>,
    upper: Seq<i16>,
    lower: Option<Seq<i16>>,
    edge: bool,
    y: int,
    upto: int,
) -> bool {
    &&& after.len() == before.len()
    &&& forall|r: int| 0 <= r < before.len() ==> (#[trigger] after[r]).len() == before[r].len()
    &&& forall|c: int, r: int|
        0 <= r < before.len() && 0 <= c < before[r].len() ==> #[trigger] after[r][c] == if r == y
            && c < upto {
            projected(before[r][c], upper[c], lower_at(lower, c), edge)
        } else {
            before[r][c]
        }
}

/// A pair of board rows that is drawn from the start of a row of the
/// screen, and is shorter than the row, changes the cells of that row only,
/// each to what its pair of board values projects to.
proof fn lemma_draw_cells_at(
    screen: Screen,
    upper: Seq<i16>,
    lower: Option<Seq<i16>>,
    edge: bool,
    upto: int,
)
    requires
        screen.wf(),
        screen.cursor.0 == 0,
        0 <= upto <= upper.len() < screen.width,
        screen.background == TermColor::Default,
    ensures
        ({
            let after = draw_cells(screen, upper, lower, edge, upto);
            &&& after.wf()
            &&& after.width == screen.width
            &&& after.height == screen.height
            &&& row_projected(
                screen.cells,
                after.cells,
                upper,
                lower,
                edge,
                screen.cursor.1 as int,
                upto,
            )
            &&& after.cursor == (upto as nat, screen.cursor.1)
            &&& after.background == TermColor::Default
        }),
    decreases upto,
{
    if upto > 0 {
        lemma_draw_cells_at(screen, upper, lower, edge, upto - 1);
        let before = draw_cells(screen, upper, lower, edge, upto - 1);
        lemma_draw_pair_at(before, upper[upto - 1], lower_at(lower, upto - 1), edge);
    }
}

/// Whether `after` is `before` with the field drawn into it: row `k + 1` of
/// the screen shows, for each of the first `upto` pairs `k` of the board rows
/// `rows`, what the pair projects to, column by column. `bottom` is the row
/// of the lower border.
pub open spec fn field_projected(
    before: Seq<Seq<Cell>>,
    after: Seq<Seq<Cell>>,
    rows: Seq<Seq<i16>>,
    bottom: int,
    upto: int,
) -> bool {
    &&& after.len() == before.len()
    &&& forall|r: int| 0 <= r < before.len() ==> (#[trigger] after[r]).len() == before[r].len()
    &&& forall|c: int, r: int|
        0 <= r < before.len() && 0 <= c < before[r].len() ==> #[trigger] after[r][c] == if 1 <= r
            <= upto && c < rows[2 * (r - 1)].len() {
            projected(
                before[r][c],
                rows[2 * (r - 1)][c],
                lower_at(lower_row(rows, r - 1), c),
                r - 1 == 0 || r - 1 == bottom - 1,
            )
        } else {
            before[r][c]
        }
}

/// The field shows the board, two board rows to each row of the screen.
///
/// Let the board be narrower than the screen and have no more pairs of
/// rows than the screen has rows below its first, and let the cursor stand
/// at the start of the second row with the default colour behind the pen.
/// Then drawing the field changes the cells in the columns of the board on
/// the rows from the second on, one row for each pair, and no others: column
/// `x` of row `k + 1` becomes what the values in column `x` of the board rows
/// `2 k` and `2 k + 1` project to.
pub proof fn lemma_field_shows_pairs(
    screen: Screen,
    rows: Seq<Seq<i16>>,
    bottom: int,
    upto: int,
    width: int,
)
    requires
        screen.wf(),
        screen.cursor == (0nat, 1nat),
        screen.background == TermColor::Default,
        0 <= width < screen.width,
        forall|r: int| 0 <= r < rows.len() ==> (#[trigger] rows[r]).len() == width,
        0 <= upto <= pair_count(rows.len()),
        upto < screen.height,
    ensures
        ({
            let after = draw_field(screen, rows, bottom, upto);
            &&& after.wf()
            &&& after.width == screen.width
            &&& after.height == screen.height
            &&& field_projected(screen.cells, after.cells, rows, bottom, upto)
            &&& after.cursor == (0nat, at_most(upto + 1, screen.height - 1) as nat)
            &&& after.background == TermColor::Default
        }),
    decreases upto,
{
    if upto > 0 {
        let k = upto - 1;
        lemma_field_shows_pairs(screen, rows, bottom, k, width);
        let before = draw_field(screen, rows, bottom, k);
        let edge = k == 0 || k == bottom - 1;
        assert(before.cursor == (0nat, upto as nat));
        assert(rows[2 * k].len() == width);
        lemma_draw_cells_at(before, rows[2 * k], lower_row(rows, k), edge, width);
        let drawn = draw_cells(before, rows[2 * k], lower_row(rows, k), edge, width);
        let after = drawn.ret().down(1);
        assert(after == draw_field(screen, rows, bottom, upto));
        assert forall|c: int, r: int|
            0 <= r < screen.cells.len() && 0 <= c < screen.cells[r].len()
            implies #[trigger] after.cells[r][c] == if 1 <= r <= upto && c < rows[2 * (r
            - 1)].len() {
            projected(
                screen.cells[r][c],
                rows[2 * (r - 1)][c],
                lower_at(lower_row(rows, r - 1), c),
                r - 1 == 0 || r - 1 == bottom - 1,
            )
        } else {
            screen.cells[r][c]
        } by {
            assert(before.cells[r].len() == screen.cells[r].len());
            if 1 <= r <= upto {
                assert(rows[2 * (r - 1)].len() == width);
            }
        }
        assert forall|r: int| 0 <= r < screen.cells.len() implies (#[trigger] after.cells[r]).len()
            == screen.cells[r].len() by {
            assert(before.cells[r].len() == screen.cells[r].len());
        }
    }
}

} // verus!
