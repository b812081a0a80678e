//! The rules of the game: how the snake moves, what stops it, what it eats
//! and what that is worth.

use crate::board::{Board, Grid};
use vstd::prelude::*;

verus! {

/// The colour code of the snake.
pub const SNAKE: i16 = 11;

/// The number whose meal completes a level.
pub const LAST_NUMBER: u8 = 10;

/// The lives that a new game starts with.
pub const START_LIVES: u8 = 5;

/// The points that a mistake costs while lives are left.
pub const MISTAKE_PENALTY: i32 = 1000;

/// What the player or the clock asks for.
#[derive(Debug, Clone, Copy, PartialEq, Eq, Structural)]
pub enum GameEvent {
    Timeout,
    Up,
    Right,
    Down,
    Left,
    Action,
    Escape,
    Quit,
}

/// The way the snake is heading.
#[derive(Debug, Clone, Copy, PartialEq, Eq, Structural)]
pub enum Direction {
    Up,
    Right,
    Down,
    Left,
}

/// A cell of the board that the snake lies on: column and row.
#[derive(Debug, Clone, Copy, PartialEq, Eq, Structural)]
pub struct SnakeCell(pub i32, pub i32);

impl Direction {
    /// Whether the heading runs along the rows of the board.
    pub open spec fn is_vertical(self) -> bool {
        self == Direction::Up || self == Direction::Down
    }

    /// Whether a snake heading `self` may turn to `next`: only onto the
    /// other axis, never ahead or back.
    pub open spec fn may_turn_to(self, next: Direction) -> bool {
        self.is_vertical() != next.is_vertical()
    }

    /// The step along its axis that the heading takes.
    pub open spec fn step(self) -> int {
        match self {
            Direction::Up | Direction::Left => -1,
            Direction::Down | Direction::Right => 1,
        }
    }

    /// The cell one step ahead of `(x, y)`.
    pub open spec fn ahead(self, x: int, y: int) -> (int, int) {
        if self.is_vertical() {
            (x, y + self.step())
        } else {
            (x + self.step(), y)
        }
    }

    /// The cell one step behind `(x, y)`.
    pub open spec fn behind(self, x: int, y: int) -> (int, int) {
        if self.is_vertical() {
            (x, y - self.step())
        } else {
            (x - self.step(), y)
        }
    }

    /// The heading after a request to turn from `current` to `next`, if
    /// the request is allowed.
    pub fn get_valid_transition(current: Direction, next: Direction) -> (turned: Option<Direction>)
        ensures
            turned == if current.may_turn_to(next) {
                Some(next)
            } else {
                None
            },
    {
        match (current, next) {
            (Direction::Up | Direction::Down, Direction::Left | Direction::Right) => Some(next),
            (Direction::Right | Direction::Left, Direction::Up | Direction::Down) => Some(next),
            _ => None,
        }
    }

    /// The step along its axis that the heading takes: -1 up or left, 1
    /// down or right.
    pub fn as_integer(&self) -> (step: i32)
        ensures
            step == self.step(),
    {
        match self {
            Direction::Up | Direction::Left => -1,
            Direction::Down | Direction::Right => 1,
        }
    }
}

impl GameEvent {
    /// The heading that the event asks for, if it asks for one.
    pub open spec fn heading(self) -> Option<Direction> {
        match self {
            GameEvent::Up => Some(Direction::Up),
            GameEvent::Right => Some(Direction::Right),
            GameEvent::Down => Some(Direction::Down),
            GameEvent::Left => Some(Direction::Left),
            _ => None,
        }
    }

    /// The heading that a snake heading `current` takes on this event, if
    /// the event asks for a heading and the turn is allowed.
    pub open spec fn turn_from(self, current: Direction) -> Option<Direction> {
        match self.heading() {
            Some(next) => if current.may_turn_to(next) {
                Some(next)
            } else {
                None
            },
            None => None,
        }
    }

    /// The new heading that the event gives a snake heading
    /// `current_direction`; `None` where the heading stays.
    pub fn map_to_direction_check_valid(&self, current_direction: Direction) -> (turned: Option<
        Direction,
    >)
        ensures
            turned == self.turn_from(current_direction),
    {
        let direction = match self {
            GameEvent::Up => Some(Direction::Up),
            GameEvent::Right => Some(Direction::Right),
            GameEvent::Down => Some(Direction::Down),
            GameEvent::Left => Some(Direction::Left),
            _ => None,
        };
        match direction {
            Some(d) => Direction::get_valid_transition(current_direction, d),
            None => None,
        }
    }
}

/// The heading of a snake heading `current` after `event`.
pub open spec fn steered(current: Direction, event: GameEvent) -> Direction {
    match event.turn_from(current) {
        Some(next) => next,
        None => current,
    }
}

/// A request for the heading that the snake has, or for the opposite one,
/// leaves the heading as it is, however often it is made.
pub proof fn lemma_same_axis_request_keeps_heading(current: Direction, event: GameEvent)
    requires
        event.heading() matches Some(next) && next.is_vertical() == current.is_vertical(),
    ensures
        event.turn_from(current) is None,
        steered(current, event) == current,
        steered(steered(current, event), event) == current,
{
}

/// The state of a game, as mathematics.
pub ghost struct Play {
    pub direction: Direction,
    /// The cells of the snake, head first.
    pub body: Seq<SnakeCell>,
    /// Where the number lies; a zero coordinate says that it lies nowhere
    /// yet.
    pub number_pos: (nat, nat),
    pub current_number: int,
    /// The ticks for which the snake still grows.
    pub extending: int,
    pub paused: bool,
    pub score: int,
    pub lives: int,
    pub level: int,
    /// The board of the level, once it has been built: its dimensions and
    /// its rows.
    pub cached_board: Option<Grid>,
    /// The milliseconds between the last two ticks.
    pub duration: nat,
}

/// The index of the last cell of `body`, its tail left aside, that is
/// `head`; -1 when there is none.
pub open spec fn last_bite(body: Seq<SnakeCell>, head: SnakeCell) -> int
    decreases body.len(),
{
    if body.len() <= 1 {
        -1
    } else if body[body.len() - 2] == head {
        body.len() - 2
    } else {
        last_bite(body.drop_last(), head)
    }
}

/// The body after a move to `head`: every cell takes the place of the one
/// before it, and the tail cell is given up.
pub open spec fn advanced(body: Seq<SnakeCell>, head: SnakeCell) -> Seq<SnakeCell> {
    seq![head] + body.drop_last()
}

/// The body as a bite leaves it: the cells behind the bitten one, at index
/// `bite`, have moved up, the others have not.
pub open spec fn stalled(body: Seq<SnakeCell>, bite: int) -> Seq<SnakeCell> {
    Seq::new(
        body.len(),
        |i: int|
            if i > bite {
                body[i - 1]
            } else {
                body[i]
            },
    )
}

impl Play {
    /// The game is over.
    pub open spec fn game_over(self) -> bool {
        self.lives == 0
    }

    /// The number lies nowhere yet.
    pub open spec fn number_unplaced(self) -> bool {
        self.number_pos.0 == 0 || self.number_pos.1 == 0
    }

    /// The body once it has grown, if it is to grow at this tick: its tail
    /// cell is doubled.
    pub open spec fn grown_body(self) -> Seq<SnakeCell> {
        if self.extending != 0 {
            self.body.push(self.body.last())
        } else {
            self.body
        }
    }

    /// The ticks of growth left after this one.
    pub open spec fn growth_left(self) -> int {
        if self.extending != 0 {
            self.extending - 1
        } else {
            0
        }
    }

    /// The cell that the head moves to, one step ahead of where it is.
    pub open spec fn candidate(self) -> (int, int) {
        self.direction.ahead(self.body[0].0 as int, self.body[0].1 as int)
    }

    /// The candidate as a cell of the snake.
    pub open spec fn candidate_cell(self) -> SnakeCell {
        SnakeCell(self.candidate().0 as i32, self.candidate().1 as i32)
    }

    /// The candidate lies off the field: the field has the columns from 1 to
    /// below the width of the board, and the rows from 1 to its height.
    pub open spec fn leaves_field(self, board: &Board) -> bool {
        let (x, y) = self.candidate();
        !(1 <= x < board.width && 1 <= y <= board.height)
    }

    /// The candidate holds a wall or anything else.
    pub open spec fn hits_wall(self, board: &Board) -> bool {
        let (x, y) = self.candidate();
        board@[y][x] >= 0
    }

    /// The candidate is a cell that the snake itself will still lie on.
    pub open spec fn bites_itself(self) -> bool {
        last_bite(self.grown_body(), self.candidate_cell()) >= 0
    }

    /// The move of this tick fails.
    pub open spec fn collides(self, board: &Board) -> bool {
        self.leaves_field(board) || self.hits_wall(board) || self.bites_itself()
    }

    /// The head, at `(x, y)`, has reached the number: it is in its column
    /// and in one of the two board rows that the number's terminal row
    /// stands for.
    pub open spec fn reaches_number(self, x: int, y: int) -> bool {
        x == self.number_pos.0 && y - y % 2 == self.number_pos.1 - self.number_pos.1 % 2
    }

    /// The state after a mistake: a life is lost. While lives are left the
    /// level starts over at a penalty; with the last life gone everything
    /// else stays as it is. Either way the game pauses.
    pub open spec fn mistaken(self) -> Play {
        if self.lives - 1 > 0 {
            Play {
                lives: self.lives - 1,
                score: self.score - MISTAKE_PENALTY,
                current_number: 1,
                body: Seq::empty(),
                number_pos: (0, 0),
                direction: Direction::Right,
                extending: 0,
                paused: true,
                ..self
            }
        } else {
            Play { lives: self.lives - 1, paused: true, ..self }
        }
    }

    /// The state after the last number of a level was eaten: the next level
    /// waits, paused, for its board and its snake.
    pub open spec fn level_up(self) -> Play {
        Play {
            level: self.level + 1,
            body: Seq::empty(),
            direction: Direction::Right,
            current_number: 1,
            number_pos: (0, 0),
            score: self.score + LAST_NUMBER * 100,
            extending: 0,
            paused: true,
            cached_board: None,
            ..self
        }
    }

    /// The state after a number below the last was eaten: it counts a
    /// hundred times its value, the snake grows for four ticks times its
    /// value, and the next number waits to be placed.
    pub open spec fn fed(self) -> Play {
        Play {
            score: self.score + self.current_number * 100,
            extending: self.current_number * 4,
            current_number: self.current_number + 1,
            number_pos: (0, 0),
            ..self
        }
    }

    /// The state after one tick on `board`.
    pub open spec fn tick(self, board: &Board) -> Play {
        let body = self.grown_body();
        let head = self.candidate_cell();
        let grown = Play { body: body, extending: self.growth_left(), ..self };
        if self.leaves_field(board) || self.hits_wall(board) {
            grown.mistaken()
        } else if self.bites_itself() {
            Play { body: stalled(body, last_bite(body, head)), ..grown }.mistaken()
        } else {
            let moved = Play { body: advanced(body, head), ..grown };
            if self.reaches_number(head.0 as int, head.1 as int) {
                if self.current_number == LAST_NUMBER {
                    moved.level_up()
                } else {
                    moved.fed()
                }
            } else {
                moved
            }
        }
    }
}

/// The state of a game.
pub struct GameState {
    pub snake_direction: Direction,
    /// The cells of the snake, head first; empty until the level has placed
    /// it.
    pub snake_vector: Vec<SnakeCell>,
    /// Where the number lies; a zero coordinate says that it has to be
    /// placed.
    pub number_pos: (usize, usize),
    pub current_number: u8,
    pub extending: u8,
    pub paused: bool,
    pub score: i32,
    pub lives: u8,
    pub level: u8,
    pub cached_board: Option<Board>,
    /// The milliseconds between the last two ticks.
    pub duration_since_last_update: u128,
}

impl View for GameState {
    type V = Play;

    open spec fn view(&self) -> Play {
        Play {
            direction: self.snake_direction,
            body: self.snake_vector@,
            number_pos: (self.number_pos.0 as nat, self.number_pos.1 as nat),
            current_number: self.current_number as int,
            extending: self.extending as int,
            paused: self.paused,
            score: self.score as int,
            lives: self.lives as int,
            level: self.level as int,
            cached_board: match self.cached_board {
                Some(board) => Some(board.grid()),
                None => None,
            },
            duration: self.duration_since_last_update as nat,
        }
    }
}

/// The state in which every game starts: paused on the first level, with
/// five lives, no points, and neither snake nor number placed.
pub open spec fn fresh_game() -> Play {
    Play {
        direction: Direction::Right,
        body: Seq::empty(),
        number_pos: (0, 0),
        current_number: 1,
        extending: 0,
        paused: true,
        score: 0,
        lives: START_LIVES as int,
        level: 1,
        cached_board: None,
        duration: 1,
    }
}

/// The state of a new game.
pub fn create_game_state() -> (game_state: GameState)
    ensures
        game_state@ == fresh_game(),
        game_state.snake_vector@.no_duplicates(),
{
    GameState {
        snake_direction: Direction::Right,
        snake_vector: Vec::new(),
        number_pos: (0, 0),
        current_number: 1,
        extending: 0,
        paused: true,
        score: 0,
        lives: START_LIVES,
        level: 1,
        cached_board: None,
        duration_since_last_update: 1,
    }
}

/// Whether the game is over: no life is left.
pub fn game_over(game_state: &GameState) -> (over: bool)
    ensures
        over == game_state@.game_over(),
{
    game_state.lives == 0
}

/// Takes a life for a mistake and pauses the game. While lives are left,
/// the level starts over: the snake and the number are taken off the board,
/// the count of numbers starts again, and the mistake costs points.
pub fn did_make_mistake(game_state: &mut GameState)
    requires
        old(game_state).lives >= 1,
        old(game_state).lives > 1 ==> old(game_state).score - MISTAKE_PENALTY >= i32::MIN,
    ensures
        final(game_state)@ == old(game_state)@.mistaken(),
{
    game_state.lives -= 1;
    if game_state.lives > 0 {
        game_state.score -= MISTAKE_PENALTY;
        game_state.current_number = 1;
        game_state.snake_vector = Vec::new();
        game_state.number_pos = (0, 0);
        game_state.snake_direction = Direction::Right;
        game_state.extending = 0;
    }
    game_state.paused = true;
}

/// A cell of the body that is `head`, with none behind it but the tail, is
/// the last bite.
proof fn lemma_last_bite_found(body: Seq<SnakeCell>, head: SnakeCell, at: int)
    requires
        0 <= at < body.len() - 1,
        body[at] == head,
        forall|i: int| at < i < body.len() - 1 ==> body[i] != head,
    ensures
        last_bite(body, head) == at,
    decreases body.len(),
{
    if body[body.len() - 2] != head {
        lemma_last_bite_found(body.drop_last(), head, at);
    }
}

/// Where no cell of the body but the tail is `head`, there is no bite.
proof fn lemma_last_bite_none(body: Seq<SnakeCell>, head: SnakeCell)
    requires
        forall|i: int| 0 <= i < body.len() - 1 ==> body[i] != head,
    ensures
        last_bite(body, head) == -1,
    decreases body.len(),
{
    if body.len() > 1 {
        lemma_last_bite_none(body.drop_last(), head);
    }
}

/// The last bite, where there is one, is a cell of the body before its
/// tail, and it is `head`.
pub proof fn lemma_last_bite_is_bite(body: Seq<SnakeCell>, head: SnakeCell)
    ensures
        -1 <= last_bite(body, head) < body.len() - 1 || body.len() == 0,
        last_bite(body, head) >= 0 ==> body[last_bite(body, head)] == head,
        last_bite(body, head) == -1 ==> forall|i: int| 0 <= i < body.len() - 1 ==> body[i] != head,
    decreases body.len(),
{
    if body.len() > 1 && body[body.len() - 2] != head {
        lemma_last_bite_is_bite(body.drop_last(), head);
        if last_bite(body, head) == -1 {
            assert forall|i: int| 0 <= i < body.len() - 1 implies body[i] != head by {
                if i < body.len() - 2 {
                    assert(body.drop_last()[i] == body[i]);
                }
            }
        }
    }
}

/// A snake whose cells are all different before a tick has them all
/// different after it, unless the tick ends in a mistake: a move that would
/// bring the head onto a cell that the snake keeps is a mistake, and is
/// not made.
pub proof fn lemma_tick_keeps_cells_apart(play: Play, board: &Board)
    requires
        play.body.len() >= 1,
        play.body.no_duplicates(),
        !play.collides(board),
        i32::MIN <= play.candidate().0 <= i32::MAX,
        i32::MIN <= play.candidate().1 <= i32::MAX,
    ensures
        play.tick(board).body.no_duplicates(),
{
    let body = play.grown_body();
    let head = play.candidate_cell();
    let moved = advanced(body, head);
    lemma_last_bite_is_bite(body, head);
    assert forall|i: int, j: int|
        0 <= i < moved.len() && 0 <= j < moved.len() && i != j implies moved[i] != moved[j] by {
        if i > 0 {
            assert(moved[i] == body[i - 1]);
            assert(body[i - 1] == play.body[i - 1]);
        }
        if j > 0 {
            assert(moved[j] == body[j - 1]);
            assert(body[j - 1] == play.body[j - 1]);
        }
    }
}

/// Moves the snake by one cell.
///
/// A snake that is to grow doubles its tail cell first. The head then
/// moves one cell ahead. If that cell is off the field, holds a wall, or is
/// one that the snake itself keeps, the move is a mistake. Otherwise every
/// cell follows the one before it, and a head that has reached the number
/// eats it: the last number of a level completes the level, any other
/// counts for the score and makes the snake grow.
pub fn update(game_state: &mut GameState, board: &Board)
    requires
        board.wf(),
        old(game_state).snake_vector@.len() >= 1,
        old(game_state).lives >= 1,
        1 <= old(game_state).current_number <= LAST_NUMBER,
        old(game_state).level < u8::MAX,
        i32::MIN + MISTAKE_PENALTY <= old(game_state).score <= i32::MAX - LAST_NUMBER * 100,
        i32::MIN <= old(game_state)@.candidate().0 <= i32::MAX,
        i32::MIN <= old(game_state)@.candidate().1 <= i32::MAX,
    ensures
        final(game_state)@ == old(game_state)@.tick(board),
        old(game_state)@.body.no_duplicates() && !old(game_state)@.collides(board) ==> final(
            game_state
        )@.body.no_duplicates(),
{
    let ghost start = game_state@;
    if game_state.extending != 0 {
        let tail = game_state.snake_vector[game_state.snake_vector.len() - 1];
        game_state.snake_vector.push(tail);
        game_state.extending -= 1;
    }
    let ghost body = game_state.snake_vector@;
    let ghost grown = game_state@;
    assert(body =~= start.grown_body());
    assert(grown == Play { body: body, extending: start.growth_left(), ..start });

    let mut head = game_state.snake_vector[0];
    match game_state.snake_direction {
        Direction::Left | Direction::Right => {
            head.0 += game_state.snake_direction.as_integer();
        },
        Direction::Up | Direction::Down => {
            head.1 += game_state.snake_direction.as_integer();
        },
    }
    assert(head == start.candidate_cell());

    if head.0 < 1 || head.1 < 1 || head.0 as usize >= board.width || head.1 as usize
        > board.height {
        did_make_mistake(game_state);
        return ;
    }
    if board.lookup(head.0 as usize, head.1 as usize) >= 0 {
        did_make_mistake(game_state);
        return ;
    }
    let len = game_state.snake_vector.len();
    let mut idx: usize = len - 1;
    while idx >= 1
        invariant
            game_state.snake_vector@.len() == len,
            body.len() == len,
            len >= 1,
            idx <= len - 1,
            forall|i: int| idx < i < len ==> game_state.snake_vector@[i] == body[i - 1],
            forall|i: int| 0 <= i <= idx ==> game_state.snake_vector@[i] == body[i],
            forall|i: int| idx <= i < len - 1 ==> body[i] != head,
            game_state@ == (Play { body: game_state.snake_vector@, ..grown }),
            start == old(game_state)@,
            body == start.grown_body(),
            head == start.candidate_cell(),
            grown == (Play { body: body, extending: start.growth_left(), ..start }),
            !start.leaves_field(board),
            !start.hits_wall(board),
            old(game_state).lives >= 1,
            i32::MIN + MISTAKE_PENALTY <= old(game_state).score,
        decreases idx,
    {
        let cell = game_state.snake_vector[idx - 1];
        game_state.snake_vector[idx] = cell;
        if cell == head {
            proof {
                lemma_last_bite_found(body, head, idx - 1);
                assert(game_state.snake_vector@ =~= stalled(body, idx - 1));
                assert(start.bites_itself());
            }
            did_make_mistake(game_state);
            return ;
        }
        idx -= 1;
    }
    game_state.snake_vector[0] = head;
    proof {
        lemma_last_bite_none(body, head);
        assert(game_state.snake_vector@ =~= advanced(body, head));
        if start.body.no_duplicates() {
            lemma_tick_keeps_cells_apart(start, board);
        }
    }
    let number = game_state.number_pos;
    if head.0 as usize == number.0 && (head.1 - head.1 % 2) as usize == number.1 - number.1 % 2 {
        if game_state.current_number == LAST_NUMBER {
            game_state.level += 1;
            game_state.snake_vector = Vec::new();
            game_state.snake_direction = Direction::Right;
            game_state.current_number = 1;
            game_state.number_pos = (0, 0);
            game_state.score += LAST_NUMBER as i32 * 100;
            game_state.extending = 0;
            game_state.paused = true;
            game_state.cached_board = None;
            return ;
        }
        game_state.score += game_state.current_number as i32 * 100;
        game_state.extending = game_state.current_number * 4;
        game_state.current_number += 1;
        game_state.number_pos = (0, 0);
    }
}

/// A move that is made puts the head one step ahead, and behind it the
/// cells that the snake had: all of them where it grows, all but its tail
/// where it does not. Cells that were apart stay apart.
pub proof fn lemma_move_keeps_the_body_behind_the_head(play: Play, board: &Board)
    requires
        play.body.len() >= 1,
        i32::MIN <= play.candidate().0 <= i32::MAX,
        i32::MIN <= play.candidate().1 <= i32::MAX,
        !play.collides(board),
        !(play.reaches_number(play.candidate().0, play.candidate().1) && play.current_number
            == LAST_NUMBER),
    ensures
        play.tick(board).body == seq![play.candidate_cell()] + if play.extending != 0 {
            play.body
        } else {
            play.body.drop_last()
        },
        play.tick(board).lives == play.lives,
        play.tick(board).level == play.level,
        play.body.no_duplicates() ==> play.tick(board).body.no_duplicates(),
{
    let kept = if play.extending != 0 {
        play.body
    } else {
        play.body.drop_last()
    };
    assert(play.grown_body().drop_last() =~= kept);
    if play.body.no_duplicates() {
        lemma_tick_keeps_cells_apart(play, board);
    }
}

/// A snake that reaches the last number of a level completes the level:
/// the next level is entered, paused; the snake stops growing and leaves the
/// board, as does the number; the meal counts a hundred times its value; and
/// the board of the level is given up.
pub proof fn lemma_last_number_completes_level(play: Play, board: &Board)
    requires
        play.body.len() >= 1,
        i32::MIN <= play.candidate().0 <= i32::MAX,
        i32::MIN <= play.candidate().1 <= i32::MAX,
        !play.collides(board),
        play.reaches_number(play.candidate().0, play.candidate().1),
        play.current_number == LAST_NUMBER,
    ensures
        play.tick(board).level == play.level + 1,
        play.tick(board).extending == 0,
        play.tick(board).score == play.score + 10 * 100,
        play.tick(board).paused,
        play.tick(board).body.len() == 0,
        play.tick(board).number_unplaced(),
        play.tick(board).current_number == 1,
        play.tick(board).cached_board is None,
        play.tick(board).lives == play.lives,
{
}

/// A snake that is to grow doubles its tail cell before it moves, and is
/// to grow one tick less from then on.
pub proof fn lemma_growth_doubles_the_tail(play: Play)
    requires
        play.body.len() >= 1,
        play.extending > 0,
    ensures
        play.grown_body().len() == play.body.len() + 1,
        play.grown_body().last() == play.body.last(),
        play.grown_body().drop_last() == play.body,
        play.growth_left() == play.extending - 1,
{
    assert(play.grown_body().drop_last() =~= play.body);
}

} // verus!
