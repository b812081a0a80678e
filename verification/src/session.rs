//! A session of play: what an event does to the game, and how the game is
//! shown.
//!
//! The caller owns the terminal and the clock. It hands each event to
//! [`handle_event`] together with the size of the terminal. A tick of the
//! clock hands back the board with the snake on it, and [`render`] turns it
//! into the operations that bring the terminal up to date.

use crate::board::{painted, uniform_grid, Board, Grid, EMPTY};
use crate::diff::{draw_terminal, frame_ops, scan_rows, TermOp, TermState};
use crate::game::{
    create_game_state, game_over, update, GameEvent, GameState, Play, SnakeCell, LAST_NUMBER,
    MISTAKE_PENALTY, SNAKE,
};
use crate::levels::{
    render_level, spawn_fits, spawn_has_room, spawn_level, spawned, walls, walls_fit,
    walls_have_room, LEVEL_COUNT,
};
use crate::projector::{draw_buffered, draw_fits, drawn};
use crate::raster::WALL;
use crate::rng::random_in;
use crate::terminal::Terminal;
use vstd::prelude::*;

verus! {

/// The time between two ticks, in nanoseconds.
pub const UPDATE_TIME: u128 = 100_000_000;

/// How often a place for the number is drawn before the search is given up
/// for this tick.
pub const PLACEMENT_TRIES: usize = 100_000;

/// The largest width and height of a board that a session plays on.
pub const FIELD_LIMIT: usize = 0x4000_0000;

/// A key of the keyboard, as far as the game tells keys apart.
#[derive(Debug, Clone, Copy, PartialEq, Eq, Structural)]
pub enum Key {
    Up,
    Right,
    Down,
    Left,
    Esc,
    Char(char),
    Other,
}

/// The event that a key stands for: the arrows and `w`, `d`, `s`, `a` steer,
/// the space bar acts, `q` quits, and the escape key pauses.
pub open spec fn key_event(key: Key) -> Option<GameEvent> {
    match key {
        Key::Up => Some(GameEvent::Up),
        Key::Right => Some(GameEvent::Right),
        Key::Down => Some(GameEvent::Down),
        Key::Left => Some(GameEvent::Left),
        Key::Esc => Some(GameEvent::Escape),
        Key::Char(c) => if c == 'w' {
            Some(GameEvent::Up)
        } else if c == 'd' {
            Some(GameEvent::Right)
        } else if c == 's' {
            Some(GameEvent::Down)
        } else if c == 'a' {
            Some(GameEvent::Left)
        } else if c == ' ' {
            Some(GameEvent::Action)
        } else if c == 'q' {
            Some(GameEvent::Quit)
        } else {
            None
        },
        Key::Other => None,
    }
}

/// The event that a key stands for, if it stands for one.
pub fn translate_event(key: Key) -> (event: Option<GameEvent>)
    ensures
        event == key_event(key),
{
    match key {
        Key::Up | Key::Char('w') => Some(GameEvent::Up),
        Key::Right | Key::Char('d') => Some(GameEvent::Right),
        Key::Down | Key::Char('s') => Some(GameEvent::Down),
        Key::Left | Key::Char('a') => Some(GameEvent::Left),
        Key::Char(' ') => Some(GameEvent::Action),
        Key::Char('q') => Some(GameEvent::Quit),
        Key::Esc => Some(GameEvent::Escape),
        _ => None,
    }
}

/// How long to wait for a key before the next tick is due, `elapsed`
/// nanoseconds after the last one; `None` when the tick is due.
pub fn time_until_tick(elapsed: u128) -> (wait: Option<u128>)
    ensures
        wait == if elapsed < UPDATE_TIME {
            Some((UPDATE_TIME - elapsed) as u128)
        } else {
            None
        },
{
    if elapsed < UPDATE_TIME {
        Some(UPDATE_TIME - elapsed)
    } else {
        None
    }
}

/// A rectangle of the board, by the coordinates of its edges.
#[derive(Debug, Clone, Copy, PartialEq, Eq, Structural)]
pub struct Rect {
    pub top: i32,
    pub left: i32,
    pub right: i32,
    pub bottom: i32,
}

/// The playfield of a terminal of `width` columns and `height` rows: two
/// rows of cells to each row of the terminal.
pub fn get_playfield(width: u16, height: u16) -> (playfield: Rect)
    ensures
        playfield == (Rect {
            top: 4,
            left: 2,
            right: width as i32,
            bottom: (height * 2 - 1) as i32,
        }),
{
    let (width, height) = (width as i32, height as i32 * 2);
    Rect { top: 4, left: 2, right: width, bottom: height - 1 }
}

/// The width of the board of a terminal of `width` columns.
pub open spec fn field_width(width: u16) -> int {
    width - 1
}

/// The height of the board of a terminal of `height` rows.
pub open spec fn field_height(height: u16) -> int {
    2 * height - 4
}

/// The cells that the snake lies on.
pub open spec fn snake_cells(body: Seq<SnakeCell>) -> Set<(int, int)> {
    Set::new(
        |p: (int, int)|
            i32::MIN <= p.0 <= i32::MAX && i32::MIN <= p.1 <= i32::MAX && exists|i: int|
                0 <= i < body.len() && #[trigger] body[i] == SnakeCell(p.0 as i32, p.1 as i32),
    )
}

/// Paints the snake onto `board`. A cell of the snake that lies off the
/// board is left out.
pub fn render_snake(game_state: &GameState, board: &mut Board)
    requires
        old(board).wf(),
    ensures
        final(board).wf(),
        final(board).width == old(board).width,
        final(board).height == old(board).height,
        final(board)@ == painted(old(board)@, snake_cells(game_state.snake_vector@), SNAKE),
{
    let ghost body = game_state.snake_vector@;
    let mut i: usize = 0;
    proof {
        assert(snake_cells(body.subrange(0, 0)) =~= Set::empty());
        crate::board::lemma_painted_nothing(old(board)@, SNAKE);
    }
    while i < game_state.snake_vector.len()
        invariant
            board.wf(),
            board.width == old(board).width,
            board.height == old(board).height,
            body == game_state.snake_vector@,
            i <= body.len(),
            board@ == painted(old(board)@, snake_cells(body.subrange(0, i as int)), SNAKE),
        decreases body.len() - i,
    {
        let cell = game_state.snake_vector[i];
        let ghost done = snake_cells(body.subrange(0, i as int));
        let ghost next = snake_cells(body.subrange(0, i + 1));
        let ghost here = set![(cell.0 as int, cell.1 as int)];
        proof {
            assert forall|p: (int, int)|
                next.contains(p) == (done.contains(p) || here.contains(p)) by {
                let longer = body.subrange(0, i + 1);
                let shorter = body.subrange(0, i as int);
                if done.contains(p) {
                    let k = choose|k: int|
                        0 <= k < shorter.len() && #[trigger] shorter[k] == SnakeCell(
                            p.0 as i32,
                            p.1 as i32,
                        );
                    assert(longer[k] == shorter[k]);
                }
                if here.contains(p) {
                    assert(longer[i as int] == SnakeCell(p.0 as i32, p.1 as i32));
                }
                if next.contains(p) {
                    let k = choose|k: int|
                        0 <= k < longer.len() && #[trigger] longer[k] == SnakeCell(
                            p.0 as i32,
                            p.1 as i32,
                        );
                    if k < i {
                        assert(shorter[k] == longer[k]);
                    }
                }
            }
            assert(next =~= done.union(here));
            crate::board::lemma_painted_twice(old(board)@, done, here, SNAKE);
        }
        if cell.0 >= 0 && cell.1 >= 0 && (cell.0 as usize) < board.width && cell.1 as usize
            <= board.height {
            board.set_pixel(cell.0 as usize, cell.1 as usize, SNAKE);
        } else {
            assert(painted(board@, here, SNAKE) =~= board@) by {
                assert forall|y: int| 0 <= y < board@.len() implies painted(board@, here, SNAKE)[y]
                    =~= board@[y] by {}
            }
        }
        i += 1;
    }
    assert(body.subrange(0, body.len() as int) =~= body);
}

/// Whether `(x, y)` is a place of `board` that is drawn for the number:
/// one inside the border.
pub open spec fn is_place(board: &Board, x: int, y: int) -> bool {
    1 <= x < board.width - 1 && 1 <= y < board.height - 2
}

/// Whether `(x, y)` is a place where the number may lie on `board`: inside
/// the border, and empty.
pub open spec fn is_free_place(board: &Board, x: int, y: int) -> bool {
    is_place(board, x, y) && board@[y][x] < 0
}

/// Whether the number may lie on every place of `board`.
pub open spec fn every_place_free(board: &Board) -> bool {
    forall|x: int, y: int| #[trigger] is_place(board, x, y) ==> board@[y][x] < 0
}

/// Whether the number may lie on no place of `board`.
pub open spec fn no_place_free(board: &Board) -> bool {
    forall|x: int, y: int| #[trigger] is_place(board, x, y) ==> board@[y][x] >= 0
}

/// The place `(x, y)` if the number may lie there.
pub fn free_place(board: &Board, x: usize, y: usize) -> (place: Option<(usize, usize)>)
    requires
        board.wf(),
        board.has(x as int, y as int),
    ensures
        place == if is_free_place(board, x as int, y as int) {
            Some((x, y))
        } else {
            None
        },
{
    if 1 <= x && x < board.width - 1 && 1 <= y && board.height >= 2 && y < board.height - 2
        && board.lookup(x, y) < 0 {
        Some((x, y))
    } else {
        None
    }
}

/// Draws places by chance until one is found where the number may lie.
/// Gives up, with `None`, when none was found in [`PLACEMENT_TRIES`] draws.
///
/// Whatever is handed back is a free place. Where every place is free the
/// first draw is one, so the search succeeds; where none is free it cannot.
/// In between, chance decides.
pub fn spawn_number(board: &Board) -> (place: Option<(usize, usize)>)
    requires
        board.wf(),
        board.width >= 3,
        board.height >= 4,
    ensures
        place matches Some(p) ==> is_free_place(board, p.0 as int, p.1 as int),
        every_place_free(board) ==> place is Some,
        no_place_free(board) ==> place is None,
{
    let mut tries: usize = 0;
    while tries < PLACEMENT_TRIES
        invariant
            board.wf(),
            board.width >= 3,
            board.height >= 4,
            tries <= PLACEMENT_TRIES,
            tries > 0 ==> !every_place_free(board),
        decreases PLACEMENT_TRIES - tries,
    {
        let x = random_in(1, board.width - 1);
        let y = random_in(1, board.height - 2);
        assert(is_place(board, x as int, y as int));
        let place = free_place(board, x, y);
        if place.is_some() {
            return place;
        }
        tries += 1;
    }
    None
}

/// Whether `after` is `before` with what a level still lacked: a number that
/// lay nowhere lies on a free place of `board`, unless none was found, which
/// cannot be where every place is free and must be where none is; and a snake
/// that was not there is one with which the level may start.
pub open spec fn initialized(before: Play, after: Play, board: &Board) -> bool {
    &&& after == (Play {
        number_pos: after.number_pos,
        body: after.body,
        direction: after.direction,
        ..before
    })
    &&& if before.number_unplaced() {
        let placed = is_free_place(board, after.number_pos.0 as int, after.number_pos.1 as int);
        &&& placed || after.number_pos == before.number_pos
        &&& every_place_free(board) ==> placed
        &&& no_place_free(board) ==> after.number_pos == before.number_pos
    } else {
        after.number_pos == before.number_pos
    }
    &&& if before.body.len() == 0 {
        spawned(before.level, board.width as int, board.height as int, after.body, after.direction)
    } else {
        after.body == before.body && after.direction == before.direction
    }
}

/// Whether the game can be given what it lacks on `board`.
pub open spec fn can_initialize(play: Play, board: &Board) -> bool {
    &&& board.wf()
    &&& play.number_unplaced() ==> board.width >= 3 && board.height >= 4
    &&& play.body.len() == 0 ==> 1 <= play.level <= LEVEL_COUNT && spawn_fits(
        play.level,
        board.width as int,
        board.height as int,
    )
}

/// Whether the game can be given what it lacks on `board`.
pub fn has_room_to_initialize(game_state: &GameState, board: &Board) -> (room: bool)
    requires
        board.wf(),
    ensures
        room == can_initialize(game_state@, board),
{
    let number_unplaced = game_state.number_pos.0 == 0 || game_state.number_pos.1 == 0;
    if number_unplaced && !(board.width >= 3 && board.height >= 4) {
        return false;
    }
    if game_state.snake_vector.len() == 0 {
        1 <= game_state.level && game_state.level <= LEVEL_COUNT && spawn_has_room(
            game_state.level,
            board.width,
            board.height,
        )
    } else {
        true
    }
}

/// Gives the game what it lacks: a place for the number where it has none,
/// and the snake of the level where there is no snake.
pub fn check_unitialized_state(game_state: &mut GameState, board: &Board)
    requires
        can_initialize(old(game_state)@, board),
    ensures
        initialized(old(game_state)@, final(game_state)@, board),
{
    if game_state.number_pos.0 == 0 || game_state.number_pos.1 == 0 {
        match spawn_number(board) {
            Some(place) => {
                game_state.number_pos = place;
            },
            None => {},
        }
    }
    if game_state.snake_vector.len() == 0 {
        let (vec, dir) = spawn_level(game_state.level, board);
        game_state.snake_vector = vec;
        game_state.snake_direction = dir;
    }
}

impl Play {
    /// The game is neither over nor paused.
    pub open spec fn running(self) -> bool {
        self.lives > 0 && !self.paused
    }

    /// The state after an event of the keyboard: a request for a heading
    /// turns the snake where the turn is allowed; the action starts a new
    /// game where the game is over, and else resumes a paused game; escape
    /// pauses; nothing else changes anything.
    pub open spec fn after_input(self, event: GameEvent) -> Play {
        match event {
            GameEvent::Up | GameEvent::Right | GameEvent::Down | GameEvent::Left => Play {
                direction: crate::game::steered(self.direction, event),
                ..self
            },
            GameEvent::Action => if self.game_over() {
                crate::game::fresh_game()
            } else {
                Play { paused: false, ..self }
            },
            GameEvent::Escape => Play { paused: true, ..self },
            _ => self,
        }
    }

    /// While the game is not over, no two cells of the snake are the same
    /// cell.
    pub open spec fn cells_apart(self) -> bool {
        self.lives > 0 ==> self.body.no_duplicates()
    }

    /// The state of a game that keeps `board` as the board of its level.
    pub open spec fn with_board(self, board: Grid) -> Play {
        Play { cached_board: Some(board), ..self }
    }

    /// The state after the move of a tick, if the game is running.
    pub open spec fn after_move(self, board: &Board) -> Play {
        if self.running() {
            self.tick(board)
        } else {
            self
        }
    }
}

impl GameState {
    /// The width and height of the board of the level, which is kept once
    /// it is built, and else built for a terminal of `width` columns and
    /// `height` rows.
    pub open spec fn field_size(&self, width: u16, height: u16) -> (int, int) {
        match self.cached_board {
            Some(board) => (board.width as int, board.height as int),
            None => (field_width(width), field_height(height)),
        }
    }

    /// Whether the game can take a tick on a terminal of `width` columns
    /// and `height` rows.
    ///
    /// The terminal must have room for a board, and the board room for the
    /// walls of the level, for the number and for the snake, as far as any of
    /// these is still to be placed. A game that is running must be able to
    /// count: the number to eat is one of the ten, and score, level and the
    /// place of the head are not at the end of their ranges.
    pub open spec fn tick_ready(&self, width: u16, height: u16) -> bool {
        let (w, h) = self.field_size(width, height);
        &&& width >= 2
        &&& height >= 3
        &&& w <= FIELD_LIMIT
        &&& h <= FIELD_LIMIT
        &&& match self.cached_board {
            Some(board) => board.wf(),
            None => 1 <= self.level <= LEVEL_COUNT && walls_fit(self.level as int, w, h),
        }
        &&& self@.number_unplaced() ==> w >= 3 && h >= 4
        &&& self.snake_vector@.len() == 0 ==> 1 <= self.level <= LEVEL_COUNT && spawn_fits(
            self.level as int,
            w,
            h,
        )
        &&& self@.running() ==> {
            &&& 1 <= self.current_number <= LAST_NUMBER
            &&& self.level < u8::MAX
            &&& i32::MIN + MISTAKE_PENALTY <= self.score <= i32::MAX - LAST_NUMBER * 100
            &&& self.snake_vector@.len() > 0 ==> {
                &&& i32::MIN < self.snake_vector@[0].0 < i32::MAX
                &&& i32::MIN < self.snake_vector@[0].1 < i32::MAX
            }
        }
    }

    /// Whether the game can take a tick on a terminal of `width` columns
    /// and `height` rows.
    pub fn can_tick(&self, width: u16, height: u16) -> (ready: bool)
        ensures
            ready == self.tick_ready(width, height),
    {
        if width < 2 || height < 3 {
            return false;
        }
        match &self.cached_board {
            Some(board) => {
                if !board.is_wf() {
                    return false;
                }
            },
            None => {},
        }
        let (w, h): (usize, usize) = match &self.cached_board {
            Some(board) => (board.width, board.height),
            None => (width as usize - 1, 2 * (height as usize) - 4),
        };
        if w > FIELD_LIMIT || h > FIELD_LIMIT {
            return false;
        }
        if self.cached_board.is_none() && !(1 <= self.level && self.level <= LEVEL_COUNT
            && walls_have_room(self.level, w, h)) {
            return false;
        }
        if (self.number_pos.0 == 0 || self.number_pos.1 == 0) && !(w >= 3 && h >= 4) {
            return false;
        }
        if self.snake_vector.len() == 0 && !(1 <= self.level && self.level <= LEVEL_COUNT
            && spawn_has_room(self.level, w, h)) {
            return false;
        }
        if self.lives > 0 && !self.paused {
            if !(1 <= self.current_number && self.current_number <= LAST_NUMBER) {
                return false;
            }
            if self.level == u8::MAX {
                return false;
            }
            if !(i32::MIN + MISTAKE_PENALTY <= self.score && self.score <= i32::MAX
                - LAST_NUMBER as i32 * 100) {
                return false;
            }
            if self.snake_vector.len() > 0 {
                let head = self.snake_vector[0];
                if !(i32::MIN < head.0 && head.0 < i32::MAX && i32::MIN < head.1 && head.1
                    < i32::MAX) {
                    return false;
                }
            }
        }
        true
    }
}

/// Whether `walled` is the board of `level` for a terminal of `width`
/// columns and `height` rows: empty but for the walls of the level.
pub open spec fn is_level_board(walled: &Board, level: int, width: u16, height: u16) -> bool {
    &&& walled.wf()
    &&& walled.width == field_width(width)
    &&& walled.height == field_height(height)
    &&& walled@ == painted(
        uniform_grid(walled.width as nat, (walled.height + 1) as nat, EMPTY),
        walls(level, walled.width as int, walled.height as int),
        WALL,
    )
}

/// Whether a tick on a terminal of `width` columns and `height` rows may
/// lead from `before` to `after` and show `shown`.
///
/// The board of the level is the one that the game keeps, or a new one that
/// it keeps from now on. On it the game is given what it lacks, makes its
/// move if it is running, and is again given what it lacks, unless there is
/// no room for that. `shown` is the board with the snake on it.
pub open spec fn ticked(
    before: &GameState,
    after: &GameState,
    shown: &Board,
    width: u16,
    height: u16,
) -> bool {
    exists|level_board: Board, ready: Play|
        {
            let moved = ready.after_move(&level_board);
            &&& match before.cached_board {
                Some(kept) => level_board.grid() == kept.grid() && level_board.wf(),
                None => is_level_board(&level_board, before.level as int, width, height),
            }
            &&& #[trigger] initialized(before@.with_board(level_board.grid()), ready, &level_board)
            &&& if can_initialize(moved, &level_board) {
                initialized(moved, after@, &level_board)
            } else {
                after@ == moved
            }
            &&& shown.wf()
            &&& shown.width == level_board.width
            &&& shown.height == level_board.height
            &&& shown@ == painted(level_board@, snake_cells(after.snake_vector@), SNAKE)
        }
}

/// Takes an event.
///
/// An event of the keyboard changes the state as [`Play::after_input`] says
/// and hands back nothing. A tick of the clock, on a terminal of
/// `term_size.0` columns and `term_size.1` rows, changes the state as
/// [`ticked`] says and hands back the board to show.
pub fn handle_event(event: GameEvent, game_state: &mut GameState, term_size: (u16, u16)) -> (shown:
    Option<Board>)
    requires
        event == GameEvent::Timeout ==> old(game_state).tick_ready(term_size.0, term_size.1),
    ensures
        event != GameEvent::Timeout ==> shown is None && final(game_state)@ == old(
            game_state
        )@.after_input(event),
        event == GameEvent::Timeout ==> shown is Some && ticked(
            old(game_state),
            final(game_state),
            &shown->0,
            term_size.0,
            term_size.1,
        ),
        old(game_state)@.cells_apart() ==> final(game_state)@.cells_apart(),
{
    match event {
        GameEvent::Up | GameEvent::Right | GameEvent::Down | GameEvent::Left => {
            match event.map_to_direction_check_valid(game_state.snake_direction) {
                Some(new_direction) => {
                    game_state.snake_direction = new_direction;
                },
                None => {},
            }
            None
        },
        GameEvent::Action => {
            if game_over(game_state) {
                *game_state = create_game_state();
            } else if game_state.paused {
                game_state.paused = false;
            }
            None
        },
        GameEvent::Escape => {
            if !game_state.paused {
                game_state.paused = true;
            }
            None
        },
        GameEvent::Timeout => {
            let playfield = get_playfield(term_size.0, term_size.1);
            let width = (playfield.right - playfield.left) as usize + 1;
            let height = (playfield.bottom - playfield.top) as usize + 1;
            let mut board = match &game_state.cached_board {
                None => {
                    let mut board = Board::new(width, height);
                    render_level(game_state.level, &mut board);
                    board
                },
                Some(board) => board.clone(),
            };
            if game_state.cached_board.is_none() {
                game_state.cached_board = Some(board.clone());
            }
            let ghost level_board = board;
            let ghost kept = game_state@;
            assert(kept == old(game_state)@.with_board(level_board.grid()));

            check_unitialized_state(game_state, &board);
            let ghost ready = game_state@;
            proof {
                if old(game_state).snake_vector@.len() == 0 {
                    crate::levels::lemma_spawned_snake(
                        ready.level,
                        board.width as int,
                        board.height as int,
                        ready.body,
                        ready.direction,
                    );
                }
            }

            if !game_over(game_state) && !game_state.paused {
                update(game_state, &board);
            }
            let ghost moved = game_state@;
            assert(moved == ready.after_move(&level_board));

            if has_room_to_initialize(game_state, &board) {
                check_unitialized_state(game_state, &board);
                proof {
                    if moved.body.len() == 0 {
                        crate::levels::lemma_spawned_snake(
                            moved.level,
                            board.width as int,
                            board.height as int,
                            game_state@.body,
                            game_state@.direction,
                        );
                    }
                }
            }

            render_snake(game_state, &mut board);
            assert(initialized(kept, ready, &level_board));
            assert(ticked(old(game_state), game_state, &board, term_size.0, term_size.1));
            Some(board)
        },
        _ => None,
    }
}

/// Shows the game on a terminal of `term_size.0` columns and `term_size.1`
/// rows: draws its frame, and returns the operations that turn what the
/// terminal shows into that frame, which the terminal shows from now on.
pub fn render(
    game_state: &GameState,
    board: &Board,
    term_state: &mut TermState,
    term_size: (u16, u16),
) -> (ops: Vec<TermOp>)
    requires
        term_size.0 >= 1,
        term_size.1 >= 1,
        board.wf(),
        draw_fits(game_state@, term_size.0 as int, term_size.1 as int),
        old(term_state).covers(term_size.0 as int, term_size.1 as int),
    ensures
        final(term_state).buffer matches Some(frame) && {
            &&& frame.size == (term_size.0 as usize, term_size.1 as usize)
            &&& frame@ == drawn(
                game_state@,
                board,
                crate::terminal::fresh_screen(term_size.0 as nat, term_size.1 as nat),
            )
            &&& ops@ == frame_ops(&frame, old(term_state))
            &&& final(term_state).scan() == scan_rows(
                frame@.cells,
                old(term_state).shown(),
                frame.size.1 as int,
                old(term_state).scan(),
            ).1
        },
{
    let mut buffer = Terminal::new(term_size.0 as usize, term_size.1 as usize);
    draw_buffered(game_state, board, &mut buffer);
    proof {
        buffer.lemma_wf_shaped();
    }
    draw_terminal(buffer, term_state)
}

/// A request for the heading that the snake has, or for the opposite one,
/// changes nothing in the game, however often it is made.
pub proof fn lemma_same_axis_request_changes_nothing(play: Play, event: GameEvent)
    requires
        event.heading() matches Some(next) && next.is_vertical() == play.direction.is_vertical(),
    ensures
        play.after_input(event) == play,
        play.after_input(event).after_input(event) == play,
{
    crate::game::lemma_same_axis_request_keeps_heading(play.direction, event);
}

/// The keyboard moves the game between its states: escape pauses a running
/// game, the action resumes a paused one and starts a new game where the
/// game is over, and no key ends a game or brings one to life.
pub proof fn lemma_keys_pause_resume_restart(play: Play)
    ensures
        play.running() ==> play.after_input(GameEvent::Escape).paused && !play.after_input(
            GameEvent::Escape,
        ).game_over(),
        play.lives > 0 && play.paused ==> play.after_input(GameEvent::Action).running(),
        play.game_over() ==> play.after_input(GameEvent::Action) == crate::game::fresh_game(),
        forall|event: GameEvent|
            event != GameEvent::Action ==> (#[trigger] play.after_input(event)).game_over()
                == play.game_over(),
{
}

/// No key touches the board of the level, but the action that starts a new
/// game, which gives it up.
pub proof fn lemma_keys_keep_the_board(play: Play, event: GameEvent)
    requires
        event != GameEvent::Timeout,
    ensures
        !(event == GameEvent::Action && play.game_over()) ==> play.after_input(event).cached_board
            == play.cached_board,
        event == GameEvent::Action && play.game_over() ==> play.after_input(event).cached_board
            is None,
{
}

/// Every game starts with the cells of its snake apart, and no event
/// brings two of them together while the game is not over.
pub proof fn lemma_cells_stay_apart(play: Play, event: GameEvent)
    requires
        play.cells_apart(),
        event != GameEvent::Timeout,
    ensures
        crate::game::fresh_game().cells_apart(),
        play.after_input(event).cells_apart(),
{
}

} // verus!
