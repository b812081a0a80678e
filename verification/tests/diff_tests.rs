use nibbles::diff::{cell_diff, draw_terminal, TermOp, TermState};
use nibbles::terminal::{Cell, TermColor, Terminal};

fn frame(
    width: usize,
    height: usize,
    marks: &[(usize, usize, char, TermColor, TermColor)],
) -> Terminal {
    let mut terminal = Terminal::new(width, height);
    for &(x, y, data, foreground, background) in marks {
        terminal.rows[y][x] = Cell { foreground, background, data };
    }
    terminal
}

fn puts(ops: &[TermOp]) -> usize {
    ops.iter().filter(|op| matches!(op, TermOp::Put(_))).count()
}

const PLAIN: TermColor = TermColor::Default;

#[test]
fn cells_differ_by_character_or_colour() {
    let a = Cell { foreground: PLAIN, background: PLAIN, data: 'a' };
    assert!(!cell_diff(a, a));
    assert!(cell_diff(a, Cell { data: 'b', ..a }));
    assert!(cell_diff(a, Cell { foreground: TermColor::Color(0), ..a }));
    assert!(cell_diff(a, Cell { background: TermColor::Color(0), ..a }));
}

#[test]
fn default_state_knows_no_frame() {
    let state = TermState::default();
    assert_eq!(state.cursor, (0, 0));
    assert!(state.buffer.is_none());
    assert_eq!(state.foreground, PLAIN);
    assert_eq!(state.background, PLAIN);
}

#[test]
fn the_first_frame_is_drawn_cell_by_cell() {
    let mut state = TermState::default();
    let ops = draw_terminal(frame(3, 2, &[(1, 0, 'x', PLAIN, PLAIN)]), &mut state);
    assert_eq!(
        ops,
        vec![
            TermOp::MoveTo(0, 0),
            TermOp::Put(' '),
            TermOp::Put('x'),
            TermOp::Put(' '),
            TermOp::MoveTo(0, 1),
            TermOp::Put(' '),
            TermOp::Put(' '),
            TermOp::Put(' '),
        ]
    );
    assert_eq!(state.cursor, (3, 1));
    assert!(state.buffer.is_some());
}

#[test]
fn the_first_frame_writes_every_cell_once() {
    let mut state = TermState::default();
    let ops = draw_terminal(frame(7, 5, &[(2, 2, 'o', TermColor::Color(3), PLAIN)]), &mut state);
    assert_eq!(puts(&ops), 35);
}

#[test]
fn the_first_frame_writes_blank_cells_too() {
    let mut state = TermState::default();
    let ops = draw_terminal(frame(1, 1, &[]), &mut state);
    assert_eq!(ops, vec![TermOp::MoveTo(0, 0), TermOp::Put(' ')]);
}

#[test]
fn the_same_frame_again_costs_nothing() {
    let marks = [(1, 0, 'x', TermColor::Color(9), PLAIN), (2, 1, 'y', PLAIN, TermColor::Color(1))];
    let mut state = TermState::default();
    draw_terminal(frame(4, 3, &marks), &mut state);
    let cursor = state.cursor;
    let foreground = state.foreground;
    let ops = draw_terminal(frame(4, 3, &marks), &mut state);
    assert_eq!(ops, vec![]);
    assert_eq!(state.cursor, cursor);
    assert_eq!(state.foreground, foreground);
}

#[test]
fn a_frame_over_a_blank_one_writes_its_marks_only() {
    let marks = [
        (1, 0, 'x', PLAIN, PLAIN),
        (2, 0, ' ', TermColor::Color(9), PLAIN),
        (0, 2, ' ', PLAIN, TermColor::Color(4)),
        (3, 2, 'z', TermColor::Color(1), TermColor::Color(2)),
    ];
    let mut state = TermState::default();
    state.buffer = Some(Terminal::new(4, 3));
    let ops = draw_terminal(frame(4, 3, &marks), &mut state);
    assert_eq!(puts(&ops), 4);
}

#[test]
fn a_changed_cell_is_reached_by_coordinates_from_another_row() {
    let mut state = TermState::default();
    draw_terminal(frame(6, 2, &[]), &mut state);
    assert_eq!(state.cursor, (6, 1));
    let ops = draw_terminal(frame(6, 2, &[(2, 0, 'x', TermColor::Color(9), PLAIN)]), &mut state);
    assert_eq!(
        ops,
        vec![TermOp::MoveTo(2, 0), TermOp::SetForeground(TermColor::Color(9)), TermOp::Put('x')]
    );
    assert_eq!(state.cursor, (3, 0));
    assert_eq!(state.foreground, TermColor::Color(9));
    assert_eq!(state.background, PLAIN);
}

#[test]
fn a_changed_cell_further_right_on_the_row_is_reached_by_a_move_right() {
    let mut state = TermState::default();
    draw_terminal(frame(8, 2, &[]), &mut state);
    draw_terminal(frame(8, 2, &[(2, 0, 'x', PLAIN, PLAIN)]), &mut state);
    assert_eq!(state.cursor, (3, 0));
    let ops = draw_terminal(
        frame(8, 2, &[(2, 0, 'x', PLAIN, PLAIN), (5, 0, 'y', PLAIN, PLAIN)]),
        &mut state,
    );
    assert_eq!(ops, vec![TermOp::MoveRight(2), TermOp::Put('y')]);
    assert_eq!(state.cursor, (6, 0));
}

#[test]
fn a_changed_cell_under_the_cursor_is_reached_by_coordinates() {
    let mut state = TermState::default();
    draw_terminal(frame(8, 2, &[]), &mut state);
    draw_terminal(frame(8, 2, &[(2, 0, 'x', PLAIN, PLAIN)]), &mut state);
    let ops = draw_terminal(
        frame(8, 2, &[(2, 0, 'x', PLAIN, PLAIN), (3, 0, 'y', PLAIN, PLAIN)]),
        &mut state,
    );
    assert_eq!(ops, vec![TermOp::MoveTo(3, 0), TermOp::Put('y')]);
}

#[test]
fn neighbours_are_written_without_a_move_between_them() {
    let mut state = TermState::default();
    draw_terminal(frame(8, 2, &[]), &mut state);
    let ops = draw_terminal(
        frame(
            8,
            2,
            &[(1, 1, 'a', PLAIN, PLAIN), (2, 1, 'b', PLAIN, PLAIN), (4, 1, 'c', PLAIN, PLAIN)],
        ),
        &mut state,
    );
    assert_eq!(
        ops,
        vec![
            TermOp::MoveTo(1, 1),
            TermOp::Put('a'),
            TermOp::Put('b'),
            TermOp::MoveRight(1),
            TermOp::Put('c'),
        ]
    );
}

#[test]
fn only_the_colour_that_differs_is_set() {
    let mut state = TermState::default();
    draw_terminal(frame(4, 1, &[]), &mut state);
    state.foreground = TermColor::Color(9);
    state.background = TermColor::Color(1);
    let ops = draw_terminal(
        frame(
            4,
            1,
            &[
                (0, 0, 'a', TermColor::Color(9), TermColor::Color(2)),
                (1, 0, 'b', TermColor::Color(3), TermColor::Color(2)),
                (2, 0, 'c', TermColor::Color(4), TermColor::Color(5)),
            ],
        ),
        &mut state,
    );
    assert_eq!(
        ops,
        vec![
            TermOp::MoveTo(0, 0),
            TermOp::SetBackground(TermColor::Color(2)),
            TermOp::Put('a'),
            TermOp::SetForeground(TermColor::Color(3)),
            TermOp::Put('b'),
            TermOp::SetForeground(TermColor::Color(4)),
            TermOp::SetBackground(TermColor::Color(5)),
            TermOp::Put('c'),
        ]
    );
}

#[test]
fn two_defaults_are_set_by_one_reset() {
    let mut state = TermState::default();
    draw_terminal(frame(3, 1, &[]), &mut state);
    state.foreground = TermColor::Color(9);
    state.background = TermColor::Color(1);
    let ops = draw_terminal(frame(3, 1, &[(1, 0, 'a', PLAIN, PLAIN)]), &mut state);
    assert_eq!(ops, vec![TermOp::MoveTo(1, 0), TermOp::ResetColors, TermOp::Put('a')]);
    assert_eq!(state.foreground, PLAIN);
    assert_eq!(state.background, PLAIN);
}

#[test]
fn one_default_is_set_alone() {
    let mut state = TermState::default();
    draw_terminal(frame(3, 1, &[]), &mut state);
    state.foreground = TermColor::Color(9);
    let ops = draw_terminal(frame(3, 1, &[(1, 0, 'a', PLAIN, PLAIN)]), &mut state);
    assert_eq!(
        ops,
        vec![TermOp::MoveTo(1, 0), TermOp::SetForeground(PLAIN), TermOp::Put('a')]
    );
}

#[test]
fn a_larger_frame_before_may_stand_for_a_smaller_one_now() {
    let mut state = TermState::default();
    draw_terminal(frame(5, 4, &[(1, 1, 'x', PLAIN, PLAIN)]), &mut state);
    assert!(state.has_cells_for(3, 2));
    assert!(!state.has_cells_for(6, 2));
    assert!(!state.has_cells_for(3, 5));
    let ops = draw_terminal(frame(3, 2, &[(1, 1, 'x', PLAIN, PLAIN)]), &mut state);
    assert_eq!(ops, vec![]);
}

#[test]
fn an_empty_frame_takes_no_operation() {
    let mut state = TermState::default();
    assert!(state.has_cells_for(0, 0));
    let ops = draw_terminal(Terminal::new(0, 0), &mut state);
    assert_eq!(ops, vec![]);
    assert!(state.buffer.is_some());
}

#[test]
fn a_frame_out_of_shape_stands_for_no_frame() {
    let mut state = TermState::default();
    let mut shown = Terminal::new(5, 4);
    shown.rows[2].pop();
    state.buffer = Some(shown);
    assert!(!state.has_cells_for(3, 2));
    assert!(!state.has_cells_for(0, 0));
}
