use sapter::{GameState, RangeError};

#[test]
fn queries_reject_cells_off_the_board() {
    let g = GameState::with_mines(3, 2, vec![(2, 1)]).unwrap();
    assert_eq!(g.has_mine(3, 0), Err(RangeError));
    assert_eq!(g.has_mine(0, 2), Err(RangeError));
    assert_eq!(g.is_opened(3, 1), Err(RangeError));
    assert_eq!(g.is_flagged(2, 2), Err(RangeError));
    assert_eq!(g.is_player(3, 2), Err(RangeError));
    assert_eq!(g.count_mines_around(3, 1), Err(RangeError));
    assert_eq!(g.count_mines_around(usize::MAX, usize::MAX), Err(RangeError));
    assert_eq!(g.is_in_range(3, 0), Err(RangeError));
    assert_eq!(g.is_in_range(2, 1), Ok(()));
    assert_eq!(g.has_mine(2, 1), Ok(true));
    assert_eq!(g.has_mine(1, 1), Ok(false));
    assert_eq!(g.is_opened(2, 1), Ok(false));
    assert_eq!(g.is_flagged(2, 1), Ok(false));
    assert_eq!(g.is_player(0, 0), Ok(true));
    assert_eq!(g.is_player(1, 0), Ok(false));
}

#[test]
fn mines_are_counted_in_all_eight_directions() {
    let g = GameState::with_mines(
        3,
        3,
        vec![(0, 0), (1, 0), (2, 0), (0, 1), (2, 1), (0, 2), (1, 2), (2, 2)],
    )
    .unwrap();
    assert_eq!(g.count_mines_around(1, 1), Ok(8));
    assert_eq!(g.count_mines_around(0, 0), Ok(2));
    assert_eq!(g.count_mines_around(1, 0), Ok(4));
    assert_eq!(g.count_mines_around(2, 2), Ok(2));
    assert_eq!(g.count_mines_around(2, 1), Ok(4));
}

#[test]
fn a_cell_does_not_count_itself() {
    let g = GameState::with_mines(2, 2, vec![(0, 0), (1, 1)]).unwrap();
    assert_eq!(g.count_mines_around(0, 0), Ok(1));
    assert_eq!(g.count_mines_around(1, 0), Ok(2));
    let lone = GameState::with_mines(1, 1, vec![(0, 0)]).unwrap();
    assert_eq!(lone.count_mines_around(0, 0), Ok(0));
}

#[test]
fn mines_two_cells_away_are_not_counted() {
    let g = GameState::with_mines(5, 5, vec![(0, 0), (4, 2), (2, 4), (4, 4)]).unwrap();
    assert_eq!(g.count_mines_around(2, 2), Ok(0));
    assert_eq!(g.count_mines_around(3, 3), Ok(3));
    assert_eq!(g.count_mines_around(1, 1), Ok(1));
}

#[test]
fn cursor_moves_one_step_and_stops_at_the_edges() {
    let mut g = GameState::with_mines(3, 2, vec![]).unwrap();
    g.move_player_left();
    assert_eq!(g.player(), (0, 0));
    g.move_player_up();
    assert_eq!(g.player(), (0, 0));
    g.move_player_right();
    assert_eq!(g.player(), (1, 0));
    g.move_player_right();
    assert_eq!(g.player(), (2, 0));
    g.move_player_right();
    assert_eq!(g.player(), (2, 0));
    g.move_player_down();
    assert_eq!(g.player(), (2, 1));
    g.move_player_down();
    assert_eq!(g.player(), (2, 1));
    g.move_player_left();
    assert_eq!(g.player(), (1, 1));
    g.move_player_up();
    assert_eq!(g.player(), (1, 0));
    assert_eq!(g.is_player(1, 0), Ok(true));
    assert_eq!(g.is_player(1, 1), Ok(false));
}

#[test]
fn all_lists_every_cell_column_by_column() {
    let g = GameState::with_mines(2, 3, vec![(1, 2)]).unwrap();
    assert_eq!(
        g.all(),
        vec![(0, 0), (0, 1), (0, 2), (1, 0), (1, 1), (1, 2)]
    );
}

#[test]
fn closed_lists_what_is_not_opened() {
    let mut g = GameState::with_mines(2, 3, vec![(1, 2)]).unwrap();
    assert_eq!(g.closed(), g.all());
    g.reveal_cell().unwrap();
    assert_eq!(g.closed(), vec![(0, 2), (1, 2)]);
    g.move_player_down();
    g.move_player_down();
    g.move_player_right();
    g.reveal_cell().unwrap();
    assert_eq!(g.closed(), vec![(0, 2)]);
}
