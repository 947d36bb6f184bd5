use sapter::{ConfigError, GameState, Pos};

fn game(width: usize, height: usize, mines: Vec<Pos>) -> GameState {
    GameState::with_mines(width, height, mines).unwrap()
}

fn move_to(g: &mut GameState, x: usize, y: usize) {
    while g.player().0 > x {
        g.move_player_left();
    }
    while g.player().0 < x {
        g.move_player_right();
    }
    while g.player().1 > y {
        g.move_player_up();
    }
    while g.player().1 < y {
        g.move_player_down();
    }
    assert_eq!(g.player(), (x, y));
}

fn opened_cells(g: &GameState) -> Vec<Pos> {
    let mut cells = Vec::new();
    for y in 0..g.height() {
        for x in 0..g.width() {
            if g.is_opened(x, y).unwrap() {
                cells.push((x, y));
            }
        }
    }
    cells
}

fn mine_cells(g: &GameState) -> Vec<Pos> {
    let mut cells = Vec::new();
    for y in 0..g.height() {
        for x in 0..g.width() {
            if g.has_mine(x, y).unwrap() {
                cells.push((x, y));
            }
        }
    }
    cells
}

#[test]
fn single_cell_without_mines_is_opened_and_won() {
    let mut g = GameState::new(1, 1, 0).unwrap();
    assert_eq!(g.mines_left(), 0);
    assert_eq!(g.reveal_cell(), Ok(()));
    assert_eq!(g.is_opened(0, 0), Ok(true));
    assert!(g.is_alive());
    assert!(g.check_has_won());
    assert!(!g.is_alive());
}

#[test]
fn numbered_cell_does_not_cascade() {
    let mut g = game(3, 3, vec![(1, 1)]);
    for y in 0..3 {
        for x in 0..3 {
            if (x, y) != (1, 1) {
                assert_eq!(g.count_mines_around(x, y), Ok(1));
            }
        }
    }
    assert_eq!(g.count_mines_around(1, 1), Ok(0));
    g.reveal_cell().unwrap();
    assert_eq!(opened_cells(&g), vec![(0, 0)]);
    assert!(g.is_alive());
    assert_eq!(g.is_opened(1, 1), Ok(false));
}

#[test]
fn ring_around_a_mine_opens_cell_by_cell() {
    let mut g = game(3, 3, vec![(1, 1)]);
    for y in 0..3 {
        for x in 0..3 {
            if (x, y) != (1, 1) {
                move_to(&mut g, x, y);
                g.reveal_cell().unwrap();
            }
        }
    }
    assert_eq!(
        opened_cells(&g),
        vec![(0, 0), (1, 0), (2, 0), (0, 1), (2, 1), (0, 2), (1, 2), (2, 2)]
    );
    assert_eq!(g.is_opened(1, 1), Ok(false));
    assert!(g.is_alive());
}

#[test]
fn full_board_loses_at_once_and_opens_every_cell() {
    let mut g = GameState::new(3, 2, 6).unwrap();
    assert_eq!(g.mines_left(), 6);
    assert_eq!(mine_cells(&g).len(), 6);
    move_to(&mut g, 2, 1);
    g.reveal_cell().unwrap();
    assert!(!g.is_alive());
    assert_eq!(opened_cells(&g).len(), 6);
}

#[test]
fn flagging_every_mine_wins() {
    let mines = vec![(2, 0), (0, 1), (3, 2)];
    let mut g = game(4, 3, mines.clone());
    for &(x, y) in mines.iter().rev() {
        assert!(!g.check_has_won());
        assert!(g.is_alive());
        move_to(&mut g, x, y);
        g.flag().unwrap();
    }
    assert_eq!(g.mines_left(), 0);
    assert!(g.check_has_won());
    assert!(!g.is_alive());
    assert!(g.check_has_won());
}

#[test]
fn flagging_all_mines_but_one_does_not_win() {
    let mut g = game(4, 3, vec![(2, 0), (0, 1), (3, 2)]);
    move_to(&mut g, 2, 0);
    g.flag().unwrap();
    move_to(&mut g, 0, 1);
    g.flag().unwrap();
    assert!(!g.check_has_won());
    assert!(g.is_alive());
    assert_eq!(g.mines_left(), 1);
}

#[test]
fn as_many_flags_on_wrong_cells_do_not_win() {
    let mut g = game(4, 3, vec![(2, 0), (0, 1)]);
    move_to(&mut g, 2, 0);
    g.flag().unwrap();
    move_to(&mut g, 1, 1);
    g.flag().unwrap();
    assert_eq!(g.mines_left(), 0);
    assert!(!g.check_has_won());
    assert!(g.is_alive());
    assert_eq!(g.is_flagged(1, 1), Ok(true));
    assert_eq!(opened_cells(&g), Vec::<Pos>::new());
}

#[test]
fn new_game_has_all_its_mines_left() {
    for &(w, h, n) in [(1, 1, 0), (1, 1, 1), (10, 10, 10), (5, 7, 35), (4, 2, 3)].iter() {
        let g = GameState::new(w, h, n).unwrap();
        assert_eq!(g.mines_left(), n as i128);
        assert_eq!(mine_cells(&g).len(), n);
        assert_eq!(opened_cells(&g).len(), 0);
        assert_eq!(g.player(), (0, 0));
        assert_eq!(g.width(), w);
        assert_eq!(g.height(), h);
        assert!(g.is_alive());
    }
}

#[test]
fn flag_twice_restores() {
    let mut g = game(3, 3, vec![(1, 1), (2, 2)]);
    move_to(&mut g, 1, 0);
    assert_eq!(g.is_flagged(1, 0), Ok(false));
    assert_eq!(g.mines_left(), 2);
    g.flag().unwrap();
    assert_eq!(g.is_flagged(1, 0), Ok(true));
    assert_eq!(g.mines_left(), 1);
    g.flag().unwrap();
    assert_eq!(g.is_flagged(1, 0), Ok(false));
    assert_eq!(g.mines_left(), 2);
}

#[test]
fn more_flags_than_mines_count_below_zero() {
    let mut g = game(3, 1, vec![]);
    g.flag().unwrap();
    move_to(&mut g, 1, 0);
    g.flag().unwrap();
    assert_eq!(g.mines_left(), -2);
}

#[test]
fn flag_on_opened_cell_does_nothing() {
    let mut g = game(3, 3, vec![(1, 1)]);
    g.reveal_cell().unwrap();
    assert_eq!(g.is_opened(0, 0), Ok(true));
    assert_eq!(g.flag(), Ok(()));
    assert_eq!(g.is_flagged(0, 0), Ok(false));
    assert_eq!(g.is_opened(0, 0), Ok(true));
    assert_eq!(g.mines_left(), 1);
}

#[test]
fn reveal_on_flagged_cell_does_nothing() {
    let mut g = game(2, 2, vec![(0, 0)]);
    g.flag().unwrap();
    assert_eq!(g.reveal_cell(), Ok(()));
    assert!(g.is_alive());
    assert_eq!(opened_cells(&g), Vec::<Pos>::new());
    assert_eq!(g.is_flagged(0, 0), Ok(true));
}

#[test]
fn mine_ends_the_game_and_freezes_the_cursor() {
    let mut g = game(4, 4, vec![(1, 1), (3, 0), (2, 3)]);
    move_to(&mut g, 1, 1);
    g.reveal_cell().unwrap();
    assert!(!g.is_alive());
    assert_eq!(opened_cells(&g), vec![(3, 0), (1, 1), (2, 3)]);
    g.move_player_left();
    assert_eq!(g.player(), (1, 1));
    g.move_player_right();
    assert_eq!(g.player(), (1, 1));
    g.move_player_up();
    assert_eq!(g.player(), (1, 1));
    g.move_player_down();
    assert_eq!(g.player(), (1, 1));
    g.flag().unwrap();
    assert_eq!(g.is_flagged(1, 1), Ok(false));
    g.reveal_cell().unwrap();
    assert_eq!(opened_cells(&g).len(), 3);
}

#[test]
fn flagged_mine_is_opened_on_loss() {
    let mut g = game(3, 1, vec![(0, 0), (2, 0)]);
    g.flag().unwrap();
    move_to(&mut g, 2, 0);
    g.reveal_cell().unwrap();
    assert!(!g.is_alive());
    assert_eq!(g.is_opened(0, 0), Ok(true));
    assert_eq!(g.is_flagged(0, 0), Ok(true));
    assert_eq!(g.is_opened(1, 0), Ok(false));
}

#[test]
fn resurect_only_revives() {
    let mut g = game(3, 1, vec![(0, 0)]);
    g.reveal_cell().unwrap();
    assert!(!g.is_alive());
    g.resurect();
    assert!(g.is_alive());
    assert_eq!(g.is_opened(0, 0), Ok(true));
    g.move_player_right();
    assert_eq!(g.player(), (1, 0));
    assert_eq!(g.mines_left(), 1);
}

#[test]
fn cascade_opens_region_and_border_only() {
    let mut g = game(5, 1, vec![(3, 0)]);
    g.reveal_cell().unwrap();
    assert_eq!(opened_cells(&g), vec![(0, 0), (1, 0), (2, 0)]);
    assert!(g.is_alive());
}

#[test]
fn cascade_on_a_square_board() {
    let mut g = game(5, 5, vec![(4, 4)]);
    g.reveal_cell().unwrap();
    let opened = opened_cells(&g);
    assert_eq!(opened.len(), 24);
    assert!(!opened.contains(&(4, 4)));
    assert!(opened.contains(&(3, 3)));
    assert_eq!(g.count_mines_around(3, 3), Ok(1));
}

#[test]
fn cascade_does_not_pass_diagonally() {
    // (0,0) has no mine around it, (1,1) is reached only through numbered
    // cells, which stop the fill.
    let mut g = game(4, 4, vec![(2, 0), (0, 2)]);
    g.reveal_cell().unwrap();
    assert_eq!(opened_cells(&g), vec![(0, 0), (1, 0), (0, 1)]);
}

#[test]
fn cascade_without_mines_opens_the_board() {
    let mut g = game(6, 4, vec![]);
    move_to(&mut g, 3, 2);
    g.reveal_cell().unwrap();
    assert_eq!(opened_cells(&g).len(), 24);
}

#[test]
fn cascade_stops_at_flags() {
    let mut g = game(5, 1, vec![]);
    move_to(&mut g, 2, 0);
    g.flag().unwrap();
    move_to(&mut g, 0, 0);
    g.reveal_cell().unwrap();
    assert_eq!(opened_cells(&g), vec![(0, 0), (1, 0)]);
    assert_eq!(g.is_flagged(2, 0), Ok(true));
}

#[test]
fn cascade_goes_on_from_an_opened_start() {
    let mut g = game(5, 1, vec![]);
    move_to(&mut g, 2, 0);
    g.flag().unwrap();
    move_to(&mut g, 0, 0);
    g.reveal_cell().unwrap();
    move_to(&mut g, 2, 0);
    g.flag().unwrap();
    move_to(&mut g, 1, 0);
    g.reveal_cell().unwrap();
    assert_eq!(opened_cells(&g).len(), 5);
}

#[test]
fn construction_rejects_what_does_not_fit() {
    assert_eq!(GameState::new(0, 3, 0).err(), Some(ConfigError::EmptyBoard));
    assert_eq!(GameState::new(3, 0, 0).err(), Some(ConfigError::EmptyBoard));
    assert_eq!(GameState::new(0, 0, 5).err(), Some(ConfigError::EmptyBoard));
    assert_eq!(GameState::new(3, 3, 10).err(), Some(ConfigError::TooManyMines));
    assert!(GameState::new(3, 3, 9).is_ok());
    assert_eq!(
        GameState::with_mines(0, 1, vec![]).err(),
        Some(ConfigError::EmptyBoard)
    );
    assert_eq!(
        GameState::with_mines(2, 2, vec![(0, 0), (2, 0)]).err(),
        Some(ConfigError::MineOutOfRange)
    );
    assert_eq!(
        GameState::with_mines(2, 2, vec![(0, 2), (0, 2)]).err(),
        Some(ConfigError::MineOutOfRange)
    );
    assert_eq!(
        GameState::with_mines(2, 2, vec![(0, 1), (1, 1), (0, 1)]).err(),
        Some(ConfigError::DuplicateMine)
    );
    assert!(GameState::with_mines(2, 2, vec![(0, 1), (1, 1), (0, 0), (1, 0)]).is_ok());
}

#[test]
fn error_texts() {
    assert_eq!(
        sapter::RangeError.message(),
        "RangeError: specified position is out of range"
    );
    assert_eq!(
        ConfigError::EmptyBoard.message(),
        "ConfigError: the board has no cells"
    );
    assert_eq!(
        ConfigError::TooManyMines.message(),
        "ConfigError: more mines than cells"
    );
    assert_eq!(
        ConfigError::MineOutOfRange.message(),
        "ConfigError: a mine lies outside the board"
    );
    assert_eq!(
        ConfigError::DuplicateMine.message(),
        "ConfigError: a cell holds two mines"
    );
}
