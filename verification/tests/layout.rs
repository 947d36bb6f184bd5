use sapter::layout::{check_layout, generate_mines, place_mine, scan_free_from};
use sapter::{ConfigError, GameState, Pos};

#[test]
fn mine_goes_to_the_drawn_cell_if_free() {
    let mut mines: Vec<Pos> = vec![(0, 0)];
    place_mine(&mut mines, 3, 2, 1, 1);
    assert_eq!(mines, vec![(0, 0), (1, 1)]);
}

#[test]
fn mine_goes_to_the_next_free_cell_if_taken() {
    let mut mines: Vec<Pos> = vec![(1, 0), (2, 0)];
    place_mine(&mut mines, 3, 2, 1, 0);
    assert_eq!(mines, vec![(1, 0), (2, 0), (0, 1)]);
}

#[test]
fn mine_goes_to_the_top_after_the_last_row() {
    let mut mines: Vec<Pos> = vec![(0, 0), (2, 1), (1, 1)];
    place_mine(&mut mines, 3, 2, 1, 1);
    assert_eq!(mines, vec![(0, 0), (2, 1), (1, 1), (1, 0)]);
}

#[test]
fn scan_finds_the_first_free_cell() {
    let mines: Vec<Pos> = vec![(0, 0), (1, 0), (1, 1)];
    assert_eq!(scan_free_from(&mines, 2, 2, 0, 0), Some((0, 1)));
    assert_eq!(scan_free_from(&mines, 2, 2, 0, 1), Some((0, 1)));
    assert_eq!(scan_free_from(&mines, 2, 2, 1, 1), None);
    assert_eq!(scan_free_from(&Vec::new(), 2, 2, 1, 1), Some((1, 1)));
}

#[test]
fn generated_mines_are_distinct_cells_of_the_board() {
    for &(w, h, n) in [(4usize, 3usize, 12usize), (4, 3, 5), (1, 9, 4), (7, 7, 0)].iter() {
        let mines = generate_mines(w, h, n);
        assert_eq!(mines.len(), n);
        assert_eq!(check_layout(w, h, &mines), Ok(()));
    }
}

#[test]
fn generated_mines_vary() {
    let mut elsewhere = false;
    for _ in 0..40 {
        let g = GameState::new(8, 8, 1).unwrap();
        if g.has_mine(0, 0) != Ok(true) {
            elsewhere = true;
        }
    }
    assert!(elsewhere);
}

#[test]
fn layout_faults_in_order() {
    assert_eq!(
        check_layout(0, 0, &vec![(0, 0), (0, 0)]),
        Err(ConfigError::EmptyBoard)
    );
    assert_eq!(
        check_layout(1, 1, &vec![(0, 0), (0, 0), (1, 0)]),
        Err(ConfigError::MineOutOfRange)
    );
    assert_eq!(
        check_layout(1, 1, &vec![(0, 0), (0, 0)]),
        Err(ConfigError::DuplicateMine)
    );
    assert_eq!(check_layout(1, 1, &vec![(0, 0)]), Ok(()));
    assert_eq!(check_layout(1, 1, &vec![]), Ok(()));
}
