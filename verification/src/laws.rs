use vstd::prelude::*;
use crate::board::{grid_cells, lemma_grid_len, BoardView, Pos};

verus! {

/// Toggling the flag twice gives back the game as it was: the same cells are
/// flagged, and as many mines are left.
pub proof fn lemma_flag_twice(v: BoardView)
    requires
        v.valid(),
    ensures
        v.after_flag().after_flag() == v,
        v.after_flag().after_flag().flags == v.flags,
        v.after_flag().after_flag().mines_left() == v.mines_left(),
{
    assert(v.after_flag().after_flag() =~= v);
}

/// A flag changes the number of mines left by exactly one, and only the
/// cell under the cursor.
pub proof fn lemma_flag_counts(v: BoardView)
    requires
        v.valid(),
        v.alive,
        !v.opened.contains(v.player),
    ensures
        v.after_flag().flags.contains(v.player) == !v.flags.contains(v.player),
        forall|p: Pos| p != v.player ==> v.after_flag().flags.contains(p) == v.flags.contains(p),
        v.after_flag().mines_left() == v.mines_left() + (if v.flags.contains(v.player) {
            1int
        } else {
            -1int
        }),
{
}

/// Toggling the flag on an opened cell changes nothing.
pub proof fn lemma_flag_on_opened(v: BoardView)
    requires
        v.opened.contains(v.player),
    ensures
        v.after_flag() == v,
{
}

/// Revealing a mine ends the game with every mine opened, and no move
/// changes the cursor after that.
pub proof fn lemma_reveal_mine(v: BoardView)
    requires
        v.valid(),
        v.alive,
        !v.flags.contains(v.player),
        v.mines.contains(v.player),
    ensures
        !v.after_reveal().alive,
        forall|p: Pos| v.mines.contains(p) ==> v.after_reveal().opened.contains(p),
        forall|p: Pos|
            v.after_reveal().opened.contains(p) ==> v.opened.contains(p) || v.mines.contains(p),
        v.after_reveal().after_move_left() == v.after_reveal(),
        v.after_reveal().after_move_right() == v.after_reveal(),
        v.after_reveal().after_move_up() == v.after_reveal(),
        v.after_reveal().after_move_down() == v.after_reveal(),
        v.after_reveal().after_reveal() == v.after_reveal(),
{
}

/// Once the game is over, moves, flags and reveals change nothing.
pub proof fn lemma_over_is_frozen(v: BoardView)
    requires
        !v.alive,
    ensures
        v.after_move_left() == v,
        v.after_move_right() == v,
        v.after_move_up() == v,
        v.after_move_down() == v,
        v.after_flag() == v,
        v.after_reveal() == v,
{
}

/// A move keeps the cursor on the board and changes nothing else.
pub proof fn lemma_moves_stay_on_board(v: BoardView)
    requires
        v.valid(),
    ensures
        v.after_move_left().valid(),
        v.after_move_right().valid(),
        v.after_move_up().valid(),
        v.after_move_down().valid(),
        v.after_move_left() == (BoardView { player: v.after_move_left().player, ..v }),
        v.after_move_right() == (BoardView { player: v.after_move_right().player, ..v }),
        v.after_move_up() == (BoardView { player: v.after_move_up().player, ..v }),
        v.after_move_down() == (BoardView { player: v.after_move_down().player, ..v }),
{
}

/// A flood fill opens its start.
pub proof fn lemma_fill_holds_start(v: BoardView, start: Pos)
    ensures
        v.fill_region(start).contains(start),
{
    assert(v.reaches_in(start, start, 0));
}

/// A flood fill goes on from every cell it opened that has no mine around
/// it: each neighbour of such a cell that it may enter is opened too. So a
/// connected region of cells without mines around them is opened whole,
/// together with the numbered cells at its border.
pub proof fn lemma_fill_spreads(v: BoardView, start: Pos, c: Pos, q: Pos)
    requires
        v.fill_reaches(start, c),
        v.spreads(c, q),
        v.can_spread_to(q),
    ensures
        v.fill_reaches(start, q),
        v.fill_region(start).contains(q),
{
    let n = choose|n: nat| v.reaches_in(start, c, n);
    assert(v.reaches_in(start, q, n + 1));
}

/// A flood fill opens nothing beyond that: every cell it opened, but for the
/// start, could be entered and is a neighbour of an opened cell that has no
/// mine around it. No mine, no flagged cell and no cell behind a numbered
/// cell is opened.
pub proof fn lemma_fill_is_bounded(v: BoardView, start: Pos, q: Pos)
    requires
        v.fill_region(start).contains(q),
        q != start,
    ensures
        v.can_spread_to(q),
        exists|c: Pos| #[trigger] v.spreads(c, q) && v.fill_region(start).contains(c),
{
    let n = choose|n: nat| v.reaches_in(start, q, n);
    let c = choose|c: Pos| #[trigger] v.spreads(c, q) && v.reaches_in(start, c, (n - 1) as nat);
    assert(v.fill_reaches(start, c));
}

/// On a board without mines, with nothing flagged and nothing opened, a
/// flood fill from any cell opens every cell.
pub proof fn lemma_clear_board_opens_all(v: BoardView, start: Pos, q: Pos)
    requires
        v.in_range(start),
        v.in_range(q),
        v.mines == Set::<Pos>::empty(),
        v.flags == Set::<Pos>::empty(),
        v.opened == Set::<Pos>::empty(),
    ensures
        v.fill_region(start).contains(q),
    decreases
            (if q.0 >= start.0 {
                q.0 - start.0
            } else {
                start.0 - q.0
            }) + (if q.1 >= start.1 {
                q.1 - start.1
            } else {
                start.1 - q.1
            }),
{
    if q == start {
        lemma_fill_holds_start(v, start);
    } else {
        let c: Pos = if q.0 > start.0 {
            ((q.0 - 1) as usize, q.1)
        } else if q.0 < start.0 {
            ((q.0 + 1) as usize, q.1)
        } else if q.1 > start.1 {
            (q.0, (q.1 - 1) as usize)
        } else {
            (q.0, (q.1 + 1) as usize)
        };
        lemma_clear_board_opens_all(v, start, c);
        lemma_fill_spreads(v, start, c, q);
    }
}

/// Revealing a cell that holds no mine opens the flood fill's region and
/// nothing else, and the game goes on.
pub proof fn lemma_reveal_safe(v: BoardView, q: Pos)
    requires
        v.valid(),
        v.alive,
        !v.flags.contains(v.player),
        !v.mines.contains(v.player),
    ensures
        v.after_reveal().alive,
        v.after_reveal().opened.contains(v.player),
        v.after_reveal().opened.contains(q) <==> v.opened.contains(q) || v.fill_reaches(
            v.player,
            q,
        ),
        v.after_reveal().opened.contains(q) && v.mines.contains(q) ==> v.opened.contains(q),
        v.after_reveal().opened.contains(q) && v.flags.contains(q) ==> v.opened.contains(q),
{
    lemma_fill_holds_start(v, v.player);
    if v.fill_reaches(v.player, q) && q != v.player {
        lemma_fill_is_bounded(v, v.player, q);
    }
}

/// Whatever is done to a well-formed game leaves it well formed: the cursor
/// and all that is marked stay on the board, only a mine can be both flagged
/// and opened, and mines are opened all or none.
pub proof fn lemma_steps_keep_valid(v: BoardView)
    requires
        v.valid(),
    ensures
        v.after_move_left().valid(),
        v.after_move_right().valid(),
        v.after_move_up().valid(),
        v.after_move_down().valid(),
        v.after_flag().valid(),
        v.after_reveal().valid(),
        v.after_win_check().valid(),
        (BoardView { alive: true, ..v }).valid(),
{
    let region = v.fill_region(v.player);
    assert forall|q: Pos| region.contains(q) implies v.in_range(q) && !v.mines.contains(q)
        && !v.flags.contains(q) || q == v.player by {
        if q != v.player {
            lemma_fill_is_bounded(v, v.player, q);
        }
    }
    lemma_grid_len(v.width as int, v.height as int);
    assert(region.subset_of(grid_cells(v.width as int, v.height as int)));
    vstd::set_lib::lemma_len_subset(region, grid_cells(v.width as int, v.height as int));
}

/// A well-formed game has at most as many mines as the board has cells, and
/// no more cells are opened or flagged than the board has.
pub proof fn lemma_marks_fit_board(v: BoardView)
    requires
        v.valid(),
    ensures
        v.mines.len() <= v.width * v.height,
        v.opened.len() <= v.width * v.height,
        v.flags.len() <= v.width * v.height,
{
    let grid = grid_cells(v.width as int, v.height as int);
    lemma_grid_len(v.width as int, v.height as int);
    assert(v.mines.subset_of(grid));
    assert(v.opened.subset_of(grid));
    assert(v.flags.subset_of(grid));
    vstd::set_lib::lemma_len_subset(v.mines, grid);
    vstd::set_lib::lemma_len_subset(v.opened, grid);
    vstd::set_lib::lemma_len_subset(v.flags, grid);
}

/// What is opened stays opened, whatever is done.
pub proof fn lemma_opened_grows(v: BoardView)
    ensures
        v.opened.subset_of(v.after_reveal().opened),
        v.after_flag().opened == v.opened,
        v.after_win_check().opened == v.opened,
        v.after_move_left().opened == v.opened,
        v.after_move_right().opened == v.opened,
        v.after_move_up().opened == v.opened,
        v.after_move_down().opened == v.opened,
{
}

/// The mines never change.
pub proof fn lemma_mines_are_fixed(v: BoardView)
    ensures
        v.after_reveal().mines == v.mines,
        v.after_flag().mines == v.mines,
        v.after_win_check().mines == v.mines,
        v.after_move_left().mines == v.mines,
        v.after_move_right().mines == v.mines,
        v.after_move_up().mines == v.mines,
        v.after_move_down().mines == v.mines,
{
}

/// The game is won exactly when the flags and the mines are the same cells;
/// a look that finds no win changes nothing, and a second look finds what
/// the first found.
pub proof fn lemma_win_check(v: BoardView)
    ensures
        v.is_won() <==> (forall|p: Pos| v.flags.contains(p) <==> v.mines.contains(p)),
        !v.is_won() ==> v.after_win_check() == v,
        v.is_won() ==> !v.after_win_check().alive,
        v.after_win_check().is_won() == v.is_won(),
        v.after_win_check().after_win_check() == v.after_win_check(),
        v.is_won() ==> v.mines_left() == 0,
{
    if forall|p: Pos| v.flags.contains(p) <==> v.mines.contains(p) {
        assert(v.flags =~= v.mines);
    }
}

} // verus!
