use vstd::prelude::*;
use rand::Rng;
use crate::board::{all_on_board, lemma_free_cell_exists, Pos};
use crate::error::ConfigError;
use crate::cells::holds;

verus! {

/// `a` comes no later than `b` when the board is read row by row.
pub open spec fn precedes(a: Pos, b: Pos) -> bool {
    a.1 < b.1 || (a.1 == b.1 && a.0 <= b.0)
}

/// `c` is a cell of the board that `mines` does not hold.
pub open spec fn is_free(mines: Seq<Pos>, w: usize, h: usize, c: Pos) -> bool {
    c.0 < w && c.1 < h && !mines.contains(c)
}

/// `c` is the first free cell at or after `from`, reading row by row.
pub open spec fn first_free_from(mines: Seq<Pos>, w: usize, h: usize, from: Pos, c: Pos) -> bool {
    &&& is_free(mines, w, h, c)
    &&& precedes(from, c)
    &&& forall|q: Pos| is_free(mines, w, h, q) && precedes(from, q) ==> precedes(c, q)
}

/// No cell at or after `from` is free.
pub open spec fn none_free_from(mines: Seq<Pos>, w: usize, h: usize, from: Pos) -> bool {
    forall|q: Pos| precedes(from, q) ==> !is_free(mines, w, h, q)
}

/// `c` is where a mine drawn for the cell `at` goes: the first free cell at
/// or after `at`, or, where none is left there, the first free cell of the
/// board.
pub open spec fn is_placement(mines: Seq<Pos>, w: usize, h: usize, at: Pos, c: Pos) -> bool {
    if none_free_from(mines, w, h, at) {
        first_free_from(mines, w, h, (0, 0), c)
    } else {
        first_free_from(mines, w, h, at, c)
    }
}

/// The first free cell at or after `(x, y)`, reading row by row.
pub fn scan_free_from(mines: &Vec<Pos>, width: usize, height: usize, x: usize, y: usize) -> (r:
    Option<Pos>)
    requires
        x < width,
        y < height,
    ensures
        r is None <==> none_free_from(mines@, width, height, (x, y)),
        r is Some ==> first_free_from(mines@, width, height, (x, y), r->Some_0),
{
    let mut cx: usize = x;
    let mut cy: usize = y;
    while cy < height
        invariant
            cx < width,
            cy <= height,
            x < width,
            y < height,
            cy < height ==> precedes((x, y), (cx, cy)),
            forall|q: Pos|
                precedes((x, y), q) && (q.1 < cy || (q.1 == cy && q.0 < cx)) ==> !is_free(
                    mines@,
                    width,
                    height,
                    q,
                ),
        decreases height - cy, width - cx,
    {
        if !holds(mines, cx, cy) {
            assert(is_free(mines@, width, height, (cx, cy)));
            return Some((cx, cy));
        }
        if cx < width - 1 {
            cx += 1;
        } else {
            cx = 0;
            cy += 1;
        }
    }
    None
}

/// Puts one more mine into a layout that still has a free cell: at the cell
/// `(x, y)` if it is free, else at the next free cell, reading row by row
/// and starting again at the top after the last row.
pub fn place_mine(mines: &mut Vec<Pos>, width: usize, height: usize, x: usize, y: usize)
    requires
        x < width,
        y < height,
        old(mines)@.no_duplicates(),
        all_on_board(old(mines)@, width as int, height as int),
        old(mines)@.len() < width * height,
    ensures
        final(mines)@.len() == old(mines)@.len() + 1,
        final(mines)@.drop_last() == old(mines)@,
        is_placement(old(mines)@, width, height, (x, y), final(mines)@.last()),
        final(mines)@.no_duplicates(),
        all_on_board(final(mines)@, width as int, height as int),
{
    let cell = match scan_free_from(mines, width, height, x, y) {
        Some(c) => c,
        None => {
            match scan_free_from(mines, width, height, 0, 0) {
                Some(c) => c,
                None => {
                    proof {
                        lemma_free_cell_exists(mines@, width as int, height as int);
                        let p = choose|p: Pos| p.0 < width && p.1 < height && !mines@.contains(p);
                        assert(is_free(mines@, width, height, p));
                        assert(precedes((0, 0), p));
                    }
                    (x, y)
                },
            }
        },
    };
    mines.push(cell);
    assert(mines@.drop_last() =~= old(mines)@);
}

/// A number below `bound`, drawn by `rand::thread_rng().gen_range(0..bound)`.
/// The contract claims only what holds of every draw: the number is below
/// `bound`. An empty range is left out, on which `gen_range` panics. Nothing
/// is claimed of how the draws are distributed, and the generator stops the
/// program where the system gives it no seed.
#[verifier::external_body]
fn random_below(bound: usize) -> (r: usize)
    requires
        bound > 0,
    ensures
        r < bound,
{
    rand::thread_rng().gen_range(0..bound)
}

/// How often a cell is drawn for one mine. While draws are left, a draw
/// that hits a mine is thrown away; the last draw is kept whatever it hits.
pub const DRAWS_PER_MINE: usize = 64;

/// A random layout of `nof_mines` mines on a board. For each mine cells are
/// drawn until one is free, and the mine is put there. Where the last of
/// `DRAWS_PER_MINE` draws hits a mine too, it goes where `place_mine` puts
/// it, so that the layout is complete after a bounded number of draws, on a
/// board full of mines too.
pub fn generate_mines(width: usize, height: usize, nof_mines: usize) -> (mines: Vec<Pos>)
    requires
        width > 0,
        height > 0,
        nof_mines <= width * height,
    ensures
        mines@.len() == nof_mines,
        mines@.no_duplicates(),
        all_on_board(mines@, width as int, height as int),
{
    let mut mines: Vec<Pos> = Vec::new();
    let mut draws_left: usize = DRAWS_PER_MINE;
    while mines.len() < nof_mines
        invariant
            width > 0,
            height > 0,
            nof_mines <= width * height,
            mines@.len() <= nof_mines,
            mines@.no_duplicates(),
            all_on_board(mines@, width as int, height as int),
        decreases nof_mines - mines@.len(), draws_left,
    {
        let x = random_below(width);
        let y = random_below(height);
        if draws_left <= 1 || !holds(&mines, x, y) {
            place_mine(&mut mines, width, height, x, y);
            draws_left = DRAWS_PER_MINE;
        } else {
            draws_left -= 1;
        }
    }
    mines
}

/// Whether one of the first `n` entries of `v` is the cell `(x, y)`.
fn holds_before(v: &Vec<Pos>, n: usize, x: usize, y: usize) -> (found: bool)
    requires
        n <= v@.len(),
    ensures
        found == exists|j: int| 0 <= j < n && v@[j] == (x, y),
{
    let mut j: usize = 0;
    while j < n
        invariant
            j <= n <= v@.len(),
            forall|k: int| 0 <= k < j ==> v@[k] != (x, y),
        decreases n - j,
    {
        if v[j].0 == x && v[j].1 == y {
            return true;
        }
        j += 1;
    }
    false
}

/// The error that a given layout earns, if any: first an empty board, then
/// a mine off the board, then a cell named twice.
pub open spec fn layout_fault(mines: Seq<Pos>, w: usize, h: usize) -> Option<ConfigError> {
    if w == 0 || h == 0 {
        Some(ConfigError::EmptyBoard)
    } else if !all_on_board(mines, w as int, h as int) {
        Some(ConfigError::MineOutOfRange)
    } else if !mines.no_duplicates() {
        Some(ConfigError::DuplicateMine)
    } else {
        None
    }
}

/// Checks a given layout against the board.
pub fn check_layout(width: usize, height: usize, mines: &Vec<Pos>) -> (r: Result<(), ConfigError>)
    ensures
        r is Ok <==> layout_fault(mines@, width, height) is None,
        r is Err ==> layout_fault(mines@, width, height) == Some(r->Err_0),
{
    if width == 0 || height == 0 {
        return Err(ConfigError::EmptyBoard);
    }
    let mut i: usize = 0;
    while i < mines.len()
        invariant
            width > 0,
            height > 0,
            i <= mines@.len(),
            forall|j: int| 0 <= j < i ==> (#[trigger] mines@[j]).0 < width && mines@[j].1 < height,
        decreases mines@.len() - i,
    {
        if mines[i].0 >= width || mines[i].1 >= height {
            assert(!all_on_board(mines@, width as int, height as int)) by {
                assert(!(mines@[i as int].0 < width && mines@[i as int].1 < height));
            }
            return Err(ConfigError::MineOutOfRange);
        }
        i += 1;
    }
    let mut i: usize = 0;
    while i < mines.len()
        invariant
            width > 0,
            height > 0,
            i <= mines@.len(),
            all_on_board(mines@, width as int, height as int),
            forall|j: int, k: int| 0 <= j < k < i ==> mines@[j] != mines@[k],
        decreases mines@.len() - i,
    {
        if holds_before(mines, i, mines[i].0, mines[i].1) {
            return Err(ConfigError::DuplicateMine);
        }
        i += 1;
    }
    Ok(())
}

} // verus!
