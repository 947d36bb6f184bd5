use vstd::prelude::*;
use crate::board::{
    all_on_board, column_order, lemma_distinct_cells_fit, lists_cells, BoardView, Pos,
};
use crate::cells::{holds, insert_cell, remove_cell};
use crate::error::{ConfigError, RangeError};
use crate::laws::{lemma_fill_is_bounded, lemma_fill_spreads};
use crate::layout::{check_layout, generate_mines, layout_fault};

verus! {

/// One game: the mines, what is opened and flagged, the cursor, and whether
/// the game still runs.
#[derive(Debug)]
pub struct GameState {
    mines: Vec<Pos>,
    opened: Vec<Pos>,
    flags: Vec<Pos>,
    player: Pos,
    width: usize,
    height: usize,
    is_alive: bool,
}

impl View for GameState {
    type V = BoardView;

    closed spec fn view(&self) -> BoardView {
        BoardView {
            width: self.width,
            height: self.height,
            mines: self.mines@.to_set(),
            opened: self.opened@.to_set(),
            flags: self.flags@.to_set(),
            player: self.player,
            alive: self.is_alive,
        }
    }
}

impl GameState {
    /// A new game on a board `width` wide and `height` high with `nof_mines`
    /// mines at random cells. Nothing is opened or flagged, and the cursor is
    /// at the top left. A board without cells is refused, and so are more
    /// mines than the board has cells; any other game is made.
    pub fn new(width: usize, height: usize, nof_mines: usize) -> (r: Result<GameState, ConfigError>)
        ensures
            width == 0 || height == 0 ==> r == Err::<GameState, ConfigError>(
                ConfigError::EmptyBoard,
            ),
            width > 0 && height > 0 && nof_mines > width * height ==> r == Err::<
                GameState,
                ConfigError,
            >(ConfigError::TooManyMines),
            width > 0 && height > 0 && nof_mines <= width * height ==> r is Ok,
            r is Ok ==> {
                let g = r->Ok_0;
                &&& g.wf()
                &&& g@.width == width
                &&& g@.height == height
                &&& g@.mines.len() == nof_mines
                &&& g@.opened == Set::<Pos>::empty()
                &&& g@.flags == Set::<Pos>::empty()
                &&& g@.player == (0usize, 0usize)
                &&& g@.alive
                &&& g@.mines_left() == nof_mines
            },
    {
        if width == 0 || height == 0 {
            return Err(ConfigError::EmptyBoard);
        }
        let fits = match width.checked_mul(height) {
            Some(cells) => nof_mines <= cells,
            None => true,
        };
        if !fits {
            return Err(ConfigError::TooManyMines);
        }
        let mines = generate_mines(width, height, nof_mines);
        proof {
            mines@.unique_seq_to_set();
        }
        Ok(GameState::from_layout(width, height, mines))
    }

    /// A new game with the given mines. Nothing is opened or flagged, and the
    /// cursor is at the top left. The game is made exactly when the layout
    /// has no fault; else the fault is returned.
    pub fn with_mines(width: usize, height: usize, mines: Vec<Pos>) -> (r: Result<
        GameState,
        ConfigError,
    >)
        ensures
            r is Ok <==> layout_fault(mines@, width, height) is None,
            r is Err ==> layout_fault(mines@, width, height) == Some(r->Err_0),
            r is Ok ==> {
                let g = r->Ok_0;
                &&& g.wf()
                &&& g@.width == width
                &&& g@.height == height
                &&& g@.mines == mines@.to_set()
                &&& g@.opened == Set::<Pos>::empty()
                &&& g@.flags == Set::<Pos>::empty()
                &&& g@.player == (0usize, 0usize)
                &&& g@.alive
                &&& g@.mines_left() == mines@.len()
            },
    {
        match check_layout(width, height, &mines) {
            Ok(()) => {
                proof {
                    mines@.unique_seq_to_set();
                }
                Ok(GameState::from_layout(width, height, mines))
            },
            Err(e) => Err(e),
        }
    }

    /// The game at its start, on a layout that fits the board.
    fn from_layout(width: usize, height: usize, mines: Vec<Pos>) -> (g: GameState)
        requires
            width > 0,
            height > 0,
            mines@.no_duplicates(),
            all_on_board(mines@, width as int, height as int),
        ensures
            g.wf(),
            g@ == (BoardView {
                width,
                height,
                mines: mines@.to_set(),
                opened: Set::<Pos>::empty(),
                flags: Set::<Pos>::empty(),
                player: (0usize, 0usize),
                alive: true,
            }),
    {
        let g = GameState {
            mines,
            opened: Vec::new(),
            flags: Vec::new(),
            player: (0, 0),
            width,
            height,
            is_alive: true,
        };
        proof {
            broadcast use vstd::seq_lib::seq_to_set_is_finite;

            assert(g.opened@.to_set() =~= Set::<Pos>::empty());
            assert(g.flags@.to_set() =~= Set::<Pos>::empty());
            assert forall|p: Pos| #[trigger] g@.mines.contains(p) implies g@.in_range(p) by {
                let j = choose|j: int| 0 <= j < mines@.len() && mines@[j] == p;
                assert(mines@[j].0 < width);
            }
        }
        g
    }

    /// The vectors hold no cell twice.
    pub closed spec fn distinct(&self) -> bool {
        &&& self.mines@.no_duplicates()
        &&& self.opened@.no_duplicates()
        &&& self.flags@.no_duplicates()
    }

    /// The game is well formed: every operation keeps it so.
    pub open spec fn wf(&self) -> bool {
        self.distinct() && self@.valid()
    }

    /// Well formed but for the mines that are opened: what holds while they
    /// are opened one by one.
    pub open spec fn wf_core(&self) -> bool {
        self.distinct() && self@.sound()
    }

    /// The board's width.
    pub fn width(&self) -> (w: usize)
        ensures
            w == self@.width,
    {
        self.width
    }

    /// The board's height.
    pub fn height(&self) -> (h: usize)
        ensures
            h == self@.height,
    {
        self.height
    }

    /// The cell under the cursor.
    pub fn player(&self) -> (p: Pos)
        ensures
            p == self@.player,
    {
        self.player
    }

    /// Whether the game still runs.
    pub fn is_alive(&self) -> (a: bool)
        ensures
            a == self@.alive,
    {
        self.is_alive
    }

    /// `Ok` for a cell of the board, the error for any other.
    pub fn is_in_range(&self, x: usize, y: usize) -> (r: Result<(), RangeError>)
        ensures
            r is Ok <==> self@.in_range((x, y)),
    {
        if x >= self.width || y >= self.height {
            return Err(RangeError);
        }
        Ok(())
    }

    /// Whether the cell holds a mine.
    pub fn has_mine(&self, x: usize, y: usize) -> (r: Result<bool, RangeError>)
        ensures
            r is Ok <==> self@.in_range((x, y)),
            r is Ok ==> r->Ok_0 == self@.mines.contains((x, y)),
    {
        match self.is_in_range(x, y) {
            Ok(()) => Ok(holds(&self.mines, x, y)),
            Err(e) => Err(e),
        }
    }

    /// Whether the cell is opened.
    pub fn is_opened(&self, x: usize, y: usize) -> (r: Result<bool, RangeError>)
        ensures
            r is Ok <==> self@.in_range((x, y)),
            r is Ok ==> r->Ok_0 == self@.opened.contains((x, y)),
    {
        match self.is_in_range(x, y) {
            Ok(()) => Ok(holds(&self.opened, x, y)),
            Err(e) => Err(e),
        }
    }

    /// Whether the cell is flagged.
    pub fn is_flagged(&self, x: usize, y: usize) -> (r: Result<bool, RangeError>)
        ensures
            r is Ok <==> self@.in_range((x, y)),
            r is Ok ==> r->Ok_0 == self@.flags.contains((x, y)),
    {
        match self.is_in_range(x, y) {
            Ok(()) => Ok(holds(&self.flags, x, y)),
            Err(e) => Err(e),
        }
    }

    /// Whether the cursor is on the cell.
    pub fn is_player(&self, x: usize, y: usize) -> (r: Result<bool, RangeError>)
        ensures
            r is Ok <==> self@.in_range((x, y)),
            r is Ok ==> r->Ok_0 == (self@.player == (x, y)),
    {
        match self.is_in_range(x, y) {
            Ok(()) => Ok(self.player.0 == x && self.player.1 == y),
            Err(e) => Err(e),
        }
    }

    /// 1 if `(x, y)` holds a mine, else 0.
    fn mine_count_at(&self, x: usize, y: usize) -> (n: u8)
        ensures
            n == self@.mine_at(x as int, y as int),
    {
        if holds(&self.mines, x, y) {
            1
        } else {
            0
        }
    }

    /// The number of mines around a cell of the board.
    fn mines_near(&self, x: usize, y: usize) -> (n: u8)
        requires
            self.wf_core(),
            self@.in_range((x, y)),
        ensures
            n == self@.mines_around((x, y)),
    {
        let mut n: u8 = 0;
        let right = x < self.width - 1;
        let below = y < self.height - 1;
        if y > 0 {
            if x > 0 {
                n += self.mine_count_at(x - 1, y - 1);
            }
            n += self.mine_count_at(x, y - 1);
            if right {
                n += self.mine_count_at(x + 1, y - 1);
            }
        }
        if x > 0 {
            n += self.mine_count_at(x - 1, y);
        }
        if right {
            n += self.mine_count_at(x + 1, y);
        }
        if below {
            if x > 0 {
                n += self.mine_count_at(x - 1, y + 1);
            }
            n += self.mine_count_at(x, y + 1);
            if right {
                n += self.mine_count_at(x + 1, y + 1);
            }
        }
        n
    }

    /// The cells of the board, or only those that are not opened, column by
    /// column.
    fn cells_where(&self, only_closed: bool) -> (cells: Vec<Pos>)
        ensures
            lists_cells(
                cells@,
                if only_closed {
                    self@.closed_cells()
                } else {
                    self@.all_cells()
                },
            ),
            !only_closed ==> cells@.len() == self@.width * self@.height,
    {
        let ghost wanted = if only_closed {
            self@.closed_cells()
        } else {
            self@.all_cells()
        };
        let mut cells: Vec<Pos> = Vec::new();
        let mut x: usize = 0;
        while x < self.width
            invariant
                x <= self.width,
                wanted == (if only_closed {
                    self@.closed_cells()
                } else {
                    self@.all_cells()
                }),
                !only_closed ==> cells@.len() == x * self.height,
                forall|i: int, j: int| 0 <= i < j < cells@.len() ==> column_order(cells@[i], cells@[j]),
                forall|k: int|
                    0 <= k < cells@.len() ==> wanted.contains(#[trigger] cells@[k]) && cells@[k].0
                        < x,
                forall|p: Pos| #[trigger] wanted.contains(p) && p.0 < x ==> cells@.contains(p),
            decreases self.width - x,
        {
            let mut y: usize = 0;
            while y < self.height
                invariant
                    x < self.width,
                    y <= self.height,
                    wanted == (if only_closed {
                        self@.closed_cells()
                    } else {
                        self@.all_cells()
                    }),
                    !only_closed ==> cells@.len() == x * self.height + y,
                    forall|i: int, j: int|
                        0 <= i < j < cells@.len() ==> column_order(cells@[i], cells@[j]),
                    forall|k: int|
                        0 <= k < cells@.len() ==> wanted.contains(#[trigger] cells@[k])
                            && column_order(cells@[k], (x, y)),
                    forall|p: Pos| #[trigger]
                        wanted.contains(p) && column_order(p, (x, y)) ==> cells@.contains(p),
                decreases self.height - y,
            {
                if !only_closed || !holds(&self.opened, x, y) {
                    let ghost before = cells@;
                    cells.push((x, y));
                    proof {
                        assert forall|p: Pos| #[trigger]
                            wanted.contains(p) && column_order(
                                p,
                                (x, (y + 1) as usize),
                            ) implies cells@.contains(p) by {
                            if p == (x, y) {
                                assert(cells@[before.len() as int] == p);
                            } else {
                                let k = choose|k: int| 0 <= k < before.len() && before[k] == p;
                                assert(cells@[k] == p);
                            }
                        }
                    }
                }
                y += 1;
            }
            proof {
                assert(x * self.height + self.height == (x + 1) * self.height)
                    by (nonlinear_arith);
            }
            x += 1;
        }
        cells
    }

    /// Every cell of the board, column by column.
    pub fn all(&self) -> (cells: Vec<Pos>)
        ensures
            lists_cells(cells@, self@.all_cells()),
            cells@.len() == self@.width * self@.height,
    {
        self.cells_where(false)
    }

    /// The cells that are not opened, column by column.
    pub fn closed(&self) -> (cells: Vec<Pos>)
        ensures
            lists_cells(cells@, self@.closed_cells()),
    {
        self.cells_where(true)
    }

    /// The number of mines among the up to eight neighbours of the cell.
    pub fn count_mines_around(&self, x: usize, y: usize) -> (r: Result<u8, RangeError>)
        requires
            self.wf(),
        ensures
            r is Ok <==> self@.in_range((x, y)),
            r is Ok ==> r->Ok_0 == self@.mines_around((x, y)),
    {
        match self.is_in_range(x, y) {
            Ok(()) => Ok(self.mines_near(x, y)),
            Err(e) => Err(e),
        }
    }

    /// Mines minus flags.
    pub fn mines_left(&self) -> (n: i128)
        requires
            self.wf(),
        ensures
            n == self@.mines_left(),
    {
        proof {
            self.mines@.unique_seq_to_set();
            self.flags@.unique_seq_to_set();
        }
        self.mines.len() as i128 - self.flags.len() as i128
    }

    /// Moves the cursor a column to the right, unless it is at the edge or
    /// the game is over.
    pub fn move_player_right(&mut self)
        requires
            old(self).wf(),
        ensures
            final(self).wf(),
            final(self)@ == old(self)@.after_move_right(),
    {
        if self.is_alive && self.player.0 < self.width - 1 {
            self.player.0 += 1;
        }
    }

    /// Moves the cursor a column to the left, unless it is at the edge or
    /// the game is over.
    pub fn move_player_left(&mut self)
        requires
            old(self).wf(),
        ensures
            final(self).wf(),
            final(self)@ == old(self)@.after_move_left(),
    {
        if self.is_alive && self.player.0 > 0 {
            self.player.0 -= 1;
        }
    }

    /// Moves the cursor a row up, unless it is at the edge or the game is
    /// over.
    pub fn move_player_up(&mut self)
        requires
            old(self).wf(),
        ensures
            final(self).wf(),
            final(self)@ == old(self)@.after_move_up(),
    {
        if self.is_alive && self.player.1 > 0 {
            self.player.1 -= 1;
        }
    }

    /// Moves the cursor a row down, unless it is at the edge or the game is
    /// over.
    pub fn move_player_down(&mut self)
        requires
            old(self).wf(),
        ensures
            final(self).wf(),
            final(self)@ == old(self)@.after_move_down(),
    {
        if self.is_alive && self.player.1 < self.height - 1 {
            self.player.1 += 1;
        }
    }

    /// Lets a finished game run again. Nothing else changes: what was opened
    /// stays open, mines included, and what was flagged stays flagged. This
    /// is no restart.
    pub fn resurect(&mut self)
        requires
            old(self).wf(),
        ensures
            final(self).wf(),
            final(self)@ == (BoardView { alive: true, ..old(self)@ }),
    {
        self.is_alive = true;
    }

    /// Toggles the flag under the cursor. Nothing happens once the game is
    /// over, or on an opened cell.
    pub fn flag(&mut self) -> (r: Result<(), RangeError>)
        requires
            old(self).wf(),
        ensures
            r is Ok,
            final(self).wf(),
            final(self)@ == old(self)@.after_flag(),
    {
        let x = self.player.0;
        let y = self.player.1;
        if !self.is_alive || holds(&self.opened, x, y) {
            return Ok(());
        }
        if holds(&self.flags, x, y) {
            remove_cell(&mut self.flags, x, y);
        } else {
            insert_cell(&mut self.flags, x, y);
        }
        proof {
            broadcast use vstd::seq_lib::seq_to_set_is_finite;

            assert(self@ =~= old(self)@.after_flag());
        }
        Ok(())
    }

    /// The opened cells are at most as many as the board has cells.
    proof fn lemma_opened_fits(&self)
        requires
            self.wf_core(),
        ensures
            self.opened@.len() <= self.width * self.height,
    {
        let s = self.opened@;
        assert(all_on_board(s, self.width as int, self.height as int)) by {
            assert forall|i: int| 0 <= i < s.len() implies (#[trigger] s[i]).0 < self.width
                && s[i].1 < self.height by {
                assert(s.to_set().contains(s[i]));
            }
        }
        lemma_distinct_cells_fit(s, self.width as int, self.height as int);
    }

    /// Opens a cell of the board.
    fn open(&mut self, x: usize, y: usize)
        requires
            old(self).wf_core(),
            old(self)@.in_range((x, y)),
            old(self)@.flags.contains((x, y)) ==> old(self)@.mines.contains((x, y)),
        ensures
            final(self).wf_core(),
            final(self)@ == (BoardView {
                opened: old(self)@.opened.insert((x, y)),
                ..old(self)@
            }),
            final(self).opened@.len() == old(self).opened@.len() + (if old(self)@.opened.contains(
                (x, y),
            ) {
                0int
            } else {
                1int
            }),
            final(self).mines == old(self).mines,
            final(self).flags == old(self).flags,
    {
        insert_cell(&mut self.opened, x, y);
        proof {
            broadcast use vstd::seq_lib::seq_to_set_is_finite;

            assert(self@ =~= (BoardView {
                opened: old(self)@.opened.insert((x, y)),
                ..old(self)@
            }));
        }
    }

    /// Opens every mine.
    fn show_all_mines(&mut self)
        requires
            old(self).wf_core(),
        ensures
            final(self).wf(),
            final(self)@ == (BoardView {
                opened: old(self)@.opened + old(self)@.mines,
                ..old(self)@
            }),
    {
        let mut i: usize = 0;
        while i < self.mines.len()
            invariant
                self.wf_core(),
                i <= self.mines.len(),
                self.mines == old(self).mines,
                self@ == (BoardView { opened: self@.opened, ..old(self)@ }),
                old(self)@.opened.subset_of(self@.opened),
                forall|j: int| 0 <= j < i ==> self@.opened.contains(#[trigger] self.mines@[j]),
                forall|p: Pos| #[trigger]
                    self@.opened.contains(p) ==> old(self)@.opened.contains(p)
                        || old(self)@.mines.contains(p),
            decreases self.mines.len() - i,
        {
            let m = self.mines[i];
            assert(self@.mines.contains(m)) by {
                assert(self.mines@[i as int] == m);
            }
            self.open(m.0, m.1);
            i += 1;
        }
        proof {
            assert(self@.opened =~= old(self)@.opened + old(self)@.mines) by {
                assert forall|p: Pos| old(self)@.mines.contains(p) implies self@.opened.contains(
                    p,
                ) by {
                    let j = choose|j: int| 0 <= j < self.mines@.len() && self.mines@[j] == p;
                    assert(self@.opened.contains(self.mines@[j]));
                }
            }
        }
    }

    /// Puts `(x, y)` on the stack if a flood fill may enter it.
    fn try_enter(&self, stack: &mut Vec<Pos>, x: usize, y: usize)
        requires
            self@.in_range((x, y)),
        ensures
            final(stack)@ == (if self@.can_spread_to((x, y)) {
                old(stack)@.push((x, y))
            } else {
                old(stack)@
            }),
    {
        if !holds(&self.opened, x, y) && !holds(&self.mines, x, y) && !holds(&self.flags, x, y) {
            stack.push((x, y));
        }
    }

    /// Where no mine is around `(x, y)`, puts on the stack each of its four
    /// neighbours that a flood fill may enter.
    fn spread_from(&self, stack: &mut Vec<Pos>, x: usize, y: usize)
        requires
            self.wf_core(),
            self@.in_range((x, y)),
        ensures
            old(stack)@.len() <= final(stack)@.len(),
            forall|i: int| 0 <= i < old(stack)@.len() ==> final(stack)@[i] == old(stack)@[i],
            forall|i: int|
                old(stack)@.len() <= i < final(stack)@.len() ==> self@.spreads(
                    (x, y),
                    #[trigger] final(stack)@[i],
                ) && self@.can_spread_to(final(stack)@[i]),
            forall|q: Pos| #[trigger]
                self@.spreads((x, y), q) && self@.can_spread_to(q) ==> final(stack)@.contains(q),
    {
        if self.mines_near(x, y) == 0 {
            if x > 0 {
                self.try_enter(stack, x - 1, y);
            }
            let ghost s1 = stack@;
            if y > 0 {
                self.try_enter(stack, x, y - 1);
            }
            let ghost s2 = stack@;
            if x < self.width - 1 {
                self.try_enter(stack, x + 1, y);
            }
            let ghost s3 = stack@;
            if y < self.height - 1 {
                self.try_enter(stack, x, y + 1);
            }
            proof {
                let s4 = stack@;
                assert forall|q: Pos| #[trigger]
                    self@.spreads((x, y), q) && self@.can_spread_to(q) implies s4.contains(
                    q,
                ) by {
                    if q.0 + 1 == x {
                        assert(s1[s1.len() - 1] == q);
                        assert(s4[s1.len() - 1] == q);
                    } else if q.1 + 1 == y {
                        assert(s2[s2.len() - 1] == q);
                        assert(s4[s2.len() - 1] == q);
                    } else if x + 1 == q.0 {
                        assert(s3[s3.len() - 1] == q);
                        assert(s4[s3.len() - 1] == q);
                    } else {
                        assert(s4[s4.len() - 1] == q);
                    }
                }
            }
        }
    }

    /// Opens `(x, y)` and all that a flood fill from it reaches.
    fn flood_open(&mut self, x: usize, y: usize)
        requires
            old(self).wf(),
            old(self)@.in_range((x, y)),
            !old(self)@.mines.contains((x, y)),
            !old(self)@.flags.contains((x, y)),
        ensures
            final(self).wf(),
            final(self)@ == (BoardView {
                opened: old(self)@.opened + old(self)@.fill_region((x, y)),
                ..old(self)@
            }),
    {
        let ghost v0 = self@;
        let ghost start: Pos = (x, y);
        self.open(x, y);
        let mut stack: Vec<Pos> = Vec::new();
        self.spread_from(&mut stack, x, y);
        proof {
            assert(v0.reaches_in(start, start, 0));
            assert forall|i: int| 0 <= i < stack@.len() implies v0.can_spread_to(
                #[trigger] stack@[i],
            ) && v0.fill_reaches(start, stack@[i]) by {
                lemma_fill_spreads(v0, start, start, stack@[i]);
            }
            assert forall|c: Pos, q: Pos|
                (c == start || !v0.opened.contains(c)) && self@.opened.contains(c)
                    && #[trigger] v0.spreads(c, q) && v0.can_spread_to(
                    q,
                ) implies self@.opened.contains(q) || stack@.contains(q) by {
                if self@.can_spread_to(q) {
                    assert(self@.spreads(start, q));
                }
            }
        }
        while stack.len() > 0
            invariant
                self.wf_core(),
                !v0.mines.contains(start),
                v0.mines_all_or_none(),
                v0 == old(self)@,
                start == (x, y),
                v0.in_range(start),
                self@ == (BoardView { opened: self@.opened, ..v0 }),
                v0.opened.subset_of(self@.opened),
                self@.opened.contains(start),
                forall|p: Pos| #[trigger]
                    self@.opened.contains(p) ==> v0.opened.contains(p) || v0.fill_reaches(start, p),
                forall|i: int|
                    0 <= i < stack@.len() ==> v0.can_spread_to(#[trigger] stack@[i])
                        && v0.fill_reaches(start, stack@[i]),
                forall|c: Pos, q: Pos|
                    (c == start || !v0.opened.contains(c)) && self@.opened.contains(c)
                        && #[trigger] v0.spreads(c, q) && v0.can_spread_to(q)
                        ==> self@.opened.contains(q) || stack@.contains(q),
            decreases self.width * self.height - self.opened@.len(), stack@.len(),
        {
            let ghost before = stack@;
            let ghost opened_before = self@.opened;
            let c = stack.pop().unwrap();
            let ghost rest = stack@;
            assert(before[before.len() - 1] == c);
            assert(forall|q: Pos| before.contains(q) ==> q == c || rest.contains(q)) by {
                assert forall|q: Pos| before.contains(q) implies q == c || rest.contains(q) by {
                    let j = choose|j: int| 0 <= j < before.len() && before[j] == q;
                    if j < rest.len() {
                        assert(rest[j] == q);
                    }
                }
            }
            if !holds(&self.opened, c.0, c.1) {
                self.open(c.0, c.1);
                proof {
                    self.lemma_opened_fits();
                }
                self.spread_from(&mut stack, c.0, c.1);
                proof {
                    let now = stack@;
                    assert forall|i: int| 0 <= i < now.len() implies v0.can_spread_to(
                        #[trigger] now[i],
                    ) && v0.fill_reaches(start, now[i]) by {
                        if i < rest.len() {
                            assert(now[i] == rest[i]);
                            assert(rest[i] == before[i]);
                        } else {
                            lemma_fill_spreads(v0, start, c, now[i]);
                        }
                    }
                    assert forall|a: Pos, q: Pos|
                        (a == start || !v0.opened.contains(a)) && self@.opened.contains(a)
                            && #[trigger] v0.spreads(a, q) && v0.can_spread_to(
                            q,
                        ) implies self@.opened.contains(q) || now.contains(q) by {
                        if a == c {
                            if self@.can_spread_to(q) {
                                assert(self@.spreads(c, q));
                            }
                        } else {
                            assert(opened_before.contains(a));
                            if !opened_before.contains(q) && q != c {
                                assert(before.contains(q));
                                assert(rest.contains(q));
                                let j = choose|j: int| 0 <= j < rest.len() && rest[j] == q;
                                assert(now[j] == q);
                            }
                        }
                    }
                }
            }
        }
        proof {
            assert forall|q: Pos| v0.fill_reaches(start, q) implies self@.opened.contains(q) by {
                let n = choose|n: nat| v0.reaches_in(start, q, n);
                lemma_closed_holds_region(v0, self@.opened, start, q, n);
            }
            assert(self@.opened =~= v0.opened + v0.fill_region(start));
            assert forall|p: Pos| self@.mines.contains(p) && #[trigger] self@.opened.contains(
                p,
            ) implies v0.opened.contains(p) by {
                if v0.fill_reaches(start, p) && p != start {
                    lemma_fill_is_bounded(v0, start, p);
                }
            }
        }
    }

    /// Reveals the cell under the cursor. Nothing happens once the game is
    /// over, or on a flagged cell. A mine ends the game and opens every
    /// mine. Any other cell is opened, and a flood fill goes on from it.
    pub fn reveal_cell(&mut self) -> (r: Result<(), RangeError>)
        requires
            old(self).wf(),
        ensures
            r is Ok,
            final(self).wf(),
            final(self)@ == old(self)@.after_reveal(),
    {
        if !self.is_alive {
            return Ok(());
        }
        let x = self.player.0;
        let y = self.player.1;
        if holds(&self.flags, x, y) {
            return Ok(());
        }
        if holds(&self.mines, x, y) {
            self.is_alive = false;
            self.show_all_mines();
            assert(self@ =~= old(self)@.after_reveal());
            return Ok(());
        }
        self.flood_open(x, y);
        Ok(())
    }

    /// Whether the flags mark the mines and nothing else. If so, the game is
    /// over; if not, nothing changes.
    pub fn check_has_won(&mut self) -> (won: bool)
        requires
            old(self).wf(),
        ensures
            final(self).wf(),
            won == old(self)@.is_won(),
            final(self)@ == old(self)@.after_win_check(),
    {
        proof {
            self.mines@.unique_seq_to_set();
            self.flags@.unique_seq_to_set();
        }
        if self.flags.len() != self.mines.len() {
            return false;
        }
        let mut i: usize = 0;
        while i < self.flags.len()
            invariant
                i <= self.flags.len(),
                *self == *old(self),
                self.wf(),
                forall|j: int| 0 <= j < i ==> self.mines@.contains(#[trigger] self.flags@[j]),
            decreases self.flags.len() - i,
        {
            let f = self.flags[i];
            if !holds(&self.mines, f.0, f.1) {
                assert(self@.flags.contains(f)) by {
                    assert(self.flags@[i as int] == f);
                }
                return false;
            }
            i += 1;
        }
        proof {
            assert(self@.flags.subset_of(self@.mines)) by {
                assert forall|p: Pos| self@.flags.contains(p) implies self@.mines.contains(p) by {
                    let j = choose|j: int| 0 <= j < self.flags@.len() && self.flags@[j] == p;
                    assert(self.mines@.contains(self.flags@[j]));
                }
            }
            vstd::set_lib::lemma_subset_equality(self@.flags, self@.mines);
            assert(self@.flags =~= self@.mines);
        }
        self.is_alive = false;
        true
    }
}

/// A set that holds `start` and is closed under the steps of a flood fill
/// holds all that the flood fill reaches.
proof fn lemma_closed_holds_region(v: BoardView, opened: Set<Pos>, start: Pos, q: Pos, n: nat)
    requires
        opened.contains(start),
        forall|c: Pos, p: Pos|
            (c == start || !v.opened.contains(c)) && opened.contains(c) && #[trigger] v.spreads(
                c,
                p,
            ) && v.can_spread_to(p) ==> opened.contains(p),
        v.reaches_in(start, q, n),
    ensures
        opened.contains(q),
    decreases n,
{
    if q != start {
        let c = choose|c: Pos|
            #[trigger] v.spreads(c, q) && v.reaches_in(start, c, (n - 1) as nat);
        lemma_closed_holds_region(v, opened, start, c, (n - 1) as nat);
    }
}

} // verus!
