use vstd::prelude::*;

verus! {

/// A cell of the board: column, then row.
pub type Pos = (usize, usize);

/// The mathematical picture of a game: what the contracts speak of.
#[verifier::ext_equal]
pub struct BoardView {
    pub width: usize,
    pub height: usize,
    pub mines: Set<Pos>,
    pub opened: Set<Pos>,
    pub flags: Set<Pos>,
    pub player: Pos,
    pub alive: bool,
}

/// The cells of row `y` in the columns below `w`.
pub open spec fn row_cells(w: int, y: usize) -> Set<Pos> {
    Set::new(|p: Pos| p.0 < w && p.1 == y)
}

/// The cells of a board `w` wide and `h` high.
pub open spec fn grid_cells(w: int, h: int) -> Set<Pos> {
    Set::new(|p: Pos| p.0 < w && p.1 < h)
}

/// Two cells that share an edge.
pub open spec fn cardinal(a: Pos, b: Pos) -> bool {
    ||| (a.1 == b.1 && (a.0 + 1 == b.0 || b.0 + 1 == a.0))
    ||| (a.0 == b.0 && (a.1 + 1 == b.1 || b.1 + 1 == a.1))
}

/// `a` comes before `b` when the board is read column by column.
pub open spec fn column_order(a: Pos, b: Pos) -> bool {
    a.0 < b.0 || (a.0 == b.0 && a.1 < b.1)
}

/// `s` lists the cells of `cells`, each once, column by column.
pub open spec fn lists_cells(s: Seq<Pos>, cells: Set<Pos>) -> bool {
    &&& forall|i: int, j: int| 0 <= i < j < s.len() ==> column_order(s[i], s[j])
    &&& forall|p: Pos| s.contains(p) <==> cells.contains(p)
}

/// Every entry of `s` lies on a board `w` wide and `h` high.
pub open spec fn all_on_board(s: Seq<Pos>, w: int, h: int) -> bool {
    forall|i: int| 0 <= i < s.len() ==> (#[trigger] s[i]).0 < w && s[i].1 < h
}

impl BoardView {
    /// `p` lies on the board.
    pub open spec fn in_range(self, p: Pos) -> bool {
        p.0 < self.width && p.1 < self.height
    }

    /// What a well-formed game always satisfies.
    pub open spec fn valid(self) -> bool {
        &&& self.sound()
        &&& self.mines_all_or_none()
    }

    /// If one mine is opened, every mine is: mines are opened only when the
    /// game is lost, and then all at once.
    pub open spec fn mines_all_or_none(self) -> bool {
        forall|p: Pos, q: Pos|
            self.mines.contains(p) && #[trigger] self.opened.contains(p)
                && #[trigger] self.mines.contains(q) ==> self.opened.contains(q)
    }

    /// The board has cells, the cursor and all that is marked lie on it, and
    /// a cell that is both flagged and opened holds a mine.
    pub open spec fn sound(self) -> bool {
        &&& self.width > 0
        &&& self.height > 0
        &&& self.in_range(self.player)
        &&& self.mines.finite()
        &&& self.opened.finite()
        &&& self.flags.finite()
        &&& forall|p: Pos| #[trigger] self.mines.contains(p) ==> self.in_range(p)
        &&& forall|p: Pos| #[trigger] self.opened.contains(p) ==> self.in_range(p)
        &&& forall|p: Pos| #[trigger] self.flags.contains(p) ==> self.in_range(p)
        &&& forall|p: Pos|
            #[trigger] self.flags.contains(p) && self.opened.contains(p) ==> self.mines.contains(p)
    }

    /// The cells of the board.
    pub open spec fn all_cells(self) -> Set<Pos> {
        Set::new(|p: Pos| self.in_range(p))
    }

    /// The cells of the board that are not opened.
    pub open spec fn closed_cells(self) -> Set<Pos> {
        Set::new(|p: Pos| self.in_range(p) && !self.opened.contains(p))
    }

    /// 1 if `(x, y)` holds a mine, else 0. Coordinates off the board count 0.
    pub open spec fn mine_at(self, x: int, y: int) -> int {
        if 0 <= x <= usize::MAX && 0 <= y <= usize::MAX && self.mines.contains(
            (x as usize, y as usize),
        ) {
            1
        } else {
            0
        }
    }

    /// The number of mines among the up to eight neighbours of `p`.
    pub open spec fn mines_around(self, p: Pos) -> int {
        self.mine_at(p.0 - 1, p.1 - 1) + self.mine_at(p.0 + 0, p.1 - 1) + self.mine_at(
            p.0 + 1,
            p.1 - 1,
        ) + self.mine_at(p.0 - 1, p.1 + 0) + self.mine_at(p.0 + 1, p.1 + 0) + self.mine_at(
            p.0 - 1,
            p.1 + 1,
        ) + self.mine_at(p.0 + 0, p.1 + 1) + self.mine_at(p.0 + 1, p.1 + 1)
    }

    /// Mines minus flags; negative once more cells are flagged than mined.
    pub open spec fn mines_left(self) -> int {
        self.mines.len() - self.flags.len()
    }

    /// A flood fill may enter `q`: it is on the board, closed, no mine and
    /// not flagged.
    pub open spec fn can_spread_to(self, q: Pos) -> bool {
        &&& self.in_range(q)
        &&& !self.opened.contains(q)
        &&& !self.mines.contains(q)
        &&& !self.flags.contains(q)
    }

    /// A flood fill that has opened `c` goes on to its neighbour `q`: `c` has
    /// no mine around it.
    pub open spec fn spreads(self, c: Pos, q: Pos) -> bool {
        self.in_range(c) && self.mines_around(c) == 0 && cardinal(c, q)
    }

    /// A flood fill from `start` opens `q` after at most `n` steps.
    pub open spec fn reaches_in(self, start: Pos, q: Pos, n: nat) -> bool
        decreases n,
    {
        q == start || (n > 0 && self.can_spread_to(q) && exists|c: Pos|
            #[trigger] self.spreads(c, q) && self.reaches_in(start, c, (n - 1) as nat))
    }

    /// A flood fill from `start` opens `q`.
    pub open spec fn fill_reaches(self, start: Pos, q: Pos) -> bool {
        exists|n: nat| self.reaches_in(start, q, n)
    }

    /// All that a flood fill from `start` opens: `start`, and from each cell
    /// without a mine around it the neighbours that it may enter.
    pub open spec fn fill_region(self, start: Pos) -> Set<Pos> {
        Set::new(|q: Pos| self.fill_reaches(start, q))
    }

    /// The game after the cursor moved a column to the right.
    pub open spec fn after_move_right(self) -> BoardView {
        if self.alive && self.player.0 + 1 < self.width {
            BoardView { player: ((self.player.0 + 1) as usize, self.player.1), ..self }
        } else {
            self
        }
    }

    /// The game after the cursor moved a column to the left.
    pub open spec fn after_move_left(self) -> BoardView {
        if self.alive && self.player.0 > 0 {
            BoardView { player: ((self.player.0 - 1) as usize, self.player.1), ..self }
        } else {
            self
        }
    }

    /// The game after the cursor moved a row up.
    pub open spec fn after_move_up(self) -> BoardView {
        if self.alive && self.player.1 > 0 {
            BoardView { player: (self.player.0, (self.player.1 - 1) as usize), ..self }
        } else {
            self
        }
    }

    /// The game after the cursor moved a row down.
    pub open spec fn after_move_down(self) -> BoardView {
        if self.alive && self.player.1 + 1 < self.height {
            BoardView { player: (self.player.0, (self.player.1 + 1) as usize), ..self }
        } else {
            self
        }
    }

    /// The game after the flag under the cursor was toggled.
    pub open spec fn after_flag(self) -> BoardView {
        if !self.alive || self.opened.contains(self.player) {
            self
        } else if self.flags.contains(self.player) {
            BoardView { flags: self.flags.remove(self.player), ..self }
        } else {
            BoardView { flags: self.flags.insert(self.player), ..self }
        }
    }

    /// The game after the cell under the cursor was revealed.
    pub open spec fn after_reveal(self) -> BoardView {
        if !self.alive || self.flags.contains(self.player) {
            self
        } else if self.mines.contains(self.player) {
            BoardView { opened: self.opened + self.mines, alive: false, ..self }
        } else {
            BoardView { opened: self.opened + self.fill_region(self.player), ..self }
        }
    }

    /// The flags mark the mines and nothing else.
    pub open spec fn is_won(self) -> bool {
        self.flags == self.mines
    }

    /// The game after a look at whether it is won.
    pub open spec fn after_win_check(self) -> BoardView {
        if self.is_won() {
            BoardView { alive: false, ..self }
        } else {
            self
        }
    }
}

/// A row of `w` cells is finite and has `w` cells.
pub proof fn lemma_row_len(w: int, y: usize)
    requires
        0 <= w <= usize::MAX,
    ensures
        row_cells(w, y).finite(),
        row_cells(w, y).len() == w,
    decreases w,
{
    if w == 0 {
        assert(row_cells(w, y) =~= Set::<Pos>::empty());
    } else {
        lemma_row_len(w - 1, y);
        let last: Pos = ((w - 1) as usize, y);
        assert(row_cells(w, y) =~= row_cells(w - 1, y).insert(last));
        assert(!row_cells(w - 1, y).contains(last));
    }
}

/// A board `w` wide and `h` high is finite and has `w * h` cells.
pub proof fn lemma_grid_len(w: int, h: int)
    requires
        0 <= w <= usize::MAX,
        0 <= h <= usize::MAX,
    ensures
        grid_cells(w, h).finite(),
        grid_cells(w, h).len() == w * h,
    decreases h,
{
    if h == 0 {
        assert(grid_cells(w, h) =~= Set::<Pos>::empty());
        assert(w * h == 0) by (nonlinear_arith)
            requires
                h == 0,
        ;
    } else {
        lemma_grid_len(w, h - 1);
        let y = (h - 1) as usize;
        lemma_row_len(w, y);
        assert(grid_cells(w, h) =~= grid_cells(w, h - 1) + row_cells(w, y));
        assert(grid_cells(w, h - 1).disjoint(row_cells(w, y)));
        vstd::set_lib::lemma_set_disjoint_lens(grid_cells(w, h - 1), row_cells(w, y));
        assert(w * (h - 1) + w == w * h) by (nonlinear_arith);
    }
}

/// Distinct cells of a board are at most as many as the board has cells.
pub proof fn lemma_distinct_cells_fit(s: Seq<Pos>, w: int, h: int)
    requires
        0 <= w <= usize::MAX,
        0 <= h <= usize::MAX,
        s.no_duplicates(),
        all_on_board(s, w, h),
    ensures
        s.len() <= w * h,
        s.to_set().finite(),
        s.to_set().len() == s.len(),
{
    broadcast use vstd::seq_lib::seq_to_set_is_finite;

    s.unique_seq_to_set();
    lemma_grid_len(w, h);
    assert(s.to_set().subset_of(grid_cells(w, h))) by {
        assert forall|p: Pos| s.to_set().contains(p) implies grid_cells(w, h).contains(p) by {
            let i = choose|i: int| 0 <= i < s.len() && s[i] == p;
            assert(s[i].0 < w);
        }
    }
    vstd::set_lib::lemma_len_subset(s.to_set(), grid_cells(w, h));
}

/// Distinct cells that are fewer than the board's cells leave one free.
pub proof fn lemma_free_cell_exists(s: Seq<Pos>, w: int, h: int)
    requires
        0 <= w <= usize::MAX,
        0 <= h <= usize::MAX,
        s.no_duplicates(),
        s.len() < w * h,
    ensures
        exists|p: Pos| p.0 < w && p.1 < h && !s.contains(p),
{
    broadcast use vstd::seq_lib::seq_to_set_is_finite;

    if forall|p: Pos| p.0 < w && p.1 < h ==> s.contains(p) {
        s.unique_seq_to_set();
        lemma_grid_len(w, h);
        assert(grid_cells(w, h).subset_of(s.to_set()));
        vstd::set_lib::lemma_len_subset(grid_cells(w, h), s.to_set());
    }
}

} // verus!
