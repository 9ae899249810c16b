//! The board: the grid of cells with its counter of hidden cells, the moves
//! on it and the state of the game after each.

use vstd::prelude::*;
use crate::cell::{Cell, CellContents, MAX_NEIGHBORS};
use crate::flood::{
    chain_step, flood_reveal, hidden_at, lemma_cascade, lemma_flood_nothing,
    lemma_flood_reveal_cells, lemma_flood_reveal_count, lemma_flood_single,
    lemma_reveal_at_count, reveal_at,
};
use crate::generate::{
    add_adjacent_bombs, add_bombs, lemma_mines_added_trans, lemma_with_counts,
    lemma_with_mine_counts, mines_added, with_counts, with_mine,
};
use crate::grid::{
    all_hidden, blank_count, cells_wf, counts_consistent, grid_view, hidden_count, in_grid, is_blank,
    is_hidden, is_mine, is_square, lemma_count_cells_eq, lemma_count_cells_full,
    lemma_count_cells_zero, mine_count, no_mine_revealed, same_contents, same_shape, set_cell,
    sub_or_zero, valid_grid, MAX_SIZE,
};
use crate::state::{BoardError, GameState};

verus! {

/// A board as a mathematical value: its cells, row by row, and what its
/// counter of hidden cells holds.
pub struct BoardView {
    pub cells: Seq<Seq<Cell>>,
    pub hidden: nat,
}

/// A square grid of cells and a counter. The counter starts at the number
/// of cells that are no mines and goes down by one with every cell that is
/// revealed, until it is zero.
#[derive(Debug)]
pub struct Board {
    board: Vec<Vec<Cell>>,
    hidden_cells: u32,
}

impl View for Board {
    type V = BoardView;

    closed spec fn view(&self) -> BoardView {
        BoardView { cells: grid_view(self.board), hidden: self.hidden_cells as nat }
    }
}

/// The text of a row: each cell's character, followed by a space.
pub open spec fn row_text(row: Seq<Cell>) -> Seq<char>
    decreases row.len(),
{
    if row.len() == 0 {
        Seq::empty()
    } else {
        row_text(row.drop_last()).push(row.last().glyph()).push(' ')
    }
}

/// The text of a grid: each row's text, followed by a line break.
pub open spec fn grid_text(g: Seq<Seq<Cell>>) -> Seq<char>
    decreases g.len(),
{
    if g.len() == 0 {
        Seq::empty()
    } else {
        grid_text(g.drop_last()) + row_text(g.last()).push('\n')
    }
}

/// `String::push`: the text with one character appended.
#[verifier::external_body]
fn push_char(text: &mut String, c: char)
    ensures
        final(text)@ == old(text)@.push(c),
{
    text.push(c);
}

/// Why no board of `size` rows with `mines` mines can be built, if so.
pub open spec fn build_error(size: nat, mines: nat) -> Option<BoardError> {
    if size == 0 {
        Some(BoardError::EmptyBoard)
    } else if size > MAX_SIZE {
        Some(BoardError::TooLarge)
    } else if mines > size * size {
        Some(BoardError::TooManyMines)
    } else {
        None
    }
}

/// Every listed mine lies on a board of `size` rows.
pub open spec fn mines_in_range(size: nat, mines: Seq<(usize, usize)>) -> bool {
    forall|k: int| 0 <= k < mines.len() ==> (#[trigger] mines[k]).0 < size && mines[k].1 < size
}

/// No mine is listed twice.
pub open spec fn mines_distinct(mines: Seq<(usize, usize)>) -> bool {
    forall|a: int, b: int| 0 <= a < b < mines.len() ==> #[trigger] mines[a] != #[trigger] mines[b]
}

/// Why no board of `size` rows with mines at the listed positions can be
/// built, if so.
pub open spec fn layout_error(size: nat, mines: Seq<(usize, usize)>) -> Option<BoardError> {
    if size == 0 {
        Some(BoardError::EmptyBoard)
    } else if size > MAX_SIZE {
        Some(BoardError::TooLarge)
    } else if !mines_in_range(size, mines) {
        Some(BoardError::MineOutOfRange)
    } else if !mines_distinct(mines) {
        Some(BoardError::DuplicateMine)
    } else {
        None
    }
}

impl BoardView {
    /// The grid is square, of at least one and at most `MAX_SIZE` rows. No
    /// operation of a board changes that.
    pub open spec fn wf(self) -> bool {
        valid_grid(self.cells)
    }

    /// The number of rows, which is the number of columns.
    pub open spec fn size(self) -> nat {
        self.cells.len()
    }

    /// The counter holds the number of hidden cells less the number of
    /// mines, or zero where that would be negative.
    pub open spec fn counter_matches(self) -> bool {
        self.hidden == sub_or_zero(hidden_count(self.cells) as int, mine_count(self.cells) as int)
    }

    /// A board as a game leaves it while no mine has been revealed: every
    /// count is right, every mine is hidden, and the counter holds the number
    /// of hidden cells that are no mines.
    pub open spec fn in_play(self) -> bool {
        &&& self.wf()
        &&& counts_consistent(self.cells)
        &&& no_mine_revealed(self.cells)
        &&& self.counter_matches()
    }

    /// A board as it is built: `size` rows, `mines` mines, every cell hidden.
    pub open spec fn fresh(self, size: nat, mines: nat) -> bool {
        &&& self.in_play()
        &&& self.size() == size
        &&& all_hidden(self.cells)
        &&& mine_count(self.cells) == mines
        &&& self.hidden == size * size - mines
    }

    /// The board with the cell at `(i, j)` revealed and the counter one
    /// lower, unless it was zero.
    pub open spec fn reveal_cell(self, i: int, j: int) -> BoardView {
        BoardView { cells: reveal_at(self.cells, i, j), hidden: sub_or_zero(self.hidden as int, 1) }
    }

    /// The board after selecting `(i, j)`: the cells that the reveal uncovers
    /// are revealed, and the counter is lower by their number, or zero where
    /// that would be negative. A position outside the board, or one whose
    /// cell is revealed already, uncovers nothing.
    pub open spec fn select(self, i: int, j: int) -> BoardView {
        let cells = flood_reveal(self.cells, i, j);
        BoardView {
            cells,
            hidden: sub_or_zero(self.hidden as int, hidden_count(self.cells) - hidden_count(cells)),
        }
    }

    /// The board with every cell revealed. The counter stays.
    pub open spec fn reveal_all(self) -> BoardView {
        BoardView {
            cells: Seq::new(
                self.cells.len(),
                |r: int| Seq::new(self.cells[r].len(), |c: int| self.cells[r][c].revealed()),
            ),
            hidden: self.hidden,
        }
    }

    /// The board as text: one line for each row, and an empty line after
    /// the last.
    pub open spec fn text(self) -> Seq<char> {
        grid_text(self.cells).push('\n')
    }

    /// The state of the game when `cell` was selected last: lost on a mine,
    /// else won once the counter is zero.
    pub open spec fn state_for(self, cell: Cell) -> GameState {
        if cell.is_mine() {
            GameState::Lost
        } else if self.hidden == 0 {
            GameState::Win
        } else {
            GameState::Cont
        }
    }

    /// The state of the game when `(i, j)` was selected last. A position
    /// outside the board holds no mine.
    pub open spec fn state_at(self, i: int, j: int) -> GameState {
        if in_grid(self.cells, i, j) {
            self.state_for(self.cells[i][j])
        } else if self.hidden == 0 {
            GameState::Win
        } else {
            GameState::Cont
        }
    }
}

/// One more step of a cascade keeps the counter in step with the number of
/// cells revealed since the cascade began with `hidden` on the counter and
/// `count` cells hidden.
pub proof fn lemma_select_counter(before: BoardView, i: int, j: int, hidden: nat, count: nat)
    requires
        hidden_count(before.cells) <= count,
        before.hidden == sub_or_zero(hidden as int, count - hidden_count(before.cells)),
    ensures
        hidden_count(before.select(i, j).cells) <= hidden_count(before.cells),
        before.select(i, j).hidden == sub_or_zero(
            hidden as int,
            count - hidden_count(before.select(i, j).cells),
        ),
        before.wf() ==> before.select(i, j).wf(),
{
    lemma_flood_reveal_count(before.cells, i, j);
    lemma_select_wf(before, i, j);
}

/// Selecting keeps a board well formed and changes no content.
pub proof fn lemma_select_wf(before: BoardView, i: int, j: int)
    ensures
        before.wf() ==> before.select(i, j).wf(),
        same_contents(before.cells, before.select(i, j).cells),
{
    lemma_flood_reveal_cells(before.cells, i, j);
    let after = before.select(i, j).cells;
    if before.wf() {
        assert forall|r: int| 0 <= r < after.len() implies (#[trigger] after[r]).len()
            == after.len() by {}
    }
}

/// A grid of `size` rows of `size` blank, hidden cells.
fn blank_grid(size: usize) -> (board: Vec<Vec<Cell>>)
    ensures
        grid_view(board).len() == size,
        is_square(grid_view(board)),
        forall|r: int, c: int|
            in_grid(grid_view(board), r, c) ==> (#[trigger] grid_view(board)[r][c]) == (Cell {
                cell_content: None,
                reveal: false,
            }),
{
    let mut board: Vec<Vec<Cell>> = Vec::new();
    while board.len() < size
        invariant
            board.len() <= size,
            forall|r: int| 0 <= r < board.len() ==> (#[trigger] board@[r]).len() == size,
            forall|r: int, c: int|
                0 <= r < board.len() && 0 <= c < size ==> (#[trigger] board@[r]@[c]) == (Cell {
                    cell_content: None,
                    reveal: false,
                }),
        decreases size - board.len(),
    {
        let mut row: Vec<Cell> = Vec::new();
        while row.len() < size
            invariant
                row.len() <= size,
                forall|c: int|
                    0 <= c < row.len() ==> (#[trigger] row@[c]) == (Cell {
                        cell_content: None,
                        reveal: false,
                    }),
            decreases size - row.len(),
        {
            row.push(Cell::new());
        }
        board.push(row);
    }
    board
}

impl Board {
    /// The grid is square, of at least one and at most `MAX_SIZE` rows. Every
    /// board that `new` or `with_mines` builds is, and stays so.
    pub open spec fn wf(&self) -> bool {
        self@.wf()
    }

    /// Builds a board of `size` rows and columns with `bombs` mines laid at
    /// random, every cell hidden and every count filled in. The counter
    /// starts at the number of cells less the number of mines. Fails where
    /// the size is zero or above `MAX_SIZE`, or where the board has fewer
    /// cells than mines are asked for.
    pub fn new(size: usize, bombs: u32) -> (res: Result<Board, BoardError>)
        ensures
            match res {
                Ok(board) => {
                    &&& build_error(size as nat, bombs as nat) is None
                    &&& board@.fresh(size as nat, bombs as nat)
                    &&& board@.hidden == size * size - bombs
                },
                Err(e) => build_error(size as nat, bombs as nat) == Some(e),
            },
    {
        if size == 0 {
            return Err(BoardError::EmptyBoard);
        }
        if size > MAX_SIZE {
            return Err(BoardError::TooLarge);
        }
        assert(size * size <= 0xFFFF_FFFF) by (nonlinear_arith)
            requires
                size <= 65535,
        ;
        let cells: usize = size * size;
        if bombs as usize > cells {
            return Err(BoardError::TooManyMines);
        }
        let mut board = blank_grid(size);
        let ghost blank = grid_view(board);
        proof {
            lemma_blank_grid_counts(blank, size as nat);
        }
        add_bombs(&mut board, bombs);
        let ghost mined = grid_view(board);
        add_adjacent_bombs(&mut board);
        proof {
            lemma_fresh_board(blank, mined, size as nat, bombs as nat);
        }
        Ok(Board { board, hidden_cells: cells as u32 - bombs })
    }

    /// Builds a board of `size` rows and columns with a mine at each listed
    /// position, every cell hidden and every count filled in. Fails where the
    /// size is zero or above `MAX_SIZE`, where a position lies outside the
    /// board, or where a position is listed twice.
    pub fn with_mines(size: usize, mines: &Vec<(usize, usize)>) -> (res: Result<Board, BoardError>)
        ensures
            match res {
                Ok(board) => {
                    &&& layout_error(size as nat, mines@) is None
                    &&& board@.fresh(size as nat, mines@.len())
                    &&& forall|r: int, c: int|
                        in_grid(board@.cells, r, c) ==> ((#[trigger] board@.cells[r][c]).is_mine()
                            <==> mines@.contains((r as usize, c as usize)))
                },
                Err(e) => layout_error(size as nat, mines@) == Some(e),
            },
    {
        if size == 0 {
            return Err(BoardError::EmptyBoard);
        }
        if size > MAX_SIZE {
            return Err(BoardError::TooLarge);
        }
        let mut k: usize = 0;
        while k < mines.len()
            invariant
                0 < size <= MAX_SIZE,
                k <= mines.len(),
                forall|a: int| 0 <= a < k ==> (#[trigger] mines@[a]).0 < size && mines@[a].1 < size,
            decreases mines.len() - k,
        {
            if mines[k].0 >= size || mines[k].1 >= size {
                assert(!(mines@[k as int].0 < size && mines@[k as int].1 < size));
                return Err(BoardError::MineOutOfRange);
            }
            k += 1;
        }
        let mut board = blank_grid(size);
        let ghost blank = grid_view(board);
        proof {
            lemma_blank_grid_counts(blank, size as nat);
            assert(same_shape(blank, blank));
        }
        k = 0;
        while k < mines.len()
            invariant
                0 < size <= MAX_SIZE,
                k <= mines.len(),
                mines_in_range(size as nat, mines@),
                grid_view(board).len() == size,
                mines_added(blank, grid_view(board)),
                mine_count(blank) == 0,
                mine_count(grid_view(board)) == k,
                forall|a: int, b: int| 0 <= a < b < k ==> #[trigger] mines@[a] != #[trigger] mines@[b],
                forall|r: int, c: int|
                    in_grid(blank, r, c) ==> ((#[trigger] grid_view(board)[r][c]).is_mine() <==> (
                    exists|a: int| 0 <= a < k && #[trigger] mines@[a] == (r as usize, c as usize))),
                forall|r: int, c: int|
                    in_grid(blank, r, c) ==> (#[trigger] blank[r][c]) == (Cell {
                        cell_content: None,
                        reveal: false,
                    }),
                is_square(blank),
                blank.len() == size,
            decreases mines.len() - k,
        {
            let (r, c) = mines[k];
            let ghost before = grid_view(board);
            assert(in_grid(blank, r as int, c as int));
            assert(before[r as int].len() == blank[r as int].len());
            match board[r][c].cell_content {
                Some(CellContents::Bomb) => {
                    proof {
                        assert(before[r as int][c as int].is_mine());
                        let a = choose|a: int| 0 <= a < k && #[trigger] mines@[a] == (r, c);
                        assert(mines@[a] == mines@[k as int]);
                    }
                    return Err(BoardError::DuplicateMine);
                },
                _ => {},
            }
            board[r][c].set_cell_content(Some(CellContents::Bomb));
            proof {
                let after = grid_view(board);
                let want = with_mine(before, r as int, c as int);
                assert forall|row: int| 0 <= row < before.len() implies #[trigger] after[row]
                    =~= want[row] by {}
                assert(after =~= want);
                lemma_with_mine_counts(before, r as int, c as int);
                lemma_mines_added_trans(blank, before, after);
                assert forall|a: int, b: int| 0 <= a < b < k + 1 implies #[trigger] mines@[a]
                    != #[trigger] mines@[b] by {
                    if b == k && mines@[a] == mines@[b] {
                        assert(before[r as int][c as int].is_mine());
                    }
                }
                assert forall|row: int, col: int| in_grid(blank, row, col) implies ((
                #[trigger] after[row][col]).is_mine() <==> (exists|a: int|
                    0 <= a < k + 1 && #[trigger] mines@[a] == (row as usize, col as usize))) by {
                    assert(before[row].len() == blank[row].len());
                    if row == r && col == c {
                        assert(mines@[k as int] == (row as usize, col as usize));
                    } else {
                        assert(after[row][col] == before[row][col]);
                        if before[row][col].is_mine() {
                            let a = choose|a: int|
                                0 <= a < k && #[trigger] mines@[a] == (row as usize, col as usize);
                            assert(0 <= a < k + 1 && mines@[a] == (row as usize, col as usize));
                        }
                        if exists|a: int|
                            0 <= a < k + 1 && #[trigger] mines@[a] == (row as usize, col as usize) {
                            let a = choose|a: int|
                                0 <= a < k + 1 && #[trigger] mines@[a] == (
                                    row as usize,
                                    col as usize,
                                );
                            assert(a != k);
                            assert(0 <= a < k && mines@[a] == (row as usize, col as usize));
                        }
                    }
                }
            }
            k += 1;
        }
        assert(size * size <= 0xFFFF_FFFF) by (nonlinear_arith)
            requires
                size <= 65535,
        ;
        let cells: usize = size * size;
        let ghost mined = grid_view(board);
        add_adjacent_bombs(&mut board);
        proof {
            lemma_fresh_board(blank, mined, size as nat, mines@.len());
            let done = grid_view(board);
            assert forall|r: int, c: int| in_grid(done, r, c) implies ((
            #[trigger] done[r][c]).is_mine() <==> mines@.contains((r as usize, c as usize))) by {
                assert(in_grid(blank, r, c));
                assert(mined[r].len() == blank[r].len());
                assert(done[r][c].is_mine() == mined[r][c].is_mine());
                if mined[r][c].is_mine() {
                    let a = choose|a: int|
                        0 <= a < k && #[trigger] mines@[a] == (r as usize, c as usize);
                    assert(mines@.contains(mines@[a]));
                }
                if mines@.contains((r as usize, c as usize)) {
                    let a = choose|a: int|
                        0 <= a < mines@.len() && mines@[a] == (r as usize, c as usize);
                    assert(0 <= a < k && mines@[a] == (r as usize, c as usize));
                }
            }
        }
        Ok(Board { board, hidden_cells: (cells - mines.len()) as u32 })
    }
}

impl Board {
    /// Whether the board is well formed and can be drawn: square, of at least
    /// one and at most `MAX_SIZE` rows, with no count above eight.
    pub fn is_valid(&self) -> (valid: bool)
        ensures
            valid == (self.wf() && cells_wf(self@.cells)),
    {
        let ghost g = self@.cells;
        let height: usize = self.board.len();
        if height == 0 || height > MAX_SIZE {
            return false;
        }
        let mut i: usize = 0;
        while i < height
            invariant
                g == self@.cells,
                0 < height <= MAX_SIZE,
                height == g.len(),
                i <= height,
                forall|r: int| 0 <= r < i ==> (#[trigger] g[r]).len() == height,
                forall|r: int, c: int| 0 <= r < i && 0 <= c < g[r].len() ==> (#[trigger] g[r][c]).wf(),
            decreases height - i,
        {
            if self.board[i].len() != height {
                assert(g[i as int].len() != g.len());
                return false;
            }
            let mut j: usize = 0;
            while j < height
                invariant
                    g == self@.cells,
                    i < height,
                    height == g.len(),
                    g[i as int].len() == height,
                    j <= height,
                    forall|r: int| 0 <= r < i ==> (#[trigger] g[r]).len() == height,
                    forall|r: int, c: int|
                        0 <= r < i && 0 <= c < g[r].len() ==> (#[trigger] g[r][c]).wf(),
                    forall|c: int| 0 <= c < j ==> (#[trigger] g[i as int][c]).wf(),
                decreases height - j,
            {
                match self.board[i][j].cell_content {
                    Some(CellContents::Neighbors(n)) => {
                        if n > MAX_NEIGHBORS {
                            return false;
                        }
                    },
                    _ => {},
                }
                j += 1;
            }
            i += 1;
        }
        true
    }

    /// The number of rows, which is the number of columns.
    pub fn size(&self) -> (size: usize)
        ensures
            size == self@.size(),
    {
        self.board.len()
    }

    /// What the counter of hidden cells holds.
    pub fn hidden_cells(&self) -> (hidden: u32)
        ensures
            hidden == self@.hidden,
    {
        self.hidden_cells
    }

    /// The cell at row `i`, column `j`.
    pub fn cell(&self, i: usize, j: usize) -> (cell: &Cell)
        requires
            in_grid(self@.cells, i as int, j as int),
        ensures
            *cell == self@.cells[i as int][j as int],
    {
        &self.board[i][j]
    }

    /// The cell at row `i`, column `j`, to change it in place. The board is
    /// what it was but for that cell; the counter stays.
    pub fn mut_cell(&mut self, i: usize, j: usize) -> (cell: &mut Cell)
        requires
            in_grid(old(self)@.cells, i as int, j as int),
        ensures
            *cell == old(self)@.cells[i as int][j as int],
            final(self)@.cells == set_cell(old(self)@.cells, i as int, j as int, *final(cell)),
            final(self)@.hidden == old(self)@.hidden,
    {
        &mut self.board[i][j]
    }

    /// Reveals the cell at row `i`, column `j`, and lowers the counter by
    /// one, unless it is zero.
    pub fn reveal_cell(&mut self, i: usize, j: usize)
        requires
            in_grid(old(self)@.cells, i as int, j as int),
        ensures
            final(self)@ == old(self)@.reveal_cell(i as int, j as int),
    {
        self.mut_cell(i, j).set_reveal();
        if self.hidden_cells > 0 {
            self.hidden_cells -= 1;
        }
    }

    /// Reveals every cell, as at the end of a game. The counter stays.
    pub fn reveal_all(&mut self)
        ensures
            final(self)@ == old(self)@.reveal_all(),
    {
        let ghost g = self@.cells;
        let height: usize = self.board.len();
        let mut i: usize = 0;
        while i < height
            invariant
                height == g.len(),
                i <= height,
                g == old(self)@.cells,
                self@.hidden == old(self)@.hidden,
                same_shape(g, self@.cells),
                forall|r: int, c: int|
                    in_grid(g, r, c) ==> (#[trigger] self@.cells[r][c]) == (if r < i {
                        g[r][c].revealed()
                    } else {
                        g[r][c]
                    }),
            decreases height - i,
        {
            let width: usize = self.board[i].len();
            let mut j: usize = 0;
            while j < width
                invariant
                    height == g.len(),
                    i < height,
                    width == g[i as int].len(),
                    j <= width,
                    self@.hidden == old(self)@.hidden,
                    same_shape(g, self@.cells),
                    forall|r: int, c: int|
                        in_grid(g, r, c) ==> (#[trigger] self@.cells[r][c]) == (if r < i || (r == i
                            && c < j) {
                            g[r][c].revealed()
                        } else {
                            g[r][c]
                        }),
                decreases width - j,
            {
                let ghost before = self@.cells;
                self.mut_cell(i, j).set_reveal();
                proof {
                    let after = self@.cells;
                    assert forall|r: int, c: int| in_grid(g, r, c) implies (
                    #[trigger] after[r][c]) == (if r < i || (r == i && c < j + 1) {
                        g[r][c].revealed()
                    } else {
                        g[r][c]
                    }) by {
                        assert(before[r][c] == (if r < i || (r == i && c < j) {
                            g[r][c].revealed()
                        } else {
                            g[r][c]
                        }));
                    }
                }
                j += 1;
            }
            i += 1;
        }
        proof {
            let after = self@.cells;
            let want = old(self)@.reveal_all().cells;
            assert forall|r: int| 0 <= r < g.len() implies #[trigger] after[r] =~= want[r] by {
                assert forall|c: int| 0 <= c < g[r].len() implies after[r][c] == want[r][c] by {}
            }
            assert(after =~= want);
        }
    }

    /// The board as text: a line for each row with a character and a space
    /// for each cell, and an empty line at the end. A hidden cell is drawn as
    /// `X`; a revealed one as `B` for a mine, `_` for a blank cell and its
    /// digit for a count.
    pub fn render(&self) -> (text: String)
        requires
            cells_wf(self@.cells),
        ensures
            text@ == self@.text(),
    {
        let ghost g = self@.cells;
        let mut text = String::new();
        let height: usize = self.board.len();
        let mut i: usize = 0;
        while i < height
            invariant
                g == self@.cells,
                cells_wf(g),
                height == g.len(),
                i <= height,
                text@ == grid_text(g.take(i as int)),
            decreases height - i,
        {
            let ghost above = text@;
            let width: usize = self.board[i].len();
            let mut j: usize = 0;
            while j < width
                invariant
                    g == self@.cells,
                    cells_wf(g),
                    i < g.len(),
                    width == g[i as int].len(),
                    j <= width,
                    text@ == above + row_text(g[i as int].take(j as int)),
                decreases width - j,
            {
                proof {
                    assert(g[i as int].take(j + 1).drop_last() =~= g[i as int].take(j as int));
                }
                push_char(&mut text, self.board[i][j].symbol());
                push_char(&mut text, ' ');
                j += 1;
            }
            push_char(&mut text, '\n');
            proof {
                assert(g[i as int].take(width as int) =~= g[i as int]);
                assert(g.take(i + 1).drop_last() =~= g.take(i as int));
            }
            i += 1;
        }
        proof {
            assert(g.take(height as int) =~= g);
        }
        push_char(&mut text, '\n');
        text
    }

    /// Selects `(i, j)` and says how the game stands: lost where the cell
    /// there holds a mine, else won once the counter is zero. A position
    /// outside the board changes nothing and holds no mine.
    pub fn play_one_round(&mut self, i: isize, j: isize) -> (state: GameState)
        requires
            old(self).wf(),
        ensures
            final(self).wf(),
            final(self)@ == old(self)@.select(i as int, j as int),
            !hidden_at(old(self)@.cells, i as int, j as int) ==> final(self)@ == old(self)@,
            state == final(self)@.state_at(i as int, j as int),
    {
        self.select(i, j);
        proof {
            lemma_square_rows(self@.cells, i as int);
        }
        if i < 0 || j < 0 || i >= self.board.len() as isize || j >= self.board[0].len() as isize {
            if self.hidden_cells == 0 {
                GameState::Win
            } else {
                GameState::Cont
            }
        } else {
            self.game_state(self.cell(i as usize, j as usize))
        }
    }

    /// How the game stands when `cell` was selected last: lost where it holds
    /// a mine, else won once the counter is zero.
    pub fn game_state(&self, cell: &Cell) -> (state: GameState)
        ensures
            state == self@.state_for(*cell),
    {
        if let Some(x) = cell.cell_content() {
            if x == CellContents::Bomb {
                return GameState::Lost;
            }
        }
        if self.hidden_cells == 0 {
            GameState::Win
        } else {
            GameState::Cont
        }
    }

    /// Reveals the cell at `(i, j)` and, where that cell is blank, everything
    /// that a chain of touching blank cells leads to from it. A position
    /// outside the board, or one whose cell is revealed already, changes
    /// nothing. The counter goes down by one for every cell revealed.
    pub fn select(&mut self, i: isize, j: isize)
        requires
            old(self).wf(),
        ensures
            final(self).wf(),
            final(self)@ == old(self)@.select(i as int, j as int),
            !hidden_at(old(self)@.cells, i as int, j as int) ==> final(self)@ == old(self)@,
        decreases hidden_count(old(self)@.cells),
    {
        let ghost start = self@;
        proof {
            lemma_square_rows(start.cells, i as int);
        }
        if i < 0 || j < 0 || i >= self.board.len() as isize || j >= self.board[0].len() as isize
            || self.cell(i as usize, j as usize).is_revealed() {
            proof {
                lemma_flood_nothing(start.cells, i as int, j as int);
            }
            return ;
        }
        self.reveal_cell(i as usize, j as usize);
        proof {
            lemma_reveal_at_count(start.cells, i as int, j as int);
            lemma_reveal_at_wf(start, i as int, j as int);
        }
        if self.cell(i as usize, j as usize).cell_content().is_none() {
            let ghost count = hidden_count(start.cells);
            let ghost mut gs: Seq<Seq<Seq<Cell>>> = seq![self@.cells];
            let ghost mut before = self@;
            // up
            self.select(i - 1, j);
            proof {
                lemma_select_counter(before, i - 1, j as int, start.hidden, count);
                gs = gs.push(self@.cells);
                before = self@;
            }
            // up right
            self.select(i - 1, j + 1);
            proof {
                lemma_select_counter(before, i - 1, j + 1, start.hidden, count);
                gs = gs.push(self@.cells);
                before = self@;
            }
            // right
            self.select(i, j + 1);
            proof {
                lemma_select_counter(before, i as int, j + 1, start.hidden, count);
                gs = gs.push(self@.cells);
                before = self@;
            }
            // down right
            self.select(i + 1, j + 1);
            proof {
                lemma_select_counter(before, i + 1, j + 1, start.hidden, count);
                gs = gs.push(self@.cells);
                before = self@;
            }
            // down
            self.select(i + 1, j);
            proof {
                lemma_select_counter(before, i + 1, j as int, start.hidden, count);
                gs = gs.push(self@.cells);
                before = self@;
            }
            // down left
            self.select(i + 1, j - 1);
            proof {
                lemma_select_counter(before, i + 1, j - 1, start.hidden, count);
                gs = gs.push(self@.cells);
                before = self@;
            }
            // left
            self.select(i, j - 1);
            proof {
                lemma_select_counter(before, i as int, j - 1, start.hidden, count);
                gs = gs.push(self@.cells);
                before = self@;
            }
            // up left
            self.select(i - 1, j - 1);
            proof {
                lemma_select_counter(before, i - 1, j - 1, start.hidden, count);
                gs = gs.push(self@.cells);
                assert forall|k: int| 0 <= k < 8 implies #[trigger] chain_step(
                    gs,
                    i as int,
                    j as int,
                    k,
                ) by {}
                lemma_cascade(start.cells, i as int, j as int, gs);
            }
        } else {
            proof {
                lemma_flood_single(start.cells, i as int, j as int);
            }
        }
    }
}

/// In a square grid the first row, and row `i` where there is one, are as
/// long as the grid has rows.
pub proof fn lemma_square_rows(g: Seq<Seq<Cell>>, i: int)
    requires
        valid_grid(g),
    ensures
        g[0].len() == g.len(),
        0 <= i < g.len() ==> g[i].len() == g.len(),
{
}

/// Revealing one cell keeps a board well formed.
pub proof fn lemma_reveal_at_wf(before: BoardView, i: int, j: int)
    requires
        before.wf(),
        in_grid(before.cells, i, j),
    ensures
        before.reveal_cell(i, j).wf(),
{
    let after = before.reveal_cell(i, j).cells;
    assert forall|r: int| 0 <= r < after.len() implies (#[trigger] after[r]).len()
        == after.len() by {}
}

/// A grid of blank, hidden cells holds no mine, and as many blank cells as
/// it has cells.
pub proof fn lemma_blank_grid_counts(g: Seq<Seq<Cell>>, size: nat)
    requires
        g.len() == size,
        is_square(g),
        forall|r: int, c: int|
            in_grid(g, r, c) ==> (#[trigger] g[r][c]) == (Cell { cell_content: None, reveal: false }),
    ensures
        mine_count(g) == 0,
        blank_count(g) == size * size,
{
    lemma_count_cells_zero(g, is_mine());
    lemma_count_cells_full(g, size, is_blank());
}

/// A grid of `size` rows of blank, hidden cells on which `mines` mines were
/// laid and the counts then filled in makes a fresh board.
pub proof fn lemma_fresh_board(blank: Seq<Seq<Cell>>, mined: Seq<Seq<Cell>>, size: nat, mines: nat)
    requires
        0 < size <= MAX_SIZE,
        blank.len() == size,
        is_square(blank),
        forall|r: int, c: int|
            in_grid(blank, r, c) ==> (#[trigger] blank[r][c]) == (Cell {
                cell_content: None,
                reveal: false,
            }),
        mines_added(blank, mined),
        mine_count(mined) == mines,
    ensures
        mines <= size * size,
        (BoardView { cells: with_counts(mined), hidden: (size * size - mines) as nat }).fresh(
            size,
            mines,
        ),
        forall|r: int, c: int|
            in_grid(mined, r, c) ==> (#[trigger] with_counts(mined)[r][c]).is_mine()
                == mined[r][c].is_mine(),
{
    let done = with_counts(mined);
    assert forall|r: int, c: int| in_grid(mined, r, c) implies ((#[trigger] mined[r][c]).is_mine()
        || mined[r][c].is_blank()) && !mined[r][c].reveal by {
        assert(mined[r][c] == blank[r][c] || (blank[r][c].is_blank() && mined[r][c]
            == blank[r][c].with_content(Some(CellContents::Bomb))));
    }
    lemma_with_counts(mined);
    assert forall|r: int| 0 <= r < done.len() implies (#[trigger] done[r]).len() == size by {
        assert(blank[r].len() == mined[r].len());
    }
    assert forall|r: int, c: int| in_grid(done, r, c) implies !(#[trigger] done[r][c]).reveal by {}
    assert forall|r: int, c: int| in_grid(done, r, c) implies is_hidden()(#[trigger] done[r][c]) by {}
    lemma_count_cells_full(done, size, is_hidden());
    lemma_count_cells_full(done, size, is_mine());
    assert forall|r: int, c: int| in_grid(mined, r, c) implies is_mine()(#[trigger] mined[r][c])
        == is_mine()(done[r][c]) by {}
    lemma_count_cells_eq(mined, is_mine(), done, is_mine());
}

} // verus!
