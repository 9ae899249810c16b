//! Building the grid: placing the mines and deriving every other cell's
//! count of neighbouring mines.

use vstd::prelude::*;
use rand::Rng;
use rand::rngs::ThreadRng;
use crate::cell::{Cell, CellContents};
use crate::grid::{
    adjacent_mines, blank_count, block_mines, cells_wf, content_for, count_cells, count_row,
    counts_consistent, grid_view, in_grid, is_blank, is_mine, lemma_count_set_cell, mine_at,
    mine_count, mines_at, row_mines, same_reveals, same_shape, set_cell,
};

verus! {

/// The generator of the current thread, `rand::rngs::ThreadRng`. What it
/// will produce is not known to the proofs.
#[verifier::external_type_specification]
#[verifier::external_body]
pub struct ExThreadRng(rand::rngs::ThreadRng);

/// `rand::thread_rng`: a handle to the current thread's generator, which
/// the operating system seeds. Nothing is claimed of the handle. The call
/// panics only where the operating system cannot supply the seed.
pub assume_specification[ rand::thread_rng ]() -> (rng: ThreadRng);

/// `rand::Rng::gen_range` on the range `0..bound`: a number below `bound`,
/// drawn uniformly. The call panics on an empty range, which `bound > 0`
/// rules out. Only the range of the number is claimed, not its value.
#[verifier::external_body]
fn pick_below(rng: &mut ThreadRng, bound: usize) -> (pick: usize)
    requires
        bound > 0,
    ensures
        pick < bound,
{
    rng.gen_range(0..bound)
}

/// The number of blank cells before `(r, c)`, reading the grid row by row.
pub open spec fn blanks_before(g: Seq<Seq<Cell>>, r: int, c: int) -> nat {
    count_cells(g.take(r), is_blank()) + count_row(g[r].take(c), is_blank())
}

/// `(r, c)` is the blank cell that `n` blank cells precede, reading the grid
/// row by row.
pub open spec fn nth_blank(g: Seq<Seq<Cell>>, n: nat, r: int, c: int) -> bool {
    in_grid(g, r, c) && g[r][c].is_blank() && blanks_before(g, r, c) == n
}

/// The grid with a mine at `(r, c)`.
pub open spec fn with_mine(g: Seq<Seq<Cell>>, r: int, c: int) -> Seq<Seq<Cell>> {
    set_cell(g, r, c, g[r][c].with_content(Some(CellContents::Bomb)))
}

/// `b` is `a` with mines laid on some blank cells and nothing else changed.
pub open spec fn mines_added(a: Seq<Seq<Cell>>, b: Seq<Seq<Cell>>) -> bool {
    &&& same_shape(a, b)
    &&& forall|r: int, c: int|
        in_grid(a, r, c) ==> (#[trigger] b[r][c]) == a[r][c] || (a[r][c].is_blank() && b[r][c]
            == a[r][c].with_content(Some(CellContents::Bomb)))
}

/// The cell at `(r, c)` once the counts are filled in: a mine stays a mine,
/// a cell that mines surround holds their number, and any other cell stays
/// as it is.
pub open spec fn counted_cell(g: Seq<Seq<Cell>>, r: int, c: int) -> Cell {
    if g[r][c].is_mine() || adjacent_mines(g, r, c) == 0 {
        g[r][c]
    } else {
        g[r][c].with_content(content_for(adjacent_mines(g, r, c)))
    }
}

/// The grid with the counts filled in.
pub open spec fn with_counts(g: Seq<Seq<Cell>>) -> Seq<Seq<Cell>> {
    Seq::new(g.len(), |r: int| Seq::new(g[r].len(), |c: int| counted_cell(g, r, c)))
}

/// The mines of row `r` among the columns from `j - 1` up to but not
/// including `c`.
pub open spec fn row_mines_upto(g: Seq<Seq<Cell>>, r: int, j: int, c: int) -> nat {
    (if c > j - 1 {
        mines_at(g, r, j - 1)
    } else {
        0
    }) + (if c > j {
        mines_at(g, r, j)
    } else {
        0
    }) + (if c > j + 1 {
        mines_at(g, r, j + 1)
    } else {
        0
    })
}

/// The mines of the block centred at `(i, j)` in the rows from `i - 1` up to
/// but not including `r`.
pub open spec fn block_mines_upto(g: Seq<Seq<Cell>>, i: int, j: int, r: int) -> nat {
    (if r > i - 1 {
        row_mines(g, i - 1, j)
    } else {
        0
    }) + (if r > i {
        row_mines(g, i, j)
    } else {
        0
    }) + (if r > i + 1 {
        row_mines(g, i + 1, j)
    } else {
        0
    })
}

/// Counts the mines in the three-by-three block centred at `(i, j)`, the
/// centre included. Positions outside the grid hold no mine, so the block
/// is cut off at the grid's edges and nothing wraps around.
pub fn add_cell_adjacent_bombs(board: &mut Vec<Vec<Cell>>, i: usize, j: usize) -> (bombs: u8)
    ensures
        bombs == block_mines(grid_view(*old(board)), i as int, j as int),
        *final(board) == *old(board),
{
    let ghost g = grid_view(*board);
    let height: usize = board.len();
    let first_row: usize = if i > 0 {
        i - 1
    } else {
        0
    };
    let end_row: usize = if height > 0 && i < height - 1 {
        i + 2
    } else {
        height
    };
    let mut bombs: u8 = 0;
    let mut r: usize = first_row;
    while r < end_row
        invariant
            g == grid_view(*board),
            *board == *old(board),
            height == g.len(),
            end_row <= height,
            end_row <= i + 2,
            end_row == i + 2 || end_row == height,
            i - 1 <= first_row <= r,
            first_row == 0 || first_row == i - 1,
            r <= end_row || r == first_row,
            bombs == block_mines_upto(g, i as int, j as int, r as int),
            bombs <= 9,
        decreases end_row - r,
    {
        let width: usize = board[r].len();
        let first_col: usize = if j > 0 {
            j - 1
        } else {
            0
        };
        let end_col: usize = if width > 0 && j < width - 1 {
            j + 2
        } else {
            width
        };
        let mut found: u8 = 0;
        let mut c: usize = first_col;
        while c < end_col
            invariant
                g == grid_view(*board),
                *board == *old(board),
                r < g.len(),
                width == g[r as int].len(),
                end_col <= width,
                end_col <= j + 2,
                end_col == j + 2 || end_col == width,
                j - 1 <= first_col <= c,
                first_col == 0 || first_col == j - 1,
                c <= end_col || c == first_col,
                found == row_mines_upto(g, r as int, j as int, c as int),
                found <= 3,
            decreases end_col - c,
        {
            found +=
            match board[r][c].cell_content {
                Some(CellContents::Bomb) => 1,
                _ => 0,
            };
            c += 1;
        }
        bombs += found;
        r += 1;
    }
    bombs
}

/// Gives every cell that is no mine the number of mines around it. A cell
/// that no mine touches stays as it is, so that a blank cell stays blank.
pub fn add_adjacent_bombs(board: &mut Vec<Vec<Cell>>)
    ensures
        grid_view(*final(board)) == with_counts(grid_view(*old(board))),
{
    let ghost g = grid_view(*board);
    let height: usize = board.len();
    let mut i: usize = 0;
    while i < height
        invariant
            height == g.len(),
            i <= height,
            g == grid_view(*old(board)),
            same_shape(g, grid_view(*board)),
            forall|r: int, c: int|
                in_grid(g, r, c) ==> (#[trigger] grid_view(*board)[r][c]) == (if r < i {
                    counted_cell(g, r, c)
                } else {
                    g[r][c]
                }),
        decreases height - i,
    {
        let width: usize = board[i].len();
        let mut j: usize = 0;
        while j < width
            invariant
                height == g.len(),
                i < height,
                width == g[i as int].len(),
                j <= width,
                same_shape(g, grid_view(*board)),
                forall|r: int, c: int|
                    in_grid(g, r, c) ==> (#[trigger] grid_view(*board)[r][c]) == (if r < i || (r
                        == i && c < j) {
                        counted_cell(g, r, c)
                    } else {
                        g[r][c]
                    }),
            decreases width - j,
        {
            let ghost before = grid_view(*board);
            match board[i][j].cell_content {
                Some(CellContents::Bomb) => {},
                _ => {
                    let bombs = add_cell_adjacent_bombs(board, i, j);
                    proof {
                        lemma_same_mines_same_block(g, before, i as int, j as int);
                    }
                    if bombs != 0 {
                        board[i][j].set_cell_content(Some(CellContents::Neighbors(bombs)));
                    }
                },
            }
            proof {
                let after = grid_view(*board);
                assert forall|r: int, c: int| in_grid(g, r, c) implies (#[trigger] after[r][c]) == (
                if r < i || (r == i && c < j + 1) {
                    counted_cell(g, r, c)
                } else {
                    g[r][c]
                }) by {
                    assert(before[r][c] == (if r < i || (r == i && c < j) {
                        counted_cell(g, r, c)
                    } else {
                        g[r][c]
                    }));
                }
            }
            j += 1;
        }
        i += 1;
    }
    proof {
        let after = grid_view(*board);
        let want = with_counts(g);
        assert forall|r: int| 0 <= r < g.len() implies #[trigger] after[r] =~= want[r] by {
            assert forall|c: int| 0 <= c < g[r].len() implies after[r][c] == want[r][c] by {}
        }
    }
}

/// One row more adds that row's count.
pub proof fn lemma_count_take_row(g: Seq<Seq<Cell>>, r: int, p: spec_fn(Cell) -> bool)
    requires
        0 <= r < g.len(),
    ensures
        count_cells(g.take(r + 1), p) == count_cells(g.take(r), p) + count_row(g[r], p),
        g.take(g.len() as int) == g,
{
    assert(g.take(r + 1).drop_last() =~= g.take(r));
}

/// One cell more adds one where the cell satisfies `p`.
pub proof fn lemma_count_take_cell(row: Seq<Cell>, c: int, p: spec_fn(Cell) -> bool)
    requires
        0 <= c < row.len(),
    ensures
        count_row(row.take(c + 1), p) == count_row(row.take(c), p) + (if p(row[c]) {
            1nat
        } else {
            0nat
        }),
        row.take(row.len() as int) == row,
{
    assert(row.take(c + 1).drop_last() =~= row.take(c));
}

/// The blank cells before a position are at most those of the whole grid,
/// and fewer where the position holds a blank cell itself.
pub proof fn lemma_blanks_before_bound(g: Seq<Seq<Cell>>, r: int, c: int)
    requires
        0 <= r < g.len(),
        0 <= c <= g[r].len(),
    ensures
        blanks_before(g, r, c) <= blank_count(g),
        c < g[r].len() && g[r][c].is_blank() ==> blanks_before(g, r, c) < blank_count(g),
    decreases g.len() - r, g[r].len() - c,
{
    if c < g[r].len() {
        lemma_count_take_cell(g[r], c, is_blank());
        lemma_blanks_before_bound(g, r, c + 1);
    } else {
        lemma_count_take_row(g, r, is_blank());
        assert(g[r].take(c) =~= g[r]);
        if r + 1 < g.len() {
            lemma_blanks_before_bound(g, r + 1, 0);
        }
    }
}

/// Laying a mine on a blank cell adds one mine and takes one blank cell.
pub proof fn lemma_with_mine_counts(g: Seq<Seq<Cell>>, r: int, c: int)
    requires
        in_grid(g, r, c),
        g[r][c].is_blank(),
    ensures
        mine_count(with_mine(g, r, c)) == mine_count(g) + 1,
        blank_count(with_mine(g, r, c)) + 1 == blank_count(g),
        mines_added(g, with_mine(g, r, c)),
{
    let cell = g[r][c].with_content(Some(CellContents::Bomb));
    lemma_count_set_cell(g, r, c, cell, is_mine());
    lemma_count_set_cell(g, r, c, cell, is_blank());
}

/// Laying mines, and then more mines, is laying mines.
pub proof fn lemma_mines_added_trans(a: Seq<Seq<Cell>>, b: Seq<Seq<Cell>>, c: Seq<Seq<Cell>>)
    requires
        mines_added(a, b),
        mines_added(b, c),
    ensures
        mines_added(a, c),
{
    assert forall|r: int| 0 <= r < a.len() implies (#[trigger] a[r]).len() == c[r].len() by {}
    assert forall|r: int, col: int| in_grid(a, r, col) implies (#[trigger] c[r][col]) == a[r][col]
        || (a[r][col].is_blank() && c[r][col] == a[r][col].with_content(
        Some(CellContents::Bomb),
    )) by {
        assert(b[r][col] == a[r][col] || (a[r][col].is_blank() && b[r][col]
            == a[r][col].with_content(Some(CellContents::Bomb))));
        assert(c[r][col] == b[r][col] || (b[r][col].is_blank() && c[r][col]
            == b[r][col].with_content(Some(CellContents::Bomb))));
    }
}

/// The number of blank cells of the grid.
pub fn count_blank(board: &Vec<Vec<Cell>>) -> (count: usize)
    requires
        blank_count(grid_view(*board)) <= usize::MAX,
    ensures
        count == blank_count(grid_view(*board)),
{
    let ghost g = grid_view(*board);
    let mut count: usize = 0;
    let mut r: usize = 0;
    while r < board.len()
        invariant
            g == grid_view(*board),
            r <= g.len(),
            blank_count(g) <= usize::MAX,
            count == count_cells(g.take(r as int), is_blank()),
        decreases g.len() - r,
    {
        let mut c: usize = 0;
        while c < board[r].len()
            invariant
                g == grid_view(*board),
                r < g.len(),
                c <= g[r as int].len(),
                blank_count(g) <= usize::MAX,
                count == blanks_before(g, r as int, c as int),
            decreases g[r as int].len() - c,
        {
            proof {
                lemma_count_take_cell(g[r as int], c as int, is_blank());
                lemma_blanks_before_bound(g, r as int, c as int);
            }
            if board[r][c].cell_content.is_none() {
                count += 1;
            }
            c += 1;
        }
        proof {
            lemma_count_take_row(g, r as int, is_blank());
            assert(g[r as int].take(c as int) =~= g[r as int]);
        }
        r += 1;
    }
    proof {
        assert(g.take(r as int) =~= g);
    }
    count
}

/// Lays a mine on the blank cell that `n` blank cells precede, reading the
/// grid row by row, and returns where that is.
pub fn place_bomb(board: &mut Vec<Vec<Cell>>, n: usize) -> (at: (usize, usize))
    requires
        n < blank_count(grid_view(*old(board))),
    ensures
        nth_blank(grid_view(*old(board)), n as nat, at.0 as int, at.1 as int),
        grid_view(*final(board)) == with_mine(grid_view(*old(board)), at.0 as int, at.1 as int),
{
    let ghost g = grid_view(*board);
    let mut seen: usize = 0;
    let mut r: usize = 0;
    while r < board.len()
        invariant
            g == grid_view(*board),
            *board == *old(board),
            r <= g.len(),
            n < blank_count(g),
            seen == count_cells(g.take(r as int), is_blank()),
            seen <= n,
        decreases g.len() - r,
    {
        let mut c: usize = 0;
        while c < board[r].len()
            invariant
                g == grid_view(*board),
                *board == *old(board),
                r < g.len(),
                c <= g[r as int].len(),
                n < blank_count(g),
                seen == blanks_before(g, r as int, c as int),
                seen <= n,
            decreases g[r as int].len() - c,
        {
            proof {
                lemma_count_take_cell(g[r as int], c as int, is_blank());
            }
            if board[r][c].cell_content.is_none() {
                if seen == n {
                    board[r][c].set_cell_content(Some(CellContents::Bomb));
                    proof {
                        let after = grid_view(*board);
                        let want = with_mine(g, r as int, c as int);
                        assert forall|k: int| 0 <= k < g.len() implies #[trigger] after[k]
                            =~= want[k] by {}
                    }
                    return (r, c);
                }
                seen += 1;
            }
            c += 1;
        }
        proof {
            lemma_count_take_row(g, r as int, is_blank());
            assert(g[r as int].take(c as int) =~= g[r as int]);
        }
        r += 1;
    }
    proof {
        // Every blank cell has been passed, and there were more than `n`.
        assert(g.take(r as int) =~= g);
        assert(seen == blank_count(g));
    }
    (0, 0)
}

/// Lays `bombs` mines on blank cells, each drawn uniformly from the cells
/// that are still blank. Which cells get a mine is left to chance; how many
/// do, and that nothing else changes, is not.
pub fn add_bombs(board: &mut Vec<Vec<Cell>>, bombs: u32)
    requires
        bombs <= blank_count(grid_view(*old(board))) <= usize::MAX,
    ensures
        mines_added(grid_view(*old(board)), grid_view(*final(board))),
        mine_count(grid_view(*final(board))) == mine_count(grid_view(*old(board))) + bombs,
        blank_count(grid_view(*final(board))) + bombs == blank_count(grid_view(*old(board))),
{
    let ghost g = grid_view(*board);
    let mut rng = rand::thread_rng();
    let mut free: usize = count_blank(board);
    let mut placed: u32 = 0;
    while placed < bombs
        invariant
            g == grid_view(*old(board)),
            placed <= bombs <= blank_count(g),
            mines_added(g, grid_view(*board)),
            free == blank_count(grid_view(*board)),
            free + placed == blank_count(g),
            mine_count(grid_view(*board)) == mine_count(g) + placed,
        decreases bombs - placed,
    {
        let ghost before = grid_view(*board);
        let pick = pick_below(&mut rng, free);
        let at = place_bomb(board, pick);
        proof {
            lemma_with_mine_counts(before, at.0 as int, at.1 as int);
            lemma_mines_added_trans(g, before, grid_view(*board));
        }
        free -= 1;
        placed += 1;
    }
}

/// Grids that hold mines at the same positions have the same number of
/// mines in every block.
pub proof fn lemma_same_mines_same_block(a: Seq<Seq<Cell>>, b: Seq<Seq<Cell>>, i: int, j: int)
    requires
        same_shape(a, b),
        forall|r: int, c: int|
            in_grid(a, r, c) ==> (#[trigger] b[r][c]).is_mine() == a[r][c].is_mine(),
    ensures
        block_mines(a, i, j) == block_mines(b, i, j),
        adjacent_mines(a, i, j) == adjacent_mines(b, i, j),
{
    assert forall|r: int, c: int| mine_at(a, r, c) == mine_at(b, r, c) by {}
}

/// Filling in the counts of a grid whose cells are all mines or blank gives
/// a grid whose counts are right. No mine moves and no cell is revealed or
/// hidden by it.
pub proof fn lemma_with_counts(g: Seq<Seq<Cell>>)
    requires
        forall|r: int, c: int|
            in_grid(g, r, c) ==> (#[trigger] g[r][c]).is_mine() || g[r][c].is_blank(),
    ensures
        same_reveals(g, with_counts(g)),
        counts_consistent(with_counts(g)),
        cells_wf(with_counts(g)),
        forall|r: int, c: int|
            in_grid(g, r, c) ==> (#[trigger] with_counts(g)[r][c]).is_mine() == g[r][c].is_mine(),
{
    let w = with_counts(g);
    assert forall|r: int, c: int| in_grid(g, r, c) implies (#[trigger] w[r][c]).is_mine()
        == g[r][c].is_mine() by {}
    assert forall|r: int, c: int| in_grid(w, r, c) && !(#[trigger] w[r][c]).is_mine() implies w[r][c].cell_content
        == content_for(adjacent_mines(w, r, c)) by {
        lemma_same_mines_same_block(g, w, r, c);
    }
    assert forall|r: int, c: int| in_grid(w, r, c) implies (#[trigger] w[r][c]).wf() by {}
}

} // verus!
