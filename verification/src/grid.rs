//! The grid as a mathematical value: a sequence of rows of cells, with the
//! predicates and counts that the contracts of the board are stated over.

use vstd::prelude::*;
use crate::cell::{Cell, CellContents};

verus! {

/// The largest board size: the square of it still fits the hidden-cell counter.
pub const MAX_SIZE: usize = 65535;

/// The rows of a grid, each as a sequence of cells.
pub open spec fn grid_view(rows: Vec<Vec<Cell>>) -> Seq<Seq<Cell>> {
    Seq::new(rows@.len(), |r: int| rows@[r]@)
}

/// `(r, c)` is a position of the grid.
pub open spec fn in_grid(g: Seq<Seq<Cell>>, r: int, c: int) -> bool {
    0 <= r < g.len() && 0 <= c < g[r].len()
}

/// Every row is as long as the grid has rows.
pub open spec fn is_square(g: Seq<Seq<Cell>>) -> bool {
    forall|r: int| 0 <= r < g.len() ==> (#[trigger] g[r]).len() == g.len()
}

/// A square grid of at least one and at most `MAX_SIZE` rows.
pub open spec fn valid_grid(g: Seq<Seq<Cell>>) -> bool {
    0 < g.len() <= MAX_SIZE && is_square(g)
}

/// Every neighbour count in the grid is at most eight.
pub open spec fn cells_wf(g: Seq<Seq<Cell>>) -> bool {
    forall|r: int, c: int| in_grid(g, r, c) ==> (#[trigger] g[r][c]).wf()
}

/// Two grids have the same number of rows, and row by row the same length.
pub open spec fn same_shape(a: Seq<Seq<Cell>>, b: Seq<Seq<Cell>>) -> bool {
    &&& a.len() == b.len()
    &&& forall|r: int| 0 <= r < a.len() ==> (#[trigger] a[r]).len() == b[r].len()
}

/// Two grids of the same shape hold the same content cell by cell; which
/// cells are revealed may differ.
pub open spec fn same_contents(a: Seq<Seq<Cell>>, b: Seq<Seq<Cell>>) -> bool {
    &&& same_shape(a, b)
    &&& forall|r: int, c: int|
        in_grid(a, r, c) ==> (#[trigger] a[r][c]).cell_content == b[r][c].cell_content
}

/// Two grids of the same shape agree on which cells are revealed.
pub open spec fn same_reveals(a: Seq<Seq<Cell>>, b: Seq<Seq<Cell>>) -> bool {
    &&& same_shape(a, b)
    &&& forall|r: int, c: int| in_grid(a, r, c) ==> (#[trigger] a[r][c]).reveal == b[r][c].reveal
}

/// `b` is `a` with some more cells revealed and nothing else changed.
pub open spec fn reveals_more(a: Seq<Seq<Cell>>, b: Seq<Seq<Cell>>) -> bool {
    &&& same_contents(a, b)
    &&& forall|r: int, c: int| in_grid(a, r, c) && (#[trigger] a[r][c]).reveal ==> b[r][c].reveal
}

/// The grid with the cell at `(r, c)` replaced.
pub open spec fn set_cell(g: Seq<Seq<Cell>>, r: int, c: int, cell: Cell) -> Seq<Seq<Cell>> {
    g.update(r, g[r].update(c, cell))
}

/// `(r, c)` is a position of the grid and holds a mine.
pub open spec fn mine_at(g: Seq<Seq<Cell>>, r: int, c: int) -> bool {
    in_grid(g, r, c) && g[r][c].is_mine()
}

/// One where `(r, c)` holds a mine, zero where it does not or lies outside.
pub open spec fn mines_at(g: Seq<Seq<Cell>>, r: int, c: int) -> nat {
    if mine_at(g, r, c) {
        1
    } else {
        0
    }
}

/// The mines among `(r, c - 1)`, `(r, c)` and `(r, c + 1)`.
pub open spec fn row_mines(g: Seq<Seq<Cell>>, r: int, c: int) -> nat {
    mines_at(g, r, c - 1) + mines_at(g, r, c) + mines_at(g, r, c + 1)
}

/// The mines in the three-by-three block centred at `(r, c)`, the centre
/// included; positions outside the grid count as free of mines.
pub open spec fn block_mines(g: Seq<Seq<Cell>>, r: int, c: int) -> nat {
    row_mines(g, r - 1, c) + row_mines(g, r, c) + row_mines(g, r + 1, c)
}

/// The mines in the eight cells around `(r, c)`.
pub open spec fn adjacent_mines(g: Seq<Seq<Cell>>, r: int, c: int) -> nat {
    (block_mines(g, r, c) - mines_at(g, r, c)) as nat
}

/// What a cell that is no mine holds when `n` mines surround it.
pub open spec fn content_for(n: nat) -> Option<CellContents> {
    if n == 0 {
        None
    } else {
        Some(CellContents::Neighbors(n as u8))
    }
}

/// Every cell that is no mine holds the number of mines around it, and
/// nothing where there is none.
pub open spec fn counts_consistent(g: Seq<Seq<Cell>>) -> bool {
    forall|r: int, c: int|
        in_grid(g, r, c) && !(#[trigger] g[r][c]).is_mine() ==> g[r][c].cell_content
            == content_for(adjacent_mines(g, r, c))
}

/// No cell of the grid is revealed.
pub open spec fn all_hidden(g: Seq<Seq<Cell>>) -> bool {
    forall|r: int, c: int| in_grid(g, r, c) ==> !(#[trigger] g[r][c]).reveal
}

/// No mine of the grid is revealed.
pub open spec fn no_mine_revealed(g: Seq<Seq<Cell>>) -> bool {
    forall|r: int, c: int| in_grid(g, r, c) && (#[trigger] g[r][c]).is_mine() ==> !g[r][c].reveal
}

/// Every cell that is no mine is revealed.
pub open spec fn all_safe_revealed(g: Seq<Seq<Cell>>) -> bool {
    forall|r: int, c: int| in_grid(g, r, c) && !(#[trigger] g[r][c]).is_mine() ==> g[r][c].reveal
}

/// The number of cells of a row that satisfy `p`.
pub open spec fn count_row(row: Seq<Cell>, p: spec_fn(Cell) -> bool) -> nat
    decreases row.len(),
{
    if row.len() == 0 {
        0
    } else {
        count_row(row.drop_last(), p) + (if p(row.last()) {
            1nat
        } else {
            0nat
        })
    }
}

/// The number of cells of a grid that satisfy `p`.
pub open spec fn count_cells(g: Seq<Seq<Cell>>, p: spec_fn(Cell) -> bool) -> nat
    decreases g.len(),
{
    if g.len() == 0 {
        0
    } else {
        count_cells(g.drop_last(), p) + count_row(g.last(), p)
    }
}

/// The cell is hidden.
pub open spec fn is_hidden() -> spec_fn(Cell) -> bool {
    |cell: Cell| !cell.reveal
}

/// The cell holds a mine.
pub open spec fn is_mine() -> spec_fn(Cell) -> bool {
    |cell: Cell| cell.is_mine()
}

/// The cell is blank.
pub open spec fn is_blank() -> spec_fn(Cell) -> bool {
    |cell: Cell| cell.is_blank()
}

/// The cell is hidden and holds no mine.
pub open spec fn is_hidden_safe() -> spec_fn(Cell) -> bool {
    |cell: Cell| !cell.reveal && !cell.is_mine()
}

/// The cell is hidden and holds a mine.
pub open spec fn is_hidden_mine() -> spec_fn(Cell) -> bool {
    |cell: Cell| !cell.reveal && cell.is_mine()
}

/// The number of hidden cells, mines included.
pub open spec fn hidden_count(g: Seq<Seq<Cell>>) -> nat {
    count_cells(g, is_hidden())
}

/// The number of mines.
pub open spec fn mine_count(g: Seq<Seq<Cell>>) -> nat {
    count_cells(g, is_mine())
}

/// The number of blank cells.
pub open spec fn blank_count(g: Seq<Seq<Cell>>) -> nat {
    count_cells(g, is_blank())
}

/// `a - b` where that is not negative, zero where it is.
pub open spec fn sub_or_zero(a: int, b: int) -> nat {
    if a >= b {
        (a - b) as nat
    } else {
        0
    }
}

/// Where `p` on a row implies `q` on another, cell by cell, the first count
/// is at most the second.
pub proof fn lemma_count_row_le(
    a: Seq<Cell>,
    p: spec_fn(Cell) -> bool,
    b: Seq<Cell>,
    q: spec_fn(Cell) -> bool,
)
    requires
        a.len() == b.len(),
        forall|k: int| 0 <= k < a.len() && p(#[trigger] a[k]) ==> q(b[k]),
    ensures
        count_row(a, p) <= count_row(b, q),
    decreases a.len(),
{
    if a.len() > 0 {
        lemma_count_row_le(a.drop_last(), p, b.drop_last(), q);
    }
}

/// Where `p` on a grid implies `q` on another of the same shape, cell by
/// cell, the first count is at most the second.
pub proof fn lemma_count_cells_le(
    a: Seq<Seq<Cell>>,
    p: spec_fn(Cell) -> bool,
    b: Seq<Seq<Cell>>,
    q: spec_fn(Cell) -> bool,
)
    requires
        same_shape(a, b),
        forall|r: int, c: int| in_grid(a, r, c) && p(#[trigger] a[r][c]) ==> q(b[r][c]),
    ensures
        count_cells(a, p) <= count_cells(b, q),
    decreases a.len(),
{
    if a.len() > 0 {
        let last = a.len() - 1;
        assert forall|r: int| 0 <= r < a.drop_last().len() implies (#[trigger] a.drop_last()[r]).len()
            == b.drop_last()[r].len() by {}
        assert forall|r: int, c: int|
            in_grid(a.drop_last(), r, c) && p(#[trigger] a.drop_last()[r][c]) implies q(
            b.drop_last()[r][c],
        ) by {}
        lemma_count_cells_le(a.drop_last(), p, b.drop_last(), q);
        assert forall|k: int| 0 <= k < a.last().len() && p(#[trigger] a.last()[k]) implies q(
            b.last()[k],
        ) by {}
        lemma_count_row_le(a.last(), p, b.last(), q);
    }
}

/// Where `p` on a grid holds exactly where `q` holds on another of the same
/// shape, the counts are equal.
pub proof fn lemma_count_cells_eq(
    a: Seq<Seq<Cell>>,
    p: spec_fn(Cell) -> bool,
    b: Seq<Seq<Cell>>,
    q: spec_fn(Cell) -> bool,
)
    requires
        same_shape(a, b),
        forall|r: int, c: int| in_grid(a, r, c) ==> p(#[trigger] a[r][c]) == q(b[r][c]),
    ensures
        count_cells(a, p) == count_cells(b, q),
{
    lemma_count_cells_le(a, p, b, q);
    assert forall|r: int, c: int| in_grid(b, r, c) && q(#[trigger] b[r][c]) implies p(a[r][c]) by {}
    assert forall|r: int| 0 <= r < b.len() implies (#[trigger] b[r]).len() == a[r].len() by {}
    lemma_count_cells_le(b, q, a, p);
}

/// Replacing one cell of a row changes the count by what the old cell and
/// the new one contribute.
pub proof fn lemma_count_row_update(row: Seq<Cell>, k: int, cell: Cell, p: spec_fn(Cell) -> bool)
    requires
        0 <= k < row.len(),
    ensures
        count_row(row.update(k, cell), p) + (if p(row[k]) {
            1nat
        } else {
            0nat
        }) == count_row(row, p) + (if p(cell) {
            1nat
        } else {
            0nat
        }),
    decreases row.len(),
{
    let next = row.update(k, cell);
    if k == row.len() - 1 {
        assert(next.drop_last() =~= row.drop_last());
    } else {
        assert(next.drop_last() =~= row.drop_last().update(k, cell));
        lemma_count_row_update(row.drop_last(), k, cell, p);
    }
}

/// Replacing one row of a grid changes the count by what the old row and the
/// new one contribute.
pub proof fn lemma_count_cells_update_row(
    g: Seq<Seq<Cell>>,
    r: int,
    row: Seq<Cell>,
    p: spec_fn(Cell) -> bool,
)
    requires
        0 <= r < g.len(),
    ensures
        count_cells(g.update(r, row), p) + count_row(g[r], p) == count_cells(g, p) + count_row(
            row,
            p,
        ),
    decreases g.len(),
{
    let next = g.update(r, row);
    if r == g.len() - 1 {
        assert(next.drop_last() =~= g.drop_last());
    } else {
        assert(next.drop_last() =~= g.drop_last().update(r, row));
        lemma_count_cells_update_row(g.drop_last(), r, row, p);
    }
}

/// Replacing one cell of a grid changes the count by what the old cell and
/// the new one contribute.
pub proof fn lemma_count_set_cell(
    g: Seq<Seq<Cell>>,
    r: int,
    c: int,
    cell: Cell,
    p: spec_fn(Cell) -> bool,
)
    requires
        in_grid(g, r, c),
    ensures
        count_cells(set_cell(g, r, c, cell), p) + (if p(g[r][c]) {
            1nat
        } else {
            0nat
        }) == count_cells(g, p) + (if p(cell) {
            1nat
        } else {
            0nat
        }),
{
    lemma_count_row_update(g[r], c, cell, p);
    lemma_count_cells_update_row(g, r, g[r].update(c, cell), p);
}

/// A row's count is zero exactly where no cell of it satisfies `p`, and never
/// exceeds the row's length.
pub proof fn lemma_count_row_bounds(row: Seq<Cell>, p: spec_fn(Cell) -> bool)
    ensures
        count_row(row, p) <= row.len(),
        count_row(row, p) == 0 <==> (forall|k: int| 0 <= k < row.len() ==> !p(#[trigger] row[k])),
        count_row(row, p) == row.len() <==> (forall|k: int|
            0 <= k < row.len() ==> p(#[trigger] row[k])),
    decreases row.len(),
{
    if row.len() > 0 {
        let init = row.drop_last();
        lemma_count_row_bounds(init, p);
        if count_row(row, p) == 0 {
            assert forall|k: int| 0 <= k < row.len() implies !p(#[trigger] row[k]) by {
                if k < init.len() {
                    assert(!p(init[k]));
                }
            }
        }
        if forall|k: int| 0 <= k < row.len() ==> !p(#[trigger] row[k]) {
            assert forall|k: int| 0 <= k < init.len() implies !p(#[trigger] init[k]) by {}
        }
        if count_row(row, p) == row.len() {
            assert forall|k: int| 0 <= k < row.len() implies p(#[trigger] row[k]) by {
                if k < init.len() {
                    assert(p(init[k]));
                }
            }
        }
        if forall|k: int| 0 <= k < row.len() ==> p(#[trigger] row[k]) {
            assert forall|k: int| 0 <= k < init.len() implies p(#[trigger] init[k]) by {}
        }
    }
}

/// A grid's count is zero exactly where no cell of it satisfies `p`.
pub proof fn lemma_count_cells_zero(g: Seq<Seq<Cell>>, p: spec_fn(Cell) -> bool)
    ensures
        count_cells(g, p) == 0 <==> (forall|r: int, c: int|
            in_grid(g, r, c) ==> !p(#[trigger] g[r][c])),
    decreases g.len(),
{
    if g.len() > 0 {
        let init = g.drop_last();
        let last = g.len() - 1;
        lemma_count_cells_zero(init, p);
        lemma_count_row_bounds(g.last(), p);
        if count_cells(g, p) == 0 {
            assert forall|r: int, c: int| in_grid(g, r, c) implies !p(#[trigger] g[r][c]) by {
                if r < last {
                    assert(in_grid(init, r, c));
                }
            }
        }
        if forall|r: int, c: int| in_grid(g, r, c) ==> !p(#[trigger] g[r][c]) {
            assert forall|r: int, c: int| in_grid(init, r, c) implies !p(#[trigger] init[r][c]) by {}
            assert forall|k: int| 0 <= k < g.last().len() implies !p(#[trigger] g.last()[k]) by {}
        }
    }
}

/// In a grid whose rows are all `width` long, the count is at most the
/// number of cells, and equal to it exactly where every cell satisfies `p`.
pub proof fn lemma_count_cells_full(g: Seq<Seq<Cell>>, width: nat, p: spec_fn(Cell) -> bool)
    requires
        forall|r: int| 0 <= r < g.len() ==> (#[trigger] g[r]).len() == width,
    ensures
        count_cells(g, p) <= g.len() * width,
        count_cells(g, p) == g.len() * width <==> (forall|r: int, c: int|
            in_grid(g, r, c) ==> p(#[trigger] g[r][c])),
    decreases g.len(),
{
    if g.len() == 0 {
        assert(g.len() * width == 0) by (nonlinear_arith)
            requires
                g.len() == 0,
        ;
    } else {
        let init = g.drop_last();
        let last = g.len() - 1;
        assert forall|r: int| 0 <= r < init.len() implies (#[trigger] init[r]).len() == width by {}
        lemma_count_cells_full(init, width, p);
        lemma_count_row_bounds(g.last(), p);
        assert(g.len() * width == init.len() * width + width) by (nonlinear_arith)
            requires
                g.len() == init.len() + 1,
        ;
        if count_cells(g, p) == g.len() * width {
            assert forall|r: int, c: int| in_grid(g, r, c) implies p(#[trigger] g[r][c]) by {
                if r < last {
                    assert(in_grid(init, r, c));
                }
            }
        }
        if forall|r: int, c: int| in_grid(g, r, c) ==> p(#[trigger] g[r][c]) {
            assert forall|r: int, c: int| in_grid(init, r, c) implies p(#[trigger] init[r][c]) by {}
            assert forall|k: int| 0 <= k < g.last().len() implies p(#[trigger] g.last()[k]) by {}
        }
    }
}

/// Where every cell satisfies `p` exactly if it satisfies one of `q1` and
/// `q2`, and never both, the count for `p` is the sum of the other two.
pub proof fn lemma_count_cells_split(
    g: Seq<Seq<Cell>>,
    p: spec_fn(Cell) -> bool,
    q1: spec_fn(Cell) -> bool,
    q2: spec_fn(Cell) -> bool,
)
    requires
        forall|cell: Cell| #[trigger] p(cell) == (q1(cell) || q2(cell)),
        forall|cell: Cell| !(#[trigger] q1(cell) && q2(cell)),
    ensures
        count_cells(g, p) == count_cells(g, q1) + count_cells(g, q2),
    decreases g.len(),
{
    if g.len() > 0 {
        lemma_count_cells_split(g.drop_last(), p, q1, q2);
        lemma_count_row_split(g.last(), p, q1, q2);
    }
}

/// The same for one row.
pub proof fn lemma_count_row_split(
    row: Seq<Cell>,
    p: spec_fn(Cell) -> bool,
    q1: spec_fn(Cell) -> bool,
    q2: spec_fn(Cell) -> bool,
)
    requires
        forall|cell: Cell| #[trigger] p(cell) == (q1(cell) || q2(cell)),
        forall|cell: Cell| !(#[trigger] q1(cell) && q2(cell)),
    ensures
        count_row(row, p) == count_row(row, q1) + count_row(row, q2),
    decreases row.len(),
{
    if row.len() > 0 {
        lemma_count_row_split(row.drop_last(), p, q1, q2);
    }
}

} // verus!
