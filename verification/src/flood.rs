//! Which cells a reveal uncovers: the cell itself and, through blank cells,
//! everything hidden that a chain of touching cells leads to.

use vstd::prelude::*;
use crate::cell::Cell;
use crate::grid::{
    hidden_count, in_grid, is_hidden, lemma_count_cells_le, lemma_count_set_cell, reveals_more,
    same_shape, set_cell,
};

verus! {

/// Two distinct positions touch, side by side or corner to corner.
pub open spec fn adjacent(r1: int, c1: int, r2: int, c2: int) -> bool {
    -1 <= r2 - r1 <= 1 && -1 <= c2 - c1 <= 1 && (r1 != r2 || c1 != c2)
}

/// The eight positions around `(i, j)` in the order in which a cascade
/// visits them: up, up-right, right, down-right, down, down-left, left,
/// up-left.
pub open spec fn neighbor(i: int, j: int, k: int) -> (int, int) {
    if k == 0 {
        (i - 1, j)
    } else if k == 1 {
        (i - 1, j + 1)
    } else if k == 2 {
        (i, j + 1)
    } else if k == 3 {
        (i + 1, j + 1)
    } else if k == 4 {
        (i + 1, j)
    } else if k == 5 {
        (i + 1, j - 1)
    } else if k == 6 {
        (i, j - 1)
    } else {
        (i - 1, j - 1)
    }
}

/// `(r, c)` is a position of the grid whose cell is hidden.
pub open spec fn hidden_at(g: Seq<Seq<Cell>>, r: int, c: int) -> bool {
    in_grid(g, r, c) && !g[r][c].reveal
}

/// The `k`-th position of the path is a hidden cell of the grid.
pub open spec fn on_hidden(g: Seq<Seq<Cell>>, p: Seq<(int, int)>, k: int) -> bool {
    hidden_at(g, p[k].0, p[k].1)
}

/// The `k`-th position of the path is a blank cell, and the next one touches it.
pub open spec fn cascades(g: Seq<Seq<Cell>>, p: Seq<(int, int)>, k: int) -> bool {
    g[p[k].0][p[k].1].is_blank() && adjacent(p[k].0, p[k].1, p[k + 1].0, p[k + 1].1)
}

/// A path along which a reveal spreads: hidden cells, each touching the
/// next, and all but the last of them blank. A cell that holds a count or a
/// mine ends the path.
pub open spec fn flood_path(g: Seq<Seq<Cell>>, p: Seq<(int, int)>) -> bool {
    &&& p.len() > 0
    &&& forall|k: int| 0 <= k < p.len() ==> #[trigger] on_hidden(g, p, k)
    &&& forall|k: int| 0 <= k < p.len() - 1 ==> #[trigger] cascades(g, p, k)
}

/// `p` is such a path from `(i, j)` to `(r, c)`.
pub open spec fn path_joins(
    g: Seq<Seq<Cell>>,
    p: Seq<(int, int)>,
    i: int,
    j: int,
    r: int,
    c: int,
) -> bool {
    flood_path(g, p) && p[0] == (i, j) && p.last() == (r, c)
}

/// Revealing `(i, j)` uncovers `(r, c)`.
pub open spec fn floods(g: Seq<Seq<Cell>>, i: int, j: int, r: int, c: int) -> bool {
    exists|p: Seq<(int, int)>| #[trigger] path_joins(g, p, i, j, r, c)
}

/// The grid after revealing `(i, j)`: every cell that the reveal uncovers is
/// revealed, and nothing else changes.
pub open spec fn flood_reveal(g: Seq<Seq<Cell>>, i: int, j: int) -> Seq<Seq<Cell>> {
    Seq::new(
        g.len(),
        |r: int|
            Seq::new(
                g[r].len(),
                |c: int|
                    if floods(g, i, j, r, c) {
                        g[r][c].revealed()
                    } else {
                        g[r][c]
                    },
            ),
    )
}

/// The grid with the cell at `(i, j)` revealed.
pub open spec fn reveal_at(g: Seq<Seq<Cell>>, i: int, j: int) -> Seq<Seq<Cell>> {
    set_cell(g, i, j, g[i][j].revealed())
}

/// Step `k` of a cascade: the next grid is the one before with the `k`-th
/// neighbour of `(i, j)` revealed.
pub open spec fn chain_step(gs: Seq<Seq<Seq<Cell>>>, i: int, j: int, k: int) -> bool {
    gs[k + 1] == flood_reveal(gs[k], neighbor(i, j, k).0, neighbor(i, j, k).1)
}

/// The grids that a cascade from `(i, j)` passes through: first the cell
/// itself is revealed, then each of its eight neighbours in turn.
pub open spec fn cascade_chain(g: Seq<Seq<Cell>>, i: int, j: int, gs: Seq<Seq<Seq<Cell>>>) -> bool {
    &&& gs.len() == 9
    &&& gs[0] == reveal_at(g, i, j)
    &&& forall|k: int| 0 <= k < 8 ==> #[trigger] chain_step(gs, i, j, k)
}

/// A reveal uncovers hidden cells only, and only from a hidden cell.
pub proof fn lemma_floods_ends(g: Seq<Seq<Cell>>, i: int, j: int, r: int, c: int)
    requires
        floods(g, i, j, r, c),
    ensures
        hidden_at(g, i, j),
        hidden_at(g, r, c),
{
    let p = choose|p: Seq<(int, int)>| #[trigger] path_joins(g, p, i, j, r, c);
    assert(on_hidden(g, p, 0));
    assert(on_hidden(g, p, p.len() - 1));
}

/// Revealing a hidden cell uncovers that cell.
pub proof fn lemma_floods_self(g: Seq<Seq<Cell>>, r: int, c: int)
    requires
        hidden_at(g, r, c),
    ensures
        floods(g, r, c, r, c),
{
    let p = seq![(r, c)];
    assert forall|k: int| 0 <= k < p.len() implies #[trigger] on_hidden(g, p, k) by {}
    assert(path_joins(g, p, r, c, r, c));
}

/// Revealing a cell that is not blank uncovers no other cell.
pub proof fn lemma_floods_only_self(g: Seq<Seq<Cell>>, i: int, j: int, r: int, c: int)
    requires
        floods(g, i, j, r, c),
        !g[i][j].is_blank(),
    ensures
        r == i,
        c == j,
{
    let p = choose|p: Seq<(int, int)>| #[trigger] path_joins(g, p, i, j, r, c);
    if p.len() > 1 {
        assert(cascades(g, p, 0));
    }
}

/// What a reveal uncovers, it uncovers onward through blank cells: from an
/// uncovered blank cell to every hidden cell that touches it.
pub proof fn lemma_floods_step(
    g: Seq<Seq<Cell>>,
    i: int,
    j: int,
    r: int,
    c: int,
    r2: int,
    c2: int,
)
    requires
        floods(g, i, j, r, c),
        g[r][c].is_blank(),
        adjacent(r, c, r2, c2),
        hidden_at(g, r2, c2),
    ensures
        floods(g, i, j, r2, c2),
{
    let p = choose|p: Seq<(int, int)>| #[trigger] path_joins(g, p, i, j, r, c);
    let q = p.push((r2, c2));
    assert forall|k: int| 0 <= k < q.len() implies #[trigger] on_hidden(g, q, k) by {
        if k < p.len() {
            assert(on_hidden(g, p, k));
        }
    }
    assert forall|k: int| 0 <= k < q.len() - 1 implies #[trigger] cascades(g, q, k) by {
        if k < p.len() - 1 {
            assert(cascades(g, p, k));
        }
    }
    assert(path_joins(g, q, i, j, r2, c2));
}

/// What revealing a neighbour of a hidden blank cell uncovers, in the grid
/// or in one with more cells revealed, revealing the cell itself uncovers.
pub proof fn lemma_floods_through(
    g: Seq<Seq<Cell>>,
    g2: Seq<Seq<Cell>>,
    i: int,
    j: int,
    ni: int,
    nj: int,
    r: int,
    c: int,
)
    requires
        hidden_at(g, i, j),
        g[i][j].is_blank(),
        adjacent(i, j, ni, nj),
        reveals_more(g, g2),
        floods(g2, ni, nj, r, c),
    ensures
        floods(g, i, j, r, c),
{
    let p = choose|p: Seq<(int, int)>| #[trigger] path_joins(g2, p, ni, nj, r, c);
    let q = seq![(i, j)] + p;
    assert forall|k: int| 0 <= k < q.len() implies #[trigger] on_hidden(g, q, k) by {
        if k > 0 {
            assert(on_hidden(g2, p, k - 1));
            lemma_same_shape_in_grid(g, g2, q[k].0, q[k].1);
        }
    }
    assert forall|k: int| 0 <= k < q.len() - 1 implies #[trigger] cascades(g, q, k) by {
        if k > 0 {
            assert(cascades(g2, p, k - 1));
            assert(on_hidden(g2, p, k - 1));
            lemma_same_shape_in_grid(g, g2, q[k].0, q[k].1);
        }
    }
    assert(path_joins(g, q, i, j, r, c));
}

/// Grids of the same shape have the same positions.
pub proof fn lemma_same_shape_in_grid(a: Seq<Seq<Cell>>, b: Seq<Seq<Cell>>, r: int, c: int)
    requires
        same_shape(a, b),
    ensures
        in_grid(a, r, c) == in_grid(b, r, c),
{
}

/// A position touches `(i, j)` exactly if it is one of its eight neighbours.
pub proof fn lemma_adjacent_neighbor(i: int, j: int, r: int, c: int) -> (k: int)
    requires
        adjacent(i, j, r, c),
    ensures
        0 <= k < 8,
        neighbor(i, j, k) == (r, c),
{
    if r == i - 1 {
        if c == j - 1 {
            7
        } else if c == j {
            0
        } else {
            1
        }
    } else if r == i {
        if c == j - 1 {
            6
        } else {
            2
        }
    } else {
        if c == j - 1 {
            5
        } else if c == j {
            4
        } else {
            3
        }
    }
}

/// A reveal changes no content and hides nothing: in the grid after it a
/// cell is revealed exactly if it was before or the reveal uncovers it.
pub proof fn lemma_flood_reveal_cells(g: Seq<Seq<Cell>>, i: int, j: int)
    ensures
        reveals_more(g, flood_reveal(g, i, j)),
        forall|r: int, c: int|
            in_grid(g, r, c) ==> (#[trigger] flood_reveal(g, i, j)[r][c]).reveal == (g[r][c].reveal
                || floods(g, i, j, r, c)),
{
}

/// Revealing one cell changes no content and hides nothing.
pub proof fn lemma_reveal_at_more(g: Seq<Seq<Cell>>, i: int, j: int)
    requires
        in_grid(g, i, j),
    ensures
        reveals_more(g, reveal_at(g, i, j)),
{
}

/// Revealing a position that is outside the grid, or whose cell is revealed
/// already, changes nothing.
pub proof fn lemma_flood_nothing(g: Seq<Seq<Cell>>, i: int, j: int)
    requires
        !hidden_at(g, i, j),
    ensures
        flood_reveal(g, i, j) == g,
{
    let after = flood_reveal(g, i, j);
    assert forall|r: int| 0 <= r < g.len() implies #[trigger] after[r] =~= g[r] by {
        assert forall|c: int| 0 <= c < g[r].len() implies after[r][c] == g[r][c] by {
            if floods(g, i, j, r, c) {
                lemma_floods_ends(g, i, j, r, c);
            }
        }
    }
}

/// Revealing a hidden cell that holds a count or a mine reveals that cell
/// and no other: the cascade does not pass through it.
pub proof fn lemma_flood_single(g: Seq<Seq<Cell>>, i: int, j: int)
    requires
        hidden_at(g, i, j),
        !g[i][j].is_blank(),
    ensures
        flood_reveal(g, i, j) == reveal_at(g, i, j),
{
    let after = flood_reveal(g, i, j);
    let want = reveal_at(g, i, j);
    lemma_floods_self(g, i, j);
    assert forall|r: int| 0 <= r < g.len() implies #[trigger] after[r] =~= want[r] by {
        assert forall|c: int| 0 <= c < g[r].len() implies after[r][c] == want[r][c] by {
            if floods(g, i, j, r, c) {
                lemma_floods_only_self(g, i, j, r, c);
            }
        }
    }
}

/// Revealing more cells leaves no more cells hidden.
pub proof fn lemma_reveals_more_count(a: Seq<Seq<Cell>>, b: Seq<Seq<Cell>>)
    requires
        reveals_more(a, b),
    ensures
        hidden_count(b) <= hidden_count(a),
{
    assert forall|r: int| 0 <= r < b.len() implies (#[trigger] b[r]).len() == a[r].len() by {}
    assert forall|r: int, c: int| in_grid(b, r, c) && is_hidden()(#[trigger] b[r][c]) implies is_hidden()(
        a[r][c],
    ) by {
        lemma_same_shape_in_grid(a, b, r, c);
    }
    lemma_count_cells_le(b, is_hidden(), a, is_hidden());
}

/// A reveal leaves no more cells hidden than there were.
pub proof fn lemma_flood_reveal_count(g: Seq<Seq<Cell>>, i: int, j: int)
    ensures
        hidden_count(flood_reveal(g, i, j)) <= hidden_count(g),
{
    lemma_flood_reveal_cells(g, i, j);
    lemma_reveals_more_count(g, flood_reveal(g, i, j));
}

/// Revealing one hidden cell leaves one cell fewer hidden.
pub proof fn lemma_reveal_at_count(g: Seq<Seq<Cell>>, i: int, j: int)
    requires
        hidden_at(g, i, j),
    ensures
        hidden_count(reveal_at(g, i, j)) + 1 == hidden_count(g),
{
    lemma_count_set_cell(g, i, j, g[i][j].revealed(), is_hidden());
}

/// Revealing more, and then more again, is revealing more.
pub proof fn lemma_reveals_more_trans(a: Seq<Seq<Cell>>, b: Seq<Seq<Cell>>, c: Seq<Seq<Cell>>)
    requires
        reveals_more(a, b),
        reveals_more(b, c),
    ensures
        reveals_more(a, c),
{
    assert forall|r: int| 0 <= r < a.len() implies (#[trigger] a[r]).len() == c[r].len() by {}
    assert forall|r: int, col: int| in_grid(a, r, col) implies (#[trigger] a[r][col]).cell_content
        == c[r][col].cell_content && (a[r][col].reveal ==> c[r][col].reveal) by {
        lemma_same_shape_in_grid(a, b, r, col);
    }
}

/// Along a cascade cells only get revealed: each grid reveals more than
/// every earlier one.
pub proof fn lemma_chain_more(
    g: Seq<Seq<Cell>>,
    i: int,
    j: int,
    gs: Seq<Seq<Seq<Cell>>>,
    a: int,
    b: int,
)
    requires
        in_grid(g, i, j),
        cascade_chain(g, i, j, gs),
        0 <= a <= b <= 8,
    ensures
        reveals_more(gs[a], gs[b]),
        reveals_more(g, gs[a]),
    decreases b - a, a,
{
    if a == 0 {
        lemma_reveal_at_more(g, i, j);
    } else {
        lemma_chain_more(g, i, j, gs, a - 1, a - 1);
        assert(chain_step(gs, i, j, a - 1));
        lemma_flood_reveal_cells(gs[a - 1], neighbor(i, j, a - 1).0, neighbor(i, j, a - 1).1);
        lemma_reveals_more_trans(g, gs[a - 1], gs[a]);
    }
    if a < b {
        lemma_chain_more(g, i, j, gs, a, b - 1);
        assert(chain_step(gs, i, j, b - 1));
        lemma_flood_reveal_cells(gs[b - 1], neighbor(i, j, b - 1).0, neighbor(i, j, b - 1).1);
        lemma_reveals_more_trans(gs[a], gs[b - 1], gs[b]);
    }
}

/// A cell that is hidden at one point of a cascade and revealed at a later
/// one is revealed by one of the steps between.
pub proof fn lemma_chain_first(
    gs: Seq<Seq<Seq<Cell>>>,
    r: int,
    c: int,
    lo: int,
    hi: int,
) -> (k: int)
    requires
        0 <= lo < hi <= 8,
        gs.len() == 9,
        !gs[lo][r][c].reveal,
        gs[hi][r][c].reveal,
    ensures
        lo <= k < hi,
        !gs[k][r][c].reveal,
        gs[k + 1][r][c].reveal,
    decreases hi - lo,
{
    if gs[lo + 1][r][c].reveal {
        lo
    } else {
        lemma_chain_first(gs, r, c, lo + 1, hi)
    }
}

/// Every cell on a path that starts at `(i, j)` is revealed at the end of
/// the cascade from `(i, j)`.
pub proof fn lemma_chain_covers_path(
    g: Seq<Seq<Cell>>,
    i: int,
    j: int,
    gs: Seq<Seq<Seq<Cell>>>,
    p: Seq<(int, int)>,
    t: int,
)
    requires
        hidden_at(g, i, j),
        g[i][j].is_blank(),
        cascade_chain(g, i, j, gs),
        flood_path(g, p),
        p[0] == (i, j),
        0 <= t < p.len(),
    ensures
        gs[8][p[t].0][p[t].1].reveal,
    decreases t,
{
    let (zr, zc) = p[t];
    assert(on_hidden(g, p, t));
    lemma_chain_more(g, i, j, gs, 0, 8);
    lemma_same_shape_in_grid(g, gs[0], zr, zc);
    if t > 0 {
        let (yr, yc) = p[t - 1];
        lemma_chain_covers_path(g, i, j, gs, p, t - 1);
        assert(on_hidden(g, p, t - 1));
        assert(cascades(g, p, t - 1));
        let k = if yr == i && yc == j {
            lemma_adjacent_neighbor(i, j, zr, zc)
        } else {
            lemma_same_shape_in_grid(g, gs[0], yr, yc);
            lemma_chain_first(gs, yr, yc, 0, 8)
        };
        let (nr, nc) = neighbor(i, j, k);
        assert(chain_step(gs, i, j, k));
        lemma_chain_more(g, i, j, gs, k, 8);
        lemma_chain_more(g, i, j, gs, k + 1, 8);
        lemma_flood_reveal_cells(gs[k], nr, nc);
        lemma_same_shape_in_grid(g, gs[k], zr, zc);
        lemma_same_shape_in_grid(g, gs[k], yr, yc);
        lemma_same_shape_in_grid(g, gs[k + 1], zr, zc);
        if !gs[k][zr][zc].reveal {
            if yr == i && yc == j {
                lemma_floods_self(gs[k], zr, zc);
            } else {
                assert(gs[k + 1][yr][yc].reveal == (gs[k][yr][yc].reveal || floods(
                    gs[k],
                    nr,
                    nc,
                    yr,
                    yc,
                )));
                lemma_floods_step(gs[k], nr, nc, yr, yc, zr, zc);
            }
            assert(gs[k + 1][zr][zc].reveal == (gs[k][zr][zc].reveal || floods(
                gs[k],
                nr,
                nc,
                zr,
                zc,
            )));
        }
    }
}

/// Revealing a hidden blank cell and then each of its eight neighbours in
/// turn uncovers exactly what revealing the cell uncovers.
pub proof fn lemma_cascade(g: Seq<Seq<Cell>>, i: int, j: int, gs: Seq<Seq<Seq<Cell>>>)
    requires
        hidden_at(g, i, j),
        g[i][j].is_blank(),
        cascade_chain(g, i, j, gs),
    ensures
        gs[8] == flood_reveal(g, i, j),
{
    let want = flood_reveal(g, i, j);
    lemma_chain_more(g, i, j, gs, 8, 8);
    lemma_chain_more(g, i, j, gs, 0, 8);
    lemma_flood_reveal_cells(g, i, j);
    assert forall|r: int, c: int| in_grid(g, r, c) implies gs[8][r][c] == want[r][c] by {
        if floods(g, i, j, r, c) {
            let p = choose|p: Seq<(int, int)>| #[trigger] path_joins(g, p, i, j, r, c);
            lemma_chain_covers_path(g, i, j, gs, p, p.len() - 1);
        }
        if gs[8][r][c].reveal && !g[r][c].reveal {
            if r == i && c == j {
                lemma_floods_self(g, i, j);
            } else {
                lemma_same_shape_in_grid(g, gs[0], r, c);
                let k = lemma_chain_first(gs, r, c, 0, 8);
                let (nr, nc) = neighbor(i, j, k);
                assert(chain_step(gs, i, j, k));
                lemma_chain_more(g, i, j, gs, k, 8);
                lemma_flood_reveal_cells(gs[k], nr, nc);
                lemma_same_shape_in_grid(g, gs[k], r, c);
                assert(gs[k + 1][r][c].reveal == (gs[k][r][c].reveal || floods(
                    gs[k],
                    nr,
                    nc,
                    r,
                    c,
                )));
                lemma_floods_through(g, gs[k], i, j, nr, nc, r, c);
            }
        }
    }
    assert forall|r: int| 0 <= r < g.len() implies #[trigger] gs[8][r] =~= want[r] by {
        assert forall|c: int| 0 <= c < g[r].len() implies gs[8][r][c] == want[r][c] by {}
    }
}

} // verus!
