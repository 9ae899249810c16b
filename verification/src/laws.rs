//! What holds of every board and every move, proved from the definitions
//! that the contracts of the board are stated over.

use vstd::prelude::*;
use crate::board::{build_error, lemma_select_wf, BoardView};
use crate::cell::Cell;
use crate::flood::{
    adjacent, cascades, flood_path, flood_reveal, floods, hidden_at, lemma_flood_nothing,
    lemma_flood_reveal_cells, lemma_flood_reveal_count, lemma_flood_single, lemma_floods_ends,
    lemma_floods_self, lemma_floods_step, lemma_reveal_at_count, lemma_same_shape_in_grid,
    on_hidden, path_joins,
};
use crate::generate::lemma_same_mines_same_block;
use crate::grid::{
    adjacent_mines, all_safe_revealed, cells_wf, content_for, count_cells, counts_consistent,
    hidden_count, in_grid, is_hidden, is_hidden_mine, is_hidden_safe, is_mine,
    lemma_count_cells_eq, lemma_count_cells_full, lemma_count_cells_split,
    lemma_count_cells_zero, mine_at, mine_count, no_mine_revealed, sub_or_zero, MAX_SIZE,
};
use crate::state::GameState;

verus! {

/// A board can be built exactly for a size from one to `MAX_SIZE` and no
/// more mines than it has cells.
pub proof fn lemma_build_error(size: nat, mines: nat)
    ensures
        build_error(size, mines) is None <==> 0 < size <= MAX_SIZE && mines <= size * size,
{
}

/// The counter of a board as it is built holds the number of cells less the
/// number of mines. That is the number of hidden cells that are no mines,
/// and a `u32` holds it.
pub proof fn lemma_fresh_counter(v: BoardView, size: nat, mines: nat)
    requires
        v.fresh(size, mines),
    ensures
        mines <= size * size,
        v.hidden == size * size - mines,
        v.hidden <= u32::MAX,
        hidden_count(v.cells) == size * size,
        v.hidden == count_cells(v.cells, is_hidden_safe()),
{
    assert forall|r: int, c: int| in_grid(v.cells, r, c) implies is_hidden()(
        #[trigger] v.cells[r][c],
    ) by {
        assert(!v.cells[r][c].reveal);
    }
    lemma_count_cells_full(v.cells, size, is_hidden());
    lemma_count_cells_full(v.cells, size, is_mine());
    lemma_hidden_count_split(v.cells);
    assert(size * size <= u32::MAX) by (nonlinear_arith)
        requires
            size <= 65535,
    ;
}

/// Selecting a position outside the board changes nothing.
pub proof fn lemma_select_outside(v: BoardView, i: int, j: int)
    requires
        !in_grid(v.cells, i, j),
    ensures
        v.select(i, j) == v,
{
    lemma_flood_nothing(v.cells, i, j);
}

/// Selecting a cell that is revealed already changes nothing.
pub proof fn lemma_select_revealed(v: BoardView, i: int, j: int)
    requires
        in_grid(v.cells, i, j),
        v.cells[i][j].reveal,
    ensures
        v.select(i, j) == v,
{
    lemma_flood_nothing(v.cells, i, j);
}

/// Selecting the same position twice is selecting it once.
pub proof fn lemma_select_twice(v: BoardView, i: int, j: int)
    ensures
        v.select(i, j).select(i, j) == v.select(i, j),
{
    let once = v.select(i, j);
    lemma_flood_reveal_cells(v.cells, i, j);
    lemma_same_shape_in_grid(v.cells, once.cells, i, j);
    if hidden_at(v.cells, i, j) {
        lemma_floods_self(v.cells, i, j);
    }
    lemma_flood_nothing(once.cells, i, j);
}

/// Once a reveal has uncovered a cell of a path, it uncovers every later
/// cell of the path.
proof fn lemma_reveal_follows_path(
    g: Seq<Seq<Cell>>,
    i: int,
    j: int,
    p: Seq<(int, int)>,
    t: int,
    u: int,
)
    requires
        flood_path(g, p),
        0 <= t <= u < p.len(),
        floods(g, i, j, p[t].0, p[t].1),
    ensures
        floods(g, i, j, p[u].0, p[u].1),
    decreases u - t,
{
    if t < u {
        lemma_reveal_follows_path(g, i, j, p, t, u - 1);
        assert(cascades(g, p, u - 1));
        assert(on_hidden(g, p, u));
        lemma_floods_step(g, i, j, p[u - 1].0, p[u - 1].1, p[u].0, p[u].1);
    }
}

/// After one reveal, a second uncovers what it would have uncovered alone,
/// less what the first has uncovered already.
pub proof fn lemma_second_reveal(
    g: Seq<Seq<Cell>>,
    ai: int,
    aj: int,
    bi: int,
    bj: int,
    r: int,
    c: int,
)
    ensures
        floods(flood_reveal(g, ai, aj), bi, bj, r, c) <==> floods(g, bi, bj, r, c) && !floods(
            g,
            ai,
            aj,
            r,
            c,
        ),
{
    let g1 = flood_reveal(g, ai, aj);
    lemma_flood_reveal_cells(g, ai, aj);
    if floods(g1, bi, bj, r, c) {
        let p = choose|p: Seq<(int, int)>| #[trigger] path_joins(g1, p, bi, bj, r, c);
        assert forall|k: int| 0 <= k < p.len() implies #[trigger] on_hidden(g, p, k) by {
            assert(on_hidden(g1, p, k));
            lemma_same_shape_in_grid(g, g1, p[k].0, p[k].1);
        }
        assert forall|k: int| 0 <= k < p.len() - 1 implies #[trigger] cascades(g, p, k) by {
            assert(cascades(g1, p, k));
            assert(on_hidden(g1, p, k));
            lemma_same_shape_in_grid(g, g1, p[k].0, p[k].1);
        }
        assert(path_joins(g, p, bi, bj, r, c));
        lemma_floods_ends(g1, bi, bj, r, c);
        lemma_same_shape_in_grid(g, g1, r, c);
    }
    if floods(g, bi, bj, r, c) && !floods(g, ai, aj, r, c) {
        let p = choose|p: Seq<(int, int)>| #[trigger] path_joins(g, p, bi, bj, r, c);
        assert forall|k: int| 0 <= k < p.len() implies #[trigger] on_hidden(g1, p, k) by {
            assert(on_hidden(g, p, k));
            lemma_same_shape_in_grid(g, g1, p[k].0, p[k].1);
            if floods(g, ai, aj, p[k].0, p[k].1) {
                lemma_reveal_follows_path(g, ai, aj, p, k, p.len() - 1);
            }
        }
        assert forall|k: int| 0 <= k < p.len() - 1 implies #[trigger] cascades(g1, p, k) by {
            assert(cascades(g, p, k));
            assert(on_hidden(g, p, k));
        }
        assert(path_joins(g1, p, bi, bj, r, c));
    }
}

/// Two moves lead to the same board in either order.
pub proof fn lemma_select_commutes(v: BoardView, ai: int, aj: int, bi: int, bj: int)
    ensures
        v.select(ai, aj).select(bi, bj) == v.select(bi, bj).select(ai, aj),
{
    let g = v.cells;
    let ga = flood_reveal(g, ai, aj);
    let gb = flood_reveal(g, bi, bj);
    let gab = flood_reveal(ga, bi, bj);
    let gba = flood_reveal(gb, ai, aj);
    lemma_flood_reveal_cells(g, ai, aj);
    lemma_flood_reveal_cells(g, bi, bj);
    lemma_flood_reveal_cells(ga, bi, bj);
    lemma_flood_reveal_cells(gb, ai, aj);
    assert forall|r: int| 0 <= r < g.len() implies #[trigger] gab[r] =~= gba[r] by {
        assert forall|c: int| 0 <= c < g[r].len() implies gab[r][c] == gba[r][c] by {
            lemma_second_reveal(g, ai, aj, bi, bj, r, c);
            lemma_second_reveal(g, bi, bj, ai, aj, r, c);
            assert(in_grid(g, r, c));
            assert(ga[r][c].cell_content == g[r][c].cell_content);
            assert(gb[r][c].cell_content == g[r][c].cell_content);
            assert(in_grid(ga, r, c) && in_grid(gb, r, c));
            assert(gab[r][c].cell_content == ga[r][c].cell_content);
            assert(gba[r][c].cell_content == gb[r][c].cell_content);
            assert(gab[r][c].reveal == (ga[r][c].reveal || floods(ga, bi, bj, r, c)));
            assert(gba[r][c].reveal == (gb[r][c].reveal || floods(gb, ai, aj, r, c)));
        }
    }
    assert(gab =~= gba);
    lemma_flood_reveal_count(g, ai, aj);
    lemma_flood_reveal_count(g, bi, bj);
    lemma_flood_reveal_count(ga, bi, bj);
    lemma_flood_reveal_count(gb, ai, aj);
}

/// Selecting a hidden cell that holds a count reveals that cell and no
/// other: the cascade never passes through a numbered cell.
pub proof fn lemma_count_ends_cascade(v: BoardView, i: int, j: int)
    requires
        hidden_at(v.cells, i, j),
        v.cells[i][j].cell_content is Some,
    ensures
        v.select(i, j).cells == v.reveal_cell(i, j).cells,
        v.select(i, j).hidden == sub_or_zero(v.hidden as int, 1),
{
    lemma_flood_single(v.cells, i, j);
    lemma_reveal_at_count(v.cells, i, j);
}

/// Whatever a reveal uncovers besides the selected cell, it reaches from a
/// blank cell next to it that the reveal uncovers too.
pub proof fn lemma_cascade_enters_through_blank(
    g: Seq<Seq<Cell>>,
    i: int,
    j: int,
    r: int,
    c: int,
) -> (from: (int, int))
    requires
        floods(g, i, j, r, c),
        r != i || c != j,
    ensures
        adjacent(from.0, from.1, r, c),
        g[from.0][from.1].is_blank(),
        floods(g, i, j, from.0, from.1),
{
    let p = choose|p: Seq<(int, int)>| #[trigger] path_joins(g, p, i, j, r, c);
    let last = p.len() - 1;
    let q = p.drop_last();
    assert(cascades(g, p, last - 1));
    assert forall|k: int| 0 <= k < q.len() implies #[trigger] on_hidden(g, q, k) by {
        assert(on_hidden(g, p, k));
    }
    assert forall|k: int| 0 <= k < q.len() - 1 implies #[trigger] cascades(g, q, k) by {
        assert(cascades(g, p, k));
    }
    assert(path_joins(g, q, i, j, p[last - 1].0, p[last - 1].1));
    p[last - 1]
}

/// Where the counts are right, no count exceeds eight, so that every cell
/// can be drawn.
pub proof fn lemma_consistent_counts_are_digits(g: Seq<Seq<Cell>>)
    requires
        counts_consistent(g),
    ensures
        cells_wf(g),
{
    assert forall|r: int, c: int| in_grid(g, r, c) implies (#[trigger] g[r][c]).wf() by {
        if !g[r][c].is_mine() {
            assert(g[r][c].cell_content == content_for(adjacent_mines(g, r, c)));
        }
    }
}

/// Where the counts are right, no mine touches a blank cell.
pub proof fn lemma_blank_has_safe_neighbors(g: Seq<Seq<Cell>>, r: int, c: int, r2: int, c2: int)
    requires
        counts_consistent(g),
        in_grid(g, r, c),
        g[r][c].is_blank(),
        adjacent(r, c, r2, c2),
    ensures
        !mine_at(g, r2, c2),
{
}

/// Where the counts are right, no cell on a path from a cell that is no mine
/// is a mine.
proof fn lemma_path_is_safe(g: Seq<Seq<Cell>>, p: Seq<(int, int)>, t: int)
    requires
        counts_consistent(g),
        flood_path(g, p),
        !g[p[0].0][p[0].1].is_mine(),
        0 <= t < p.len(),
    ensures
        !g[p[t].0][p[t].1].is_mine(),
    decreases t,
{
    if t > 0 {
        lemma_path_is_safe(g, p, t - 1);
        assert(on_hidden(g, p, t - 1));
        assert(on_hidden(g, p, t));
        assert(cascades(g, p, t - 1));
        lemma_blank_has_safe_neighbors(g, p[t - 1].0, p[t - 1].1, p[t].0, p[t].1);
    }
}

/// Where the counts are right, revealing a cell that is no mine uncovers no
/// mine.
pub proof fn lemma_safe_reveal_uncovers_no_mine(g: Seq<Seq<Cell>>, i: int, j: int, r: int, c: int)
    requires
        counts_consistent(g),
        floods(g, i, j, r, c),
        !g[i][j].is_mine(),
    ensures
        !g[r][c].is_mine(),
{
    let p = choose|p: Seq<(int, int)>| #[trigger] path_joins(g, p, i, j, r, c);
    lemma_path_is_safe(g, p, p.len() - 1);
}

/// While no mine is revealed, the hidden cells are the mines and the hidden
/// cells that are no mines.
pub proof fn lemma_hidden_count_split(g: Seq<Seq<Cell>>)
    requires
        no_mine_revealed(g),
    ensures
        hidden_count(g) == mine_count(g) + count_cells(g, is_hidden_safe()),
        count_cells(g, is_hidden_safe()) == 0 <==> all_safe_revealed(g),
{
    lemma_count_cells_split(g, is_hidden(), is_hidden_mine(), is_hidden_safe());
    assert forall|r: int, c: int| in_grid(g, r, c) implies is_hidden_mine()(#[trigger] g[r][c])
        == is_mine()(g[r][c]) by {}
    lemma_count_cells_eq(g, is_hidden_mine(), g, is_mine());
    lemma_count_cells_zero(g, is_hidden_safe());
    if count_cells(g, is_hidden_safe()) == 0 {
        assert forall|r: int, c: int| in_grid(g, r, c) && !(#[trigger] g[r][c]).is_mine() implies g[r][c].reveal by {}
    }
    if all_safe_revealed(g) {
        assert forall|r: int, c: int| in_grid(g, r, c) implies !is_hidden_safe()(
            #[trigger] g[r][c],
        ) by {}
    }
}

/// Selecting moves no mine and changes no count: the number of mines stays.
pub proof fn lemma_select_keeps_mines(v: BoardView, i: int, j: int)
    ensures
        mine_count(v.select(i, j).cells) == mine_count(v.cells),
        counts_consistent(v.cells) ==> counts_consistent(v.select(i, j).cells),
{
    let after = v.select(i, j).cells;
    lemma_flood_reveal_cells(v.cells, i, j);
    assert forall|r: int, c: int| in_grid(v.cells, r, c) implies is_mine()(
        #[trigger] v.cells[r][c],
    ) == is_mine()(after[r][c]) by {}
    lemma_count_cells_eq(v.cells, is_mine(), after, is_mine());
    if counts_consistent(v.cells) {
        assert forall|r: int, c: int|
            in_grid(after, r, c) && !(#[trigger] after[r][c]).is_mine() implies after[r][c].cell_content
            == content_for(adjacent_mines(after, r, c)) by {
            lemma_same_shape_in_grid(v.cells, after, r, c);
            assert forall|r2: int, c2: int|
                in_grid(v.cells, r2, c2) implies (#[trigger] after[r2][c2]).is_mine()
                == v.cells[r2][c2].is_mine() by {}
            lemma_same_mines_same_block(v.cells, after, r, c);
        }
    }
}

/// A counter that holds the number of hidden cells less the number of
/// mines, or zero where that is negative, still does so after any move.
pub proof fn lemma_select_keeps_counter(v: BoardView, i: int, j: int)
    requires
        v.counter_matches(),
    ensures
        v.select(i, j).counter_matches(),
{
    lemma_select_keeps_mines(v, i, j);
    lemma_flood_reveal_count(v.cells, i, j);
}

/// On a board in play, selecting a cell that is no mine reveals no mine and
/// leaves the board in play.
pub proof fn lemma_safe_select_stays_in_play(v: BoardView, i: int, j: int)
    requires
        v.in_play(),
        !mine_at(v.cells, i, j),
    ensures
        v.select(i, j).in_play(),
{
    let after = v.select(i, j).cells;
    lemma_select_wf(v, i, j);
    lemma_select_keeps_mines(v, i, j);
    lemma_select_keeps_counter(v, i, j);
    lemma_flood_reveal_cells(v.cells, i, j);
    assert forall|r: int, c: int| in_grid(after, r, c) && (#[trigger] after[r][c]).is_mine() implies !after[r][c].reveal by {
        lemma_same_shape_in_grid(v.cells, after, r, c);
        if floods(v.cells, i, j, r, c) {
            lemma_floods_ends(v.cells, i, j, r, c);
            lemma_safe_reveal_uncovers_no_mine(v.cells, i, j, r, c);
        }
    }
}

/// A move never raises the counter nor hides a cell. It lowers the counter
/// by exactly one for each cell that it reveals where the counter holds that
/// many, and to zero where it holds fewer.
pub proof fn lemma_counter_never_rises(v: BoardView, i: int, j: int)
    ensures
        hidden_count(v.select(i, j).cells) <= hidden_count(v.cells),
        v.select(i, j).hidden <= v.hidden,
        v.select(i, j).hidden == (if v.hidden >= hidden_count(v.cells) - hidden_count(
            v.select(i, j).cells,
        ) {
            v.hidden - (hidden_count(v.cells) - hidden_count(v.select(i, j).cells))
        } else {
            0
        }),
{
    lemma_flood_reveal_count(v.cells, i, j);
}

/// On a board in play, selecting a cell that is no mine lowers the counter
/// by exactly one for each cell that it reveals; the counter never runs out
/// before the cells do. Selecting a mine reveals that one cell and lowers
/// the counter by one, unless it is zero.
pub proof fn lemma_counter_counts_reveals(v: BoardView, i: int, j: int)
    requires
        v.in_play(),
    ensures
        hidden_count(v.select(i, j).cells) <= hidden_count(v.cells),
        !mine_at(v.cells, i, j) ==> v.select(i, j).hidden == v.hidden - (hidden_count(v.cells)
            - hidden_count(v.select(i, j).cells)),
        mine_at(v.cells, i, j) ==> hidden_count(v.select(i, j).cells) == hidden_count(v.cells) - 1
            && v.select(i, j).hidden == sub_or_zero(v.hidden as int, 1),
{
    lemma_flood_reveal_count(v.cells, i, j);
    if mine_at(v.cells, i, j) {
        lemma_flood_single(v.cells, i, j);
        lemma_reveal_at_count(v.cells, i, j);
    } else {
        lemma_safe_select_stays_in_play(v, i, j);
        lemma_select_keeps_mines(v, i, j);
        lemma_hidden_count_split(v.cells);
        lemma_hidden_count_split(v.select(i, j).cells);
    }
}

/// On a board in play, a move is lost exactly if the selected cell holds a
/// mine, and won exactly if it holds none and every cell that is no mine is
/// revealed after it. No move is both.
pub proof fn lemma_outcome(v: BoardView, i: int, j: int)
    requires
        v.in_play(),
    ensures
        v.select(i, j).state_at(i, j) == GameState::Lost <==> mine_at(v.cells, i, j),
        v.select(i, j).state_at(i, j) == GameState::Win <==> !mine_at(v.cells, i, j)
            && all_safe_revealed(v.select(i, j).cells),
{
    let after = v.select(i, j);
    lemma_flood_reveal_cells(v.cells, i, j);
    lemma_same_shape_in_grid(v.cells, after.cells, i, j);
    if !mine_at(v.cells, i, j) {
        lemma_safe_select_stays_in_play(v, i, j);
        lemma_hidden_count_split(after.cells);
    }
}

} // verus!
