use minesweeper::cell::{Cell, CellContents};
use minesweeper::generate::{
    add_adjacent_bombs, add_bombs, add_cell_adjacent_bombs, count_blank, place_bomb,
};

fn blank(size: usize) -> Vec<Vec<Cell>> {
    vec![vec![Cell::new(); size]; size]
}

fn with_bombs(size: usize, bombs: &[(usize, usize)]) -> Vec<Vec<Cell>> {
    let mut grid = blank(size);
    for &(r, c) in bombs {
        grid[r][c].set_cell_content(Some(CellContents::Bomb));
    }
    grid
}

fn bombs_in(grid: &Vec<Vec<Cell>>) -> usize {
    grid.iter()
        .flatten()
        .filter(|cell| cell.cell_content() == Some(CellContents::Bomb))
        .count()
}

#[test]
fn block_count_in_the_middle() {
    let mut grid = with_bombs(3, &[(0, 0), (0, 2), (2, 1)]);
    assert_eq!(add_cell_adjacent_bombs(&mut grid, 1, 1), 3);
}

#[test]
fn block_count_includes_the_centre() {
    let mut grid = with_bombs(3, &[(1, 1), (0, 0)]);
    assert_eq!(add_cell_adjacent_bombs(&mut grid, 1, 1), 2);
}

#[test]
fn block_count_is_cut_off_at_the_edges() {
    let mut grid = with_bombs(3, &[(0, 2), (2, 0), (2, 2)]);
    assert_eq!(add_cell_adjacent_bombs(&mut grid, 0, 0), 0);
    assert_eq!(add_cell_adjacent_bombs(&mut grid, 0, 1), 1);
    assert_eq!(add_cell_adjacent_bombs(&mut grid, 2, 1), 2);
    assert_eq!(add_cell_adjacent_bombs(&mut grid, 1, 2), 2);
    assert_eq!(add_cell_adjacent_bombs(&mut grid, 1, 0), 1);
}

#[test]
fn block_count_does_not_wrap_around() {
    let mut grid = with_bombs(4, &[(0, 3), (3, 0), (3, 3)]);
    assert_eq!(add_cell_adjacent_bombs(&mut grid, 0, 0), 0);
    assert_eq!(add_cell_adjacent_bombs(&mut grid, 1, 0), 0);
}

#[test]
fn block_count_of_a_full_grid_is_nine() {
    let mut grid = blank(3);
    for row in grid.iter_mut() {
        for cell in row.iter_mut() {
            cell.set_cell_content(Some(CellContents::Bomb));
        }
    }
    assert_eq!(add_cell_adjacent_bombs(&mut grid, 1, 1), 9);
    assert_eq!(add_cell_adjacent_bombs(&mut grid, 0, 0), 4);
    assert_eq!(add_cell_adjacent_bombs(&mut grid, 0, 1), 6);
}

#[test]
fn block_count_outside_the_grid() {
    let mut grid = with_bombs(2, &[(1, 1)]);
    assert_eq!(add_cell_adjacent_bombs(&mut grid, 2, 2), 1);
    assert_eq!(add_cell_adjacent_bombs(&mut grid, 3, 3), 0);
    assert_eq!(add_cell_adjacent_bombs(&mut grid, usize::MAX, usize::MAX), 0);
    let mut empty: Vec<Vec<Cell>> = Vec::new();
    assert_eq!(add_cell_adjacent_bombs(&mut empty, 0, 0), 0);
}

#[test]
fn counts_around_one_mine() {
    let mut grid = with_bombs(3, &[(0, 0)]);
    add_adjacent_bombs(&mut grid);
    let one = Some(CellContents::Neighbors(1));
    let expected = [
        [Some(CellContents::Bomb), one, None],
        [one, one, None],
        [None, None, None],
    ];
    for r in 0..3 {
        for c in 0..3 {
            assert_eq!(grid[r][c].cell_content(), expected[r][c]);
            assert!(!grid[r][c].is_revealed());
        }
    }
}

#[test]
fn counts_reach_eight() {
    let mut grid = blank(3);
    for r in 0..3 {
        for c in 0..3 {
            if (r, c) != (1, 1) {
                grid[r][c].set_cell_content(Some(CellContents::Bomb));
            }
        }
    }
    add_adjacent_bombs(&mut grid);
    assert_eq!(grid[1][1].cell_content(), Some(CellContents::Neighbors(8)));
    assert_eq!(bombs_in(&grid), 8);
}

#[test]
fn counts_leave_a_grid_without_mines_blank() {
    let mut grid = blank(4);
    add_adjacent_bombs(&mut grid);
    assert!(grid.iter().flatten().all(|cell| cell.cell_content().is_none()));
}

#[test]
fn count_blank_counts_cells_without_content() {
    let mut grid = with_bombs(3, &[(0, 1), (2, 2)]);
    assert_eq!(count_blank(&grid), 7);
    grid[1][1].set_cell_content(Some(CellContents::Neighbors(2)));
    assert_eq!(count_blank(&grid), 6);
    assert_eq!(count_blank(&blank(5)), 25);
    assert_eq!(count_blank(&Vec::new()), 0);
}

#[test]
fn place_bomb_takes_the_nth_blank_cell_row_by_row() {
    let mut grid = blank(3);
    assert_eq!(place_bomb(&mut grid, 4), (1, 1));
    assert_eq!(grid[1][1].cell_content(), Some(CellContents::Bomb));
    // (1, 1) is taken now, so the fifth blank cell is the next one.
    assert_eq!(place_bomb(&mut grid, 4), (1, 2));
    assert_eq!(place_bomb(&mut grid, 0), (0, 0));
    assert_eq!(place_bomb(&mut grid, 0), (0, 1));
    assert_eq!(place_bomb(&mut grid, 4), (2, 2));
    assert_eq!(bombs_in(&grid), 5);
    assert_eq!(count_blank(&grid), 4);
}

#[test]
fn add_bombs_lays_exactly_as_many_as_asked() {
    for bombs in 0..=9u32 {
        let mut grid = blank(3);
        add_bombs(&mut grid, bombs);
        assert_eq!(bombs_in(&grid), bombs as usize);
        assert_eq!(count_blank(&grid), 9 - bombs as usize);
        assert!(grid.iter().flatten().all(|cell| !cell.is_revealed()));
    }
}

#[test]
fn add_bombs_spares_cells_that_hold_something() {
    let mut grid = with_bombs(3, &[(0, 0)]);
    grid[1][1].set_cell_content(Some(CellContents::Neighbors(1)));
    add_bombs(&mut grid, 7);
    assert_eq!(bombs_in(&grid), 8);
    assert_eq!(grid[1][1].cell_content(), Some(CellContents::Neighbors(1)));
}

#[test]
fn add_bombs_reaches_every_cell() {
    let mut hit = [[false; 3]; 3];
    for _ in 0..400 {
        let mut grid = blank(3);
        add_bombs(&mut grid, 1);
        for r in 0..3 {
            for c in 0..3 {
                if grid[r][c].cell_content() == Some(CellContents::Bomb) {
                    hit[r][c] = true;
                }
            }
        }
    }
    assert!(hit.iter().flatten().all(|&h| h));
}
