use minesweeper::board::Board;
use minesweeper::cell::CellContents;
use minesweeper::input::{move_or_origin, parse_move};
use minesweeper::state::{BoardError, GameState};

fn board(size: usize, mines: &[(usize, usize)]) -> Board {
    Board::with_mines(size, &mines.to_vec()).unwrap()
}

fn revealed(board: &Board) -> Vec<(usize, usize)> {
    let mut cells = Vec::new();
    for r in 0..board.size() {
        for c in 0..board.size() {
            if board.cell(r, c).is_revealed() {
                cells.push((r, c));
            }
        }
    }
    cells
}

fn mines(board: &Board) -> usize {
    let mut count = 0;
    for r in 0..board.size() {
        for c in 0..board.size() {
            if board.cell(r, c).cell_content() == Some(CellContents::Bomb) {
                count += 1;
            }
        }
    }
    count
}

#[test]
fn new_board_counts_the_cells_that_are_no_mines() {
    for (size, bombs) in [(1usize, 0u32), (1, 1), (3, 2), (8, 8), (8, 64), (10, 0)] {
        let board = Board::new(size, bombs).unwrap();
        assert_eq!(board.size(), size);
        assert_eq!(board.hidden_cells(), (size * size) as u32 - bombs);
        assert_eq!(mines(&board), bombs as usize);
        assert!(revealed(&board).is_empty());
    }
}

#[test]
fn new_board_has_right_counts() {
    for _ in 0..20 {
        let board = Board::new(6, 9).unwrap();
        for r in 0..6usize {
            for c in 0..6usize {
                let mut around = 0u8;
                for dr in -1isize..=1 {
                    for dc in -1isize..=1 {
                        let (nr, nc) = (r as isize + dr, c as isize + dc);
                        if (dr, dc) != (0, 0) && (0..6).contains(&nr) && (0..6).contains(&nc)
                            && board.cell(nr as usize, nc as usize).cell_content()
                                == Some(CellContents::Bomb)
                        {
                            around += 1;
                        }
                    }
                }
                let content = board.cell(r, c).cell_content();
                if content != Some(CellContents::Bomb) {
                    let expected =
                        if around == 0 { None } else { Some(CellContents::Neighbors(around)) };
                    assert_eq!(content, expected);
                }
            }
        }
    }
}

#[test]
fn new_rejects_a_board_without_cells() {
    assert_eq!(Board::new(0, 0).err(), Some(BoardError::EmptyBoard));
    assert_eq!(Board::new(0, 3).err(), Some(BoardError::EmptyBoard));
}

#[test]
fn new_rejects_a_board_too_large_to_count() {
    assert_eq!(Board::new(65536, 0).err(), Some(BoardError::TooLarge));
    assert_eq!(Board::new(usize::MAX, 1).err(), Some(BoardError::TooLarge));
}

#[test]
fn new_rejects_more_mines_than_cells() {
    assert_eq!(Board::new(2, 5).err(), Some(BoardError::TooManyMines));
    assert_eq!(Board::new(1, 2).err(), Some(BoardError::TooManyMines));
    assert_eq!(Board::new(8, u32::MAX).err(), Some(BoardError::TooManyMines));
    assert!(Board::new(2, 4).is_ok());
}

#[test]
fn with_mines_rejects_bad_layouts() {
    assert_eq!(Board::with_mines(0, &vec![]).err(), Some(BoardError::EmptyBoard));
    assert_eq!(Board::with_mines(65536, &vec![]).err(), Some(BoardError::TooLarge));
    assert_eq!(Board::with_mines(3, &vec![(0, 3)]).err(), Some(BoardError::MineOutOfRange));
    assert_eq!(Board::with_mines(3, &vec![(3, 0)]).err(), Some(BoardError::MineOutOfRange));
    assert_eq!(
        Board::with_mines(3, &vec![(1, 1), (0, 0), (1, 1)]).err(),
        Some(BoardError::DuplicateMine)
    );
    assert_eq!(
        Board::with_mines(3, &vec![(1, 1), (1, 1), (9, 9)]).err(),
        Some(BoardError::MineOutOfRange)
    );
}

#[test]
fn with_mines_lays_the_mines_where_told() {
    let board = board(3, &[(0, 0), (2, 1)]);
    assert_eq!(board.size(), 3);
    assert_eq!(board.hidden_cells(), 7);
    assert_eq!(board.cell(0, 0).cell_content(), Some(CellContents::Bomb));
    assert_eq!(board.cell(2, 1).cell_content(), Some(CellContents::Bomb));
    assert_eq!(board.cell(1, 1).cell_content(), Some(CellContents::Neighbors(2)));
    assert_eq!(board.cell(0, 2).cell_content(), None);
    assert_eq!(board.cell(1, 0).cell_content(), Some(CellContents::Neighbors(2)));
    assert_eq!(mines(&board), 2);
}

#[test]
fn single_cell_board_is_won_at_once() {
    let mut board = Board::new(1, 0).unwrap();
    assert_eq!(board.hidden_cells(), 1);
    assert_eq!(board.play_one_round(0, 0), GameState::Win);
    assert!(board.cell(0, 0).is_revealed());
    assert_eq!(board.cell(0, 0).cell_content(), None);
    assert_eq!(board.hidden_cells(), 0);
}

#[test]
fn selecting_the_mine_loses() {
    let mut board = board(3, &[(1, 1)]);
    assert_eq!(board.play_one_round(1, 1), GameState::Lost);
    assert_eq!(revealed(&board), vec![(1, 1)]);
    assert_eq!(board.hidden_cells(), 7);
}

#[test]
fn selecting_beside_the_mine_goes_on() {
    for (r, c) in [(0, 0), (0, 1), (0, 2), (1, 0), (1, 2), (2, 0), (2, 1), (2, 2)] {
        let mut board = board(3, &[(1, 1)]);
        assert_eq!(board.play_one_round(r, c), GameState::Cont);
        assert_eq!(revealed(&board), vec![(r as usize, c as usize)]);
        assert_eq!(board.hidden_cells(), 7);
    }
}

#[test]
fn selecting_a_blank_cell_cascades() {
    let mut board = board(3, &[(0, 0)]);
    assert_eq!(board.play_one_round(2, 2), GameState::Win);
    assert_eq!(
        revealed(&board),
        vec![(0, 1), (0, 2), (1, 0), (1, 1), (1, 2), (2, 0), (2, 1), (2, 2)]
    );
    assert_eq!(board.hidden_cells(), 0);
}

#[test]
fn cascade_stops_at_counts() {
    // A wall of mines down column 2 splits the board; the counts in column 1
    // and 3 are revealed by the cascade but nothing beyond them is.
    let mut board = board(5, &[(0, 2), (1, 2), (2, 2), (3, 2), (4, 2)]);
    assert_eq!(board.play_one_round(0, 0), GameState::Cont);
    let mut expected = Vec::new();
    for r in 0..5 {
        expected.push((r, 0));
        expected.push((r, 1));
    }
    assert_eq!(revealed(&board), expected);
    assert_eq!(board.hidden_cells(), 10);
    assert_eq!(board.play_one_round(2, 3), GameState::Cont);
    assert_eq!(board.hidden_cells(), 9);
    assert_eq!(board.play_one_round(4, 4), GameState::Win);
    assert_eq!(board.hidden_cells(), 0);
    assert_eq!(revealed(&board).len(), 20);
}

#[test]
fn a_count_reveals_itself_only() {
    let mut board = board(4, &[(0, 0)]);
    assert_eq!(board.play_one_round(1, 1), GameState::Cont);
    assert_eq!(revealed(&board), vec![(1, 1)]);
    assert_eq!(board.hidden_cells(), 14);
}

#[test]
fn counter_goes_down_by_one_for_each_cell_revealed() {
    let mut board = board(4, &[(0, 0), (3, 3)]);
    let mut hidden = board.hidden_cells();
    assert_eq!(hidden, 14);
    for (r, c) in [(0, 1), (1, 0), (0, 3), (2, 2), (3, 0), (1, 1)] {
        let before = revealed(&board).len();
        board.play_one_round(r, c);
        let newly = revealed(&board).len() - before;
        assert_eq!(board.hidden_cells(), hidden - newly as u32);
        hidden = board.hidden_cells();
    }
}

#[test]
fn selecting_twice_changes_nothing_the_second_time() {
    let mut board = board(4, &[(3, 3)]);
    assert_eq!(board.play_one_round(2, 2), GameState::Cont);
    let cells = revealed(&board);
    let hidden = board.hidden_cells();
    let text = board.render();
    assert_eq!(board.play_one_round(2, 2), GameState::Cont);
    assert_eq!(revealed(&board), cells);
    assert_eq!(board.hidden_cells(), hidden);
    assert_eq!(board.render(), text);
    board.select(2, 2);
    assert_eq!(board.render(), text);
    assert_eq!(board.hidden_cells(), hidden);
}

#[test]
fn selecting_a_revealed_mine_again_still_loses() {
    let mut board = board(3, &[(1, 1)]);
    assert_eq!(board.play_one_round(1, 1), GameState::Lost);
    assert_eq!(board.play_one_round(1, 1), GameState::Lost);
    assert_eq!(board.hidden_cells(), 7);
}

#[test]
fn selecting_a_revealed_cell_after_the_win_still_wins() {
    let mut board = board(3, &[(0, 0)]);
    assert_eq!(board.play_one_round(2, 2), GameState::Win);
    assert_eq!(board.play_one_round(1, 1), GameState::Win);
    assert_eq!(board.hidden_cells(), 0);
}

#[test]
fn positions_outside_the_board_change_nothing() {
    let mut board = board(3, &[(1, 1)]);
    board.play_one_round(0, 0);
    let text = board.render();
    let hidden = board.hidden_cells();
    let outside = [
        (-1, 0), (0, -1), (-1, -1), (3, 0), (0, 3), (3, 3), (isize::MIN, isize::MIN),
        (isize::MAX, isize::MAX), (isize::MAX, 0), (1, isize::MIN),
    ];
    for (r, c) in outside {
        assert_eq!(board.play_one_round(r, c), GameState::Cont);
        board.select(r, c);
        assert_eq!(board.render(), text);
        assert_eq!(board.hidden_cells(), hidden);
    }
}

#[test]
fn a_board_of_mines_is_lost_at_the_first_move() {
    for (r, c) in [(0, 0), (0, 1), (1, 0), (1, 1)] {
        let mut board = Board::new(2, 4).unwrap();
        assert_eq!(board.hidden_cells(), 0);
        assert_eq!(board.play_one_round(r, c), GameState::Lost);
        assert_eq!(board.hidden_cells(), 0);
        assert_eq!(revealed(&board), vec![(r as usize, c as usize)]);
    }
    let mut single = Board::new(1, 1).unwrap();
    assert_eq!(single.play_one_round(0, 0), GameState::Lost);
}

#[test]
fn win_comes_with_the_last_cell_that_is_no_mine() {
    let mut board = board(2, &[(0, 0)]);
    assert_eq!(board.play_one_round(0, 1), GameState::Cont);
    assert_eq!(board.play_one_round(1, 0), GameState::Cont);
    assert_eq!(board.play_one_round(1, 1), GameState::Win);
    assert!(!board.cell(0, 0).is_revealed());
}

#[test]
fn a_malformed_line_is_played_at_the_origin() {
    let mut board = board(3, &[(0, 1)]);
    let (r, c) = move_or_origin(parse_move("7"));
    assert_eq!((r, c), (0, 0));
    assert_eq!(board.play_one_round(r, c), GameState::Cont);
    assert!(board.cell(0, 0).is_revealed());
    let (r, c) = move_or_origin(parse_move("two three"));
    assert_eq!(board.play_one_round(r, c), GameState::Cont);

    let mut mined = Board::with_mines(3, &vec![(0, 0)]).unwrap();
    let (r, c) = move_or_origin(parse_move("oops"));
    assert_eq!(mined.play_one_round(r, c), GameState::Lost);
}

#[test]
fn game_state_is_read_off_the_cell_and_the_counter() {
    let mut board = board(2, &[(0, 0)]);
    let mine = *board.cell(0, 0);
    let safe = *board.cell(1, 1);
    assert_eq!(board.game_state(&mine), GameState::Lost);
    assert_eq!(board.game_state(&safe), GameState::Cont);
    board.select(0, 1);
    board.select(1, 0);
    board.select(1, 1);
    assert_eq!(board.game_state(&safe), GameState::Win);
    assert_eq!(board.game_state(&mine), GameState::Lost);
}

#[test]
fn reveal_cell_reveals_one_cell_and_counts_down() {
    let mut board = board(3, &[(0, 0)]);
    board.reveal_cell(2, 2);
    assert_eq!(revealed(&board), vec![(2, 2)]);
    assert_eq!(board.hidden_cells(), 7);
    board.reveal_cell(2, 2);
    assert_eq!(board.hidden_cells(), 6);
    for _ in 0..10 {
        board.reveal_cell(1, 1);
    }
    assert_eq!(board.hidden_cells(), 0);
}

#[test]
fn mut_cell_changes_the_cell_in_place() {
    let mut board = board(2, &[]);
    board.mut_cell(0, 1).set_cell_content(Some(CellContents::Neighbors(4)));
    board.mut_cell(1, 0).set_reveal();
    assert_eq!(board.cell(0, 1).cell_content(), Some(CellContents::Neighbors(4)));
    assert!(board.cell(1, 0).is_revealed());
    assert!(!board.cell(0, 1).is_revealed());
    assert_eq!(board.hidden_cells(), 4);
}

#[test]
fn reveal_all_reveals_every_cell_and_keeps_the_counter() {
    let mut board = board(3, &[(1, 1)]);
    board.play_one_round(1, 1);
    board.reveal_all();
    assert_eq!(revealed(&board).len(), 9);
    assert_eq!(board.hidden_cells(), 7);
    assert_eq!(board.cell(1, 1).cell_content(), Some(CellContents::Bomb));
}

#[test]
fn render_draws_hidden_cells_as_x() {
    let board = board(2, &[(0, 0)]);
    assert_eq!(board.render(), "X X \nX X \n\n");
}

#[test]
fn render_draws_revealed_cells_by_content() {
    let mut board = board(3, &[(0, 0)]);
    board.play_one_round(2, 2);
    assert_eq!(board.render(), "X 1 _ \n1 1 _ \n_ _ _ \n\n");
    board.reveal_all();
    assert_eq!(board.render(), "B 1 _ \n1 1 _ \n_ _ _ \n\n");
}

#[test]
fn render_draws_every_digit() {
    let mut board = board(3, &[(0, 0), (0, 1), (0, 2), (1, 0), (1, 2), (2, 0), (2, 1), (2, 2)]);
    board.reveal_all();
    assert_eq!(board.render(), "B B B \nB 8 B \nB B B \n\n");
}

#[test]
fn a_large_blank_board_is_won_by_one_move() {
    let mut board = Board::new(40, 0).unwrap();
    assert_eq!(board.play_one_round(17, 23), GameState::Win);
    assert_eq!(revealed(&board).len(), 1600);
    assert_eq!(board.hidden_cells(), 0);
}

#[test]
fn random_games_end_as_the_cells_say() {
    for _ in 0..30 {
        let mut board = Board::new(8, 8).unwrap();
        let mut state = GameState::Cont;
        'game: for r in 0..8isize {
            for c in 0..8isize {
                let was_mine =
                    board.cell(r as usize, c as usize).cell_content() == Some(CellContents::Bomb);
                state = board.play_one_round(r, c);
                assert_eq!(state == GameState::Lost, was_mine);
                let safe_hidden = (0..8usize)
                    .flat_map(|r| (0..8usize).map(move |c| (r, c)))
                    .filter(|&(r, c)| {
                        let cell = board.cell(r, c);
                        !cell.is_revealed() && cell.cell_content() != Some(CellContents::Bomb)
                    })
                    .count();
                if !was_mine {
                    assert_eq!(state == GameState::Win, safe_hidden == 0);
                    assert_eq!(board.hidden_cells() as usize, safe_hidden);
                }
                if state != GameState::Cont {
                    break 'game;
                }
            }
        }
        assert!(state != GameState::Cont);
    }
}

#[test]
fn boards_are_valid_until_a_count_is_spoilt() {
    let mut board = Board::new(5, 6).unwrap();
    assert!(board.is_valid());
    board.play_one_round(2, 2);
    board.reveal_all();
    assert!(board.is_valid());
    board.mut_cell(1, 1).set_cell_content(Some(CellContents::Neighbors(8)));
    assert!(board.is_valid());
    board.mut_cell(1, 1).set_cell_content(Some(CellContents::Neighbors(9)));
    assert!(!board.is_valid());
    board.mut_cell(1, 1).set_cell_content(None);
    assert!(board.is_valid());
}

/// The cells that a reveal of `start` uncovers, found by a search of its own:
/// the start, and from every blank cell found its hidden neighbours.
fn reachable(board: &Board, start: (usize, usize)) -> Vec<(usize, usize)> {
    let size = board.size() as isize;
    let mut found = vec![start];
    let mut next = 0;
    while next < found.len() {
        let (r, c) = found[next];
        next += 1;
        if board.cell(r, c).cell_content().is_some() {
            continue;
        }
        for dr in -1isize..=1 {
            for dc in -1isize..=1 {
                let (nr, nc) = (r as isize + dr, c as isize + dc);
                if (0..size).contains(&nr) && (0..size).contains(&nc) {
                    let cell = (nr as usize, nc as usize);
                    if !board.cell(cell.0, cell.1).is_revealed() && !found.contains(&cell) {
                        found.push(cell);
                    }
                }
            }
        }
    }
    found.sort();
    found
}

#[test]
fn cascade_uncovers_what_a_search_finds() {
    for round in 0..40u32 {
        let mut board = Board::new(9, 5 + round % 20).unwrap();
        for (r, c) in [(4usize, 4usize), (0, 0), (8, 8), (0, 8), (8, 0), (2, 6), (6, 2)] {
            if board.cell(r, c).is_revealed() {
                continue;
            }
            let before = revealed(&board);
            let hidden = board.hidden_cells();
            let expected = reachable(&board, (r, c));
            board.select(r as isize, c as isize);
            let mut newly: Vec<(usize, usize)> =
                revealed(&board).into_iter().filter(|cell| !before.contains(cell)).collect();
            newly.sort();
            assert_eq!(newly, expected);
            assert_eq!(board.hidden_cells(), hidden.saturating_sub(expected.len() as u32));
        }
    }
}

#[test]
fn two_moves_end_the_same_in_either_order() {
    for _ in 0..40 {
        let first = Board::new(7, 6).unwrap();
        let mut layout = Vec::new();
        for r in 0..7 {
            for c in 0..7 {
                if first.cell(r, c).cell_content() == Some(CellContents::Bomb) {
                    layout.push((r, c));
                }
            }
        }
        let mut one = Board::with_mines(7, &layout).unwrap();
        let mut other = Board::with_mines(7, &layout).unwrap();
        one.select(1, 1);
        one.select(5, 4);
        other.select(5, 4);
        other.select(1, 1);
        assert_eq!(one.render(), other.render());
        assert_eq!(one.hidden_cells(), other.hidden_cells());
    }
}
