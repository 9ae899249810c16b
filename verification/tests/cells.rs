use minesweeper::cell::{Cell, CellContents};
use minesweeper::state::GameState;

#[test]
fn new_cell_is_blank_and_hidden() {
    let cell = Cell::new();
    assert!(!cell.is_revealed());
    assert_eq!(cell.cell_content(), None);
}

#[test]
fn set_reveal_keeps_content() {
    let mut cell = Cell::new();
    cell.set_cell_content(Some(CellContents::Neighbors(3)));
    cell.set_reveal();
    assert!(cell.is_revealed());
    assert_eq!(cell.cell_content(), Some(CellContents::Neighbors(3)));
    cell.set_reveal();
    assert!(cell.is_revealed());
}

#[test]
fn set_cell_content_keeps_reveal_flag() {
    let mut cell = Cell::new();
    cell.set_cell_content(Some(CellContents::Bomb));
    assert!(!cell.is_revealed());
    assert_eq!(cell.cell_content(), Some(CellContents::Bomb));
    cell.set_reveal();
    cell.set_cell_content(None);
    assert!(cell.is_revealed());
    assert_eq!(cell.cell_content(), None);
}

#[test]
fn hidden_cell_is_drawn_as_x_whatever_it_holds() {
    let mut cell = Cell::new();
    assert_eq!(cell.symbol(), 'X');
    cell.set_cell_content(Some(CellContents::Bomb));
    assert_eq!(cell.symbol(), 'X');
    cell.set_cell_content(Some(CellContents::Neighbors(5)));
    assert_eq!(cell.symbol(), 'X');
}

#[test]
fn revealed_cell_is_drawn_by_content() {
    let mut cell = Cell::new();
    cell.set_reveal();
    assert_eq!(cell.symbol(), '_');
    cell.set_cell_content(Some(CellContents::Bomb));
    assert_eq!(cell.symbol(), 'B');
    let digits = ['0', '1', '2', '3', '4', '5', '6', '7', '8'];
    for n in 0u8..=8 {
        cell.set_cell_content(Some(CellContents::Neighbors(n)));
        assert_eq!(cell.symbol(), digits[n as usize]);
    }
}

#[test]
fn game_state_names() {
    assert_eq!(GameState::Cont.name(), "Continue");
    assert_eq!(GameState::Win.name(), "Win");
    assert_eq!(GameState::Lost.name(), "Lost");
}
