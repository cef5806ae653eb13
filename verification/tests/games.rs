use inpr_os::enums::Corner;
use inpr_os::games::tictactoe::{Board, Cell, Difficulty};

fn count(board: &Board, cell: Cell) -> usize {
    board.cells.iter().filter(|c| **c == cell).count()
}

#[test]
fn corners_in_clockwise_order() {
    assert_eq!(
        Corner::all(),
        vec![
            Corner::TopLeft,
            Corner::TopCenter,
            Corner::TopRight,
            Corner::CenterRight,
            Corner::BottomRight,
            Corner::BottomCenter,
            Corner::BottomLeft,
            Corner::CenterLeft
        ]
    );
}

#[test]
fn names_of_levels_and_marks() {
    let names: Vec<String> = Difficulty::all().iter().map(|d| d.to_string()).collect();
    assert_eq!(names, vec!["Easy", "Difficult", "Good Luck"]);
    assert_eq!(Cell::X.to_string(), "X");
    assert_eq!(Cell::O.to_string(), "O");
    assert_eq!(Cell::Empty.to_string(), " ");
}

#[test]
fn winner_by_line() {
    let mut board = Board::new(Difficulty::Easy);
    assert_eq!(board.calculate_winner(), None);
    board.cells = [Cell::X, Cell::O, Cell::Empty, Cell::X, Cell::O, Cell::Empty, Cell::X, Cell::Empty, Cell::Empty];
    assert_eq!(board.calculate_winner(), Some(Cell::X));
    assert!(board.game_over());
    board.cells = [Cell::O, Cell::X, Cell::O, Cell::X, Cell::X, Cell::O, Cell::X, Cell::O, Cell::X];
    assert_eq!(board.calculate_winner(), None);
    assert!(board.game_over());
}

#[test]
fn players_take_turns() {
    for level in [Difficulty::Easy, Difficulty::Difficult, Difficulty::GoodLuck] {
        let mut board = Board::new(level);
        let mut guard = 0;
        while !board.game_over() && guard < 20 {
            let square = board.cells.iter().position(|c| *c == Cell::Empty).unwrap() as u8;
            board.play(square);
            let (x, o) = (count(&board, Cell::X), count(&board, Cell::O));
            assert!(x == o || (x == o + 1 && board.game_over()));
            guard += 1;
        }
        assert!(board.game_over());
        board.reset();
        assert_eq!(count(&board, Cell::Empty), 9);
        assert_eq!(board.difficulty, level);
    }
}

#[test]
fn computer_answers_the_first_move() {
    let mut board = Board::new(Difficulty::Difficult);
    board.play(0);
    assert_eq!(board.cells[4], Cell::O);
    let mut board = Board::new(Difficulty::GoodLuck);
    board.play(4);
    assert!([0, 2, 6, 8].iter().any(|&i| board.cells[i] == Cell::O));
}

#[test]
fn computer_blocks_and_wins() {
    let mut board = Board::new(Difficulty::Difficult);
    board.cells = [Cell::X, Cell::X, Cell::Empty, Cell::Empty, Cell::O, Cell::Empty, Cell::Empty, Cell::Empty, Cell::Empty];
    assert_eq!(board.move_choices(), vec![2]);
    board.cells = [Cell::X, Cell::X, Cell::Empty, Cell::O, Cell::O, Cell::Empty, Cell::X, Cell::Empty, Cell::Empty];
    assert_eq!(board.move_choices(), vec![5]);
}

#[test]
fn taken_square_or_finished_game_changes_nothing() {
    let mut board = Board::new(Difficulty::Easy);
    board.cells[3] = Cell::O;
    let before = board.cells;
    board.play(3);
    assert_eq!(board.cells, before);
    board.cells = [Cell::X, Cell::X, Cell::X, Cell::O, Cell::O, Cell::Empty, Cell::Empty, Cell::Empty, Cell::Empty];
    let before = board.cells;
    board.play(8);
    assert_eq!(board.cells, before);
    assert_eq!(board.calculate_move(), None);
}

#[test]
fn verdict_names_the_winner() {
    assert_eq!(inpr_os::games::tictactoe::verdict(Some(inpr_os::games::tictactoe::Cell::X)), "You win!");
    assert_eq!(inpr_os::games::tictactoe::verdict(Some(inpr_os::games::tictactoe::Cell::O)), "You lost!");
    assert_eq!(inpr_os::games::tictactoe::verdict(None), "Draw!");
}
