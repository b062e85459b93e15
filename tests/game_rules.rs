use tictactoe::board::{render, Cell, Grid};
use tictactoe::game::{Game, MoveError, Outcome, MAX_MARKS};
use tictactoe::input::parse_move;

fn grid_with(cells: &[(usize, usize, Cell)]) -> Grid {
    let mut grid = [[Cell::Empty; 3]; 3];
    for &(r, c, m) in cells {
        grid[r][c] = m;
    }
    grid
}

fn game_with(cells: &[(usize, usize, Cell)]) -> Game {
    Game { grid: grid_with(cells), current_player: Cell::X, moves: Vec::new() }
}

fn marked_cells(g: &Game) -> usize {
    g.grid.iter().map(|row| row.iter().filter(|&&c| c != Cell::Empty).count()).sum()
}

#[test]
fn new_game_is_empty_with_x_to_move() {
    let g = Game::new();
    assert_eq!(g.grid, [[Cell::Empty; 3]; 3]);
    assert_eq!(g.current_player, Cell::X);
    assert!(g.moves.is_empty());
    assert!(!g.check_win());
    assert!(!g.check_draw());
}

#[test]
fn top_row_wins_and_two_of_it_do_not() {
    let g = game_with(&[(0, 0, Cell::X), (0, 1, Cell::X), (0, 2, Cell::X)]);
    assert!(g.check_win());
    let g = game_with(&[(0, 0, Cell::X), (0, 1, Cell::X)]);
    assert!(!g.check_win());
}

#[test]
fn leading_diagonal_wins_and_the_other_does_not() {
    let g = game_with(&[(0, 0, Cell::X), (1, 1, Cell::X), (2, 2, Cell::X)]);
    assert!(g.check_win());
    let g = game_with(&[(0, 2, Cell::X), (1, 1, Cell::X), (2, 0, Cell::X)]);
    assert!(!g.check_win());
}

#[test]
fn columns_and_lower_rows_win() {
    for i in 0..3 {
        let g = game_with(&[(0, i, Cell::O), (1, i, Cell::O), (2, i, Cell::O)]);
        assert!(g.check_win());
        let g = game_with(&[(i, 0, Cell::O), (i, 1, Cell::O), (i, 2, Cell::O)]);
        assert!(g.check_win());
    }
}

#[test]
fn mixed_marks_do_not_win() {
    let g = game_with(&[(0, 0, Cell::X), (0, 1, Cell::O), (0, 2, Cell::X)]);
    assert!(!g.check_win());
}

#[test]
fn check_line_follows_one_direction() {
    let g = game_with(&[(1, 0, Cell::X), (1, 1, Cell::X), (1, 2, Cell::X)]);
    assert!(g.check_line(1, 0, 0, 1));
    assert!(!g.check_line(1, 0, 1, 0));
    assert!(!g.check_line(1, 1, 0, 1));
    let empty = Game::new();
    assert!(empty.check_line(0, 0, 1, 1));
}

#[test]
fn full_board_is_a_draw() {
    let mut cells = Vec::new();
    for r in 0..3 {
        for c in 0..3 {
            cells.push((r, c, if (r + c) % 2 == 0 { Cell::X } else { Cell::O }));
        }
    }
    assert!(game_with(&cells).check_draw());
    cells.pop();
    assert!(!game_with(&cells).check_draw());
}

#[test]
fn switching_twice_gives_the_turn_back() {
    let mut g = Game::new();
    g.switch_player();
    assert_eq!(g.current_player, Cell::O);
    g.switch_player();
    assert_eq!(g.current_player, Cell::X);
}

#[test]
fn move_on_taken_cell_changes_nothing() {
    let mut g = Game::new();
    assert_eq!(g.apply_move(1, 1), Ok(()));
    g.switch_player();
    let grid = g.grid;
    let moves = g.moves.clone();
    assert_eq!(g.apply_move(1, 1), Err(MoveError::CellOccupied));
    assert_eq!(g.grid, grid);
    assert_eq!(g.moves, moves);
    assert_eq!(g.current_player, Cell::O);
}

#[test]
fn marks_always_match_history() {
    let order = [(0, 0), (1, 1), (2, 2), (0, 1), (1, 0), (2, 1), (0, 2), (1, 2), (2, 0), (0, 0)];
    let mut g = Game::new();
    for (k, &(r, c)) in order.iter().enumerate() {
        assert_eq!(g.apply_move(r, c), Ok(()));
        assert!(g.moves.len() <= MAX_MARKS);
        assert_eq!(g.moves.len(), (k + 1).min(MAX_MARKS));
        assert_eq!(marked_cells(&g), g.moves.len());
        g.switch_player();
    }
}

#[test]
fn seventh_mark_clears_the_oldest() {
    let order = [(0, 0), (0, 1), (0, 2), (1, 0), (1, 1), (1, 2)];
    let mut g = Game::new();
    for &(r, c) in order.iter() {
        assert_eq!(g.apply_move(r, c), Ok(()));
        g.switch_player();
    }
    assert_eq!(g.grid[0][0], Cell::X);
    assert_eq!(g.apply_move(2, 0), Ok(()));
    assert_eq!(g.grid[0][0], Cell::Empty);
    assert_eq!(g.grid[2][0], Cell::X);
    assert_eq!(g.moves, vec![(0, 1), (0, 2), (1, 0), (1, 1), (1, 2), (2, 0)]);
    assert_eq!(marked_cells(&g), 6);
}

#[test]
fn three_turns_without_an_end() {
    let mut g = Game::new();
    assert_eq!(g.make_move("2 2"), Ok(()));
    assert_eq!(g.finish_turn(), Outcome::Continue);
    assert_eq!(g.make_move("2 3"), Ok(()));
    assert_eq!(g.finish_turn(), Outcome::Continue);
    assert_eq!(g.make_move("3 3"), Ok(()));
    assert_eq!(g.finish_turn(), Outcome::Continue);
    assert_eq!(g.grid[1][1], Cell::X);
    assert_eq!(g.grid[1][2], Cell::O);
    assert_eq!(g.grid[2][2], Cell::X);
    assert_eq!(marked_cells(&g), 3);
    assert!(!g.check_win());
    assert!(!g.check_draw());
    assert_eq!(g.current_player, Cell::O);
}

#[test]
fn malformed_line_costs_no_turn() {
    let mut g = Game::new();
    assert_eq!(g.make_move("a b"), Err(MoveError::MalformedInput));
    assert_eq!(g.grid, [[Cell::Empty; 3]; 3]);
    assert!(g.moves.is_empty());
    assert_eq!(g.current_player, Cell::X);
    assert_eq!(g.make_move("1 1"), Ok(()));
    assert_eq!(g.grid[0][0], Cell::X);
    assert_eq!(g.moves, vec![(0, 0)]);
    assert_eq!(g.current_player, Cell::X);
}

#[test]
fn typed_move_on_taken_cell_is_refused() {
    let mut g = Game::new();
    assert_eq!(g.make_move("3 1"), Ok(()));
    assert_eq!(g.make_move(" 3   1 "), Err(MoveError::CellOccupied));
    assert_eq!(g.moves, vec![(2, 0)]);
}

#[test]
fn finish_turn_reports_a_win_for_the_mover() {
    let mut g = game_with(&[(2, 0, Cell::O), (2, 1, Cell::O), (2, 2, Cell::O)]);
    g.current_player = Cell::O;
    assert_eq!(g.finish_turn(), Outcome::Win(Cell::O));
    assert_eq!(g.current_player, Cell::O);
}

#[test]
fn finish_turn_reports_a_draw() {
    let cells = [
        (0, 0, Cell::X), (0, 1, Cell::O), (0, 2, Cell::X),
        (1, 0, Cell::X), (1, 1, Cell::O), (1, 2, Cell::O),
        (2, 0, Cell::O), (2, 1, Cell::X), (2, 2, Cell::X),
    ];
    let mut g = game_with(&cells);
    assert!(!g.check_win());
    assert_eq!(g.finish_turn(), Outcome::Draw);
    assert_eq!(g.current_player, Cell::X);
}

#[test]
fn parse_accepts_two_numbers_from_one_to_three() {
    assert_eq!(parse_move("1 1"), Ok((0, 0)));
    assert_eq!(parse_move("2 3"), Ok((1, 2)));
    assert_eq!(parse_move("3 2\n"), Ok((2, 1)));
    assert_eq!(parse_move("  1\t3  "), Ok((0, 2)));
    assert_eq!(parse_move("+2 03"), Ok((1, 2)));
    assert_eq!(parse_move("2\u{3000}1"), Ok((1, 0)));
}

#[test]
fn parse_refuses_everything_else() {
    for line in [
        "", "   ", "1", "1 2 3", "a b", "0 1", "1 0", "4 2", "2 4", "10 1", "-1 2", "+ 2",
        "1,2", "12", "1 2x", "99999999999999999999999 1",
    ] {
        assert_eq!(parse_move(line), Err(MoveError::MalformedInput), "{:?}", line);
    }
}

#[test]
fn render_shows_each_row_and_a_separator() {
    let g = game_with(&[(0, 0, Cell::X), (1, 2, Cell::O)]);
    let expected = "X |   |   | \n----------\n  |   | O | \n----------\n  |   |   | \n----------\n";
    assert_eq!(render(&g.grid), expected);
}

#[test]
fn symbols_are_one_glyph_each() {
    assert_eq!(Cell::Empty.symbol(), " ");
    assert_eq!(Cell::X.symbol(), "X");
    assert_eq!(Cell::O.symbol(), "O");
}
