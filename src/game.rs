use vstd::prelude::*;

use crate::board::{
    anchored_run, full, lemma_anchored_scan, mark, occupied, on_board, ray_matches,
    three_in_a_row, Cell, Grid,
};
use crate::input::{parse_move, requested_cell};

verus! {

/// The most cells that can be marked at once. Placing one more removes the
/// oldest mark.
pub const MAX_MARKS: usize = 6;

/// The other player's mark.
pub open spec fn opponent(p: Cell) -> Cell {
    match p {
        Cell::X => Cell::O,
        _ => Cell::X,
    }
}

/// Why a requested move was refused. Either way the game is left as it was
/// and the same player is asked again.
#[derive(Clone, Copy, Debug, PartialEq, Eq, Structural)]
pub enum MoveError {
    /// The text is not two numbers from 1 to 3.
    MalformedInput,
    /// The cell already holds a mark.
    CellOccupied,
}

/// What the game does once a move has been made.
#[derive(Clone, Copy, Debug, PartialEq, Eq, Structural)]
pub enum Outcome {
    /// The given player has three in a row; the game is over.
    Win(Cell),
    /// Every cell is marked; the game is over.
    Draw,
    /// The game goes on with the other player.
    Continue,
}

/// The marked cells, oldest first, after `p` is marked: `p` comes last, and
/// the oldest leaves once there are more than `MAX_MARKS`.
pub open spec fn next_moves(moves: Seq<(usize, usize)>, p: (usize, usize)) -> Seq<(usize, usize)> {
    let h = moves.push(p);
    if h.len() > MAX_MARKS {
        h.drop_first()
    } else {
        h
    }
}

/// The state of one game: the board, whose turn it is, and the cells that
/// are marked, oldest first.
pub struct Game {
    pub grid: Grid,
    pub current_player: Cell,
    pub moves: Vec<(usize, usize)>,
}

impl Game {
    /// The board's mark at (r, c).
    pub open spec fn cell(&self, r: int, c: int) -> Cell {
        mark(self.grid, r, c)
    }

    /// The marked cells, oldest first, are exactly the non-empty cells of the
    /// board, each listed once, and there are at most `MAX_MARKS` of them; the
    /// player to move is X or O.
    pub open spec fn wf(&self) -> bool {
        &&& self.current_player != Cell::Empty
        &&& self.moves@.len() <= MAX_MARKS
        &&& self.moves@.no_duplicates()
        &&& forall|i: int| 0 <= i < self.moves@.len() ==> on_board(
            #[trigger] self.moves@[i].0 as int,
            self.moves@[i].1 as int,
        )
        &&& forall|r: int, c: int|
            on_board(r, c) ==> (#[trigger] self.cell(r, c) != Cell::Empty <==> self.moves@.contains(
                (r as usize, c as usize),
            ))
    }

    /// Whether the oldest mark leaves the board when one more is placed.
    pub open spec fn evicts(&self) -> bool {
        self.moves@.len() + 1 > MAX_MARKS
    }

    /// The mark at (r, c) once the player to move has marked (row, col).
    pub open spec fn cell_after_move(&self, row: int, col: int, r: int, c: int) -> Cell {
        if r == row && c == col {
            self.current_player
        } else if self.evicts() && r == self.moves@[0].0 && c == self.moves@[0].1 {
            Cell::Empty
        } else {
            self.cell(r, c)
        }
    }

    /// `next` is this game after the player to move has marked the empty
    /// cell (row, col): the mark is placed, the cell joins the history, and
    /// when the history grows past `MAX_MARKS` its oldest cell is cleared in
    /// the same step. The turn does not pass.
    pub open spec fn moved_to(&self, row: int, col: int, next: Game) -> bool {
        &&& next.current_player == self.current_player
        &&& next.moves@ == next_moves(self.moves@, (row as usize, col as usize))
        &&& forall|r: int, c: int|
            on_board(r, c) ==> #[trigger] next.cell(r, c) == self.cell_after_move(row, col, r, c)
    }

    /// An empty board with X to move.
    pub fn new() -> (g: Game)
        ensures
            g.wf(),
            g.current_player == Cell::X,
            g.moves@.len() == 0,
            forall|r: int, c: int| on_board(r, c) ==> #[trigger] g.cell(r, c) == Cell::Empty,
    {
        Game { grid: [[Cell::Empty;3];3], current_player: Cell::X, moves: Vec::new() }
    }

    /// Marks the cell (row, col) for the player to move, unless it is taken.
    /// When this makes more than `MAX_MARKS` marks, the oldest one is removed
    /// before anything else can look at the board.
    pub fn apply_move(&mut self, row: usize, col: usize) -> (r: Result<(), MoveError>)
        requires
            old(self).wf(),
            on_board(row as int, col as int),
        ensures
            final(self).wf(),
            old(self).cell(row as int, col as int) != Cell::Empty ==> r == Err::<(), MoveError>(
                MoveError::CellOccupied,
            ) && *final(self) == *old(self),
            old(self).cell(row as int, col as int) == Cell::Empty ==> r is Ok && old(self).moved_to(
                row as int,
                col as int,
                *final(self),
            ),
    {
        if self.grid[row][col] != Cell::Empty {
            return Err(MoveError::CellOccupied);
        }
        let ghost before = *self;
        self.grid[row][col] = self.current_player;
        self.moves.push((row, col));
        if self.moves.len() > MAX_MARKS {
            let (old_row, old_col) = self.moves.remove(0);
            self.grid[old_row][old_col] = Cell::Empty;
        }
        proof {
            let p = (row, col);
            let pushed = before.moves@.push(p);
            assert(!before.moves@.contains(p)) by {
                assert(before.cell(row as int, col as int) == Cell::Empty);
            }
            assert(pushed.no_duplicates()) by {
                assert forall|i: int, j: int| 0 <= i < j < pushed.len() implies pushed[i]
                    != pushed[j] by {
                    if j == pushed.len() - 1 {
                        assert(before.moves@.contains(pushed[i]));
                    }
                }
            }
            assert forall|i: int| 0 <= i < self.moves@.len() implies on_board(
                #[trigger] self.moves@[i].0 as int,
                self.moves@[i].1 as int,
            ) by {
                if before.evicts() {
                    assert(self.moves@[i] == pushed[i + 1]);
                } else {
                    assert(self.moves@[i] == pushed[i]);
                }
            }
            assert forall|r: int, c: int| on_board(r, c) implies (#[trigger] self.cell(r, c)
                != Cell::Empty <==> self.moves@.contains((r as usize, c as usize))) by {
                let q = (r as usize, c as usize);
                assert(before.cell(r, c) != Cell::Empty <==> before.moves@.contains(q));
                assert(pushed.contains(q) <==> before.moves@.contains(q) || q == p) by {
                    if pushed.contains(q) {
                        let k = choose|k: int| 0 <= k < pushed.len() && pushed[k] == q;
                        if k < before.moves@.len() {
                            assert(before.moves@[k] == q);
                        }
                    }
                    if q == p {
                        assert(pushed[pushed.len() - 1] == q);
                    }
                    if before.moves@.contains(q) {
                        let k = choose|k: int| 0 <= k < before.moves@.len() && before.moves@[k] == q;
                        assert(pushed[k] == q);
                    }
                }
                if before.evicts() {
                    let e = before.moves@[0];
                    assert(pushed[0] == e);
                    if self.moves@.contains(q) {
                        let k = choose|k: int| 0 <= k < self.moves@.len() && self.moves@[k] == q;
                        assert(pushed[k + 1] == q);
                        assert(q != e);
                    }
                    if pushed.contains(q) && q != e {
                        let k = choose|k: int| 0 <= k < pushed.len() && pushed[k] == q;
                        assert(k != 0);
                        assert(self.moves@[k - 1] == q);
                    }
                }
            }
        }
        Ok(())
    }

    /// Carries out a move that the player to move typed as a line of text.
    /// A line that does not name a cell, or names a taken one, changes
    /// nothing: the same player is to try again.
    pub fn make_move(&mut self, line: &str) -> (r: Result<(), MoveError>)
        requires
            old(self).wf(),
        ensures
            final(self).wf(),
            match requested_cell(line@) {
                None => r == Err::<(), MoveError>(MoveError::MalformedInput) && *final(self) == *old(
                    self,
                ),
                Some(p) => if old(self).cell(p.0 as int, p.1 as int) != Cell::Empty {
                    r == Err::<(), MoveError>(MoveError::CellOccupied) && *final(self) == *old(self)
                } else {
                    r is Ok && old(self).moved_to(p.0 as int, p.1 as int, *final(self))
                },
            },
    {
        match parse_move(line) {
            Ok((row, col)) => self.apply_move(row, col),
            Err(e) => Err(e),
        }
    }

    /// Decides how the game goes on after a move: the player to move wins
    /// with three in a row; otherwise a full board is a draw; otherwise the
    /// turn passes to the other player.
    pub fn finish_turn(&mut self) -> (r: Outcome)
        requires
            old(self).wf(),
        ensures
            final(self).wf(),
            three_in_a_row(old(self).grid) ==> r == Outcome::Win(old(self).current_player)
                && *final(self) == *old(self),
            !three_in_a_row(old(self).grid) && full(old(self).grid) ==> r == Outcome::Draw
                && *final(self) == *old(self),
            !three_in_a_row(old(self).grid) && !full(old(self).grid) ==> r == Outcome::Continue
                && final(self).current_player == opponent(old(self).current_player)
                && final(self).grid == old(self).grid && final(self).moves == old(self).moves,
    {
        if self.check_win() {
            Outcome::Win(self.current_player)
        } else if self.check_draw() {
            Outcome::Draw
        } else {
            let ghost before = *self;
            self.switch_player();
            assert forall|r: int, c: int| on_board(r, c) implies #[trigger] self.cell(r, c)
                == before.cell(r, c) by {}
            Outcome::Continue
        }
    }

    /// Whether the two cells after (row, col) in direction (dr, dc) are on the
    /// board and hold the mark of (row, col).
    pub fn check_line(&self, row: usize, col: usize, dr: usize, dc: usize) -> (r: bool)
        requires
            on_board(row as int, col as int),
            dr <= 1,
            dc <= 1,
        ensures
            r == ray_matches(self.grid, row as int, col as int, dr as int, dc as int),
    {
        let (mut r, mut c) = (row, col);
        let mut step: usize = 0;
        while step < 2
            invariant
                on_board(row as int, col as int),
                dr <= 1,
                dc <= 1,
                step <= 2,
                step == 0 ==> r == row && c == col,
                step == 1 ==> r == row + dr && c == col + dc,
                step == 2 ==> r == row + 2 * dr && c == col + 2 * dc,
                step >= 1 ==> on_board(row + dr, col + dc) && mark(self.grid, row + dr, col + dc)
                    == mark(self.grid, row as int, col as int),
                step >= 2 ==> on_board(row + 2 * dr, col + 2 * dc) && mark(
                    self.grid,
                    row + 2 * dr,
                    col + 2 * dc,
                ) == mark(self.grid, row as int, col as int),
            decreases 2 - step,
        {
            r += dr;
            c += dc;
            step += 1;
            if r >= 3 || c >= 3 || self.grid[r][c] != self.grid[row][col] {
                return false;
            }
        }
        true
    }

    /// Whether some player holds a row, a column, or the leading diagonal.
    /// Each cell with a mark is checked for a run of three that starts there
    /// and goes right, down, or down and right.
    pub fn check_win(&self) -> (r: bool)
        ensures
            r == three_in_a_row(self.grid),
    {
        let directions: [(usize, usize); 3] = [(0, 1), (1, 0), (1, 1)];
        let mut row: usize = 0;
        while row < 3
            invariant
                row <= 3,
                directions@ == seq![(0usize, 1usize), (1usize, 0usize), (1usize, 1usize)],
                forall|r: int, c: int|
                    0 <= r < row && 0 <= c < 3 ==> !#[trigger] anchored_run(self.grid, r, c),
            decreases 3 - row,
        {
            let mut col: usize = 0;
            while col < 3
                invariant
                    row < 3,
                    col <= 3,
                    directions@ == seq![(0usize, 1usize), (1usize, 0usize), (1usize, 1usize)],
                    forall|r: int, c: int|
                        0 <= r < row && 0 <= c < 3 ==> !#[trigger] anchored_run(self.grid, r, c),
                    forall|c: int| 0 <= c < col ==> !#[trigger] anchored_run(self.grid, row as int, c),
                decreases 3 - col,
            {
                if self.grid[row][col] != Cell::Empty {
                    let mut k: usize = 0;
                    while k < 3
                        invariant
                            row < 3,
                            col < 3,
                            k <= 3,
                            directions@ == seq![(0usize, 1usize), (1usize, 0usize), (1usize, 1usize)],
                            self.cell(row as int, col as int) != Cell::Empty,
                            forall|j: int|
                                0 <= j < k ==> !ray_matches(
                                    self.grid,
                                    row as int,
                                    col as int,
                                    #[trigger] directions@[j].0 as int,
                                    directions@[j].1 as int,
                                ),
                        decreases 3 - k,
                    {
                        let (dr, dc) = directions[k];
                        if self.check_line(row, col, dr, dc) {
                            assert(anchored_run(self.grid, row as int, col as int));
                            proof {
                                lemma_anchored_scan(self.grid);
                            }
                            return true;
                        }
                        k += 1;
                    }
                    assert(!ray_matches(self.grid, row as int, col as int, directions@[0].0 as int, directions@[0].1 as int));
                    assert(!ray_matches(self.grid, row as int, col as int, directions@[1].0 as int, directions@[1].1 as int));
                    assert(!ray_matches(self.grid, row as int, col as int, directions@[2].0 as int, directions@[2].1 as int));
                }
                col += 1;
            }
            row += 1;
        }
        proof {
            lemma_anchored_scan(self.grid);
        }
        false
    }

    /// Whether every cell holds a player's mark.
    pub fn check_draw(&self) -> (r: bool)
        ensures
            r == full(self.grid),
    {
        let mut row: usize = 0;
        while row < 3
            invariant
                row <= 3,
                forall|r: int, c: int|
                    0 <= r < row && 0 <= c < 3 ==> #[trigger] mark(self.grid, r, c) != Cell::Empty,
            decreases 3 - row,
        {
            let mut col: usize = 0;
            while col < 3
                invariant
                    row < 3,
                    col <= 3,
                    forall|r: int, c: int|
                        0 <= r < row && 0 <= c < 3 ==> #[trigger] mark(self.grid, r, c) != Cell::Empty,
                    forall|c: int| 0 <= c < col ==> #[trigger] mark(self.grid, row as int, c) != Cell::Empty,
                decreases 3 - col,
            {
                if self.grid[row][col] == Cell::Empty {
                    assert(mark(self.grid, row as int, col as int) == Cell::Empty);
                    assert(on_board(row as int, col as int));
                    return false;
                }
                col += 1;
            }
            row += 1;
        }
        true
    }

    /// Hands the turn to the other player.
    pub fn switch_player(&mut self)
        ensures
            final(self).current_player == opponent(old(self).current_player),
            final(self).grid == old(self).grid,
            final(self).moves == old(self).moves,
    {
        self.current_player = if self.current_player == Cell::X {
            Cell::O
        } else {
            Cell::X
        };
    }
}

/// However a game has gone, at most `MAX_MARKS` cells are marked, and the
/// number of marked cells on the board equals the length of the history.
pub proof fn lemma_marks_match_history(g: Game)
    requires
        g.wf(),
    ensures
        g.moves@.len() <= MAX_MARKS,
        occupied(g.grid).finite(),
        occupied(g.grid).len() == g.moves@.len(),
{
    let m = g.moves@.map_values(|q: (usize, usize)| (q.0 as int, q.1 as int));
    assert(m.no_duplicates()) by {
        assert forall|i: int, j: int| 0 <= i < j < m.len() implies m[i] != m[j] by {
            assert(g.moves@[i] != g.moves@[j]);
        }
    }
    assert(m.to_set() =~= occupied(g.grid)) by {
        assert forall|p: (int, int)| m.to_set().contains(p) implies occupied(g.grid).contains(p) by {
            let k = choose|k: int| 0 <= k < m.len() && m[k] == p;
            assert(on_board(g.moves@[k].0 as int, g.moves@[k].1 as int));
            assert(g.moves@.contains((p.0 as usize, p.1 as usize)));
            assert(g.cell(p.0, p.1) != Cell::Empty);
        }
        assert forall|p: (int, int)| occupied(g.grid).contains(p) implies m.to_set().contains(p) by {
            assert(g.cell(p.0, p.1) != Cell::Empty);
            let k = choose|k: int|
                0 <= k < g.moves@.len() && g.moves@[k] == (p.0 as usize, p.1 as usize);
            assert(m[k] == p);
        }
    }
    m.unique_seq_to_set();
}

/// Handing the turn over twice gives it back to the player who had it.
pub proof fn lemma_switch_twice(p: Cell)
    requires
        p != Cell::Empty,
    ensures
        opponent(opponent(p)) == p,
{
}

} // verus!
