use vstd::prelude::*;
use vstd::string::StringExecFns;

verus! {

/// What a cell of the board holds.
#[derive(Clone, Copy, Debug, PartialEq, Eq, Structural)]
pub enum Cell {
    Empty,
    X,
    O,
}

/// The 3x3 board, indexed by row, then column.
pub type Grid = [[Cell; 3]; 3];

/// The mark at (r, c) of a board.
pub open spec fn mark(g: Grid, r: int, c: int) -> Cell {
    g@[r]@[c]
}

/// Both coordinates lie on the board.
pub open spec fn on_board(r: int, c: int) -> bool {
    0 <= r < 3 && 0 <= c < 3
}

/// The cells that hold a player's mark.
pub open spec fn occupied(g: Grid) -> Set<(int, int)> {
    Set::new(|p: (int, int)| on_board(p.0, p.1) && mark(g, p.0, p.1) != Cell::Empty)
}

/// Every cell holds a player's mark.
pub open spec fn full(g: Grid) -> bool {
    forall|r: int, c: int| on_board(r, c) ==> mark(g, r, c) != Cell::Empty
}

/// The three given cells hold one and the same player's mark.
pub open spec fn same_mark(g: Grid, a: (int, int), b: (int, int), c: (int, int)) -> bool {
    &&& mark(g, a.0, a.1) != Cell::Empty
    &&& mark(g, b.0, b.1) == mark(g, a.0, a.1)
    &&& mark(g, c.0, c.1) == mark(g, a.0, a.1)
}

/// One player holds a whole row, a whole column, or the diagonal that runs
/// from the top left corner to the bottom right one. The other diagonal does
/// not count.
pub open spec fn three_in_a_row(g: Grid) -> bool {
    ||| exists|i: int| 0 <= i < 3 && #[trigger] same_mark(g, (i, 0), (i, 1), (i, 2))
    ||| exists|i: int| 0 <= i < 3 && #[trigger] same_mark(g, (0, i), (1, i), (2, i))
    ||| same_mark(g, (0, 0), (1, 1), (2, 2))
}

/// The two cells that follow (r, c) in direction (dr, dc) lie on the board
/// and hold the same mark as (r, c).
pub open spec fn ray_matches(g: Grid, r: int, c: int, dr: int, dc: int) -> bool {
    &&& on_board(r + 2 * dr, c + 2 * dc)
    &&& mark(g, r + dr, c + dc) == mark(g, r, c)
    &&& mark(g, r + 2 * dr, c + 2 * dc) == mark(g, r, c)
}

/// A run of three equal player marks starts at (r, c) and goes right, down,
/// or down and right.
pub open spec fn anchored_run(g: Grid, r: int, c: int) -> bool {
    &&& mark(g, r, c) != Cell::Empty
    &&& {
        ||| ray_matches(g, r, c, 0, 1)
        ||| ray_matches(g, r, c, 1, 0)
        ||| ray_matches(g, r, c, 1, 1)
    }
}

/// Scanning every cell for a run that starts there, in the three directions,
/// finds exactly the rows, the columns and the leading diagonal.
pub proof fn lemma_anchored_scan(g: Grid)
    ensures
        (exists|r: int, c: int| on_board(r, c) && #[trigger] anchored_run(g, r, c))
            <==> three_in_a_row(g),
{
    if three_in_a_row(g) {
        if exists|i: int| 0 <= i < 3 && #[trigger] same_mark(g, (i, 0), (i, 1), (i, 2)) {
            let i = choose|i: int| 0 <= i < 3 && #[trigger] same_mark(g, (i, 0), (i, 1), (i, 2));
            assert(anchored_run(g, i, 0));
        } else if exists|i: int| 0 <= i < 3 && #[trigger] same_mark(g, (0, i), (1, i), (2, i)) {
            let i = choose|i: int| 0 <= i < 3 && #[trigger] same_mark(g, (0, i), (1, i), (2, i));
            assert(anchored_run(g, 0, i));
        } else {
            assert(anchored_run(g, 0, 0));
        }
    }
    if exists|r: int, c: int| on_board(r, c) && #[trigger] anchored_run(g, r, c) {
        let (r, c) = choose|r: int, c: int| on_board(r, c) && #[trigger] anchored_run(g, r, c);
        if ray_matches(g, r, c, 0, 1) {
            assert(same_mark(g, (r, 0), (r, 1), (r, 2)));
        } else if ray_matches(g, r, c, 1, 0) {
            assert(same_mark(g, (0, c), (1, c), (2, c)));
        }
    }
}

impl Cell {
    /// The glyph that shows this mark on screen.
    pub open spec fn glyph(self) -> Seq<char> {
        match self {
            Cell::Empty => seq![' '],
            Cell::X => seq!['X'],
            Cell::O => seq!['O'],
        }
    }

    /// The glyph that shows this mark on screen.
    pub fn symbol(&self) -> (s: &'static str)
        ensures
            s@ == self.glyph(),
    {
        match self {
            Cell::Empty => {
                proof {
                    reveal_strlit(" ");
                }
                " "
            },
            Cell::X => {
                proof {
                    reveal_strlit("X");
                }
                "X"
            },
            Cell::O => {
                proof {
                    reveal_strlit("O");
                }
                "O"
            },
        }
    }
}

/// Written after each cell of a row.
pub open spec fn divider() -> Seq<char> {
    seq![' ', '|', ' ']
}

/// Written after each row.
pub open spec fn row_separator() -> Seq<char> {
    seq!['\n', '-', '-', '-', '-', '-', '-', '-', '-', '-', '-', '\n']
}

/// How row `r` is shown: each cell's glyph followed by a divider, then a
/// separator line.
pub open spec fn row_text(g: Grid, r: int) -> Seq<char> {
    cells_text(g, r, 3) + row_separator()
}

/// How the first `n` rows are shown, top to bottom.
pub open spec fn rows_text(g: Grid, n: int) -> Seq<char>
    decreases n,
{
    if n <= 0 {
        seq![]
    } else {
        rows_text(g, n - 1) + row_text(g, n - 1)
    }
}

/// The text that shows the whole board.
pub fn render(g: &Grid) -> (r: String)
    ensures
        r@ == rows_text(*g, 3),
{
    let mut out = String::new();
    let mut row: usize = 0;
    while row < 3
        invariant
            row <= 3,
            out@ == rows_text(*g, row as int),
        decreases 3 - row,
    {
        let ghost start = out@;
        let mut col: usize = 0;
        while col < 3
            invariant
                row < 3,
                col <= 3,
                out@ == start + cells_text(*g, row as int, col as int),
            decreases 3 - col,
        {
            out.append(g[row][col].symbol());
            proof {
                reveal_strlit(" | ");
            }
            out.append(" | ");
            col += 1;
        }
        proof {
            reveal_strlit("\n----------\n");
        }
        out.append("\n----------\n");
        assert(out@ =~= rows_text(*g, row as int) + row_text(*g, row as int));
        row += 1;
    }
    out
}

/// The glyphs of the first `n` cells of row `r`, each followed by a divider.
pub open spec fn cells_text(g: Grid, r: int, n: int) -> Seq<char>
    decreases n,
{
    if n <= 0 {
        seq![]
    } else {
        cells_text(g, r, n - 1) + mark(g, r, n - 1).glyph() + divider()
    }
}

} // verus!
