//! The board: sides, cells, coordinates and their text, the grid and its eight lines.
use vstd::prelude::*;
use vstd::string::*;

verus! {

/// One of the two sides.
#[derive(Debug, Clone, Copy, PartialEq, Eq, Structural, Hash)]
pub enum Player {
    X,
    O,
}

impl Player {
    /// The opposing side.
    pub open spec fn other(self) -> Player {
        match self {
            Player::X => Player::O,
            Player::O => Player::X,
        }
    }

    /// The side that moves after this one.
    pub fn turn(&self) -> (r: Player)
        ensures
            r == self.other(),
    {
        match self {
            Player::X => Player::O,
            Player::O => Player::X,
        }
    }

    /// The name of the side: `X` or `O`.
    pub fn to_string(&self) -> (r: String)
        ensures
            r@ == (match self {
                Player::X => seq!['X'],
                Player::O => seq!['O'],
            }),
    {
        match self {
            Player::X => {
                proof { reveal_strlit("X"); }
                "X".to_owned()
            },
            Player::O => {
                proof { reveal_strlit("O"); }
                "O".to_owned()
            },
        }
    }
}

/// Taking the other side twice gives back the side itself.
pub proof fn lemma_other_involutive(p: Player)
    ensures
        p.other().other() == p,
        p.other() != p,
{
}

/// The state of one cell.
#[derive(Debug, Clone, Copy, PartialEq, Eq, Structural)]
pub enum Space {
    X,
    O,
    Empty,
}

impl Space {
    /// The cell occupied by `player`, or the empty cell.
    pub open spec fn of(player: Option<Player>) -> Space {
        match player {
            Some(Player::X) => Space::X,
            Some(Player::O) => Space::O,
            None => Space::Empty,
        }
    }

    /// The side that occupies this cell, if any.
    pub open spec fn owner(self) -> Option<Player> {
        match self {
            Space::X => Some(Player::X),
            Space::O => Some(Player::O),
            Space::Empty => None,
        }
    }

    pub fn new(player: Option<&Player>) -> (r: Space)
        ensures
            r == Space::of(
                match player {
                    Some(p) => Some(*p),
                    None => None,
                },
            ),
    {
        match player {
            Some(Player::X) => Space::X,
            Some(Player::O) => Space::O,
            None => Space::Empty,
        }
    }

    pub fn get_player(&self) -> (r: Option<Player>)
        ensures
            r == self.owner(),
    {
        match self {
            Space::X => Some(Player::X),
            Space::O => Some(Player::O),
            Space::Empty => None,
        }
    }

    /// The one-character text of the cell: `X`, `O` or a blank.
    pub fn to_string(&self) -> (r: String)
        ensures
            r@ == space_text(*self),
    {
        match self {
            Space::X => {
                proof { reveal_strlit("X"); }
                "X".to_owned()
            },
            Space::O => {
                proof { reveal_strlit("O"); }
                "O".to_owned()
            },
            Space::Empty => {
                proof { reveal_strlit(" "); }
                " ".to_owned()
            },
        }
    }
}

pub open spec fn space_text(s: Space) -> Seq<char> {
    match s {
        Space::X => seq!['X'],
        Space::O => seq!['O'],
        Space::Empty => seq![' '],
    }
}

/// A cell position: a column `0` (A) to `2` (C) and a row `0` (1) to `2` (3).
#[derive(Debug, Clone, Copy, PartialEq, Eq, Structural)]
pub struct Coordinate(pub(crate) usize, pub(crate) usize);

impl Coordinate {
    #[verifier::type_invariant]
    spec fn in_range(self) -> bool {
        self.0 < 3 && self.1 < 3
    }

    /// The column, from `0` to `2`.
    pub open(crate) spec fn col(self) -> int {
        self.0 as int
    }

    /// The row, from `0` to `2`.
    pub open(crate) spec fn row(self) -> int {
        self.1 as int
    }

    /// The coordinate of column `x`, row `y`.
    pub open(crate) spec fn at(x: int, y: int) -> Coordinate {
        Coordinate(x as usize, y as usize)
    }

    pub fn new(x: usize, y: usize) -> (r: Coordinate)
        requires
            x < 3,
            y < 3,
        ensures
            r.col() == x,
            r.row() == y,
    {
        Coordinate(x, y)
    }
}


/// The cells of a grid as rows of cells: `b[y][x]` is column `x` of row `y`.
pub type Board = Seq<Seq<Space>>;

/// The board held by an array of rows.
pub open spec fn board_of(a: [[Space; 3]; 3]) -> Board {
    a@.map_values(|row: [Space; 3]| row@)
}

/// Three rows of three cells each.
pub open spec fn well_shaped(b: Board) -> bool {
    b.len() == 3 && forall|y: int| 0 <= y < 3 ==> (#[trigger] b[y]).len() == 3
}

/// The cell at a coordinate.
pub open spec fn cell_at(b: Board, c: Coordinate) -> Space {
    b[c.row()][c.col()]
}

/// The board after `player` takes the cell at `c`.
pub open spec fn placed(b: Board, c: Coordinate, player: Player) -> Board {
    b.update(c.row(), b[c.row()].update(c.col(), Space::of(Some(player))))
}

/// The three `(column, row)` positions of line `k`: rows top to bottom, then columns
/// left to right, then the `\` diagonal, then the `/` diagonal.
pub open spec fn line_profile(k: int) -> Seq<(int, int)> {
    if k == 0 {
        seq![(0, 0), (1, 0), (2, 0)]
    } else if k == 1 {
        seq![(0, 1), (1, 1), (2, 1)]
    } else if k == 2 {
        seq![(0, 2), (1, 2), (2, 2)]
    } else if k == 3 {
        seq![(0, 0), (0, 1), (0, 2)]
    } else if k == 4 {
        seq![(1, 0), (1, 1), (1, 2)]
    } else if k == 5 {
        seq![(2, 0), (2, 1), (2, 2)]
    } else if k == 6 {
        seq![(0, 0), (1, 1), (2, 2)]
    } else {
        seq![(0, 2), (1, 1), (2, 0)]
    }
}

/// The side that holds all three of the given cells, if one does.
pub open spec fn line_winner(a: Space, b: Space, c: Space) -> Option<Player> {
    if a == b && a == c {
        a.owner()
    } else {
        None
    }
}

/// The cell of board `b` at position `i` of line `k`.
pub open spec fn line_cell(b: Board, k: int, i: int) -> Space {
    b[line_profile(k)[i].1][line_profile(k)[i].0]
}

/// The side that holds all of line `k`, if one does.
pub open spec fn winner_of_line(b: Board, k: int) -> Option<Player> {
    line_winner(line_cell(b, k, 0), line_cell(b, k, 1), line_cell(b, k, 2))
}

/// The winner of the first line, from line `k` on, that one side holds entirely.
pub open spec fn winner_from(b: Board, k: int) -> Option<Player>
    decreases 8 - k,
{
    if k < 0 || k >= 8 {
        None
    } else {
        match winner_of_line(b, k) {
            Some(p) => Some(p),
            None => winner_from(b, k + 1),
        }
    }
}

/// The winner of a board: the side holding the first fully held line, in line order.
pub open spec fn winner(b: Board) -> Option<Player> {
    winner_from(b, 0)
}

/// Some cell of the board is empty.
pub open spec fn has_empty(b: Board) -> bool {
    exists|x: int, y: int| 0 <= x < 3 && 0 <= y < 3 && #[trigger] b[y][x] == Space::Empty
}

/// The game on the board goes on: a cell is free and nobody has won.
pub open spec fn in_progress(b: Board) -> bool {
    has_empty(b) && winner(b) is None
}

/// One if the cell at column `x`, row `y` is in state `s`, else zero.
pub open spec fn tally(b: Board, x: int, y: int, s: Space) -> int {
    if b[y][x] == s {
        1
    } else {
        0
    }
}

/// How many cells of the board are in state `s`.
pub open spec fn count_cells(b: Board, s: Space) -> int {
    tally(b, 0, 0, s) + tally(b, 1, 0, s) + tally(b, 2, 0, s) + tally(b, 0, 1, s) + tally(
        b,
        1,
        1,
        s,
    ) + tally(b, 2, 1, s) + tally(b, 0, 2, s) + tally(b, 1, 2, s) + tally(b, 2, 2, s)
}

proof fn lemma_placed_tally(b: Board, c: Coordinate, player: Player, x: int, y: int, s: Space)
    requires
        well_shaped(b),
        0 <= c.col() < 3,
        0 <= c.row() < 3,
        0 <= x < 3,
        0 <= y < 3,
    ensures
        tally(placed(b, c, player), x, y, s) == if c.col() == x && c.row() == y {
            tally(placed(b, c, player), c.col(), c.row(), s)
        } else {
            tally(b, x, y, s)
        },
        tally(placed(b, c, player), c.col(), c.row(), s) == if s == Space::of(Some(player)) {
            1int
        } else {
            0int
        },
{
}

/// Taking a free cell leaves one empty cell fewer and one cell more of the side that took it.
pub proof fn lemma_placed_counts(b: Board, c: Coordinate, player: Player)
    requires
        well_shaped(b),
        0 <= c.col() < 3,
        0 <= c.row() < 3,
        cell_at(b, c) == Space::Empty,
    ensures
        count_cells(placed(b, c, player), Space::Empty) == count_cells(b, Space::Empty) - 1,
        count_cells(placed(b, c, player), Space::of(Some(player))) == count_cells(
            b,
            Space::of(Some(player)),
        ) + 1,
        count_cells(placed(b, c, player), Space::of(Some(player.other()))) == count_cells(
            b,
            Space::of(Some(player.other())),
        ),
        well_shaped(placed(b, c, player)),
{
    assert forall|s: Space| #[trigger] count_cells(placed(b, c, player), s) == count_cells(b, s)
        - tally(b, c.col(), c.row(), s) + tally(placed(b, c, player), c.col(), c.row(), s) by {
        lemma_placed_tally(b, c, player, 0, 0, s);
        lemma_placed_tally(b, c, player, 1, 0, s);
        lemma_placed_tally(b, c, player, 2, 0, s);
        lemma_placed_tally(b, c, player, 0, 1, s);
        lemma_placed_tally(b, c, player, 1, 1, s);
        lemma_placed_tally(b, c, player, 2, 1, s);
        lemma_placed_tally(b, c, player, 0, 2, s);
        lemma_placed_tally(b, c, player, 1, 2, s);
        lemma_placed_tally(b, c, player, 2, 2, s);
    }
    lemma_placed_tally(b, c, player, 0, 0, Space::Empty);
    lemma_placed_tally(b, c, player, 0, 0, Space::of(Some(player)));
    lemma_placed_tally(b, c, player, 0, 0, Space::of(Some(player.other())));
    assert(count_cells(placed(b, c, player), Space::Empty) == count_cells(b, Space::Empty) - 1);
    assert(count_cells(placed(b, c, player), Space::of(Some(player))) == count_cells(
        b,
        Space::of(Some(player)),
    ) + 1);
    assert(count_cells(placed(b, c, player), Space::of(Some(player.other()))) == count_cells(
        b,
        Space::of(Some(player.other())),
    ));
}

/// The empty board has nine empty cells and none of either side.
pub proof fn lemma_empty_board_counts()
    ensures
        count_cells(empty_board(), Space::Empty) == 9,
        count_cells(empty_board(), Space::X) == 0,
        count_cells(empty_board(), Space::O) == 0,
{
}

/// The empty board.
pub open spec fn empty_board() -> Board {
    seq![
        seq![Space::Empty, Space::Empty, Space::Empty],
        seq![Space::Empty, Space::Empty, Space::Empty],
        seq![Space::Empty, Space::Empty, Space::Empty],
    ]
}

/// The 3x3 grid of cells.
#[derive(Debug, Clone, Copy, PartialEq, Eq)]
pub struct Grid {
    spaces: [[Space; 3]; 3],
}

impl View for Grid {
    type V = Board;

    closed spec fn view(&self) -> Board {
        board_of(self.spaces)
    }
}

/// A move onto a cell that is already taken.
#[derive(Debug, PartialEq, Eq)]
pub struct IllegalMove(pub(crate) Coordinate);

impl IllegalMove {
    /// The coordinate of the refused move.
    pub open(crate) spec fn at(self) -> Coordinate {
        self.0
    }

    pub fn new(coordinate: Coordinate) -> (r: IllegalMove)
        ensures
            r.at() == coordinate,
    {
        IllegalMove(coordinate)
    }
}

impl Grid {
    proof fn lemma_shape(&self)
        ensures
            well_shaped(self@),
            forall|x: int, y: int|
                0 <= x < 3 && 0 <= y < 3 ==> #[trigger] self@[y][x] == self.spaces[y][x],
    {
    }

    /// The view of a grid always has three rows of three cells.
    pub proof fn lemma_well_shaped(self)
        ensures
            well_shaped(self@),
    {
    }

    pub fn new(spaces: [[Space; 3]; 3]) -> (r: Grid)
        ensures
            r@ == board_of(spaces),
    {
        Grid { spaces }
    }

    pub fn empty() -> (r: Grid)
        ensures
            r@ == empty_board(),
    {
        let r = Grid::new(
            [
                [Space::Empty, Space::Empty, Space::Empty],
                [Space::Empty, Space::Empty, Space::Empty],
                [Space::Empty, Space::Empty, Space::Empty],
            ],
        );
        proof {
            r.lemma_shape();
            assert(r@ =~~= empty_board());
        }
        r
    }

    pub fn get_space(&self, coordinate: &Coordinate) -> (r: Space)
        ensures
            r == cell_at(self@, *coordinate),
    {
        proof {
            use_type_invariant(coordinate);
            self.lemma_shape();
        }
        self.spaces[coordinate.1][coordinate.0]
    }

    pub fn is_legal(&self, coordinate: &Coordinate) -> (r: bool)
        ensures
            r == (cell_at(self@, *coordinate) == Space::Empty),
    {
        self.get_space(coordinate).get_player().is_none()
    }

    pub fn try_legal(&self, coordinate: &Coordinate) -> (r: Result<(), IllegalMove>)
        ensures
            r is Ok <==> cell_at(self@, *coordinate) == Space::Empty,
            r is Err ==> r->Err_0.at() == *coordinate,
    {
        if self.is_legal(coordinate) {
            Ok(())
        } else {
            Err(IllegalMove(*coordinate))
        }
    }

    pub fn set_space(&mut self, coordinate: &Coordinate, player: &Player) -> (r: Result<
        (),
        IllegalMove,
    >)
        ensures
            r is Ok <==> cell_at(old(self)@, *coordinate) == Space::Empty,
            r is Ok ==> final(self)@ == placed(old(self)@, *coordinate, *player),
            r is Ok ==> cell_at(final(self)@, *coordinate) == Space::of(Some(*player)),
            r is Ok ==> cell_at(final(self)@, *coordinate) != Space::Empty,
            r is Err ==> r->Err_0.at() == *coordinate && *final(self) == *old(self),
    {
        proof {
            use_type_invariant(coordinate);
            self.lemma_shape();
        }
        match self.try_legal(coordinate) {
            Ok(()) => {
                self.spaces[coordinate.1][coordinate.0] = Space::new(Some(player));
                proof {
                    self.lemma_shape();
                    assert(self@ =~~= placed(old(self)@, *coordinate, *player));
                }
                Ok(())
            },
            Err(e) => Err(e),
        }
    }
}


/// One of the eight winning lines, with each coordinate and its cell.
#[derive(Debug, Clone, Copy, PartialEq, Eq)]
pub struct Line(pub(crate) [(Coordinate, Space); 3]);

impl Line {
    /// The three cells of the line.
    pub open(crate) spec fn cells(self) -> Seq<Space> {
        seq![self.0[0].1, self.0[1].1, self.0[2].1]
    }

    /// The three coordinates of the line.
    pub open(crate) spec fn coordinates(self) -> Seq<Coordinate> {
        seq![self.0[0].0, self.0[1].0, self.0[2].0]
    }

    /// This line is line `k` of board `b`.
    pub open(crate) spec fn is_line_of(self, b: Board, k: int) -> bool {
        forall|i: int|
            0 <= i < 3 ==> {
                &&& (#[trigger] self.coordinates()[i]).col() == line_profile(k)[i].0
                &&& self.coordinates()[i].row() == line_profile(k)[i].1
                &&& self.cells()[i] == line_cell(b, k, i)
            }
    }

    pub fn new(cells: [(Coordinate, Space); 3]) -> (r: Line)
        ensures
            r.cells() == seq![cells[0].1, cells[1].1, cells[2].1],
            r.coordinates() == seq![cells[0].0, cells[1].0, cells[2].0],
    {
        Line(cells)
    }

    pub fn get_winner(&self) -> (r: Option<Player>)
        ensures
            r == line_winner(self.cells()[0], self.cells()[1], self.cells()[2]),
    {
        let spaces = self.get_spaces();
        if spaces[0] == spaces[1] && spaces[0] == spaces[2] {
            spaces[0].get_player()
        } else {
            None
        }
    }

    fn get_spaces(&self) -> (r: [Space; 3])
        ensures
            r@ == self.cells(),
    {
        let r = [self.0[0].1, self.0[1].1, self.0[2].1];
        assert(r@ =~= self.cells());
        r
    }
}

/// The `(column, row)` positions of line `k`, as in `line_profile`.
pub(crate) fn profile(k: usize) -> (r: [(usize, usize); 3])
    requires
        k < 8,
    ensures
        forall|i: int|
            0 <= i < 3 ==> (#[trigger] r[i]).0 == line_profile(k as int)[i].0 && r[i].1
                == line_profile(k as int)[i].1,
        forall|i: int| 0 <= i < 3 ==> (#[trigger] r[i]).0 < 3 && r[i].1 < 3,
{
    if k == 0 {
        [(0, 0), (1, 0), (2, 0)]
    } else if k == 1 {
        [(0, 1), (1, 1), (2, 1)]
    } else if k == 2 {
        [(0, 2), (1, 2), (2, 2)]
    } else if k == 3 {
        [(0, 0), (0, 1), (0, 2)]
    } else if k == 4 {
        [(1, 0), (1, 1), (1, 2)]
    } else if k == 5 {
        [(2, 0), (2, 1), (2, 2)]
    } else if k == 6 {
        [(0, 0), (1, 1), (2, 2)]
    } else {
        [(0, 2), (1, 1), (2, 0)]
    }
}

/// Walks the eight lines of a board in line order.
pub struct LineIterator {
    spaces: [[Space; 3]; 3],
    counter: usize,
}

impl LineIterator {
    #[verifier::type_invariant]
    spec fn counter_in_range(self) -> bool {
        self.counter <= 8
    }

    /// The board whose lines are walked.
    pub closed spec fn board(self) -> Board {
        board_of(self.spaces)
    }

    /// How many lines have been handed out.
    pub closed spec fn position(self) -> int {
        self.counter as int
    }

    pub fn new(spaces: [[Space; 3]; 3]) -> (r: LineIterator)
        ensures
            r.board() == board_of(spaces),
            r.position() == 0,
    {
        LineIterator { spaces, counter: 0 }
    }

    /// The next line, or `None` once all eight have been handed out.
    pub fn next(&mut self) -> (r: Option<Line>)
        ensures
            final(self).board() == old(self).board(),
            old(self).position() < 8 ==> final(self).position() == old(self).position() + 1
                && r is Some && r->Some_0.is_line_of(old(self).board(), old(self).position()),
            old(self).position() >= 8 ==> final(self).position() == old(self).position()
                && r is None,
            final(self).position() <= 8,
    {
        proof {
            use_type_invariant(&*self);
        }
        if self.counter < 8 {
            let p = profile(self.counter);
            let k = self.counter;
            self.counter = self.counter + 1;
            let line = Line(
                [
                    (Coordinate(p[0].0, p[0].1), self.spaces[p[0].1][p[0].0]),
                    (Coordinate(p[1].0, p[1].1), self.spaces[p[1].1][p[1].0]),
                    (Coordinate(p[2].0, p[2].1), self.spaces[p[2].1][p[2].0]),
                ],
            );
            assert(line.is_line_of(self.board(), k as int)) by {
                assert(forall|i: int| 0 <= i < 3 ==> #[trigger] p[i] == p@[i]);
            }
            Some(line)
        } else {
            None
        }
    }

    /// How many lines are left to hand out.
    pub fn len(&self) -> (r: usize)
        ensures
            r == 8 - self.position(),
    {
        proof {
            use_type_invariant(self);
        }
        8 - self.counter
    }
}


impl Line {
    proof fn lemma_winner_of_line(self, b: Board, k: int)
        requires
            self.is_line_of(b, k),
        ensures
            line_winner(self.cells()[0], self.cells()[1], self.cells()[2]) == winner_of_line(b, k),
    {
        assert(self.coordinates()[0] == self.0[0].0);
        assert(self.coordinates()[1] == self.0[1].0);
        assert(self.coordinates()[2] == self.0[2].0);
    }
}

impl Grid {
    pub fn lines(&self) -> (r: LineIterator)
        ensures
            r.board() == self@,
            r.position() == 0,
    {
        LineIterator::new(self.spaces)
    }

    pub fn get_winner(&self) -> (r: Option<Player>)
        ensures
            r == winner(self@),
    {
        let mut lines = self.lines();
        loop
            invariant
                lines.board() == self@,
                0 <= lines.position() <= 8,
                winner(self@) == winner_from(self@, lines.position()),
            decreases 8 - lines.position(),
        {
            let k = Ghost(lines.position());
            match lines.next() {
                Some(line) => {
                    proof {
                        line.lemma_winner_of_line(self@, k@);
                    }
                    if let Some(winner) = line.get_winner() {
                        return Some(winner);
                    }
                },
                None => {
                    return None;
                },
            }
        }
    }

    pub fn has_legal_moves(&self) -> (r: bool)
        ensures
            r == has_empty(self@),
    {
        proof {
            self.lemma_shape();
        }
        let mut x: usize = 0;
        while x < 3
            invariant
                0 <= x <= 3,
                forall|i: int, j: int|
                    0 <= i < x && 0 <= j < 3 ==> #[trigger] self@[j][i] != Space::Empty,
            decreases 3 - x,
        {
            let mut y: usize = 0;
            while y < 3
                invariant
                    0 <= x < 3,
                    0 <= y <= 3,
                    forall|i: int, j: int|
                        0 <= i < x && 0 <= j < 3 ==> #[trigger] self@[j][i] != Space::Empty,
                    forall|j: int| 0 <= j < y ==> #[trigger] self@[j][x as int] != Space::Empty,
                decreases 3 - y,
            {
                if self.is_legal(&Coordinate::new(x, y)) {
                    return true;
                }
                y = y + 1;
            }
            x = x + 1;
        }
        false
    }

    pub fn is_in_progress(&self) -> (r: bool)
        ensures
            r == in_progress(self@),
    {
        self.has_legal_moves() && self.get_winner().is_none()
    }
}


/// The letter of column `x`.
pub open spec fn column_letter(x: int) -> char {
    if x == 0 {
        'A'
    } else if x == 1 {
        'B'
    } else {
        'C'
    }
}

/// The digit of row `y`.
pub open spec fn row_digit(y: int) -> char {
    if y == 0 {
        '1'
    } else if y == 1 {
        '2'
    } else {
        '3'
    }
}

/// The text of a coordinate: its column letter, then its row digit (`A1` is column 0, row 0).
pub open spec fn coordinate_text(c: Coordinate) -> Seq<char> {
    seq![column_letter(c.col()), row_digit(c.row())]
}

/// The column that a letter names, in upper or lower case.
pub open spec fn column_of(ch: char) -> Option<int> {
    if ch == 'A' || ch == 'a' {
        Some(0)
    } else if ch == 'B' || ch == 'b' {
        Some(1)
    } else if ch == 'C' || ch == 'c' {
        Some(2)
    } else {
        None
    }
}

/// The row that a digit names.
pub open spec fn row_of(ch: char) -> Option<int> {
    if ch == '1' {
        Some(0)
    } else if ch == '2' {
        Some(1)
    } else if ch == '3' {
        Some(2)
    } else {
        None
    }
}

/// The `(column, row)` that a text names: exactly a column letter and a row digit.
pub open spec fn parsed(s: Seq<char>) -> Option<(int, int)> {
    if s.len() == 2 && column_of(s[0]) is Some && row_of(s[1]) is Some {
        Some((column_of(s[0])->Some_0, row_of(s[1])->Some_0))
    } else {
        None
    }
}

/// A text that does not name a coordinate.
#[derive(Debug, Clone, PartialEq, Eq)]
pub struct ParseCoordinateError(pub(crate) String);

impl ParseCoordinateError {
    /// The refused text.
    pub open(crate) spec fn text(self) -> Seq<char> {
        self.0@
    }

    pub fn new(raw: String) -> (r: ParseCoordinateError)
        ensures
            r.text() == raw@,
    {
        ParseCoordinateError(raw)
    }

    /// The message: `Invalid coordinate: <text> (expected format: A1)`.
    pub fn to_string(&self) -> (r: String)
        ensures
            r@ == "Invalid coordinate: "@ + self.text() + " (expected format: A1)"@,
    {
        let mut r = "Invalid coordinate: ".to_owned();
        r.append(self.0.as_str());
        r.append(" (expected format: A1)");
        r
    }
}

pub(crate) fn column_text(x: usize) -> (r: &'static str)
    requires
        x < 3,
    ensures
        r@ == seq![column_letter(x as int)],
{
    if x == 0 {
        proof { reveal_strlit("A"); }
        "A"
    } else if x == 1 {
        proof { reveal_strlit("B"); }
        "B"
    } else {
        proof { reveal_strlit("C"); }
        "C"
    }
}

pub(crate) fn row_text(y: usize) -> (r: &'static str)
    requires
        y < 3,
    ensures
        r@ == seq![row_digit(y as int)],
{
    if y == 0 {
        proof { reveal_strlit("1"); }
        "1"
    } else if y == 1 {
        proof { reveal_strlit("2"); }
        "2"
    } else {
        proof { reveal_strlit("3"); }
        "3"
    }
}

impl Coordinate {
    /// The coordinate named by a text such as `B3` or `b3`.
    pub fn parse(raw: &str) -> (r: Result<Coordinate, ParseCoordinateError>)
        ensures
            match parsed(raw@) {
                Some((x, y)) => r is Ok && r->Ok_0.col() == x && r->Ok_0.row() == y,
                None => r is Err && r->Err_0.text() == raw@,
            },
    {
        if raw.unicode_len() != 2 {
            return Err(ParseCoordinateError(raw.to_owned()));
        }
        let x: usize = match raw.get_char(0) {
            'A' | 'a' => 0,
            'B' | 'b' => 1,
            'C' | 'c' => 2,
            _ => return Err(ParseCoordinateError(raw.to_owned())),
        };
        let y: usize = match raw.get_char(1) {
            '1' => 0,
            '2' => 1,
            '3' => 2,
            _ => return Err(ParseCoordinateError(raw.to_owned())),
        };
        Ok(Coordinate(x, y))
    }

    /// The text of the coordinate, such as `B3`.
    pub fn to_string(&self) -> (r: String)
        ensures
            r@ == coordinate_text(*self),
    {
        proof {
            use_type_invariant(self);
        }
        let mut r = column_text(self.0).to_owned();
        r.append(row_text(self.1));
        r
    }
}

impl std::str::FromStr for Coordinate {
    type Err = ParseCoordinateError;

    fn from_str(raw: &str) -> (r: Result<Coordinate, ParseCoordinateError>)
        ensures
            match parsed(raw@) {
                Some((x, y)) => r is Ok && r->Ok_0.col() == x && r->Ok_0.row() == y,
                None => r is Err && r->Err_0.text() == raw@,
            },
    {
        Coordinate::parse(raw)
    }
}

impl From<Coordinate> for String {
    fn from(coordinate: Coordinate) -> (r: String)
        ensures
            r@ == coordinate_text(coordinate),
    {
        coordinate.to_string()
    }
}

impl vstd::std_specs::convert::FromSpecImpl<Coordinate> for String {
    open spec fn obeys_from_spec() -> bool {
        false
    }

    open spec fn from_spec(v: Coordinate) -> String {
        arbitrary()
    }
}

impl IllegalMove {
    /// The message: `<coordinate> is not a legal move.`.
    pub fn to_string(&self) -> (r: String)
        ensures
            r@ == coordinate_text(self.at()) + " is not a legal move."@,
    {
        let mut r = self.0.to_string();
        r.append(" is not a legal move.");
        r
    }
}


/// Formatting a coordinate and parsing the text gives the coordinate back, whether the
/// column letter is written in upper or in lower case; and a text that parses is the text
/// of what it names, up to the case of its letter.
pub proof fn lemma_text_round_trip(c: Coordinate, s: Seq<char>)
    requires
        0 <= c.col() < 3,
        0 <= c.row() < 3,
    ensures
        parsed(coordinate_text(c)) == Some((c.col(), c.row())),
        parsed(seq![lower_letter(column_letter(c.col())), row_digit(c.row())]) == Some(
            (c.col(), c.row()),
        ),
        parsed(s) matches Some((x, y)) ==> coordinate_text(Coordinate::at(x, y)) == seq![
            upper_letter(s[0]),
            s[1],
        ],
{
    if let Some((x, y)) = parsed(s) {
        assert(coordinate_text(Coordinate::at(x, y)) =~= seq![upper_letter(s[0]), s[1]]);
    }
}

/// The lower-case form of a column letter.
pub open spec fn lower_letter(ch: char) -> char {
    if ch == 'A' {
        'a'
    } else if ch == 'B' {
        'b'
    } else if ch == 'C' {
        'c'
    } else {
        ch
    }
}

/// The upper-case form of a column letter.
pub open spec fn upper_letter(ch: char) -> char {
    if ch == 'a' {
        'A'
    } else if ch == 'b' {
        'B'
    } else if ch == 'c' {
        'C'
    } else {
        ch
    }
}

/// The text of one grid row: its number and its three cells between bars.
pub open spec fn row_line(b: Board, y: int) -> Seq<char> {
    " "@ + seq![row_digit(y)] + " | "@ + space_text(b[y][0]) + " | "@ + space_text(b[y][1])
        + " | "@ + space_text(b[y][2]) + " |\n"@
}

/// The bar between grid rows.
pub open spec fn border_line() -> Seq<char> {
    "   +---+---+---+\n"@
}

/// The table drawn for a board: the column letters, then each row between bars.
pub open spec fn grid_text(b: Board) -> Seq<char> {
    "     A   B   C\n"@ + border_line() + row_line(b, 0) + border_line() + row_line(b, 1)
        + border_line() + row_line(b, 2) + border_line()
}

impl Grid {
    fn append_row(&self, r: &mut String, y: usize)
        requires
            y < 3,
        ensures
            final(r)@ == old(r)@ + row_line(self@, y as int) + border_line(),
    {
        proof {
            self.lemma_shape();
        }
        let ghost start = r@;
        r.append(" ");
        r.append(row_text(y));
        r.append(" | ");
        r.append(self.spaces[y][0].to_string().as_str());
        r.append(" | ");
        r.append(self.spaces[y][1].to_string().as_str());
        r.append(" | ");
        r.append(self.spaces[y][2].to_string().as_str());
        r.append(" |\n");
        r.append("   +---+---+---+\n");
        assert(r@ =~= start + row_line(self@, y as int) + border_line());
    }

    /// The grid drawn as a table with column letters and row numbers.
    pub fn to_string(&self) -> (r: String)
        ensures
            r@ == grid_text(self@),
    {
        let mut r = "     A   B   C\n".to_owned();
        r.append("   +---+---+---+\n");
        self.append_row(&mut r, 0);
        self.append_row(&mut r, 1);
        self.append_row(&mut r, 2);
        assert(r@ =~= grid_text(self@));
        r
    }
}


proof fn lemma_winner_from_none(b: Board, k: int)
    requires
        0 <= k <= 8,
    ensures
        winner_from(b, k) is None <==> forall|j: int|
            k <= j < 8 ==> #[trigger] winner_of_line(b, j) is None,
    decreases 8 - k,
{
    if k < 8 {
        lemma_winner_from_none(b, k + 1);
    }
}

/// A board has no winner exactly when no line is held entirely by one side; the empty board
/// has none.
pub proof fn lemma_no_winner(b: Board)
    ensures
        winner(b) is None <==> forall|k: int|
            0 <= k < 8 ==> #[trigger] winner_of_line(b, k) is None,
        winner(empty_board()) is None,
{
    lemma_winner_from_none(b, 0);
    lemma_winner_from_none(empty_board(), 0);
    assert forall|k: int| 0 <= k < 8 implies #[trigger] winner_of_line(empty_board(), k)
        is None by {
        assert(line_cell(empty_board(), k, 0) == Space::Empty);
    }
}

} // verus!
