//! A leaner board: lines hold only their cells, and coordinates are plain values.
use crate::game::{
    Board, Player, border_line, coordinate_text, grid_text, line_cell, line_winner, parsed,
    row_line, well_shaped, winner, winner_from, winner_of_line,
};
use crate::game;
use vstd::prelude::*;
use vstd::string::*;

verus! {

/// The state of one cell.
#[derive(Debug, Clone, Copy, PartialEq, Eq, Structural)]
pub enum Space {
    X,
    O,
    Empty,
}

impl View for Space {
    type V = game::Space;

    open spec fn view(&self) -> game::Space {
        match self {
            Space::X => game::Space::X,
            Space::O => game::Space::O,
            Space::Empty => game::Space::Empty,
        }
    }
}

impl Space {
    pub fn new(player: Option<Player>) -> (r: Space)
        ensures
            r@ == game::Space::of(player),
    {
        match player {
            Some(Player::X) => Space::X,
            Some(Player::O) => Space::O,
            None => Space::Empty,
        }
    }

    pub fn get_player(&self) -> (r: Option<Player>)
        ensures
            r == self@.owner(),
    {
        match self {
            Space::X => Some(Player::X),
            Space::O => Some(Player::O),
            Space::Empty => None,
        }
    }

    /// The one-character text of the cell: `X`, `O` or a blank.
    pub fn to_string(&self) -> (r: String)
        ensures
            r@ == game::space_text(self@),
    {
        match self {
            Space::X => {
                proof { reveal_strlit("X"); }
                "X".to_owned()
            },
            Space::O => {
                proof { reveal_strlit("O"); }
                "O".to_owned()
            },
            Space::Empty => {
                proof { reveal_strlit(" "); }
                " ".to_owned()
            },
        }
    }
}

/// The board held by an array of rows.
pub open spec fn board_of(a: [[Space; 3]; 3]) -> Board {
    a@.map_values(|row: [Space; 3]| row@.map_values(|s: Space| s@))
}

/// The 3x3 grid of cells.
pub struct Grid {
    spaces: [[Space; 3]; 3],
}

impl View for Grid {
    type V = Board;

    closed spec fn view(&self) -> Board {
        board_of(self.spaces)
    }
}

/// A cell position: a column `0` (A) to `2` (C) and a row `0` (1) to `2` (3).
#[derive(Debug, PartialEq, Eq)]
pub struct Coordinate(pub(crate) usize, pub(crate) usize);

impl Coordinate {
    #[verifier::type_invariant]
    spec fn in_range(self) -> bool {
        self.0 < 3 && self.1 < 3
    }

    /// The same position as a coordinate of the main board.
    pub open(crate) spec fn as_game(self) -> game::Coordinate {
        game::Coordinate::at(self.0 as int, self.1 as int)
    }

    pub fn new(x: usize, y: usize) -> (r: Coordinate)
        requires
            x < 3,
            y < 3,
        ensures
            r.as_game() == game::Coordinate::at(x as int, y as int),
    {
        Coordinate(x, y)
    }
}

impl Grid {
    proof fn lemma_shape(&self)
        ensures
            well_shaped(self@),
            forall|x: int, y: int|
                0 <= x < 3 && 0 <= y < 3 ==> #[trigger] self@[y][x] == self.spaces[y][x]@,
    {
    }

    pub fn new(spaces: [[Space; 3]; 3]) -> (r: Grid)
        ensures
            r@ == board_of(spaces),
    {
        Grid { spaces }
    }

    pub fn empty() -> (r: Grid)
        ensures
            r@ == game::empty_board(),
    {
        let r = Grid {
            spaces: [
                [Space::Empty, Space::Empty, Space::Empty],
                [Space::Empty, Space::Empty, Space::Empty],
                [Space::Empty, Space::Empty, Space::Empty],
            ],
        };
        proof {
            r.lemma_shape();
            assert(r@ =~~= game::empty_board());
        }
        r
    }

    pub fn get_space(&self, coordinate: Coordinate) -> (r: Space)
        ensures
            r@ == game::cell_at(self@, coordinate.as_game()),
    {
        proof {
            use_type_invariant(&coordinate);
            self.lemma_shape();
        }
        self.spaces[coordinate.1][coordinate.0]
    }

    pub fn is_legal(&self, coordinate: Coordinate) -> (r: bool)
        ensures
            r == (game::cell_at(self@, coordinate.as_game()) == game::Space::Empty),
    {
        self.get_space(coordinate).get_player().is_none()
    }

    pub fn lines(&self) -> (r: LineIterator)
        ensures
            r.board() == self@,
            r.position() == 0,
    {
        LineIterator::new(self.spaces)
    }

    pub fn get_winner(&self) -> (r: Option<Player>)
        ensures
            r == winner(self@),
    {
        let mut lines = self.lines();
        loop
            invariant
                lines.board() == self@,
                0 <= lines.position() <= 8,
                winner(self@) == winner_from(self@, lines.position()),
            decreases 8 - lines.position(),
        {
            match lines.next() {
                Some(line) => {
                    if let Some(winner) = line.get_winner() {
                        return Some(winner);
                    }
                },
                None => {
                    return None;
                },
            }
        }
    }

    fn append_row(&self, r: &mut String, y: usize)
        requires
            y < 3,
        ensures
            final(r)@ == old(r)@ + row_line(self@, y as int) + border_line(),
    {
        proof {
            self.lemma_shape();
        }
        let ghost start = r@;
        r.append(" ");
        r.append(game::row_text(y));
        r.append(" | ");
        r.append(self.spaces[y][0].to_string().as_str());
        r.append(" | ");
        r.append(self.spaces[y][1].to_string().as_str());
        r.append(" | ");
        r.append(self.spaces[y][2].to_string().as_str());
        r.append(" |\n");
        r.append("   +---+---+---+\n");
        assert(r@ =~= start + row_line(self@, y as int) + border_line());
    }

    /// The grid drawn as a table with column letters and row numbers.
    pub fn to_string(&self) -> (r: String)
        ensures
            r@ == grid_text(self@),
    {
        let mut r = "     A   B   C\n".to_owned();
        r.append("   +---+---+---+\n");
        self.append_row(&mut r, 0);
        self.append_row(&mut r, 1);
        self.append_row(&mut r, 2);
        assert(r@ =~= grid_text(self@));
        r
    }
}

/// The three cells of one of the eight winning lines.
#[derive(Debug, Clone, Copy, PartialEq, Eq)]
pub struct Line(pub(crate) [Space; 3]);

impl Line {
    /// The three cells of the line.
    pub open(crate) spec fn cells(self) -> Seq<game::Space> {
        seq![self.0[0]@, self.0[1]@, self.0[2]@]
    }

    pub fn new(spaces: [Space; 3]) -> (r: Line)
        ensures
            r.cells() == seq![spaces[0]@, spaces[1]@, spaces[2]@],
    {
        Line(spaces)
    }

    pub fn get_winner(&self) -> (r: Option<Player>)
        ensures
            r == line_winner(self.cells()[0], self.cells()[1], self.cells()[2]),
    {
        let spaces = self.get_spaces();
        if spaces[0] == spaces[1] && spaces[0] == spaces[2] {
            spaces[0].get_player()
        } else {
            None
        }
    }

    fn get_spaces(&self) -> (r: [Space; 3])
        ensures
            r@.map_values(|s: Space| s@) == self.cells(),
    {
        let r = [self.0[0], self.0[1], self.0[2]];
        assert(r@.map_values(|s: Space| s@) =~= self.cells());
        r
    }
}

/// Walks the eight lines of a board in line order.
pub struct LineIterator {
    spaces: [[Space; 3]; 3],
    counter: usize,
}

impl LineIterator {
    #[verifier::type_invariant]
    spec fn counter_in_range(self) -> bool {
        self.counter <= 8
    }

    /// The board whose lines are walked.
    pub closed spec fn board(self) -> Board {
        board_of(self.spaces)
    }

    /// How many lines have been handed out.
    pub closed spec fn position(self) -> int {
        self.counter as int
    }

    pub fn new(spaces: [[Space; 3]; 3]) -> (r: LineIterator)
        ensures
            r.board() == board_of(spaces),
            r.position() == 0,
    {
        LineIterator { spaces, counter: 0 }
    }

    /// The next line, or `None` once all eight have been handed out.
    pub fn next(&mut self) -> (r: Option<Line>)
        ensures
            final(self).board() == old(self).board(),
            old(self).position() < 8 ==> final(self).position() == old(self).position() + 1
                && r is Some && line_winner(
                r->Some_0.cells()[0],
                r->Some_0.cells()[1],
                r->Some_0.cells()[2],
            ) == winner_of_line(old(self).board(), old(self).position()) && forall|i: int|
                0 <= i < 3 ==> #[trigger] r->Some_0.cells()[i] == line_cell(
                    old(self).board(),
                    old(self).position(),
                    i,
                ),
            old(self).position() >= 8 ==> final(self).position() == old(self).position()
                && r is None,
            final(self).position() <= 8,
    {
        proof {
            use_type_invariant(&*self);
        }
        if self.counter < 8 {
            let p = game::profile(self.counter);
            let k = self.counter;
            self.counter = self.counter + 1;
            let line = Line(
                [
                    self.spaces[p[0].1][p[0].0],
                    self.spaces[p[1].1][p[1].0],
                    self.spaces[p[2].1][p[2].0],
                ],
            );
            assert(forall|i: int| 0 <= i < 3 ==> #[trigger] p[i] == p@[i]);
            assert(line.cells()[0] == line_cell(self.board(), k as int, 0));
            assert(line.cells()[1] == line_cell(self.board(), k as int, 1));
            assert(line.cells()[2] == line_cell(self.board(), k as int, 2));
            Some(line)
        } else {
            None
        }
    }

    /// How many lines are left to hand out.
    pub fn len(&self) -> (r: usize)
        ensures
            r == 8 - self.position(),
    {
        proof {
            use_type_invariant(self);
        }
        8 - self.counter
    }
}

/// A text that does not name a coordinate.
#[derive(Debug, Clone, PartialEq, Eq)]
pub struct ParseCoordinateError(pub(crate) String);

impl ParseCoordinateError {
    /// The refused text.
    pub open(crate) spec fn text(self) -> Seq<char> {
        self.0@
    }

    pub fn new(raw: String) -> (r: ParseCoordinateError)
        ensures
            r.text() == raw@,
    {
        ParseCoordinateError(raw)
    }

    /// The message: `Invalid coordinate: <text> (expected format: A1)`.
    pub fn to_string(&self) -> (r: String)
        ensures
            r@ == "Invalid coordinate: "@ + self.text() + " (expected format: A1)"@,
    {
        let mut r = "Invalid coordinate: ".to_owned();
        r.append(self.0.as_str());
        r.append(" (expected format: A1)");
        r
    }
}

impl Coordinate {
    /// The coordinate named by a text such as `B3` or `b3`.
    pub fn parse(raw: &str) -> (r: Result<Coordinate, ParseCoordinateError>)
        ensures
            match parsed(raw@) {
                Some((x, y)) => r is Ok && r->Ok_0.as_game() == game::Coordinate::at(x, y),
                None => r is Err && r->Err_0.text() == raw@,
            },
    {
        if raw.unicode_len() != 2 {
            return Err(ParseCoordinateError(raw.to_owned()));
        }
        let x: usize = match raw.get_char(0) {
            'A' | 'a' => 0,
            'B' | 'b' => 1,
            'C' | 'c' => 2,
            _ => return Err(ParseCoordinateError(raw.to_owned())),
        };
        let y: usize = match raw.get_char(1) {
            '1' => 0,
            '2' => 1,
            '3' => 2,
            _ => return Err(ParseCoordinateError(raw.to_owned())),
        };
        Ok(Coordinate(x, y))
    }

    /// The text of the coordinate, such as `B3`.
    pub fn to_string(&self) -> (r: String)
        ensures
            r@ == coordinate_text(self.as_game()),
    {
        proof {
            use_type_invariant(self);
        }
        let mut r = game::column_text(self.0).to_owned();
        r.append(game::row_text(self.1));
        r
    }
}

impl std::str::FromStr for Coordinate {
    type Err = ParseCoordinateError;

    fn from_str(raw: &str) -> (r: Result<Coordinate, ParseCoordinateError>)
        ensures
            match parsed(raw@) {
                Some((x, y)) => r is Ok && r->Ok_0.as_game() == game::Coordinate::at(x, y),
                None => r is Err && r->Err_0.text() == raw@,
            },
    {
        Coordinate::parse(raw)
    }
}

impl From<Coordinate> for String {
    fn from(coordinate: Coordinate) -> (r: String)
        ensures
            r@ == coordinate_text(coordinate.as_game()),
    {
        coordinate.to_string()
    }
}

impl vstd::std_specs::convert::FromSpecImpl<Coordinate> for String {
    open spec fn obeys_from_spec() -> bool {
        false
    }

    open spec fn from_spec(v: Coordinate) -> String {
        arbitrary()
    }
}

} // verus!
