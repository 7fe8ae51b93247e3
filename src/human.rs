//! A participant whose moves a person types in; the reading itself happens outside.
use crate::game::{Coordinate, Grid, Player, Space, cell_at, coordinate_text, parsed};
use vstd::prelude::*;

verus! {

/// A participant whose moves are typed in by a person.
pub struct HumanPlayer {
    player: Player,
}

impl HumanPlayer {
    /// The side this participant plays.
    pub closed spec fn side(self) -> Player {
        self.player
    }

    pub fn new(player: Player) -> (r: HumanPlayer)
        ensures
            r.side() == player,
    {
        HumanPlayer { player }
    }

    /// The side this participant plays.
    pub fn player(&self) -> (r: Player)
        ensures
            r == self.side(),
    {
        self.player
    }
}

/// The move that a typed answer names on `grid`, or the message to show when it names none:
/// the text is not a coordinate, or its cell is taken.
pub fn read_move(grid: &Grid, answer: &str) -> (r: Result<Coordinate, String>)
    ensures
        match parsed(answer@) {
            None => r is Err && r->Err_0@ == "Invalid coordinate: "@ + answer@
                + " (expected format: A1)"@,
            Some((x, y)) => if cell_at(grid@, Coordinate::at(x, y)) == Space::Empty {
                r is Ok && r->Ok_0.col() == x && r->Ok_0.row() == y
            } else {
                r is Err && r->Err_0@ == coordinate_text(Coordinate::at(x, y))
                    + " is not a legal move."@
            },
        },
{
    match Coordinate::parse(answer) {
        Ok(coordinate) => match grid.try_legal(&coordinate) {
            Ok(()) => Ok(coordinate),
            Err(e) => Err(e.to_string()),
        },
        Err(e) => Err(e.to_string()),
    }
}

} // verus!
