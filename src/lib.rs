//! A two-player game on a 3x3 grid, with a heuristic computer opponent.

pub mod computer;
pub mod game;
pub mod grid;
pub mod human;
pub mod rando;

use crate::computer::is_free;
use crate::game::{
    Coordinate, Grid, Player, Space, count_cells, has_empty, in_progress, lemma_empty_board_counts,
    lemma_placed_counts,
};
use vstd::prelude::*;

verus! {

/// A participant that picks a move on a grid that still has a free cell.
pub trait Playable {
    fn play(&mut self, grid: &Grid) -> (r: Coordinate)
        requires
            has_empty(grid@),
        ensures
            is_free(grid@, r),
    ;
}

/// Plays one game from the empty grid, the sides taking turns with `X` first, and returns
/// the final grid: one side has won or no cell is free. `X` holds as many cells as `O`, or
/// one more.
pub fn play<X: Playable, O: Playable>(mut player_x: X, mut player_o: O) -> (r: Grid)
    ensures
        !in_progress(r@),
        count_cells(r@, Space::X) == count_cells(r@, Space::O) || count_cells(r@, Space::X)
            == count_cells(r@, Space::O) + 1,
{
    let mut grid = Grid::empty();
    let mut current_player = Player::X;
    proof {
        lemma_empty_board_counts();
    }
    while grid.is_in_progress()
        invariant
            current_player == Player::X ==> count_cells(grid@, Space::X) == count_cells(
                grid@,
                Space::O,
            ),
            current_player == Player::O ==> count_cells(grid@, Space::X) == count_cells(
                grid@,
                Space::O,
            ) + 1,
        decreases count_cells(grid@, Space::Empty),
    {
        let coordinate = match current_player {
            Player::X => player_x.play(&grid),
            Player::O => player_o.play(&grid),
        };
        proof {
            grid.lemma_well_shaped();
            lemma_placed_counts(grid@, coordinate, current_player);
        }
        let placed = grid.set_space(&coordinate, &current_player);
        assert(placed is Ok);
        current_player = current_player.turn();
    }
    grid
}

} // verus!
