//! A participant that plays a uniformly random legal move.
use crate::Playable;
use crate::computer::{is_free, lemma_legal_from, legal_moves, legal_moves_of};
use crate::game::{Coordinate, Grid, Space};
use rand::rngs::ThreadRng;
use rand::seq::SliceRandom;
use vstd::prelude::*;

verus! {

/// Relies on rand's `SliceRandom::choose`: `None` for an empty slice, else one of its
/// elements.
#[verifier::external_body]
fn random_move(moves: &Vec<Coordinate>, rng: &mut ThreadRng) -> (r: Option<Coordinate>)
    ensures
        r is None <==> moves@.len() == 0,
        r is Some ==> moves@.contains(r->Some_0),
{
    moves.choose(rng).copied()
}

/// A participant that plays a uniformly random legal move.
pub struct RandoPlayer {
    rng: ThreadRng,
}

impl RandoPlayer {
    pub fn new() -> RandoPlayer {
        RandoPlayer { rng: rand::thread_rng() }
    }
}

impl Playable for RandoPlayer {
    fn play(&mut self, grid: &Grid) -> (r: Coordinate) {
        let legal_moves = legal_moves(grid);
        proof {
            lemma_legal_from(grid@, 0);
            let (x, y) = choose|x: int, y: int|
                0 <= x < 3 && 0 <= y < 3 && #[trigger] grid@[y][x] == Space::Empty;
            assert(is_free(grid@, Coordinate::at(x, y)));
            assert(legal_moves_of(grid@).contains(Coordinate::at(x, y)));
        }
        match random_move(&legal_moves, &mut self.rng) {
            Some(c) => {
                proof {
                    let j = choose|j: int|
                        0 <= j < legal_moves@.len() && #[trigger] legal_moves@[j] == c;
                    assert(is_free(grid@, legal_moves@[j]));
                }
                c
            },
            None => legal_moves[0],
        }
    }
}

} // verus!
