//! The heuristic move selector and the computer participant that uses it.
use crate::Playable;
use crate::game::{Board, Coordinate, Grid, Player, Space, cell_at, has_empty, placed, winner};
use rand::rngs::ThreadRng;
use rand::seq::SliceRandom;
use vstd::prelude::*;

verus! {

#[verifier::external_type_specification]
#[verifier::external_body]
pub struct ExThreadRng(ThreadRng);

/// Relies on rand's `thread_rng`, which hands out a handle on the thread's generator (it
/// panics only where the operating system's random source cannot be read).
pub assume_specification[ rand::thread_rng ]() -> ThreadRng;

/// Relies on rand's `SliceRandom::shuffle`, which only swaps elements: the moves come back
/// reordered, none lost and none added.
#[verifier::external_body]
fn shuffle_moves(moves: &mut Vec<Coordinate>, rng: &mut ThreadRng)
    ensures
        final(moves)@.to_multiset() == old(moves)@.to_multiset(),
{
    moves.shuffle(rng);
}

/// The legal moves of board `b` from scan position `k` on, in scan order: column by column,
/// and down each column (`k` is `3 * column + row`).
pub open spec fn legal_from(b: Board, k: int) -> Seq<Coordinate>
    decreases 9 - k,
{
    if k < 0 || k >= 9 {
        Seq::empty()
    } else {
        let c = Coordinate::at(k / 3, k % 3);
        if cell_at(b, c) == Space::Empty {
            seq![c] + legal_from(b, k + 1)
        } else {
            legal_from(b, k + 1)
        }
    }
}

/// All legal moves of board `b`, in scan order.
pub open spec fn legal_moves_of(b: Board) -> Seq<Coordinate> {
    legal_from(b, 0)
}

/// `c` names a cell of the grid and that cell is free.
pub open spec fn is_free(b: Board, c: Coordinate) -> bool {
    0 <= c.col() < 3 && 0 <= c.row() < 3 && cell_at(b, c) == Space::Empty
}

/// The moves listed from scan position `k` on are exactly the free cells from there on.
pub proof fn lemma_legal_from(b: Board, k: int)
    requires
        0 <= k <= 9,
    ensures
        forall|i: int|
            0 <= i < legal_from(b, k).len() ==> is_free(b, #[trigger] legal_from(b, k)[i])
                && 3 * legal_from(b, k)[i].col() + legal_from(b, k)[i].row() >= k,
        forall|c: Coordinate|
            is_free(b, c) && 3 * c.col() + c.row() >= k ==> #[trigger] legal_from(b, k).contains(c),
    decreases 9 - k,
{
    if k < 9 {
        lemma_legal_from(b, k + 1);
        let c = Coordinate::at(k / 3, k % 3);
        assert forall|c2: Coordinate|
            is_free(b, c2) && 3 * c2.col() + c2.row() >= k implies #[trigger] legal_from(
                b,
                k,
            ).contains(c2) by {
            if 3 * c2.col() + c2.row() == k {
                assert(c2 == c);
                assert(legal_from(b, k)[0] == c);
            } else {
                assert(legal_from(b, k + 1).contains(c2));
                let next = legal_from(b, k + 1);
                let j = choose|j: int| 0 <= j < next.len() && #[trigger] next[j] == c2;
                if cell_at(b, c) == Space::Empty {
                    assert(legal_from(b, k)[j + 1] == c2);
                } else {
                    assert(legal_from(b, k)[j] == c2);
                }
            }
        }
    }
}

/// The legal moves of the grid, in scan order: column by column, and down each column.
pub fn legal_moves(grid: &Grid) -> (r: Vec<Coordinate>)
    ensures
        r@ == legal_moves_of(grid@),
{
    let mut moves: Vec<Coordinate> = Vec::with_capacity(9);
    let mut x: usize = 0;
    while x < 3
        invariant
            0 <= x <= 3,
            moves@ + legal_from(grid@, 3 * x) == legal_moves_of(grid@),
        decreases 3 - x,
    {
        let mut y: usize = 0;
        while y < 3
            invariant
                0 <= x < 3,
                0 <= y <= 3,
                moves@ + legal_from(grid@, 3 * x + y) == legal_moves_of(grid@),
            decreases 3 - y,
        {
            let coordinate = Coordinate::new(x, y);
            let k = Ghost(3 * x + y);
            assert(coordinate == Coordinate::at(k@ / 3, k@ % 3));
            if grid.is_legal(&coordinate) {
                assert(moves@.push(coordinate) + legal_from(grid@, k@ + 1) =~= moves@ + legal_from(
                    grid@,
                    k@,
                ));
                moves.push(coordinate);
            }
            y = y + 1;
        }
        x = x + 1;
    }
    assert(legal_from(grid@, 9) =~= Seq::<Coordinate>::empty());
    assert(moves@ =~= moves@ + legal_from(grid@, 9));
    moves
}

/// The board after `player` tries the cell at `c`: taken if it is free, else unchanged.
pub open spec fn tried(b: Board, c: Coordinate, player: Player) -> Board {
    if cell_at(b, c) == Space::Empty {
        placed(b, c, player)
    } else {
        b
    }
}

/// Trying the cell at `c` makes `player` the winner.
pub open spec fn wins_at(b: Board, c: Coordinate, player: Player) -> bool {
    winner(tried(b, c, player)) == Some(player)
}

/// The first of `moves` that wins at once for `player`.
pub open spec fn first_winning(b: Board, moves: Seq<Coordinate>, player: Player) -> Option<
    Coordinate,
>
    decreases moves.len(),
{
    if moves.len() == 0 {
        None
    } else if wins_at(b, moves[0], player) {
        Some(moves[0])
    } else {
        first_winning(b, moves.drop_first(), player)
    }
}

/// How many of `moves`, other than `c`, win at once for `player` on board `b`.
pub open spec fn win_count(b: Board, moves: Seq<Coordinate>, c: Coordinate, player: Player) -> nat
    decreases moves.len(),
{
    if moves.len() == 0 {
        0
    } else {
        win_count(b, moves.drop_last(), c, player) + if moves.last() != c && wins_at(
            b,
            moves.last(),
            player,
        ) {
            1nat
        } else {
            0nat
        }
    }
}

/// Playing `c` leaves `player` more than one of `moves` that would then win: a fork.
pub open spec fn forks_at(b: Board, moves: Seq<Coordinate>, c: Coordinate, player: Player) -> bool {
    win_count(tried(b, c, player), moves, c, player) > 1
}

/// The first of `rest` that is a fork for `player`, counting winning replies among `moves`.
pub open spec fn first_forking(
    b: Board,
    moves: Seq<Coordinate>,
    rest: Seq<Coordinate>,
    player: Player,
) -> Option<Coordinate>
    decreases rest.len(),
{
    if rest.len() == 0 {
        None
    } else if forks_at(b, moves, rest[0], player) {
        Some(rest[0])
    } else {
        first_forking(b, moves, rest.drop_first(), player)
    }
}

/// The move the heuristic picks among `moves`, scanned in their order: a win, else a block
/// of the opponent's win, else a fork, else a block of the opponent's fork, else the first
/// move; `None` when there are no moves.
pub open spec fn choice(b: Board, moves: Seq<Coordinate>, player: Player) -> Option<Coordinate> {
    if first_winning(b, moves, player) is Some {
        first_winning(b, moves, player)
    } else if first_winning(b, moves, player.other()) is Some {
        first_winning(b, moves, player.other())
    } else if first_forking(b, moves, moves, player) is Some {
        first_forking(b, moves, moves, player)
    } else if first_forking(b, moves, moves, player.other()) is Some {
        first_forking(b, moves, moves, player.other())
    } else if moves.len() > 0 {
        Some(moves[0])
    } else {
        None
    }
}

/// A copy of the grid after `player` tries the cell at `coordinate`.
fn try_move(grid: &Grid, coordinate: &Coordinate, player: &Player) -> (r: Grid)
    ensures
        r@ == tried(grid@, *coordinate, *player),
{
    let mut grid = grid.clone();
    let _ = grid.set_space(coordinate, player);
    grid
}

/// Whether trying the cell at `coordinate` makes `player` win.
fn wins(grid: &Grid, coordinate: &Coordinate, player: &Player) -> (r: bool)
    ensures
        r == wins_at(grid@, *coordinate, *player),
{
    match try_move(grid, coordinate, player).get_winner() {
        Some(w) => w == *player,
        None => false,
    }
}

fn winning_move(grid: &Grid, legal_moves: &Vec<Coordinate>, player: &Player) -> (r: Option<
    Coordinate,
>)
    ensures
        r == first_winning(grid@, legal_moves@, *player),
{
    let mut i: usize = 0;
    assert(legal_moves@ =~= legal_moves@.subrange(0, legal_moves@.len() as int));
    while i < legal_moves.len()
        invariant
            0 <= i <= legal_moves@.len(),
            first_winning(grid@, legal_moves@, *player) == first_winning(
                grid@,
                legal_moves@.subrange(i as int, legal_moves@.len() as int),
                *player,
            ),
        decreases legal_moves.len() - i,
    {
        let rest = Ghost(legal_moves@.subrange(i as int, legal_moves@.len() as int));
        assert(rest@.drop_first() =~= legal_moves@.subrange(i + 1, legal_moves@.len() as int));
        if wins(grid, &legal_moves[i], player) {
            return Some(legal_moves[i]);
        }
        i = i + 1;
    }
    assert(legal_moves@.subrange(i as int, legal_moves@.len() as int).len() == 0);
    None
}

/// Whether playing `coordinate` sets up a fork for `player`.
fn is_fork(
    grid: &Grid,
    legal_moves: &Vec<Coordinate>,
    coordinate: &Coordinate,
    player: &Player,
) -> (r: bool)
    ensures
        r == forks_at(grid@, legal_moves@, *coordinate, *player),
{
    let next_grid = try_move(grid, coordinate, player);
    let mut fork_count: usize = 0;
    let mut j: usize = 0;
    while j < legal_moves.len()
        invariant
            0 <= j <= legal_moves@.len(),
            next_grid@ == tried(grid@, *coordinate, *player),
            fork_count == win_count(
                next_grid@,
                legal_moves@.subrange(0, j as int),
                *coordinate,
                *player,
            ),
            fork_count <= j,
        decreases legal_moves.len() - j,
    {
        let next_coordinate = &legal_moves[j];
        assert(legal_moves@.subrange(0, j + 1).drop_last() =~= legal_moves@.subrange(0, j as int));
        if *next_coordinate != *coordinate && wins(&next_grid, next_coordinate, player) {
            fork_count = fork_count + 1;
        }
        j = j + 1;
    }
    assert(legal_moves@.subrange(0, j as int) =~= legal_moves@);
    fork_count > 1
}

fn forking_move(grid: &Grid, legal_moves: &Vec<Coordinate>, player: &Player) -> (r: Option<
    Coordinate,
>)
    ensures
        r == first_forking(grid@, legal_moves@, legal_moves@, *player),
{
    let mut i: usize = 0;
    assert(legal_moves@ =~= legal_moves@.subrange(0, legal_moves@.len() as int));
    while i < legal_moves.len()
        invariant
            0 <= i <= legal_moves@.len(),
            first_forking(grid@, legal_moves@, legal_moves@, *player) == first_forking(
                grid@,
                legal_moves@,
                legal_moves@.subrange(i as int, legal_moves@.len() as int),
                *player,
            ),
        decreases legal_moves.len() - i,
    {
        let rest = Ghost(legal_moves@.subrange(i as int, legal_moves@.len() as int));
        assert(rest@.drop_first() =~= legal_moves@.subrange(i + 1, legal_moves@.len() as int));
        if is_fork(grid, legal_moves, &legal_moves[i], player) {
            return Some(legal_moves[i]);
        }
        i = i + 1;
    }
    assert(legal_moves@.subrange(i as int, legal_moves@.len() as int).len() == 0);
    None
}

/// The heuristic's move among `legal_moves`, scanned in their order (see `choice`).
pub fn select_move_from(grid: &Grid, legal_moves: &Vec<Coordinate>, player: Player) -> (r: Option<
    Coordinate,
>)
    ensures
        r == choice(grid@, legal_moves@, player),
{
    assert(legal_moves@ =~= legal_moves@.subrange(0, legal_moves@.len() as int));
    if let Some(c) = winning_move(grid, legal_moves, &player) {
        return Some(c);
    }
    let opponent = player.turn();
    if let Some(c) = winning_move(grid, legal_moves, &opponent) {
        return Some(c);
    }
    if let Some(c) = forking_move(grid, legal_moves, &player) {
        return Some(c);
    }
    if let Some(c) = forking_move(grid, legal_moves, &opponent) {
        return Some(c);
    }
    if legal_moves.len() > 0 {
        Some(legal_moves[0])
    } else {
        None
    }
}


proof fn lemma_first_winning_in(b: Board, moves: Seq<Coordinate>, player: Player)
    ensures
        first_winning(b, moves, player) is Some ==> moves.contains(
            first_winning(b, moves, player)->Some_0,
        ),
    decreases moves.len(),
{
    if moves.len() > 0 {
        lemma_first_winning_in(b, moves.drop_first(), player);
        if !wins_at(b, moves[0], player) && first_winning(b, moves, player) is Some {
            let j = choose|j: int|
                0 <= j < moves.drop_first().len() && #[trigger] moves.drop_first()[j]
                    == first_winning(b, moves, player)->Some_0;
            assert(moves[j + 1] == moves.drop_first()[j]);
        }
    }
}

proof fn lemma_first_forking_in(
    b: Board,
    moves: Seq<Coordinate>,
    rest: Seq<Coordinate>,
    player: Player,
)
    ensures
        first_forking(b, moves, rest, player) is Some ==> rest.contains(
            first_forking(b, moves, rest, player)->Some_0,
        ),
    decreases rest.len(),
{
    if rest.len() > 0 {
        lemma_first_forking_in(b, moves, rest.drop_first(), player);
        if !forks_at(b, moves, rest[0], player) && first_forking(b, moves, rest, player) is Some {
            let j = choose|j: int|
                0 <= j < rest.drop_first().len() && #[trigger] rest.drop_first()[j]
                    == first_forking(b, moves, rest, player)->Some_0;
            assert(rest[j + 1] == rest.drop_first()[j]);
        }
    }
}

/// The heuristic picks one of the moves it is given, and picks one whenever there is one.
pub proof fn lemma_choice_is_a_move(b: Board, moves: Seq<Coordinate>, player: Player)
    ensures
        choice(b, moves, player) is Some <==> moves.len() > 0,
        choice(b, moves, player) is Some ==> moves.contains(choice(b, moves, player)->Some_0),
{
    lemma_first_winning_in(b, moves, player);
    lemma_first_winning_in(b, moves, player.other());
    lemma_first_forking_in(b, moves, moves, player);
    lemma_first_forking_in(b, moves, moves, player.other());
    if moves.len() > 0 {
        assert(moves.contains(moves[0]));
    }
}

/// On a board with a single free cell the heuristic plays that cell, whatever the tiers say.
pub proof fn lemma_single_free_cell(b: Board, c: Coordinate, player: Player)
    requires
        is_free(b, c),
        forall|c2: Coordinate| is_free(b, c2) ==> c2 == c,
    ensures
        choice(b, legal_moves_of(b), player) == Some(c),
{
    lemma_legal_from(b, 0);
    assert(legal_from(b, 0).contains(c));
    lemma_choice_is_a_move(b, legal_moves_of(b), player);
    let r = choice(b, legal_moves_of(b), player)->Some_0;
    let j = choose|j: int| 0 <= j < legal_moves_of(b).len() && #[trigger] legal_moves_of(b)[j] == r;
    assert(is_free(b, legal_moves_of(b)[j]));
}

/// The move the heuristic picks for `player`, scanning the legal moves in scan order.
pub fn select_move(grid: &Grid, player: Player) -> (r: Coordinate)
    requires
        has_empty(grid@),
    ensures
        choice(grid@, legal_moves_of(grid@), player) == Some(r),
        follows_tiers(grid@, player, r),
{
    let moves = legal_moves(grid);
    proof {
        lemma_choice_follows_tiers(grid@, moves@, player);
        lemma_choice_is_a_move(grid@, moves@, player);
    }
    match select_move_from(grid, &moves, player) {
        Some(c) => c,
        None => moves[0],
    }
}


/// Some free cell wins at once for `player`.
pub open spec fn can_win(b: Board, player: Player) -> bool {
    exists|c: Coordinate| is_free(b, c) && #[trigger] wins_at(b, c, player)
}

/// Some free cell is a fork for `player`.
pub open spec fn can_fork(b: Board, player: Player) -> bool {
    exists|c: Coordinate| is_free(b, c) && #[trigger] forks_at(b, legal_moves_of(b), c, player)
}

/// `r` is a free cell from the highest tier that has one: a win, else a block of the
/// opponent's win, else a fork, else a block of the opponent's fork.
pub open spec fn follows_tiers(b: Board, player: Player, r: Coordinate) -> bool {
    let moves = legal_moves_of(b);
    &&& is_free(b, r)
    &&& can_win(b, player) ==> wins_at(b, r, player)
    &&& !can_win(b, player) && can_win(b, player.other()) ==> wins_at(b, r, player.other())
    &&& !can_win(b, player) && !can_win(b, player.other()) && can_fork(b, player) ==> forks_at(
        b,
        moves,
        r,
        player,
    )
    &&& !can_win(b, player) && !can_win(b, player.other()) && !can_fork(b, player) && can_fork(
        b,
        player.other(),
    ) ==> forks_at(b, moves, r, player.other())
}

proof fn lemma_first_winning_found(b: Board, moves: Seq<Coordinate>, player: Player)
    ensures
        first_winning(b, moves, player) is Some <==> exists|i: int|
            0 <= i < moves.len() && #[trigger] wins_at(b, moves[i], player),
        first_winning(b, moves, player) is Some ==> wins_at(
            b,
            first_winning(b, moves, player)->Some_0,
            player,
        ),
    decreases moves.len(),
{
    if moves.len() > 0 {
        lemma_first_winning_found(b, moves.drop_first(), player);
        if exists|i: int| 0 <= i < moves.len() && #[trigger] wins_at(b, moves[i], player) {
            let i = choose|i: int| 0 <= i < moves.len() && #[trigger] wins_at(b, moves[i], player);
            if i > 0 {
                assert(wins_at(b, moves.drop_first()[i - 1], player));
            }
        }
        if first_winning(b, moves.drop_first(), player) is Some {
            let i = choose|i: int|
                0 <= i < moves.drop_first().len() && #[trigger] wins_at(
                    b,
                    moves.drop_first()[i],
                    player,
                );
            assert(wins_at(b, moves[i + 1], player));
        }
    }
}

proof fn lemma_first_forking_found(
    b: Board,
    moves: Seq<Coordinate>,
    rest: Seq<Coordinate>,
    player: Player,
)
    ensures
        first_forking(b, moves, rest, player) is Some <==> exists|i: int|
            0 <= i < rest.len() && #[trigger] forks_at(b, moves, rest[i], player),
        first_forking(b, moves, rest, player) is Some ==> forks_at(
            b,
            moves,
            first_forking(b, moves, rest, player)->Some_0,
            player,
        ),
    decreases rest.len(),
{
    if rest.len() > 0 {
        lemma_first_forking_found(b, moves, rest.drop_first(), player);
        if exists|i: int| 0 <= i < rest.len() && #[trigger] forks_at(b, moves, rest[i], player) {
            let i = choose|i: int|
                0 <= i < rest.len() && #[trigger] forks_at(b, moves, rest[i], player);
            if i > 0 {
                assert(forks_at(b, moves, rest.drop_first()[i - 1], player));
            }
        }
        if first_forking(b, moves, rest.drop_first(), player) is Some {
            let i = choose|i: int|
                0 <= i < rest.drop_first().len() && #[trigger] forks_at(
                    b,
                    moves,
                    rest.drop_first()[i],
                    player,
                );
            assert(forks_at(b, moves, rest[i + 1], player));
        }
    }
}

proof fn lemma_win_count_remove(
    b: Board,
    moves: Seq<Coordinate>,
    i: int,
    c: Coordinate,
    player: Player,
)
    requires
        0 <= i < moves.len(),
    ensures
        win_count(b, moves, c, player) == win_count(b, moves.remove(i), c, player) + if moves[i]
            != c && wins_at(b, moves[i], player) {
            1nat
        } else {
            0nat
        },
    decreases moves.len(),
{
    if i == moves.len() - 1 {
        assert(moves.remove(i) =~= moves.drop_last());
    } else {
        lemma_win_count_remove(b, moves.drop_last(), i, c, player);
        assert(moves.drop_last().remove(i) =~= moves.remove(i).drop_last());
        assert(moves.remove(i).last() == moves.last());
    }
}

/// The count of winning replies does not depend on the order of the moves.
proof fn lemma_win_count_reordered(
    b: Board,
    s: Seq<Coordinate>,
    t: Seq<Coordinate>,
    c: Coordinate,
    player: Player,
)
    requires
        s.to_multiset() == t.to_multiset(),
    ensures
        win_count(b, s, c, player) == win_count(b, t, c, player),
    decreases s.len(),
{
    broadcast use vstd::seq_lib::group_to_multiset_ensures;

    if s.len() == 0 {
        assert(s.to_multiset().len() == 0);
        assert(t.to_multiset().len() == 0);
    } else {
        let a = s.last();
        let s1 = s.drop_last();
        assert(s1.push(a) =~= s);
        assert(t.to_multiset().count(a) > 0);
        let i = choose|i: int| 0 <= i < t.len() && t[i] == a;
        let t1 = t.remove(i);
        assert(t1.to_multiset() =~= s1.to_multiset());
        lemma_win_count_reordered(b, s1, t1, c, player);
        lemma_win_count_remove(b, t, i, c, player);
    }
}

/// Whatever order the legal moves are scanned in, the heuristic's move is a free cell from
/// the highest tier that has one.
pub proof fn lemma_choice_follows_tiers(b: Board, order: Seq<Coordinate>, player: Player)
    requires
        order.to_multiset() == legal_moves_of(b).to_multiset(),
        has_empty(b),
    ensures
        choice(b, order, player) is Some,
        follows_tiers(b, player, choice(b, order, player)->Some_0),
{
    broadcast use vstd::seq_lib::group_to_multiset_ensures;

    let moves = legal_moves_of(b);
    lemma_legal_from(b, 0);
    assert forall|c: Coordinate| #[trigger] order.contains(c) <==> is_free(b, c) by {
        assert(order.to_multiset().count(c) == moves.to_multiset().count(c));
        if moves.contains(c) {
            let j = choose|j: int| 0 <= j < moves.len() && moves[j] == c;
            assert(is_free(b, moves[j]));
        }
    }
    assert forall|c: Coordinate, q: Player| #[trigger] forks_at(b, order, c, q) == forks_at(
        b,
        moves,
        c,
        q,
    ) by {
        lemma_win_count_reordered(tried(b, c, q), order, moves, c, q);
    }
    let (x, y) = choose|x: int, y: int|
        0 <= x < 3 && 0 <= y < 3 && #[trigger] b[y][x] == Space::Empty;
    assert(is_free(b, Coordinate::at(x, y)));
    assert(order.contains(Coordinate::at(x, y)));
    lemma_choice_is_a_move(b, order, player);
    let r = choice(b, order, player)->Some_0;
    assert(order.contains(r));
    let other = player.other();
    lemma_first_winning_found(b, order, player);
    lemma_first_winning_found(b, order, other);
    lemma_first_forking_found(b, order, order, player);
    lemma_first_forking_found(b, order, order, other);
    assert(can_win(b, player) ==> first_winning(b, order, player) is Some) by {
        if can_win(b, player) {
            let c = choose|c: Coordinate| is_free(b, c) && #[trigger] wins_at(b, c, player);
            assert(order.contains(c));
            let i = choose|i: int| 0 <= i < order.len() && order[i] == c;
            assert(wins_at(b, order[i], player));
        }
    }
    assert(can_win(b, other) ==> first_winning(b, order, other) is Some) by {
        if can_win(b, other) {
            let c = choose|c: Coordinate| is_free(b, c) && #[trigger] wins_at(b, c, other);
            assert(order.contains(c));
            let i = choose|i: int| 0 <= i < order.len() && order[i] == c;
            assert(wins_at(b, order[i], other));
        }
    }
    assert(can_fork(b, player) ==> first_forking(b, order, order, player) is Some) by {
        if can_fork(b, player) {
            let c = choose|c: Coordinate| is_free(b, c) && #[trigger] forks_at(b, moves, c, player);
            assert(order.contains(c));
            let i = choose|i: int| 0 <= i < order.len() && order[i] == c;
            assert(forks_at(b, order, order[i], player));
        }
    }
    assert(can_fork(b, other) ==> first_forking(b, order, order, other) is Some) by {
        if can_fork(b, other) {
            let c = choose|c: Coordinate| is_free(b, c) && #[trigger] forks_at(b, moves, c, other);
            assert(order.contains(c));
            let i = choose|i: int| 0 <= i < order.len() && order[i] == c;
            assert(forks_at(b, order, order[i], other));
        }
    }
    assert(!can_win(b, player) ==> first_winning(b, order, player) is None) by {
        if first_winning(b, order, player) is Some {
            let i = choose|i: int| 0 <= i < order.len() && #[trigger] wins_at(b, order[i], player);
            assert(order.contains(order[i]));
            assert(is_free(b, order[i]));
        }
    }
    assert(!can_win(b, other) ==> first_winning(b, order, other) is None) by {
        if first_winning(b, order, other) is Some {
            let i = choose|i: int| 0 <= i < order.len() && #[trigger] wins_at(b, order[i], other);
            assert(order.contains(order[i]));
            assert(is_free(b, order[i]));
        }
    }
    assert(!can_fork(b, player) ==> first_forking(b, order, order, player) is None) by {
        if first_forking(b, order, order, player) is Some {
            let i = choose|i: int|
                0 <= i < order.len() && #[trigger] forks_at(b, order, order[i], player);
            assert(order.contains(order[i]));
            assert(is_free(b, order[i]));
            assert(forks_at(b, moves, order[i], player));
        }
    }
}

/// The heuristic computer participant; ties within a tier are broken at random.
pub struct ComputerPlayer {
    player: Player,
    rng: ThreadRng,
}

impl ComputerPlayer {
    /// The side this participant plays.
    pub closed spec fn side(self) -> Player {
        self.player
    }

    pub fn new(player: Player) -> (r: ComputerPlayer)
        ensures
            r.side() == player,
    {
        ComputerPlayer { player, rng: rand::thread_rng() }
    }
}

impl Playable for ComputerPlayer {
    /// The heuristic's move over the legal moves in a random order.
    fn play(&mut self, grid: &Grid) -> (r: Coordinate)
        ensures
            final(self).side() == old(self).side(),
            follows_tiers(grid@, old(self).side(), r),
            exists|order: Seq<Coordinate>|
                order.to_multiset() == legal_moves_of(grid@).to_multiset() && choice(
                    grid@,
                    order,
                    old(self).side(),
                ) == Some(r),
    {
        let mut moves = legal_moves(grid);
        shuffle_moves(&mut moves, &mut self.rng);
        proof {
            lemma_choice_follows_tiers(grid@, moves@, self.player);
            lemma_choice_is_a_move(grid@, moves@, self.player);
        }
        match select_move_from(grid, &moves, self.player) {
            Some(c) => c,
            None => moves[0],
        }
    }
}

} // verus!
