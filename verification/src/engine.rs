//! The generational transition engine: computes one Game of Life step on a
//! board. Every cell is evaluated against the pre-transition grid, and all
//! resulting changes are applied afterwards (a two-phase, collect-then-apply
//! transition).

use crate::board::Board;
use crate::board::lemma_count_live_all_false;
use vstd::prelude::*;

verus! {

/// The standard Game of Life rule: a live cell survives with exactly 2 or 3
/// live neighbors, a dead cell becomes live with exactly 3, and every other
/// cell is dead in the next generation.
pub open spec fn life_rule(alive: bool, live_neighbors: nat) -> bool {
    if alive {
        live_neighbors == 2 || live_neighbors == 3
    } else {
        live_neighbors == 3
    }
}

/// `post` is `pre` advanced by exactly one generation: same dimensions, and
/// every cell holds the state the standard rule assigns it from its own
/// prior state and its prior live-neighbor count on `pre`.
pub open spec fn is_next_gen(pre: Board, post: Board) -> bool {
    &&& post.cols == pre.cols
    &&& post.rows == pre.rows
    &&& forall|x: int, y: int|
        pre.in_bounds(x, y) ==> #[trigger] post.cell(x, y) == life_rule(
            pre.cell(x, y),
            pre.live_neighbors(x, y),
        )
}

/// The cell at `(x, y)` of board `b` changes state in the next generation.
/// Opaque so that quantified facts about whole flip lists stay small; proofs
/// reveal it where the rule itself matters.
#[verifier::opaque]
pub open spec fn must_flip(b: Board, x: int, y: int) -> bool {
    b.cell(x, y) != life_rule(b.cell(x, y), b.live_neighbors(x, y))
}

/// Coordinate `(a, b)` is scanned strictly before position `(x, y)` in a
/// column-by-column, then row-by-row traversal of the grid.
pub open spec fn scanned_before(a: int, b: int, x: int, y: int) -> bool {
    a < x || (a == x && b < y)
}

/// Some entry of `s` before index `k` is the coordinate `(x, y)`.
pub open spec fn listed_before(s: Seq<(usize, usize)>, k: int, x: int, y: int) -> bool {
    exists|i: int| 0 <= i < k && (#[trigger] s[i]).0 == x && s[i].1 == y
}

/// Every entry of `s` is an in-bounds coordinate of `b` whose cell changes
/// state in the next generation of `b`.
pub open spec fn all_must_flip(s: Seq<(usize, usize)>, b: Board) -> bool {
    forall|i: int|
        0 <= i < s.len() ==> b.in_bounds((#[trigger] s[i]).0 as int, s[i].1 as int) && must_flip(
            b,
            s[i].0 as int,
            s[i].1 as int,
        )
}

/// The entries of `s` are strictly ordered by scan position, so no
/// coordinate appears twice.
pub open spec fn strictly_ordered(s: Seq<(usize, usize)>) -> bool {
    forall|i: int, j: int|
        0 <= i < j < s.len() ==> scanned_before(
            (#[trigger] s[i]).0 as int,
            s[i].1 as int,
            (#[trigger] s[j]).0 as int,
            s[j].1 as int,
        )
}

/// Phase one of the transition: a read-only scan of the whole grid that
/// collects, in scan order, every coordinate whose cell must change state in
/// the next generation, each exactly once.
#[verifier::loop_isolation(false)]
fn collect_flips(board: &Board) -> (flips: Vec<(usize, usize)>)
    requires
        board.wf(),
    ensures
        all_must_flip(flips@, *board),
        strictly_ordered(flips@),
        forall|a: int, b: int|
            board.in_bounds(a, b) && must_flip(*board, a, b) ==> listed_before(
                flips@,
                flips@.len() as int,
                a,
                b,
            ),
{
    let mut flips: Vec<(usize, usize)> = Vec::new();
    let mut x: usize = 0;
    while x < board.cols
        invariant
            x <= board.cols,
            all_must_flip(flips@, *board),
            strictly_ordered(flips@),
            forall|i: int|
                0 <= i < flips@.len() ==> scanned_before(
                    (#[trigger] flips@[i]).0 as int,
                    flips@[i].1 as int,
                    x as int,
                    0,
                ),
            forall|a: int, b: int|
                board.in_bounds(a, b) && scanned_before(a, b, x as int, 0) && must_flip(
                    *board,
                    a,
                    b,
                ) ==> listed_before(flips@, flips@.len() as int, a, b),
        decreases board.cols - x,
    {
        let mut y: usize = 0;
        while y < board.rows
            invariant
                x < board.cols,
                y <= board.rows,
                all_must_flip(flips@, *board),
                strictly_ordered(flips@),
                forall|i: int|
                    0 <= i < flips@.len() ==> scanned_before(
                        (#[trigger] flips@[i]).0 as int,
                        flips@[i].1 as int,
                        x as int,
                        y as int,
                    ),
                forall|a: int, b: int|
                    board.in_bounds(a, b) && scanned_before(a, b, x as int, y as int) && must_flip(
                        *board,
                        a,
                        b,
                    ) ==> listed_before(flips@, flips@.len() as int, a, b),
            decreases board.rows - y,
        {
            let alive = board.grid[x][y];
            let n = board.count_live_neighbors(x, y);
            let needs_flip = if alive {
                n != 2 && n != 3
            } else {
                n == 3
            };
            assert(needs_flip == must_flip(*board, x as int, y as int)) by {
                reveal(must_flip);
            }
            if needs_flip {
                let ghost prev = flips@;
                flips.push((x, y));
                proof {
                    assert(flips@[flips@.len() - 1] == (x, y));
                    assert(listed_before(flips@, flips@.len() as int, x as int, y as int));
                    assert forall|a: int, b: int|
                        listed_before(prev, prev.len() as int, a, b) implies listed_before(
                        flips@,
                        flips@.len() as int,
                        a,
                        b,
                    ) by {
                        let i = choose|i: int|
                            0 <= i < prev.len() && (#[trigger] prev[i]).0 == a && prev[i].1 == b;
                        assert(flips@[i] == prev[i]);
                    }
                }
            }
            y = y + 1;
        }
        x = x + 1;
    }
    flips
}

/// Phase two of the transition: applies every collected flip. Since the list
/// holds each coordinate at most once, every listed cell ends up toggled and
/// every other cell keeps its state.
#[verifier::loop_isolation(false)]
fn apply_flips(board: &mut Board, flips: &Vec<(usize, usize)>)
    requires
        old(board).wf(),
        all_must_flip(flips@, *old(board)),
        strictly_ordered(flips@),
    ensures
        final(board).wf(),
        final(board).cols == old(board).cols,
        final(board).rows == old(board).rows,
        forall|a: int, b: int|
            old(board).in_bounds(a, b) ==> #[trigger] final(board).cell(a, b) == (if listed_before(
                flips@,
                flips@.len() as int,
                a,
                b,
            ) {
                !old(board).cell(a, b)
            } else {
                old(board).cell(a, b)
            }),
{
    let ghost orig = *board;
    let mut k: usize = 0;
    while k < flips.len()
        invariant
            k <= flips@.len(),
            board.wf(),
            board.cols == orig.cols,
            board.rows == orig.rows,
            forall|a: int, b: int|
                orig.in_bounds(a, b) ==> #[trigger] board.cell(a, b) == (if listed_before(
                    flips@,
                    k as int,
                    a,
                    b,
                ) {
                    !orig.cell(a, b)
                } else {
                    orig.cell(a, b)
                }),
        decreases flips@.len() - k,
    {
        let ghost pre = *board;
        let f = flips[k];
        let flip_result = board.flip(f.0, f.1);
        assert(flip_result is Ok);
        assert(pre.toggled(*board, f.0 as int, f.1 as int));
        assert(!listed_before(flips@, k as int, f.0 as int, f.1 as int));
        k = k + 1;
        assert forall|a: int, b: int| orig.in_bounds(a, b) implies #[trigger] board.cell(a, b) == (
        if listed_before(flips@, k as int, a, b) {
            !orig.cell(a, b)
        } else {
            orig.cell(a, b)
        }) by {
            if a == f.0 as int && b == f.1 as int {
                assert(flips@[k - 1].0 == a && flips@[k - 1].1 == b);
                assert(listed_before(flips@, k as int, a, b));
            } else {
                assert(board.cell(a, b) == pre.cell(a, b));
                assert(listed_before(flips@, k as int, a, b) == listed_before(
                    flips@,
                    k - 1,
                    a,
                    b,
                ));
            }
        }
    }
}

/// Advances `board` by exactly one generation: afterwards every cell holds
/// the state the standard rule assigns it, judged entirely from the
/// pre-transition board (its own prior state and its prior live-neighbor
/// count). The board keeps its dimensions and stays well-formed.
///
/// The transition is two-phase: a read-only scan first collects every
/// coordinate whose state must change, and only then are the collected flips
/// applied, so no partially-updated neighbor can leak into another cell's
/// count for the same generation.
pub fn next_gen(board: &mut Board)
    requires
        old(board).wf(),
    ensures
        final(board).wf(),
        is_next_gen(*old(board), *final(board)),
{
    let ghost orig = *board;
    let flips = collect_flips(board);
    apply_flips(board, &flips);
    assert forall|x: int, y: int| orig.in_bounds(x, y) implies #[trigger] board.cell(x, y)
        == life_rule(orig.cell(x, y), orig.live_neighbors(x, y)) by {
        assert(listed_before(flips@, flips@.len() as int, x, y) == must_flip(orig, x, y));
        reveal(must_flip);
    }
}

/// No spontaneous births: advancing an all-dead board by one generation
/// leaves it all-dead.
pub proof fn lemma_dead_board_stays_dead(pre: Board, post: Board)
    requires
        pre.wf(),
        pre.all_dead(),
        is_next_gen(pre, post),
    ensures
        post.all_dead(),
{
    assert forall|x: int, y: int| post.in_bounds(x, y) implies !#[trigger] post.cell(x, y) by {
        pre.lemma_all_dead_neighbors(x, y);
        lemma_count_live_all_false(pre.neighbor_states(x, y));
    }
}

} // verus!
