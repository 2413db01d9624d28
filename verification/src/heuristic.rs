use vstd::prelude::*;

use crate::entities::{
    find_index_by_id, lemma_find_index_from, in_bounds, snakes_view, wf_snake, wf_state, Board,
    BoardV, GameState, GameStateV, Snake, SnakeV,
};
use crate::geometry::{
    coords_view, in_coord_range, manhattan, neighboors_spec, Coord, CoordV, Moves, MAX_DIM,
};

verus! {

/// Every non-empty body's head is a cell whose components stay well inside
/// `i32`, so distances to it can be computed without overflow.
pub open spec fn heads_in_range(snakes: Seq<SnakeV>) -> bool {
    forall|j: int| 0 <= j < snakes.len() && snakes[j].body.len() >= 1
        ==> in_coord_range((#[trigger] snakes[j]).body[0])
}

/// The proximity penalty for a cell, scanned over the rival agents starting
/// at position `i`: the first rival at least as long as ours whose head is
/// within a third of the board size makes the cell cost the base cost plus
/// 20 per cell of missing distance; otherwise the cell costs the base 1.
/// The controlled agent, identified by `you_id`, never penalizes cells near
/// its own head.
pub open spec fn big_snake_cost_from(
    board_size: int,
    our_size: int,
    c: CoordV,
    snakes: Seq<SnakeV>,
    you_id: Seq<char>,
    i: int,
) -> int
    decreases snakes.len() - i,
{
    if i < 0 || i >= snakes.len() {
        1
    } else {
        let sn = snakes[i];
        if sn.id != you_id && sn.body.len() >= our_size && manhattan(c, sn.body[0])
            <= board_size / 3 {
            1 + 20 * (board_size / 3 - manhattan(c, sn.body[0]))
        } else {
            big_snake_cost_from(board_size, our_size, c, snakes, you_id, i + 1)
        }
    }
}

/// The traversal cost of a cell under the food-seeking weighting: cells near
/// the head of a rival at least as long as ours are penalized, the penalty
/// decaying linearly with distance, vanishing beyond a third of the board
/// size, and never dropping below the base cost of a far cell.
pub open spec fn big_snake_cost_spec(
    board_size: int,
    our_size: int,
    c: CoordV,
    snakes: Seq<SnakeV>,
    you_id: Seq<char>,
) -> int {
    big_snake_cost_from(board_size, our_size, c, snakes, you_id, 0)
}

/// The proximity penalty of a cell; see `big_snake_cost_spec`.
pub fn big_snake_cost(
    board_size: i32,
    our_size: usize,
    coord: &Coord,
    snakes: &Vec<Snake>,
    you_id: &String,
) -> (r: i32)
    requires
        1 <= board_size as int <= MAX_DIM as int,
        in_coord_range(coord@),
        our_size >= 1,
        heads_in_range(snakes_view(snakes@)),
    ensures
        r == big_snake_cost_spec(board_size as int, our_size as int, coord@, snakes_view(snakes@),
            you_id@),
{
    let ghost sv = snakes_view(snakes@);
    let too_close = board_size / 3;
    let mut i: usize = 0;
    while i < snakes.len()
        invariant
            i <= snakes@.len(),
            sv == snakes_view(snakes@),
            1 <= board_size as int <= MAX_DIM as int,
            too_close == board_size as int / 3,
            0 <= too_close <= 133,
            in_coord_range(coord@),
            our_size >= 1,
            heads_in_range(sv),
            big_snake_cost_spec(board_size as int, our_size as int, coord@, sv, you_id@)
                == big_snake_cost_from(board_size as int, our_size as int, coord@, sv, you_id@,
                    i as int),
        decreases snakes.len() - i,
    {
        proof {
            assert(sv[i as int] == snakes@[i as int]@);
        }
        if !(snakes[i].id == *you_id) && snakes[i].len() >= our_size {
            proof {
                assert(sv[i as int].body[0] == snakes@[i as int].body@[0]@);
            }
            let dist_to_head = coord.dist(&snakes[i].body[0]);
            if dist_to_head <= too_close {
                return 1 + 20 * (too_close - dist_to_head);
            }
        }
        i = i + 1;
    }
    1
}

/// The cell lies on some agent's body, head included.
pub open spec fn on_body(snakes: Seq<SnakeV>, c: CoordV) -> bool {
    exists|j: int, k: int| 0 <= j < snakes.len() && 0 <= k < snakes[j].body.len()
        && #[trigger] snakes[j].body[k] == c
}

/// Whether the cell lies on some agent's body.
fn coord_on_body(snakes: &Vec<Snake>, c: Coord) -> (r: bool)
    ensures
        r == on_body(snakes_view(snakes@), c@),
{
    let ghost sv = snakes_view(snakes@);
    let mut j: usize = 0;
    while j < snakes.len()
        invariant
            j <= snakes@.len(),
            sv == snakes_view(snakes@),
            forall|j2: int, k2: int| 0 <= j2 < j && 0 <= k2 < sv[j2].body.len()
                ==> #[trigger] sv[j2].body[k2] != c@,
        decreases snakes.len() - j,
    {
        proof {
            assert(sv[j as int] == snakes@[j as int]@);
        }
        let mut k: usize = 0;
        while k < snakes[j].body.len()
            invariant
                j < snakes@.len(),
                k <= sv[j as int].body.len(),
                sv == snakes_view(snakes@),
                sv[j as int].body.len() == snakes@[j as int].body@.len(),
                forall|k2: int| 0 <= k2 < k ==> #[trigger] sv[j as int].body[k2] != c@,
            decreases snakes@[j as int].body@.len() - k,
        {
            proof {
                assert(sv[j as int].body[k as int] == snakes@[j as int].body@[k as int]@);
            }
            if snakes[j].body[k] == c {
                proof {
                    assert(on_body(sv, c@));
                }
                return true;
            }
            k = k + 1;
        }
        j = j + 1;
    }
    false
}

/// The cell can be entered: it lies on the board and carries no body
/// segment, except that the controlled agent's own head cell is always
/// traversable.
pub open spec fn passable(board: BoardV, you_head: CoordV, c: CoordV) -> bool {
    &&& in_bounds(c, board.width, board.height)
    &&& (c == you_head || !on_body(board.snakes, c))
}

/// The traversal cost of a cell: the proximity penalty when food-seeking,
/// the uniform cost 1 otherwise.
pub open spec fn grid_cost(board: BoardV, you_id: Seq<char>, our_len: int, c: CoordV, weighted: bool) -> int {
    if weighted {
        big_snake_cost_spec(board.width, our_len, c, board.snakes, you_id)
    } else {
        1
    }
}

/// The passable cells among the first `j` candidates, paired with their
/// traversal costs, in candidate order.
pub open spec fn succ_from(
    board: BoardV,
    you_head: CoordV,
    you_id: Seq<char>,
    cands: Seq<CoordV>,
    weighted: bool,
    our_len: int,
    j: int,
) -> Seq<(CoordV, int)>
    decreases j,
{
    if j <= 0 {
        Seq::empty()
    } else {
        let pre = succ_from(board, you_head, you_id, cands, weighted, our_len, j - 1);
        let cand = cands[j - 1];
        if passable(board, you_head, cand) {
            pre.push((cand, grid_cost(board, you_id, our_len, cand, weighted)))
        } else {
            pre
        }
    }
}

/// The neighbouring cells the shortest-path search may step to from `c`,
/// with their costs: the in-range neighbours that are on the board and not
/// blocked by a body, the controlled agent's own head cell always counted
/// as open.
pub open spec fn grid_successors_spec(
    board: BoardV,
    you_head: CoordV,
    you_id: Seq<char>,
    c: CoordV,
    weighted: bool,
    our_len: int,
) -> Seq<(CoordV, int)> {
    if in_coord_range(c) {
        succ_from(board, you_head, you_id, neighboors_spec(c), weighted, our_len, 4)
    } else {
        Seq::empty()
    }
}

/// The view of a computed successor list.
pub open spec fn pairs_view(s: Seq<(Coord, i32)>) -> Seq<(CoordV, int)> {
    s.map_values(|p: (Coord, i32)| (p.0@, p.1 as int))
}

/// Whether the cell's components stay well inside `i32`.
fn coord_in_range(c: &Coord) -> (r: bool)
    ensures
        r == in_coord_range(c@),
{
    -1000000 <= c.x && c.x <= 1000000 && -1000000 <= c.y && c.y <= 1000000
}

/// Whether two cells are one and the same.
fn coords_equal(a: &Coord, b: &Coord) -> (r: bool)
    ensures
        r == (a@ == b@),
{
    a.x == b.x && a.y == b.y
}

/// The grid successor function handed to the shortest-path search.
pub fn grid_successors(
    board: &Board,
    you_head: Coord,
    you_id: &String,
    c: &Coord,
    weighted: bool,
    our_len: usize,
) -> (r: Vec<(Coord, i32)>)
    requires
        1 <= board@.width <= MAX_DIM as int,
        1 <= board@.height <= MAX_DIM as int,
        heads_in_range(board@.snakes),
        our_len >= 1,
    ensures
        pairs_view(r@) == grid_successors_spec(board@, you_head@, you_id@, c@, weighted,
            our_len as int),
{
    let ghost bv = board@;
    let mut r: Vec<(Coord, i32)> = Vec::new();
    if !coord_in_range(c) {
        proof {
            assert(pairs_view(r@) =~= grid_successors_spec(bv, you_head@, you_id@, c@, weighted,
                our_len as int));
        }
        return r;
    }
    let neigh = c.neighboors();
    let ghost cands = neighboors_spec(c@);
    proof {
        assert(coords_view(neigh@).len() == neigh@.len());
        assert(pairs_view(r@) =~= succ_from(bv, you_head@, you_id@, cands, weighted, our_len as int, 0));
    }
    let mut j: usize = 0;
    while j < neigh.len()
        invariant
            bv == board@,
            1 <= bv.width <= MAX_DIM as int,
            1 <= bv.height <= MAX_DIM as int,
            heads_in_range(bv.snakes),
            our_len >= 1,
            coords_view(neigh@) == cands,
            cands == neighboors_spec(c@),
            neigh@.len() == 4,
            j <= 4,
            pairs_view(r@) == succ_from(bv, you_head@, you_id@, cands, weighted, our_len as int, j as int),
        decreases neigh.len() - j,
    {
        proof {
            assert(cands[j as int] == neigh@[j as int]@);
        }
        let cand = neigh[j];
        let inside = cand.x >= 0 && cand.x < board.width && cand.y >= 0 && cand.y < board.height;
        let open = inside && (coords_equal(&cand, &you_head) || !coord_on_body(
            &board.snakes,
            cand,
        ));
        let ghost pre = r@;
        if open {
            proof {
                assert(in_bounds(cand@, bv.width, bv.height));
                assert(in_coord_range(cand@));
            }
            let cost: i32 = if weighted {
                big_snake_cost(board.width, our_len, &cand, &board.snakes, you_id)
            } else {
                1
            };
            r.push((cand, cost));
            proof {
                assert(r@ == pre.push((cand, cost)));
                assert(pairs_view(pre).len() == pre.len());
                assert forall|t: int| 0 <= t < pre.len() + 1 implies
                    pairs_view(r@)[t] == succ_from(bv, you_head@, you_id@, cands, weighted,
                        our_len as int, j + 1 as int)[t] by {
                    assert(pairs_view(r@)[t] == (r@[t].0@, r@[t].1 as int));
                    if t < pre.len() {
                        assert(r@[t] == pre[t]);
                        assert(pairs_view(pre)[t] == (pre[t].0@, pre[t].1 as int));
                        assert(pairs_view(pre)[t] == succ_from(bv, you_head@, you_id@, cands,
                            weighted, our_len as int, j as int)[t]);
                    } else {
                        assert(r@[t] == (cand, cost));
                    }
                }
                assert(pairs_view(r@) =~= succ_from(bv, you_head@, you_id@, cands, weighted,
                    our_len as int, j + 1 as int));
            }
        } else {
            proof {
                assert(!passable(bv, you_head@, cands[j as int]));
                assert(pairs_view(r@) =~= succ_from(bv, you_head@, you_id@, cands, weighted,
                    our_len as int, j + 1 as int));
            }
        }
        j = j + 1;
    }
    r
}

/// What the shortest-path search returns for the given board, obstacles,
/// weighting, start and goal: a name for the outside search's result, which
/// is a function of these arguments alone.
pub uninterp spec fn astar_path(
    board: BoardV,
    you_head: CoordV,
    you_id: Seq<char>,
    start: CoordV,
    weighted: bool,
    our_len: int,
) -> Option<(Seq<CoordV>, int)>;

/// The view of a computed path and its cost.
pub open spec fn path_view(r: Option<(Vec<Coord>, i32)>) -> Option<(Seq<CoordV>, int)> {
    match r {
        Some(p) => Some((coords_view(p.0@), p.1 as int)),
        None => None,
    }
}

/// Relies on pathfinding's `astar`: the search is deterministic, so with the
/// closures below — all thin calls into this crate's verified grid functions
/// — its result is a function of the board, the controlled head and
/// identifier, the start cell, the weighting and the controlled length
/// alone; and a returned path comprises both the start and the goal node,
/// so it holds the start first, the goal last, and at least one cell.
#[verifier::external_body]
fn astar_grid(
    board: &Board,
    you_head: Coord,
    you_id: &String,
    start: Coord,
    weighted: bool,
    our_len: usize,
) -> (r: Option<(Vec<Coord>, i32)>)
    requires
        1 <= board@.width <= MAX_DIM as int,
        1 <= board@.height <= MAX_DIM as int,
        heads_in_range(board@.snakes),
        our_len >= 1,
        in_coord_range(start@),
        in_coord_range(you_head@),
    ensures
        path_view(r) == astar_path(board@, you_head@, you_id@, start@, weighted, our_len as int),
        match r {
            Some(p) => p.0@.len() >= 1 && p.0@[0]@ == start@
                && p.0@[p.0@.len() - 1]@ == you_head@,
            None => true,
        },
{
    pathfinding::prelude::astar(
        &start,
        |c: &Coord| grid_successors(board, you_head, you_id, c, weighted, our_len),
        |c: &Coord| c.dist(&you_head),
        |c: &Coord| coords_equal(c, &you_head),
    )
}

/// The move that steps the controlled head toward an adjacent target cell,
/// derived exactly as the decision policy derives it: by comparing the two
/// cells' components in the fixed order right, left, down, up.
pub open spec fn move_toward(head: CoordV, next: CoordV) -> Moves {
    if next.x > head.x {
        Moves::Right
    } else if next.x < head.x {
        Moves::Left
    } else if next.y > head.y {
        Moves::Down
    } else {
        Moves::Up
    }
}

/// The move toward a target cell; see `move_toward`.
fn move_toward_exec(head: Coord, next: Coord) -> (m: Moves)
    ensures
        m == move_toward(head@, next@),
{
    if next.x > head.x {
        Moves::Right
    } else if next.x < head.x {
        Moves::Left
    } else if next.y > head.y {
        Moves::Down
    } else {
        Moves::Up
    }
}

/// Whether the controlled agent should seek food: some other agent is at
/// least as long as it, or it is the only agent left.
pub open spec fn should_eat_spec(s: GameStateV) -> bool {
    s.board.snakes.len() == 1 || exists|j: int| 0 <= j < s.board.snakes.len()
        && (#[trigger] s.board.snakes[j]).id != s.you.id
        && s.board.snakes[j].body.len() >= s.you.body.len()
}

/// The best food path over the first `j` food cells: each reachable food
/// cell's weighted path to the controlled head, keeping the cheapest, the
/// earliest food cell winning ties; paths too short to carry a step are
/// ignored.
pub open spec fn best_food_from(
    board: BoardV,
    you_head: CoordV,
    you_id: Seq<char>,
    our_len: int,
    j: int,
) -> Option<(Seq<CoordV>, int)>
    decreases j,
{
    if j <= 0 {
        None
    } else {
        let pre = best_food_from(board, you_head, you_id, our_len, j - 1);
        match astar_path(board, you_head, you_id, board.food[j - 1], true, our_len) {
            Some(p) => if p.0.len() >= 2 {
                match pre {
                    None => Some(p),
                    Some(q) => if p.1 < q.1 {
                        Some(p)
                    } else {
                        Some(q)
                    },
                }
            } else {
                pre
            },
            None => pre,
        }
    }
}

/// The best head-hunting path over the first `j` agents: for each strictly
/// shorter agent, the unweighted path from its head to the controlled head,
/// keeping the cheapest, the earliest agent winning ties.
pub open spec fn best_kill_from(
    board: BoardV,
    you_head: CoordV,
    you_id: Seq<char>,
    our_len: int,
    j: int,
) -> Option<(Seq<CoordV>, int)>
    decreases j,
{
    if j <= 0 {
        None
    } else {
        let pre = best_kill_from(board, you_head, you_id, our_len, j - 1);
        let sn = board.snakes[j - 1];
        if sn.body.len() >= 1 && sn.body.len() < our_len {
            match astar_path(board, you_head, you_id, sn.body[0], false, our_len) {
                Some(p) => if p.0.len() >= 2 {
                    match pre {
                        None => Some(p),
                        Some(q) => if p.1 < q.1 {
                            Some(p)
                        } else {
                            Some(q)
                        },
                    }
                } else {
                    pre
                },
                None => pre,
            }
        } else {
            pre
        }
    }
}

/// The best tail-chasing path over the first `j` agents: for each agent with
/// a body, the unweighted path from its tail cell to the controlled head,
/// keeping the cheapest, the earliest agent winning ties.
pub open spec fn best_tail_from(
    board: BoardV,
    you_head: CoordV,
    you_id: Seq<char>,
    our_len: int,
    j: int,
) -> Option<(Seq<CoordV>, int)>
    decreases j,
{
    if j <= 0 {
        None
    } else {
        let pre = best_tail_from(board, you_head, you_id, our_len, j - 1);
        let sn = board.snakes[j - 1];
        if sn.body.len() >= 1 {
            match astar_path(board, you_head, you_id, sn.body[sn.body.len() - 1], false, our_len) {
                Some(p) => if p.0.len() >= 2 {
                    match pre {
                        None => Some(p),
                        Some(q) => if p.1 < q.1 {
                            Some(p)
                        } else {
                            Some(q)
                        },
                    }
                } else {
                    pre
                },
                None => pre,
            }
        } else {
            pre
        }
    }
}

/// One pass of the greedy priority rules: seek the cheapest reachable food
/// when threatened or alone, else hunt the head of a strictly shorter agent,
/// else chase a tail; the move steps the controlled head toward the second
/// cell from the end of the winning path.  `None` when no pass finds a path.
pub open spec fn round_spec(s: GameStateV) -> Option<Moves> {
    let yh = s.you.body[0];
    let yid = s.you.id;
    let ol = s.you.body.len() as int;
    let food_best = if should_eat_spec(s) {
        best_food_from(s.board, yh, yid, ol, s.board.food.len() as int)
    } else {
        None
    };
    match food_best {
        Some(p) => Some(move_toward(yh, p.0[p.0.len() - 2])),
        None => match best_kill_from(s.board, yh, yid, ol, s.board.snakes.len() as int) {
            Some(p) => Some(move_toward(yh, p.0[p.0.len() - 2])),
            None => match best_tail_from(s.board, yh, yid, ol, s.board.snakes.len() as int) {
                Some(p) => Some(move_toward(yh, p.0[p.0.len() - 2])),
                None => None,
            },
        },
    }
}

/// One agent with its tail cell removed; an empty body stays empty.
pub open spec fn pop_tail_one(sn: SnakeV) -> SnakeV {
    if sn.body.len() > 0 {
        SnakeV { body: sn.body.drop_last(), ..sn }
    } else {
        sn
    }
}

/// The snapshot with every agent's tail cell removed and the controlled
/// agent resynchronized by identifier.
pub open spec fn pop_tails_spec(s: GameStateV) -> GameStateV {
    let snakes2 = s.board.snakes.map_values(|sn: SnakeV| pop_tail_one(sn));
    let you2 = match find_index_by_id(snakes2, s.you.id) {
        Some(j) => snakes2[j],
        None => s.you,
    };
    GameStateV { board: BoardV { snakes: snakes2, ..s.board }, you: you2, ..s }
}

/// Total number of occupied cells over the agents from position `i` on.
pub open spec fn bodies_len_from(snakes: Seq<SnakeV>, i: int) -> int
    decreases snakes.len() - i,
{
    if i < 0 || i >= snakes.len() {
        0
    } else {
        snakes[i].body.len() + bodies_len_from(snakes, i + 1)
    }
}

/// Total number of occupied cells on the board.
pub open spec fn bodies_len(snakes: Seq<SnakeV>) -> int {
    bodies_len_from(snakes, 0)
}

/// The total occupied-cell count is non-negative, and zero exactly when
/// every body from position `i` on is empty.
pub proof fn lemma_bodies_len_zero(snakes: Seq<SnakeV>, i: int)
    requires
        0 <= i <= snakes.len(),
    ensures
        bodies_len_from(snakes, i) >= 0,
        (bodies_len_from(snakes, i) == 0) <==> (forall|j: int| i <= j < snakes.len()
            ==> (#[trigger] snakes[j]).body.len() == 0),
    decreases snakes.len() - i,
{
    if i < snakes.len() {
        lemma_bodies_len_zero(snakes, i + 1);
    }
}

/// Removing every tail cell never grows the board, and strictly shrinks it
/// while any body from position `i` on is non-empty.
pub proof fn lemma_pop_tails_len(snakes: Seq<SnakeV>, i: int)
    requires
        0 <= i <= snakes.len(),
    ensures
        bodies_len_from(snakes.map_values(|sn: SnakeV| pop_tail_one(sn)), i)
            <= bodies_len_from(snakes, i),
        (exists|j: int| i <= j < snakes.len() && (#[trigger] snakes[j]).body.len() > 0)
            ==> bodies_len_from(snakes.map_values(|sn: SnakeV| pop_tail_one(sn)), i)
                < bodies_len_from(snakes, i),
    decreases snakes.len() - i,
{
    let popped = snakes.map_values(|sn: SnakeV| pop_tail_one(sn));
    if i < snakes.len() {
        lemma_pop_tails_len(snakes, i + 1);
        assert(popped[i] == pop_tail_one(snakes[i]));
        if exists|j: int| i <= j < snakes.len() && (#[trigger] snakes[j]).body.len() > 0 {
            let j = choose|j: int| i <= j < snakes.len() && (#[trigger] snakes[j]).body.len() > 0;
            if j == i {
                assert(popped[i].body.len() < snakes[i].body.len());
            } else {
                assert(exists|j2: int| i + 1 <= j2 < snakes.len()
                    && (#[trigger] snakes[j2]).body.len() > 0);
            }
        }
    }
}

/// A loosely well-formed snapshot: bounded dimensions, and every food cell
/// and body cell on the board.  Unlike full well-formedness this survives
/// the obstacle-relaxation passes, which may empty bodies and desynchronize
/// the controlled agent.
pub open spec fn wf_loose(s: GameStateV) -> bool {
    &&& 1 <= s.board.width <= MAX_DIM as int
    &&& 1 <= s.board.height <= MAX_DIM as int
    &&& forall|i: int| 0 <= i < s.board.food.len()
        ==> in_bounds(#[trigger] s.board.food[i], s.board.width, s.board.height)
    &&& forall|j: int, k: int| 0 <= j < s.board.snakes.len()
        && 0 <= k < s.board.snakes[j].body.len()
        ==> in_bounds(#[trigger] s.board.snakes[j].body[k], s.board.width, s.board.height)
    &&& forall|k: int| 0 <= k < s.you.body.len()
        ==> in_bounds(#[trigger] s.you.body[k], s.board.width, s.board.height)
}

/// A fully well-formed snapshot is loosely well formed.
pub proof fn lemma_wf_loose_entry(s: GameStateV)
    requires
        wf_state(s),
    ensures
        wf_loose(s),
{
    lemma_find_index_from(s.board.snakes, s.you.id, 0);
    assert forall|j: int, k: int| 0 <= j < s.board.snakes.len()
        && 0 <= k < s.board.snakes[j].body.len() implies in_bounds(
        #[trigger] s.board.snakes[j].body[k],
        s.board.width,
        s.board.height,
    ) by {
        assert(wf_snake(s.board.snakes[j], s.board.width, s.board.height));
    }
    let j = find_index_by_id(s.board.snakes, s.you.id).unwrap();
    assert(wf_snake(s.board.snakes[j], s.board.width, s.board.height));
}

/// Removing tail cells keeps a snapshot loosely well formed.
pub proof fn lemma_pop_preserves_loose(s: GameStateV)
    requires
        wf_loose(s),
    ensures
        wf_loose(pop_tails_spec(s)),
{
    let s2 = pop_tails_spec(s);
    let snakes2 = s.board.snakes.map_values(|sn: SnakeV| pop_tail_one(sn));
    assert forall|j: int, k: int| 0 <= j < snakes2.len() && 0 <= k < snakes2[j].body.len()
        implies in_bounds(#[trigger] snakes2[j].body[k], s.board.width, s.board.height) by {
        assert(snakes2[j] == pop_tail_one(s.board.snakes[j]));
        assert(snakes2[j].body[k] == s.board.snakes[j].body[k]);
        assert(in_bounds(s.board.snakes[j].body[k], s.board.width, s.board.height));
    }
    if find_index_by_id(snakes2, s.you.id) is Some {
        let j = find_index_by_id(snakes2, s.you.id).unwrap();
        lemma_find_index_from(snakes2, s.you.id, 0);
        assert(s2.you == snakes2[j]);
    }
}

/// In a loosely well-formed snapshot every non-empty body's head stays well
/// inside `i32`.
pub proof fn lemma_loose_heads(s: GameStateV)
    requires
        wf_loose(s),
    ensures
        heads_in_range(s.board.snakes),
{
    assert forall|j: int| 0 <= j < s.board.snakes.len()
        && s.board.snakes[j].body.len() >= 1 implies in_coord_range(
        (#[trigger] s.board.snakes[j]).body[0],
    ) by {
        assert(in_bounds(s.board.snakes[j].body[0], s.board.width, s.board.height));
    }
}

/// Removes every agent's tail cell and resynchronizes the controlled agent.
pub fn pop_tails(state: &mut GameState)
    ensures
        final(state)@ == pop_tails_spec(old(state)@),
{
    let ghost sv = old(state)@;
    let ghost snakes2 = sv.board.snakes.map_values(|sn: SnakeV| pop_tail_one(sn));
    let mut popped: Vec<Snake> = Vec::new();
    let mut i: usize = 0;
    while i < state.board.snakes.len()
        invariant
            state == old(state),
            sv == old(state)@,
            snakes2 == sv.board.snakes.map_values(|sn: SnakeV| pop_tail_one(sn)),
            i <= state.board.snakes@.len(),
            popped@.len() == i,
            forall|t: int| 0 <= t < i ==> (#[trigger] popped@[t])@ == snakes2[t],
        decreases state.board.snakes@.len() - i,
    {
        proof {
            assert(snakes2[i as int] == pop_tail_one(sv.board.snakes[i as int]));
            assert(sv.board.snakes[i as int] == state.board.snakes@[i as int]@);
        }
        let mut sn = state.board.snakes[i].duplicate();
        if sn.body.len() > 0 {
            let _ = sn.body.pop();
            proof {
                assert(sn@ =~= pop_tail_one(sv.board.snakes[i as int]));
            }
        } else {
            proof {
                assert(sn@ =~= pop_tail_one(sv.board.snakes[i as int]));
            }
        }
        popped.push(sn);
        i = i + 1;
    }
    proof {
        assert(snakes_view(popped@).len() == popped@.len());
        assert(snakes2.len() == sv.board.snakes.len());
        assert forall|t: int| 0 <= t < popped@.len() implies
            snakes_view(popped@)[t] == snakes2[t] by {
            assert(snakes_view(popped@)[t] == popped@[t]@);
        }
        assert(snakes_view(popped@) =~= snakes2);
    }
    state.board.snakes = popped;
    state.fix_board_to_self();
    proof {
        assert(state@ =~= pop_tails_spec(sv));
    }
}

/// Whether every agent's body is empty.
fn all_bodies_empty(snakes: &Vec<Snake>) -> (r: bool)
    ensures
        r == (bodies_len(snakes_view(snakes@)) == 0),
{
    let ghost sv = snakes_view(snakes@);
    let mut i: usize = 0;
    while i < snakes.len()
        invariant
            i <= snakes@.len(),
            sv == snakes_view(snakes@),
            forall|t: int| 0 <= t < i ==> (#[trigger] sv[t]).body.len() == 0,
        decreases snakes.len() - i,
    {
        proof {
            assert(sv[i as int] == snakes@[i as int]@);
        }
        if snakes[i].len() > 0 {
            proof {
                lemma_bodies_len_zero(sv, 0);
            }
            return false;
        }
        i = i + 1;
    }
    proof {
        lemma_bodies_len_zero(sv, 0);
    }
    true
}

/// The greedy policy's retry loop: run the priority passes; when none finds
/// a path, relax the obstacles by removing every agent's tail cell and try
/// again; once every body is gone, or the controlled body is, settle on the
/// deterministic default direction up.
pub open spec fn hloop_spec(s: GameStateV) -> Moves
    decreases bodies_len(s.board.snakes),
    via hloop_spec_dec
{
    if s.you.body.len() == 0 {
        Moves::Up
    } else {
        match round_spec(s) {
            Some(m) => m,
            None => {
                if bodies_len(s.board.snakes) <= 0 {
                    Moves::Up
                } else {
                    hloop_spec(pop_tails_spec(s))
                }
            },
        }
    }
}

#[via_fn]
proof fn hloop_spec_dec(s: GameStateV) {
    lemma_bodies_len_zero(s.board.snakes, 0);
    if bodies_len(s.board.snakes) > 0 {
        assert(exists|j: int| 0 <= j < s.board.snakes.len()
            && (#[trigger] s.board.snakes[j]).body.len() > 0) by {
            assert(!(forall|j: int| 0 <= j < s.board.snakes.len()
                ==> (#[trigger] s.board.snakes[j]).body.len() == 0));
        }
        lemma_pop_tails_len(s.board.snakes, 0);
        lemma_bodies_len_zero(
            s.board.snakes.map_values(|sn: SnakeV| pop_tail_one(sn)),
            0,
        );
    }
}

/// The greedy decision policy's result: a lone single-cell controlled agent
/// settles on up at once; otherwise the retry loop decides.
pub open spec fn heuristic_move_spec(s: GameStateV) -> Moves {
    if s.board.snakes.len() == 1 && s.you.body.len() == 1 {
        Moves::Up
    } else {
        hloop_spec(s)
    }
}

/// One pass of the greedy priority rules; see `round_spec`.
fn round_move(s: &GameState) -> (r: Option<Moves>)
    requires
        wf_loose(s@),
        s@.you.body.len() >= 1,
    ensures
        r == round_spec(s@),
{
    let ghost sv = s@;
    proof {
        lemma_loose_heads(sv);
        assert(sv.you.body[0] == s.you.body@[0]@);
        assert(in_bounds(sv.you.body[0], sv.board.width, sv.board.height));
    }
    let you_head = s.you.body[0];
    let you_len = s.you.len();
    let n = s.board.snakes.len();

    let mut should_eat = n == 1;
    let mut j: usize = 0;
    while j < n && !should_eat
        invariant
            sv == s@,
            n == sv.board.snakes.len(),
            j <= n,
            you_len == sv.you.body.len(),
            you_len >= 1,
            should_eat ==> should_eat_spec(sv),
            !should_eat ==> n != 1 && forall|t: int| 0 <= t < j
                ==> !((#[trigger] sv.board.snakes[t]).id != sv.you.id
                    && sv.board.snakes[t].body.len() >= sv.you.body.len()),
        decreases n - j,
    {
        proof {
            assert(sv.board.snakes[j as int] == s.board.snakes@[j as int]@);
        }
        if !(s.board.snakes[j].id == s.you.id) && s.board.snakes[j].len() >= you_len {
            should_eat = true;
        }
        j = j + 1;
    }
    proof {
        assert(should_eat == should_eat_spec(sv));
    }

    // Priority 1: the cheapest reachable food under the proximity weighting.
    let mut best: Option<(Vec<Coord>, i32)> = None;
    if should_eat {
        let nf = s.board.food.len();
        let mut fj: usize = 0;
        while fj < nf
            invariant
                sv == s@,
                wf_loose(sv),
                heads_in_range(sv.board.snakes),
                nf == sv.board.food.len(),
                fj <= nf,
                you_head@ == sv.you.body[0],
                in_coord_range(you_head@),
                you_len == sv.you.body.len(),
                you_len >= 1,
                path_view(best) == best_food_from(sv.board, sv.you.body[0], sv.you.id,
                    you_len as int, fj as int),
                match best {
                    Some(p) => p.0@.len() >= 2,
                    None => true,
                },
            decreases nf - fj,
        {
            proof {
                assert(sv.board.food[fj as int] == s.board.food@[fj as int]@);
                assert(in_bounds(sv.board.food[fj as int], sv.board.width, sv.board.height));
            }
            let res = astar_grid(&s.board, you_head, &s.you.id, s.board.food[fj], true, you_len);
            let ghost resv = path_view(res);
            match res {
                Some(p) => {
                    proof {
                        assert(coords_view(p.0@).len() == p.0@.len());
                    }
                    if p.0.len() >= 2 {
                        let replace = match &best {
                            None => true,
                            Some(q) => p.1 < q.1,
                        };
                        if replace {
                            best = Some(p);
                        }
                    }
                },
                None => {},
            }
            proof {
                assert(path_view(best) == best_food_from(sv.board, sv.you.body[0], sv.you.id,
                    you_len as int, fj + 1 as int));
            }
            fj = fj + 1;
        }
    }
    if let Some(p) = best {
        let nxt = p.0[p.0.len() - 2];
        proof {
            let bf = best_food_from(sv.board, sv.you.body[0], sv.you.id, you_len as int,
                sv.board.food.len() as int);
            assert(coords_view(p.0@).len() == p.0@.len());
            assert(nxt@ == bf.unwrap().0[bf.unwrap().0.len() - 2]);
        }
        return Some(move_toward_exec(you_head, nxt));
    }

    // Priority 2: the head of a strictly shorter agent.
    let mut best: Option<(Vec<Coord>, i32)> = None;
    let mut kj: usize = 0;
    while kj < n
        invariant
            sv == s@,
            wf_loose(sv),
            heads_in_range(sv.board.snakes),
            n == sv.board.snakes.len(),
            kj <= n,
            you_head@ == sv.you.body[0],
            in_coord_range(you_head@),
            you_len == sv.you.body.len(),
            you_len >= 1,
            path_view(best) == best_kill_from(sv.board, sv.you.body[0], sv.you.id,
                you_len as int, kj as int),
            match best {
                Some(p) => p.0@.len() >= 2,
                None => true,
            },
        decreases n - kj,
    {
        proof {
            assert(sv.board.snakes[kj as int] == s.board.snakes@[kj as int]@);
        }
        let sn_len = s.board.snakes[kj].len();
        if sn_len >= 1 && sn_len < you_len {
            proof {
                assert(sv.board.snakes[kj as int].body[0]
                    == s.board.snakes@[kj as int].body@[0]@);
                assert(in_bounds(sv.board.snakes[kj as int].body[0], sv.board.width,
                    sv.board.height));
            }
            let res = astar_grid(&s.board, you_head, &s.you.id, s.board.snakes[kj].body[0],
                false, you_len);
            match res {
                Some(p) => {
                    proof {
                        assert(coords_view(p.0@).len() == p.0@.len());
                    }
                    if p.0.len() >= 2 {
                        let replace = match &best {
                            None => true,
                            Some(q) => p.1 < q.1,
                        };
                        if replace {
                            best = Some(p);
                        }
                    }
                },
                None => {},
            }
        }
        proof {
            assert(path_view(best) == best_kill_from(sv.board, sv.you.body[0], sv.you.id,
                you_len as int, kj + 1 as int));
        }
        kj = kj + 1;
    }
    if let Some(p) = best {
        let nxt = p.0[p.0.len() - 2];
        proof {
            let bk = best_kill_from(sv.board, sv.you.body[0], sv.you.id, you_len as int,
                sv.board.snakes.len() as int);
            assert(coords_view(p.0@).len() == p.0@.len());
            assert(nxt@ == bk.unwrap().0[bk.unwrap().0.len() - 2]);
        }
        return Some(move_toward_exec(you_head, nxt));
    }

    // Priority 3: chase the tail of any agent.
    let mut best: Option<(Vec<Coord>, i32)> = None;
    let mut tj: usize = 0;
    while tj < n
        invariant
            sv == s@,
            wf_loose(sv),
            heads_in_range(sv.board.snakes),
            n == sv.board.snakes.len(),
            tj <= n,
            you_head@ == sv.you.body[0],
            in_coord_range(you_head@),
            you_len == sv.you.body.len(),
            you_len >= 1,
            path_view(best) == best_tail_from(sv.board, sv.you.body[0], sv.you.id,
                you_len as int, tj as int),
            match best {
                Some(p) => p.0@.len() >= 2,
                None => true,
            },
        decreases n - tj,
    {
        proof {
            assert(sv.board.snakes[tj as int] == s.board.snakes@[tj as int]@);
        }
        let sn_len = s.board.snakes[tj].len();
        if sn_len >= 1 {
            proof {
                assert(sv.board.snakes[tj as int].body[sn_len - 1]
                    == s.board.snakes@[tj as int].body@[sn_len - 1]@);
                assert(in_bounds(sv.board.snakes[tj as int].body[sn_len - 1], sv.board.width,
                    sv.board.height));
            }
            let res = astar_grid(&s.board, you_head, &s.you.id,
                s.board.snakes[tj].body[sn_len - 1], false, you_len);
            match res {
                Some(p) => {
                    proof {
                        assert(coords_view(p.0@).len() == p.0@.len());
                    }
                    if p.0.len() >= 2 {
                        let replace = match &best {
                            None => true,
                            Some(q) => p.1 < q.1,
                        };
                        if replace {
                            best = Some(p);
                        }
                    }
                },
                None => {},
            }
        }
        proof {
            assert(path_view(best) == best_tail_from(sv.board, sv.you.body[0], sv.you.id,
                you_len as int, tj + 1 as int));
        }
        tj = tj + 1;
    }
    if let Some(p) = best {
        let nxt = p.0[p.0.len() - 2];
        proof {
            let bt = best_tail_from(sv.board, sv.you.body[0], sv.you.id, you_len as int,
                sv.board.snakes.len() as int);
            assert(coords_view(p.0@).len() == p.0@.len());
            assert(nxt@ == bt.unwrap().0[bt.unwrap().0.len() - 2]);
        }
        return Some(move_toward_exec(you_head, nxt));
    }
    None
}

/// The greedy decision policy: treat the board as a single-agent
/// shortest-path problem for the controlled agent, other bodies standing as
/// static obstacles for one ply, and follow the priority rules — food when
/// threatened or alone, then a shorter agent's head, then any tail — against
/// ever more relaxed obstacles until a path appears.  A pure function of the
/// snapshot: identical inputs yield identical moves.
pub fn heuristic_move(s: &GameState) -> (m: Moves)
    requires
        wf_state(s@),
    ensures
        m == heuristic_move_spec(s@),
{
    proof {
        lemma_wf_loose_entry(s@);
    }
    if s.board.snakes.len() == 1 && s.you.len() == 1 {
        return Moves::Up;
    }
    let mut cur = s.duplicate();
    loop
        invariant
            wf_loose(cur@),
            hloop_spec(cur@) == hloop_spec(s@),
            heuristic_move_spec(s@) == hloop_spec(s@),
        decreases bodies_len(cur@.board.snakes),
    {
        if cur.you.len() == 0 {
            return Moves::Up;
        }
        match round_move(&cur) {
            Some(m) => {
                return m;
            },
            None => {
                if all_bodies_empty(&cur.board.snakes) {
                    return Moves::Up;
                }
                let ghost prev = cur@;
                proof {
                    lemma_bodies_len_zero(prev.board.snakes, 0);
                    assert(exists|j: int| 0 <= j < prev.board.snakes.len()
                        && (#[trigger] prev.board.snakes[j]).body.len() > 0) by {
                        assert(!(forall|j: int| 0 <= j < prev.board.snakes.len()
                            ==> (#[trigger] prev.board.snakes[j]).body.len() == 0));
                    }
                    lemma_pop_tails_len(prev.board.snakes, 0);
                    lemma_pop_preserves_loose(prev);
                }
                pop_tails(&mut cur);
                proof {
                    assert(cur@ == pop_tails_spec(prev));
                    lemma_bodies_len_zero(cur@.board.snakes, 0);
                    assert(hloop_spec(prev) == hloop_spec(cur@));
                }
            },
        }
    }
}

} // verus!
