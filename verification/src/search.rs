use vstd::prelude::*;

use crate::entities::{
    find_index_by_id, find_snake_index, in_bounds, lemma_find_index_from, wf_snake, wf_state,
    GameState, GameStateV,
};
use crate::enumerator::{
    enumerates, joint_moves_spec, lemma_joint_moves_complete, pow4, table_view, JointMoveCache,
};
use crate::geometry::{step_spec, Coord, CoordV, Moves};
use crate::simulator::{
    joint_reversal, lemma_simulate_preserves_wf, reversal_invalid, simulate, simulate_spec,
};
use crate::successor::{lemma_successors_wf, states_of, successors, successors_spec};

verus! {

/// Position of the controlled agent in the board's agent list.
pub open spec fn you_index(s: GameStateV) -> int {
    find_index_by_id(s.board.snakes, s.you.id).unwrap()
}

/// The controlled agent's entry is the one the identifier scan finds, and it
/// is well formed.
pub proof fn lemma_you_wf(s: GameStateV)
    requires
        wf_state(s),
    ensures
        0 <= you_index(s) < s.board.snakes.len(),
        s.board.snakes[you_index(s)] == s.you,
        wf_snake(s.you, s.board.width, s.board.height),
{
    lemma_find_index_from(s.board.snakes, s.you.id, 0);
}

/// Some joint move whose component for the controlled agent is `m` is
/// accepted by the simulator and keeps the controlled agent alive.
pub open spec fn viable_move(s: GameStateV, m: Moves) -> bool {
    exists|jm: Seq<Moves>| jm.len() == s.board.snakes.len() && jm[you_index(s)] == m
        && #[trigger] simulate_spec(s, jm) is Some
}

/// Every joint move whose component for the controlled agent is `m` and that
/// is not rejected as a reversal keeps the controlled agent alive, and at
/// least one such joint move exists: whatever the other agents do this turn,
/// the move survives.
pub open spec fn certain_move(s: GameStateV, m: Moves) -> bool {
    &&& viable_move(s, m)
    &&& forall|jm: Seq<Moves>| jm.len() == s.board.snakes.len() && jm[you_index(s)] == m
        && !reversal_invalid(s, jm) ==> #[trigger] simulate_spec(s, jm) is Some
}

/// The cell lies on the board and on no agent's body.
pub open spec fn cell_free(s: GameStateV, c: CoordV) -> bool {
    &&& in_bounds(c, s.board.width, s.board.height)
    &&& !(exists|j: int, k: int| 0 <= j < s.board.snakes.len()
        && 0 <= k < s.board.snakes[j].body.len() && #[trigger] s.board.snakes[j].body[k] == c)
}

/// The deterministic default move used when no joint move keeps the
/// controlled agent alive: the first direction, in the fixed order up, down,
/// left, right, whose target cell is on the board and on no body; failing
/// that, up.
pub open spec fn fallback_move_spec(s: GameStateV) -> Moves {
    let head = s.you.body[0];
    if cell_free(s, step_spec(head, Moves::Up)) {
        Moves::Up
    } else if cell_free(s, step_spec(head, Moves::Down)) {
        Moves::Down
    } else if cell_free(s, step_spec(head, Moves::Left)) {
        Moves::Left
    } else if cell_free(s, step_spec(head, Moves::Right)) {
        Moves::Right
    } else {
        Moves::Up
    }
}

/// Whether the cell is on the board and on no agent's body.
fn cell_free_exec(s: &GameState, c: Coord) -> (r: bool)
    ensures
        r == cell_free(s@, c@),
{
    let ghost sv = s@;
    if c.x < 0 || c.x >= s.board.width || c.y < 0 || c.y >= s.board.height {
        return false;
    }
    let mut j: usize = 0;
    while j < s.board.snakes.len()
        invariant
            sv == s@,
            j <= sv.board.snakes.len(),
            in_bounds(c@, sv.board.width, sv.board.height),
            forall|j2: int, k2: int| 0 <= j2 < j && 0 <= k2 < sv.board.snakes[j2].body.len()
                ==> #[trigger] sv.board.snakes[j2].body[k2] != c@,
        decreases s.board.snakes.len() - j,
    {
        proof {
            assert(sv.board.snakes[j as int] == s.board.snakes@[j as int]@);
        }
        let mut k: usize = 0;
        while k < s.board.snakes[j].body.len()
            invariant
                sv == s@,
                j < sv.board.snakes.len(),
                k <= sv.board.snakes[j as int].body.len(),
                sv.board.snakes[j as int].body.len() == s.board.snakes@[j as int].body@.len(),
                forall|k2: int| 0 <= k2 < k
                    ==> #[trigger] sv.board.snakes[j as int].body[k2] != c@,
            decreases s.board.snakes@[j as int].body@.len() - k,
        {
            proof {
                assert(sv.board.snakes[j as int].body[k as int]
                    == s.board.snakes@[j as int].body@[k as int]@);
            }
            if s.board.snakes[j].body[k] == c {
                proof {
                    assert(!cell_free(sv, c@));
                }
                return false;
            }
            k = k + 1;
        }
        j = j + 1;
    }
    true
}

/// The deterministic default move; see `fallback_move_spec`.
pub fn fallback_move(s: &GameState) -> (m: Moves)
    requires
        wf_state(s@),
    ensures
        m == fallback_move_spec(s@),
{
    proof {
        lemma_you_wf(s@);
        assert(s@.you.body[0] == s.you.body@[0]@);
        assert(in_bounds(s@.you.body[0], s@.board.width, s@.board.height));
    }
    let head = s.you.body[0];
    if cell_free_exec(s, head.step(Moves::Up)) {
        Moves::Up
    } else if cell_free_exec(s, head.step(Moves::Down)) {
        Moves::Down
    } else if cell_free_exec(s, head.step(Moves::Left)) {
        Moves::Left
    } else if cell_free_exec(s, head.step(Moves::Right)) {
        Moves::Right
    } else {
        Moves::Up
    }
}

/// Some of the first `k` enumerated joint moves gives the controlled agent
/// the move `m` and is accepted by the simulator.
pub open spec fn any_upto(s: GameStateV, tv: Seq<Seq<Moves>>, yi: int, m: Moves, k: int) -> bool {
    exists|t: int| 0 <= t < k && tv[t][yi] == m && #[trigger] simulate_spec(s, tv[t]) is Some
}

/// Every one of the first `k` enumerated joint moves that gives the
/// controlled agent the move `m` and is no reversal is accepted.
pub open spec fn all_upto(s: GameStateV, tv: Seq<Seq<Moves>>, yi: int, m: Moves, k: int) -> bool {
    forall|t: int| 0 <= t < k && tv[t][yi] == m && !reversal_invalid(s, tv[t])
        ==> #[trigger] simulate_spec(s, tv[t]) is Some
}

/// How the per-move accounting changes when one more enumerated joint move
/// is examined.
pub proof fn lemma_upto_step(s: GameStateV, tv: Seq<Seq<Moves>>, yi: int, m: Moves, k: int)
    requires
        0 <= k < tv.len(),
    ensures
        any_upto(s, tv, yi, m, k + 1) == (any_upto(s, tv, yi, m, k) || (tv[k][yi] == m
            && simulate_spec(s, tv[k]) is Some)),
        all_upto(s, tv, yi, m, k + 1) == (all_upto(s, tv, yi, m, k) && (!(tv[k][yi] == m
            && !reversal_invalid(s, tv[k])) || simulate_spec(s, tv[k]) is Some)),
{
    assert(any_upto(s, tv, yi, m, k + 1) ==> (any_upto(s, tv, yi, m, k) || (tv[k][yi] == m
        && simulate_spec(s, tv[k]) is Some))) by {
        if any_upto(s, tv, yi, m, k + 1) {
            let t = choose|t: int| 0 <= t < k + 1 && tv[t][yi] == m
                && #[trigger] simulate_spec(s, tv[t]) is Some;
            if t < k {
                assert(any_upto(s, tv, yi, m, k));
            }
        }
    }
    assert((any_upto(s, tv, yi, m, k) || (tv[k][yi] == m && simulate_spec(s, tv[k]) is Some))
        ==> any_upto(s, tv, yi, m, k + 1)) by {
        if any_upto(s, tv, yi, m, k) {
            let t = choose|t: int| 0 <= t < k && tv[t][yi] == m
                && #[trigger] simulate_spec(s, tv[t]) is Some;
            assert(simulate_spec(s, tv[t]) is Some);
            assert(any_upto(s, tv, yi, m, k + 1));
        } else if tv[k][yi] == m && simulate_spec(s, tv[k]) is Some {
            assert(any_upto(s, tv, yi, m, k + 1));
        }
    }
}

/// The per-move accounting over the whole enumeration coincides with the
/// quantification over all joint moves: the enumeration misses none.
pub proof fn lemma_table_move_status(s: GameStateV, m: Moves)
    requires
        wf_state(s),
    ensures
        viable_move(s, m) == any_upto(
            s,
            joint_moves_spec(s.board.snakes.len()),
            you_index(s),
            m,
            joint_moves_spec(s.board.snakes.len()).len() as int,
        ),
        certain_move(s, m) == (viable_move(s, m) && all_upto(
            s,
            joint_moves_spec(s.board.snakes.len()),
            you_index(s),
            m,
            joint_moves_spec(s.board.snakes.len()).len() as int,
        )),
{
    let n = s.board.snakes.len();
    let yi = you_index(s);
    let tv = joint_moves_spec(n);
    let len = tv.len() as int;
    lemma_joint_moves_complete(n);

    assert(viable_move(s, m) ==> any_upto(s, tv, yi, m, len)) by {
        if viable_move(s, m) {
            let jm = choose|jm: Seq<Moves>| jm.len() == n && jm[yi] == m
                && #[trigger] simulate_spec(s, jm) is Some;
            assert(enumerates(n, jm));
            let k = choose|k: int| 0 <= k < pow4(n) && #[trigger] joint_moves_spec(n)[k] == jm;
            assert(tv[k][yi] == m && simulate_spec(s, tv[k]) is Some);
            assert(any_upto(s, tv, yi, m, len));
        }
    }
    assert(any_upto(s, tv, yi, m, len) ==> viable_move(s, m)) by {
        if any_upto(s, tv, yi, m, len) {
            let t = choose|t: int| 0 <= t < len && tv[t][yi] == m
                && #[trigger] simulate_spec(s, tv[t]) is Some;
            assert(tv[t].len() == n);
            assert(viable_move(s, m));
        }
    }
    assert(all_upto(s, tv, yi, m, len) ==> (forall|jm: Seq<Moves>| jm.len() == n && jm[yi] == m
        && !reversal_invalid(s, jm) ==> #[trigger] simulate_spec(s, jm) is Some)) by {
        if all_upto(s, tv, yi, m, len) {
            assert forall|jm: Seq<Moves>| jm.len() == n && jm[yi] == m && !reversal_invalid(s, jm)
                implies #[trigger] simulate_spec(s, jm) is Some by {
                assert(enumerates(n, jm));
                let k = choose|k: int| 0 <= k < pow4(n)
                    && #[trigger] joint_moves_spec(n)[k] == jm;
                assert(tv[k][yi] == m && !reversal_invalid(s, tv[k]));
                assert(simulate_spec(s, tv[k]) is Some);
            }
        }
    }
    assert((forall|jm: Seq<Moves>| jm.len() == n && jm[yi] == m && !reversal_invalid(s, jm)
        ==> #[trigger] simulate_spec(s, jm) is Some) ==> all_upto(s, tv, yi, m, len)) by {
        if forall|jm: Seq<Moves>| jm.len() == n && jm[yi] == m && !reversal_invalid(s, jm)
            ==> #[trigger] simulate_spec(s, jm) is Some {
            assert forall|t: int| 0 <= t < len && tv[t][yi] == m && !reversal_invalid(s, tv[t])
                implies #[trigger] simulate_spec(s, tv[t]) is Some by {
                assert(tv[t].len() == n);
            }
        }
    }
}

/// A collection of snapshots the search may expand further: each well
/// formed and with a bounded agent count.
pub open spec fn frontier_ok(states: Seq<GameState>) -> bool {
    forall|t: int| 0 <= t < states.len() ==> wf_state((#[trigger] states[t])@)
        && states[t]@.board.snakes.len() <= 8
}

/// The frontier's mathematical image, one snapshot view per entry.
pub open spec fn views_of(states: Seq<GameState>) -> Seq<GameStateV> {
    states.map_values(|g: GameState| g@)
}

/// Appending one snapshot appends its image.
proof fn lemma_views_push(states: Seq<GameState>, g: GameState)
    ensures
        views_of(states.push(g)) == views_of(states).push(g@),
{
    assert forall|t: int| 0 <= t < states.len() + 1 implies
        views_of(states.push(g))[t] == views_of(states).push(g@)[t] by {
        assert(views_of(states.push(g))[t] == states.push(g)[t]@);
        if t < states.len() {
            assert(states.push(g)[t] == states[t]);
            assert(views_of(states)[t] == states[t]@);
        } else {
            assert(states.push(g)[t] == g);
        }
    }
    assert(views_of(states.push(g)) =~= views_of(states).push(g@));
}

/// The idealized terminal condition: the controlled agent is the only one
/// left and its body fills the entire board.
pub open spec fn goal_spec(s: GameStateV) -> bool {
    s.board.snakes.len() == 1 && s.you.body.len() == s.board.width * s.board.height
}

/// Whether the idealized terminal condition holds.
fn goal_reached(s: &GameState) -> (r: bool)
    requires
        wf_state(s@),
    ensures
        r == goal_spec(s@),
{
    let w = s.board.width as usize;
    let h = s.board.height as usize;
    proof {
        assert(1 <= s@.board.width <= 400);
        assert(1 <= s@.board.height <= 400);
        assert(w * h <= 160000) by (nonlinear_arith)
            requires
                w <= 400,
                h <= 400,
        ;
    }
    s.board.snakes.len() == 1 && s.you.len() == w * h
}

/// What examining one frontier layer from position `i` on produces, with
/// `fuel` expansions left and `next` already gathered: whether the terminal
/// condition was met, the gathered next layer, and the fuel left over.
pub ghost struct LayerOutcome {
    pub reached_goal: bool,
    pub next: Seq<GameStateV>,
    pub fuel: nat,
}

/// One breadth-first layer of the bounded search: each snapshot in order is
/// tested for the terminal condition and otherwise expanded into its joint
/// successors, one unit of fuel per snapshot, until the layer or the fuel
/// runs out.
pub open spec fn expand_from(
    frontier: Seq<GameStateV>,
    i: int,
    fuel: nat,
    next: Seq<GameStateV>,
) -> LayerOutcome
    decreases frontier.len() - i,
{
    if i < 0 || i >= frontier.len() || fuel == 0 {
        LayerOutcome { reached_goal: false, next, fuel }
    } else if goal_spec(frontier[i]) {
        LayerOutcome { reached_goal: true, next, fuel }
    } else {
        let gathered = if frontier[i].turn < i32::MAX as int {
            next + successors_spec(frontier[i])
        } else {
            next
        };
        expand_from(frontier, i + 1, (fuel - 1) as nat, gathered)
    }
}

/// The rank of a frontier explored breadth-first for `remaining` more plies
/// within `fuel` expansions, having already reached ply `depth`: the deepest
/// ply reached, or the maximum rank when the idealized terminal condition is
/// met along the way.
pub open spec fn search_rank(
    frontier: Seq<GameStateV>,
    fuel: nat,
    remaining: nat,
    depth: nat,
) -> nat
    decreases remaining,
{
    if remaining == 0 || frontier.len() == 0 || fuel == 0 {
        depth
    } else {
        let layer = expand_from(frontier, 0, fuel, Seq::empty());
        if layer.reached_goal {
            u64::MAX as nat
        } else {
            search_rank(layer.next, layer.fuel, (remaining - 1) as nat, depth + 1)
        }
    }
}

/// Scores one set of first-ply successor snapshots by a bounded best-first
/// exploration: layers of joint successors are expanded breadth-first up to
/// the lookahead `horizon`, spending at most `budget` expansions; the score
/// is the deepest ply reached, or the maximum if the idealized full-board
/// terminal condition is met.  A pure ranking, pinned to `search_rank`; the
/// safety of the chosen move never depends on it.
fn search_score(start: Vec<GameState>, cache: &mut JointMoveCache, horizon: u32, budget: u32) -> (sc: u64)
    requires
        old(cache).wf(),
        frontier_ok(start@),
    ensures
        final(cache).wf(),
        sc as nat == search_rank(views_of(start@), budget as nat, horizon as nat, 0),
{
    let ghost rank0 = search_rank(views_of(start@), budget as nat, horizon as nat, 0);
    let mut frontier = start;
    let mut fuel = budget;
    let mut depth: u32 = 0;
    let mut score: u64 = 0;
    while depth < horizon
        invariant
            cache.wf(),
            frontier_ok(frontier@),
            depth <= horizon,
            score == depth as u64,
            rank0 == search_rank(views_of(start@), budget as nat, horizon as nat, 0),
            rank0 == search_rank(views_of(frontier@), fuel as nat, (horizon - depth) as nat,
                depth as nat),
        decreases horizon - depth,
    {
        proof {
            assert(views_of(frontier@).len() == frontier@.len());
        }
        if frontier.len() == 0 || fuel == 0 {
            proof {
                assert(rank0 == depth as nat);
            }
            return score;
        }
        let ghost layer_fv = views_of(frontier@);
        let ghost layer_fuel = fuel as nat;
        let mut next: Vec<GameState> = Vec::new();
        proof {
            assert(views_of(next@) =~= Seq::<GameStateV>::empty());
        }
        let mut i: usize = 0;
        while i < frontier.len() && fuel > 0
            invariant
                cache.wf(),
                rank0 == search_rank(views_of(start@), budget as nat, horizon as nat, 0),
                frontier_ok(frontier@),
                frontier_ok(next@),
                i <= frontier@.len(),
                depth < horizon,
                score == depth as u64,
                layer_fv == views_of(frontier@),
                layer_fv.len() > 0,
                layer_fuel > 0,
                fuel <= layer_fuel,
                expand_from(layer_fv, 0, layer_fuel, Seq::empty())
                    == expand_from(layer_fv, i as int, fuel as nat, views_of(next@)),
                rank0 == search_rank(layer_fv, layer_fuel, (horizon - depth) as nat, depth as nat),
            decreases frontier@.len() - i,
        {
            proof {
                assert(wf_state(frontier@[i as int]@));
                assert(layer_fv[i as int] == frontier@[i as int]@);
            }
            let st = &frontier[i];
            let ghost stv = st@;
            if goal_reached(st) {
                proof {
                    assert(expand_from(layer_fv, i as int, fuel as nat, views_of(next@))
                        == LayerOutcome { reached_goal: true, next: views_of(next@),
                            fuel: fuel as nat });
                    assert(rank0 == u64::MAX as nat);
                }
                return u64::MAX;
            }
            let ghost pre_next = views_of(next@);
            if st.turn < i32::MAX {
                let mut succs = successors(st, cache);
                proof {
                    lemma_successors_wf(stv);
                    assert forall|t: int| 0 <= t < succs@.len() implies
                        wf_state((#[trigger] succs@[t]).0@)
                            && succs@[t].0@.board.snakes.len() <= 8 by {
                        assert(states_of(succs@)[t] == succs@[t].0@);
                        assert(states_of(succs@)[t] == successors_spec(stv)[t]);
                    }
                    assert(states_of(succs@).len() == succs@.len());
                    assert(views_of(next@) =~= pre_next + successors_spec(stv).take(0));
                }
                let mut t: usize = 0;
                while t < succs.len()
                    invariant
                        frontier_ok(next@),
                        t <= succs@.len(),
                        states_of(succs@) == successors_spec(stv),
                        states_of(succs@).len() == succs@.len(),
                        forall|t2: int| 0 <= t2 < succs@.len()
                            ==> wf_state((#[trigger] succs@[t2]).0@)
                                && succs@[t2].0@.board.snakes.len() <= 8,
                        views_of(next@) == pre_next + successors_spec(stv).take(t as int),
                    decreases succs@.len() - t,
                {
                    proof {
                        assert(states_of(succs@)[t as int] == succs@[t as int].0@);
                    }
                    let ghost pre = next@;
                    let g = succs[t].0.duplicate();
                    next.push(g);
                    proof {
                        lemma_views_push(pre, g);
                        assert(views_of(next@) =~= pre_next
                            + successors_spec(stv).take(t + 1 as int));
                    }
                    t = t + 1;
                }
                proof {
                    assert(successors_spec(stv).take(succs@.len() as int)
                        =~= successors_spec(stv));
                }
            }
            proof {
                assert(expand_from(layer_fv, i as int, fuel as nat, pre_next)
                    == expand_from(layer_fv, i + 1 as int, (fuel - 1) as nat, views_of(next@)));
            }
            fuel = fuel - 1;
            i = i + 1;
        }
        proof {
            assert(expand_from(layer_fv, i as int, fuel as nat, views_of(next@))
                == LayerOutcome { reached_goal: false, next: views_of(next@), fuel: fuel as nat });
            assert(rank0 == search_rank(views_of(next@), fuel as nat,
                (horizon - depth - 1) as nat, (depth + 1) as nat));
        }
        frontier = next;
        depth = depth + 1;
        score = depth as u64;
    }
    proof {
        assert(rank0 == depth as nat);
    }
    score
}

/// The first-ply successor snapshots, in enumeration order, of the joint
/// moves among the first `k` that give the controlled agent the move `m`
/// and are accepted by the simulator.
pub open spec fn bucket_upto(
    s: GameStateV,
    tv: Seq<Seq<Moves>>,
    yi: int,
    m: Moves,
    k: int,
) -> Seq<GameStateV>
    decreases k,
{
    if k <= 0 {
        Seq::empty()
    } else {
        let pre = bucket_upto(s, tv, yi, m, k - 1);
        if tv[k - 1][yi] == m {
            match simulate_spec(s, tv[k - 1]) {
                Some(s2) => pre.push(s2),
                None => pre,
            }
        } else {
            pre
        }
    }
}

/// How one more examined joint move changes a move's candidate bucket.
pub proof fn lemma_bucket_step(s: GameStateV, tv: Seq<Seq<Moves>>, yi: int, m: Moves, k: int)
    requires
        0 <= k < tv.len(),
    ensures
        bucket_upto(s, tv, yi, m, k + 1) == (if tv[k][yi] == m {
            match simulate_spec(s, tv[k]) {
                Some(s2) => bucket_upto(s, tv, yi, m, k).push(s2),
                None => bucket_upto(s, tv, yi, m, k),
            }
        } else {
            bucket_upto(s, tv, yi, m, k)
        }),
{
}

/// Every first-ply successor snapshot reachable while the controlled agent
/// plays the move `m`.
pub open spec fn move_candidates(s: GameStateV, m: Moves) -> Seq<GameStateV> {
    let tv = joint_moves_spec(s.board.snakes.len());
    bucket_upto(s, tv, you_index(s), m, tv.len() as int)
}

/// The rank the bounded search assigns to the move `m`'s candidates.
pub open spec fn move_rank(s: GameStateV, m: Moves, horizon: nat, budget: nat) -> nat {
    search_rank(move_candidates(s, m), budget, horizon, 0)
}

/// A running selection: whether any candidate move was seen yet, the best
/// move so far, and its rank.
pub ghost struct Choice {
    pub found: bool,
    pub best: Moves,
    pub rank: nat,
}

/// Folds one candidate move into the selection: an available move replaces
/// the selection only with a strictly higher rank, so the earliest move in
/// the fixed order wins ties.
pub open spec fn consider(c: Choice, avail: bool, m: Moves, rank: nat) -> Choice {
    if avail {
        if !c.found || rank > c.rank {
            Choice { found: true, best: m, rank }
        } else {
            Choice { found: true, best: c.best, rank: c.rank }
        }
    } else {
        c
    }
}

/// The best-ranked of the available moves, taken in the fixed order up,
/// down, left, right: a higher rank wins, the earlier move wins ties.
pub open spec fn best_of(
    s: GameStateV,
    a_up: bool,
    a_down: bool,
    a_left: bool,
    a_right: bool,
    horizon: nat,
    budget: nat,
) -> Moves {
    let c0 = Choice { found: false, best: Moves::Up, rank: 0 };
    let c1 = consider(c0, a_up, Moves::Up, move_rank(s, Moves::Up, horizon, budget));
    let c2 = consider(c1, a_down, Moves::Down, move_rank(s, Moves::Down, horizon, budget));
    let c3 = consider(c2, a_left, Moves::Left, move_rank(s, Moves::Left, horizon, budget));
    let c4 = consider(c3, a_right, Moves::Right, move_rank(s, Moves::Right, horizon, budget));
    c4.best
}

/// The exhaustive policy's whole decision, as a pure function of the
/// snapshot and the two bounds: the best-ranked move that survives every
/// non-reversal reply when one exists, else the best-ranked move that can
/// survive at all, else the deterministic default move.  Repeated calls on
/// identical input always yield the identical move.
pub open spec fn exhaustive_move_spec(s: GameStateV, horizon: nat, budget: nat) -> Moves {
    if certain_move(s, Moves::Up) || certain_move(s, Moves::Down) || certain_move(s, Moves::Left)
        || certain_move(s, Moves::Right) {
        best_of(
            s,
            certain_move(s, Moves::Up),
            certain_move(s, Moves::Down),
            certain_move(s, Moves::Left),
            certain_move(s, Moves::Right),
            horizon,
            budget,
        )
    } else if viable_move(s, Moves::Up) || viable_move(s, Moves::Down)
        || viable_move(s, Moves::Left) || viable_move(s, Moves::Right) {
        best_of(
            s,
            viable_move(s, Moves::Up),
            viable_move(s, Moves::Down),
            viable_move(s, Moves::Left),
            viable_move(s, Moves::Right),
            horizon,
            budget,
        )
    } else {
        fallback_move_spec(s)
    }
}

/// The exhaustive decision policy: enumerates every joint move for the
/// current agents, keeps only the first-ply moves under which the controlled
/// agent can survive, prefers a move that survives against every non-reversal
/// reply of the other agents when one exists, ranks the remaining candidates
/// by a bounded best-first search to `horizon` plies within `budget`
/// expansions, and falls back to the deterministic default move when no
/// joint move keeps the controlled agent alive.  The whole decision is
/// pinned to `exhaustive_move_spec`, a pure function of the snapshot and
/// the two bounds: ties fall to the fixed direction order, and identical
/// inputs always yield identical moves.
pub fn exhaustive_move(
    s: &GameState,
    cache: &mut JointMoveCache,
    horizon: u32,
    budget: u32,
) -> (m: Moves)
    requires
        old(cache).wf(),
        wf_state(s@),
        s@.board.snakes.len() <= 8,
        s@.turn < i32::MAX as int,
    ensures
        final(cache).wf(),
        m == exhaustive_move_spec(s@, horizon as nat, budget as nat),
        (exists|mm: Moves| certain_move(s@, mm)) ==> certain_move(s@, m),
        (!(exists|mm: Moves| certain_move(s@, mm)) && (exists|mm: Moves| viable_move(s@, mm)))
            ==> viable_move(s@, m),
        !(exists|mm: Moves| viable_move(s@, mm)) ==> m == fallback_move_spec(s@),
{
    let ghost sv = s@;
    let n = s.board.snakes.len();
    proof {
        lemma_you_wf(sv);
        lemma_joint_moves_complete(n as nat);
    }
    let you_i = match find_snake_index(&s.board.snakes, &s.you.id) {
        Some(j) => j,
        None => {
            proof {
                assert(false);
            }
            0
        },
    };
    proof {
        assert(you_i as int == you_index(sv));
    }
    let table = cache.get(n);
    let ghost tv = table_view(table@);
    let ghost yi = you_index(sv);

    let mut any_up = false;
    let mut all_up = true;
    let mut st_up: Vec<GameState> = Vec::new();
    let mut any_down = false;
    let mut all_down = true;
    let mut st_down: Vec<GameState> = Vec::new();
    let mut any_left = false;
    let mut all_left = true;
    let mut st_left: Vec<GameState> = Vec::new();
    let mut any_right = false;
    let mut all_right = true;
    let mut st_right: Vec<GameState> = Vec::new();

    let mut k: usize = 0;
    while k < table.len()
        invariant
            k <= table@.len(),
            tv == table_view(table@),
            tv == joint_moves_spec(sv.board.snakes.len()),
            sv == s@,
            wf_state(sv),
            n == sv.board.snakes.len(),
            n <= 8,
            sv.turn < i32::MAX as int,
            yi == you_index(sv),
            0 <= yi < n,
            you_i as int == yi,
            forall|t: int| 0 <= t < tv.len() ==> (#[trigger] tv[t]).len() == n,
            any_up == any_upto(sv, tv, yi, Moves::Up, k as int),
            all_up == all_upto(sv, tv, yi, Moves::Up, k as int),
            any_down == any_upto(sv, tv, yi, Moves::Down, k as int),
            all_down == all_upto(sv, tv, yi, Moves::Down, k as int),
            any_left == any_upto(sv, tv, yi, Moves::Left, k as int),
            all_left == all_upto(sv, tv, yi, Moves::Left, k as int),
            any_right == any_upto(sv, tv, yi, Moves::Right, k as int),
            all_right == all_upto(sv, tv, yi, Moves::Right, k as int),
            frontier_ok(st_up@),
            frontier_ok(st_down@),
            frontier_ok(st_left@),
            frontier_ok(st_right@),
            views_of(st_up@) == bucket_upto(sv, tv, yi, Moves::Up, k as int),
            views_of(st_down@) == bucket_upto(sv, tv, yi, Moves::Down, k as int),
            views_of(st_left@) == bucket_upto(sv, tv, yi, Moves::Left, k as int),
            views_of(st_right@) == bucket_upto(sv, tv, yi, Moves::Right, k as int),
        decreases table@.len() - k,
    {
        proof {
            assert(tv[k as int] == table@[k as int]@);
            assert(tv[k as int].len() == n);
            lemma_upto_step(sv, tv, yi, Moves::Up, k as int);
            lemma_upto_step(sv, tv, yi, Moves::Down, k as int);
            lemma_upto_step(sv, tv, yi, Moves::Left, k as int);
            lemma_upto_step(sv, tv, yi, Moves::Right, k as int);
            lemma_bucket_step(sv, tv, yi, Moves::Up, k as int);
            lemma_bucket_step(sv, tv, yi, Moves::Down, k as int);
            lemma_bucket_step(sv, tv, yi, Moves::Left, k as int);
            lemma_bucket_step(sv, tv, yi, Moves::Right, k as int);
        }
        let jm = &table[k];
        let mk = jm[you_i];
        proof {
            assert(mk == tv[k as int][yi]);
        }
        if !joint_reversal(s, jm) {
            match simulate(s, jm) {
                Some(s2) => {
                    proof {
                        lemma_simulate_preserves_wf(sv, tv[k as int]);
                        assert(wf_state(s2@));
                        assert(s2@.board.snakes.len() <= 8);
                    }
                    match mk {
                        Moves::Up => {
                            any_up = true;
                            let ghost pre = st_up@;
                            st_up.push(s2);
                            proof {
                                lemma_views_push(pre, s2);
                            }
                        },
                        Moves::Down => {
                            any_down = true;
                            let ghost pre = st_down@;
                            st_down.push(s2);
                            proof {
                                lemma_views_push(pre, s2);
                            }
                        },
                        Moves::Left => {
                            any_left = true;
                            let ghost pre = st_left@;
                            st_left.push(s2);
                            proof {
                                lemma_views_push(pre, s2);
                            }
                        },
                        Moves::Right => {
                            any_right = true;
                            let ghost pre = st_right@;
                            st_right.push(s2);
                            proof {
                                lemma_views_push(pre, s2);
                            }
                        },
                    }
                },
                None => {
                    match mk {
                        Moves::Up => {
                            all_up = false;
                        },
                        Moves::Down => {
                            all_down = false;
                        },
                        Moves::Left => {
                            all_left = false;
                        },
                        Moves::Right => {
                            all_right = false;
                        },
                    }
                },
            }
        }
        k = k + 1;
    }
    proof {
        assert(tv.len() == table@.len());
        lemma_table_move_status(sv, Moves::Up);
        lemma_table_move_status(sv, Moves::Down);
        lemma_table_move_status(sv, Moves::Left);
        lemma_table_move_status(sv, Moves::Right);
    }
    let certain_up = any_up && all_up;
    let certain_down = any_down && all_down;
    let certain_left = any_left && all_left;
    let certain_right = any_right && all_right;
    let ghost hn = horizon as nat;
    let ghost bn = budget as nat;
    proof {
        assert(views_of(st_up@) == move_candidates(sv, Moves::Up));
        assert(views_of(st_down@) == move_candidates(sv, Moves::Down));
        assert(views_of(st_left@) == move_candidates(sv, Moves::Left));
        assert(views_of(st_right@) == move_candidates(sv, Moves::Right));
        assert(certain_up == certain_move(sv, Moves::Up));
        assert(certain_down == certain_move(sv, Moves::Down));
        assert(certain_left == certain_move(sv, Moves::Left));
        assert(certain_right == certain_move(sv, Moves::Right));
    }

    if certain_up || certain_down || certain_left || certain_right {
        let mut best: Moves = Moves::Up;
        let mut best_score: u64 = 0;
        let mut found = false;
        let ghost mut ch = Choice { found: false, best: Moves::Up, rank: 0 };
        if certain_up {
            let sc = search_score(st_up, cache, horizon, budget);
            best = Moves::Up;
            best_score = sc;
            found = true;
        }
        proof {
            ch = consider(ch, certain_up, Moves::Up, move_rank(sv, Moves::Up, hn, bn));
            assert(found == ch.found && best == ch.best && best_score as nat == ch.rank);
        }
        if certain_down {
            let sc = search_score(st_down, cache, horizon, budget);
            if !found || sc > best_score {
                best = Moves::Down;
                best_score = sc;
            }
            found = true;
        }
        proof {
            ch = consider(ch, certain_down, Moves::Down, move_rank(sv, Moves::Down, hn, bn));
            assert(found == ch.found && best == ch.best && best_score as nat == ch.rank);
        }
        if certain_left {
            let sc = search_score(st_left, cache, horizon, budget);
            if !found || sc > best_score {
                best = Moves::Left;
                best_score = sc;
            }
            found = true;
        }
        proof {
            ch = consider(ch, certain_left, Moves::Left, move_rank(sv, Moves::Left, hn, bn));
            assert(found == ch.found && best == ch.best && best_score as nat == ch.rank);
        }
        if certain_right {
            let sc = search_score(st_right, cache, horizon, budget);
            if !found || sc > best_score {
                best = Moves::Right;
                best_score = sc;
            }
            found = true;
        }
        proof {
            ch = consider(ch, certain_right, Moves::Right, move_rank(sv, Moves::Right, hn, bn));
            assert(found == ch.found && best == ch.best && best_score as nat == ch.rank);
            assert(best == best_of(sv, certain_up, certain_down, certain_left, certain_right,
                hn, bn));
            assert(best == exhaustive_move_spec(sv, hn, bn));
            assert(certain_move(sv, best));
        }
        best
    } else if any_up || any_down || any_left || any_right {
        proof {
            assert forall|mm: Moves| !(#[trigger] certain_move(sv, mm)) by {
                match mm {
                    Moves::Up => assert(!certain_move(sv, Moves::Up)),
                    Moves::Down => assert(!certain_move(sv, Moves::Down)),
                    Moves::Left => assert(!certain_move(sv, Moves::Left)),
                    Moves::Right => assert(!certain_move(sv, Moves::Right)),
                }
            }
        }
        let mut best: Moves = Moves::Up;
        let mut best_score: u64 = 0;
        let mut found = false;
        let ghost mut ch = Choice { found: false, best: Moves::Up, rank: 0 };
        if any_up {
            let sc = search_score(st_up, cache, horizon, budget);
            best = Moves::Up;
            best_score = sc;
            found = true;
        }
        proof {
            ch = consider(ch, any_up, Moves::Up, move_rank(sv, Moves::Up, hn, bn));
            assert(found == ch.found && best == ch.best && best_score as nat == ch.rank);
        }
        if any_down {
            let sc = search_score(st_down, cache, horizon, budget);
            if !found || sc > best_score {
                best = Moves::Down;
                best_score = sc;
            }
            found = true;
        }
        proof {
            ch = consider(ch, any_down, Moves::Down, move_rank(sv, Moves::Down, hn, bn));
            assert(found == ch.found && best == ch.best && best_score as nat == ch.rank);
        }
        if any_left {
            let sc = search_score(st_left, cache, horizon, budget);
            if !found || sc > best_score {
                best = Moves::Left;
                best_score = sc;
            }
            found = true;
        }
        proof {
            ch = consider(ch, any_left, Moves::Left, move_rank(sv, Moves::Left, hn, bn));
            assert(found == ch.found && best == ch.best && best_score as nat == ch.rank);
        }
        if any_right {
            let sc = search_score(st_right, cache, horizon, budget);
            if !found || sc > best_score {
                best = Moves::Right;
                best_score = sc;
            }
            found = true;
        }
        proof {
            ch = consider(ch, any_right, Moves::Right, move_rank(sv, Moves::Right, hn, bn));
            assert(found == ch.found && best == ch.best && best_score as nat == ch.rank);
            assert(best == best_of(sv, any_up, any_down, any_left, any_right, hn, bn));
            assert(best == exhaustive_move_spec(sv, hn, bn));
            assert(viable_move(sv, best));
        }
        best
    } else {
        proof {
            assert forall|mm: Moves| !(#[trigger] viable_move(sv, mm)) by {
                match mm {
                    Moves::Up => assert(!viable_move(sv, Moves::Up)),
                    Moves::Down => assert(!viable_move(sv, Moves::Down)),
                    Moves::Left => assert(!viable_move(sv, Moves::Left)),
                    Moves::Right => assert(!viable_move(sv, Moves::Right)),
                }
            }
            assert(exhaustive_move_spec(sv, hn, bn) == fallback_move_spec(sv));
        }
        fallback_move(s)
    }
}

} // verus!
