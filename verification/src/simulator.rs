use vstd::prelude::*;

use crate::geometry::{
    coords_view, in_coord_range, step_spec, Coord, CoordV, Moves,
};
use crate::entities::{
    find_index_by_id, in_bounds, last_move_spec, lemma_find_index_from, snakes_view,
    wf_snake, wf_state, Board, BoardV, Game, GameState, GameStateV, Snake, SnakeV, copy_coords,
    find_snake_index,
};

verus! {

/// Some agent's assigned direction exactly undoes its previous move; the
/// whole joint move is then rejected.  Never applies on the game's opening
/// turns (turn counter 0 or 1), where a body may not yet carry a direction.
pub open spec fn reversal_invalid(s: GameStateV, mv: Seq<Moves>) -> bool {
    s.turn > 1 && exists|i: int| 0 <= i < s.board.snakes.len()
        && last_move_spec((#[trigger] s.board.snakes[i]).body) == Some(mv[i].opposite_spec())
}

/// Whether agent `i`'s new head lands on a food cell of the pre-turn board.
pub open spec fn eats(s: GameStateV, mv: Seq<Moves>, i: int) -> bool {
    s.board.food.contains(step_spec(s.board.snakes[i].body[0], mv[i]))
}

/// One agent after the move phase of a turn: the head advances one cell,
/// health decays by one or resets to 100 on food, and the tail cell is
/// trimmed unless the agent ate past the opening turn, in which case the
/// provisional growth is kept.
pub open spec fn advance_snake_spec(sn: SnakeV, m: Moves, food: Seq<CoordV>, turn: int) -> SnakeV {
    let new_head = step_spec(sn.body[0], m);
    let ate = food.contains(new_head);
    let health = if ate { 100int } else { sn.health - 1 };
    let grown = seq![new_head] + sn.body;
    let body = if ate && turn > 1 {
        grown
    } else {
        grown.drop_last()
    };
    SnakeV { health, body, ..sn }
}

/// All agents after the move phase, each advanced against the one pre-turn
/// snapshot: no agent sees another's post-move position.
pub open spec fn advanced_snakes_spec(s: GameStateV, mv: Seq<Moves>) -> Seq<SnakeV> {
    Seq::new(
        s.board.snakes.len(),
        |i: int| advance_snake_spec(s.board.snakes[i], mv[i], s.board.food, s.turn),
    )
}

/// The post-move head cells, in agent order.
pub open spec fn heads_of(snakes: Seq<SnakeV>) -> Seq<CoordV> {
    snakes.map_values(|sn: SnakeV| sn.body[0])
}

/// The first `j` food cells with every cell consumed by some new head
/// removed; a cell eaten by several agents at once disappears once.
pub open spec fn remaining_food(food: Seq<CoordV>, heads: Seq<CoordV>, j: int) -> Seq<CoordV>
    decreases j,
{
    if j <= 0 {
        Seq::empty()
    } else {
        let pre = remaining_food(food, heads, j - 1);
        if heads.contains(food[j - 1]) {
            pre
        } else {
            pre.push(food[j - 1])
        }
    }
}

/// The food set after the turn: pre-turn food minus every consumed cell.
pub open spec fn food_after(food: Seq<CoordV>, heads: Seq<CoordV>) -> Seq<CoordV> {
    remaining_food(food, heads, food.len() as int)
}

/// Agent `i` dies head-to-head: another agent's head sits on the same cell
/// and that agent's body is now at least as long, so `i` is not strictly
/// longer than every rival on the cell.
pub open spec fn head_to_head_loses(all: Seq<SnakeV>, i: int) -> bool {
    exists|j: int| 0 <= j < all.len() && j != i
        && (#[trigger] all[j]).body[0] == all[i].body[0]
        && all[j].body.len() >= all[i].body.len()
}

/// Agent `i`'s head sits on a non-head segment of some agent, itself included.
pub open spec fn hits_a_body(all: Seq<SnakeV>, i: int) -> bool {
    exists|j: int, k: int| 0 <= j < all.len() && 1 <= k < all[j].body.len()
        && #[trigger] all[j].body[k] == all[i].body[0]
}

/// Whether agent `i` survives the elimination phase, judged entirely against
/// the one post-move, pre-elimination snapshot `all`.
pub open spec fn survives(all: Seq<SnakeV>, i: int, w: int, h: int) -> bool {
    &&& in_bounds(all[i].body[0], w, h)
    &&& all[i].health > 0
    &&& !head_to_head_loses(all, i)
    &&& !hits_a_body(all, i)
}

/// The surviving agents among the first `j`, kept in list order.
pub open spec fn survivors_upto(all: Seq<SnakeV>, w: int, h: int, j: int) -> Seq<SnakeV>
    decreases j,
{
    if j <= 0 {
        Seq::empty()
    } else {
        let pre = survivors_upto(all, w, h, j - 1);
        if survives(all, j - 1, w, h) {
            pre.push(all[j - 1])
        } else {
            pre
        }
    }
}

/// Every agent that survives elimination, in order.
pub open spec fn survivors(all: Seq<SnakeV>, w: int, h: int) -> Seq<SnakeV> {
    survivors_upto(all, w, h, all.len() as int)
}

/// One full turn applied to a snapshot: either the next snapshot, or `None`
/// when the joint move is rejected as a reversal or the controlled agent
/// does not survive, in which case the branch has no successor.
pub open spec fn simulate_spec(s: GameStateV, mv: Seq<Moves>) -> Option<GameStateV> {
    if reversal_invalid(s, mv) {
        None
    } else {
        let adv = advanced_snakes_spec(s, mv);
        let food2 = food_after(s.board.food, heads_of(adv));
        let alive = survivors(adv, s.board.width, s.board.height);
        match find_index_by_id(alive, s.you.id) {
            Some(j) => Some(
                GameStateV {
                    game_id: s.game_id,
                    turn: s.turn + 1,
                    board: BoardV {
                        height: s.board.height,
                        width: s.board.width,
                        food: food2,
                        snakes: alive,
                    },
                    you: alive[j],
                },
            ),
            None => None,
        }
    }
}

/// Whether a chain of cells holds the given cell.
pub fn contains_coord(v: &Vec<Coord>, c: Coord) -> (r: bool)
    ensures
        r == coords_view(v@).contains(c@),
{
    let ghost cv = coords_view(v@);
    let mut i: usize = 0;
    while i < v.len()
        invariant
            i <= v.len(),
            cv == coords_view(v@),
            forall|k: int| 0 <= k < i ==> cv[k] != c@,
        decreases v.len() - i,
    {
        proof {
            assert(cv[i as int] == v@[i as int]@);
        }
        if v[i] == c {
            proof {
                assert(cv.contains(c@));
            }
            return true;
        }
        i = i + 1;
    }
    proof {
        assert(forall|k: int| 0 <= k < cv.len() ==> cv[k] != c@);
    }
    false
}

/// Applies the move phase of one turn to a single agent.
fn advance_snake(sn: &Snake, m: Moves, food: &Vec<Coord>, turn: i32) -> (r: Snake)
    requires
        sn@.body.len() >= 1,
        in_coord_range(sn@.body[0]),
        sn@.health >= 0,
    ensures
        r@ == advance_snake_spec(sn@, m, coords_view(food@), turn as int),
{
    let new_head = sn.body[0].step(m);
    let ate = contains_coord(food, new_head);
    let health: i32 = if ate {
        100
    } else {
        sn.health - 1
    };
    let mut body = copy_coords(&sn.body);
    body.insert(0, new_head);
    proof {
        assert(coords_view(body@) =~= seq![new_head@] + coords_view(sn.body@));
    }
    if !(ate && turn > 1) {
        let _ = body.pop();
        proof {
            assert(coords_view(body@) =~= (seq![new_head@] + coords_view(sn.body@)).drop_last());
        }
    }
    let r = Snake { id: sn.id.clone(), name: sn.name.clone(), health, body };
    proof {
        assert(r@ =~= advance_snake_spec(sn@, m, coords_view(food@), turn as int));
    }
    r
}

/// The food cells of `food` that no new head in `heads` consumed.
fn filter_food(food: &Vec<Coord>, heads: &Vec<Coord>) -> (r: Vec<Coord>)
    ensures
        coords_view(r@) == food_after(coords_view(food@), coords_view(heads@)),
{
    let ghost fv = coords_view(food@);
    let ghost hv = coords_view(heads@);
    let mut r: Vec<Coord> = Vec::new();
    let mut j: usize = 0;
    while j < food.len()
        invariant
            j <= food.len(),
            fv == coords_view(food@),
            hv == coords_view(heads@),
            coords_view(r@) == remaining_food(fv, hv, j as int),
        decreases food.len() - j,
    {
        proof {
            assert(fv[j as int] == food@[j as int]@);
        }
        if !contains_coord(heads, food[j]) {
            r.push(food[j]);
            proof {
                assert(coords_view(r@) =~= remaining_food(fv, hv, j + 1 as int));
            }
        } else {
            proof {
                assert(coords_view(r@) =~= remaining_food(fv, hv, j + 1 as int));
            }
        }
        j = j + 1;
    }
    proof {
        assert(fv.len() == food@.len());
    }
    r
}

/// Whether agent `i` of the post-move snapshot survives elimination.
fn snake_survives(all: &Vec<Snake>, i: usize, w: i32, h: i32) -> (r: bool)
    requires
        i < all@.len(),
        forall|t: int| 0 <= t < all@.len() ==> (#[trigger] all@[t])@.body.len() >= 1,
    ensures
        r == survives(snakes_view(all@), i as int, w as int, h as int),
{
    let ghost av = snakes_view(all@);
    let head = all[i].body[0];
    proof {
        assert(av[i as int] == all@[i as int]@);
    }
    if head.x < 0 || head.x >= w || head.y < 0 || head.y >= h {
        return false;
    }
    if all[i].health <= 0 {
        return false;
    }
    let own_len = all[i].body.len();
    let mut j: usize = 0;
    while j < all.len()
        invariant
            j <= all@.len(),
            av == snakes_view(all@),
            i < all@.len(),
            forall|t: int| 0 <= t < all@.len() ==> (#[trigger] all@[t])@.body.len() >= 1,
            head@ == av[i as int].body[0],
            own_len == av[i as int].body.len(),
            forall|t: int| 0 <= t < j ==> !(t != i && (#[trigger] av[t]).body[0] == av[i as int].body[0]
                && av[t].body.len() >= av[i as int].body.len()),
            forall|t: int, k: int| 0 <= t < j && 1 <= k < av[t].body.len()
                ==> #[trigger] av[t].body[k] != av[i as int].body[0],
        decreases all.len() - j,
    {
        proof {
            assert(av[j as int] == all@[j as int]@);
        }
        if j != i && all[j].body[0] == head && all[j].body.len() >= own_len {
            proof {
                assert(head_to_head_loses(av, i as int));
            }
            return false;
        }
        let mut k: usize = 1;
        while k < all[j].body.len()
            invariant
                j < all@.len(),
                i < all@.len(),
                1 <= k,
                av == snakes_view(all@),
                head@ == av[i as int].body[0],
                forall|k2: int| 1 <= k2 < k ==> #[trigger] av[j as int].body[k2] != av[i as int].body[0],
            decreases all@[j as int]@.body.len() - k,
        {
            proof {
                assert(av[j as int] == all@[j as int]@);
                assert(av[j as int].body[k as int] == all@[j as int].body@[k as int]@);
            }
            if all[j].body[k] == head {
                proof {
                    assert(hits_a_body(av, i as int));
                }
                return false;
            }
            k = k + 1;
        }
        j = j + 1;
    }
    proof {
        assert(!head_to_head_loses(av, i as int));
        assert(!hits_a_body(av, i as int));
    }
    true
}

/// The surviving agents of the post-move snapshot, in order.
fn eliminate_snakes(all: &Vec<Snake>, w: i32, h: i32) -> (r: Vec<Snake>)
    requires
        forall|t: int| 0 <= t < all@.len() ==> (#[trigger] all@[t])@.body.len() >= 1,
    ensures
        snakes_view(r@) == survivors(snakes_view(all@), w as int, h as int),
{
    let ghost av = snakes_view(all@);
    let mut r: Vec<Snake> = Vec::new();
    let mut i: usize = 0;
    while i < all.len()
        invariant
            i <= all@.len(),
            av == snakes_view(all@),
            forall|t: int| 0 <= t < all@.len() ==> (#[trigger] all@[t])@.body.len() >= 1,
            snakes_view(r@) == survivors_upto(av, w as int, h as int, i as int),
        decreases all.len() - i,
    {
        if snake_survives(all, i, w, h) {
            r.push(all[i].duplicate());
            proof {
                assert(av[i as int] == all@[i as int]@);
                assert(snakes_view(r@) =~= survivors_upto(av, w as int, h as int, i + 1 as int));
            }
        } else {
            proof {
                assert(snakes_view(r@) =~= survivors_upto(av, w as int, h as int, i + 1 as int));
            }
        }
        i = i + 1;
    }
    proof {
        assert(av.len() == all@.len());
    }
    r
}

/// Whether the joint move `mv` asks some agent to reverse straight into its
/// own neck, which rejects the whole joint move on turns past the opening.
pub fn joint_reversal(s: &GameState, mv: &Vec<Moves>) -> (r: bool)
    requires
        wf_state(s@),
        mv@.len() == s@.board.snakes.len(),
    ensures
        r == reversal_invalid(s@, mv@),
{
    let ghost sv = s@;
    let n = s.board.snakes.len();
    if s.turn <= 1 {
        return false;
    }
    let mut i: usize = 0;
    while i < n
        invariant
            i <= n,
            n == sv.board.snakes.len(),
            sv == s@,
            wf_state(sv),
            mv@.len() == n,
            s.turn as int == sv.turn,
            1 < sv.turn,
            forall|t: int| 0 <= t < i
                ==> last_move_spec((#[trigger] sv.board.snakes[t]).body)
                    != Some(mv@[t].opposite_spec()),
        decreases n - i,
    {
        proof {
            assert(sv.board.snakes[i as int] == s.board.snakes@[i as int]@);
        }
        let sn = &s.board.snakes[i];
        if sn.body.len() >= 2 {
            proof {
                assert(sv.board.snakes[i as int].body[1] == sn.body@[1]@);
                assert(sv.board.snakes[i as int].body[0] == sn.body@[0]@);
            }
            if !(sn.body[1].x == sn.body[0].x && sn.body[1].y == sn.body[0].y) {
                let lm = sn.last_move();
                if lm.opposite() == mv[i] {
                    proof {
                        assert(lm.opposite_spec().opposite_spec() == lm);
                        assert(last_move_spec(sv.board.snakes[i as int].body)
                            == Some(mv@[i as int].opposite_spec()));
                        assert(reversal_invalid(sv, mv@));
                    }
                    return true;
                }
            }
        }
        i = i + 1;
    }
    false
}

/// One full simultaneous turn: applies the joint move `mv`, one direction per
/// live agent in list order, against the pre-turn snapshot, then removes every
/// eliminated agent against the one post-move snapshot.  Returns the next
/// snapshot, or `None` exactly when the joint move reverses some agent or the
/// controlled agent does not survive.
pub fn simulate(s: &GameState, mv: &Vec<Moves>) -> (r: Option<GameState>)
    requires
        wf_state(s@),
        mv@.len() == s@.board.snakes.len(),
        s@.turn < i32::MAX as int,
    ensures
        match r {
            Some(s2) => simulate_spec(s@, mv@) == Some(s2@),
            None => simulate_spec(s@, mv@) is None,
        },
{
    let ghost sv = s@;
    let n = s.board.snakes.len();

    // Reversal rejection, judged against each agent's pre-turn body.
    if joint_reversal(s, mv) {
        return None;
    }

    // Move phase: every agent advances against the one pre-turn snapshot.
    let ghost adv_spec = advanced_snakes_spec(sv, mv@);
    let mut adv: Vec<Snake> = Vec::new();
    let mut i: usize = 0;
    while i < n
        invariant
            i <= n,
            n == sv.board.snakes.len(),
            sv == s@,
            wf_state(sv),
            mv@.len() == n,
            adv_spec == advanced_snakes_spec(sv, mv@),
            snakes_view(adv@) == adv_spec.take(i as int),
        decreases n - i,
    {
        proof {
            assert(sv.board.snakes[i as int] == s.board.snakes@[i as int]@);
            assert(wf_snake(sv.board.snakes[i as int], sv.board.width, sv.board.height));
            assert(in_bounds(sv.board.snakes[i as int].body[0], sv.board.width, sv.board.height));
        }
        let ghost pre = adv@;
        let next = advance_snake(&s.board.snakes[i], mv[i], &s.board.food, s.turn);
        adv.push(next);
        proof {
            assert(adv_spec[i as int] == advance_snake_spec(
                sv.board.snakes[i as int], mv@[i as int], sv.board.food, sv.turn));
            assert(next@ == adv_spec[i as int]);
            assert(adv@ == pre.push(next));
            assert(snakes_view(pre).len() == pre.len());
            assert(adv_spec.take(i as int).len() == i as int);
            assert(pre.len() == i as int);
            assert forall|k: int| 0 <= k < i + 1 implies
                snakes_view(adv@)[k] == adv_spec.take(i + 1 as int)[k] by {
                assert(snakes_view(adv@)[k] == adv@[k]@);
                if k < i {
                    assert(adv@[k] == pre[k]);
                    assert(snakes_view(pre)[k] == pre[k]@);
                    assert(snakes_view(pre)[k] == adv_spec.take(i as int)[k]);
                } else {
                    assert(adv@[k] == next);
                }
            }
            assert(snakes_view(adv@) =~= adv_spec.take(i + 1 as int));
        }
        i = i + 1;
    }
    proof {
        assert(adv_spec.take(n as int) =~= adv_spec);
        assert forall|t: int| 0 <= t < adv@.len() implies (#[trigger] adv@[t])@.body.len() >= 1 by {
            assert(adv@[t]@ == snakes_view(adv@)[t]);
            assert(wf_snake(sv.board.snakes[t], sv.board.width, sv.board.height));
        }
    }

    // Food consumption, judged against the pre-turn food set.
    let mut heads: Vec<Coord> = Vec::new();
    let mut i: usize = 0;
    while i < adv.len()
        invariant
            i <= adv@.len(),
            forall|t: int| 0 <= t < adv@.len() ==> (#[trigger] adv@[t])@.body.len() >= 1,
            coords_view(heads@) == heads_of(snakes_view(adv@)).take(i as int),
        decreases adv.len() - i,
    {
        proof {
            assert(adv@[i as int]@ == snakes_view(adv@)[i as int]);
            assert(heads_of(snakes_view(adv@))[i as int]
                == snakes_view(adv@)[i as int].body[0]);
            assert(snakes_view(adv@)[i as int].body[0] == adv@[i as int].body@[0]@);
        }
        let ghost preh = heads@;
        heads.push(adv[i].body[0]);
        proof {
            assert(heads@ == preh.push(adv@[i as int].body@[0]));
            assert(coords_view(preh).len() == preh.len());
            assert(heads_of(snakes_view(adv@)).take(i as int).len() == i as int);
            assert(preh.len() == i as int);
            assert forall|k: int| 0 <= k < i + 1 implies
                coords_view(heads@)[k] == heads_of(snakes_view(adv@)).take(i + 1 as int)[k] by {
                assert(coords_view(heads@)[k] == heads@[k]@);
                if k < i {
                    assert(heads@[k] == preh[k]);
                    assert(coords_view(preh)[k] == preh[k]@);
                    assert(coords_view(preh)[k] == heads_of(snakes_view(adv@)).take(i as int)[k]);
                } else {
                    assert(heads@[k] == adv@[i as int].body@[0]);
                }
            }
            assert(coords_view(heads@) =~= heads_of(snakes_view(adv@)).take(i + 1 as int));
        }
        i = i + 1;
    }
    proof {
        assert(heads_of(snakes_view(adv@)).take(adv@.len() as int) =~= heads_of(snakes_view(adv@)));
    }
    let food2 = filter_food(&s.board.food, &heads);

    // Elimination, judged against the one post-move snapshot.
    let alive = eliminate_snakes(&adv, s.board.width, s.board.height);

    // Resynchronize the controlled agent by identifier.
    match find_snake_index(&alive, &s.you.id) {
        Some(j) => {
            proof {
                lemma_find_index_from(snakes_view(alive@), sv.you.id, 0);
            }
            let you = alive[j].duplicate();
            let r = GameState {
                game: Game { id: s.game.id.clone() },
                turn: s.turn + 1,
                board: Board {
                    height: s.board.height,
                    width: s.board.width,
                    food: food2,
                    snakes: alive,
                },
                you,
            };
            proof {
                lemma_find_index_from(snakes_view(r.board.snakes@), sv.you.id, 0);
                assert(r@ =~= simulate_spec(sv, mv@).unwrap());
            }
            Some(r)
        },
        None => {
            return None;
        },
    }
}

/// Simulation is a pure function of the snapshot and the joint move:
/// identical inputs always yield the identical successor, or the identical
/// rejection, with no hidden state.
pub proof fn lemma_simulation_pure(s1: GameStateV, mv1: Seq<Moves>, s2: GameStateV, mv2: Seq<Moves>)
    requires
        s1 == s2,
        mv1 == mv2,
    ensures
        simulate_spec(s1, mv1) == simulate_spec(s2, mv2),
{
}

/// The health and growth rules of one turn, per agent, judged before
/// elimination: health strictly decreases by 1 except on a turn where the
/// agent's new head lands on food, where it resets to exactly 100; and the
/// body grows by exactly one cell only on a turn the agent eats past the
/// opening turn, otherwise its length is unchanged by the move phase.
pub proof fn lemma_turn_effects(s: GameStateV, mv: Seq<Moves>, i: int)
    requires
        0 <= i < s.board.snakes.len(),
        s.board.snakes[i].body.len() >= 1,
    ensures
        advanced_snakes_spec(s, mv)[i].health == (if eats(s, mv, i) {
            100int
        } else {
            s.board.snakes[i].health - 1
        }),
        advanced_snakes_spec(s, mv)[i].body.len() == s.board.snakes[i].body.len() + (if eats(
            s,
            mv,
            i,
        ) && s.turn > 1 {
            1int
        } else {
            0int
        }),
{
    let sn = s.board.snakes[i];
    let grown = seq![step_spec(sn.body[0], mv[i])] + sn.body;
    assert(grown.len() == sn.body.len() + 1);
    assert(grown.drop_last().len() == sn.body.len());
}

/// Entry `t` of the post-elimination list is one of the first `j` post-move
/// agents, unchanged and surviving.
pub open spec fn comes_from(all: Seq<SnakeV>, w: int, h: int, j: int, t: int) -> bool {
    exists|k: int| 0 <= k < j && survives(all, k, w, h)
        && survivors_upto(all, w, h, j)[t] == #[trigger] all[k]
}

/// Elimination never edits an agent and never adds one: every entry of the
/// post-elimination list is one of the first `j` post-move agents, unchanged
/// and surviving, and the list holds at most `j` entries.
pub proof fn lemma_survivors_source(all: Seq<SnakeV>, w: int, h: int, j: int)
    requires
        0 <= j <= all.len(),
    ensures
        survivors_upto(all, w, h, j).len() <= j,
        forall|t: int| 0 <= t < survivors_upto(all, w, h, j).len()
            ==> #[trigger] comes_from(all, w, h, j, t),
    decreases j,
{
    if j > 0 {
        lemma_survivors_source(all, w, h, j - 1);
        let pre = survivors_upto(all, w, h, j - 1);
        let cur = survivors_upto(all, w, h, j);
        assert forall|t: int| 0 <= t < cur.len() implies comes_from(all, w, h, j, t) by {
            if t < pre.len() {
                assert(cur[t] == pre[t]);
                assert(comes_from(all, w, h, j - 1, t));
                let k = choose|k: int| 0 <= k < j - 1 && survives(all, k, w, h)
                    && survivors_upto(all, w, h, j - 1)[t] == #[trigger] all[k];
                assert(cur[t] == all[k]);
            } else {
                assert(survives(all, j - 1, w, h));
                assert(cur[t] == all[j - 1]);
            }
        }
    }
}

/// Every cell of the post-turn food set was a cell of the pre-turn food set.
pub proof fn lemma_remaining_food_bounds(
    food: Seq<CoordV>,
    heads: Seq<CoordV>,
    j: int,
    w: int,
    h: int,
)
    requires
        0 <= j <= food.len(),
        forall|i: int| 0 <= i < food.len() ==> in_bounds(#[trigger] food[i], w, h),
    ensures
        forall|i: int| 0 <= i < remaining_food(food, heads, j).len()
            ==> in_bounds(#[trigger] remaining_food(food, heads, j)[i], w, h),
    decreases j,
{
    if j > 0 {
        lemma_remaining_food_bounds(food, heads, j - 1, w, h);
        let pre = remaining_food(food, heads, j - 1);
        let cur = remaining_food(food, heads, j);
        assert forall|i: int| 0 <= i < cur.len() implies in_bounds(cur[i], w, h) by {
            if i < pre.len() {
                assert(cur[i] == pre[i]);
            } else {
                assert(cur[i] == food[j - 1]);
            }
        }
    }
}

/// A successful turn yields a well-formed snapshot again: the dimensions are
/// unchanged, the turn counter advances by one, no agent is added, and the
/// controlled agent stays synchronized under its identifier.
pub proof fn lemma_simulate_preserves_wf(s: GameStateV, mv: Seq<Moves>)
    requires
        wf_state(s),
        mv.len() == s.board.snakes.len(),
    ensures
        match simulate_spec(s, mv) {
            Some(s2) => wf_state(s2) && s2.turn == s.turn + 1 && s2.board.width == s.board.width
                && s2.board.height == s.board.height
                && s2.board.snakes.len() <= s.board.snakes.len() && s2.you.id == s.you.id
                && s2.game_id == s.game_id,
            None => true,
        },
{
    if simulate_spec(s, mv) is Some {
        let w = s.board.width;
        let h = s.board.height;
        let adv = advanced_snakes_spec(s, mv);
        let alive = survivors(adv, w, h);
        let s2 = simulate_spec(s, mv).unwrap();
        lemma_survivors_source(adv, w, h, adv.len() as int);
        assert forall|t: int| 0 <= t < alive.len() implies wf_snake(#[trigger] alive[t], w, h) by {
            assert(comes_from(adv, w, h, adv.len() as int, t));
            let k = choose|k: int| 0 <= k < adv.len() && survives(adv, k, w, h)
                && survivors_upto(adv, w, h, adv.len() as int)[t] == #[trigger] adv[k];
            assert(alive[t] == adv[k]);
            let sn = s.board.snakes[k];
            assert(wf_snake(sn, w, h));
            let grown = seq![step_spec(sn.body[0], mv[k])] + sn.body;
            assert(adv[k].body[0] == grown[0]);
            assert(in_bounds(adv[k].body[0], w, h));
            assert forall|p: int| 0 <= p < adv[k].body.len() implies in_bounds(
                #[trigger] adv[k].body[p],
                w,
                h,
            ) by {
                if p > 0 {
                    assert(adv[k].body[p] == grown[p]);
                    assert(grown[p] == sn.body[p - 1]);
                    assert(in_bounds(sn.body[p - 1], w, h));
                }
            }
            assert(adv[k].health <= 100);
        }
        lemma_remaining_food_bounds(
            s.board.food,
            heads_of(adv),
            s.board.food.len() as int,
            w,
            h,
        );
        let j = find_index_by_id(alive, s.you.id).unwrap();
        lemma_find_index_from(alive, s.you.id, 0);
        assert(s2.you == alive[j]);
        assert(s2.you.id == s.you.id);
        assert(find_index_by_id(alive, s2.you.id) == Some(j));
    }
}

/// The per-agent outcome of one turn: the post-move agent `post` arises from
/// some pre-turn agent by the health rule — minus one, or exactly 100 on
/// food — and the growth rule — plus one cell only when it ate past the
/// opening turn.
pub open spec fn turn_outcome(s: GameStateV, mv: Seq<Moves>, post: SnakeV) -> bool {
    exists|k: int| 0 <= k < s.board.snakes.len()
        && post == #[trigger] advanced_snakes_spec(s, mv)[k]
        && post.health == (if eats(s, mv, k) {
            100int
        } else {
            s.board.snakes[k].health - 1
        })
        && post.body.len() == s.board.snakes[k].body.len() + (if eats(s, mv, k) && s.turn > 1 {
            1int
        } else {
            0int
        })
}

/// Health and growth over one whole accepted turn: every agent of the
/// successor snapshot is the post-move image of some pre-turn agent, its
/// health decayed by exactly 1 or reset to exactly 100 on food, and its
/// body grown by exactly one cell only on a turn it ate past the opening
/// turn — elimination only ever removes whole agents.
pub proof fn lemma_simulation_health_growth(s: GameStateV, mv: Seq<Moves>, t: int)
    requires
        wf_state(s),
        mv.len() == s.board.snakes.len(),
        simulate_spec(s, mv) is Some,
        0 <= t < simulate_spec(s, mv).unwrap().board.snakes.len(),
    ensures
        turn_outcome(s, mv, simulate_spec(s, mv).unwrap().board.snakes[t]),
{
    let w = s.board.width;
    let h = s.board.height;
    let adv = advanced_snakes_spec(s, mv);
    let alive = survivors(adv, w, h);
    lemma_survivors_source(adv, w, h, adv.len() as int);
    assert(comes_from(adv, w, h, adv.len() as int, t));
    let k = choose|k: int| 0 <= k < adv.len() && survives(adv, k, w, h)
        && survivors_upto(adv, w, h, adv.len() as int)[t] == #[trigger] adv[k];
    assert(wf_snake(s.board.snakes[k], w, h));
    lemma_turn_effects(s, mv, k);
    assert(simulate_spec(s, mv).unwrap().board.snakes[t] == adv[k]);
}

} // verus!
