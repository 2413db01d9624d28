use vstd::prelude::*;

use crate::entities::{wf_state, GameState, GameStateV};
use crate::enumerator::{joint_moves_spec, lemma_joint_moves_complete, table_view, JointMoveCache};
use crate::geometry::Moves;
use crate::simulator::{simulate, simulate_spec, lemma_simulate_preserves_wf};

verus! {

/// The successor snapshots reached by the first `j` joint moves of `table`,
/// in enumeration order, skipping rejected and pruned branches.
pub open spec fn succ_upto(s: GameStateV, table: Seq<Seq<Moves>>, j: int) -> Seq<GameStateV>
    decreases j,
{
    if j <= 0 {
        Seq::empty()
    } else {
        let pre = succ_upto(s, table, j - 1);
        match simulate_spec(s, table[j - 1]) {
            Some(s2) => pre.push(s2),
            None => pre,
        }
    }
}

/// Every snapshot reachable from `s` by one valid joint move, in the fixed
/// order of the joint-move enumeration.
pub open spec fn successors_spec(s: GameStateV) -> Seq<GameStateV> {
    let table = joint_moves_spec(s.board.snakes.len());
    succ_upto(s, table, table.len() as int)
}

/// The successor snapshots of a computed candidate list.
pub open spec fn states_of(r: Seq<(GameState, i32)>) -> Seq<GameStateV> {
    r.map_values(|p: (GameState, i32)| p.0@)
}

/// Entry `t` of the successor list is the simulation of one of the first `j`
/// joint moves of `table`.
pub open spec fn succ_comes_from(s: GameStateV, table: Seq<Seq<Moves>>, j: int, t: int) -> bool {
    exists|k: int| 0 <= k < j && simulate_spec(s, #[trigger] table[k]) is Some
        && succ_upto(s, table, j)[t] == simulate_spec(s, table[k]).unwrap()
}

/// Every entry of the successor list arises from one of the first `j` joint
/// moves, and there are at most `j` entries.
pub proof fn lemma_succ_upto_source(s: GameStateV, table: Seq<Seq<Moves>>, j: int)
    requires
        0 <= j <= table.len(),
    ensures
        succ_upto(s, table, j).len() <= j,
        forall|t: int| 0 <= t < succ_upto(s, table, j).len()
            ==> #[trigger] succ_comes_from(s, table, j, t),
    decreases j,
{
    if j > 0 {
        lemma_succ_upto_source(s, table, j - 1);
        let pre = succ_upto(s, table, j - 1);
        let cur = succ_upto(s, table, j);
        assert forall|t: int| 0 <= t < cur.len() implies succ_comes_from(s, table, j, t) by {
            if t < pre.len() {
                assert(cur[t] == pre[t]);
                assert(succ_comes_from(s, table, j - 1, t));
                let k = choose|k: int| 0 <= k < j - 1 && simulate_spec(s, #[trigger] table[k]) is Some
                    && succ_upto(s, table, j - 1)[t] == simulate_spec(s, table[k]).unwrap();
                assert(cur[t] == simulate_spec(s, table[k]).unwrap());
            } else {
                assert(simulate_spec(s, table[j - 1]) is Some);
                assert(cur[t] == simulate_spec(s, table[j - 1]).unwrap());
            }
        }
    }
}

/// Every successor snapshot is well formed, lives on the same board, carries
/// the next turn counter, and holds no more agents than its parent.
pub proof fn lemma_successors_wf(s: GameStateV)
    requires
        wf_state(s),
    ensures
        forall|t: int| 0 <= t < successors_spec(s).len() ==> {
            let s2 = #[trigger] successors_spec(s)[t];
            wf_state(s2) && s2.turn == s.turn + 1 && s2.board.width == s.board.width
                && s2.board.height == s.board.height
                && s2.board.snakes.len() <= s.board.snakes.len()
        },
{
    let n = s.board.snakes.len();
    let table = joint_moves_spec(n);
    lemma_joint_moves_complete(n);
    lemma_succ_upto_source(s, table, table.len() as int);
    assert forall|t: int| 0 <= t < successors_spec(s).len() implies {
        let s2 = #[trigger] successors_spec(s)[t];
        wf_state(s2) && s2.turn == s.turn + 1 && s2.board.width == s.board.width
            && s2.board.height == s.board.height
            && s2.board.snakes.len() <= s.board.snakes.len()
    } by {
        assert(succ_comes_from(s, table, table.len() as int, t));
        let k = choose|k: int| 0 <= k < table.len() && simulate_spec(s, #[trigger] table[k]) is Some
            && succ_upto(s, table, table.len() as int)[t] == simulate_spec(s, table[k]).unwrap();
        assert(table[k].len() == n);
        lemma_simulate_preserves_wf(s, table[k]);
    }
}

/// Generates every next-state candidate of one snapshot: each joint move from
/// the enumeration is applied through the simulator, rejected and pruned
/// branches are discarded, and each surviving branch carries the uniform step
/// cost 1 of the exhaustive policy.
pub fn successors(s: &GameState, cache: &mut JointMoveCache) -> (r: Vec<(GameState, i32)>)
    requires
        old(cache).wf(),
        wf_state(s@),
        s@.board.snakes.len() <= 8,
        s@.turn < i32::MAX as int,
    ensures
        final(cache).wf(),
        states_of(r@) == successors_spec(s@),
        forall|t: int| 0 <= t < r@.len() ==> (#[trigger] r@[t]).1 == 1,
{
    let ghost sv = s@;
    let n = s.board.snakes.len();
    proof {
        lemma_joint_moves_complete(n as nat);
    }
    let table = cache.get(n);
    let ghost tv = table_view(table@);
    let mut r: Vec<(GameState, i32)> = Vec::new();
    let mut k: usize = 0;
    while k < table.len()
        invariant
            k <= table@.len(),
            tv == table_view(table@),
            tv == joint_moves_spec(sv.board.snakes.len()),
            sv == s@,
            wf_state(sv),
            n == sv.board.snakes.len(),
            sv.turn < i32::MAX as int,
            forall|t: int| 0 <= t < tv.len() ==> (#[trigger] tv[t]).len() == n,
            states_of(r@) == succ_upto(sv, tv, k as int),
            forall|t: int| 0 <= t < r@.len() ==> (#[trigger] r@[t]).1 == 1,
        decreases table@.len() - k,
    {
        proof {
            assert(tv[k as int] == table@[k as int]@);
        }
        let ghost pre = r@;
        match simulate(s, &table[k]) {
            Some(s2) => {
                r.push((s2, 1));
                proof {
                    assert(r@ == pre.push((s2, 1)));
                    assert(states_of(pre).len() == pre.len());
                    assert forall|t: int| 0 <= t < pre.len() + 1 implies
                        states_of(r@)[t] == succ_upto(sv, tv, k + 1 as int)[t] by {
                        assert(states_of(r@)[t] == r@[t].0@);
                        if t < pre.len() {
                            assert(r@[t] == pre[t]);
                            assert(states_of(pre)[t] == pre[t].0@);
                            assert(states_of(pre)[t] == succ_upto(sv, tv, k as int)[t]);
                        } else {
                            assert(r@[t] == (s2, 1i32));
                        }
                    }
                    assert(states_of(r@) =~= succ_upto(sv, tv, k + 1 as int));
                }
            },
            None => {
                proof {
                    assert(states_of(r@) =~= succ_upto(sv, tv, k + 1 as int));
                }
            },
        }
        k = k + 1;
    }
    proof {
        assert(tv.len() == table@.len());
    }
    r
}

} // verus!
