use vstd::prelude::*;

use crate::geometry::Moves;

verus! {

/// 4 raised to the `n`-th power: the number of joint moves for `n` agents.
pub open spec fn pow4(n: nat) -> nat
    decreases n,
{
    if n == 0 {
        1
    } else {
        4 * pow4((n - 1) as nat)
    }
}

/// The four directions in the fixed order the enumerator always uses.
pub open spec fn all_moves() -> Seq<Moves> {
    seq![Moves::Up, Moves::Down, Moves::Left, Moves::Right]
}

/// Every sequence of `ps`, extended by every one of the four directions;
/// the four extensions of `ps[i]` sit at positions `4 * i` through `4 * i + 3`.
pub open spec fn expand(ps: Seq<Seq<Moves>>) -> Seq<Seq<Moves>>
    decreases ps.len(),
{
    if ps.len() == 0 {
        Seq::empty()
    } else {
        seq![
            ps[0].push(Moves::Up),
            ps[0].push(Moves::Down),
            ps[0].push(Moves::Left),
            ps[0].push(Moves::Right),
        ] + expand(ps.drop_first())
    }
}

/// The ordered enumeration of all length-`n` sequences over the four
/// directions: position `i` of each sequence is the move assigned to the
/// `i`-th live agent.
pub open spec fn joint_moves_spec(n: nat) -> Seq<Seq<Moves>>
    decreases n,
{
    if n == 0 {
        seq![Seq::<Moves>::empty()]
    } else {
        expand(joint_moves_spec((n - 1) as nat))
    }
}

/// Expansion distributes over concatenation.
pub proof fn lemma_expand_append(a: Seq<Seq<Moves>>, b: Seq<Seq<Moves>>)
    ensures
        expand(a + b) == expand(a) + expand(b),
    decreases a.len(),
{
    if a.len() == 0 {
        assert(a + b =~= b);
        assert(expand(a) + expand(b) =~= expand(b));
    } else {
        assert((a + b).drop_first() =~= a.drop_first() + b);
        lemma_expand_append(a.drop_first(), b);
        assert(expand(a + b) =~= expand(a) + expand(b));
    }
}

/// An expansion holds four entries for every entry of `ps`.
pub proof fn lemma_expand_len(ps: Seq<Seq<Moves>>)
    ensures
        expand(ps).len() == 4 * ps.len(),
    decreases ps.len(),
{
    if ps.len() > 0 {
        lemma_expand_len(ps.drop_first());
    }
}

/// The entry at position `4 * i + mi` of an expansion is `ps[i]` extended by
/// the `mi`-th direction.
pub proof fn lemma_expand_get(ps: Seq<Seq<Moves>>, i: int, mi: int)
    requires
        0 <= i < ps.len(),
        0 <= mi < 4,
    ensures
        expand(ps).len() == 4 * ps.len(),
        expand(ps)[4 * i + mi] == ps[i].push(all_moves()[mi]),
    decreases i,
{
    lemma_expand_len(ps);
    if i == 0 {
        assert(expand(ps)[mi] == ps[0].push(all_moves()[mi]));
    } else {
        lemma_expand_get(ps.drop_first(), i - 1, mi);
        assert(ps.drop_first()[i - 1] == ps[i]);
        assert(expand(ps)[4 * i + mi] == expand(ps.drop_first())[4 * (i - 1) + mi]);
    }
}

/// Splits a position `k` of an expansion into the index `k / 4` of the
/// sequence it extends and the index `k % 4` of the direction it appends.
pub proof fn lemma_expand_decompose(ps: Seq<Seq<Moves>>, k: int)
    requires
        0 <= k < 4 * ps.len(),
    ensures
        0 <= k / 4 < ps.len(),
        0 <= k % 4 < 4,
        k == 4 * (k / 4) + k % 4,
        expand(ps).len() == 4 * ps.len(),
        expand(ps)[k] == ps[k / 4].push(all_moves()[k % 4]),
{
    vstd::arithmetic::div_mod::lemma_fundamental_div_mod(k, 4);
    vstd::arithmetic::div_mod::lemma_mod_bound(k, 4);
    vstd::arithmetic::div_mod::lemma_div_pos_is_pos(k, 4);
    lemma_expand_get(ps, k / 4, k % 4);
}

/// The enumeration for `n` agents holds the sequence `s` at some position.
pub open spec fn enumerates(n: nat, s: Seq<Moves>) -> bool {
    exists|k: int| 0 <= k < pow4(n) && #[trigger] joint_moves_spec(n)[k] == s
}

/// The full statement of the enumerator's coverage: for every agent count
/// `n`, the enumeration holds exactly `4^n` sequences, each of length `n`,
/// pairwise distinct, and every length-`n` sequence over the four directions
/// appears among them — the Cartesian product, covered exactly once.
pub proof fn lemma_joint_moves_complete(n: nat)
    ensures
        joint_moves_spec(n).len() == pow4(n),
        forall|k: int| 0 <= k < pow4(n) ==> (#[trigger] joint_moves_spec(n)[k]).len() == n,
        forall|k1: int, k2: int| 0 <= k1 < k2 < pow4(n)
            ==> joint_moves_spec(n)[k1] != joint_moves_spec(n)[k2],
        forall|s: Seq<Moves>| s.len() == n ==> #[trigger] enumerates(n, s),
    decreases n,
{
    if n == 0 {
        assert forall|s: Seq<Moves>| s.len() == n implies #[trigger] enumerates(n, s) by {
            assert(s =~= Seq::<Moves>::empty());
            assert(joint_moves_spec(n)[0] == s);
        }
    } else {
        let m = (n - 1) as nat;
        let prev = joint_moves_spec(m);
        let cur = joint_moves_spec(n);
        lemma_joint_moves_complete(m);
        lemma_expand_len(prev);

        assert forall|k: int| 0 <= k < pow4(n) implies (#[trigger] cur[k]).len() == n by {
            lemma_expand_decompose(prev, k);
            assert(prev[k / 4].len() == m);
        }

        assert forall|k1: int, k2: int| 0 <= k1 < k2 < pow4(n)
            implies cur[k1] != cur[k2] by {
            lemma_expand_decompose(prev, k1);
            lemma_expand_decompose(prev, k2);
            let i1 = k1 / 4;
            let mi1 = k1 % 4;
            let i2 = k2 / 4;
            let mi2 = k2 % 4;
            let e1 = prev[i1].push(all_moves()[mi1]);
            let e2 = prev[i2].push(all_moves()[mi2]);
            if i1 != i2 {
                assert(prev[i1] != prev[i2]);
                assert(e1.drop_last() =~= prev[i1]);
                assert(e2.drop_last() =~= prev[i2]);
                assert(e1 != e2);
            } else {
                assert(mi1 != mi2);
                assert(e1.last() == all_moves()[mi1]);
                assert(e2.last() == all_moves()[mi2]);
                assert(all_moves()[mi1] != all_moves()[mi2]);
            }
        }

        assert forall|s: Seq<Moves>| s.len() == n implies #[trigger] enumerates(n, s) by {
            let p = s.drop_last();
            assert(p.len() == m);
            assert(enumerates(m, p));
            let i = choose|i: int| 0 <= i < pow4(m) && #[trigger] joint_moves_spec(m)[i] == p;
            let mi: int = match s.last() {
                Moves::Up => 0,
                Moves::Down => 1,
                Moves::Left => 2,
                Moves::Right => 3,
            };
            lemma_expand_get(prev, i, mi);
            assert(all_moves()[mi] == s.last());
            assert(cur[4 * i + mi] == p.push(s.last()));
            assert(p.push(s.last()) =~= s);
            assert(0 <= 4 * i + mi < pow4(n));
            assert(joint_moves_spec(n)[4 * i + mi] == s);
        }
    }
}

/// Two enumerations for the same agent count are one and the same sequence,
/// in the same order: the enumeration is a pure function of `n`, so repeated
/// or cached computations can never disagree.
pub proof fn lemma_enumeration_stable(t1: Seq<Seq<Moves>>, t2: Seq<Seq<Moves>>, n: nat)
    requires
        t1 == joint_moves_spec(n),
        t2 == joint_moves_spec(n),
    ensures
        t1 == t2,
{
}

/// The view of a computed table of joint moves.
pub open spec fn table_view(t: Seq<Vec<Moves>>) -> Seq<Seq<Moves>> {
    t.map_values(|v: Vec<Moves>| v@)
}

/// Copies one move sequence; moves are plain values, so the copy is exact.
fn copy_moves(v: &Vec<Moves>) -> (r: Vec<Moves>)
    ensures
        r@ == v@,
{
    let mut r: Vec<Moves> = Vec::new();
    let mut i: usize = 0;
    while i < v.len()
        invariant
            i <= v.len(),
            r@ == v@.take(i as int),
        decreases v.len() - i,
    {
        r.push(v[i]);
        proof {
            assert(r@ =~= v@.take(i + 1 as int));
        }
        i = i + 1;
    }
    proof {
        assert(v@.take(v@.len() as int) =~= v@);
    }
    r
}

/// Extends every sequence of `prev` by each of the four directions, in the
/// enumerator's fixed order.
fn expand_level(prev: &Vec<Vec<Moves>>) -> (r: Vec<Vec<Moves>>)
    ensures
        table_view(r@) == expand(table_view(prev@)),
{
    let ghost pv = table_view(prev@);
    let mut r: Vec<Vec<Moves>> = Vec::new();
    let mut i: usize = 0;
    while i < prev.len()
        invariant
            i <= prev.len(),
            pv == table_view(prev@),
            pv.len() == prev@.len(),
            table_view(r@) == expand(pv.take(i as int)),
        decreases prev.len() - i,
    {
        let mut up = copy_moves(&prev[i]);
        up.push(Moves::Up);
        r.push(up);
        let mut down = copy_moves(&prev[i]);
        down.push(Moves::Down);
        r.push(down);
        let mut left = copy_moves(&prev[i]);
        left.push(Moves::Left);
        r.push(left);
        let mut right = copy_moves(&prev[i]);
        right.push(Moves::Right);
        r.push(right);
        proof {
            reveal_with_fuel(expand, 3);
            let pre = pv.take(i as int);
            let one = seq![pv[i as int]];
            assert(pv.take(i + 1 as int) =~= pre + one);
            lemma_expand_append(pre, one);
            assert(one.drop_first() =~= Seq::<Seq<Moves>>::empty());
            assert(expand(one) =~= seq![
                pv[i as int].push(Moves::Up),
                pv[i as int].push(Moves::Down),
                pv[i as int].push(Moves::Left),
                pv[i as int].push(Moves::Right),
            ]);
            assert(table_view(r@) =~= expand(pre) + expand(one));
        }
        i = i + 1;
    }
    proof {
        assert(pv.take(pv.len() as int) =~= pv);
    }
    r
}

/// A lazily filled, read-only table of joint-move enumerations: level `n`
/// holds the enumeration for `n` agents.  Owned by the caller, never global.
pub struct JointMoveCache {
    tables: Vec<Vec<Vec<Moves>>>,
}

impl JointMoveCache {
    /// Every filled level holds exactly the enumeration for its agent count.
    pub closed spec fn wf(&self) -> bool {
        forall|n: int| 0 <= n < self.tables.len()
            ==> table_view((#[trigger] self.tables[n])@) == joint_moves_spec(n as nat)
    }

    /// An empty cache; levels are computed on first use.
    pub fn new() -> (r: JointMoveCache)
        ensures
            r.wf(),
    {
        JointMoveCache { tables: Vec::new() }
    }

    /// The enumeration of all joint moves for `n` agents, computing and
    /// caching any missing levels first.  The result is pinned to
    /// `joint_moves_spec`, so equal counts always yield equal tables.
    pub fn get(&mut self, n: usize) -> (r: &Vec<Vec<Moves>>)
        requires
            old(self).wf(),
            n <= 8,
        ensures
            final(self).wf(),
            table_view(r@) == joint_moves_spec(n as nat),
    {
        while self.tables.len() <= n
            invariant
                self.wf(),
                n <= 8,
            decreases n + 1 - self.tables.len(),
        {
            if self.tables.len() == 0 {
                let mut base: Vec<Vec<Moves>> = Vec::new();
                base.push(Vec::new());
                proof {
                    assert(table_view(base@) =~= joint_moves_spec(0));
                }
                self.tables.push(base);
            } else {
                let last = self.tables.len() - 1;
                let next = expand_level(&self.tables[last]);
                self.tables.push(next);
            }
        }
        &self.tables[n]
    }
}

} // verus!
