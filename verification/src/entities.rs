use vstd::prelude::*;

use crate::geometry::{coords_view, CoordV, Coord, Moves, MAX_DIM};

verus! {

/// Opaque identity of one game; only compared for equality.
#[derive(Clone, Debug, PartialEq, Eq)]
pub struct Game {
    pub id: String,
}

/// One actor on the board: an ordered chain of occupied cells, head first.
#[derive(Clone, Debug, PartialEq, Eq)]
pub struct Snake {
    pub id: String,
    pub name: String,
    pub health: i32,
    pub body: Vec<Coord>,
}

/// The shared board: its dimensions, the food cells, and every live agent.
#[derive(Clone, Debug, PartialEq, Eq)]
pub struct Board {
    pub height: i32,
    pub width: i32,
    pub food: Vec<Coord>,
    pub snakes: Vec<Snake>,
}

/// One full snapshot handed to the decision engine: the board, the turn
/// counter, and the controlled agent, kept synchronized with the board
/// entry that carries the same identifier.
#[derive(Clone, Debug, PartialEq, Eq)]
pub struct GameState {
    pub game: Game,
    pub turn: i32,
    pub board: Board,
    pub you: Snake,
}

/// Mathematical image of an agent.
#[verifier::ext_equal]
pub ghost struct SnakeV {
    pub id: Seq<char>,
    pub name: Seq<char>,
    pub health: int,
    pub body: Seq<CoordV>,
}

/// Mathematical image of the board.
#[verifier::ext_equal]
pub ghost struct BoardV {
    pub height: int,
    pub width: int,
    pub food: Seq<CoordV>,
    pub snakes: Seq<SnakeV>,
}

/// Mathematical image of a full snapshot.
#[verifier::ext_equal]
pub ghost struct GameStateV {
    pub game_id: Seq<char>,
    pub turn: int,
    pub board: BoardV,
    pub you: SnakeV,
}

impl View for Snake {
    type V = SnakeV;

    open spec fn view(&self) -> SnakeV {
        SnakeV {
            id: self.id@,
            name: self.name@,
            health: self.health as int,
            body: coords_view(self.body@),
        }
    }
}

/// The view of a list of agents.
pub open spec fn snakes_view(s: Seq<Snake>) -> Seq<SnakeV> {
    s.map_values(|sn: Snake| sn@)
}

impl View for Board {
    type V = BoardV;

    open spec fn view(&self) -> BoardV {
        BoardV {
            height: self.height as int,
            width: self.width as int,
            food: coords_view(self.food@),
            snakes: snakes_view(self.snakes@),
        }
    }
}

impl View for GameState {
    type V = GameStateV;

    open spec fn view(&self) -> GameStateV {
        GameStateV {
            game_id: self.game.id@,
            turn: self.turn as int,
            board: self.board@,
            you: self.you@,
        }
    }
}

/// Whether a cell lies on a `w` by `h` board.
pub open spec fn in_bounds(c: CoordV, w: int, h: int) -> bool {
    0 <= c.x < w && 0 <= c.y < h
}

/// A live agent is well formed when it occupies at least one cell, all of
/// them on the board, and its health lies in the conceptual `[0, 100]` range.
pub open spec fn wf_snake(s: SnakeV, w: int, h: int) -> bool {
    &&& s.body.len() >= 1
    &&& forall|i: int| 0 <= i < s.body.len() ==> in_bounds(#[trigger] s.body[i], w, h)
    &&& 0 <= s.health <= 100
}

/// A board is well formed when its dimensions are positive and bounded and
/// every food cell and agent lies on it.
pub open spec fn wf_board(b: BoardV) -> bool {
    &&& 1 <= b.width <= MAX_DIM as int
    &&& 1 <= b.height <= MAX_DIM as int
    &&& forall|i: int| 0 <= i < b.food.len() ==> in_bounds(#[trigger] b.food[i], b.width, b.height)
    &&& forall|i: int| 0 <= i < b.snakes.len() ==> wf_snake(#[trigger] b.snakes[i], b.width, b.height)
}

/// Index of the first agent carrying `id`, scanning from position `i`.
pub open spec fn find_index_from(snakes: Seq<SnakeV>, id: Seq<char>, i: int) -> Option<int>
    decreases snakes.len() - i,
{
    if i < 0 || i >= snakes.len() {
        None
    } else if snakes[i].id == id {
        Some(i)
    } else {
        find_index_from(snakes, id, i + 1)
    }
}

/// Index of the first agent carrying `id`, if any.
pub open spec fn find_index_by_id(snakes: Seq<SnakeV>, id: Seq<char>) -> Option<int> {
    find_index_from(snakes, id, 0)
}

/// What a successful or failed identifier scan guarantees about the list.
pub proof fn lemma_find_index_from(snakes: Seq<SnakeV>, id: Seq<char>, i: int)
    requires
        0 <= i <= snakes.len(),
    ensures
        match find_index_from(snakes, id, i) {
            Some(j) => i <= j < snakes.len() && snakes[j].id == id
                && forall|k: int| i <= k < j ==> (#[trigger] snakes[k].id) != id,
            None => forall|k: int| i <= k < snakes.len() ==> (#[trigger] snakes[k].id) != id,
        },
    decreases snakes.len() - i,
{
    if i < snakes.len() && snakes[i].id != id {
        lemma_find_index_from(snakes, id, i + 1);
    }
}

/// A full snapshot is well formed when the board is, the turn counter is
/// non-negative, and the controlled agent equals the first board entry that
/// carries its identifier.
pub open spec fn wf_state(s: GameStateV) -> bool {
    &&& wf_board(s.board)
    &&& 0 <= s.turn
    &&& match find_index_by_id(s.board.snakes, s.you.id) {
        Some(j) => s.board.snakes[j] == s.you,
        None => false,
    }
}

/// Copies a chain of cells; cells are plain values, so the copy is exact.
pub fn copy_coords(v: &Vec<Coord>) -> (r: Vec<Coord>)
    ensures
        r@ == v@,
{
    let mut r: Vec<Coord> = Vec::new();
    let mut i: usize = 0;
    while i < v.len()
        invariant
            i <= v.len(),
            r@ == v@.take(i as int),
        decreases v.len() - i,
    {
        r.push(v[i]);
        proof {
            assert(r@ =~= v@.take(i + 1 as int));
        }
        i = i + 1;
    }
    proof {
        assert(v@.take(v@.len() as int) =~= v@);
    }
    r
}

impl Snake {
    /// Number of occupied cells.
    pub fn len(&self) -> (r: usize)
        ensures
            r == self@.body.len(),
    {
        self.body.len()
    }

    /// An exact copy whose view equals this agent's view.
    pub fn duplicate(&self) -> (r: Snake)
        ensures
            r@ == self@,
    {
        let r = Snake {
            id: self.id.clone(),
            name: self.name.clone(),
            health: self.health,
            body: copy_coords(&self.body),
        };
        proof {
            assert(r@ =~= self@);
        }
        r
    }

    /// The direction this agent moved on its previous turn, derived from its
    /// first two cells.  A body too short to carry a direction, or whose
    /// second cell sits on its head, yields the defined fallback direction
    /// up rather than aborting.
    pub fn last_move(&self) -> (r: Moves)
        ensures
            match last_move_spec(self@.body) {
                Some(m) => r == m,
                None => r == Moves::Up,
            },
    {
        if self.body.len() < 2 {
            return Moves::Up;
        }
        if self.body[1].x < self.body[0].x {
            Moves::Right
        } else if self.body[1].x > self.body[0].x {
            Moves::Left
        } else if self.body[1].y < self.body[0].y {
            Moves::Down
        } else {
            // Either the head moved up, or the two cells coincide and the
            // body carries no direction: both settle on up.
            Moves::Up
        }
    }
}

/// The direction an agent moved last, read off its first two cells; `None`
/// when the body is too short or degenerate to carry one.
pub open spec fn last_move_spec(body: Seq<CoordV>) -> Option<Moves> {
    if body.len() < 2 {
        None
    } else if body[1].x < body[0].x {
        Some(Moves::Right)
    } else if body[1].x > body[0].x {
        Some(Moves::Left)
    } else if body[1].y < body[0].y {
        Some(Moves::Down)
    } else if body[1].y > body[0].y {
        Some(Moves::Up)
    } else {
        None
    }
}

/// Copies a list of agents; the copy and the source have one view.
pub fn copy_snakes(v: &Vec<Snake>) -> (r: Vec<Snake>)
    ensures
        snakes_view(r@) == snakes_view(v@),
        r@.len() == v@.len(),
{
    let mut r: Vec<Snake> = Vec::new();
    let mut i: usize = 0;
    while i < v.len()
        invariant
            i <= v.len(),
            r@.len() == i,
            forall|t: int| 0 <= t < i ==> (#[trigger] r@[t])@ == v@[t]@,
        decreases v.len() - i,
    {
        r.push(v[i].duplicate());
        i = i + 1;
    }
    proof {
        assert(snakes_view(r@).len() == r@.len());
        assert(snakes_view(v@).len() == v@.len());
        assert forall|t: int| 0 <= t < v@.len() implies
            snakes_view(r@)[t] == snakes_view(v@)[t] by {
            assert(snakes_view(r@)[t] == r@[t]@);
            assert(snakes_view(v@)[t] == v@[t]@);
        }
        assert(snakes_view(r@) =~= snakes_view(v@));
    }
    r
}

/// Finds the first agent in the list carrying `id`.
pub fn find_snake_index(snakes: &Vec<Snake>, id: &String) -> (r: Option<usize>)
    ensures
        match r {
            Some(j) => find_index_by_id(snakes_view(snakes@), id@) == Some(j as int),
            None => find_index_by_id(snakes_view(snakes@), id@) is None,
        },
{
    let ghost svs = snakes_view(snakes@);
    let mut i: usize = 0;
    while i < snakes.len()
        invariant
            i <= snakes.len(),
            svs == snakes_view(snakes@),
            find_index_from(svs, id@, 0) == find_index_from(svs, id@, i as int),
        decreases snakes.len() - i,
    {
        proof {
            assert(svs.len() == snakes@.len());
            assert(svs[i as int] == snakes@[i as int]@);
        }
        if snakes[i].id == *id {
            proof {
                assert(find_index_from(svs, id@, i as int) == Some(i as int));
            }
            return Some(i);
        }
        proof {
            assert(find_index_from(svs, id@, i as int) == find_index_from(svs, id@, i + 1 as int));
        }
        i = i + 1;
    }
    None
}

impl GameState {
    /// An exact copy whose view equals this snapshot's view.
    pub fn duplicate(&self) -> (r: GameState)
        ensures
            r@ == self@,
    {
        let r = GameState {
            game: Game { id: self.game.id.clone() },
            turn: self.turn,
            board: Board {
                height: self.board.height,
                width: self.board.width,
                food: copy_coords(&self.board.food),
                snakes: copy_snakes(&self.board.snakes),
            },
            you: self.you.duplicate(),
        };
        proof {
            assert(r@ =~= self@);
        }
        r
    }

    /// Resynchronizes the controlled agent with the first board entry that
    /// carries its identifier; a snapshot without such an entry is unchanged.
    pub fn fix_board_to_self(&mut self)
        ensures
            match find_index_by_id(old(self)@.board.snakes, old(self)@.you.id) {
                Some(j) => final(self)@ == GameStateV {
                    you: old(self)@.board.snakes[j],
                    ..old(self)@
                },
                None => final(self)@ == old(self)@,
            },
    {
        let idx = find_snake_index(&self.board.snakes, &self.you.id);
        if let Some(j) = idx {
            proof {
                lemma_find_index_from(snakes_view(self.board.snakes@), self.you.id@, 0);
            }
            self.you = self.board.snakes[j].duplicate();
            proof {
                assert(self@ =~= GameStateV { you: old(self)@.board.snakes[j as int], ..old(self)@ });
            }
        } else {
            proof {
                assert(self@ =~= old(self)@);
            }
        }
    }
}

/// Whether two agents are equal, field by field.
fn snakes_equal(a: &Snake, b: &Snake) -> (r: bool)
    ensures
        r == (a@ == b@),
{
    if !(a.id == b.id) || !(a.name == b.name) || a.health != b.health
        || a.body.len() != b.body.len() {
        proof {
            if a@.body.len() != b@.body.len() {
                assert(a@ != b@);
            }
        }
        return false;
    }
    let mut i: usize = 0;
    while i < a.body.len()
        invariant
            i <= a.body@.len(),
            a@.id == b@.id,
            a@.name == b@.name,
            a@.health == b@.health,
            a@.body.len() == b@.body.len(),
            a@.body.len() == a.body@.len(),
            forall|k: int| 0 <= k < i ==> a@.body[k] == b@.body[k],
        decreases a.body@.len() - i,
    {
        proof {
            assert(a@.body[i as int] == a.body@[i as int]@);
            assert(b@.body[i as int] == b.body@[i as int]@);
        }
        if !(a.body[i] == b.body[i]) {
            proof {
                assert(a@.body[i as int] != b@.body[i as int]);
            }
            return false;
        }
        i = i + 1;
    }
    proof {
        assert(a@.body =~= b@.body);
        assert(a@ =~= b@);
    }
    true
}

/// Decides full well-formedness of a snapshot at run time, so that an
/// unverified caller can test it before handing the snapshot to a function
/// that assumes it.
pub fn state_well_formed(s: &GameState) -> (r: bool)
    ensures
        r == wf_state(s@),
{
    let ghost sv = s@;
    let w = s.board.width;
    let h = s.board.height;
    if !(1 <= w && w <= MAX_DIM && 1 <= h && h <= MAX_DIM) {
        return false;
    }
    if s.turn < 0 {
        return false;
    }
    let mut i: usize = 0;
    while i < s.board.food.len()
        invariant
            sv == s@,
            i <= sv.board.food.len(),
            w as int == sv.board.width,
            h as int == sv.board.height,
            forall|t: int| 0 <= t < i ==> in_bounds(#[trigger] sv.board.food[t], sv.board.width,
                sv.board.height),
        decreases s.board.food@.len() - i,
    {
        proof {
            assert(sv.board.food[i as int] == s.board.food@[i as int]@);
        }
        let c = s.board.food[i];
        if c.x < 0 || c.x >= w || c.y < 0 || c.y >= h {
            return false;
        }
        i = i + 1;
    }
    let mut j: usize = 0;
    while j < s.board.snakes.len()
        invariant
            sv == s@,
            j <= sv.board.snakes.len(),
            w as int == sv.board.width,
            h as int == sv.board.height,
            forall|t: int| 0 <= t < j ==> wf_snake(#[trigger] sv.board.snakes[t], sv.board.width,
                sv.board.height),
        decreases s.board.snakes@.len() - j,
    {
        proof {
            assert(sv.board.snakes[j as int] == s.board.snakes@[j as int]@);
        }
        let sn = &s.board.snakes[j];
        if sn.body.len() == 0 || sn.health < 0 || sn.health > 100 {
            return false;
        }
        let mut k: usize = 0;
        while k < sn.body.len()
            invariant
                sv == s@,
                j < sv.board.snakes.len(),
                sn@ == sv.board.snakes[j as int],
                k <= sn.body@.len(),
                w as int == sv.board.width,
                h as int == sv.board.height,
                forall|t: int| 0 <= t < k ==> in_bounds(#[trigger] sv.board.snakes[j as int].body[t],
                    sv.board.width, sv.board.height),
            decreases sn.body@.len() - k,
        {
            proof {
                assert(sv.board.snakes[j as int].body[k as int] == sn.body@[k as int]@);
            }
            let c = sn.body[k];
            if c.x < 0 || c.x >= w || c.y < 0 || c.y >= h {
                return false;
            }
            k = k + 1;
        }
        j = j + 1;
    }
    match find_snake_index(&s.board.snakes, &s.you.id) {
        Some(idx) => {
            proof {
                lemma_find_index_from(snakes_view(s.board.snakes@), sv.you.id, 0);
                assert(sv.board.snakes[idx as int] == s.board.snakes@[idx as int]@);
            }
            snakes_equal(&s.board.snakes[idx], &s.you)
        },
        None => false,
    }
}

} // verus!
