use battlesnake::cosmetics::{pick_head, pick_tail, SnakeHead, SnakeTail};
use battlesnake::entities::{Board, Game, GameState, Snake};
use battlesnake::enumerator::JointMoveCache;
use battlesnake::geometry::{Coord, Moves};
use battlesnake::heuristic::{big_snake_cost, heuristic_move};
use battlesnake::search::exhaustive_move;

fn cell(x: i32, y: i32) -> Coord {
    Coord { x, y }
}

fn agent(id: &str, health: i32, body: Vec<Coord>) -> Snake {
    Snake { id: id.to_string(), name: id.to_string(), health, body }
}

fn snapshot(turn: i32, width: i32, height: i32, food: Vec<Coord>, snakes: Vec<Snake>) -> GameState {
    let you = snakes[0].clone();
    GameState {
        game: Game { id: "g".to_string() },
        turn,
        board: Board { height, width, food, snakes },
        you,
    }
}

#[test]
fn heuristic_seeks_food_upward() {
    // Board 11 by 11, a single controlled agent of length 3 at (5,5),(5,6),(5,7)
    // head first, one food at (5,4), turn 10: the greedy policy must step up.
    let s = snapshot(
        10,
        11,
        11,
        vec![cell(5, 4)],
        vec![agent("you", 80, vec![cell(5, 5), cell(5, 6), cell(5, 7)])],
    );
    assert_eq!(heuristic_move(&s), Moves::Up);
}

#[test]
fn heuristic_seeks_food_rightward() {
    // The nearest and only food sits to the right of the head, so the path
    // found by the shortest-path search must end with a step right; any
    // breakage in the search plumbing would surface as the default up.
    let s = snapshot(
        10,
        11,
        11,
        vec![cell(7, 5)],
        vec![agent("you", 80, vec![cell(5, 5), cell(5, 6), cell(5, 7)])],
    );
    assert_eq!(heuristic_move(&s), Moves::Right);
}

#[test]
fn heuristic_is_deterministic() {
    let s = snapshot(
        10,
        11,
        11,
        vec![cell(2, 2), cell(8, 8)],
        vec![
            agent("you", 80, vec![cell(5, 5), cell(5, 6), cell(5, 7)]),
            agent("foe", 80, vec![cell(1, 1), cell(1, 2), cell(1, 3), cell(1, 4)]),
        ],
    );
    let first = heuristic_move(&s);
    let second = heuristic_move(&s);
    assert_eq!(first, second);
}

#[test]
fn heuristic_lone_single_cell_agent_goes_up() {
    let s = snapshot(3, 11, 11, vec![], vec![agent("you", 80, vec![cell(5, 5)])]);
    assert_eq!(heuristic_move(&s), Moves::Up);
}

#[test]
fn exhaustive_avoids_mutual_head_on_collision() {
    // Two equal-length agents, heads both adjacent to (5,5): moving right can
    // collide head-on; up and down survive whatever the rival does, so the
    // policy must not pick the collision move.
    let s = snapshot(
        3,
        11,
        11,
        vec![],
        vec![
            agent("you", 90, vec![cell(4, 5), cell(3, 5), cell(2, 5)]),
            agent("foe", 90, vec![cell(6, 5), cell(7, 5), cell(8, 5)]),
        ],
    );
    let mut cache = JointMoveCache::new();
    let m = exhaustive_move(&s, &mut cache, 3, 2000);
    assert!(m == Moves::Up || m == Moves::Down, "collision or reversal move chosen: {:?}", m);
}

#[test]
fn exhaustive_falls_back_when_trapped() {
    // The controlled single-cell agent in the corner is blocked by two
    // two-cell agents whose old heads always remain as body segments: every
    // joint move eliminates it, so the deterministic default is returned.
    let s = snapshot(
        5,
        11,
        11,
        vec![],
        vec![
            agent("you", 50, vec![cell(0, 0)]),
            agent("b", 90, vec![cell(1, 0), cell(1, 1)]),
            agent("c", 90, vec![cell(0, 1), cell(0, 2)]),
        ],
    );
    let mut cache = JointMoveCache::new();
    let m = exhaustive_move(&s, &mut cache, 2, 500);
    assert_eq!(m, Moves::Up);
}

#[test]
fn exhaustive_survives_simple_board() {
    let s = snapshot(
        4,
        11,
        11,
        vec![cell(0, 0)],
        vec![agent("you", 90, vec![cell(5, 5), cell(5, 6), cell(5, 7)])],
    );
    let mut cache = JointMoveCache::new();
    let m = exhaustive_move(&s, &mut cache, 3, 2000);
    // Any direction but the reversal and the one into its own neck is fine;
    // the chosen move must at least not reverse into the body below.
    assert!(m != Moves::Down);
}

#[test]
fn exhaustive_is_deterministic() {
    let s = snapshot(
        4,
        11,
        11,
        vec![cell(2, 2)],
        vec![
            agent("you", 90, vec![cell(5, 5), cell(5, 6), cell(5, 7)]),
            agent("foe", 90, vec![cell(1, 1), cell(1, 2), cell(1, 3)]),
        ],
    );
    let mut cache = JointMoveCache::new();
    let first = exhaustive_move(&s, &mut cache, 3, 1000);
    let second = exhaustive_move(&s, &mut cache, 3, 1000);
    assert_eq!(first, second);
}

#[test]
fn neighboors_in_fixed_order() {
    let c = cell(3, 7);
    let n = c.neighboors();
    assert_eq!(n, vec![cell(4, 7), cell(2, 7), cell(3, 8), cell(3, 6)]);
}

#[test]
fn dist_is_manhattan() {
    assert_eq!(cell(0, 0).dist(&cell(3, 4)), 7);
    assert_eq!(cell(5, 2).dist(&cell(1, 9)), 11);
    assert_eq!(cell(4, 4).dist(&cell(4, 4)), 0);
}

#[test]
fn last_move_from_body() {
    assert_eq!(agent("a", 90, vec![cell(5, 5), cell(4, 5)]).last_move(), Moves::Right);
    assert_eq!(agent("a", 90, vec![cell(5, 5), cell(6, 5)]).last_move(), Moves::Left);
    assert_eq!(agent("a", 90, vec![cell(5, 5), cell(5, 6)]).last_move(), Moves::Up);
    assert_eq!(agent("a", 90, vec![cell(5, 5), cell(5, 4)]).last_move(), Moves::Down);
}

#[test]
fn last_move_degenerate_bodies_fall_back_up() {
    // Too short to carry a direction, or the second cell stacked on the
    // head: the defined fallback direction, never an abort.
    assert_eq!(agent("a", 90, vec![cell(5, 5)]).last_move(), Moves::Up);
    assert_eq!(agent("a", 90, vec![cell(5, 5), cell(5, 5)]).last_move(), Moves::Up);
}

#[test]
fn fix_board_to_self_resynchronizes() {
    let mut s = snapshot(
        2,
        11,
        11,
        vec![],
        vec![agent("you", 77, vec![cell(5, 5), cell(5, 6)])],
    );
    s.you.health = 1;
    s.fix_board_to_self();
    assert_eq!(s.you.health, 77);
}

#[test]
fn big_snake_cost_penalizes_near_large_heads() {
    // Board size 11 gives the threshold 3; a rival of equal length with its
    // head 2 cells away costs the base 1 plus 20 * (3 - 2), at the threshold
    // 1 plus 20 * 0, and beyond it the plain base cost 1: the penalty decays
    // linearly and never undercuts a far cell.
    let you_id = "you".to_string();
    let snakes = vec![agent("foe", 90, vec![cell(5, 5), cell(5, 6), cell(5, 7)])];
    assert_eq!(big_snake_cost(11, 3, &cell(5, 3), &snakes, &you_id), 21);
    assert_eq!(big_snake_cost(11, 3, &cell(5, 2), &snakes, &you_id), 1);
    assert_eq!(big_snake_cost(11, 3, &cell(5, 1), &snakes, &you_id), 1);
    // A strictly longer controlled agent is not threatened by it.
    assert_eq!(big_snake_cost(11, 4, &cell(5, 3), &snakes, &you_id), 1);
    // The controlled agent's own head never penalizes nearby cells.
    let own = vec![agent("you", 90, vec![cell(5, 5), cell(5, 6), cell(5, 7)])];
    assert_eq!(big_snake_cost(11, 3, &cell(5, 3), &own, &you_id), 1);
}

#[test]
fn cosmetic_choices_follow_the_roll() {
    assert_eq!(pick_head(0), SnakeHead::Beluga);
    assert_eq!(pick_head(3), SnakeHead::Evil);
    assert_eq!(pick_head(11), SnakeHead::Smile);
    assert_eq!(pick_head(12), SnakeHead::Tongue);
    assert_eq!(pick_tail(0), SnakeTail::BlockBum);
    assert_eq!(pick_tail(10), SnakeTail::Skinny);
    assert_eq!(pick_tail(11), SnakeTail::SmallRattle);
}
