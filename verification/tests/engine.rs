use battlesnake::entities::{Board, Game, GameState, Snake};
use battlesnake::enumerator::JointMoveCache;
use battlesnake::geometry::{Coord, Moves};
use battlesnake::simulator::simulate;

fn c(x: i32, y: i32) -> Coord {
    Coord { x, y }
}

fn snake(id: &str, health: i32, body: Vec<Coord>) -> Snake {
    Snake { id: id.to_string(), name: id.to_string(), health, body }
}

fn state(turn: i32, width: i32, height: i32, food: Vec<Coord>, snakes: Vec<Snake>) -> GameState {
    let you = snakes[0].clone();
    GameState {
        game: Game { id: "g".to_string() },
        turn,
        board: Board { height, width, food, snakes },
        you,
    }
}

#[test]
fn enumerator_counts_and_lengths() {
    let mut cache = JointMoveCache::new();
    for n in 0..=8usize {
        let table = cache.get(n);
        assert_eq!(table.len(), 4usize.pow(n as u32));
        for jm in table.iter() {
            assert_eq!(jm.len(), n);
        }
    }
}

#[test]
fn enumerator_covers_product_once() {
    let mut cache = JointMoveCache::new();
    let table = cache.get(2).clone();
    assert_eq!(table.len(), 16);
    for i in 0..table.len() {
        for j in 0..table.len() {
            if i != j {
                assert_ne!(table[i], table[j]);
            }
        }
    }
    let all = [Moves::Up, Moves::Down, Moves::Left, Moves::Right];
    for a in all.iter() {
        for b in all.iter() {
            assert!(table.iter().any(|jm| jm[0] == *a && jm[1] == *b));
        }
    }
}

#[test]
fn enumerator_caching_idempotent() {
    let mut cache = JointMoveCache::new();
    let first = cache.get(3).clone();
    let second = cache.get(3).clone();
    assert_eq!(first, second);
    let mut other = JointMoveCache::new();
    let third = other.get(3).clone();
    assert_eq!(first, third);
}

#[test]
fn successors_skip_rejected_and_pruned_branches() {
    // A single agent whose body runs upward from the head: of its four joint
    // moves, down reverses into the neck and is rejected, so three
    // successors remain, each at uniform step cost 1.
    let s = state(
        10,
        11,
        11,
        vec![],
        vec![snake("you", 90, vec![c(5, 5), c(5, 6), c(5, 7)])],
    );
    let mut cache = JointMoveCache::new();
    let succs = battlesnake::successor::successors(&s, &mut cache);
    assert_eq!(succs.len(), 3);
    for (next, cost) in succs.iter() {
        assert_eq!(*cost, 1);
        assert_eq!(next.turn, 11);
        assert_eq!(next.you.body.len(), 3);
        assert_ne!(next.you.body[0], c(5, 6));
    }
}

#[test]
fn simulation_is_pure() {
    let s = state(
        10,
        11,
        11,
        vec![c(5, 4)],
        vec![snake("you", 55, vec![c(5, 5), c(5, 6), c(5, 7)])],
    );
    let mv = vec![Moves::Up];
    let a = simulate(&s, &mv);
    let b = simulate(&s, &mv);
    assert_eq!(a, b);
}

#[test]
fn health_resets_on_food_and_decays_otherwise() {
    let with_food = state(
        10,
        11,
        11,
        vec![c(5, 4)],
        vec![snake("you", 55, vec![c(5, 5), c(5, 6), c(5, 7)])],
    );
    let next = simulate(&with_food, &vec![Moves::Up]).expect("survives");
    assert_eq!(next.you.health, 100);
    assert_eq!(next.board.food.len(), 0);

    let without_food = state(
        10,
        11,
        11,
        vec![],
        vec![snake("you", 55, vec![c(5, 5), c(5, 6), c(5, 7)])],
    );
    let next = simulate(&without_food, &vec![Moves::Up]).expect("survives");
    assert_eq!(next.you.health, 54);
}

#[test]
fn growth_only_on_food_past_opening_turn() {
    // Eating past the opening turn grows the body by exactly one cell.
    let eating = state(
        10,
        11,
        11,
        vec![c(5, 4)],
        vec![snake("you", 55, vec![c(5, 5), c(5, 6), c(5, 7)])],
    );
    let next = simulate(&eating, &vec![Moves::Up]).expect("survives");
    assert_eq!(next.you.body.len(), 4);
    assert_eq!(next.you.body[0], c(5, 4));

    // Eating on the opening turn does not grow the body.
    let opening = state(
        1,
        11,
        11,
        vec![c(5, 4)],
        vec![snake("you", 55, vec![c(5, 5), c(5, 6), c(5, 7)])],
    );
    let next = simulate(&opening, &vec![Moves::Up]).expect("survives");
    assert_eq!(next.you.health, 100);
    assert_eq!(next.you.body.len(), 3);

    // Not eating keeps the length unchanged.
    let plain = state(
        10,
        11,
        11,
        vec![],
        vec![snake("you", 55, vec![c(5, 5), c(5, 6), c(5, 7)])],
    );
    let next = simulate(&plain, &vec![Moves::Up]).expect("survives");
    assert_eq!(next.you.body.len(), 3);
}

#[test]
fn equal_length_head_on_collision_eliminates_both() {
    let s = state(
        10,
        11,
        11,
        vec![],
        vec![
            snake("c", 90, vec![c(0, 5), c(0, 6)]),
            snake("a", 90, vec![c(4, 5), c(3, 5), c(2, 5)]),
            snake("b", 90, vec![c(6, 5), c(7, 5), c(8, 5)]),
        ],
    );
    // The observer moves up; the two equal rivals both step onto (5, 5).
    let next = simulate(&s, &vec![Moves::Up, Moves::Right, Moves::Left]).expect("observer lives");
    assert_eq!(next.board.snakes.len(), 1);
    assert_eq!(next.board.snakes[0].id, "c");
}

#[test]
fn unequal_head_on_collision_eliminates_only_shorter() {
    let s = state(
        10,
        11,
        11,
        vec![],
        vec![
            snake("a", 90, vec![c(4, 5), c(3, 5), c(2, 5), c(1, 5)]),
            snake("b", 90, vec![c(6, 5), c(7, 5), c(8, 5)]),
        ],
    );
    let next = simulate(&s, &vec![Moves::Right, Moves::Left]).expect("longer agent lives");
    assert_eq!(next.board.snakes.len(), 1);
    assert_eq!(next.board.snakes[0].id, "a");
    assert_eq!(next.you.id, "a");
    assert_eq!(next.you.body[0], c(5, 5));
    assert_eq!(next.you.health, 89);
    assert_eq!(next.turn, 11);
}

#[test]
fn wall_move_eliminates_and_open_move_survives() {
    let s = state(10, 11, 11, vec![], vec![snake("you", 50, vec![c(10, 5)])]);
    // Toward the wall: the head would stand at x = width.
    assert!(simulate(&s, &vec![Moves::Right]).is_none());
    // Toward any in-bounds empty cell: the agent survives.
    let next = simulate(&s, &vec![Moves::Left]).expect("survives");
    assert_eq!(next.you.body, vec![c(9, 5)]);
    assert_eq!(next.you.health, 49);
}

#[test]
fn reversal_joint_move_is_rejected() {
    // The body runs rightward, so the last move was right; left reverses it.
    let s = state(
        10,
        11,
        11,
        vec![],
        vec![snake("you", 90, vec![c(4, 5), c(3, 5), c(2, 5)])],
    );
    assert!(simulate(&s, &vec![Moves::Left]).is_none());
    assert!(simulate(&s, &vec![Moves::Right]).is_some());
}

#[test]
fn own_body_collision_eliminates() {
    // A hook-shaped body: stepping down lands on the agent's own segment.
    let s = state(
        10,
        11,
        11,
        vec![],
        vec![snake("you", 90, vec![c(5, 5), c(4, 5), c(4, 6), c(5, 6), c(6, 6)])],
    );
    assert!(simulate(&s, &vec![Moves::Down]).is_none());
    assert!(simulate(&s, &vec![Moves::Up]).is_some());
}

#[test]
fn food_eaten_by_two_agents_disappears_once() {
    let s = state(
        10,
        11,
        11,
        vec![c(5, 5), c(0, 0)],
        vec![
            snake("a", 90, vec![c(4, 5), c(3, 5), c(2, 5), c(1, 5)]),
            snake("b", 90, vec![c(6, 5), c(7, 5), c(8, 5)]),
        ],
    );
    // Both land on the food cell; the longer survives with reset health.
    let next = simulate(&s, &vec![Moves::Right, Moves::Left]).expect("longer agent lives");
    assert_eq!(next.you.health, 100);
    assert_eq!(next.board.food, vec![c(0, 0)]);
}
