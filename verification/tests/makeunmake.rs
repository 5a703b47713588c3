use snake_engine::board::{BattleSnake, BoardInfo, GameRequest};
use snake_engine::bounded::MoveList;
use snake_engine::coordinate::Coordinate;
use snake_engine::direction::{Direction, Move};
use snake_engine::genmove::GenMove;
use snake_engine::makeunmake::MakeUnmake;
use snake_engine::small::SmallRequest;

fn c(x: i32, y: i32) -> Coordinate {
    Coordinate::new(x, y)
}

fn snake(id: &str, health: u8, body: Vec<Coordinate>) -> BattleSnake {
    BattleSnake {
        id: id.to_string(),
        health,
        head: body[0],
        length: body.len() as u16,
        body,
    }
}

fn state(snakes: Vec<(u8, Vec<Coordinate>)>, food: Vec<Coordinate>) -> SmallRequest {
    let mut list = Vec::new();
    for (i, (health, body)) in snakes.into_iter().enumerate() {
        list.push(snake(&format!("s{}", i), health, body));
    }
    GameRequest {
        turn: 3,
        you: list[0].clone(),
        board: BoardInfo { height: 11, width: 11, food, hazards: vec![], snakes: list },
    }
    .into_small()
    .unwrap()
}

fn moves(list: &[(Direction, u8)]) -> MoveList {
    let mut out = MoveList::new();
    for (d, id) in list {
        out.push(Move::new(*d, *id));
    }
    out
}

fn sorted(mut food: Vec<Coordinate>) -> Vec<Coordinate> {
    food.sort();
    food
}

fn assert_same(a: &SmallRequest, b: &SmallRequest) {
    assert_eq!(a.board.snakes, b.board.snakes);
    assert_eq!(sorted(a.board.food.clone()), sorted(b.board.food.clone()));
    assert_eq!(a.board.food_bb, b.board.food_bb);
    assert_eq!(a.board.hazards, b.board.hazards);
    assert_eq!(a.turn, b.turn);
    assert_eq!(a.you, b.you);
    assert_eq!(a.board.width, b.board.width);
    assert_eq!(a.board.height, b.board.height);
    assert_eq!(a.board.zobrist, b.board.zobrist);
}

fn assert_masks(s: &SmallRequest) {
    let mut food_bb = 0u128;
    for f in &s.board.food {
        food_bb |= f.encode();
    }
    assert_eq!(s.board.food_bb, food_bb);
    for (i, snake) in s.board.snakes.iter().enumerate() {
        assert_eq!(snake.id as usize, i);
        assert_eq!(snake.length as usize, snake.body.len());
        assert_eq!(snake.head, snake.body[0]);
        assert_eq!(snake.head_bb, snake.head.mask());
        let mut body_bb = 0u128;
        for seg in snake.body.iter().take(snake.body.len() - 1).skip(1) {
            body_bb |= seg.mask();
        }
        assert_eq!(snake.body_bb, body_bb);
        if snake.alive {
            assert_eq!(Coordinate::decode(snake.head_bb), snake.body[0]);
        }
    }
}

fn perft(state: &mut SmallRequest, depth: u8, player: bool, you_move: Option<Move>) -> u64 {
    if state.amount_alive() as usize == 0
        || !state.board.snakes[state.you].alive
        || state.amount_alive() as usize == 1
        || depth == 0
    {
        return 1;
    }
    let mut nodes = 0;
    if player {
        for x in state.snake_moves(state.you) {
            nodes += perft(state, depth, !player, Some(x));
        }
    } else {
        for x in state.all_snake_moves(you_move.unwrap()) {
            let t0 = state.clone();
            let delta = state.make_move(&x);
            assert_masks(state);
            nodes += perft(state, depth - 1, !player, None);
            state.unmake_move(&delta);
            assert_same(state, &t0);
        }
    }
    nodes
}

#[test]
fn a_move_shifts_the_body() {
    let mut s = state(vec![(90, vec![c(5, 5), c(5, 4), c(5, 3)])], vec![]);
    s.make_move(&moves(&[(Direction::Right, 0)]));
    let a = &s.board.snakes[0];
    assert_eq!(a.body, vec![c(6, 5), c(5, 5), c(5, 4)]);
    assert_eq!(a.head, c(6, 5));
    assert_eq!(a.length, 3);
    assert_eq!(a.health, 89);
    assert!(a.alive);
    assert_eq!(a.head_bb, c(6, 5).encode());
    assert_eq!(a.body_bb, c(5, 5).encode());
    assert_eq!(s.turn, 3);
}

#[test]
fn each_direction_moves_the_head() {
    for (d, to) in [
        (Direction::Up, c(5, 6)),
        (Direction::Down, c(5, 4)),
        (Direction::Left, c(4, 5)),
        (Direction::Right, c(6, 5)),
    ] {
        let mut s = state(vec![(90, vec![c(5, 5)])], vec![]);
        s.make_move(&moves(&[(d, 0)]));
        assert_eq!(s.board.snakes[0].body, vec![to]);
    }
}

#[test]
fn eating_grows_and_heals() {
    let mut s = state(
        vec![(40, vec![c(5, 5), c(5, 4), c(5, 3)]), (90, vec![c(0, 0), c(0, 1)])],
        vec![c(5, 6), c(9, 9)],
    );
    s.make_move(&moves(&[(Direction::Up, 0), (Direction::Right, 1)]));
    let a = &s.board.snakes[0];
    assert_eq!(a.body, vec![c(5, 6), c(5, 5), c(5, 4), c(5, 4)]);
    assert_eq!(a.length, 4);
    assert_eq!(a.health, 100);
    assert!(a.alive);
    assert_eq!(a.body_bb, c(5, 5).encode() | c(5, 4).encode());
    assert_eq!(s.board.food, vec![c(9, 9)]);
    assert_eq!(s.board.food_bb, c(9, 9).encode());
    let b = &s.board.snakes[1];
    assert_eq!(b.health, 89);
    assert_eq!(b.length, 2);
    assert_eq!(b.body, vec![c(1, 0), c(0, 0)]);
}

#[test]
fn eating_saves_from_starving() {
    let mut s = state(vec![(1, vec![c(5, 5), c(5, 4)])], vec![c(5, 6)]);
    s.make_move(&moves(&[(Direction::Up, 0)]));
    assert!(s.board.snakes[0].alive);
    assert_eq!(s.board.snakes[0].health, 100);
}

#[test]
fn an_agent_without_health_dies() {
    let mut s = state(vec![(1, vec![c(5, 5), c(5, 4)]), (50, vec![c(0, 0)])], vec![]);
    s.make_move(&moves(&[(Direction::Up, 0), (Direction::Up, 1)]));
    assert!(!s.board.snakes[0].alive);
    assert_eq!(s.board.snakes[0].health, 0);
    assert!(s.board.snakes[1].alive);
}

#[test]
fn leaving_the_board_kills() {
    for (d, from) in [
        (Direction::Left, c(0, 5)),
        (Direction::Right, c(10, 5)),
        (Direction::Down, c(5, 0)),
        (Direction::Up, c(5, 10)),
    ] {
        let mut s = state(vec![(90, vec![from]), (90, vec![c(3, 3)])], vec![]);
        let before = s.clone();
        let delta = s.make_move(&moves(&[(d, 0), (Direction::Up, 1)]));
        assert!(!s.board.snakes[0].alive);
        assert_eq!(s.board.snakes[0].head_bb, 0);
        assert!(s.board.snakes[1].alive);
        s.unmake_move(&delta);
        assert_same(&s, &before);
    }
}

#[test]
fn running_into_a_body_kills() {
    let mut s = state(
        vec![(90, vec![c(4, 5), c(3, 5)]), (90, vec![c(5, 6), c(5, 5), c(5, 4), c(5, 3)])],
        vec![],
    );
    s.make_move(&moves(&[(Direction::Right, 0), (Direction::Up, 1)]));
    assert!(!s.board.snakes[0].alive);
    assert!(s.board.snakes[1].alive);
}

#[test]
fn following_a_tail_is_safe() {
    let mut s = state(
        vec![(90, vec![c(4, 3), c(3, 3)]), (90, vec![c(5, 6), c(5, 5), c(5, 4), c(5, 3)])],
        vec![],
    );
    s.make_move(&moves(&[(Direction::Right, 0), (Direction::Up, 1)]));
    assert!(s.board.snakes[0].alive);
    assert!(s.board.snakes[1].alive);
}

#[test]
fn running_into_oneself_kills() {
    let mut s = state(
        vec![(90, vec![c(5, 5), c(5, 4), c(4, 4), c(4, 5), c(4, 6), c(5, 6)]), (90, vec![c(0, 0)])],
        vec![],
    );
    s.make_move(&moves(&[(Direction::Left, 0), (Direction::Up, 1)]));
    assert!(!s.board.snakes[0].alive);
    assert!(s.board.snakes[1].alive);
}

#[test]
fn equal_heads_both_die() {
    let mut s = state(
        vec![(90, vec![c(4, 5), c(3, 5), c(2, 5)]), (90, vec![c(6, 5), c(7, 5), c(8, 5)])],
        vec![],
    );
    let before = s.clone();
    let delta = s.make_move(&moves(&[(Direction::Right, 0), (Direction::Left, 1)]));
    assert_eq!(s.board.snakes[0].head, c(5, 5));
    assert_eq!(s.board.snakes[1].head, c(5, 5));
    assert!(!s.board.snakes[0].alive);
    assert!(!s.board.snakes[1].alive);
    assert_eq!(s.amount_alive(), 0);
    s.unmake_move(&delta);
    assert_same(&s, &before);
    assert_eq!(s.amount_alive(), 2);
}

#[test]
fn equal_heads_on_food_both_die_and_the_food_is_gone() {
    let mut s = state(
        vec![(90, vec![c(4, 5), c(3, 5), c(2, 5)]), (90, vec![c(6, 5), c(7, 5), c(8, 5)])],
        vec![c(5, 5)],
    );
    let before = s.clone();
    let delta = s.make_move(&moves(&[(Direction::Right, 0), (Direction::Left, 1)]));
    assert!(!s.board.snakes[0].alive);
    assert!(!s.board.snakes[1].alive);
    assert_eq!(s.board.snakes[0].length, 4);
    assert_eq!(s.board.snakes[1].length, 4);
    assert!(s.board.food.is_empty());
    assert_eq!(s.board.food_bb, 0);
    s.unmake_move(&delta);
    assert_same(&s, &before);
}

#[test]
fn the_shorter_head_dies() {
    let mut s = state(
        vec![(90, vec![c(4, 5), c(3, 5)]), (90, vec![c(6, 5), c(7, 5), c(8, 5)])],
        vec![],
    );
    s.make_move(&moves(&[(Direction::Right, 0), (Direction::Left, 1)]));
    assert!(!s.board.snakes[0].alive);
    assert!(s.board.snakes[1].alive);
}

#[test]
fn a_dying_agent_still_kills() {
    let mut s = state(
        vec![(90, vec![c(4, 5), c(3, 5)]), (1, vec![c(5, 6), c(5, 5), c(5, 4), c(5, 3)])],
        vec![],
    );
    s.make_move(&moves(&[(Direction::Right, 0), (Direction::Up, 1)]));
    assert!(!s.board.snakes[0].alive);
    assert!(!s.board.snakes[1].alive);
}

#[test]
fn the_dead_stay_as_they_are() {
    let mut s = state(vec![(90, vec![c(5, 5)]), (90, vec![c(5, 6), c(6, 6), c(6, 7)])], vec![]);
    s.board.snakes[1].alive = false;
    let dead = s.board.snakes[1].clone();
    s.make_move(&moves(&[(Direction::Up, 0)]));
    assert!(s.board.snakes[0].alive);
    assert_eq!(s.board.snakes[1], dead);
}

#[test]
fn unmake_restores_a_meal() {
    let mut s = state(
        vec![(40, vec![c(5, 5), c(5, 4), c(5, 3)]), (90, vec![c(0, 0), c(0, 1)])],
        vec![c(9, 9), c(5, 6), c(1, 0)],
    );
    let before = s.clone();
    let delta = s.make_move(&moves(&[(Direction::Up, 0), (Direction::Right, 1)]));
    assert_eq!(s.board.food, vec![c(9, 9)]);
    assert_eq!(s.board.snakes[0].length, 4);
    assert_eq!(s.board.snakes[1].length, 3);
    s.unmake_move(&delta);
    assert_same(&s, &before);
    assert_masks(&s);
}

#[test]
fn unmake_restores_a_single_segment() {
    let mut s = state(vec![(90, vec![c(5, 5)]), (90, vec![c(0, 0)])], vec![]);
    let before = s.clone();
    let delta = s.make_move(&moves(&[(Direction::Up, 0), (Direction::Right, 1)]));
    s.unmake_move(&delta);
    assert_same(&s, &before);
}

#[test]
fn unmake_restores_in_the_order_of_the_moves() {
    let mut s = state(
        vec![(90, vec![c(5, 5), c(5, 4)]), (90, vec![c(0, 0), c(0, 1)]), (90, vec![c(9, 9)])],
        vec![],
    );
    let before = s.clone();
    let delta = s.make_move(&moves(&[(Direction::Left, 2), (Direction::Up, 0), (Direction::Right, 1)]));
    assert_eq!(s.board.snakes[2].head, c(8, 9));
    assert_eq!(s.board.snakes[0].head, c(5, 6));
    assert_eq!(s.board.snakes[1].head, c(1, 0));
    s.unmake_move(&delta);
    assert_same(&s, &before);
}

#[test]
fn nested_moves_unwind() {
    let mut s = state(
        vec![(90, vec![c(5, 5), c(5, 4), c(5, 3)]), (90, vec![c(0, 0), c(0, 1)])],
        vec![c(5, 6), c(5, 7)],
    );
    let t0 = s.clone();
    let d1 = s.make_move(&moves(&[(Direction::Up, 0), (Direction::Right, 1)]));
    let t1 = s.clone();
    let d2 = s.make_move(&moves(&[(Direction::Up, 0), (Direction::Right, 1)]));
    assert_eq!(s.board.snakes[0].length, 5);
    assert!(s.board.food.is_empty());
    s.unmake_move(&d2);
    assert_same(&s, &t1);
    s.unmake_move(&d1);
    assert_same(&s, &t0);
}

#[test]
fn perft_round_trips_with_food() {
    let mut s = state(
        vec![(90, vec![c(5, 5), c(5, 4), c(5, 3)]), (90, vec![c(6, 6), c(7, 6), c(8, 6)])],
        vec![c(5, 6), c(6, 5), c(4, 5), c(0, 0)],
    );
    let t0 = s.clone();
    let nodes = perft(&mut s, 4, true, None);
    assert!(nodes > 0);
    assert_same(&s, &t0);
}

#[test]
fn perft_round_trips_at_the_wall() {
    let mut s = state(
        vec![(90, vec![c(0, 0), c(1, 0), c(2, 0)]), (90, vec![c(10, 10), c(9, 10), c(8, 10)])],
        vec![c(0, 1)],
    );
    let t0 = s.clone();
    perft(&mut s, 4, true, None);
    assert_same(&s, &t0);
}

#[test]
fn perft_round_trips_through_collisions() {
    let mut s = state(
        vec![
            (90, vec![c(4, 5), c(3, 5), c(2, 5)]),
            (90, vec![c(6, 5), c(7, 5), c(8, 5)]),
            (2, vec![c(5, 7), c(5, 8), c(5, 9), c(4, 9)]),
        ],
        vec![c(5, 5), c(5, 6)],
    );
    let t0 = s.clone();
    perft(&mut s, 3, true, None);
    assert_same(&s, &t0);
}

#[test]
fn perft_counts_the_leaves() {
    let mut s = state(vec![(90, vec![c(5, 5)]), (90, vec![c(0, 0)])], vec![]);
    assert_eq!(perft(&mut s, 1, true, None), 8);
}

#[test]
fn the_delta_records_what_the_move_took() {
    let mut s = state(
        vec![(40, vec![c(5, 5), c(5, 4), c(5, 3)]), (90, vec![c(0, 0), c(0, 1)])],
        vec![c(9, 9), c(5, 6)],
    );
    let delta = s.make_move(&moves(&[(Direction::Up, 0), (Direction::Right, 1)]));
    assert_eq!(delta.eaten_food(), vec![c(5, 6)]);
    assert_eq!(delta.prev_health(), vec![(0, 39)]);
    assert_eq!(delta.tails(), vec![(0, c(5, 3)), (1, c(0, 1))]);
    assert!(delta.died().is_empty());
}

#[test]
fn the_delta_records_both_dead_of_a_head_on() {
    let mut s = state(
        vec![(90, vec![c(4, 5), c(3, 5), c(2, 5)]), (90, vec![c(6, 5), c(7, 5), c(8, 5)])],
        vec![c(5, 5)],
    );
    let delta = s.make_move(&moves(&[(Direction::Right, 0), (Direction::Left, 1)]));
    assert_eq!(delta.died(), vec![0, 1]);
    assert_eq!(delta.eaten_food(), vec![c(5, 5)]);
    assert_eq!(delta.prev_health(), vec![(0, 89), (1, 89)]);
}

#[test]
fn refresh_rebuilds_the_repeated_fields() {
    let mut s = state(vec![(90, vec![c(5, 5), c(5, 4), c(5, 3)])], vec![]);
    let snake = &mut s.board.snakes[0];
    snake.body = vec![c(1, 1), c(1, 2), c(2, 2), c(2, 3)];
    snake.refresh();
    assert_eq!(snake.head, c(1, 1));
    assert_eq!(snake.length, 4);
    assert_eq!(snake.head_bb, c(1, 1).encode());
    assert_eq!(snake.body_bb, c(1, 2).encode() | c(2, 2).encode());
    assert_eq!(snake.id, 0);
    assert_eq!(snake.health, 90);
}
