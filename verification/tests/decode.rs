use snake_engine::board::{BattleSnake, BoardInfo, DecodeError, GameRequest};
use snake_engine::coordinate::Coordinate;
use snake_engine::small::SmallRequest;

fn c(x: i32, y: i32) -> Coordinate {
    Coordinate::new(x, y)
}

fn snake(id: &str, health: u8, body: Vec<Coordinate>) -> BattleSnake {
    BattleSnake {
        id: id.to_string(),
        health,
        head: body[0],
        length: body.len() as u16,
        body,
    }
}

fn request(snakes: Vec<BattleSnake>, food: Vec<Coordinate>, you: usize) -> GameRequest {
    GameRequest {
        turn: 7,
        you: snakes[you].clone(),
        board: BoardInfo { height: 11, width: 11, food, hazards: vec![c(3, 3)], snakes },
    }
}

fn two_snakes() -> Vec<BattleSnake> {
    vec![
        snake("a", 90, vec![c(5, 5), c(5, 4), c(5, 3)]),
        snake("b", 80, vec![c(0, 0), c(0, 1), c(0, 2), c(0, 3)]),
    ]
}

#[test]
fn decodes_a_sound_request() {
    let small = request(two_snakes(), vec![c(5, 6), c(9, 9)], 1).into_small().unwrap();
    assert_eq!(small.turn, 7);
    assert_eq!(small.you, 1);
    assert_eq!(small.board.width, 11);
    assert_eq!(small.board.height, 11);
    assert_eq!(small.board.zobrist, 0);
    assert_eq!(small.board.food, vec![c(5, 6), c(9, 9)]);
    assert_eq!(small.board.hazards, vec![c(3, 3)]);
    assert_eq!(small.board.snakes.len(), 2);
    let a = &small.board.snakes[0];
    assert_eq!(a.id, 0);
    assert_eq!(a.health, 90);
    assert_eq!(a.length, 3);
    assert!(a.alive);
    assert_eq!(a.head, c(5, 5));
    assert_eq!(a.body, vec![c(5, 5), c(5, 4), c(5, 3)]);
    let b = &small.board.snakes[1];
    assert_eq!(b.id, 1);
    assert_eq!(b.health, 80);
    assert_eq!(b.length, 4);
}

#[test]
fn decoding_builds_the_masks() {
    let small = request(two_snakes(), vec![c(5, 6), c(9, 9)], 0).into_small().unwrap();
    assert_eq!(small.board.food_bb, c(5, 6).encode() | c(9, 9).encode());
    let a = &small.board.snakes[0];
    assert_eq!(a.head_bb, c(5, 5).encode());
    assert_eq!(a.body_bb, c(5, 4).encode());
    let b = &small.board.snakes[1];
    assert_eq!(b.head_bb, c(0, 0).encode());
    assert_eq!(b.body_bb, c(0, 1).encode() | c(0, 2).encode());
}

#[test]
fn a_body_of_one_segment_blocks_nothing() {
    let small = request(vec![snake("a", 50, vec![c(2, 2)])], vec![], 0).into_small().unwrap();
    assert_eq!(small.board.snakes[0].head_bb, c(2, 2).encode());
    assert_eq!(small.board.snakes[0].body_bb, 0);
    assert_eq!(small.board.food_bb, 0);
}

#[test]
fn stacked_segments_block_their_cell() {
    let small =
        request(vec![snake("a", 50, vec![c(2, 2), c(2, 2), c(2, 2)])], vec![], 0).into_small().unwrap();
    assert_eq!(small.board.snakes[0].body_bb, c(2, 2).encode());
}

#[test]
fn you_is_the_last_agent_of_the_name() {
    let mut snakes = two_snakes();
    snakes.push(snake("a", 70, vec![c(8, 8)]));
    let small = request(snakes, vec![], 0).into_small().unwrap();
    assert_eq!(small.you, 2);
}

#[test]
fn rejects_a_board_that_is_too_large() {
    let mut req = request(two_snakes(), vec![], 0);
    req.board.width = 12;
    assert_eq!(req.into_small().err(), Some(DecodeError::BoardTooLarge));
    let mut req = request(two_snakes(), vec![], 0);
    req.board.height = 12;
    assert_eq!(req.into_small().err(), Some(DecodeError::BoardTooLarge));
}

#[test]
fn rejects_too_many_agents() {
    let snakes = vec![
        snake("a", 90, vec![c(1, 1)]),
        snake("b", 90, vec![c(2, 2)]),
        snake("c", 90, vec![c(3, 3)]),
        snake("d", 90, vec![c(4, 4)]),
        snake("e", 90, vec![c(5, 5)]),
    ];
    assert_eq!(request(snakes, vec![], 0).into_small().err(), Some(DecodeError::TooManySnakes));
}

#[test]
fn takes_four_agents() {
    let snakes = vec![
        snake("a", 90, vec![c(1, 1)]),
        snake("b", 90, vec![c(2, 2)]),
        snake("c", 90, vec![c(3, 3)]),
        snake("d", 90, vec![c(4, 4)]),
    ];
    assert!(request(snakes, vec![], 3).into_small().is_ok());
}

#[test]
fn rejects_a_malformed_agent() {
    let mut req = request(two_snakes(), vec![], 0);
    req.board.snakes[1].body.clear();
    assert_eq!(req.into_small().err(), Some(DecodeError::MalformedSnake));

    let mut req = request(two_snakes(), vec![], 0);
    req.board.snakes[1].length = 3;
    assert_eq!(req.into_small().err(), Some(DecodeError::MalformedSnake));

    let mut req = request(two_snakes(), vec![], 0);
    req.board.snakes[0].head = c(5, 4);
    assert_eq!(req.into_small().err(), Some(DecodeError::MalformedSnake));

    let mut req = request(two_snakes(), vec![], 0);
    req.board.snakes[0].health = 0;
    assert_eq!(req.into_small().err(), Some(DecodeError::MalformedSnake));

    let mut req = request(two_snakes(), vec![], 0);
    req.board.snakes[0].health = 101;
    assert_eq!(req.into_small().err(), Some(DecodeError::MalformedSnake));

    let mut req = request(two_snakes(), vec![], 0);
    req.board.snakes[1].body[3] = c(0, 11);
    assert_eq!(req.into_small().err(), Some(DecodeError::MalformedSnake));

    let mut req = request(two_snakes(), vec![], 0);
    req.board.snakes[1].body[2] = c(-1, 2);
    assert_eq!(req.into_small().err(), Some(DecodeError::MalformedSnake));
}

#[test]
fn a_small_board_bounds_the_agents() {
    let mut req = request(two_snakes(), vec![], 0);
    req.board.width = 5;
    req.board.height = 7;
    assert_eq!(req.into_small().err(), Some(DecodeError::MalformedSnake));
}

#[test]
fn rejects_malformed_food() {
    assert_eq!(
        request(two_snakes(), vec![c(11, 0)], 0).into_small().err(),
        Some(DecodeError::MalformedFood)
    );
    assert_eq!(
        request(two_snakes(), vec![c(4, 4), c(6, 6), c(4, 4)], 0).into_small().err(),
        Some(DecodeError::MalformedFood)
    );
}

#[test]
fn rejects_an_unknown_you() {
    let mut req = request(two_snakes(), vec![], 0);
    req.you.id = "nobody".to_string();
    assert_eq!(req.into_small().err(), Some(DecodeError::UnknownYou));
}

#[test]
fn the_first_reason_is_reported() {
    let mut req = request(two_snakes(), vec![c(11, 0)], 0);
    req.you.id = "nobody".to_string();
    assert_eq!(req.into_small().err(), Some(DecodeError::MalformedFood));
    req.board.snakes[0].health = 0;
    assert_eq!(req.into_small().err(), Some(DecodeError::MalformedSnake));
    req.board.width = 200;
    assert_eq!(req.into_small().err(), Some(DecodeError::BoardTooLarge));
}

#[test]
fn new_state_is_empty() {
    let s = SmallRequest::new();
    assert_eq!(s.turn, 0);
    assert_eq!(s.you, 0);
    assert_eq!(s.board.width, 0);
    assert_eq!(s.board.height, 0);
    assert_eq!(s.board.zobrist, 0);
    assert_eq!(s.board.food_bb, 0);
    assert!(s.board.food.is_empty());
    assert!(s.board.hazards.is_empty());
    assert!(s.board.snakes.is_empty());
    assert_eq!(s.amount_alive(), 0);
    assert_eq!(SmallRequest::default().amount_alive(), 0);
}

#[test]
fn amount_alive_counts_the_living() {
    let mut small = request(two_snakes(), vec![], 0).into_small().unwrap();
    assert_eq!(small.amount_alive(), 2);
    small.board.snakes[1].alive = false;
    assert_eq!(small.amount_alive(), 1);
    small.board.snakes[0].alive = false;
    assert_eq!(small.amount_alive(), 0);
}
