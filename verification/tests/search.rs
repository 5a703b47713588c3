use snake_engine::board::{BattleSnake, BoardInfo, GameRequest};
use snake_engine::bounded::MoveList;
use snake_engine::coordinate::Coordinate;
use snake_engine::direction::{Direction, Move};
use snake_engine::eval::{amnt_dead, manhattan, StaticEval};
use snake_engine::makeunmake::MakeUnmake;
use snake_engine::genmove::GenMove;
use snake_engine::search::{decide, Evaluation, Search, LOSS, WIN};
use snake_engine::small::SmallRequest;

fn c(x: i32, y: i32) -> Coordinate {
    Coordinate::new(x, y)
}

fn snake(id: &str, health: u8, body: Vec<Coordinate>) -> BattleSnake {
    BattleSnake {
        id: id.to_string(),
        health,
        head: body[0],
        length: body.len() as u16,
        body,
    }
}

fn state(bodies: Vec<Vec<Coordinate>>, food: Vec<Coordinate>) -> SmallRequest {
    let mut snakes = Vec::new();
    for (i, body) in bodies.into_iter().enumerate() {
        snakes.push(snake(&format!("s{}", i), 90, body));
    }
    GameRequest {
        turn: 0,
        you: snakes[0].clone(),
        board: BoardInfo { height: 11, width: 11, food, hazards: vec![], snakes },
    }
    .into_small()
    .unwrap()
}

fn scenario() -> SmallRequest {
    state(
        vec![
            vec![c(5, 5), c(5, 4), c(5, 3)],
            vec![c(0, 0), c(0, 1), c(0, 2), c(0, 3), c(0, 4)],
        ],
        vec![c(5, 6)],
    )
}

fn assert_same(a: &SmallRequest, b: &SmallRequest) {
    assert_eq!(a.board.snakes, b.board.snakes);
    let mut fa = a.board.food.clone();
    let mut fb = b.board.food.clone();
    fa.sort();
    fb.sort();
    assert_eq!(fa, fb);
    assert_eq!(a.board.food_bb, b.board.food_bb);
}

#[test]
fn sentinels_keep_clear_of_the_ends() {
    assert_eq!(WIN, 2147482647);
    assert_eq!(LOSS, -2147482648);
    assert!(LOSS > i32::MIN);
    assert!(WIN < i32::MAX);
}

#[test]
fn manhattan_adds_the_two_distances() {
    assert_eq!(manhattan(&c(5, 5), &c(0, 0)), 10);
    assert_eq!(manhattan(&c(0, 0), &c(5, 5)), 10);
    assert_eq!(manhattan(&c(2, 7), &c(2, 7)), 0);
    assert_eq!(manhattan(&c(-1, 3), &c(4, 1)), 7);
}

#[test]
fn amnt_dead_counts_the_dead() {
    let mut s = state(vec![vec![c(5, 5)], vec![c(0, 0)], vec![c(9, 9)]], vec![]);
    assert_eq!(amnt_dead(&s), 0);
    s.board.snakes[2].alive = false;
    assert_eq!(amnt_dead(&s), 1);
    s.board.snakes[0].alive = false;
    assert_eq!(amnt_dead(&s), 2);
}

#[test]
fn eval_goes_for_food_and_rival() {
    let s = state(
        vec![vec![c(5, 5), c(5, 4), c(5, 3)], vec![c(0, 0), c(0, 1), c(0, 2)]],
        vec![c(9, 9), c(5, 6)],
    );
    assert_eq!(s.static_eval(), 3 * 700 - 2 * 5 - 1 * 300 - 10 * 30);
    assert_eq!(s.static_eval(), 1490);
}

#[test]
fn eval_counts_nothing_for_missing_food() {
    let s = state(
        vec![vec![c(5, 5), c(5, 4), c(5, 3)], vec![c(0, 0), c(0, 1), c(0, 2)]],
        vec![],
    );
    assert_eq!(s.static_eval(), 2100 - 10 - 0 - 300);
}

#[test]
fn eval_is_no_other_for_the_biggest() {
    let s = state(
        vec![
            vec![c(5, 5), c(5, 4), c(5, 3), c(5, 2)],
            vec![c(0, 0), c(0, 1), c(0, 2)],
            vec![c(9, 9), c(9, 8)],
        ],
        vec![c(5, 6)],
    );
    assert_eq!(s.static_eval(), 4 * 700 - 3 * 5 - 1 * 300 - 8 * 30);
    assert_eq!(s.static_eval(), 2245);
}

#[test]
fn eval_takes_the_nearest_rival() {
    let s = state(
        vec![
            vec![c(5, 5), c(5, 4), c(5, 3), c(5, 2)],
            vec![c(0, 0), c(0, 1)],
            vec![c(9, 9), c(9, 8)],
        ],
        vec![],
    );
    assert_eq!(s.static_eval(), 2800 - 15 - 0 - 8 * 30);
}

#[test]
fn eval_counts_the_living_only() {
    let mut s = state(
        vec![vec![c(5, 5), c(5, 4), c(5, 3)], vec![c(0, 0), c(0, 1), c(0, 2)], vec![c(9, 9), c(9, 8), c(9, 7)]],
        vec![c(5, 6)],
    );
    assert_eq!(s.static_eval(), 2100 - 15 - 300 - 8 * 30);
    s.board.snakes[1].alive = false;
    assert_eq!(s.static_eval(), 2100 - 10 - 300 - 8 * 30);
}

#[test]
fn eval_of_a_long_agent_does_not_wrap() {
    let mut body = Vec::new();
    for i in 0..100 {
        body.push(c(i % 11, i / 11));
    }
    let s = state(vec![body, vec![c(0, 10)]], vec![]);
    assert_eq!(s.static_eval(), 100 * 700 - 10 - 0 - 10 * 30);
}

#[test]
fn scenario_decides_for_the_food() {
    let mut s = scenario();
    let before = s.clone();
    let (direction, score) = decide(&mut s, 1);
    assert_eq!(direction, Direction::Up);
    assert_eq!(score, 4 * 700 - 2 * 5 - 0 - 10 * 30);
    assert_same(&s, &before);

    let mut moves = MoveList::new();
    moves.push(Move::new(direction, 0));
    moves.push(Move::new(Direction::Right, 1));
    s.make_move(&moves);
    assert_eq!(s.board.snakes[0].head, c(5, 6));
    assert_eq!(s.board.snakes[0].length, 4);
    assert_eq!(s.board.snakes[0].body.len(), 4);
    assert_eq!(s.board.snakes[0].health, 100);
    assert!(!s.board.food.contains(&c(5, 6)));
}

#[test]
fn decide_at_depth_zero_scores_the_state() {
    let mut s = scenario();
    let (direction, score) = decide(&mut s, 0);
    assert_eq!(score, s.static_eval());
    assert_eq!(score, 2100 - 10 - 300 - 300);
    assert_eq!(direction, Direction::Up);
}

#[test]
fn decide_leaves_the_state_alone() {
    let mut s = state(
        vec![vec![c(5, 5), c(5, 4), c(5, 3)], vec![c(6, 6), c(7, 6), c(8, 6)]],
        vec![c(5, 6), c(4, 5), c(0, 0)],
    );
    let before = s.clone();
    decide(&mut s, 3);
    assert_same(&s, &before);
    assert_eq!(s.board.food.len(), 3);
}

#[test]
fn decide_is_repeatable() {
    let mut s = state(
        vec![vec![c(5, 5), c(5, 4), c(5, 3)], vec![c(6, 6), c(7, 6), c(8, 6)]],
        vec![c(5, 6), c(4, 5), c(0, 0)],
    );
    let first = decide(&mut s, 3);
    let second = decide(&mut s, 3);
    assert_eq!(first, second);
}

#[test]
fn alone_alive_is_a_win_at_every_depth() {
    let mut s = scenario();
    s.board.snakes[1].alive = false;
    for depth in [0u8, 1, 2, 5] {
        let (_, score) = decide(&mut s, depth);
        assert_eq!(score, WIN);
    }
    let mut single = state(vec![vec![c(5, 5)]], vec![]);
    assert_eq!(decide(&mut single, 3).1, WIN);
}

#[test]
fn dead_is_a_loss_at_every_depth() {
    let mut s = scenario();
    s.board.snakes[0].alive = false;
    for depth in [0u8, 1, 2, 5] {
        let (direction, score) = decide(&mut s, depth);
        assert_eq!(score, LOSS);
        assert_eq!(direction, Direction::Up);
    }
}

#[test]
fn nobody_alive_is_a_draw() {
    let mut s = scenario();
    s.board.snakes[0].alive = false;
    s.board.snakes[1].alive = false;
    assert_eq!(decide(&mut s, 2).1, 0);
}

#[test]
fn a_finished_game_still_gets_a_legal_direction() {
    let mut s = state(vec![vec![c(5, 10), c(5, 9)], vec![c(0, 0)]], vec![]);
    s.board.snakes[1].alive = false;
    let (direction, score) = decide(&mut s, 2);
    assert_eq!(score, WIN);
    assert_eq!(direction, Direction::Right);
}

#[test]
fn cornered_decides_up_and_loses() {
    let mut s = state(
        vec![vec![c(0, 0), c(1, 0), c(1, 1), c(0, 1), c(0, 2)], vec![c(9, 9), c(9, 8)]],
        vec![],
    );
    for depth in [1u8, 2, 4] {
        let (direction, score) = decide(&mut s, depth);
        assert_eq!(direction, Direction::Up);
        assert_eq!(score, LOSS);
    }
}

#[test]
fn search_avoids_the_wall() {
    let mut s = state(vec![vec![c(0, 5), c(1, 5), c(2, 5)], vec![c(9, 9), c(9, 8), c(9, 7)]], vec![]);
    let (direction, score) = decide(&mut s, 1);
    assert!(direction == Direction::Up || direction == Direction::Down);
    assert!(score > LOSS);
}

#[test]
fn search_sees_a_won_head_on() {
    let mut s = state(
        vec![vec![c(4, 5), c(3, 5), c(2, 5), c(1, 5)], vec![c(5, 6), c(5, 7)]],
        vec![],
    );
    let eval = s.minimax(1, i32::MIN, i32::MAX, false, Some(Move::new(Direction::Up, 0)));
    assert_eq!(eval.direction, None);
    assert!(eval.score < WIN);
    let best = s.minimax(2, i32::MIN, i32::MAX, true, None);
    assert!(best.direction.is_some());
}

#[test]
fn minimax_replaces_on_equal_scores() {
    let mut s = state(vec![vec![c(5, 5)], vec![c(0, 0)]], vec![]);
    s.board.snakes[1].alive = false;
    let eval = s.minimax(3, i32::MIN, i32::MAX, true, None);
    assert_eq!(eval, Evaluation { score: WIN, direction: None });
}

#[test]
fn minimax_takes_the_worst_reply() {
    let mut s = state(vec![vec![c(5, 5), c(5, 4)], vec![c(5, 7), c(5, 8), c(5, 9)]], vec![]);
    let up = s.minimax(1, i32::MIN, i32::MAX, false, Some(Move::new(Direction::Up, 0)));
    assert_eq!(up.score, LOSS);
    let left = s.minimax(1, i32::MIN, i32::MAX, false, Some(Move::new(Direction::Left, 0)));
    assert!(left.score > LOSS);
    let (direction, _) = decide(&mut s, 1);
    assert_ne!(direction, Direction::Up);
}

fn plain(state: &mut SmallRequest, depth: u8) -> i32 {
    let alive = state.amount_alive();
    if alive == 0 {
        return 0;
    }
    if !state.board.snakes[state.you].alive {
        return LOSS;
    }
    if alive == 1 {
        return WIN;
    }
    if depth == 0 {
        return state.static_eval();
    }
    let legal = state.snake_moves(state.you);
    if legal.is_empty() {
        return LOSS;
    }
    let mut best = i32::MIN;
    for m in legal {
        let mut worst = i32::MAX;
        for v in state.all_snake_moves(m) {
            let delta = state.make_move(&v);
            let score = plain(state, depth - 1);
            state.unmake_move(&delta);
            worst = worst.min(score);
        }
        best = best.max(worst);
    }
    best
}

#[test]
fn pruning_changes_no_score() {
    let positions = vec![
        scenario(),
        state(
            vec![vec![c(5, 5), c(5, 4), c(5, 3)], vec![c(6, 6), c(7, 6), c(8, 6)]],
            vec![c(5, 6), c(4, 5), c(0, 0)],
        ),
        state(
            vec![
                vec![c(4, 5), c(3, 5), c(2, 5)],
                vec![c(6, 5), c(7, 5), c(8, 5)],
                vec![c(5, 7), c(5, 8), c(5, 9), c(4, 9)],
            ],
            vec![c(5, 5), c(5, 6)],
        ),
        state(vec![vec![c(0, 0), c(1, 0)], vec![c(1, 1), c(2, 1), c(3, 1), c(4, 1)]], vec![c(0, 2)]),
    ];
    for mut s in positions {
        for depth in 0..4u8 {
            let want = plain(&mut s, depth);
            let (direction, score) = decide(&mut s, depth);
            assert_eq!(score, want);
            let legal: Vec<Direction> = s.snake_moves(s.you).iter().map(|m| m.direction).collect();
            assert!(legal.is_empty() || legal.contains(&direction));
        }
    }
}

fn meal_board(rival: Vec<Coordinate>) -> SmallRequest {
    let snakes = vec![
        snake("you", 50, vec![c(5, 5), c(5, 4), c(5, 3)]),
        snake("rival", 50, rival),
    ];
    GameRequest {
        turn: 0,
        you: snakes[0].clone(),
        board: BoardInfo { height: 11, width: 11, food: vec![c(5, 6)], hazards: vec![], snakes },
    }
    .into_small()
    .unwrap()
}

#[test]
fn scenario_with_an_equal_rival_decides_for_the_food() {
    let mut s = meal_board(vec![c(0, 0), c(1, 0), c(2, 0)]);
    let eval = s.minimax(1, i32::MIN, i32::MAX, true, None);
    assert_eq!(eval.direction, Some(Direction::Up));
    assert_eq!(eval.score, 4 * 700 - 2 * 5 - 0 - 10 * 30);
    let (direction, score) = decide(&mut s, 1);
    assert_eq!(direction, Direction::Up);
    assert_eq!(score, 2490);

    let mut moves = MoveList::new();
    moves.push(Move::new(direction, 0));
    moves.push(Move::new(Direction::Up, 1));
    s.make_move(&moves);
    assert_eq!(s.board.snakes[0].head, c(5, 6));
    assert_eq!(s.board.snakes[0].length, 4);
    assert_eq!(s.board.snakes[0].health, 100);
    assert!(!s.board.food.contains(&c(5, 6)));
}

#[test]
fn scenario_decides_for_the_food_whatever_the_rival() {
    let rivals = vec![
        vec![c(0, 0)],
        vec![c(0, 0), c(1, 0)],
        vec![c(0, 0), c(1, 0), c(2, 0)],
        vec![c(10, 10), c(9, 10), c(8, 10), c(7, 10)],
        vec![c(0, 0), c(0, 1), c(0, 2), c(0, 3), c(0, 4)],
        vec![c(9, 1), c(9, 2), c(9, 3), c(8, 3), c(8, 2), c(8, 1), c(8, 0)],
        vec![c(2, 5), c(1, 5), c(0, 5)],
        vec![c(5, 9), c(5, 10)],
    ];
    for rival in rivals {
        let mut s = meal_board(rival);
        let (direction, score) = decide(&mut s, 1);
        assert_eq!(direction, Direction::Up);
        assert!(score >= 2460);
    }
}

#[test]
fn finished_states_give_their_sentinel_at_every_node() {
    let mut won = scenario();
    won.board.snakes[1].alive = false;
    let mut lost = scenario();
    lost.board.snakes[0].alive = false;
    for depth in [0u8, 1, 3] {
        for maximizing in [true, false] {
            for you_move in [None, Some(Move::new(Direction::Left, 0))] {
                let eval = won.minimax(depth, -5, 5, maximizing, you_move);
                assert_eq!(eval, Evaluation { score: WIN, direction: None });
                let eval = lost.minimax(depth, i32::MIN, i32::MAX, maximizing, you_move);
                assert_eq!(eval, Evaluation { score: LOSS, direction: None });
            }
        }
    }
}
