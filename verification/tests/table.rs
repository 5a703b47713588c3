use snake_engine::boolboard::BoolBoard;
use snake_engine::coordinate::Coordinate;
use snake_engine::direction::{Direction, Move};
use snake_engine::small::SmallRequest;
use snake_engine::table::{bound_kind, Data, Flag, TranspositionTable, TT_SIZE};

fn entry(score: i32, flag: Flag, depth: u8) -> Data {
    Data { score, best_move: vec![Move::new(Direction::Left, 0)], flag, depth }
}

#[test]
fn new_table_is_empty() {
    let t = TranspositionTable::new();
    assert_eq!(t.used(), 0);
    assert_eq!(t.probe(0, 0, i32::MIN, i32::MAX), None);
    assert_eq!(t.probe(TT_SIZE - 1, 0, i32::MIN, i32::MAX), None);
    let mut board = SmallRequest::new().board;
    board.zobrist = 42;
    let d = t.get(&board);
    assert_eq!(d.flag, Flag::Nothing);
    assert_eq!(d.score, 0);
    assert_eq!(d.depth, 0);
    assert!(d.best_move.is_empty());
}

#[test]
fn empty_entry_is_the_default() {
    let d = Data::new();
    assert_eq!(d.flag, Flag::Nothing);
    assert_eq!(d.score, 0);
    assert_eq!(d.depth, 0);
    assert!(d.best_move.is_empty());
    assert_eq!(Data::default().flag, Flag::Nothing);
}

#[test]
fn an_exact_entry_answers_any_window() {
    let mut t = TranspositionTable::new();
    t.store(5, entry(17, Flag::Exact, 4));
    assert_eq!(t.used(), 1);
    assert_eq!(t.probe(5, 4, -100, 100), Some(17));
    assert_eq!(t.probe(5, 3, 50, 60), Some(17));
    assert_eq!(t.probe(5, 5, -100, 100), None);
    assert_eq!(t.probe(6, 0, -100, 100), None);
}

#[test]
fn hashes_share_a_slot_modulo_the_size() {
    let mut t = TranspositionTable::new();
    t.store(TT_SIZE + 5, entry(17, Flag::Exact, 4));
    assert_eq!(t.probe(5, 1, 0, 1), Some(17));
    assert_eq!(t.probe(3 * TT_SIZE + 5, 1, 0, 1), Some(17));
    let mut board = SmallRequest::new().board;
    board.zobrist = 2 * TT_SIZE + 5;
    assert_eq!(t.get(&board).score, 17);
    assert_eq!(t.get(&board).best_move, vec![Move::new(Direction::Left, 0)]);
}

#[test]
fn an_upper_bound_answers_below_alpha() {
    let mut t = TranspositionTable::new();
    t.store(9, entry(10, Flag::Alpha, 2));
    assert_eq!(t.probe(9, 2, 10, 20), Some(10));
    assert_eq!(t.probe(9, 2, 11, 20), Some(10));
    assert_eq!(t.probe(9, 2, 9, 20), None);
}

#[test]
fn a_lower_bound_answers_above_beta() {
    let mut t = TranspositionTable::new();
    t.store(9, entry(10, Flag::Beta, 2));
    assert_eq!(t.probe(9, 2, 0, 10), Some(10));
    assert_eq!(t.probe(9, 2, 0, 9), Some(10));
    assert_eq!(t.probe(9, 2, 0, 11), None);
}

#[test]
fn a_new_entry_takes_the_place_of_the_old() {
    let mut t = TranspositionTable::new();
    t.store(7, entry(1, Flag::Exact, 9));
    t.store(7, entry(2, Flag::Exact, 1));
    assert_eq!(t.used(), 1);
    assert_eq!(t.probe(7, 1, 0, 0), Some(2));
    assert_eq!(t.probe(7, 9, 0, 0), None);
    t.store(8, entry(3, Flag::Beta, 1));
    assert_eq!(t.used(), 2);
    t.store(7, Data::new());
    assert_eq!(t.used(), 1);
    assert_eq!(t.probe(7, 0, 0, 0), None);
}

#[test]
fn bound_kind_follows_the_window() {
    assert_eq!(bound_kind(5, 0, 10), Flag::Exact);
    assert_eq!(bound_kind(0, 0, 10), Flag::Alpha);
    assert_eq!(bound_kind(-3, 0, 10), Flag::Alpha);
    assert_eq!(bound_kind(10, 0, 10), Flag::Beta);
    assert_eq!(bound_kind(12, 0, 10), Flag::Beta);
}

#[test]
fn new_board_has_no_flags() {
    let b = BoolBoard::new();
    for y in -1..=11 {
        for x in -1..=11 {
            assert!(!b.get(Coordinate::new(x, y)));
        }
    }
    assert_eq!(b, BoolBoard::default());
}

#[test]
fn flags_are_set_cell_by_cell() {
    let mut b = BoolBoard::new();
    b.set(Coordinate::new(3, 4), true);
    b.set(Coordinate::new(-1, 11), true);
    assert!(b.get(Coordinate::new(3, 4)));
    assert!(b.get(Coordinate::new(-1, 11)));
    assert!(!b.get(Coordinate::new(4, 3)));
    assert!(!b.get(Coordinate::new(11, -1)));
    b.set(Coordinate::new(3, 4), false);
    assert!(!b.get(Coordinate::new(3, 4)));
    assert!(b.get(Coordinate::new(-1, 11)));
}

#[test]
fn clear_takes_every_flag_down() {
    let mut b = BoolBoard::new();
    for y in -1..=11 {
        for x in -1..=11 {
            b.set(Coordinate::new(x, y), true);
        }
    }
    b.clear();
    assert_eq!(b, BoolBoard::new());
}
