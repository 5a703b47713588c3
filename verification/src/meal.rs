use vstd::prelude::*;
use crate::coordinate::Coordinate;
use crate::direction::{Direction, Move};
use crate::eval::{is_least, lemma_nearest, manhattan_spec, nearest, reaches};
use crate::genmove::{
    candidate, lemma_joint_moves, lemma_joint_moves_nonempty, lemma_legal_upto,
};
use crate::minimax::{first_answer, lemma_first_wins, lemma_worst_at_least};
use crate::small::{count_alive, interior, StateView};
use crate::turn::{assigned, direction_of, moves_valid};

verus! {

/// The cell on which the controlled agent of the meal scenario has its head.
pub open spec fn start() -> Coordinate {
    Coordinate { x: 5, y: 5 }
}

/// The cell of the food in the meal scenario: one step up from the head.
pub open spec fn meal() -> Coordinate {
    Coordinate { x: 5, y: 6 }
}

/// The meal scenario: an 11 by 11 board with two living agents and one food. The
/// controlled agent has three segments and its head one step below the food. The other
/// agent, of any length, is far away and outlives the turn whatever it does: none of its
/// segments is nearer than three steps to that head, it has health for two turns, and it
/// has a legal move.
pub open spec fn meal_scenario(s: StateView) -> bool {
    let me = s.snakes[s.you];
    let rival = s.snakes[1 - s.you];
    &&& s.wf()
    &&& s.room(1)
    &&& s.width == 11
    &&& s.height == 11
    &&& s.snakes.len() == 2
    &&& s.food == Set::<Coordinate>::empty().insert(meal())
    &&& me.alive
    &&& me.body.len() == 3
    &&& me.head() == start()
    &&& me.body[1] != meal()
    &&& rival.alive
    &&& rival.health >= 2
    &&& forall|j: int|
        0 <= j < rival.body.len() ==> manhattan_spec(#[trigger] rival.body[j], start()) >= 3
    &&& s.legal_moves(1 - s.you).len() > 0
}

/// The nearest point of a set is no farther than any of its points.
pub proof fn lemma_nearest_at_most(points: Set<Coordinate>, from: Coordinate, p: Coordinate)
    requires
        points.contains(p),
    ensures
        0 <= nearest(points, from) <= manhattan_spec(p, from),
{
    if exists|d: int| 0 <= d < 100 && is_least(points, from, d) {
        let d = choose|d: int| 0 <= d < 100 && is_least(points, from, d);
        assert(manhattan_spec(p, from) >= d);
    }
}

/// Nothing is near where there is nothing.
pub proof fn lemma_nearest_of_none(from: Coordinate)
    ensures
        nearest(Set::<Coordinate>::empty(), from) == 0,
{
    if exists|d: int| 0 <= d < 100 && is_least(Set::<Coordinate>::empty(), from, d) {
        let d = choose|d: int| 0 <= d < 100 && is_least(Set::<Coordinate>::empty(), from, d);
        assert(reaches(Set::<Coordinate>::empty(), from, d));
    }
}

/// In the meal scenario the step up is the first legal move of the controlled agent, and
/// every other legal move of it is an allowed step in another direction.
proof fn lemma_up_first(s: StateView)
    requires
        meal_scenario(s),
    ensures
        s.legal_moves(s.you).len() >= 1,
        s.legal_moves(s.you)[0] == (Move { direction: Direction::Up, id: s.you as u8 }),
        forall|k: int|
            1 <= k < s.legal_moves(s.you).len() ==> (#[trigger] s.legal_moves(s.you)[k]).direction
                != Direction::Up && s.allowed(s.you, s.legal_moves(s.you)[k].direction)
                && s.legal_moves(s.you)[k].id == s.you,
        s.allowed(s.you, Direction::Up),
{
    let i = s.you;
    assert(s.snakes[i].sane());
    assert(s.snakes[1 - i].sane());
    assert(!s.blocked(meal())) by {
        if s.blocked(meal()) {
            let j = choose|j: int|
                0 <= j < s.snakes.len() && (#[trigger] s.snakes[j]).alive && interior(
                    s.snakes[j].body,
                ).contains(meal());
            let q = choose|q: int|
                1 <= q < s.snakes[j].body.len() - 1 && q < s.snakes[j].body.len()
                    && s.snakes[j].body[q] == meal();
            if j != i {
                assert(manhattan_spec(s.snakes[1 - i].body[q], start()) >= 3);
            }
        }
    }
    assert(s.allowed(i, Direction::Up));
    reveal_with_fuel(StateView::legal_upto, 5);
    lemma_legal_upto(s, i, 4);
    assert(candidate(0) == Direction::Up);
    assert(s.legal_upto(i, 1) =~= seq![Move { direction: Direction::Up, id: i as u8 }]);
}

/// In the meal scenario, the state behind a joint move: worth at least 2460 where the
/// controlled agent steps onto the food, and at most 1490 where it steps elsewhere.
proof fn lemma_meal_turn(s: StateView, v: Seq<Move>)
    requires
        meal_scenario(s),
        moves_valid(s, v),
        assigned(v, s.you),
        assigned(v, 1 - s.you),
        s.allowed(s.you, direction_of(v, s.you)),
        s.allowed(1 - s.you, direction_of(v, 1 - s.you)),
    ensures
        direction_of(v, s.you) == Direction::Up ==> s.apply_spec(v).value(0) >= 2460,
        direction_of(v, s.you) != Direction::Up ==> s.apply_spec(v).value(0) <= 1490,
{
    let i = s.you;
    let r = 1 - s.you;
    let d = direction_of(v, i);
    let e = direction_of(v, r);
    let me = s.snakes[i];
    let rival = s.snakes[r];
    assert(me.sane());
    assert(rival.sane());
    assert(me.on_board(s.width, s.height));
    assert(rival.on_board(s.width, s.height));
    let to = start().plus(d.step());
    let rival_to = rival.head().plus(e.step());
    assert(manhattan_spec(rival.body[0], start()) >= 3);
    let m1 = s.after_move(v);
    assert(m1.snakes[i].body =~= seq![to, start(), me.body[1]]);
    assert(m1.snakes[r].body.len() == rival.body.len());
    assert(m1.snakes[r].body[0] == rival_to);
    assert(forall|j: int| 1 <= j < rival.body.len() ==> m1.snakes[r].body[j] == rival.body[j - 1]);
    let m2 = m1.after_hunger();
    assert(m2.eats(i) == (d == Direction::Up));
    assert(!m2.eats(r));
    let m3 = m2.after_feed();
    assert(m3.snakes[r].body == m1.snakes[r].body);
    assert(m3.snakes[r].health == rival.health - 1);
    if d == Direction::Up {
        assert(m3.snakes[i].body =~= seq![to, start(), me.body[1], me.body[1]]);
        assert(m2.eaten() =~= Set::<Coordinate>::empty().insert(meal()));
        assert(m3.food =~= Set::<Coordinate>::empty());
    } else {
        assert(m3.snakes[i].body =~= seq![to, start(), me.body[1]]);
        assert(m2.eaten() =~= Set::<Coordinate>::empty());
        assert(m3.food =~= s.food);
    }
    assert(!s.blocked(to));
    assert(!s.blocked(rival_to));
    assert(interior(me.body).contains(me.body[1]));
    assert(to != me.body[1]);
    assert(rival_to != me.body[1]);
    assert forall|c: Coordinate| interior(m3.snakes[r].body).contains(c) implies manhattan_spec(
        c,
        start(),
    ) >= 3 && (c == rival.body[0] || interior(rival.body).contains(c)) by {
        let q = choose|q: int|
            1 <= q < m3.snakes[r].body.len() - 1 && q < m3.snakes[r].body.len()
                && m3.snakes[r].body[q] == c;
        assert(c == rival.body[q - 1]);
    }
    assert forall|c: Coordinate| interior(m3.snakes[i].body).contains(c) implies c == start() || c
        == me.body[1] by {
        let q = choose|q: int|
            1 <= q < m3.snakes[i].body.len() - 1 && q < m3.snakes[i].body.len()
                && m3.snakes[i].body[q] == c;
    }
    assert(!interior(m3.snakes[r].body).contains(to));
    assert(!interior(m3.snakes[i].body).contains(to));
    assert(!interior(m3.snakes[i].body).contains(rival_to));
    assert(!interior(m3.snakes[r].body).contains(rival_to)) by {
        if interior(m3.snakes[r].body).contains(rival_to) {
            if interior(rival.body).contains(rival_to) {
                assert(s.blocked(rival_to));
            }
        }
    }
    assert(forall|j: int| 0 <= j < 2 ==> !#[trigger] m3.hits_body(i, j));
    assert(forall|j: int| 0 <= j < 2 ==> !#[trigger] m3.hits_body(r, j));
    assert(forall|j: int| 0 <= j < 2 ==> !#[trigger] m3.loses_head_on(i, j));
    assert(forall|j: int| 0 <= j < 2 ==> !#[trigger] m3.loses_head_on(r, j));
    assert(!m3.dies(r));
    let after = s.apply_spec(v);
    assert(after.snakes[r].alive);
    assert(after.snakes[r].head() == rival_to);
    assert(after.snakes[i].head() == to);
    assert(after.snakes[i].body.len() == m3.snakes[i].body.len());
    reveal_with_fuel(count_alive, 3);
    assert(after.other_heads().contains(rival_to));
    lemma_nearest_at_most(after.other_heads(), to, rival_to);
    if d == Direction::Up {
        assert(!m3.dies(i));
        assert(after.alive_count() == 2);
        assert(after.terminal() is None);
        lemma_nearest_of_none(to);
        assert(manhattan_spec(rival_to, to) <= 11);
    } else {
        if after.snakes[i].alive {
            assert(after.alive_count() == 2);
            assert(after.terminal() is None);
            assert(is_least(after.food, to, 2)) by {
                assert(after.food.contains(meal()));
                assert(manhattan_spec(meal(), to) == 2);
            }
            lemma_nearest(after.food, to, 2);
        } else {
            assert(after.alive_count() == 1);
        }
    }
}

/// In the meal scenario a search of one ply decides for the step onto the food, whatever
/// the length of the other agent.
pub proof fn lemma_meal_first(s: StateView)
    requires
        meal_scenario(s),
    ensures
        s.decide_spec(1).0 == Direction::Up,
        s.minimax_spec(1, i32::MIN as int, i32::MAX as int, true, None).direction == Some(
            Direction::Up,
        ),
        s.decide_spec(1).1 >= 2460,
{
    let i = s.you;
    let legal = s.legal_moves(i);
    reveal_with_fuel(count_alive, 3);
    assert(s.terminal() is None);
    lemma_up_first(s);
    assert forall|k: int, j: int|
        0 <= k < legal.len() && 0 <= j < s.joint_moves(legal[k]).len() implies (legal[k].direction
        == Direction::Up ==> (#[trigger] s.apply_spec(s.joint_moves(legal[k])[j])).value(0) >= 2460)
        && (legal[k].direction != Direction::Up ==> s.apply_spec(s.joint_moves(legal[k])[j]).value(
        0,
    ) <= 1490) by {
        let v = s.joint_moves(legal[k])[j];
        lemma_joint_moves(s, legal[k], j);
        let e = direction_of(v, 1 - i);
        assert(s.legal_moves(1 - i).contains(Move { direction: e, id: (1 - i) as u8 }));
        lemma_legal_upto(s, 1 - i, 4);
        lemma_meal_turn(s, v);
    }
    lemma_worst_at_least(s, 1, legal[0], s.joint_moves(legal[0]).len(), 2460);
    assert forall|q: int| 1 <= q < legal.len() implies #[trigger] first_answer(s, q) <= 1490 by {
        lemma_joint_moves_nonempty(s, legal[q]);
        assert(s.apply_spec(s.joint_moves(legal[q])[0]).value(0) <= 1490);
    }
    lemma_first_wins(s, 1490);
}

} // verus!
