use vstd::prelude::*;
use crate::bounded::{
    joint_held, move_sets_held, move_sets_new, move_sets_push, moves_held, moves_len, moves_new,
    moves_push, JointMoves, MoveList,
};
use crate::cart_prod::{
    cartesian_product, lemma_product_item, lemma_product_nonempty, product_spec,
};
use crate::coordinate::Coordinate;
use crate::direction::{Direction, Move};
use crate::turn::{assigned, direction_of, moves_valid};
use crate::mask::{lemma_mask_of_test, overlaps};
use crate::small::{interior, SmallRequest, StateView};

verus! {

/// The directions in the order in which moves are generated.
pub open spec fn candidate(k: int) -> Direction {
    if k == 0 {
        Direction::Up
    } else if k == 1 {
        Direction::Right
    } else if k == 2 {
        Direction::Left
    } else {
        Direction::Down
    }
}

impl StateView {
    /// Whether a blocked cell of some living agent lies on `c`.
    pub open spec fn blocked(self, c: Coordinate) -> bool {
        exists|j: int|
            0 <= j < self.snakes.len() && (#[trigger] self.snakes[j]).alive && interior(
                self.snakes[j].body,
            ).contains(c)
    }

    /// Whether agent `id` may step in direction `d`: onto the board, and not onto a blocked
    /// cell of a living agent. The cell that a last segment is about to leave does not
    /// block, and neither does a head.
    pub open spec fn allowed(self, id: int, d: Direction) -> bool {
        let to = self.snakes[id].head().plus(d.step());
        self.on_board(to) && !self.blocked(to)
    }

    /// The allowed moves of agent `id` among the first `k` candidates, in their order.
    pub open spec fn legal_upto(self, id: int, k: nat) -> Seq<Move>
        decreases k,
    {
        if k == 0 {
            Seq::empty()
        } else if self.allowed(id, candidate(k - 1)) {
            self.legal_upto(id, (k - 1) as nat).push(
                Move { direction: candidate(k - 1), id: id as u8 },
            )
        } else {
            self.legal_upto(id, (k - 1) as nat)
        }
    }

    /// The legal moves of agent `id`: none for a dead agent, else the allowed ones of up,
    /// right, left and down, in this order.
    pub open spec fn legal_moves(self, id: int) -> Seq<Move> {
        if self.snakes[id].alive {
            self.legal_upto(id, 4)
        } else {
            Seq::empty()
        }
    }

    /// The moves that agent `id` contributes to a joint move: its legal moves, or the single
    /// step up where it has none.
    pub open spec fn options(self, id: int) -> Seq<Move> {
        if self.legal_moves(id).len() == 0 {
            seq![Move { direction: Direction::Up, id: id as u8 }]
        } else {
            self.legal_moves(id)
        }
    }

    /// The living agents other than the controlled one among the first `k`, in their order.
    pub open spec fn others(self, k: nat) -> Seq<int>
        decreases k,
    {
        if k == 0 {
            Seq::empty()
        } else if k - 1 != self.you && self.snakes[k - 1].alive {
            self.others((k - 1) as nat).push(k - 1)
        } else {
            self.others((k - 1) as nat)
        }
    }

    /// The candidate sets of a joint move: the options of every other living agent, then the
    /// one move that is fixed for the controlled agent.
    pub open spec fn joint_sets(self, fixed: Move) -> Seq<Seq<Move>> {
        let others = self.others(self.snakes.len());
        Seq::new(others.len(), |t: int| self.options(others[t])).push(seq![fixed])
    }

    /// The joint move vectors for a fixed move of the controlled agent: the Cartesian
    /// product of the candidate sets.
    pub open spec fn joint_moves(self, fixed: Move) -> Seq<Seq<Move>> {
        product_spec(self.joint_sets(fixed))
    }
}

/// An agent has at most four legal moves, each its own, each allowed.
pub proof fn lemma_legal_upto(s: StateView, id: int, k: nat)
    requires
        0 <= id < 256,
    ensures
        s.legal_upto(id, k).len() <= k,
        forall|q: int|
            0 <= q < s.legal_upto(id, k).len() ==> (#[trigger] s.legal_upto(id, k)[q]).id == id
                && s.allowed(id, s.legal_upto(id, k)[q].direction),
    decreases k,
{
    if k > 0 {
        lemma_legal_upto(s, id, (k - 1) as nat);
    }
}

/// The other living agents come in rising order, and each is a living agent of the state
/// that is not the controlled one.
pub proof fn lemma_others(s: StateView, k: nat)
    requires
        k <= s.snakes.len(),
    ensures
        s.others(k).len() <= k,
        0 <= s.you < k ==> s.others(k).len() < k,
        forall|t: int|
            0 <= t < s.others(k).len() ==> 0 <= (#[trigger] s.others(k)[t]) < k && s.others(k)[t]
                != s.you && s.snakes[s.others(k)[t]].alive,
        forall|t: int, u: int|
            0 <= t < u < s.others(k).len() ==> (#[trigger] s.others(k)[t]) < (#[trigger] s.others(
                k,
            )[u]),
        forall|j: int|
            0 <= j < k && j != s.you && s.snakes[j].alive ==> exists|t: int|
                0 <= t < s.others(k).len() && #[trigger] s.others(k)[t] == j,
    decreases k,
{
    if k > 0 {
        lemma_others(s, (k - 1) as nat);
        let before = s.others((k - 1) as nat);
        let now = s.others(k);
        assert forall|j: int| 0 <= j < k && j != s.you && s.snakes[j].alive implies exists|t: int|
            0 <= t < now.len() && #[trigger] now[t] == j by {
            if j < k - 1 {
                let t = choose|t: int| 0 <= t < before.len() && #[trigger] before[t] == j;
                assert(now[t] == j);
            } else {
                assert(now[now.len() - 1] == j);
            }
        }
    }
}

/// Every joint move vector is valid for the state: it holds one move for each living agent,
/// the fixed one for the controlled agent, and for an agent without a legal move the step up.
pub proof fn lemma_joint_moves(s: StateView, fixed: Move, i: int)
    requires
        s.sane(),
        s.snakes[s.you].alive,
        fixed.id == s.you,
        0 <= i < s.joint_moves(fixed).len(),
    ensures
        moves_valid(s, s.joint_moves(fixed)[i]),
        s.joint_moves(fixed)[i].len() <= 4,
        direction_of(s.joint_moves(fixed)[i], s.you) == fixed.direction,
        forall|j: int|
            0 <= j < s.snakes.len() && s.snakes[j].alive ==> assigned(s.joint_moves(fixed)[i], j),
        forall|j: int|
            0 <= j < s.snakes.len() && s.snakes[j].alive && j != s.you
                && s.legal_moves(j).len() == 0
                ==> direction_of(s.joint_moves(fixed)[i], j) == Direction::Up,
        forall|j: int|
            0 <= j < s.snakes.len() && s.snakes[j].alive && j != s.you && s.legal_moves(j).len() > 0
                ==> s.legal_moves(j).contains(
                Move { direction: direction_of(s.joint_moves(fixed)[i], j), id: j as u8 },
            ),
{
    let n = s.snakes.len();
    let others = s.others(n);
    let sets = s.joint_sets(fixed);
    let v = s.joint_moves(fixed)[i];
    lemma_others(s, n);
    lemma_product_item(sets, i);
    assert forall|t: int| 0 <= t < others.len() implies (#[trigger] v[t]).id == others[t] by {
        assert(sets[t].contains(v[t]));
        lemma_legal_upto(s, others[t], 4);
    }
    assert forall|j: int| 0 <= j < n && s.snakes[j].alive implies assigned(v, j) by {
        if j != s.you {
            let t = choose|t: int| 0 <= t < others.len() && #[trigger] others[t] == j;
            assert(v[t].id == j);
        }
    }
    assert forall|j: int|
        0 <= j < n && s.snakes[j].alive && j != s.you implies (s.legal_moves(j).len() == 0
        ==> direction_of(v, j) == Direction::Up) && (s.legal_moves(j).len() > 0
            ==> s.legal_moves(j).contains(
        Move { direction: direction_of(v, j), id: j as u8 },
    )) by {
        let t = choose|t: int| 0 <= t < others.len() && #[trigger] others[t] == j;
        assert(sets[t].contains(v[t]));
    }
}

/// There is always a joint move vector, whatever the other agents can do.
pub proof fn lemma_joint_moves_nonempty(s: StateView, fixed: Move)
    requires
        s.sane(),
    ensures
        s.joint_moves(fixed).len() >= 1,
{
    let sets = s.joint_sets(fixed);
    lemma_product_nonempty(sets);
}

/// A mask meets a union exactly when it meets one of the two.
proof fn lemma_or_overlaps(a: u128, b: u128, m: u128)
    ensures
        overlaps(a | b, m) == (overlaps(a, m) || overlaps(b, m)),
{
    assert(((a | b) & m != 0) == ((a & m != 0) || (b & m != 0))) by (bit_vector);
}

/// Nothing meets the empty mask.
proof fn lemma_none_overlaps(m: u128)
    ensures
        !overlaps(0u128, m),
{
    assert(0u128 & m == 0) by (bit_vector);
}

/// Generating the moves of one agent and the joint moves of all.
pub trait GenMove {
    /// Whether moves can be generated for agent `id`.
    spec fn can_generate(&self, id: usize) -> bool;

    /// Whether joint moves can be generated around the move `fixed`.
    spec fn can_generate_all(&self, fixed: Move) -> bool;

    /// The legal moves of agent `id`: those that do not kill it at once.
    fn snake_moves(&self, id: usize) -> MoveList
        requires
            self.can_generate(id),
    ;

    /// The joint move vectors of all living agents, given the move of the controlled one.
    fn all_snake_moves(&self, predet_move: Move) -> JointMoves
        requires
            self.can_generate_all(predet_move),
    ;
}

impl SmallRequest {
    /// The union of the blocked cells of all living agents, as a mask.
    fn occupancy(&self) -> (all_bb: u128)
        requires
            self.consistent(),
        ensures
            forall|c: Coordinate|
                overlaps(all_bb, #[trigger] c.mask_spec()) == (c.in_range() && self@.blocked(c)),
    {
        let ghost s = self@;
        let mut all_bb: u128 = 0;
        let n = self.board.snakes.len();
        let mut i: usize = 0;
        proof {
            assert forall|c: Coordinate| !overlaps(0u128, #[trigger] c.mask_spec()) by {
                lemma_none_overlaps(c.mask_spec());
            }
        }
        while i < n
            invariant
                i <= n == self.board.snakes.len(),
                s == self@,
                self.consistent(),
                forall|c: Coordinate|
                    overlaps(all_bb, #[trigger] c.mask_spec()) == (c.in_range() && exists|j: int|
                        0 <= j < i && (#[trigger] s.snakes[j]).alive
                            && interior(s.snakes[j].body).contains(
                            c,
                        )),
            decreases n - i,
        {
            let ghost before = all_bb;
            let snake = &self.board.snakes[i];
            proof {
                assert(s.snakes[i as int] == snake@);
            }
            if snake.alive {
                all_bb = all_bb | snake.body_bb;
            }
            proof {
                assert forall|c: Coordinate|
                    overlaps(all_bb, #[trigger] c.mask_spec()) == (c.in_range() && exists|j: int|
                        0 <= j < i + 1 && (#[trigger] s.snakes[j]).alive && interior(
                            s.snakes[j].body,
                        ).contains(c)) by {
                    lemma_or_overlaps(before, snake.body_bb, c.mask_spec());
                    lemma_mask_of_test(interior(snake.body@), c);
                }
            }
            i += 1;
        }
        all_bb
    }
}

impl GenMove for SmallRequest {
    open spec fn can_generate(&self, id: usize) -> bool {
        self.wf() && id < self.board.snakes.len()
    }

    open spec fn can_generate_all(&self, fixed: Move) -> bool {
        self.wf()
    }

    fn snake_moves(&self, id: usize) -> (out: MoveList)
        ensures
            moves_held(out) == self@.legal_moves(id as int),
    {
        let ghost s = self@;
        let mut out = moves_new();
        let me = &self.board.snakes[id];
        proof {
            assert(s.snakes[id as int] == me@);
        }
        if !me.alive {
            return out;
        }
        let all_bb = self.occupancy();
        let possible_moves = [Direction::Up, Direction::Right, Direction::Left, Direction::Down];
        let mut k: usize = 0;
        while k < 4
            invariant
                k <= 4,
                s == self@,
                s.sane(),
                id < self.board.snakes.len(),
                me == &self.board.snakes[id as int],
                me.head == s.snakes[id as int].head(),
                0 <= me.head.x < 11,
                0 <= me.head.y < 11,
                forall|q: int| 0 <= q < 4 ==> possible_moves[q] == candidate(q),
                forall|c: Coordinate|
                    overlaps(all_bb, #[trigger] c.mask_spec()) == (c.in_range() && s.blocked(c)),
                moves_held(out) == s.legal_upto(id as int, k as nat),
            decreases 4 - k,
        {
            let direction = possible_moves[k];
            let new_pos = me.head + Coordinate::from(direction);
            proof {
                lemma_legal_upto(s, id as int, k as nat);
            }
            if !(new_pos.x >= self.board.width as i32 || new_pos.x < 0 || new_pos.y
                >= self.board.height as i32 || new_pos.y < 0) {
                let new_pos_bb = new_pos.encode();
                assert(new_pos_bb == new_pos.mask_spec());
                if all_bb & new_pos_bb == 0 {
                    moves_push(&mut out, Move::new(direction, id as u8));
                }
            }
            k += 1;
        }
        out
    }

    fn all_snake_moves(&self, predet_move: Move) -> (out: JointMoves)
        ensures
            joint_held(out) == self@.joint_moves(predet_move),
    {
        let ghost s = self@;
        let mut moves = move_sets_new();
        let n = self.board.snakes.len();
        let mut id: usize = 0;
        while id < n
            invariant
                id <= n == self.board.snakes.len(),
                s == self@,
                self.wf(),
                move_sets_held(moves).len() == s.others(id as nat).len(),
                forall|t: int|
                    0 <= t < s.others(id as nat).len() ==> (#[trigger] move_sets_held(moves)[t])
                        == s.options(s.others(id as nat)[t]),
            decreases n - id,
        {
            proof {
                lemma_others(s, (id + 1) as nat);
            }
            if id != self.you && self.board.snakes[id].alive {
                let generated_moves = self.snake_moves(id);
                if moves_len(&generated_moves) == 0 {
                    let mut fallback = moves_new();
                    moves_push(&mut fallback, Move::new(Direction::Up, id as u8));
                    move_sets_push(&mut moves, fallback);
                } else {
                    move_sets_push(&mut moves, generated_moves);
                }
            }
            id += 1;
        }
        let mut x = moves_new();
        moves_push(&mut x, predet_move);
        proof {
            lemma_others(s, n as nat);
        }
        move_sets_push(&mut moves, x);
        proof {
            assert(move_sets_held(moves) =~= s.joint_sets(predet_move));
        }
        cartesian_product(moves)
    }
}

} // verus!
