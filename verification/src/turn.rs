use vstd::prelude::*;
use crate::coordinate::Coordinate;
use crate::direction::{Direction, Move};
use crate::small::{interior, SnakeView, StateView};

verus! {

/// Whether some move of the vector is for agent `id`.
pub open spec fn assigned(moves: Seq<Move>, id: int) -> bool {
    exists|k: int| 0 <= k < moves.len() && (#[trigger] moves[k]).id == id
}

/// The direction that the vector gives agent `id`.
pub open spec fn direction_of(moves: Seq<Move>, id: int) -> Direction {
    moves[choose|k: int| 0 <= k < moves.len() && (#[trigger] moves[k]).id == id].direction
}

/// No agent has two moves in the vector.
pub open spec fn distinct_ids(moves: Seq<Move>) -> bool {
    forall|j: int, k: int|
        0 <= j < k < moves.len() ==> (#[trigger] moves[j]).id != (#[trigger] moves[k]).id
}

/// A joint move vector of the state: each move is for a living agent, and no agent has two.
pub open spec fn moves_valid(s: StateView, moves: Seq<Move>) -> bool {
    &&& forall|k: int|
        0 <= k < moves.len()
            ==> (#[trigger] moves[k]).id < s.snakes.len() && s.snakes[moves[k].id as int].alive
    &&& distinct_ids(moves)
}

/// In a vector without repeated agents, move `k` is the one of its agent.
pub proof fn lemma_direction_of(moves: Seq<Move>, k: int)
    requires
        distinct_ids(moves),
        0 <= k < moves.len(),
    ensures
        assigned(moves, moves[k].id as int),
        direction_of(moves, moves[k].id as int) == moves[k].direction,
{
}

impl SnakeView {
    /// The agent after one step: a new head in front, the last segment gone.
    pub open spec fn stepped(self, d: Direction) -> SnakeView {
        SnakeView { body: self.body.insert(0, self.body[0].plus(d.step())).drop_last(), ..self }
    }

    /// The agent after a meal: full health, and the last segment twice.
    pub open spec fn fed(self) -> SnakeView {
        SnakeView { health: 100, body: self.body.push(self.body.last()), ..self }
    }

    /// The agent after a turn's loss of health, if it is alive.
    pub open spec fn starved(self) -> SnakeView {
        if self.alive {
            SnakeView { health: (self.health - 1) as u8, ..self }
        } else {
            self
        }
    }
}

impl StateView {
    /// Phase one: every agent with a move takes its step.
    pub open spec fn after_move(self, moves: Seq<Move>) -> StateView {
        StateView {
            snakes: Seq::new(
                self.snakes.len(),
                |i: int|
                    if assigned(moves, i) {
                        self.snakes[i].stepped(direction_of(moves, i))
                    } else {
                        self.snakes[i]
                    },
            ),
            ..self
        }
    }

    /// Phase two: every living agent loses one health.
    pub open spec fn after_hunger(self) -> StateView {
        StateView { snakes: Seq::new(self.snakes.len(), |i: int| self.snakes[i].starved()), ..self }
    }

    /// Whether agent `i` is alive with its head on food.
    pub open spec fn eats(self, i: int) -> bool {
        self.snakes[i].alive && self.food.contains(self.snakes[i].head())
    }

    /// The food under the heads of living agents.
    pub open spec fn eaten(self) -> Set<Coordinate> {
        Set::new(
            |c: Coordinate|
                exists|i: int|
                    0 <= i < self.snakes.len() && self.eats(i)
                        && (#[trigger] self.snakes[i]).head() == c,
        )
    }

    /// Phase three: every living agent with its head on food is fed, and that food is gone.
    pub open spec fn after_feed(self) -> StateView {
        StateView {
            snakes: Seq::new(
                self.snakes.len(),
                |i: int|
                    if self.eats(i) {
                        self.snakes[i].fed()
                    } else {
                        self.snakes[i]
                    },
            ),
            food: self.food.difference(self.eaten()),
            ..self
        }
    }

    /// Whether the head of agent `i` lies on a blocked cell of the living agent `j`.
    pub open spec fn hits_body(self, i: int, j: int) -> bool {
        self.snakes[j].alive && interior(self.snakes[j].body).contains(self.snakes[i].head())
    }

    /// Whether agent `i` meets the head of another living agent `j` that is at least as long.
    pub open spec fn loses_head_on(self, i: int, j: int) -> bool {
        &&& j != i
        &&& self.snakes[j].alive
        &&& self.snakes[j].head() == self.snakes[i].head()
        &&& self.snakes[i].body.len() <= self.snakes[j].body.len()
    }

    /// Whether the living agent `i` dies of the state as it stands: of an empty health, of a
    /// head off the board, on a blocked cell of its own or of another living agent, or against
    /// the head of another living agent that is at least as long.
    pub open spec fn dies(self, i: int) -> bool {
        &&& self.snakes[i].alive
        &&& {
            ||| self.snakes[i].health == 0
            ||| !self.on_board(self.snakes[i].head())
            ||| exists|j: int| 0 <= j < self.snakes.len() && #[trigger] self.hits_body(i, j)
            ||| exists|j: int| 0 <= j < self.snakes.len() && #[trigger] self.loses_head_on(i, j)
        }
    }

    /// Phase four: all agents that die of the state are marked dead together.
    pub open spec fn after_elimination(self) -> StateView {
        StateView {
            snakes: Seq::new(
                self.snakes.len(),
                |i: int| SnakeView { alive: self.snakes[i].alive
                    && !self.dies(i), ..self.snakes[i] },
            ),
            ..self
        }
    }

    /// The state after one joint move vector: move, lose health, feed, eliminate.
    pub open spec fn apply_spec(self, moves: Seq<Move>) -> StateView {
        self.after_move(moves).after_hunger().after_feed().after_elimination()
    }

    /// What the joint move vector leaves behind for its reversal.
    pub open spec fn delta_spec(self, moves: Seq<Move>) -> DeltaView {
        let moved = self.after_move(moves).after_hunger();
        let fed = moved.after_feed();
        DeltaView {
            eaten: moved.eaten(),
            died: Set::new(|i: int| 0 <= i < self.snakes.len() && fed.dies(i)),
            prev_health: Map::new(
                |i: int| 0 <= i < self.snakes.len() && moved.eats(i),
                |i: int| moved.snakes[i].health,
            ),
            tails: Map::new(
                |i: int| 0 <= i < self.snakes.len() && assigned(moves, i),
                |i: int| self.snakes[i].body.last(),
            ),
        }
    }

    /// The state before the move that left `d` behind.
    pub open spec fn unmake_spec(self, d: DeltaView) -> StateView {
        StateView {
            snakes: Seq::new(self.snakes.len(), |i: int| self.snakes[i].restored(d, i)),
            food: self.food.union(d.eaten),
            ..self
        }
    }

    /// Whether `d` can be taken back from the state: it names agents of the state, a fed agent
    /// has a segment to give up, no health leaves its range, and the food that comes back is
    /// not on the board.
    pub open spec fn undoable(self, d: DeltaView) -> bool {
        &&& forall|i: int| d.died.contains(i) ==> 0 <= i < self.snakes.len()
        &&& forall|i: int| d.tails.dom().contains(i) ==> 0 <= i < self.snakes.len()
        &&& forall|i: int|
            #[trigger] d.prev_health.dom().contains(i) ==> 0 <= i < self.snakes.len()
                && self.snakes[i].body.len() >= 2
        &&& forall|i: int|
            0 <= i < self.snakes.len() ==> (#[trigger] self.snakes[i]).unfed(d, i).health < 255
        &&& self.food.disjoint(d.eaten)
    }
}

impl SnakeView {
    /// The agent `i` with the meal of `d` taken back, if it had one.
    pub open spec fn unfed(self, d: DeltaView, i: int) -> SnakeView {
        if d.prev_health.dom().contains(i) {
            SnakeView { health: d.prev_health[i], body: self.body.drop_last(), ..self }
        } else {
            self
        }
    }

    /// The agent `i` as it was before the move that left `d` behind: alive again if it died,
    /// unfed if it ate, one health up if it lives, and a step back if it moved.
    pub open spec fn restored(self, d: DeltaView, i: int) -> SnakeView {
        let alive = self.alive || d.died.contains(i);
        let unfed = self.unfed(d, i);
        let health = if alive {
            (unfed.health + 1) as u8
        } else {
            unfed.health
        };
        let body = if d.tails.dom().contains(i) {
            unfed.body.push(d.tails[i]).drop_first()
        } else {
            unfed.body
        };
        SnakeView { health, body, alive }
    }
}

/// What a `Delta` holds, without the order of its lists.
#[verifier::ext_equal]
pub struct DeltaView {
    /// The food that was eaten.
    pub eaten: Set<Coordinate>,
    /// The agents that died.
    pub died: Set<int>,
    /// The health that each fed agent had before its meal.
    pub prev_health: Map<int, u8>,
    /// The cell that the last segment of each moved agent left.
    pub tails: Map<int, Coordinate>,
}

/// A joint move can be taken back: undoing what it left behind gives the state it started from.
pub proof fn lemma_round_trip(s: StateView, moves: Seq<Move>)
    requires
        s.wf(),
        moves_valid(s, moves),
    ensures
        s.apply_spec(moves).undoable(s.delta_spec(moves)),
        s.apply_spec(moves).unmake_spec(s.delta_spec(moves)) == s,
{
    let moved = s.after_move(moves).after_hunger();
    let fed = moved.after_feed();
    let after = s.apply_spec(moves);
    let d = s.delta_spec(moves);
    let back = after.unmake_spec(d);
    assert forall|i: int| 0 <= i < s.snakes.len() implies back.snakes[i] == s.snakes[i] by {
        let fresh = s.snakes[i];
        assert(fresh.sane());
        if assigned(moves, i) {
            let stepped = fresh.stepped(direction_of(moves, i));
            assert(stepped.body.push(fresh.body.last()).drop_first() =~= fresh.body);
        }
        if moved.eats(i) {
            assert(fed.snakes[i].body.drop_last() =~= moved.snakes[i].body);
        }
        assert(back.snakes[i].body =~= fresh.body);
    }
    assert(back.snakes =~= s.snakes);
    assert(back.food =~= s.food);
    assert(back =~= s);
}

/// A joint move keeps the invariant, given room for one more segment.
pub proof fn lemma_apply_wf(s: StateView, moves: Seq<Move>)
    requires
        s.wf(),
        s.room(1),
        moves_valid(s, moves),
    ensures
        s.apply_spec(moves).wf(),
        forall|n: nat| s.room(n + 1) ==> s.apply_spec(moves).room(n),
{
    let moved = s.after_move(moves).after_hunger();
    let fed = moved.after_feed();
    let after = s.apply_spec(moves);
    assert forall|i: int|
        0 <= i < after.snakes.len() implies (#[trigger] after.snakes[i]).sane() && (
    after.snakes[i].alive ==> after.snakes[i].health >= 1 && after.snakes[i].on_board(
        after.width,
        after.height,
    )) && after.snakes[i].body.len() <= s.snakes[i].body.len() + 1 by {
        let fresh = s.snakes[i];
        assert(fresh.sane());
        if assigned(moves, i) {
            let k = choose|k: int| 0 <= k < moves.len() && (#[trigger] moves[k]).id == i;
            assert(fresh.alive);
            assert(fresh.on_board(s.width, s.height));
        }
        let last = fed.snakes[i];
        assert(forall|j: int|
            1 <= j < moved.snakes[i].body.len()
                ==> moved.snakes[i].body[j]
                    == (if assigned(moves, i) { fresh.body[j - 1] } else { fresh.body[j] }));
        if after.snakes[i].alive {
            assert(!fed.dies(i));
            assert(fed.on_board(last.head()));
            assert(fresh.on_board(s.width, s.height));
        }
    }
    assert forall|c: Coordinate| after.food.contains(c) implies after.on_board(c) by {
        assert(s.food.contains(c));
    }
    assert(after.sane());
    assert(after.wf());
    assert forall|n: nat| s.room(n + 1) implies after.room(n) by {
        assert forall|i: int|
            0 <= i < after.snakes.len()
                implies (#[trigger] after.snakes[i]).body.len() + n <= u16::MAX by {
            assert(s.snakes[i].body.len() + (n + 1) <= u16::MAX);
        }
    }
}

/// Two living agents of equal length whose heads come to lie on the same cell both die of
/// the same joint move: neither outlives the other.
pub proof fn lemma_head_on(s: StateView, moves: Seq<Move>, a: int, b: int)
    requires
        s.wf(),
        moves_valid(s, moves),
        0 <= a < s.snakes.len(),
        0 <= b < s.snakes.len(),
        a != b,
        s.snakes[a].alive,
        s.snakes[b].alive,
        s.snakes[a].body.len() == s.snakes[b].body.len(),
        s.after_move(moves).snakes[a].head() == s.after_move(moves).snakes[b].head(),
    ensures
        !s.apply_spec(moves).snakes[a].alive,
        !s.apply_spec(moves).snakes[b].alive,
        s.delta_spec(moves).died.contains(a),
        s.delta_spec(moves).died.contains(b),
{
    let moved = s.after_move(moves).after_hunger();
    let fed = moved.after_feed();
    assert(fed.loses_head_on(a, b));
    assert(fed.loses_head_on(b, a));
}

/// A walk through the tree of joint moves: one joint move, and the walks that are made
/// from the state behind it, one after the other, before it is taken back.
pub struct Walk {
    pub moves: Seq<Move>,
    pub below: Seq<Walk>,
}

impl StateView {
    /// Whether the walk can be made from the state: its joint move is valid and leaves room
    /// to grow, and the walks below can be made from the state behind it.
    pub open spec fn can_walk(self, walk: Walk) -> bool
        decreases walk, 0nat,
    {
        &&& moves_valid(self, walk.moves)
        &&& self.room(1)
        &&& self.apply_spec(walk.moves).can_walk_all(walk.below, walk.below.len())
    }

    /// Whether each of the first `n` walks can be made from the state.
    pub open spec fn can_walk_all(self, walks: Seq<Walk>, n: nat) -> bool
        decreases walks, n,
    {
        if n == 0 || n > walks.len() {
            true
        } else {
            self.can_walk_all(walks, (n - 1) as nat) && self.can_walk(walks[n - 1])
        }
    }

    /// The state after the walk: its joint move is made, the walks below are made from
    /// there, and the joint move is taken back with what it left behind.
    pub open spec fn walked(self, walk: Walk) -> StateView
        decreases walk, 0nat,
    {
        self.apply_spec(walk.moves).walked_all(walk.below, walk.below.len()).unmake_spec(
            self.delta_spec(walk.moves),
        )
    }

    /// The state after the first `n` walks, made one after the other.
    pub open spec fn walked_all(self, walks: Seq<Walk>, n: nat) -> StateView
        decreases walks, n,
    {
        if n == 0 || n > walks.len() {
            self
        } else {
            self.walked_all(walks, (n - 1) as nat).walked(walks[n - 1])
        }
    }
}

/// A walk through the tree of joint moves, however deep and wide, comes back to where it
/// started: every joint move is taken back after the walks below it, and the state is as
/// it was.
pub proof fn lemma_walk_round_trip(s: StateView, walk: Walk)
    requires
        s.wf(),
        s.can_walk(walk),
    ensures
        s.walked(walk) == s,
    decreases walk, 0nat,
{
    lemma_apply_wf(s, walk.moves);
    lemma_round_trip(s, walk.moves);
    lemma_walks_round_trip(s.apply_spec(walk.moves), walk.below, walk.below.len());
}

/// Walks made one after the other from the same state each come back to it.
pub proof fn lemma_walks_round_trip(s: StateView, walks: Seq<Walk>, n: nat)
    requires
        s.wf(),
        s.can_walk_all(walks, n),
    ensures
        s.walked_all(walks, n) == s,
    decreases walks, n,
{
    if n > 0 && n <= walks.len() {
        lemma_walks_round_trip(s, walks, (n - 1) as nat);
        lemma_walk_round_trip(s, walks[n - 1]);
    }
}

} // verus!
