use vstd::prelude::*;
use crate::bounded::SNAKE_MAX;
use crate::coordinate::{decode_spec, is_cell_mask, lemma_decode_encode, Coordinate};
use crate::mask::{lemma_mask_of_empty, lemma_mask_of_insert, mask_of};

verus! {

/// Longest body that a freshly decoded agent may have. It leaves room for one more segment on
/// every ply of the deepest search.
pub const LENGTH_MAX: u16 = 65280;

/// The compact state of one decision: the turn, the board and the index of the controlled agent.
#[derive(Clone, Debug)]
pub struct SmallRequest {
    /// Current turn; moves neither advance nor rewind it.
    pub turn: i64,
    /// The board.
    pub board: SmallBoard,
    /// Index of the controlled agent in `board.snakes`.
    pub you: usize,
}

/// The board: its size, the food, the hazards and every agent, dead or alive.
#[derive(Clone, Debug)]
pub struct SmallBoard {
    /// Position hash.
    pub zobrist: u64,
    /// Height of the board in cells.
    pub height: u8,
    /// Width of the board in cells.
    pub width: u8,
    /// All food on the board, in no particular order.
    pub food: Vec<Coordinate>,
    /// Occupancy mask of the food.
    pub food_bb: u128,
    /// All hazard cells on the board.
    pub hazards: Vec<Coordinate>,
    /// All agents; an agent's index never changes.
    pub snakes: Vec<SmallBattlesnake>,
}

/// One agent. A dead agent keeps its place, with `alive` cleared.
#[derive(Clone, Debug, PartialEq, Eq)]
pub struct SmallBattlesnake {
    /// The agent's index in the board's list.
    pub id: u8,
    /// Remaining health.
    pub health: u8,
    /// The segments, head first.
    pub body: Vec<Coordinate>,
    /// Position of the head.
    pub head: Coordinate,
    /// Number of segments.
    pub length: u16,
    /// Whether the agent is alive.
    pub alive: bool,
    /// Occupancy mask of the head.
    pub head_bb: u128,
    /// Occupancy mask of the segments between the head and the last one.
    pub body_bb: u128,
}

/// What an agent is, apart from the fields that repeat it.
#[verifier::ext_equal]
pub struct SnakeView {
    pub health: u8,
    pub body: Seq<Coordinate>,
    pub alive: bool,
}

/// What a state is, apart from the fields that repeat it. The food is a set: its order in the
/// list carries no meaning.
#[verifier::ext_equal]
pub struct StateView {
    pub turn: i64,
    pub zobrist: u64,
    pub width: u8,
    pub height: u8,
    pub food: Set<Coordinate>,
    pub hazards: Seq<Coordinate>,
    pub snakes: Seq<SnakeView>,
    pub you: int,
}

/// The cells that a body blocks: those of its segments after the head and before the last one.
/// The last segment leaves its cell on the next step, unless the one before it lies on the same
/// cell, as it does after a meal.
pub open spec fn interior(body: Seq<Coordinate>) -> Set<Coordinate> {
    interior_upto(body, body.len() - 1)
}

/// The cells of the segments from the second up to, and without, segment `n`.
pub open spec fn interior_upto(body: Seq<Coordinate>, n: int) -> Set<Coordinate> {
    Set::new(|c: Coordinate| exists|j: int| 1 <= j < n && j < body.len() && body[j] == c)
}

/// The number of living agents among the first `n`.
pub open spec fn count_alive(snakes: Seq<SnakeView>, n: nat) -> nat
    decreases n,
{
    if n == 0 {
        0
    } else {
        count_alive(snakes, (n - 1) as nat) + if snakes[n - 1].alive {
            1nat
        } else {
            0nat
        }
    }
}

/// Among `n` agents at most `n` are alive.
pub proof fn lemma_count_alive_bound(snakes: Seq<SnakeView>, n: nat)
    ensures
        count_alive(snakes, n) <= n,
    decreases n,
{
    if n > 0 {
        lemma_count_alive_bound(snakes, (n - 1) as nat);
    }
}

impl SnakeView {
    /// The first segment.
    pub open spec fn head(self) -> Coordinate {
        self.body[0]
    }

    /// Every segment lies on the board.
    pub open spec fn on_board(self, width: u8, height: u8) -> bool {
        forall|j: int|
            0 <= j < self.body.len() ==> 0 <= (#[trigger] self.body[j]).x < width && 0
                <= self.body[j].y < height
    }

    /// The bounds that hold of every agent, dead or alive.
    pub open spec fn sane(self) -> bool {
        &&& 1 <= self.body.len() <= u16::MAX
        &&& self.health <= 100
        &&& forall|j: int|
            0 <= j < self.body.len() ==> -1 <= (#[trigger] self.body[j]).x <= 11 && -1
                <= self.body[j].y <= 11
    }
}

impl StateView {
    /// The state without agents or food, on a board of no size.
    pub open spec fn empty() -> StateView {
        StateView {
            turn: 0,
            zobrist: 0,
            width: 0,
            height: 0,
            food: Set::empty(),
            hazards: Seq::empty(),
            snakes: Seq::empty(),
            you: 0,
        }
    }

    /// The number of living agents.
    pub open spec fn alive_count(self) -> nat {
        count_alive(self.snakes, self.snakes.len())
    }

    /// Whether `c` lies on the board.
    pub open spec fn on_board(self, c: Coordinate) -> bool {
        0 <= c.x < self.width && 0 <= c.y < self.height
    }

    /// The bounds that hold between the phases of a move as well as between moves.
    pub open spec fn sane(self) -> bool {
        &&& self.snakes.len() <= SNAKE_MAX
        &&& 0 <= self.you < self.snakes.len()
        &&& self.width <= 11
        &&& self.height <= 11
        &&& forall|i: int| 0 <= i < self.snakes.len() ==> (#[trigger] self.snakes[i]).sane()
        &&& forall|c: Coordinate| #[trigger] self.food.contains(c) ==> self.on_board(c)
    }

    /// The invariant between moves: a living agent has health left and lies on the board.
    pub open spec fn wf(self) -> bool {
        &&& self.sane()
        &&& forall|i: int|
            0 <= i < self.snakes.len() && (#[trigger] self.snakes[i]).alive
                ==> self.snakes[i].health
                >= 1 && self.snakes[i].on_board(self.width, self.height)
    }

    /// Every agent can take `n` more segments.
    pub open spec fn room(self, n: nat) -> bool {
        forall|i: int|
            0 <= i < self.snakes.len() ==> (#[trigger] self.snakes[i]).body.len() + n <= u16::MAX
    }
}

impl View for SmallBattlesnake {
    type V = SnakeView;

    open spec fn view(&self) -> SnakeView {
        SnakeView { health: self.health, body: self.body@, alive: self.alive }
    }
}

impl SmallBattlesnake {
    /// The repeated fields agree with the body, for the agent at `index`.
    pub open spec fn consistent(&self, index: int) -> bool {
        &&& self.id == index
        &&& self.body.len() >= 1
        &&& self.length == self.body.len()
        &&& self.head == self.body[0]
        &&& self.head_bb == self.head.mask_spec()
        &&& self.body_bb == mask_of(interior(self.body@))
    }

    /// Sets the head, the length and the two masks from the body.
    pub fn refresh(&mut self)
        requires
            1 <= old(self).body.len() <= u16::MAX,
        ensures
            final(self).consistent(old(self).id as int),
            final(self)@ == old(self)@,
    {
        let n = self.body.len();
        let mut acc: u128 = 0;
        proof {
            lemma_mask_of_empty();
            assert(interior_upto(self.body@, 1) =~= Set::<Coordinate>::empty());
        }
        let mut j: usize = 1;
        while j < n - 1
            invariant
                n == self.body.len(),
                1 <= j,
                j <= n - 1 || n == 1,
                acc == mask_of(interior_upto(self.body@, j as int)),
                *self == *old(self),
            decreases n - j,
        {
            let c = self.body[j];
            proof {
                lemma_mask_of_insert(interior_upto(self.body@, j as int), c);
                assert(interior_upto(self.body@, j + 1) =~= interior_upto(
                    self.body@,
                    j as int,
                ).insert(c));
            }
            acc = acc | c.mask();
            j += 1;
        }
        proof {
            assert(interior_upto(self.body@, j as int) =~= interior(self.body@));
        }
        self.head = self.body[0];
        self.length = n as u16;
        self.head_bb = self.head.mask();
        self.body_bb = acc;
    }
}

impl View for SmallRequest {
    type V = StateView;

    open spec fn view(&self) -> StateView {
        StateView {
            turn: self.turn,
            zobrist: self.board.zobrist,
            width: self.board.width,
            height: self.board.height,
            food: self.board.food@.to_set(),
            hazards: self.board.hazards@,
            snakes: Seq::new(self.board.snakes@.len(), |i: int| self.board.snakes@[i]@),
            you: self.you as int,
        }
    }
}

impl SmallRequest {
    /// The repeated fields agree with what they repeat: each agent's with its body, the food
    /// mask with the food list, and no food is listed twice.
    pub open spec fn consistent(&self) -> bool {
        &&& forall|i: int|
            0 <= i < self.board.snakes.len() ==> (#[trigger] self.board.snakes[i]).consistent(i)
        &&& self.board.food@.no_duplicates()
        &&& self.board.food_bb == mask_of(self.board.food@.to_set())
    }

    /// The state is consistent and meets the invariant between moves.
    pub open spec fn wf(&self) -> bool {
        self.consistent() && self@.wf()
    }

    /// An empty state: no agents, no food, a board of no size.
    pub fn new() -> (s: SmallRequest)
        ensures
            s@ == StateView::empty(),
            s.board.food@ == Seq::<Coordinate>::empty(),
            s.board.food_bb == 0,
            s.board.snakes@ == Seq::<SmallBattlesnake>::empty(),
            s.consistent(),
    {
        proof {
            lemma_mask_of_empty();
        }
        let s = SmallRequest {
            turn: 0,
            board: SmallBoard {
                zobrist: 0,
                height: 0,
                width: 0,
                food: Vec::new(),
                food_bb: 0,
                hazards: Vec::new(),
                snakes: Vec::new(),
            },
            you: 0,
        };
        s
    }

    /// The number of living agents.
    pub fn amount_alive(&self) -> (n: u8)
        requires
            self.board.snakes.len() <= u8::MAX,
        ensures
            n == self@.alive_count(),
    {
        let mut out: u8 = 0;
        let mut i: usize = 0;
        while i < self.board.snakes.len()
            invariant
                i <= self.board.snakes.len() <= u8::MAX,
                out == count_alive(self@.snakes, i as nat),
                out <= i,
            decreases self.board.snakes.len() - i,
        {
            if self.board.snakes[i].alive {
                out += 1;
            }
            i += 1;
        }
        out
    }
}

impl Default for SmallRequest {
    fn default() -> (s: SmallRequest)
        ensures
            s@ == StateView::empty(),
            s.consistent(),
    {
        SmallRequest::new()
    }
}

/// In a well-formed state every living agent has as many segments as its length says, and
/// the one bit of its head mask is the bit of its first segment.
pub proof fn lemma_occupancy(state: SmallRequest, i: int)
    requires
        state.wf(),
        0 <= i < state.board.snakes.len(),
        state.board.snakes[i].alive,
    ensures
        state.board.snakes[i].length == state.board.snakes[i].body.len(),
        is_cell_mask(state.board.snakes[i].head_bb),
        decode_spec(state.board.snakes[i].head_bb) == state.board.snakes[i].body[0],
{
    let snake = state.board.snakes[i];
    assert(state@.snakes[i] == snake@);
    lemma_decode_encode(snake.body[0]);
}

/// Two consistent states with the same view agree in every field: in the masks bit for bit,
/// and in the food as a set.
pub proof fn lemma_view_determines(a: SmallRequest, b: SmallRequest)
    requires
        a.consistent(),
        b.consistent(),
        a@ == b@,
    ensures
        a.turn == b.turn,
        a.you == b.you,
        a.board.zobrist == b.board.zobrist,
        a.board.width == b.board.width,
        a.board.height == b.board.height,
        a.board.hazards@ == b.board.hazards@,
        a.board.food@.to_set() == b.board.food@.to_set(),
        a.board.food_bb == b.board.food_bb,
        a.board.snakes.len() == b.board.snakes.len(),
        forall|i: int|
            0 <= i < a.board.snakes.len() ==> {
                let x = #[trigger] a.board.snakes[i];
                let y = b.board.snakes[i];
                &&& x.id == y.id
                &&& x.health == y.health
                &&& x.body@ == y.body@
                &&& x.head == y.head
                &&& x.length == y.length
                &&& x.alive == y.alive
                &&& x.head_bb == y.head_bb
                &&& x.body_bb == y.body_bb
            },
{
    assert(a@.snakes.len() == a.board.snakes@.len());
    assert forall|i: int| 0 <= i < a.board.snakes.len() implies {
        let x = #[trigger] a.board.snakes[i];
        let y = b.board.snakes[i];
        &&& x.id == y.id
        &&& x.health == y.health
        &&& x.body@ == y.body@
        &&& x.head == y.head
        &&& x.length == y.length
        &&& x.alive == y.alive
        &&& x.head_bb == y.head_bb
        &&& x.body_bb == y.body_bb
    } by {
        assert(a@.snakes[i] == a.board.snakes[i]@);
    }
}

} // verus!
