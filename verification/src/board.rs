use vstd::prelude::*;
use crate::bounded::SNAKE_MAX;
use crate::coordinate::Coordinate;
use crate::mask::{lemma_mask_of_insert, mask_of};
use crate::small::{SmallBattlesnake, SmallRequest, SnakeView, StateView, LENGTH_MAX};

verus! {

/// A game state as the server sends it.
#[derive(Clone, Debug)]
pub struct GameRequest {
    /// The turn of the game.
    pub turn: i64,
    /// The board.
    pub board: BoardInfo,
    /// The agent to decide for, as it appears on the board.
    pub you: BattleSnake,
}

/// The board as the server sends it.
#[derive(Clone, Debug)]
pub struct BoardInfo {
    pub height: u8,
    pub width: u8,
    pub food: Vec<Coordinate>,
    pub hazards: Vec<Coordinate>,
    pub snakes: Vec<BattleSnake>,
}

/// An agent as the server sends it.
#[derive(Clone, Debug)]
pub struct BattleSnake {
    /// The name by which the server knows the agent.
    pub id: String,
    pub health: u8,
    /// The segments, head first.
    pub body: Vec<Coordinate>,
    pub head: Coordinate,
    pub length: u16,
}

/// Why a game state cannot be taken in.
#[derive(Clone, Copy, Debug, PartialEq, Eq, Structural)]
pub enum DecodeError {
    /// The board is wider or higher than the occupancy masks.
    BoardTooLarge,
    /// The board holds more agents than the engine has room for.
    TooManySnakes,
    /// An agent has no body or too long a one, a head or a length that is not its body's,
    /// a health outside 1 to 100, or a segment off the board.
    MalformedSnake,
    /// A food lies off the board, or is listed twice.
    MalformedFood,
    /// No agent on the board has the name of the agent to decide for.
    UnknownYou,
}

/// Whether `c` lies on a board of this size.
pub open spec fn within(c: Coordinate, width: u8, height: u8) -> bool {
    0 <= c.x < width && 0 <= c.y < height
}

/// The index of the last of the first `n` agents with this name, or -1.
pub open spec fn last_named(snakes: Seq<BattleSnake>, name: Seq<char>, n: nat) -> int
    decreases n,
{
    if n == 0 {
        -1
    } else if snakes[n - 1].id@ == name {
        n - 1
    } else {
        last_named(snakes, name, (n - 1) as nat)
    }
}

impl BattleSnake {
    /// Whether the agent can stand on a board of this size: it has a body of at most
    /// `LENGTH_MAX` segments, all on the board, its head and length are those of the body,
    /// and its health is between 1 and 100.
    pub open spec fn sound(&self, width: u8, height: u8) -> bool {
        &&& 1 <= self.body.len() <= LENGTH_MAX
        &&& self.length == self.body.len()
        &&& self.head == self.body[0]
        &&& 1 <= self.health <= 100
        &&& forall|j: int|
            0 <= j < self.body.len() ==> within(#[trigger] self.body[j], width, height)
    }

    /// The agent as the engine sees it: alive, with this health and body.
    pub open spec fn decoded(&self) -> SnakeView {
        SnakeView { health: self.health, body: self.body@, alive: true }
    }

    /// Whether the agent can stand on a board of this size.
    fn is_sound(&self, width: u8, height: u8) -> (r: bool)
        ensures
            r == self.sound(width, height),
    {
        let n = self.body.len();
        if n < 1 || n > LENGTH_MAX as usize {
            return false;
        }
        if self.length as usize != n {
            return false;
        }
        if self.head != self.body[0] {
            return false;
        }
        if self.health < 1 || self.health > 100 {
            return false;
        }
        let mut j: usize = 0;
        while j < n
            invariant
                j <= n == self.body.len(),
                forall|q: int| 0 <= q < j ==> within(#[trigger] self.body[q], width, height),
            decreases n - j,
        {
            if !on_board(self.body[j], width, height) {
                return false;
            }
            j += 1;
        }
        true
    }
}

/// Whether `c` lies on a board of this size.
fn on_board(c: Coordinate, width: u8, height: u8) -> (r: bool)
    ensures
        r == within(c, width, height),
{
    0 <= c.x && c.x < width as i32 && 0 <= c.y && c.y < height as i32
}

/// Whether item `k` of the list also stands before place `k`.
fn listed_before(list: &Vec<Coordinate>, k: usize) -> (r: bool)
    requires
        k < list.len(),
    ensures
        r == exists|p: int| 0 <= p < k && #[trigger] list[p] == list[k as int],
{
    let mut q: usize = 0;
    while q < k
        invariant
            q <= k < list.len(),
            forall|p: int| 0 <= p < q ==> #[trigger] list[p] != list[k as int],
        decreases k - q,
    {
        if list[q] == list[k] {
            return true;
        }
        q += 1;
    }
    false
}

impl GameRequest {
    /// Whether every food lies on the board and none is listed twice.
    pub open spec fn food_sound(&self) -> bool {
        &&& self.board.food@.no_duplicates()
        &&& forall|k: int|
            0 <= k < self.board.food.len() ==> within(
                #[trigger] self.board.food[k],
                self.board.width,
                self.board.height,
            )
    }

    /// Whether every agent can stand on the board.
    pub open spec fn snakes_sound(&self) -> bool {
        forall|i: int|
            0 <= i < self.board.snakes.len() ==> (#[trigger] self.board.snakes[i]).sound(
                self.board.width,
                self.board.height,
            )
    }

    /// The index of the agent to decide for: the last agent on the board with its name, or
    /// -1 where there is none.
    pub open spec fn you_index(&self) -> int {
        last_named(self.board.snakes@, self.you.id@, self.board.snakes@.len())
    }

    /// Why the state cannot be taken in, if it cannot; the first reason that applies, in
    /// the order of the variants.
    pub open spec fn decode_error(&self) -> Option<DecodeError> {
        if self.board.width > 11 || self.board.height > 11 {
            Some(DecodeError::BoardTooLarge)
        } else if self.board.snakes.len() > SNAKE_MAX {
            Some(DecodeError::TooManySnakes)
        } else if !self.snakes_sound() {
            Some(DecodeError::MalformedSnake)
        } else if !self.food_sound() {
            Some(DecodeError::MalformedFood)
        } else if self.you_index() < 0 {
            Some(DecodeError::UnknownYou)
        } else {
            None
        }
    }

    /// The state as the engine sees it.
    pub open spec fn decoded(&self) -> StateView {
        StateView {
            turn: self.turn,
            zobrist: 0,
            width: self.board.width,
            height: self.board.height,
            food: self.board.food@.to_set(),
            hazards: self.board.hazards@,
            snakes: Seq::new(self.board.snakes@.len(), |i: int| self.board.snakes@[i].decoded()),
            you: self.you_index(),
        }
    }

    /// Takes the state in: checks it, and builds the compact state with its occupancy
    /// masks. The agents keep their order, so an agent's index is its place on the board.
    pub fn into_small(&self) -> (r: Result<SmallRequest, DecodeError>)
        ensures
            match r {
                Ok(s) => {
                    &&& self.decode_error() is None
                    &&& s.wf()
                    &&& s@ == self.decoded()
                    &&& s@.room(255)
                    &&& s.board.food@ == self.board.food@
                },
                Err(e) => self.decode_error() == Some(e),
            },
    {
        let width = self.board.width;
        let height = self.board.height;
        if width > 11 || height > 11 {
            return Err(DecodeError::BoardTooLarge);
        }
        let n = self.board.snakes.len();
        if n > SNAKE_MAX {
            return Err(DecodeError::TooManySnakes);
        }
        let mut out = SmallRequest::new();
        out.turn = self.turn;
        out.board.height = height;
        out.board.width = width;
        let mut you: Option<usize> = None;
        let mut x: usize = 0;
        while x < n
            invariant
                x <= n == self.board.snakes.len() <= SNAKE_MAX,
                width == self.board.width <= 11,
                height == self.board.height <= 11,
                out.board.snakes.len() == x,
                out.turn == self.turn,
                out.board.zobrist == 0,
                out.board.width == width,
                out.board.height == height,
                out.board.food@ == Seq::<Coordinate>::empty(),
                out.board.food_bb == 0,
                out.board.hazards@ == Seq::<Coordinate>::empty(),
                forall|i: int|
                    0 <= i < x ==> (#[trigger] self.board.snakes[i]).sound(width, height),
                forall|i: int|
                    0 <= i < x
                        ==> (#[trigger] out.board.snakes[i]).consistent(i) && out.board.snakes[i]@
                        == self.board.snakes[i].decoded(),
                match you {
                    Some(i) => i == last_named(self.board.snakes@, self.you.id@, x as nat),
                    None => last_named(self.board.snakes@, self.you.id@, x as nat) == -1,
                },
            decreases n - x,
        {
            let y = &self.board.snakes[x];
            if !y.is_sound(width, height) {
                return Err(DecodeError::MalformedSnake);
            }
            let mut body: Vec<Coordinate> = Vec::new();
            let mut j: usize = 0;
            while j < y.body.len()
                invariant
                    j <= y.body.len(),
                    body@ == y.body@.take(j as int),
                decreases y.body.len() - j,
            {
                body.push(y.body[j]);
                j += 1;
            }
            let mut snake = SmallBattlesnake {
                id: x as u8,
                health: y.health,
                body,
                head: y.head,
                alive: true,
                length: y.length,
                head_bb: 0,
                body_bb: 0,
            };
            snake.refresh();
            out.board.snakes.push(snake);
            if y.id == self.you.id {
                you = Some(x);
            }
            x += 1;
        }
        let m = self.board.food.len();
        let mut k: usize = 0;
        while k < m
            invariant
                k <= m == self.board.food.len(),
                width == self.board.width <= 11,
                height == self.board.height <= 11,
                out.board.food@ == self.board.food@.take(k as int),
                out.board.food@.no_duplicates(),
                forall|i: int|
                    0 <= i < n ==> (#[trigger] self.board.snakes[i]).sound(width, height),
                match you {
                    Some(i) => i == last_named(self.board.snakes@, self.you.id@, n as nat),
                    None => last_named(self.board.snakes@, self.you.id@, n as nat) == -1,
                },
                out.board.food_bb == mask_of(out.board.food@.to_set()),
                forall|q: int| 0 <= q < k ==> within(#[trigger] self.board.food[q], width, height),
                out.board.snakes.len() == n,
                n == self.board.snakes.len() <= SNAKE_MAX,
                out.turn == self.turn,
                out.board.zobrist == 0,
                out.board.width == width,
                out.board.height == height,
                out.board.hazards@ == Seq::<Coordinate>::empty(),
                forall|i: int|
                    0 <= i < n
                        ==> (#[trigger] out.board.snakes[i]).consistent(i) && out.board.snakes[i]@
                        == self.board.snakes[i].decoded(),
            decreases m - k,
        {
            let food = self.board.food[k];
            let ghost before = out.board.food@;
            if !on_board(food, width, height) {
                return Err(DecodeError::MalformedFood);
            }
            if listed_before(&self.board.food, k) {
                return Err(DecodeError::MalformedFood);
            }
            out.board.food.push(food);
            out.board.food_bb = out.board.food_bb | food.mask();
            proof {
                lemma_mask_of_insert(before.to_set(), food);
                before.lemma_push_to_set_commute(food);
            }
            k += 1;
        }
        let h = self.board.hazards.len();
        let mut t: usize = 0;
        while t < h
            invariant
                t <= h == self.board.hazards.len(),
                out.board.hazards@ == self.board.hazards@.take(t as int),
                out.board.food@ == self.board.food@,
                out.board.food@.no_duplicates(),
                width == self.board.width <= 11,
                height == self.board.height <= 11,
                n == self.board.snakes.len() <= SNAKE_MAX,
                forall|q: int|
                    0 <= q < self.board.food.len()
                        ==> within(#[trigger] self.board.food[q], width, height),
                forall|i: int|
                    0 <= i < n ==> (#[trigger] self.board.snakes[i]).sound(width, height),
                match you {
                    Some(i) => i == last_named(self.board.snakes@, self.you.id@, n as nat),
                    None => last_named(self.board.snakes@, self.you.id@, n as nat) == -1,
                },
                out.board.food_bb == mask_of(out.board.food@.to_set()),
                out.board.snakes.len() == n,
                out.turn == self.turn,
                out.board.zobrist == 0,
                out.board.width == width,
                out.board.height == height,
                forall|i: int|
                    0 <= i < n
                        ==> (#[trigger] out.board.snakes[i]).consistent(i) && out.board.snakes[i]@
                        == self.board.snakes[i].decoded(),
            decreases h - t,
        {
            out.board.hazards.push(self.board.hazards[t]);
            t += 1;
        }
        match you {
            Some(i) => {
                out.you = i;
                proof {
                    lemma_last_named(self.board.snakes@, self.you.id@, n as nat);
                }
                Ok(out)
            },
            None => Err(DecodeError::UnknownYou),
        }
    }
}

/// The last agent of a name, where there is one, is one of the agents.
pub proof fn lemma_last_named(snakes: Seq<BattleSnake>, name: Seq<char>, n: nat)
    ensures
        -1 <= last_named(snakes, name, n) < n,
    decreases n,
{
    if n > 0 {
        lemma_last_named(snakes, name, (n - 1) as nat);
    }
}

} // verus!
