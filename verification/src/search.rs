use vstd::prelude::*;
use crate::bounded::{joint_get, joint_held, joint_len, moves_get, moves_held, moves_len, MoveList};
use crate::direction::{Direction, Move};
use crate::eval::StaticEval;
use crate::genmove::{lemma_joint_moves, lemma_legal_upto, GenMove};
use crate::makeunmake::MakeUnmake;
use crate::turn::{lemma_round_trip, moves_valid};
use crate::small::{SmallRequest, StateView};

verus! {

/// The score of a state in which the controlled agent is the only one alive.
pub const WIN: i32 = i32::MAX - 1000;

/// The score of a state in which the controlled agent is dead or cannot move.
pub const LOSS: i32 = i32::MIN + 1000;

/// What a search returns: the score, and the direction that leads to it where there is one.
#[derive(Clone, Copy, Debug, PartialEq, Eq)]
pub struct Evaluation {
    pub score: i32,
    pub direction: Option<Direction>,
}

/// The result of a search, as a mathematical value.
pub struct Outcome {
    pub score: int,
    pub direction: Option<Direction>,
}

impl StateView {
    /// The score of a state that needs no search: a draw where nobody is alive, a loss
    /// where the controlled agent is dead, a win where only it is alive.
    pub open spec fn terminal(self) -> Option<int> {
        if self.alive_count() == 0 {
            Some(0int)
        } else if !self.snakes[self.you].alive {
            Some(LOSS as int)
        } else if self.alive_count() == 1 {
            Some(WIN as int)
        } else {
            None
        }
    }

    /// Depth-limited minimax with alpha-beta pruning. At a node of the controlled agent
    /// (`maximizing`) its legal moves are tried in their order; at a node of the others the
    /// joint moves around `fixed` are tried in theirs, each one ply deeper.
    pub open spec fn minimax_spec(
        self,
        depth: nat,
        alpha: int,
        beta: int,
        maximizing: bool,
        fixed: Option<Move>,
    ) -> Outcome
        decreases depth, if maximizing { 3int } else { 1int }, 0int
    {
        if self.terminal() is Some {
            Outcome { score: self.terminal().unwrap(), direction: None }
        } else if depth == 0 {
            Outcome { score: self.heuristic(), direction: None }
        } else if maximizing {
            let legal = self.legal_moves(self.you);
            if legal.len() == 0 {
                Outcome { score: LOSS as int, direction: Some(Direction::Up) }
            } else {
                self.max_scan(depth, alpha, beta, legal, 0, i32::MIN as int, None)
            }
        } else {
            Outcome {
                score: self.min_scan(
                    depth,
                    alpha,
                    beta,
                    self.joint_moves(fixed.unwrap()),
                    0,
                    i32::MAX as int,
                ),
                direction: None,
            }
        }
    }

    /// The rest of a node of the controlled agent, from its move `k` on: a move whose score
    /// is at least the best so far replaces it, and the scan ends once the best reaches
    /// `beta`.
    pub open spec fn max_scan(
        self,
        depth: nat,
        alpha: int,
        beta: int,
        legal: Seq<Move>,
        k: nat,
        value: int,
        best: Option<Direction>,
    ) -> Outcome
        decreases depth, 2int, legal.len() - k
    {
        if k >= legal.len() || depth == 0 {
            Outcome { score: value, direction: best }
        } else {
            let score = self.minimax_spec(depth, alpha, beta, false, Some(legal[k as int])).score;
            let replaces = value <= score;
            let value = if replaces { score } else { value };
            let best = if replaces { Some(legal[k as int].direction) } else { best };
            if value >= beta {
                Outcome { score: value, direction: best }
            } else {
                self.max_scan(
                    depth,
                    if alpha >= value { alpha } else { value },
                    beta,
                    legal,
                    k + 1,
                    value,
                    best,
                )
            }
        }
    }

    /// The rest of a node of the other agents, from the joint move `k` on: a joint move
    /// whose score is at most the worst so far replaces it, and the scan ends once the
    /// worst reaches `alpha`.
    pub open spec fn min_scan(
        self,
        depth: nat,
        alpha: int,
        beta: int,
        joint: Seq<Seq<Move>>,
        k: nat,
        value: int,
    ) -> int
        decreases depth, 0int, joint.len() - k
    {
        if k >= joint.len() || depth == 0 {
            value
        } else {
            let score = self.apply_spec(joint[k as int]).minimax_spec(
                (depth - 1) as nat,
                alpha,
                beta,
                true,
                None,
            ).score;
            let value = if value >= score { score } else { value };
            if value <= alpha {
                value
            } else {
                self.min_scan(
                    depth,
                    alpha,
                    if beta <= value { beta } else { value },
                    joint,
                    k + 1,
                    value,
                )
            }
        }
    }

    /// The direction to take where the search names none: the first legal move of the
    /// controlled agent, or up.
    pub open spec fn fallback(self) -> Direction {
        if self.legal_moves(self.you).len() > 0 {
            self.legal_moves(self.you)[0].direction
        } else {
            Direction::Up
        }
    }

    /// The decision for the state: the direction and the score of a search over the whole
    /// range of scores.
    pub open spec fn decide_spec(self, depth: nat) -> (Direction, int) {
        let found = self.minimax_spec(depth, i32::MIN as int, i32::MAX as int, true, None);
        (
            match found.direction {
                Some(d) => d,
                None => self.fallback(),
            },
            found.score,
        )
    }
}

/// Searching the tree of moves below a state.
pub trait Search {
    /// Whether the state can be searched with these arguments.
    spec fn can_search(&self, depth: u8, maximizing: bool, you_move: Option<Move>) -> bool;

    /// Depth-limited minimax with alpha-beta pruning; leaves the state as it found it.
    fn minimax(
        &mut self,
        depth: u8,
        alpha: i32,
        beta: i32,
        maximizing: bool,
        you_move: Option<Move>,
    ) -> Evaluation
        requires
            old(self).can_search(depth, maximizing, you_move),
    ;
}

impl Search for SmallRequest {
    open spec fn can_search(&self, depth: u8, maximizing: bool, you_move: Option<Move>) -> bool {
        &&& self.wf()
        &&& self@.room(depth as nat)
        &&& !maximizing && depth > 0 && self@.terminal() is None ==> you_move is Some
            && you_move.unwrap().id == self.you
    }

    fn minimax(
        &mut self,
        depth: u8,
        alpha: i32,
        beta: i32,
        maximizing: bool,
        you_move: Option<Move>,
    ) -> (r: Evaluation)
        ensures
            final(self).wf(),
            final(self)@ == old(self)@,
            r.score == old(self)@.minimax_spec(
                depth as nat,
                alpha as int,
                beta as int,
                maximizing,
                you_move,
            ).score,
            r.direction == old(self)@.minimax_spec(
                depth as nat,
                alpha as int,
                beta as int,
                maximizing,
                you_move,
            ).direction,
        decreases depth, if maximizing { 1int } else { 0int },
    {
        let ghost s = self@;
        let ghost goal = s.minimax_spec(
            depth as nat,
            alpha as int,
            beta as int,
            maximizing,
            you_move,
        );
        let mut lo = alpha;
        let mut hi = beta;
        let alive = self.amount_alive();
        if alive == 0 {
            return Evaluation { score: 0, direction: None };
        } else if !self.board.snakes[self.you].alive {
            return Evaluation { score: LOSS, direction: None };
        } else if alive == 1 {
            return Evaluation { score: WIN, direction: None };
        }
        if depth == 0 {
            return Evaluation { score: self.static_eval(), direction: None };
        }
        if maximizing {
            let mut value = i32::MIN;
            let mut out = None;
            let legal = self.snake_moves(self.you);
            let n = moves_len(&legal);
            if n == 0 {
                return Evaluation { score: LOSS, direction: Some(Direction::Up) };
            }
            let mut k: usize = 0;
            while k < n
                invariant
                    k <= n == moves_held(legal).len(),
                    moves_held(legal) == s.legal_moves(s.you),
                    depth > 0,
                    self.wf(),
                    self@ == s,
                    s.room(depth as nat),
                    s == old(self)@,
                    maximizing,
                    goal == s.minimax_spec(
                        depth as nat,
                        alpha as int,
                        beta as int,
                        maximizing,
                        you_move,
                    ),
                    goal == s.max_scan(
                        depth as nat,
                        lo as int,
                        hi as int,
                        moves_held(legal),
                        k as nat,
                        value as int,
                        out,
                    ),
                decreases n - k,
            {
                let current_move = moves_get(&legal, k);
                proof {
                    lemma_legal_upto(s, s.you, 4);
                }
                let eval = self.minimax(depth, lo, hi, false, Some(current_move));
                if value <= eval.score {
                    out = Some(current_move.direction);
                    value = eval.score;
                }
                if value >= hi {
                    return Evaluation { score: value, direction: out };
                }
                if lo < value {
                    lo = value;
                }
                k += 1;
            }
            Evaluation { score: value, direction: out }
        } else {
            let mut value = i32::MAX;
            let fixed = you_move.unwrap();
            let joint = self.all_snake_moves(fixed);
            let n = joint_len(&joint);
            let mut k: usize = 0;
            while k < n
                invariant
                    k <= n == joint_held(joint).len(),
                    joint_held(joint) == s.joint_moves(fixed),
                    fixed.id == s.you,
                    depth > 0,
                    self.wf(),
                    self@ == s,
                    s.room(depth as nat),
                    s.snakes[s.you].alive,
                    s == old(self)@,
                    !maximizing,
                    goal == s.minimax_spec(
                        depth as nat,
                        alpha as int,
                        beta as int,
                        maximizing,
                        you_move,
                    ),
                    goal.score == s.min_scan(
                        depth as nat,
                        lo as int,
                        hi as int,
                        joint_held(joint),
                        k as nat,
                        value as int,
                    ),
                decreases n - k,
            {
                let moves = joint_get(&joint, k);
                proof {
                    lemma_joint_moves(s, fixed, k as int);
                }
                let score = self.look_ahead(&moves, depth, lo, hi);
                if value >= score {
                    value = score;
                }
                if value <= lo {
                    return Evaluation { score: value, direction: None };
                }
                if hi > value {
                    hi = value;
                }
                k += 1;
            }
            Evaluation { score: value, direction: None }
        }
    }
}

impl SmallRequest {
    /// The score of the state one joint move ahead, searched one ply less deep. The move is
    /// made, the state behind it is searched, and the move is taken back.
    fn look_ahead(&mut self, moves: &MoveList, depth: u8, alpha: i32, beta: i32) -> (score: i32)
        requires
            depth > 0,
            old(self).wf(),
            old(self)@.room(depth as nat),
            moves_valid(old(self)@, moves_held(*moves)),
        ensures
            final(self).wf(),
            final(self)@ == old(self)@,
            score == old(self)@.apply_spec(moves_held(*moves)).minimax_spec(
                (depth - 1) as nat,
                alpha as int,
                beta as int,
                true,
                None,
            ).score,
        decreases depth - 1, 2int,
    {
        let ghost s = self@;
        proof {
            lemma_round_trip(s, moves_held(*moves));
        }
        let delta = self.make_move(moves);
        let eval = self.minimax(depth - 1, alpha, beta, true, None);
        self.unmake_move(&delta);
        eval.score
    }
}

/// Decides the turn: searches `max_depth` plies deep and returns the direction for the
/// controlled agent with the score that the search gives it. There is always a direction:
/// where the search names none, the first legal move, or up.
pub fn decide(state: &mut SmallRequest, max_depth: u8) -> (r: (Direction, i32))
    requires
        old(state).wf(),
        old(state)@.room(max_depth as nat),
    ensures
        final(state).wf(),
        final(state)@ == old(state)@,
        r.0 == old(state)@.decide_spec(max_depth as nat).0,
        r.1 == old(state)@.decide_spec(max_depth as nat).1,
{
    let eval = state.minimax(max_depth, i32::MIN, i32::MAX, true, None);
    let direction = match eval.direction {
        Some(d) => d,
        None => {
            let legal = state.snake_moves(state.you);
            if moves_len(&legal) > 0 {
                moves_get(&legal, 0).direction
            } else {
                Direction::Up
            }
        },
    };
    (direction, eval.score)
}

/// Without a living agent the score is a draw; else a dead controlled agent loses, and a
/// controlled agent that alone is alive wins, at every depth.
pub proof fn lemma_terminal_scores(s: StateView, depth: nat)
    ensures
        s.alive_count() == 0 ==> s.decide_spec(depth).1 == 0,
        s.alive_count() > 0 && !s.snakes[s.you].alive ==> s.decide_spec(depth).1 == LOSS,
        s.alive_count() == 1 && s.snakes[s.you].alive ==> s.decide_spec(depth).1 == WIN,
{
}

/// A controlled agent without a legal move is told to go up, and the state counts as lost,
/// wherever the search looks ahead at all.
pub proof fn lemma_cornered(s: StateView, depth: nat)
    requires
        s.terminal() is None,
        depth > 0,
        s.legal_moves(s.you).len() == 0,
    ensures
        s.decide_spec(depth) == (Direction::Up, LOSS as int),
{
}

/// A search from a finished state gives its sentinel, whatever the depth, the window, the
/// ply and the fixed move: a win where the controlled agent alone is alive, a loss where
/// it is dead and another agent lives. The loss lies above the least score, so that it can
/// be negated.
pub proof fn lemma_minimax_terminal(
    s: StateView,
    depth: nat,
    alpha: int,
    beta: int,
    maximizing: bool,
    you_move: Option<Move>,
)
    ensures
        s.alive_count() == 1 && s.snakes[s.you].alive ==> s.minimax_spec(
            depth,
            alpha,
            beta,
            maximizing,
            you_move,
        ).score == WIN,
        s.alive_count() > 0 && !s.snakes[s.you].alive ==> s.minimax_spec(
            depth,
            alpha,
            beta,
            maximizing,
            you_move,
        ).score == LOSS,
        i32::MIN < LOSS < 0 < WIN < i32::MAX,
{
}

} // verus!
