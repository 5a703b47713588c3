use vstd::prelude::*;
use crate::direction::{Direction, Move};
use crate::genmove::{lemma_joint_moves, lemma_joint_moves_nonempty, lemma_legal_upto};
use crate::search::{Outcome, LOSS};
use crate::small::{lemma_count_alive_bound, StateView};

verus! {

/// Whether a score fits the type of the scores.
pub open spec fn fits(x: int) -> bool {
    i32::MIN <= x <= i32::MAX
}

/// What the result `r` of a search in the window from `alpha` to `beta` says of the true
/// value `v`: at or below `alpha` it is an upper bound, at or above `beta` a lower bound,
/// and in between it is the value.
pub open spec fn bounded(r: int, v: int, alpha: int, beta: int) -> bool {
    &&& r <= alpha ==> v <= r
    &&& r >= beta ==> v >= r
    &&& alpha < r < beta ==> r == v
}

impl StateView {
    /// The minimax value of the state, `depth` plies deep, at a node of the controlled
    /// agent: the best, over its legal moves, of the worst that the others can answer.
    pub open spec fn value(self, depth: nat) -> int
        decreases depth, 3int, 0int,
    {
        if self.terminal() is Some {
            self.terminal().unwrap()
        } else if depth == 0 {
            self.heuristic()
        } else if self.legal_moves(self.you).len() == 0 {
            LOSS as int
        } else {
            self.best_of(depth, self.legal_moves(self.you), self.legal_moves(self.you).len())
        }
    }

    /// The best of the replies to the first `n` moves.
    pub open spec fn best_of(self, depth: nat, legal: Seq<Move>, n: nat) -> int
        decreases depth, 2int, n,
    {
        if n == 0 || depth == 0 {
            i32::MIN as int
        } else {
            let rest = self.best_of(depth, legal, (n - 1) as nat);
            let last = self.reply(depth, legal[n - 1]);
            if rest >= last {
                rest
            } else {
                last
            }
        }
    }

    /// The value of the state once the controlled agent has settled on `fixed`: the worst,
    /// over the joint moves around it, of the values of the states that follow.
    pub open spec fn reply(self, depth: nat, fixed: Move) -> int
        decreases depth, 1int, 0int,
    {
        self.worst_of(depth, self.joint_moves(fixed), self.joint_moves(fixed).len())
    }

    /// The worst of the values behind the first `n` joint moves.
    pub open spec fn worst_of(self, depth: nat, joint: Seq<Seq<Move>>, n: nat) -> int
        decreases depth, 0int, n,
    {
        if n == 0 || depth == 0 {
            i32::MAX as int
        } else {
            let rest = self.worst_of(depth, joint, (n - 1) as nat);
            let last = self.apply_spec(joint[n - 1]).value((depth - 1) as nat);
            if rest <= last {
                rest
            } else {
                last
            }
        }
    }
}

/// The score of a well-formed state fits the type of the scores.
pub proof fn lemma_heuristic_fits(s: StateView)
    requires
        s.wf(),
    ensures
        fits(s.heuristic()),
{
    lemma_count_alive_bound(s.snakes, s.snakes.len());
}

/// Every minimax value fits the type of the scores.
pub proof fn lemma_value_fits(s: StateView, depth: nat)
    requires
        s.wf(),
        s.room(depth),
    ensures
        fits(s.value(depth)),
    decreases depth, 3int, 0int,
{
    if s.terminal() is None {
        if depth == 0 {
            lemma_heuristic_fits(s);
        } else if s.legal_moves(s.you).len() > 0 {
            lemma_best_fits(s, depth, s.legal_moves(s.you).len());
        }
    }
}

/// The best of the first `n` replies fits the scores, and is at least each of them.
proof fn lemma_best_fits(s: StateView, depth: nat, n: nat)
    requires
        s.wf(),
        s.room(depth),
        depth > 0,
        s.terminal() is None,
        n <= s.legal_moves(s.you).len(),
    ensures
        fits(s.best_of(depth, s.legal_moves(s.you), n)),
        forall|j: int|
            0 <= j < n ==> s.best_of(depth, s.legal_moves(s.you), n) >= s.reply(
                depth,
                #[trigger] s.legal_moves(s.you)[j],
            ),
    decreases depth, 2int, n,
{
    if n > 0 {
        lemma_best_fits(s, depth, (n - 1) as nat);
        lemma_legal_upto(s, s.you, 4);
        lemma_reply_fits(s, depth, s.legal_moves(s.you)[n - 1]);
    }
}

/// The value of a reply fits the scores.
proof fn lemma_reply_fits(s: StateView, depth: nat, fixed: Move)
    requires
        s.wf(),
        s.room(depth),
        depth > 0,
        s.terminal() is None,
        fixed.id == s.you,
    ensures
        fits(s.reply(depth, fixed)),
    decreases depth, 1int, 0int,
{
    lemma_worst_fits(s, depth, fixed, s.joint_moves(fixed).len());
}

/// The worst behind the first `n` joint moves fits the scores, and is at most each of
/// the values behind them.
proof fn lemma_worst_fits(s: StateView, depth: nat, fixed: Move, n: nat)
    requires
        s.wf(),
        s.room(depth),
        depth > 0,
        s.terminal() is None,
        fixed.id == s.you,
        n <= s.joint_moves(fixed).len(),
    ensures
        fits(s.worst_of(depth, s.joint_moves(fixed), n)),
        forall|j: int|
            0 <= j < n ==> s.worst_of(depth, s.joint_moves(fixed), n) <= (#[trigger] s.apply_spec(
                s.joint_moves(fixed)[j],
            )).value((depth - 1) as nat),
    decreases depth, 0int, n,
{
    if n > 0 {
        lemma_worst_fits(s, depth, fixed, (n - 1) as nat);
        let moves = s.joint_moves(fixed)[n - 1];
        lemma_joint_moves(s, fixed, n - 1);
        lemma_value_fits(s.apply_spec(moves), (depth - 1) as nat);
    }
}

/// At a node of the controlled agent, the result of the pruned search is a bound on the
/// minimax value outside the window, and the value itself inside.
pub proof fn lemma_node(s: StateView, depth: nat, alpha: int, beta: int)
    requires
        s.wf(),
        s.room(depth),
        fits(alpha),
        fits(beta),
        alpha < beta,
    ensures
        fits(s.minimax_spec(depth, alpha, beta, true, None).score),
        bounded(s.minimax_spec(depth, alpha, beta, true, None).score, s.value(depth), alpha, beta),
    decreases depth, 3int, 0int,
{
    if s.terminal() is None {
        if depth == 0 {
            lemma_heuristic_fits(s);
        } else if s.legal_moves(s.you).len() > 0 {
            lemma_max_scan(s, depth, alpha, alpha, beta, 0, i32::MIN as int, None);
        }
    }
}

/// The scan of a node of the controlled agent from move `k` on, entered with the best of
/// the first `k` replies as far as the window from `floor` to `beta` shows it.
proof fn lemma_max_scan(
    s: StateView,
    depth: nat,
    floor: int,
    alpha: int,
    beta: int,
    k: nat,
    value: int,
    best: Option<Direction>,
)
    requires
        s.wf(),
        s.room(depth),
        depth > 0,
        s.terminal() is None,
        k <= s.legal_moves(s.you).len(),
        fits(floor),
        fits(beta),
        fits(value),
        floor < beta,
        value < beta,
        alpha == if floor >= value { floor } else { value },
        value <= floor ==> s.best_of(depth, s.legal_moves(s.you), k) <= value,
        value > floor ==> s.best_of(depth, s.legal_moves(s.you), k) == value,
    ensures
        fits(s.max_scan(depth, alpha, beta, s.legal_moves(s.you), k, value, best).score),
        bounded(
            s.max_scan(depth, alpha, beta, s.legal_moves(s.you), k, value, best).score,
            s.best_of(depth, s.legal_moves(s.you), s.legal_moves(s.you).len()),
            floor,
            beta,
        ),
    decreases depth, 2int, s.legal_moves(s.you).len() - k,
{
    let legal = s.legal_moves(s.you);
    if k < legal.len() {
        lemma_legal_upto(s, s.you, 4);
        lemma_reply(s, depth, alpha, beta, legal[k as int]);
        let score = s.minimax_spec(depth, alpha, beta, false, Some(legal[k as int])).score;
        let replaces = value <= score;
        let next = if replaces { score } else { value };
        let next_best = if replaces { Some(legal[k as int].direction) } else { best };
        if next >= beta {
            lemma_best_fits(s, depth, legal.len());
        } else {
            lemma_max_scan(
                s,
                depth,
                floor,
                if alpha >= next { alpha } else { next },
                beta,
                k + 1,
                next,
                next_best,
            );
        }
    }
}

/// At a node of the other agents, the result of the pruned search is a bound on the
/// minimax value outside the window, and the value itself inside.
pub proof fn lemma_reply(s: StateView, depth: nat, alpha: int, beta: int, fixed: Move)
    requires
        s.wf(),
        s.room(depth),
        depth > 0,
        s.terminal() is None,
        fixed.id == s.you,
        fits(alpha),
        fits(beta),
        alpha < beta,
    ensures
        fits(s.minimax_spec(depth, alpha, beta, false, Some(fixed)).score),
        bounded(
            s.minimax_spec(depth, alpha, beta, false, Some(fixed)).score,
            s.reply(depth, fixed),
            alpha,
            beta,
        ),
    decreases depth, 1int, 0int,
{
    lemma_min_scan(s, depth, alpha, beta, beta, fixed, 0, i32::MAX as int);
}

/// The scan of a node of the other agents from joint move `k` on, entered with the worst
/// behind the first `k` joint moves as far as the window from `alpha` to `ceiling` shows it.
proof fn lemma_min_scan(
    s: StateView,
    depth: nat,
    alpha: int,
    ceiling: int,
    beta: int,
    fixed: Move,
    k: nat,
    value: int,
)
    requires
        s.wf(),
        s.room(depth),
        depth > 0,
        s.terminal() is None,
        fixed.id == s.you,
        k <= s.joint_moves(fixed).len(),
        fits(alpha),
        fits(ceiling),
        fits(value),
        alpha < ceiling,
        value > alpha,
        beta == if ceiling <= value { ceiling } else { value },
        value >= ceiling ==> s.worst_of(depth, s.joint_moves(fixed), k) >= value,
        value < ceiling ==> s.worst_of(depth, s.joint_moves(fixed), k) == value,
    ensures
        fits(s.min_scan(depth, alpha, beta, s.joint_moves(fixed), k, value)),
        bounded(
            s.min_scan(depth, alpha, beta, s.joint_moves(fixed), k, value),
            s.worst_of(depth, s.joint_moves(fixed), s.joint_moves(fixed).len()),
            alpha,
            ceiling,
        ),
    decreases depth, 0int, s.joint_moves(fixed).len() - k,
{
    let joint = s.joint_moves(fixed);
    if k < joint.len() {
        let moves = joint[k as int];
        lemma_joint_moves(s, fixed, k as int);
        let after = s.apply_spec(moves);
        lemma_node(after, (depth - 1) as nat, alpha, beta);
        let score = after.minimax_spec((depth - 1) as nat, alpha, beta, true, None).score;
        let next = if value >= score { score } else { value };
        if next <= alpha {
            lemma_worst_fits(s, depth, fixed, joint.len());
        } else {
            lemma_min_scan(
                s,
                depth,
                alpha,
                ceiling,
                if beta <= next { beta } else { next },
                fixed,
                k + 1,
                next,
            );
        }
    }
}

/// Pruning changes no score: over the whole range of scores, the search gives the minimax
/// value of the state.
pub proof fn lemma_search_is_minimax(s: StateView, depth: nat)
    requires
        s.wf(),
        s.room(depth),
    ensures
        s.decide_spec(depth).1 == s.value(depth),
{
    lemma_node(s, depth, i32::MIN as int, i32::MAX as int);
    lemma_value_fits(s, depth);
}

/// Whether `d` is the direction of a legal move of the controlled agent.
pub open spec fn legal_direction(s: StateView, d: Direction) -> bool {
    exists|j: int|
        0 <= j < s.legal_moves(s.you).len() && (#[trigger] s.legal_moves(s.you)[j]).direction == d
}

/// A scan that starts without a direction, or with a legal one, ends with a legal one.
proof fn lemma_scan_direction(
    s: StateView,
    depth: nat,
    alpha: int,
    beta: int,
    k: nat,
    value: int,
    best: Option<Direction>,
)
    requires
        s.wf(),
        s.room(depth),
        depth > 0,
        s.terminal() is None,
        k <= s.legal_moves(s.you).len(),
        s.legal_moves(s.you).len() > 0,
        fits(alpha),
        fits(beta),
        alpha < beta,
        match best {
            Some(d) => legal_direction(s, d),
            None => k == 0 && value == i32::MIN,
        },
    ensures
        match s.max_scan(depth, alpha, beta, s.legal_moves(s.you), k, value, best).direction {
            Some(d) => legal_direction(s, d),
            None => false,
        },
    decreases s.legal_moves(s.you).len() - k,
{
    let legal = s.legal_moves(s.you);
    if k < legal.len() {
        lemma_legal_upto(s, s.you, 4);
        lemma_reply(s, depth, alpha, beta, legal[k as int]);
        let score = s.minimax_spec(depth, alpha, beta, false, Some(legal[k as int])).score;
        let replaces = value <= score;
        let next = if replaces { score } else { value };
        let next_best = if replaces { Some(legal[k as int].direction) } else { best };
        if next < beta {
            lemma_scan_direction(
                s,
                depth,
                if alpha >= next { alpha } else { next },
                beta,
                k + 1,
                next,
                next_best,
            );
        }
    }
}

/// Where the controlled agent has a legal move, the direction decided is that of one of
/// its legal moves; where it has none, the direction is up.
pub proof fn lemma_decide_is_legal(s: StateView, depth: nat)
    requires
        s.wf(),
        s.room(depth),
    ensures
        s.legal_moves(s.you).len() > 0 ==> legal_direction(s, s.decide_spec(depth).0),
        s.legal_moves(s.you).len() == 0 ==> s.decide_spec(depth).0 == Direction::Up,
{
    let legal = s.legal_moves(s.you);
    if legal.len() > 0 {
        if s.terminal() is None && depth > 0 {
            lemma_scan_direction(
                s,
                depth,
                i32::MIN as int,
                i32::MAX as int,
                0,
                i32::MIN as int,
                None,
            );
        }
    }
}

/// A scan of the other agents' node never ends above the value it starts with.
proof fn lemma_min_scan_le(
    s: StateView,
    depth: nat,
    alpha: int,
    beta: int,
    joint: Seq<Seq<Move>>,
    k: nat,
    value: int,
)
    ensures
        s.min_scan(depth, alpha, beta, joint, k, value) <= value,
    decreases joint.len() - k,
{
    if k < joint.len() && depth > 0 {
        let score = s.apply_spec(joint[k as int]).minimax_spec(
            (depth - 1) as nat,
            alpha,
            beta,
            true,
            None,
        ).score;
        let next = if value >= score { score } else { value };
        if next > alpha {
            lemma_min_scan_le(
                s,
                depth,
                alpha,
                if beta <= next { beta } else { next },
                joint,
                k + 1,
                next,
            );
        }
    }
}

/// The value, without search, of the state behind the first joint move around move `k` of
/// the controlled agent.
pub open spec fn first_answer(s: StateView, k: int) -> int {
    s.apply_spec(s.joint_moves(s.legal_moves(s.you)[k])[0]).value(0)
}

/// One ply deep, a later move whose first answer lies below the best so far does not
/// replace it.
proof fn lemma_scan_keeps(s: StateView, v: int, k: nat, best: Option<Direction>, bar: int)
    requires
        s.sane(),
        s.terminal() is None,
        1 <= k <= s.legal_moves(s.you).len(),
        bar < v < i32::MAX,
        forall|q: int| k <= q < s.legal_moves(s.you).len() ==> #[trigger] first_answer(s, q) <= bar,
    ensures
        s.max_scan(1, v, i32::MAX as int, s.legal_moves(s.you), k, v, best) == (Outcome {
            score: v,
            direction: best,
        }),
    decreases s.legal_moves(s.you).len() - k,
{
    let legal = s.legal_moves(s.you);
    if k < legal.len() {
        let joint = s.joint_moves(legal[k as int]);
        lemma_joint_moves_nonempty(s, legal[k as int]);
        lemma_min_scan_le(s, 1, v, i32::MAX as int, joint, 0, i32::MAX as int);
        let first = s.apply_spec(joint[0]).minimax_spec(0, v, i32::MAX as int, true, None).score;
        assert(first == first_answer(s, k as int));
        let next = if i32::MAX >= first { first } else { i32::MAX as int };
        if next > v {
            lemma_min_scan_le(
                s,
                1,
                v,
                if i32::MAX <= next { i32::MAX as int } else { next },
                joint,
                1,
                next,
            );
        }
        let reply = s.minimax_spec(1, v, i32::MAX as int, false, Some(legal[k as int])).score;
        assert(reply == s.min_scan(1, v, i32::MAX as int, joint, 0, i32::MAX as int));
        assert(reply <= first);
        assert(reply < v);
        lemma_scan_keeps(s, v, k + 1, best, bar);
        assert(s.max_scan(1, v, i32::MAX as int, legal, k, v, best) == s.max_scan(
            1,
            v,
            i32::MAX as int,
            legal,
            k + 1,
            v,
            best,
        ));
    }
}

/// One ply deep, the first legal move is the one decided for where its value lies above
/// the first answer to every other legal move.
pub proof fn lemma_first_wins(s: StateView, bar: int)
    requires
        s.wf(),
        s.room(1),
        s.terminal() is None,
        s.legal_moves(s.you).len() > 0,
        s.reply(1, s.legal_moves(s.you)[0]) > bar,
        forall|q: int| 1 <= q < s.legal_moves(s.you).len() ==> #[trigger] first_answer(s, q) <= bar,
    ensures
        s.minimax_spec(1, i32::MIN as int, i32::MAX as int, true, None).direction == Some(
            s.legal_moves(s.you)[0].direction,
        ),
        s.decide_spec(1).0 == s.legal_moves(s.you)[0].direction,
        s.decide_spec(1).1 == s.reply(1, s.legal_moves(s.you)[0]),
{
    let legal = s.legal_moves(s.you);
    lemma_legal_upto(s, s.you, 4);
    lemma_reply(s, 1, i32::MIN as int, i32::MAX as int, legal[0]);
    lemma_reply_fits(s, 1, legal[0]);
    let v = s.reply(1, legal[0]);
    assert(s.minimax_spec(1, i32::MIN as int, i32::MAX as int, false, Some(legal[0])).score == v);
    if v < i32::MAX {
        lemma_scan_keeps(s, v, 1, Some(legal[0].direction), bar);
    }
}

/// The worst behind the first `n` joint moves is at least what each of them is at least.
pub proof fn lemma_worst_at_least(s: StateView, depth: nat, fixed: Move, n: nat, bar: int)
    requires
        depth > 0,
        n <= s.joint_moves(fixed).len(),
        bar <= i32::MAX,
        forall|j: int|
            0 <= j < n ==> (#[trigger] s.apply_spec(s.joint_moves(fixed)[j])).value(
                (depth - 1) as nat,
            ) >= bar,
    ensures
        s.worst_of(depth, s.joint_moves(fixed), n) >= bar,
    decreases n,
{
    if n > 0 {
        lemma_worst_at_least(s, depth, fixed, (n - 1) as nat, bar);
    }
}

} // verus!
