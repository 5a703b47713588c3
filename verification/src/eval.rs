use vstd::prelude::*;
use crate::coordinate::Coordinate;
use crate::small::{count_alive, SmallRequest, StateView};

verus! {

/// The distance between two points along the grid.
pub open spec fn manhattan_spec(a: Coordinate, b: Coordinate) -> int {
    (if a.x >= b.x {
        a.x - b.x
    } else {
        b.x - a.x
    }) + (if a.y >= b.y {
        a.y - b.y
    } else {
        b.y - a.y
    })
}

/// Whether some point of the set is `d` away from `from`.
pub open spec fn reaches(points: Set<Coordinate>, from: Coordinate, d: int) -> bool {
    exists|p: Coordinate| points.contains(p) && #[trigger] manhattan_spec(p, from) == d
}

/// Whether `d` is the least distance from `from` to a point of the set.
pub open spec fn is_least(points: Set<Coordinate>, from: Coordinate, d: int) -> bool {
    reaches(points, from, d) && forall|p: Coordinate|
        points.contains(p) ==> #[trigger] manhattan_spec(p, from) >= d
}

/// The distance from `from` to the nearest point of the set, if that is less than 100;
/// zero where no point is that near.
pub open spec fn nearest(points: Set<Coordinate>, from: Coordinate) -> int {
    if exists|d: int| 0 <= d < 100 && is_least(points, from, d) {
        choose|d: int| 0 <= d < 100 && is_least(points, from, d)
    } else {
        0
    }
}

impl StateView {
    /// The heads of the agents other than the controlled one.
    pub open spec fn other_heads(self) -> Set<Coordinate> {
        Set::new(
            |p: Coordinate|
                exists|j: int|
                    0 <= j < self.snakes.len() && j != self.you
                        && (#[trigger] self.snakes[j]).head() == p,
        )
    }

    /// How far the controlled agent is from the nearest food.
    pub open spec fn goal_distance(self) -> int {
        nearest(self.food, self.snakes[self.you].head())
    }

    /// How far the controlled agent is from the nearest other head.
    pub open spec fn rival_distance(self) -> int {
        nearest(self.other_heads(), self.snakes[self.you].head())
    }

    /// The score of the state for the controlled agent: 700 for each of its segments, less 5
    /// for each living agent, less 300 for each step to the nearest food, less 30 for each
    /// step to the nearest other head. A segment counts for more than any distance on the
    /// board takes away, so a meal is never scored below a step elsewhere.
    pub open spec fn heuristic(self) -> int {
        self.snakes[self.you].body.len() * 700 - self.alive_count() * 5 - self.goal_distance() * 300
            - self.rival_distance() * 30
    }
}

/// A distance below 100 that no point beats is the nearest one.
pub proof fn lemma_nearest(points: Set<Coordinate>, from: Coordinate, d: int)
    requires
        0 <= d < 100,
        is_least(points, from, d),
    ensures
        nearest(points, from) == d,
{
}

/// The distance between the two points along the grid.
pub fn manhattan(pos1: &Coordinate, pos2: &Coordinate) -> (d: i32)
    requires
        manhattan_spec(*pos1, *pos2) <= i32::MAX,
    ensures
        d == manhattan_spec(*pos1, *pos2),
{
    let dx: i32 = if pos1.x >= pos2.x {
        pos1.x - pos2.x
    } else {
        pos2.x - pos1.x
    };
    let dy: i32 = if pos1.y >= pos2.y {
        pos1.y - pos2.y
    } else {
        pos2.y - pos1.y
    };
    dx + dy
}

/// The number of dead agents.
pub fn amnt_dead(board: &SmallRequest) -> (n: usize)
    ensures
        n == board@.snakes.len() - board@.alive_count(),
{
    let mut out: usize = 0;
    let mut i: usize = 0;
    while i < board.board.snakes.len()
        invariant
            i <= board.board.snakes.len(),
            out == i - count_alive(board@.snakes, i as nat),
        decreases board.board.snakes.len() - i,
    {
        if !board.board.snakes[i].alive {
            out += 1;
        }
        i += 1;
    }
    out
}

/// The score of a state at the leaves of the search.
pub trait StaticEval {
    /// Whether the state is one that can be scored.
    spec fn can_eval(&self) -> bool;

    /// The score of the state.
    spec fn score(&self) -> int;

    /// Scores the state for the controlled agent; a higher score is better for it.
    fn static_eval(&self) -> (r: i32)
        requires
            self.can_eval(),
        ensures
            r == self.score(),
    ;
}

impl SmallRequest {
    /// The least distance below `100` from `from` to one of the points, or 100.
    fn closest(points: &Vec<Coordinate>, from: &Coordinate) -> (best: i32)
        requires
            forall|k: int|
                0 <= k < points.len()
                    ==> -1 <= (#[trigger] points[k]).x <= 11 && -1 <= points[k].y <= 11,
            -1 <= from.x <= 11,
            -1 <= from.y <= 11,
        ensures
            0 <= best <= 100,
            best < 100 ==> is_least(points@.to_set(), *from, best as int),
            best == 100 ==> forall|p: Coordinate|
                points@.to_set().contains(p) ==> #[trigger] manhattan_spec(p, *from) >= 100,
    {
        let mut best: i32 = 100;
        let mut k: usize = 0;
        while k < points.len()
            invariant
                k <= points.len(),
                forall|k: int|
                    0 <= k < points.len()
                        ==> -1 <= (#[trigger] points[k]).x <= 11 && -1 <= points[k].y
                        <= 11,
                -1 <= from.x <= 11,
                -1 <= from.y <= 11,
                0 <= best <= 100,
                forall|q: int| 0 <= q < k ==> manhattan_spec(#[trigger] points[q], *from) >= best,
                best < 100 ==> exists|q: int|
                    0 <= q < k && manhattan_spec(#[trigger] points[q], *from) == best,
            decreases points.len() - k,
        {
            let d = manhattan(&points[k], from);
            if best > d {
                best = d;
            }
            k += 1;
        }
        best
    }
}

impl StaticEval for SmallRequest {
    open spec fn can_eval(&self) -> bool {
        self.wf()
    }

    open spec fn score(&self) -> int {
        self@.heuristic()
    }

    fn static_eval(&self) -> (r: i32) {
        let ghost s = self@;
        let n = self.board.snakes.len();
        let me = &self.board.snakes[self.you];
        proof {
            assert forall|k: int| 0 <= k < self.board.food.len() implies -1 <= (
            #[trigger] self.board.food[k]).x <= 11 && -1 <= self.board.food[k].y <= 11 by {
                assert(s.food.contains(self.board.food[k]));
            }
            assert(s.snakes[self.you as int] == me@);
            assert(s.snakes[self.you as int].sane());
        }
        let mut goal: i32 = Self::closest(&self.board.food, &me.head);
        if goal == 100 {
            goal = 0;
        }
        let mut rival: i32 = 100;
        let mut j: usize = 0;
        while j < n
            invariant
                j <= n == self.board.snakes.len(),
                s == self@,
                self.wf(),
                me == &self.board.snakes[self.you as int],
                -1 <= me.head.x <= 11,
                -1 <= me.head.y <= 11,
                0 <= rival <= 100,
                forall|q: int|
                    0 <= q < j && q != s.you
                        ==> manhattan_spec((#[trigger] s.snakes[q]).head(), me.head) >= rival,
                rival < 100 ==> exists|q: int|
                    0 <= q < j && q != s.you
                        && manhattan_spec((#[trigger] s.snakes[q]).head(), me.head) == rival,
            decreases n - j,
        {
            let snake = &self.board.snakes[j];
            proof {
                assert(s.snakes[j as int] == snake@);
                assert(s.snakes[j as int].sane());
                assert(snake.consistent(j as int));
                assert(me.consistent(self.you as int));
            }
            if snake.id != me.id {
                let d = manhattan(&snake.head, &me.head);
                if rival > d {
                    rival = d;
                }
            }
            j += 1;
        }
        proof {
            let heads = s.other_heads();
            if rival < 100 {
                lemma_nearest(heads, me.head, rival as int);
            }
        }
        if rival == 100 {
            rival = 0;
        }
        let dead = amnt_dead(self);
        let alive: i32 = (n - dead) as i32;
        let size: i32 = me.length as i32;
        size * 700 - alive * 5 - goal * 300 - rival * 30
    }
}

} // verus!
