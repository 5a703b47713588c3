use vstd::prelude::*;
use crate::bounded::{
    coords_get, coords_held, coords_len, coords_new, coords_push, healths_get, healths_held,
    healths_len, healths_new, healths_push, ids_get, ids_held, ids_len, ids_new, ids_push,
    moves_get, moves_held, moves_len, tails_get, tails_held, tails_len, tails_new, tails_push,
    CoordList, HealthList, IdList, MoveList, TailList,
};
use crate::coordinate::Coordinate;
use crate::direction::Move;
use crate::mask::{
    lemma_mask_meet, lemma_mask_of_insert, lemma_mask_of_remove, lemma_mask_of_test, mask_of,
};
use crate::small::{interior, SmallRequest, SnakeView, StateView};
use crate::turn::{
    assigned, direction_of, lemma_direction_of, lemma_round_trip, moves_valid, DeltaView,
};

verus! {

/// What one joint move does to a state and cannot be read off the state afterwards.
pub struct Delta {
    /// Food that was eaten in the move.
    eaten_food: CoordList,
    /// Agents that died in the move.
    died: IdList,
    /// Health before the meal, for each agent that ate: (index, health).
    prev_health: HealthList,
    /// The cell that each moved agent's last segment left: (index, cell).
    tails: TailList,
}

/// Whether one of the first `upto` records is for agent `id`.
pub open spec fn has_key<V>(list: Seq<(u8, V)>, upto: int, id: int) -> bool {
    exists|q: int| 0 <= q < upto && q < list.len() && (#[trigger] list[q]).0 == id
}

/// What the first `upto` records hold for agent `id`.
pub open spec fn value_of<V>(list: Seq<(u8, V)>, upto: int, id: int) -> V {
    list[choose|q: int| 0 <= q < upto && q < list.len() && (#[trigger] list[q]).0 == id].1
}

/// No agent has two records.
pub open spec fn distinct_keys<V>(list: Seq<(u8, V)>) -> bool {
    forall|j: int, k: int|
        0 <= j < k < list.len() ==> (#[trigger] list[j]).0 != (#[trigger] list[k]).0
}

/// Whether one of the first `upto` items is `id`.
pub open spec fn has_id(list: Seq<u8>, upto: int, id: int) -> bool {
    exists|q: int| 0 <= q < upto && q < list.len() && #[trigger] list[q] == id
}

/// One more record changes nothing for the other agents, and its own agent had none.
pub proof fn lemma_key_extend<V>(list: Seq<(u8, V)>, k: int, id: int)
    requires
        distinct_keys(list),
        0 <= k < list.len(),
    ensures
        id != list[k].0 ==> has_key(list, k + 1, id) == has_key(list, k, id),
        id != list[k].0 && has_key(list, k, id)
            ==> value_of(list, k + 1, id) == value_of(list, k, id),
        !has_key(list, k, list[k].0 as int),
{
}

impl View for Delta {
    type V = DeltaView;

    closed spec fn view(&self) -> DeltaView {
        let died = ids_held(self.died);
        let healths = healths_held(self.prev_health);
        let tails = tails_held(self.tails);
        DeltaView {
            eaten: coords_held(self.eaten_food).to_set(),
            died: Set::new(|i: int| has_id(died, died.len() as int, i)),
            prev_health: Map::new(
                |i: int| has_key(healths, healths.len() as int, i),
                |i: int| value_of(healths, healths.len() as int, i),
            ),
            tails: Map::new(
                |i: int| has_key(tails, tails.len() as int, i),
                |i: int| value_of(tails, tails.len() as int, i),
            ),
        }
    }
}

impl Delta {
    /// No list names a cell or an agent twice.
    pub closed spec fn wf(&self) -> bool {
        &&& coords_held(self.eaten_food).no_duplicates()
        &&& ids_held(self.died).no_duplicates()
        &&& distinct_keys(healths_held(self.prev_health))
        &&& distinct_keys(tails_held(self.tails))
    }

    /// The food that was eaten, each cell once.
    pub fn eaten_food(&self) -> (r: Vec<Coordinate>)
        requires
            self.wf(),
        ensures
            r@.no_duplicates(),
            r@.to_set() == self@.eaten,
    {
        let ghost list = coords_held(self.eaten_food);
        let mut out: Vec<Coordinate> = Vec::new();
        let n = coords_len(&self.eaten_food);
        let mut k: usize = 0;
        while k < n
            invariant
                k <= n == list.len(),
                list == coords_held(self.eaten_food),
                out@ == list.take(k as int),
            decreases n - k,
        {
            out.push(coords_get(&self.eaten_food, k));
            k += 1;
        }
        proof {
            assert(list.take(n as int) =~= list);
        }
        out
    }

    /// The agents that died, each once.
    pub fn died(&self) -> (r: Vec<u8>)
        requires
            self.wf(),
        ensures
            r@.no_duplicates(),
            forall|i: int|
                self@.died.contains(i) <==> exists|k: int| 0 <= k < r.len() && #[trigger] r[k] == i,
    {
        let ghost list = ids_held(self.died);
        let mut out: Vec<u8> = Vec::new();
        let n = ids_len(&self.died);
        let mut k: usize = 0;
        while k < n
            invariant
                k <= n == list.len(),
                list == ids_held(self.died),
                out@ == list.take(k as int),
            decreases n - k,
        {
            out.push(ids_get(&self.died, k));
            k += 1;
        }
        proof {
            assert(list.take(n as int) =~= list);
        }
        out
    }

    /// The health before the meal of each agent that ate: (index, health), each agent once.
    pub fn prev_health(&self) -> (r: Vec<(u8, u8)>)
        requires
            self.wf(),
        ensures
            distinct_keys(r@),
            forall|k: int|
                0 <= k < r.len() ==> self@.prev_health.dom().contains((#[trigger] r[k]).0 as int)
                    && self@.prev_health[r[k].0 as int] == r[k].1,
            forall|i: int| self@.prev_health.dom().contains(i) ==> has_key(r@, r.len() as int, i),
    {
        let ghost list = healths_held(self.prev_health);
        let mut out: Vec<(u8, u8)> = Vec::new();
        let n = healths_len(&self.prev_health);
        let mut k: usize = 0;
        while k < n
            invariant
                k <= n == list.len(),
                list == healths_held(self.prev_health),
                out@ == list.take(k as int),
            decreases n - k,
        {
            out.push(healths_get(&self.prev_health, k));
            k += 1;
        }
        proof {
            assert(list.take(n as int) =~= list);
        }
        out
    }

    /// The cell that the last segment of each moved agent left: (index, cell), each agent
    /// once.
    pub fn tails(&self) -> (r: Vec<(u8, Coordinate)>)
        requires
            self.wf(),
        ensures
            distinct_keys(r@),
            forall|k: int|
                0 <= k < r.len() ==> self@.tails.dom().contains((#[trigger] r[k]).0 as int)
                    && self@.tails[r[k].0 as int] == r[k].1,
            forall|i: int| self@.tails.dom().contains(i) ==> has_key(r@, r.len() as int, i),
    {
        let ghost list = tails_held(self.tails);
        let mut out: Vec<(u8, Coordinate)> = Vec::new();
        let n = tails_len(&self.tails);
        let mut k: usize = 0;
        while k < n
            invariant
                k <= n == list.len(),
                list == tails_held(self.tails),
                out@ == list.take(k as int),
            decreases n - k,
        {
            out.push(tails_get(&self.tails, k));
            k += 1;
        }
        proof {
            assert(list.take(n as int) =~= list);
        }
        out
    }
}

/// The tails that a joint move vector records, in the order of its moves.
pub open spec fn tails_of(s: StateView, moves: Seq<Move>) -> Seq<(u8, Coordinate)> {
    Seq::new(moves.len(), |k: int| (moves[k].id, s.snakes[moves[k].id as int].body.last()))
}

impl SmallRequest {
    /// Everything but the agents and the food is as in `pre`.
    pub open spec fn same_frame(&self, pre: StateView) -> bool {
        &&& self.turn == pre.turn
        &&& self.you == pre.you
        &&& self.board.zobrist == pre.zobrist
        &&& self.board.width == pre.width
        &&& self.board.height == pre.height
        &&& self.board.hazards@ == pre.hazards
        &&& self.board.snakes.len() == pre.snakes.len()
    }

    /// Phase one: every agent with a move takes its step, and the cell that its last segment
    /// left is recorded.
    fn move_snakes(&mut self, moves: &MoveList, delta: &mut Delta)
        requires
            old(self).wf(),
            moves_valid(old(self)@, moves_held(*moves)),
            tails_held(old(delta).tails).len() == 0,
        ensures
            final(self).consistent(),
            final(self)@ == old(self)@.after_move(moves_held(*moves)),
            tails_held(final(delta).tails) == tails_of(old(self)@, moves_held(*moves)),
            final(delta).eaten_food == old(delta).eaten_food,
            final(delta).died == old(delta).died,
            final(delta).prev_health == old(delta).prev_health,
    {
        let ghost pre = self@;
        let ghost mv = moves_held(*moves);
        let n = moves_len(moves);
        let mut k: usize = 0;
        while k < n
            invariant
                k <= n == mv.len() <= 4,
                mv == moves_held(*moves),
                pre.wf(),
                moves_valid(pre, mv),
                self.same_frame(pre),
                self.board.food@ == old(self).board.food@,
                self.board.food_bb == old(self).board.food_bb,
                self.board.food@.no_duplicates(),
                self.board.food_bb == mask_of(self.board.food@.to_set()),
                pre.food == self.board.food@.to_set(),
                forall|i: int|
                    0 <= i < self.board.snakes.len()
                        ==> (#[trigger] self.board.snakes[i]).consistent(i),
                forall|i: int|
                    0 <= i < self.board.snakes.len()
                        ==> (#[trigger] self.board.snakes[i])@ == if assigned(
                        mv.take(k as int),
                        i,
                    ) {
                        pre.snakes[i].stepped(direction_of(mv.take(k as int), i))
                    } else {
                        pre.snakes[i]
                    },
                tails_held(delta.tails) == tails_of(pre, mv.take(k as int)),
                delta.eaten_food == old(delta).eaten_food,
                delta.died == old(delta).died,
                delta.prev_health == old(delta).prev_health,
            decreases n - k,
        {
            let m = moves_get(moves, k);
            let id = m.id as usize;
            let ghost before = mv.take(k as int);
            let ghost now = mv.take(k + 1);
            proof {
                lemma_direction_of(now, k as int);
            }
            let snake = &mut self.board.snakes[id];
            let new_head = snake.head + Coordinate::from(m.direction);
            snake.body.insert(0, new_head);
            let tail = snake.body.pop().unwrap();
            snake.refresh();
            tails_push(&mut delta.tails, (m.id, tail));
            proof {
                assert forall|i: int| 0 <= i < self.board.snakes.len() implies (
                #[trigger] self.board.snakes[i])@ == if assigned(now, i) {
                    pre.snakes[i].stepped(direction_of(now, i))
                } else {
                    pre.snakes[i]
                } by {
                    if i == id {
                        assert(self.board.snakes[i]@.body
                            =~= pre.snakes[i].stepped(m.direction).body);
                    } else {
                        if assigned(before, i) {
                            let j = choose|j: int|
                                0 <= j < before.len() && (#[trigger] before[j]).id == i;
                            lemma_direction_of(before, j);
                            lemma_direction_of(now, j);
                        }
                        if assigned(now, i) {
                            let j = choose|j: int|
                                0 <= j < now.len() && (#[trigger] now[j]).id == i;
                        }
                    }
                }
            }
            k += 1;
        }
        proof {
            assert(mv.take(k as int) =~= mv);
        }
    }

    /// Phase two: every living agent loses one health.
    fn reduce_health(&mut self)
        requires
            old(self).consistent(),
            forall|i: int|
                0 <= i < old(self).board.snakes.len()
                    && (#[trigger] old(self).board.snakes[i]).alive
                    ==> old(self).board.snakes[i].health >= 1,
        ensures
            final(self).consistent(),
            final(self)@ == old(self)@.after_hunger(),
    {
        let ghost pre = self@;
        let n = self.board.snakes.len();
        let mut i: usize = 0;
        while i < n
            invariant
                i <= n == self.board.snakes.len(),
                self.same_frame(pre),
                self.board.food@ == old(self).board.food@,
                self.board.food_bb == old(self).board.food_bb,
                pre == old(self)@,
                forall|j: int|
                    0 <= j < n ==> (#[trigger] self.board.snakes[j]).consistent(j),
                forall|j: int|
                    0 <= j < i ==> (#[trigger] self.board.snakes[j])@ == pre.snakes[j].starved(),
                forall|j: int|
                    i <= j < n ==> (#[trigger] self.board.snakes[j])@ == pre.snakes[j],
                forall|j: int|
                    0 <= j < n && (#[trigger] pre.snakes[j]).alive ==> pre.snakes[j].health >= 1,
            decreases n - i,
        {
            if self.board.snakes[i].alive {
                self.board.snakes[i].health -= 1;
            }
            i += 1;
        }
    }
}

/// The health records fit the state: one for each agent that eats, with the health it has.
pub open spec fn healths_match(list: Seq<(u8, u8)>, s: StateView, upto: int) -> bool {
    &&& forall|k: int|
        0 <= k < list.len() ==> (#[trigger] list[k]).0 < upto && s.eats(list[k].0 as int)
            && list[k].1 == s.snakes[list[k].0 as int].health
    &&& forall|i: int|
        0 <= i < upto && s.eats(i) ==> exists|k: int|
            0 <= k < list.len() && (#[trigger] list[k]).0 == i
    &&& forall|j: int, k: int|
        0 <= j < k < list.len() ==> (#[trigger] list[j]).0 < (#[trigger] list[k]).0
}

/// The food under the heads of the living agents before agent `upto`.
pub open spec fn eaten_upto(s: StateView, upto: int) -> Set<Coordinate> {
    Set::new(
        |c: Coordinate|
            exists|i: int|
                0 <= i < upto && i < s.snakes.len() && s.eats(i)
                    && (#[trigger] s.snakes[i]).head() == c,
    )
}

/// Taking item `p` out of a list without repeats, by moving the last item into its place,
/// leaves a list without repeats that holds the other items.
pub proof fn lemma_swap_remove(list: Seq<Coordinate>, p: int)
    requires
        list.no_duplicates(),
        0 <= p < list.len(),
    ensures
        list.update(p, list.last()).drop_last().no_duplicates(),
        list.update(p, list.last()).drop_last().to_set() == list.to_set().remove(list[p]),
{
    let out = list.update(p, list.last()).drop_last();
    assert forall|c: Coordinate|
        out.to_set().contains(c) == list.to_set().remove(list[p]).contains(c) by {
        if list.to_set().remove(list[p]).contains(c) {
            let j = choose|j: int| 0 <= j < list.len() && list[j] == c;
            if j == list.len() - 1 {
                assert(out[p] == c);
            } else {
                assert(out[j] == c);
            }
        }
    }
}

/// Whether the list holds the point.
fn coords_contains(list: &CoordList, c: Coordinate) -> (r: bool)
    ensures
        r == coords_held(*list).contains(c),
{
    let n = coords_len(list);
    let mut k: usize = 0;
    while k < n
        invariant
            k <= n == coords_held(*list).len(),
            forall|j: int| 0 <= j < k ==> coords_held(*list)[j] != c,
        decreases n - k,
    {
        if coords_get(list, k) == c {
            return true;
        }
        k += 1;
    }
    false
}

/// The place of the point in the list, if it is there.
fn position_of(list: &Vec<Coordinate>, c: Coordinate) -> (r: Option<usize>)
    ensures
        match r {
            Some(p) => p < list.len() && list[p as int] == c,
            None => !list@.contains(c),
        },
{
    let mut k: usize = 0;
    while k < list.len()
        invariant
            k <= list.len(),
            forall|j: int| 0 <= j < k ==> list[j] != c,
        decreases list.len() - k,
    {
        if list[k] == c {
            return Some(k);
        }
        k += 1;
    }
    None
}

impl SmallRequest {
    /// Phase three: every living agent with its head on food is fed, its health before the
    /// meal is recorded, and the food that was eaten leaves the board and is recorded once.
    fn maybe_feed_snakes(&mut self, delta: &mut Delta)
        requires
            old(self).consistent(),
            old(self)@.sane(),
            old(self)@.room(1),
            coords_held(old(delta).eaten_food).len() == 0,
            healths_held(old(delta).prev_health).len() == 0,
        ensures
            final(self).consistent(),
            final(self)@ == old(self)@.after_feed(),
            coords_held(final(delta).eaten_food).no_duplicates(),
            coords_held(final(delta).eaten_food).to_set() == old(self)@.eaten(),
            healths_match(
                healths_held(final(delta).prev_health),
                old(self)@,
                old(self)@.snakes.len() as int,
            ),
            final(delta).died == old(delta).died,
            final(delta).tails == old(delta).tails,
    {
        let ghost pre = self@;
        let n = self.board.snakes.len();
        let mut i: usize = 0;
        while i < n
            invariant
                i <= n == self.board.snakes.len() <= 4,
                pre == old(self)@,
                pre.sane(),
                pre.room(1),
                self.same_frame(pre),
                self.board.food@ == old(self).board.food@,
                self.board.food_bb == old(self).board.food_bb,
                self.board.food_bb == mask_of(pre.food),
                forall|j: int| 0 <= j < n ==> (#[trigger] self.board.snakes[j]).consistent(j),
                forall|j: int|
                    0 <= j < i ==> (#[trigger] self.board.snakes[j])@ == if pre.eats(j) {
                        pre.snakes[j].fed()
                    } else {
                        pre.snakes[j]
                    },
                forall|j: int| i <= j < n ==> (#[trigger] self.board.snakes[j])@ == pre.snakes[j],
                coords_held(delta.eaten_food).no_duplicates(),
                coords_held(delta.eaten_food).to_set() == eaten_upto(pre, i as int),
                coords_held(delta.eaten_food).len() <= i,
                healths_match(healths_held(delta.prev_health), pre, i as int),
                healths_held(delta.prev_health).len() <= i,
                delta.died == old(delta).died,
                delta.tails == old(delta).tails,
            decreases n - i,
        {
            let ghost eaten_before = coords_held(delta.eaten_food);
            let ghost healths_before = healths_held(delta.prev_health);
            proof {
                lemma_mask_of_test(pre.food, self.board.snakes[i as int].head);
            }
            let head = self.board.snakes[i].head;
            if self.board.snakes[i].alive && (self.board.snakes[i].head_bb & self.board.food_bb)
                != 0 {
                let snake = &mut self.board.snakes[i];
                healths_push(&mut delta.prev_health, (snake.id, snake.health));
                let last = snake.body[snake.body.len() - 1];
                snake.body.push(last);
                snake.health = 100;
                snake.refresh();
                if !coords_contains(&delta.eaten_food, head) {
                    coords_push(&mut delta.eaten_food, head);
                }
                proof {
                    let eaten_now = coords_held(delta.eaten_food);
                    assert(eaten_now.to_set() =~= eaten_upto(pre, i + 1)) by {
                        assert forall|c: Coordinate|
                            eaten_now.to_set().contains(c)
                                == eaten_upto(pre, i + 1).contains(c) by {
                            if eaten_upto(pre, i + 1).contains(c) {
                                let j = choose|j: int|
                                    0 <= j < i + 1 && j < pre.snakes.len() && pre.eats(j)
                                        && (#[trigger] pre.snakes[j]).head() == c;
                                if j < i {
                                    assert(eaten_upto(pre, i as int).contains(c));
                                    let k = choose|k: int|
                                        0 <= k < eaten_before.len() && eaten_before[k] == c;
                                    assert(eaten_now[k] == c);
                                } else {
                                    if !eaten_before.contains(head) {
                                        assert(eaten_now[eaten_now.len() - 1] == c);
                                    }
                                }
                            }
                            if eaten_now.to_set().contains(c) {
                                let k = choose|k: int|
                                    0 <= k < eaten_now.len() && eaten_now[k] == c;
                                if k < eaten_before.len() {
                                    assert(eaten_before.to_set().contains(c));
                                }
                            }
                        }
                    }
                    let healths_now = healths_held(delta.prev_health);
                    assert(healths_match(healths_now, pre, i + 1)) by {
                        assert forall|j: int|
                            0 <= j < i + 1 && pre.eats(j) implies exists|k: int|
                                0 <= k < healths_now.len()
                                    && (#[trigger] healths_now[k]).0 == j by {
                            if j < i {
                                let k = choose|k: int|
                                    0 <= k < healths_before.len()
                                        && (#[trigger] healths_before[k]).0 == j;
                                assert(healths_now[k].0 == j);
                            } else {
                                assert(healths_now[healths_now.len() - 1].0 == j);
                            }
                        }
                    }
                }
            }
            i += 1;
        }
        let ghost fed_snakes = self@.snakes;
        let m = coords_len(&delta.eaten_food);
        let mut e: usize = 0;
        while e < m
            invariant
                e <= m == coords_held(delta.eaten_food).len(),
                pre.sane(),
                self.same_frame(pre),
                self@.snakes == fed_snakes,
                forall|j: int|
                    0 <= j < self.board.snakes.len()
                        ==> (#[trigger] self.board.snakes[j]).consistent(j),
                coords_held(delta.eaten_food).no_duplicates(),
                coords_held(delta.eaten_food).to_set() == pre.eaten(),
                self.board.food@.no_duplicates(),
                self.board.food@.to_set() == pre.food.difference(
                    coords_held(delta.eaten_food).take(e as int).to_set(),
                ),
                self.board.food_bb == mask_of(self.board.food@.to_set()),
            decreases m - e,
        {
            let c = coords_get(&delta.eaten_food, e);
            let ghost list = coords_held(delta.eaten_food);
            let ghost food_before = self.board.food@;
            proof {
                assert(list.to_set().contains(c));
                assert(food_before.to_set().contains(c));
            }
            let p = position_of(&self.board.food, c).unwrap();
            self.board.food.swap_remove(p);
            self.board.food_bb = self.board.food_bb & !c.encode();
            proof {
                lemma_swap_remove(food_before, p as int);
                lemma_mask_of_remove(food_before.to_set(), c);
                assert(list.take(e + 1).to_set() =~= list.take(e as int).to_set().insert(c)) by {
                    assert(list.take(e + 1) =~= list.take(e as int).push(c));
                    list.take(e as int).lemma_push_to_set_commute(c);
                }
            }
            e += 1;
        }
        proof {
            assert(coords_held(delta.eaten_food).take(m as int) =~= coords_held(delta.eaten_food));
        }
    }
}

/// The death records fit the state: one for each agent that dies of it.
pub open spec fn deaths_match(list: Seq<u8>, s: StateView, upto: int) -> bool {
    &&& forall|k: int| 0 <= k < list.len() ==> (#[trigger] list[k]) < upto && s.dies(list[k] as int)
    &&& forall|i: int|
        0 <= i < upto && s.dies(i) ==> exists|k: int| 0 <= k < list.len() && #[trigger] list[k] == i
    &&& forall|j: int, k: int|
        0 <= j < k < list.len() ==> (#[trigger] list[j]) < (#[trigger] list[k])
}

impl SmallRequest {
    /// Whether agent `i` dies of the state as it stands.
    fn doomed(&self, i: usize) -> (r: bool)
        requires
            self.consistent(),
            self@.sane(),
            i < self.board.snakes.len(),
        ensures
            r == self@.dies(i as int),
    {
        let ghost s = self@;
        let me = &self.board.snakes[i];
        if !me.alive {
            return false;
        }
        if me.health == 0 {
            return true;
        }
        if me.head.x >= self.board.width as i32 || me.head.x < 0 || me.head.y
            >= self.board.height as i32 || me.head.y < 0 {
            return true;
        }
        let n = self.board.snakes.len();
        let mut j: usize = 0;
        while j < n
            invariant
                j <= n == self.board.snakes.len(),
                i < n,
                s == self@,
                self.consistent(),
                me == &self.board.snakes[i as int],
                me.alive,
                me.health != 0,
                s.on_board(me.head),
                me.head.in_range(),
                forall|k: int|
                    0 <= k < j ==> !s.hits_body(i as int, k) && !s.loses_head_on(i as int, k),
            decreases n - j,
        {
            let other = &self.board.snakes[j];
            proof {
                lemma_mask_of_test(interior(other.body@), me.head);
                lemma_mask_meet(other.head, me.head);
            }
            if other.alive {
                if (other.body_bb & me.head_bb) != 0 {
                    assert(s.hits_body(i as int, j as int));
                    return true;
                }
                if me.id != other.id && (other.head_bb & me.head_bb) != 0 && me.length
                    <= other.length {
                    assert(s.loses_head_on(i as int, j as int));
                    return true;
                }
            }
            j += 1;
        }
        false
    }

    /// Phase four: the agents that die of the state as it stands after the first three
    /// phases are found first, then marked dead together and recorded.
    fn maybe_eliminate_snakes(&mut self, delta: &mut Delta)
        requires
            old(self).consistent(),
            old(self)@.sane(),
            ids_held(old(delta).died).len() == 0,
        ensures
            final(self).consistent(),
            final(self)@ == old(self)@.after_elimination(),
            deaths_match(ids_held(final(delta).died), old(self)@, old(self)@.snakes.len() as int),
            final(delta).eaten_food == old(delta).eaten_food,
            final(delta).prev_health == old(delta).prev_health,
            final(delta).tails == old(delta).tails,
    {
        let ghost pre = self@;
        let n = self.board.snakes.len();
        let mut i: usize = 0;
        while i < n
            invariant
                i <= n == self.board.snakes.len() <= 4,
                *self == *old(self),
                pre == self@,
                self.consistent(),
                pre.sane(),
                deaths_match(ids_held(delta.died), pre, i as int),
                ids_held(delta.died).len() <= i,
                delta.eaten_food == old(delta).eaten_food,
                delta.prev_health == old(delta).prev_health,
                delta.tails == old(delta).tails,
            decreases n - i,
        {
            let ghost before = ids_held(delta.died);
            if self.doomed(i) {
                ids_push(&mut delta.died, i as u8);
                proof {
                    let now = ids_held(delta.died);
                    assert forall|j: int|
                        0 <= j < i + 1 && pre.dies(j) implies exists|k: int|
                            0 <= k < now.len() && #[trigger] now[k] == j by {
                        if j < i {
                            let k = choose|k: int|
                                0 <= k < before.len() && #[trigger] before[k] == j;
                            assert(now[k] == j);
                        } else {
                            assert(now[now.len() - 1] == j);
                        }
                    }
                }
            }
            i += 1;
        }
        let m = ids_len(&delta.died);
        let mut k: usize = 0;
        while k < m
            invariant
                k <= m == ids_held(delta.died).len(),
                n == self.board.snakes.len(),
                self.same_frame(pre),
                self.board.food@ == old(self).board.food@,
                self.board.food_bb == old(self).board.food_bb,
                deaths_match(ids_held(delta.died), pre, n as int),
                forall|j: int| 0 <= j < n ==> (#[trigger] self.board.snakes[j]).consistent(j),
                forall|j: int|
                    0 <= j < n ==> (#[trigger] self.board.snakes[j])@ == (SnakeView {
                        alive: pre.snakes[j].alive && !(exists|q: int|
                            0 <= q < k && #[trigger] ids_held(delta.died)[q] == j),
                        ..pre.snakes[j]
                    }),
                delta.eaten_food == old(delta).eaten_food,
                delta.prev_health == old(delta).prev_health,
                delta.tails == old(delta).tails,
            decreases m - k,
        {
            let id = ids_get(&delta.died, k) as usize;
            self.board.snakes[id].alive = false;
            k += 1;
        }
    }
}

impl SmallRequest {
    /// Undoing, third step: the food that was eaten is back on the board.
    fn restore_food(&mut self, delta: &Delta)
        requires
            old(self).consistent(),
            delta.wf(),
            old(self)@.food.disjoint(delta@.eaten),
        ensures
            final(self).consistent(),
            final(self)@ == (StateView { food: old(self)@.food.union(delta@.eaten), ..old(self)@ }),
    {
        let ghost pre = self@;
        let ghost list = coords_held(delta.eaten_food);
        let m = coords_len(&delta.eaten_food);
        let mut e: usize = 0;
        while e < m
            invariant
                e <= m == list.len(),
                list == coords_held(delta.eaten_food),
                list.no_duplicates(),
                pre.food.disjoint(list.to_set()),
                self.same_frame(pre),
                self@.snakes == pre.snakes,
                forall|j: int|
                    0 <= j < self.board.snakes.len()
                        ==> (#[trigger] self.board.snakes[j]).consistent(j),
                self.board.food@.no_duplicates(),
                self.board.food@.to_set() == pre.food.union(list.take(e as int).to_set()),
                self.board.food_bb == mask_of(self.board.food@.to_set()),
            decreases m - e,
        {
            let c = coords_get(&delta.eaten_food, e);
            let ghost food_before = self.board.food@;
            proof {
                assert(!food_before.to_set().contains(c));
                lemma_mask_of_insert(food_before.to_set(), c);
                food_before.lemma_push_to_set_commute(c);
                assert(list.take(e + 1) =~= list.take(e as int).push(c));
                list.take(e as int).lemma_push_to_set_commute(c);
            }
            self.board.food.push(c);
            self.board.food_bb = self.board.food_bb | c.mask();
            e += 1;
        }
        proof {
            assert(list.take(m as int) =~= list);
        }
    }

    /// Undoing, first step: the agents that died are alive again.
    fn revive(&mut self, delta: &Delta)
        requires
            old(self).consistent(),
            forall|i: int| delta@.died.contains(i) ==> 0 <= i < old(self).board.snakes.len(),
        ensures
            final(self).consistent(),
            final(self)@.snakes.len() == old(self)@.snakes.len(),
            forall|j: int|
                0 <= j < old(self)@.snakes.len()
                    ==> #[trigger] final(self)@.snakes[j] == (SnakeView {
                    alive: old(self)@.snakes[j].alive || delta@.died.contains(j),
                    ..old(self)@.snakes[j]
                }),
            final(self)@ == (StateView { snakes: final(self)@.snakes, ..old(self)@ }),
    {
        let ghost pre = self@;
        let ghost list = ids_held(delta.died);
        let m = ids_len(&delta.died);
        let mut k: usize = 0;
        while k < m
            invariant
                k <= m == list.len(),
                list == ids_held(delta.died),
                forall|i: int| delta@.died.contains(i) ==> 0 <= i < self.board.snakes.len(),
                self.same_frame(pre),
                self.board.food@ == old(self).board.food@,
                self.board.food_bb == old(self).board.food_bb,
                old(self).consistent(),
                pre == old(self)@,
                forall|j: int|
                    0 <= j < self.board.snakes.len()
                        ==> (#[trigger] self.board.snakes[j]).consistent(j),
                forall|j: int|
                    0 <= j < self.board.snakes.len()
                        ==> (#[trigger] self.board.snakes[j])@ == (SnakeView {
                        alive: pre.snakes[j].alive || has_id(list, k as int, j),
                        ..pre.snakes[j]
                    }),
            decreases m - k,
        {
            let id = ids_get(&delta.died, k) as usize;
            proof {
                assert(delta@.died.contains(id as int));
            }
            self.board.snakes[id].alive = true;
            k += 1;
        }
    }

    /// Undoing, second step: an agent that ate has the health it had before, and gives up
    /// the segment it gained.
    fn unfeed(&mut self, delta: &Delta)
        requires
            old(self).consistent(),
            delta.wf(),
            forall|i: int|
                #[trigger] delta@.prev_health.dom().contains(i)
                    ==> 0 <= i < old(self).board.snakes.len()
                    && old(self)@.snakes[i].body.len() >= 2,
        ensures
            final(self).consistent(),
            final(self)@.snakes.len() == old(self)@.snakes.len(),
            forall|j: int|
                0 <= j < old(self)@.snakes.len()
                    ==> #[trigger] final(self)@.snakes[j] == old(self)@.snakes[j].unfed(
                    delta@,
                    j,
                ),
            final(self)@ == (StateView { snakes: final(self)@.snakes, ..old(self)@ }),
    {
        let ghost pre = self@;
        let ghost list = healths_held(delta.prev_health);
        let m = healths_len(&delta.prev_health);
        let mut k: usize = 0;
        while k < m
            invariant
                k <= m == list.len(),
                list == healths_held(delta.prev_health),
                distinct_keys(list),
                forall|i: int|
                    #[trigger] delta@.prev_health.dom().contains(i)
                        ==> 0 <= i < self.board.snakes.len()
                        && pre.snakes[i].body.len() >= 2,
                self.same_frame(pre),
                self.board.food@ == old(self).board.food@,
                self.board.food_bb == old(self).board.food_bb,
                old(self).consistent(),
                pre == old(self)@,
                forall|j: int|
                    0 <= j < self.board.snakes.len()
                        ==> (#[trigger] self.board.snakes[j]).consistent(j),
                forall|j: int|
                    0 <= j < self.board.snakes.len()
                        ==> (#[trigger] self.board.snakes[j])@ == if has_key(
                        list,
                        k as int,
                        j,
                    ) {
                        SnakeView {
                            health: value_of(list, k as int, j),
                            body: pre.snakes[j].body.drop_last(),
                            ..pre.snakes[j]
                        }
                    } else {
                        pre.snakes[j]
                    },
            decreases m - k,
        {
            let record = healths_get(&delta.prev_health, k);
            let id = record.0 as usize;
            proof {
                assert(delta@.prev_health.dom().contains(id as int));
            }
            let snake = &mut self.board.snakes[id];
            snake.health = record.1;
            snake.body.pop();
            snake.refresh();
            proof {
                assert forall|j: int|
                    0 <= j < self.board.snakes.len()
                        implies (#[trigger] self.board.snakes[j])@ == if has_key(
                    list,
                    k + 1,
                    j,
                ) {
                    SnakeView {
                        health: value_of(list, k + 1, j),
                        body: pre.snakes[j].body.drop_last(),
                        ..pre.snakes[j]
                    }
                } else {
                    pre.snakes[j]
                } by {
                    if j != id {
                        lemma_key_extend(list, k as int, j);
                    }
                }
            }
            k += 1;
        }
    }

    /// Undoing, fourth step: every living agent has the health back that the turn took.
    fn regain_health(&mut self)
        requires
            old(self).consistent(),
            forall|i: int|
                0 <= i < old(self).board.snakes.len()
                    && (#[trigger] old(self).board.snakes[i]).alive
                    ==> old(self).board.snakes[i].health < 255,
        ensures
            final(self).consistent(),
            final(self)@.snakes.len() == old(self)@.snakes.len(),
            forall|j: int|
                0 <= j < old(self)@.snakes.len()
                    ==> #[trigger] final(self)@.snakes[j] == (SnakeView {
                    health: if old(self)@.snakes[j].alive {
                        (old(self)@.snakes[j].health + 1) as u8
                    } else {
                        old(self)@.snakes[j].health
                    },
                    ..old(self)@.snakes[j]
                }),
            final(self)@ == (StateView { snakes: final(self)@.snakes, ..old(self)@ }),
    {
        let ghost pre = self@;
        let n = self.board.snakes.len();
        let mut i: usize = 0;
        while i < n
            invariant
                i <= n == self.board.snakes.len(),
                self.same_frame(pre),
                self.board.food@ == old(self).board.food@,
                self.board.food_bb == old(self).board.food_bb,
                old(self).consistent(),
                pre == old(self)@,
                forall|j: int| 0 <= j < n ==> (#[trigger] self.board.snakes[j]).consistent(j),
                forall|j: int|
                    0 <= j < i ==> (#[trigger] self.board.snakes[j])@ == (SnakeView {
                        health: if pre.snakes[j].alive {
                            (pre.snakes[j].health + 1) as u8
                        } else {
                            pre.snakes[j].health
                        },
                        ..pre.snakes[j]
                    }),
                forall|j: int| i <= j < n ==> (#[trigger] self.board.snakes[j])@ == pre.snakes[j],
                forall|j: int|
                    0 <= j < n && (#[trigger] old(self).board.snakes[j]).alive ==> old(
                        self,
                    ).board.snakes[j].health < 255,
            decreases n - i,
        {
            if self.board.snakes[i].alive {
                self.board.snakes[i].health += 1;
            }
            i += 1;
        }
    }

    /// Undoing, last step: an agent that moved has its last segment back and its head gone.
    fn step_back(&mut self, delta: &Delta)
        requires
            old(self).consistent(),
            delta.wf(),
            forall|i: int| delta@.tails.dom().contains(i) ==> 0 <= i < old(self).board.snakes.len(),
        ensures
            final(self).consistent(),
            final(self)@.snakes.len() == old(self)@.snakes.len(),
            forall|j: int|
                0 <= j < old(self)@.snakes.len()
                    ==> #[trigger] final(self)@.snakes[j] == (SnakeView {
                    body: if delta@.tails.dom().contains(j) {
                        old(self)@.snakes[j].body.push(delta@.tails[j]).drop_first()
                    } else {
                        old(self)@.snakes[j].body
                    },
                    ..old(self)@.snakes[j]
                }),
            final(self)@ == (StateView { snakes: final(self)@.snakes, ..old(self)@ }),
    {
        let ghost pre = self@;
        let ghost list = tails_held(delta.tails);
        let m = tails_len(&delta.tails);
        let mut k: usize = 0;
        while k < m
            invariant
                k <= m == list.len(),
                list == tails_held(delta.tails),
                distinct_keys(list),
                forall|i: int| delta@.tails.dom().contains(i) ==> 0 <= i < self.board.snakes.len(),
                self.same_frame(pre),
                self.board.food@ == old(self).board.food@,
                self.board.food_bb == old(self).board.food_bb,
                old(self).consistent(),
                pre == old(self)@,
                forall|j: int|
                    0 <= j < self.board.snakes.len()
                        ==> (#[trigger] self.board.snakes[j]).consistent(j),
                forall|j: int|
                    0 <= j < self.board.snakes.len()
                        ==> (#[trigger] self.board.snakes[j])@ == (SnakeView {
                        body: if has_key(list, k as int, j) {
                            pre.snakes[j].body.push(value_of(list, k as int, j)).drop_first()
                        } else {
                            pre.snakes[j].body
                        },
                        ..pre.snakes[j]
                    }),
            decreases m - k,
        {
            let record = tails_get(&delta.tails, k);
            let id = record.0 as usize;
            proof {
                assert(delta@.tails.dom().contains(id as int));
            }
            let snake = &mut self.board.snakes[id];
            snake.body.push(record.1);
            snake.body.remove(0);
            snake.refresh();
            k += 1;
        }
    }
}

/// Advancing a state by one joint move, and taking the move back.
pub trait MakeUnmake {
    /// Whether `moves` is a joint move vector that the state can take.
    spec fn can_make(&self, moves: &MoveList) -> bool;

    /// Whether `delta` can be taken back from the state.
    spec fn can_unmake(&self, delta: &Delta) -> bool;

    /// Advances the state by one joint move vector and returns what the move leaves behind.
    fn make_move(&mut self, moves: &MoveList) -> Delta
        requires
            old(self).can_make(moves),
    ;

    /// Takes back the move that left `delta` behind.
    fn unmake_move(&mut self, delta: &Delta)
        requires
            old(self).can_unmake(delta),
    ;
}

impl MakeUnmake for SmallRequest {
    open spec fn can_make(&self, moves: &MoveList) -> bool {
        &&& self.wf()
        &&& self@.room(1)
        &&& moves_valid(self@, moves_held(*moves))
    }

    open spec fn can_unmake(&self, delta: &Delta) -> bool {
        &&& self.consistent()
        &&& delta.wf()
        &&& self@.undoable(delta@)
    }

    fn make_move(&mut self, moves: &MoveList) -> (delta: Delta)
        ensures
            final(self).wf(),
            final(self)@ == old(self)@.apply_spec(moves_held(*moves)),
            delta.wf(),
            delta@ == old(self)@.delta_spec(moves_held(*moves)),
            final(self).can_unmake(&delta),
    {
        let ghost pre = self@;
        let ghost mv = moves_held(*moves);
        let mut out = Delta {
            eaten_food: coords_new(),
            died: ids_new(),
            prev_health: healths_new(),
            tails: tails_new(),
        };
        proof {
            lemma_round_trip(pre, mv);
        }
        self.move_snakes(moves, &mut out);
        proof {
            assert forall|i: int|
                0 <= i < self.board.snakes.len() && (#[trigger] self.board.snakes[i]).alive
                    implies self.board.snakes[i].health >= 1 by {
                assert(self.board.snakes[i]@ == pre.after_move(mv).snakes[i]);
            }
        }
        self.reduce_health();
        self.maybe_feed_snakes(&mut out);
        self.maybe_eliminate_snakes(&mut out);
        proof {
            let moved = pre.after_move(mv).after_hunger();
            let n = pre.snakes.len() as int;
            let want = pre.delta_spec(mv);
            let tails = tails_held(out.tails);
            assert forall|i: int| out@.tails.dom().contains(i) == want.tails.dom().contains(i) by {
                if 0 <= i < n && assigned(mv, i) {
                    let q = choose|q: int| 0 <= q < mv.len() && (#[trigger] mv[q]).id == i;
                    assert(tails[q].0 == i);
                }
            }
        }
        out
    }

    fn unmake_move(&mut self, delta: &Delta)
        ensures
            final(self).consistent(),
            final(self)@ == old(self)@.unmake_spec(delta@),
            old(self)@.unmake_spec(delta@).wf() ==> final(self).wf(),
    {
        let ghost pre = self@;
        let ghost d = delta@;
        self.revive(delta);
        self.unfeed(delta);
        self.restore_food(delta);
        proof {
            assert forall|i: int|
                0 <= i < self.board.snakes.len() && (#[trigger] self.board.snakes[i]).alive
                    implies self.board.snakes[i].health < 255 by {
                assert(self.board.snakes[i]@ == self@.snakes[i]);
            }
        }
        self.regain_health();
        self.step_back(delta);
    }
}

} // verus!
