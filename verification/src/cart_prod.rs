use vstd::prelude::*;
use crate::bounded::{
    joint_get, joint_held, joint_len, joint_new, joint_push, move_sets_get, move_sets_held,
    move_sets_len, moves_get, moves_held, moves_len, moves_new, moves_push, JointMoves, MoveList,
    MoveSets,
};
use crate::direction::Move;

verus! {

/// Each vector of `a` followed by each item of `b`, for the first `n` vectors of `a`: the
/// vectors of `a` in their order, and for each the items of `b` in theirs.
pub open spec fn rows(a: Seq<Seq<Move>>, b: Seq<Move>, n: nat) -> Seq<Seq<Move>>
    decreases n,
{
    if n == 0 {
        Seq::empty()
    } else {
        rows(a, b, (n - 1) as nat) + Seq::new(b.len(), |j: int| a[n - 1].push(b[j]))
    }
}

/// The partial product `a` extended by the list `b`.
pub open spec fn partial_spec(a: Seq<Seq<Move>>, b: Seq<Move>) -> Seq<Seq<Move>> {
    rows(a, b, a.len())
}

/// The Cartesian product of the lists: every way to take one item from each list, in the
/// order of the lists, the choices from the first list varying slowest.
pub open spec fn product_spec(lists: Seq<Seq<Move>>) -> Seq<Seq<Move>>
    decreases lists.len(),
{
    if lists.len() == 0 {
        Seq::empty()
    } else if lists.len() == 1 {
        Seq::new(lists[0].len(), |i: int| seq![lists[0][i]])
    } else {
        partial_spec(product_spec(lists.drop_last()), lists.last())
    }
}

/// Four to the power `t`.
pub open spec fn pow4(t: nat) -> nat
    decreases t,
{
    if t == 0 {
        1
    } else {
        4 * pow4((t - 1) as nat)
    }
}

/// The number of rows is the product of the two lengths.
pub proof fn lemma_rows_len(a: Seq<Seq<Move>>, b: Seq<Move>, n: nat)
    ensures
        rows(a, b, n).len() == n * b.len(),
    decreases n,
{
    let len = b.len();
    if n > 0 {
        let m = (n - 1) as nat;
        lemma_rows_len(a, b, m);
        assert(n * len == m * len + len) by (nonlinear_arith)
            requires
                n == m + 1,
        ;
    } else {
        assert(n * len == 0) by (nonlinear_arith)
            requires
                n == 0,
        ;
    }
}

/// Every row is a vector of `a` followed by an item of `b`.
pub proof fn lemma_rows_item(a: Seq<Seq<Move>>, b: Seq<Move>, n: nat, i: int)
    requires
        n <= a.len(),
        0 <= i < rows(a, b, n).len(),
    ensures
        exists|x: int, y: int|
            0 <= x < n && 0 <= y < b.len() && rows(a, b, n)[i] == #[trigger] a[x].push(b[y]),
    decreases n,
{
    if n > 0 {
        let before = rows(a, b, (n - 1) as nat);
        if i < before.len() {
            lemma_rows_item(a, b, (n - 1) as nat, i);
        } else {
            let y = i - before.len();
            assert(rows(a, b, n)[i] == a[n - 1].push(b[y]));
        }
    }
}

/// A product of nonempty lists is not empty.
pub proof fn lemma_product_nonempty(lists: Seq<Seq<Move>>)
    requires
        lists.len() >= 1,
        forall|t: int| 0 <= t < lists.len() ==> (#[trigger] lists[t]).len() >= 1,
    ensures
        product_spec(lists).len() >= 1,
    decreases lists.len(),
{
    if lists.len() > 1 {
        let front = lists.drop_last();
        lemma_product_nonempty(front);
    }
}

/// Every vector of the product takes one item from each list, in the order of the lists.
pub proof fn lemma_product_item(lists: Seq<Seq<Move>>, i: int)
    requires
        0 <= i < product_spec(lists).len(),
    ensures
        product_spec(lists)[i].len() == lists.len(),
        forall|t: int|
            0 <= t < lists.len() ==> (#[trigger] lists[t]).contains(product_spec(lists)[i][t]),
    decreases lists.len(),
{
    if lists.len() > 1 {
        let front = lists.drop_last();
        let a = product_spec(front);
        let b = lists.last();
        lemma_rows_item(a, b, a.len(), i);
        let (x, y) = choose|x: int, y: int|
            0 <= x < a.len() && 0 <= y < b.len()
                && rows(a, b, a.len())[i] == #[trigger] a[x].push(b[y]);
        lemma_product_item(front, x);
        let v = product_spec(lists)[i];
        assert forall|t: int| 0 <= t < lists.len() implies (#[trigger] lists[t]).contains(v[t]) by {
            if t < front.len() {
                assert(front[t] == lists[t]);
            }
        }
    }
}

/// A product of `t` lists of at most four items has at most four to the `t` vectors.
pub proof fn lemma_product_bound(lists: Seq<Seq<Move>>)
    requires
        forall|t: int| 0 <= t < lists.len() ==> (#[trigger] lists[t]).len() <= 4,
    ensures
        product_spec(lists).len() <= pow4(lists.len()),
    decreases lists.len(),
{
    if lists.len() > 1 {
        let front = lists.drop_last();
        lemma_product_bound(front);
        let a = product_spec(front);
        lemma_rows_len(a, lists.last(), a.len());
        assert(a.len() * lists.last().len() <= 4 * pow4(front.len())) by (nonlinear_arith)
            requires
                a.len() <= pow4(front.len()),
                lists.last().len() <= 4,
        ;
    } else if lists.len() == 1 {
        assert(pow4(1) == 4) by {
            reveal_with_fuel(pow4, 2);
        }
    }
}

/// Adds the items of `b` to the partial product `a`: each vector of `a`, in order, is followed
/// by each item of `b`, in order.
pub fn partial_cartesian(a: JointMoves, b: MoveList) -> (out: JointMoves)
    requires
        joint_held(a).len() * moves_held(b).len() <= 256,
        forall|i: int| 0 <= i < joint_held(a).len() ==> (#[trigger] joint_held(a)[i]).len() < 4,
    ensures
        joint_held(out) == partial_spec(joint_held(a), moves_held(b)),
{
    let ghost av = joint_held(a);
    let ghost bv = moves_held(b);
    let mut out = joint_new();
    let n = joint_len(&a);
    let m = moves_len(&b);
    let mut i: usize = 0;
    while i < n
        invariant
            i <= n == av.len(),
            m == bv.len(),
            av == joint_held(a),
            bv == moves_held(b),
            n * m <= 256,
            forall|i: int| 0 <= i < av.len() ==> (#[trigger] av[i]).len() < 4,
            joint_held(out) == rows(av, bv, i as nat),
        decreases n - i,
    {
        let xs = joint_get(&a, i);
        let ghost start = joint_held(out);
        let mut j: usize = 0;
        while j < m
            invariant
                j <= m == bv.len(),
                i < n == av.len(),
                n * m <= 256,
                av == joint_held(a),
                bv == moves_held(b),
                moves_held(xs) == av[i as int],
                av[i as int].len() < 4,
                start == rows(av, bv, i as nat),
                joint_held(out) == start + Seq::new(j as nat, |k: int| av[i as int].push(bv[k])),
            decreases m - j,
        {
            let mut vec = xs;
            moves_push(&mut vec, moves_get(&b, j));
            proof {
                lemma_rows_len(av, bv, i as nat);
                assert(i * m + j < n * m) by (nonlinear_arith)
                    requires
                        i < n,
                        j < m,
                ;
            }
            joint_push(&mut out, vec);
            j += 1;
        }
        i += 1;
    }
    out
}

/// Computes the Cartesian product of the lists: every way to take one move from each.
pub fn cartesian_product(lists: MoveSets) -> (out: JointMoves)
    ensures
        joint_held(out) == product_spec(move_sets_held(lists)),
{
    let ghost all = move_sets_held(lists);
    let n = move_sets_len(&lists);
    if n == 0 {
        return joint_new();
    }
    let first = move_sets_get(&lists, 0);
    let mut out = joint_new();
    let m = moves_len(&first);
    let mut i: usize = 0;
    while i < m
        invariant
            i <= m == all[0].len(),
            m <= 4,
            moves_held(first) == all[0],
            joint_held(out) == Seq::new(i as nat, |k: int| seq![all[0][k]]),
        decreases m - i,
    {
        let mut single = moves_new();
        moves_push(&mut single, moves_get(&first, i));
        joint_push(&mut out, single);
        i += 1;
    }
    let mut t: usize = 1;
    while t < n
        invariant
            1 <= t <= n == all.len() <= 4,
            all == move_sets_held(lists),
            forall|u: int| 0 <= u < t ==> (#[trigger] all[u]).len() <= 4,
            joint_held(out) == product_spec(all.take(t as int)),
        decreases n - t,
    {
        let next = move_sets_get(&lists, t);
        let len = moves_len(&next);
        let ghost front = all.take(t as int);
        proof {
            assert(all.take(t + 1).drop_last() =~= front);
            lemma_product_bound(front);
            assert(pow4(front.len()) <= 64) by {
                reveal_with_fuel(pow4, 4);
            }
            assert forall|i: int|
                0 <= i < joint_held(out).len()
                    implies (#[trigger] joint_held(out)[i]).len() < 4 by {
                lemma_product_item(front, i);
            }
            assert(joint_held(out).len() * len <= 256) by (nonlinear_arith)
                requires
                    joint_held(out).len() <= 64,
                    len <= 4,
            ;
        }
        out = partial_cartesian(out, next);
        t += 1;
    }
    proof {
        assert(all.take(n as int) =~= all);
    }
    out
}

} // verus!
