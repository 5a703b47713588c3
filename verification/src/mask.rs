use vstd::prelude::*;
use crate::coordinate::{bit, cell_at, Coordinate};

verus! {

/// The mask that holds the bits of the first `n` cells of the grid that lie in `cells`.
pub open spec fn mask_upto(cells: Set<Coordinate>, n: nat) -> u128
    decreases n,
{
    if n == 0 {
        0
    } else if cells.contains(cell_at(n - 1)) {
        mask_upto(cells, (n - 1) as nat) | bit((n - 1) as u32)
    } else {
        mask_upto(cells, (n - 1) as nat)
    }
}

/// The occupancy mask of a set of points: one bit for each in-range point of the set.
pub open spec fn mask_of(cells: Set<Coordinate>) -> u128 {
    mask_upto(cells, 121)
}

/// Whether two masks share a bit.
pub open spec fn overlaps(a: u128, b: u128) -> bool {
    a & b != 0
}

/// Adding one bit leaves every other bit clear that was clear.
proof fn lemma_bit_or_keeps_clear(a: u128, i: u32, j: u32)
    requires
        i < 128,
        j < 128,
        i != j,
        a & bit(j) == 0,
    ensures
        (a | bit(i)) & bit(j) == 0,
{
    assert((a | (1u128 << i)) & (1u128 << j) == 0) by (bit_vector)
        requires
            i < 128,
            j < 128,
            i != j,
            a & (1u128 << j) == 0,
    ;
}

/// After adding bit `i`, bit `j` is set exactly if it was set or is bit `i`.
proof fn lemma_bit_or_test(a: u128, i: u32, j: u32)
    requires
        i < 128,
        j < 128,
    ensures
        (a | bit(i)) & bit(j) != 0 <==> (a & bit(j) != 0 || i == j),
{
    assert(((a | (1u128 << i)) & (1u128 << j) != 0) <==> (a & (1u128 << j) != 0 || i == j))
        by (bit_vector)
        requires
            i < 128,
            j < 128,
    ;
}

/// Bits can be added in any order, and adding one twice or adding none changes nothing.
proof fn lemma_bit_or_swap(a: u128, b: u128, k: u128)
    ensures
        (a | k) | b == (a | b) | k,
        (a | k) | k == a | k,
        a | 0 == a,
{
    assert((a | k) | b == (a | b) | k) by (bit_vector);
    assert((a | k) | k == a | k) by (bit_vector);
    assert(a | 0 == a) by (bit_vector);
}

/// Clearing bit `j` commutes with adding another bit, undoes adding bit `j`, and changes
/// nothing where bit `j` was clear.
proof fn lemma_bit_clear(a: u128, i: u32, j: u32)
    requires
        i < 128,
        j < 128,
    ensures
        i != j ==> (a | bit(i)) & !bit(j) == (a & !bit(j)) | bit(i),
        (a | bit(j)) & !bit(j) == a & !bit(j),
        a & bit(j) == 0 ==> a & !bit(j) == a,
{
    assert(i != j ==> (a | (1u128 << i)) & !(1u128 << j) == (a & !(1u128 << j)) | (1u128 << i))
        by (bit_vector)
        requires
            i < 128,
            j < 128,
    ;
    assert((a | (1u128 << j)) & !(1u128 << j) == a & !(1u128 << j)) by (bit_vector);
    assert(a & (1u128 << j) == 0 ==> a & !(1u128 << j) == a) by (bit_vector);
}

/// The empty mask meets nothing.
proof fn lemma_zero_and(a: u128)
    ensures
        0u128 & a == 0,
        a & 0u128 == 0,
{
    assert(0u128 & a == 0) by (bit_vector);
    assert(a & 0u128 == 0) by (bit_vector);
}

/// Meeting is symmetric.
proof fn lemma_and_commutes(a: u128, b: u128)
    ensures
        a & b == b & a,
{
    assert(a & b == b & a) by (bit_vector);
}

/// The codec's numbering of the cells and `cell_at` are inverse to each other.
pub proof fn lemma_cell_index(c: Coordinate, i: int)
    ensures
        c.in_range() ==> 0 <= c.index() < 121 && cell_at(c.index()) == c,
        0 <= i < 121 ==> cell_at(i).in_range() && cell_at(i).index() == i,
{
}

/// The mask of the first `n` cells has no bit from `n` on.
proof fn lemma_upto_clear_above(cells: Set<Coordinate>, n: nat, j: u32)
    requires
        n <= j < 128,
    ensures
        mask_upto(cells, n) & bit(j) == 0,
    decreases n,
{
    if n == 0 {
        lemma_zero_and(bit(j));
    } else {
        lemma_upto_clear_above(cells, (n - 1) as nat, j);
        lemma_bit_or_keeps_clear(mask_upto(cells, (n - 1) as nat), (n - 1) as u32, j);
    }
}

/// Bit `j` of the mask of the first `n` cells says whether cell `j` is in the set.
proof fn lemma_upto_test(cells: Set<Coordinate>, n: nat, j: u32)
    requires
        j < n <= 121,
    ensures
        mask_upto(cells, n) & bit(j) != 0 <==> cells.contains(cell_at(j as int)),
    decreases n,
{
    let rest = mask_upto(cells, (n - 1) as nat);
    if j == n - 1 {
        lemma_upto_clear_above(cells, (n - 1) as nat, j);
        lemma_bit_or_test(rest, j, j);
    } else {
        lemma_upto_test(cells, (n - 1) as nat, j);
        lemma_bit_or_test(rest, (n - 1) as u32, j);
    }
}

/// Sets that agree on the first `n` cells have the same mask of them.
proof fn lemma_upto_agree(a: Set<Coordinate>, b: Set<Coordinate>, n: nat)
    requires
        n <= 121,
        forall|i: int| 0 <= i < n ==> a.contains(cell_at(i)) == b.contains(cell_at(i)),
    ensures
        mask_upto(a, n) == mask_upto(b, n),
    decreases n,
{
    if n > 0 {
        lemma_upto_agree(a, b, (n - 1) as nat);
    }
}

/// Adding an in-range point adds its bit, once its cell is among the first `n`.
proof fn lemma_upto_insert(cells: Set<Coordinate>, c: Coordinate, n: nat)
    requires
        c.in_range(),
        n <= 121,
    ensures
        mask_upto(cells.insert(c), n) == if c.index() < n {
            mask_upto(cells, n) | c.encode_spec()
        } else {
            mask_upto(cells, n)
        },
    decreases n,
{
    if n > 0 {
        let m = (n - 1) as nat;
        lemma_upto_insert(cells, c, m);
        lemma_bit_or_swap(mask_upto(cells, m), bit(m as u32), c.encode_spec());
    }
}

/// Taking out an in-range point clears its bit, once its cell is among the first `n`.
proof fn lemma_upto_remove(cells: Set<Coordinate>, c: Coordinate, n: nat)
    requires
        c.in_range(),
        n <= 121,
    ensures
        mask_upto(cells.remove(c), n) == if c.index() < n {
            mask_upto(cells, n) & !c.encode_spec()
        } else {
            mask_upto(cells, n)
        },
    decreases n,
{
    if n > 0 {
        let m = (n - 1) as nat;
        lemma_upto_remove(cells, c, m);
        lemma_bit_clear(mask_upto(cells, m), m as u32, c.index() as u32);
        if c.index() == m {
            lemma_upto_clear_above(cells, m, m as u32);
        }
    }
}

/// The empty set has the empty mask.
pub proof fn lemma_mask_of_empty()
    ensures
        mask_of(Set::<Coordinate>::empty()) == 0,
{
    lemma_mask_of_none(Set::<Coordinate>::empty());
}

/// A set without in-range points has the empty mask.
pub proof fn lemma_mask_of_none(cells: Set<Coordinate>)
    requires
        forall|c: Coordinate| cells.contains(c) ==> !c.in_range(),
    ensures
        mask_of(cells) == 0,
{
    lemma_upto_none(cells, 121);
}

/// A set without in-range points has no bit among the first `n` cells.
proof fn lemma_upto_none(cells: Set<Coordinate>, n: nat)
    requires
        n <= 121,
        forall|c: Coordinate| cells.contains(c) ==> !c.in_range(),
    ensures
        mask_upto(cells, n) == 0,
    decreases n,
{
    if n > 0 {
        lemma_upto_none(cells, (n - 1) as nat);
        lemma_cell_index(cell_at(n - 1), n - 1);
    }
}

/// Two sets with the same in-range points have the same mask.
pub proof fn lemma_mask_of_agree(a: Set<Coordinate>, b: Set<Coordinate>)
    requires
        forall|c: Coordinate| c.in_range() ==> a.contains(c) == b.contains(c),
    ensures
        mask_of(a) == mask_of(b),
{
    assert forall|i: int| 0 <= i < 121 implies a.contains(cell_at(i)) == b.contains(cell_at(i)) by {
        lemma_cell_index(cell_at(i), i);
    }
    lemma_upto_agree(a, b, 121);
}

/// Adding a point to a set adds its bit to the mask.
pub proof fn lemma_mask_of_insert(cells: Set<Coordinate>, c: Coordinate)
    ensures
        mask_of(cells.insert(c)) == mask_of(cells) | c.mask_spec(),
{
    if c.in_range() {
        lemma_upto_insert(cells, c, 121);
    } else {
        lemma_mask_of_agree(cells.insert(c), cells);
        lemma_bit_or_swap(mask_of(cells), 0, 0);
    }
}

/// Taking an in-range point out of a set clears its bit in the mask.
pub proof fn lemma_mask_of_remove(cells: Set<Coordinate>, c: Coordinate)
    requires
        c.in_range(),
    ensures
        mask_of(cells.remove(c)) == mask_of(cells) & !c.encode_spec(),
{
    lemma_upto_remove(cells, c, 121);
}

/// A point's mask meets the mask of a set exactly when the point is in range and in the set.
pub proof fn lemma_mask_of_test(cells: Set<Coordinate>, c: Coordinate)
    ensures
        overlaps(c.mask_spec(), mask_of(cells)) <==> c.in_range() && cells.contains(c),
        overlaps(mask_of(cells), c.mask_spec()) <==> c.in_range() && cells.contains(c),
{
    lemma_and_commutes(c.mask_spec(), mask_of(cells));
    if c.in_range() {
        lemma_upto_test(cells, 121, c.index() as u32);
    } else {
        lemma_zero_and(mask_of(cells));
    }
}

/// The masks of two points meet exactly when the points are equal and in range.
pub proof fn lemma_mask_meet(a: Coordinate, b: Coordinate)
    ensures
        overlaps(a.mask_spec(), b.mask_spec()) <==> a.in_range() && a == b,
{
    lemma_mask_of_empty();
    lemma_mask_of_insert(Set::<Coordinate>::empty(), b);
    lemma_mask_of_test(Set::<Coordinate>::empty().insert(b), a);
    assert(0u128 | b.mask_spec() == b.mask_spec()) by (bit_vector);
}

} // verus!
