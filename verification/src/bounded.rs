use vstd::prelude::*;
use tinyvec::ArrayVec;
use crate::coordinate::Coordinate;
use crate::direction::Move;

verus! {

/// Most agents that a board can hold.
pub const SNAKE_MAX: usize = 4;

/// Up to four moves: the candidates of one agent, or one move for each agent.
pub type MoveList = ArrayVec<[Move; 4]>;

/// The candidate moves of up to four agents.
pub type MoveSets = ArrayVec<[ArrayVec<[Move; 4]>; 4]>;

/// The joint move vectors of one turn.
pub type JointMoves = ArrayVec<[ArrayVec<[Move; 4]>; 256]>;

/// Up to four points.
pub type CoordList = ArrayVec<[Coordinate; 4]>;

/// Up to four agent indices.
pub type IdList = ArrayVec<[u8; 4]>;

/// Up to four pairs of an agent index and a health.
pub type HealthList = ArrayVec<[(u8, u8); 4]>;

/// Up to four pairs of an agent index and a point.
pub type TailList = ArrayVec<[(u8, Coordinate); 4]>;

/// `tinyvec::ArrayVec`, a vector that lives in a fixed array. Opaque here: what one holds is
/// named by the functions below, one for each item type in use.
#[verifier::external_type_specification]
#[verifier::external_body]
#[verifier::reject_recursive_types(A)]
pub struct ExArrayVec<A>(ArrayVec<A>);

/// The items of a `MoveList`, first pushed first.
pub uninterp spec fn moves_held(v: ArrayVec<[Move; 4]>) -> Seq<Move>;

/// The items of a `MoveSets`, each by its own items.
pub uninterp spec fn move_sets_held(v: ArrayVec<[ArrayVec<[Move; 4]>; 4]>) -> Seq<Seq<Move>>;

/// The items of a `JointMoves`, each by its own items.
pub uninterp spec fn joint_held(v: ArrayVec<[ArrayVec<[Move; 4]>; 256]>) -> Seq<Seq<Move>>;

/// The items of a `CoordList`, first pushed first.
pub uninterp spec fn coords_held(v: ArrayVec<[Coordinate; 4]>) -> Seq<Coordinate>;

/// The items of an `IdList`, first pushed first.
pub uninterp spec fn ids_held(v: ArrayVec<[u8; 4]>) -> Seq<u8>;

/// The items of a `HealthList`, first pushed first.
pub uninterp spec fn healths_held(v: ArrayVec<[(u8, u8); 4]>) -> Seq<(u8, u8)>;

/// The items of a `TailList`, first pushed first.
pub uninterp spec fn tails_held(v: ArrayVec<[(u8, Coordinate); 4]>) -> Seq<(u8, Coordinate)>;

/// `ArrayVec::new`: a vector without items.
#[verifier::external_body]
pub(crate) fn moves_new() -> (v: MoveList)
    ensures
        moves_held(v) == Seq::<Move>::empty(),
{
    ArrayVec::new()
}

/// `ArrayVec::len`: the number of items, which the array's four places bound.
#[verifier::external_body]
pub(crate) fn moves_len(v: &MoveList) -> (n: usize)
    ensures
        n == moves_held(*v).len(),
        n <= 4,
{
    v.len()
}

/// Indexing an `ArrayVec` through its slice: a copy of item `i`.
#[verifier::external_body]
pub(crate) fn moves_get(v: &MoveList, i: usize) -> (m: Move)
    requires
        i < moves_held(*v).len(),
    ensures
        m == moves_held(*v)[i as int],
{
    v[i]
}

/// `ArrayVec::push`: appends the item. It panics on a full vector, which `requires` excludes.
#[verifier::external_body]
pub(crate) fn moves_push(v: &mut MoveList, m: Move)
    requires
        moves_held(*old(v)).len() < 4,
    ensures
        moves_held(*final(v)) == moves_held(*old(v)).push(m),
{
    v.push(m)
}

/// `ArrayVec::new`: a vector without items.
#[verifier::external_body]
pub(crate) fn move_sets_new() -> (v: MoveSets)
    ensures
        move_sets_held(v) == Seq::<Seq<Move>>::empty(),
{
    ArrayVec::new()
}

/// `ArrayVec::len`: the number of items, which the array's four places bound.
#[verifier::external_body]
pub(crate) fn move_sets_len(v: &MoveSets) -> (n: usize)
    ensures
        n == move_sets_held(*v).len(),
        n <= 4,
{
    v.len()
}

/// Indexing an `ArrayVec` through its slice: a copy of item `i`.
#[verifier::external_body]
pub(crate) fn move_sets_get(v: &MoveSets, i: usize) -> (m: MoveList)
    requires
        i < move_sets_held(*v).len(),
    ensures
        moves_held(m) == move_sets_held(*v)[i as int],
{
    v[i]
}

/// `ArrayVec::push`: appends the item. It panics on a full vector, which `requires` excludes.
#[verifier::external_body]
pub(crate) fn move_sets_push(v: &mut MoveSets, m: MoveList)
    requires
        move_sets_held(*old(v)).len() < 4,
    ensures
        move_sets_held(*final(v)) == move_sets_held(*old(v)).push(moves_held(m)),
{
    v.push(m)
}

/// `ArrayVec::new`: a vector without items.
#[verifier::external_body]
pub(crate) fn joint_new() -> (v: JointMoves)
    ensures
        joint_held(v) == Seq::<Seq<Move>>::empty(),
{
    ArrayVec::new()
}

/// `ArrayVec::len`: the number of items.
#[verifier::external_body]
pub(crate) fn joint_len(v: &JointMoves) -> (n: usize)
    ensures
        n == joint_held(*v).len(),
{
    v.len()
}

/// Indexing an `ArrayVec` through its slice: a copy of item `i`.
#[verifier::external_body]
pub(crate) fn joint_get(v: &JointMoves, i: usize) -> (m: MoveList)
    requires
        i < joint_held(*v).len(),
    ensures
        moves_held(m) == joint_held(*v)[i as int],
{
    v[i]
}

/// `ArrayVec::push`: appends the item. It panics on a full vector, which `requires` excludes.
#[verifier::external_body]
pub(crate) fn joint_push(v: &mut JointMoves, m: MoveList)
    requires
        joint_held(*old(v)).len() < 256,
    ensures
        joint_held(*final(v)) == joint_held(*old(v)).push(moves_held(m)),
{
    v.push(m)
}

/// `ArrayVec::new`: a vector without items.
#[verifier::external_body]
pub(crate) fn coords_new() -> (v: CoordList)
    ensures
        coords_held(v) == Seq::<Coordinate>::empty(),
{
    ArrayVec::new()
}

/// `ArrayVec::len`: the number of items.
#[verifier::external_body]
pub(crate) fn coords_len(v: &CoordList) -> (n: usize)
    ensures
        n == coords_held(*v).len(),
{
    v.len()
}

/// Indexing an `ArrayVec` through its slice: a copy of item `i`.
#[verifier::external_body]
pub(crate) fn coords_get(v: &CoordList, i: usize) -> (c: Coordinate)
    requires
        i < coords_held(*v).len(),
    ensures
        c == coords_held(*v)[i as int],
{
    v[i]
}

/// `ArrayVec::push`: appends the item. It panics on a full vector, which `requires` excludes.
#[verifier::external_body]
pub(crate) fn coords_push(v: &mut CoordList, c: Coordinate)
    requires
        coords_held(*old(v)).len() < 4,
    ensures
        coords_held(*final(v)) == coords_held(*old(v)).push(c),
{
    v.push(c)
}

/// `ArrayVec::new`: a vector without items.
#[verifier::external_body]
pub(crate) fn ids_new() -> (v: IdList)
    ensures
        ids_held(v) == Seq::<u8>::empty(),
{
    ArrayVec::new()
}

/// `ArrayVec::len`: the number of items.
#[verifier::external_body]
pub(crate) fn ids_len(v: &IdList) -> (n: usize)
    ensures
        n == ids_held(*v).len(),
{
    v.len()
}

/// Indexing an `ArrayVec` through its slice: a copy of item `i`.
#[verifier::external_body]
pub(crate) fn ids_get(v: &IdList, i: usize) -> (id: u8)
    requires
        i < ids_held(*v).len(),
    ensures
        id == ids_held(*v)[i as int],
{
    v[i]
}

/// `ArrayVec::push`: appends the item. It panics on a full vector, which `requires` excludes.
#[verifier::external_body]
pub(crate) fn ids_push(v: &mut IdList, id: u8)
    requires
        ids_held(*old(v)).len() < 4,
    ensures
        ids_held(*final(v)) == ids_held(*old(v)).push(id),
{
    v.push(id)
}

/// `ArrayVec::new`: a vector without items.
#[verifier::external_body]
pub(crate) fn healths_new() -> (v: HealthList)
    ensures
        healths_held(v) == Seq::<(u8, u8)>::empty(),
{
    ArrayVec::new()
}

/// `ArrayVec::len`: the number of items.
#[verifier::external_body]
pub(crate) fn healths_len(v: &HealthList) -> (n: usize)
    ensures
        n == healths_held(*v).len(),
{
    v.len()
}

/// Indexing an `ArrayVec` through its slice: a copy of item `i`.
#[verifier::external_body]
pub(crate) fn healths_get(v: &HealthList, i: usize) -> (p: (u8, u8))
    requires
        i < healths_held(*v).len(),
    ensures
        p == healths_held(*v)[i as int],
{
    v[i]
}

/// `ArrayVec::push`: appends the item. It panics on a full vector, which `requires` excludes.
#[verifier::external_body]
pub(crate) fn healths_push(v: &mut HealthList, p: (u8, u8))
    requires
        healths_held(*old(v)).len() < 4,
    ensures
        healths_held(*final(v)) == healths_held(*old(v)).push(p),
{
    v.push(p)
}

/// `ArrayVec::new`: a vector without items.
#[verifier::external_body]
pub(crate) fn tails_new() -> (v: TailList)
    ensures
        tails_held(v) == Seq::<(u8, Coordinate)>::empty(),
{
    ArrayVec::new()
}

/// `ArrayVec::len`: the number of items.
#[verifier::external_body]
pub(crate) fn tails_len(v: &TailList) -> (n: usize)
    ensures
        n == tails_held(*v).len(),
{
    v.len()
}

/// Indexing an `ArrayVec` through its slice: a copy of item `i`.
#[verifier::external_body]
pub(crate) fn tails_get(v: &TailList, i: usize) -> (p: (u8, Coordinate))
    requires
        i < tails_held(*v).len(),
    ensures
        p == tails_held(*v)[i as int],
{
    v[i]
}

/// `ArrayVec::push`: appends the item. It panics on a full vector, which `requires` excludes.
#[verifier::external_body]
pub(crate) fn tails_push(v: &mut TailList, p: (u8, Coordinate))
    requires
        tails_held(*old(v)).len() < 4,
    ensures
        tails_held(*final(v)) == tails_held(*old(v)).push(p),
{
    v.push(p)
}

} // verus!
