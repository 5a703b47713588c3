use vstd::prelude::*;

verus! {

/// Side of the square grid that the bitmask codec covers.
pub const CODEC_SIDE: i32 = 11;

/// A point on the board, relative to its lower left corner.
#[derive(Clone, Copy, Debug, PartialEq, Eq, Structural, PartialOrd, Ord, Hash)]
pub struct Coordinate {
    /// Column, counted from the left edge.
    pub x: i32,
    /// Row, counted from the bottom edge.
    pub y: i32,
}

/// The mask with only bit `i` set.
pub open spec fn bit(i: u32) -> u128 {
    1u128 << i
}

/// The coordinate that the codec maps to bit `i`.
pub open spec fn cell_at(i: int) -> Coordinate {
    Coordinate { x: (i % 11) as i32, y: (i / 11) as i32 }
}

/// Whether `m` is the mask of one in-range point.
pub open spec fn is_cell_mask(m: u128) -> bool {
    exists|c: Coordinate| c.in_range() && c.encode_spec() == m
}

/// The in-range point whose mask is `m`.
pub open spec fn decode_spec(m: u128) -> Coordinate {
    choose|c: Coordinate| c.in_range() && c.encode_spec() == m
}

/// `u128::trailing_zeros`, as std documents it: the number of zero bits below the lowest set
/// bit, and 128 for zero. So the bit at the returned position is set and no lower bit is.
pub assume_specification[ u128::trailing_zeros ](i: u128) -> (r: u32)
    ensures
        r <= 128,
        i == 0 ==> r == 128,
        i != 0 ==> r < 128 && (i >> r) & 1 == 1 && (i >> r) << r == i,
;

/// The only set bit of the mask of bit `k` is bit `k`.
proof fn lemma_bit_position(k: u32, r: u32)
    requires
        k < 128,
        r < 128,
        (bit(k) >> r) & 1 == 1,
    ensures
        r == k,
{
    assert(r == k) by (bit_vector)
        requires
            k < 128,
            r < 128,
            ((1u128 << k) >> r) & 1 == 1,
    ;
}

/// Different bits have different masks.
proof fn lemma_bit_distinct(i: u32, j: u32)
    requires
        i < 128,
        j < 128,
        bit(i) == bit(j),
    ensures
        i == j,
{
    assert(i == j) by (bit_vector)
        requires
            i < 128,
            j < 128,
            (1u128 << i) == (1u128 << j),
    ;
}

/// The mask of a bit is not empty.
proof fn lemma_bit_nonzero(i: u32)
    requires
        i < 128,
    ensures
        bit(i) != 0,
{
    assert((1u128 << i) != 0) by (bit_vector)
        requires
            i < 128,
    ;
}

/// Encoding is injective on the in-range points, and decoding inverts it.
pub proof fn lemma_decode_encode(c: Coordinate)
    requires
        c.in_range(),
    ensures
        is_cell_mask(c.encode_spec()),
        decode_spec(c.encode_spec()) == c,
{
    let d = decode_spec(c.encode_spec());
    lemma_bit_distinct(c.index() as u32, d.index() as u32);
}

impl Coordinate {
    /// Whether the point lies on the grid that the codec covers.
    pub open spec fn in_range(self) -> bool {
        0 <= self.x < 11 && 0 <= self.y < 11
    }

    /// The bit that the codec gives an in-range point.
    pub open spec fn index(self) -> int {
        self.y * 11 + self.x
    }

    /// The single-bit mask of an in-range point.
    pub open spec fn encode_spec(self) -> u128 {
        bit(self.index() as u32)
    }

    /// The single-bit mask of an in-range point, and the empty mask of any other.
    pub open spec fn mask_spec(self) -> u128 {
        if self.in_range() {
            self.encode_spec()
        } else {
            0
        }
    }

    /// The sum of two points, component by component.
    pub open spec fn plus(self, rhs: Coordinate) -> Coordinate {
        Coordinate { x: (self.x + rhs.x) as i32, y: (self.y + rhs.y) as i32 }
    }

    /// Whether the component sums fit the coordinate type.
    pub open spec fn can_add(self, rhs: Coordinate) -> bool {
        i32::MIN <= self.x + rhs.x <= i32::MAX && i32::MIN <= self.y + rhs.y <= i32::MAX
    }

    /// The point in column `x` and row `y`.
    pub fn new(x: i32, y: i32) -> (c: Coordinate)
        ensures
            c == (Coordinate { x, y }),
    {
        Coordinate { x, y }
    }

    /// Whether the point lies on the grid that the codec covers.
    pub fn is_in_range(self) -> (r: bool)
        ensures
            r == self.in_range(),
    {
        0 <= self.x && self.x < CODEC_SIDE && 0 <= self.y && self.y < CODEC_SIDE
    }

    /// The sum of two points, or `None` where a component would overflow.
    pub fn checked_add(self, rhs: Coordinate) -> (r: Option<Coordinate>)
        ensures
            self.can_add(rhs) ==> r == Some(self.plus(rhs)),
            !self.can_add(rhs) ==> r is None,
    {
        match (self.x.checked_add(rhs.x), self.y.checked_add(rhs.y)) {
            (Some(x), Some(y)) => Some(Coordinate { x, y }),
            _ => None,
        }
    }

    /// Maps an in-range point to the mask with exactly its bit set.
    pub fn encode(self) -> (m: u128)
        requires
            self.in_range(),
        ensures
            m == self.encode_spec(),
    {
        let i: u32 = (self.y * CODEC_SIDE + self.x) as u32;
        1u128 << i
    }

    /// Recovers the point from its single-bit mask.
    pub fn decode(m: u128) -> (c: Coordinate)
        requires
            is_cell_mask(m),
        ensures
            c == decode_spec(m),
            c.in_range(),
            c.encode_spec() == m,
    {
        let zeroes = m.trailing_zeros();
        proof {
            let d = decode_spec(m);
            lemma_bit_nonzero(d.index() as u32);
            lemma_bit_position(d.index() as u32, zeroes);
        }
        let z: i32 = zeroes as i32;
        Coordinate { x: z % CODEC_SIDE, y: z / CODEC_SIDE }
    }

    /// The mask of the point: its bit where it is in range, no bit otherwise.
    pub fn mask(self) -> (m: u128)
        ensures
            m == self.mask_spec(),
    {
        if self.is_in_range() {
            self.encode()
        } else {
            0
        }
    }
}

impl Default for Coordinate {
    fn default() -> (c: Coordinate)
        ensures
            c == (Coordinate { x: 0, y: 0 }),
    {
        Coordinate { x: 0, y: 0 }
    }
}

impl core::ops::Add for Coordinate {
    type Output = Coordinate;

    fn add(self, rhs: Coordinate) -> (r: Coordinate) {
        Coordinate { x: self.x + rhs.x, y: self.y + rhs.y }
    }
}

impl vstd::std_specs::ops::AddSpecImpl for Coordinate {
    open spec fn obeys_add_spec() -> bool {
        true
    }

    open spec fn add_req(self, rhs: Coordinate) -> bool {
        self.can_add(rhs)
    }

    open spec fn add_spec(self, rhs: Coordinate) -> Coordinate {
        self.plus(rhs)
    }
}

/// Whether `r` is the position of the lowest set bit of `m`, or 128 where `m` has none.
pub open spec fn is_lowest_bit(m: u128, r: u32) -> bool {
    &&& r <= 128
    &&& m == 0 ==> r == 128
    &&& m != 0 ==> r < 128 && (m >> r) & 1 == 1 && (m >> r) << r == m
}

/// The position of the lowest set bit of `m`, and 128 where `m` has none.
pub open spec fn lowest_bit(m: u128) -> u32 {
    choose|r: u32| is_lowest_bit(m, r)
}

/// The point that a mask converts to: the cell of its lowest set bit.
pub open spec fn point_of(m: u128) -> Coordinate {
    cell_at(lowest_bit(m) as int)
}

/// A mask has one lowest set bit.
proof fn lemma_lowest_bit_unique(m: u128, a: u32, b: u32)
    requires
        is_lowest_bit(m, a),
        is_lowest_bit(m, b),
    ensures
        a == b,
{
    if m != 0 {
        assert(a == b) by (bit_vector)
            requires
                a < 128,
                b < 128,
                (m >> a) & 1 == 1,
                (m >> a) << a == m,
                (m >> b) & 1 == 1,
                (m >> b) << b == m,
        ;
    }
}

/// The single-bit mask of an in-range point converts back to the point: the two
/// conversions between points and masks are inverse on the grid.
pub proof fn lemma_point_of_mask(c: Coordinate)
    requires
        c.in_range(),
    ensures
        point_of(c.mask_spec()) == c,
        point_of(c.mask_spec()) == decode_spec(c.encode_spec()),
{
    let k = c.index() as u32;
    let m = c.encode_spec();
    lemma_decode_encode(c);
    assert(is_lowest_bit(m, k)) by {
        assert((1u128 << k) != 0 && ((1u128 << k) >> k) & 1 == 1 && ((1u128 << k) >> k) << k == (
        1u128 << k)) by (bit_vector)
            requires
                k < 128,
        ;
    }
    lemma_lowest_bit_unique(m, k, lowest_bit(m));
}

impl From<Coordinate> for u128 {
    /// The mask of the point: its bit on the grid, no bit off it.
    fn from(input: Coordinate) -> (m: u128) {
        input.mask()
    }
}

impl vstd::std_specs::convert::FromSpecImpl<Coordinate> for u128 {
    open spec fn obeys_from_spec() -> bool {
        true
    }

    open spec fn from_spec(input: Coordinate) -> u128 {
        input.mask_spec()
    }
}

impl From<u128> for Coordinate {
    /// The cell of the lowest set bit of the mask.
    fn from(input: u128) -> (c: Coordinate) {
        let zeroes = input.trailing_zeros();
        proof {
            assert(is_lowest_bit(input, zeroes));
            lemma_lowest_bit_unique(input, zeroes, lowest_bit(input));
        }
        let z: i32 = zeroes as i32;
        Coordinate { x: z % CODEC_SIDE, y: z / CODEC_SIDE }
    }
}

impl vstd::std_specs::convert::FromSpecImpl<u128> for Coordinate {
    open spec fn obeys_from_spec() -> bool {
        true
    }

    open spec fn from_spec(input: u128) -> Coordinate {
        point_of(input)
    }
}

} // verus!
