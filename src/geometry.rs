//! Ground-plane points in fixed point, squared distances and integer square roots.
use vstd::prelude::*;

verus! {

/// Largest absolute coordinate, in micrometres (one kilometre).
pub const MAX_COORD: i64 = 1_000_000_000;

/// A point of the ground plane: `x` and `z` of the host's 3-D frame, in micrometres.
#[derive(Clone, Copy, Debug, PartialEq, Eq, Structural)]
pub struct GroundPoint {
    pub x: i64,
    pub z: i64,
}

/// Both coordinates lie within `MAX_COORD` of the origin.
pub open spec fn coord_ok(c: int) -> bool {
    -MAX_COORD <= c <= MAX_COORD
}

impl GroundPoint {
    pub open spec fn in_bounds(self) -> bool {
        coord_ok(self.x as int) && coord_ok(self.z as int)
    }

    pub fn new(x: i64, z: i64) -> (r: GroundPoint)
        ensures
            r.x == x,
            r.z == z,
    {
        GroundPoint { x, z }
    }

    /// Whether the point lies in the playable square of side `2 * MAX_COORD`.
    pub fn is_in_bounds(&self) -> (r: bool)
        ensures
            r == self.in_bounds(),
    {
        -MAX_COORD <= self.x && self.x <= MAX_COORD && -MAX_COORD <= self.z && self.z
            <= MAX_COORD
    }
}

/// Square of the Euclidean distance between two points.
pub open spec fn dist_sq(a: GroundPoint, b: GroundPoint) -> int {
    (b.x - a.x) * (b.x - a.x) + (b.z - a.z) * (b.z - a.z)
}

/// A square of a coordinate difference fits comfortably in 64 bits.
pub proof fn lemma_diff_sq_bound(r: int)
    requires
        -2 * MAX_COORD <= r <= 2 * MAX_COORD,
    ensures
        0 <= r * r <= 4 * MAX_COORD * MAX_COORD,
{
    assert(0 <= r * r <= 4 * MAX_COORD * MAX_COORD) by (nonlinear_arith)
        requires
            -2 * MAX_COORD <= r <= 2 * MAX_COORD,
            MAX_COORD == 1_000_000_000,
    ;
}

/// Squared distance between two in-bounds points.
pub fn distance_squared(a: &GroundPoint, b: &GroundPoint) -> (r: u64)
    requires
        a.in_bounds(),
        b.in_bounds(),
    ensures
        r == dist_sq(*a, *b),
        r <= 8 * MAX_COORD * MAX_COORD,
{
    let dx: i64 = b.x - a.x;
    let dz: i64 = b.z - a.z;
    proof {
        lemma_diff_sq_bound(dx as int);
        lemma_diff_sq_bound(dz as int);
    }
    let sx: i128 = (dx as i128) * (dx as i128);
    let sz: i128 = (dz as i128) * (dz as i128);
    (sx + sz) as u64
}

/// A point is at distance zero from itself.
pub proof fn lemma_dist_sq_self(a: GroundPoint)
    ensures
        dist_sq(a, a) == 0,
{
    assert(0int * 0int == 0);
}

/// `r` is the integer square root of `n`, rounded down.
pub open spec fn is_floor_sqrt(r: int, n: int) -> bool {
    0 <= r && r * r <= n && n < (r + 1) * (r + 1)
}

/// The integer square root of `n`, rounded down.
pub open spec fn floor_sqrt(n: int) -> int {
    choose|r: int| is_floor_sqrt(r, n)
}

/// The rounded-down square root is unique.
pub proof fn lemma_floor_sqrt_unique(a: int, b: int, n: int)
    requires
        is_floor_sqrt(a, n),
        is_floor_sqrt(b, n),
    ensures
        a == b,
{
    if a < b {
        assert((a + 1) * (a + 1) <= b * b) by (nonlinear_arith)
            requires
                0 <= a < b,
        ;
    } else if b < a {
        assert((b + 1) * (b + 1) <= a * a) by (nonlinear_arith)
            requires
                0 <= b < a,
        ;
    }
}

/// Any witness of the rounded-down square root is `floor_sqrt`.
pub proof fn lemma_floor_sqrt_is(r: int, n: int)
    requires
        is_floor_sqrt(r, n),
    ensures
        floor_sqrt(n) == r,
{
    lemma_floor_sqrt_unique(floor_sqrt(n), r, n);
}

/// Integer square root of `n`, rounded down, by bisection.
pub fn isqrt(n: u64) -> (r: u64)
    ensures
        r == floor_sqrt(n as int),
        is_floor_sqrt(r as int, n as int),
        r < 0x1_0000_0000,
{
    let mut lo: u64 = 0;
    let mut hi: u64 = 0x1_0000_0000;
    assert(0x1_0000_0000u64 as int * 0x1_0000_0000u64 as int > u64::MAX) by (nonlinear_arith);
    while hi - lo > 1
        invariant
            lo < hi <= 0x1_0000_0000,
            lo * lo <= n,
            n < hi * hi,
        decreases hi - lo,
    {
        let mid: u64 = lo + (hi - lo) / 2;
        assert((mid as int) * (mid as int) <= 0x1_0000_0000 * 0x1_0000_0000) by (nonlinear_arith)
            requires
                mid < 0x1_0000_0000,
        ;
        let sq: u128 = (mid as u128) * (mid as u128);
        if sq <= n as u128 {
            lo = mid;
        } else {
            hi = mid;
        }
    }
    assert(is_floor_sqrt(lo as int, n as int));
    proof {
        lemma_floor_sqrt_is(lo as int, n as int);
    }
    lo
}

} // verus!
