//! The motion state of a character and the movement integrator that walks it
//! to its destination.
use vstd::prelude::*;
use crate::geometry::{
    coord_ok, dist_sq, distance_squared, floor_sqrt, is_floor_sqrt, isqrt, lemma_diff_sq_bound,
    lemma_dist_sq_self,
    GroundPoint, MAX_COORD,
};

verus! {

/// Walking speed: four metres per second, that is four micrometres per microsecond.
pub const SPEED: i64 = 4;

/// Arrival distance: one millimetre.
pub const ARRIVAL_EPSILON: i64 = 1000;

/// Square of `ARRIVAL_EPSILON`.
pub const ARRIVAL_EPSILON_SQ: u64 = 1_000_000;

/// Where a character is going: nowhere, or straight to one ground point.
#[derive(Clone, Copy, Debug, PartialEq, Eq, Structural)]
pub enum CharacterState {
    Idle,
    MovingTo(GroundPoint),
}

impl CharacterState {
    pub fn idle() -> (r: CharacterState)
        ensures
            r == CharacterState::Idle,
    {
        CharacterState::Idle
    }

    pub fn moving_to(destination: GroundPoint) -> (r: CharacterState)
        ensures
            r == CharacterState::MovingTo(destination),
    {
        CharacterState::MovingTo(destination)
    }

    pub fn is_moving(&self) -> (r: bool)
        ensures
            r == (*self is MovingTo),
    {
        match self {
            CharacterState::Idle => false,
            CharacterState::MovingTo(_) => true,
        }
    }

    /// A destination, where there is one, lies in bounds.
    pub open spec fn wf(self) -> bool {
        self matches CharacterState::MovingTo(d) ==> d.in_bounds()
    }
}

/// The ground-plane direction in which the model's front looks; not normalised.
#[derive(Clone, Copy, Debug, PartialEq, Eq, Structural)]
pub struct Heading {
    pub x: i64,
    pub z: i64,
}

/// What the integrator reads and writes of one character.
#[derive(Clone, Copy, Debug, PartialEq, Eq, Structural)]
pub struct Mover {
    pub state: CharacterState,
    pub position: GroundPoint,
    pub facing: Heading,
    /// The model is authored facing backwards: its heading is turned half a
    /// turn from the direction of travel.
    pub yaw_flipped: bool,
}

/// Length of one tick's step, in micrometres, for a tick of `dt` microseconds.
pub open spec fn step_len(dt: int) -> int {
    SPEED * dt
}

/// One coordinate of a step of length `s` along a remaining offset whose
/// rounded-down length is `l`: `r * s / l`, rounded away from zero.
pub open spec fn step_part(r: int, s: int, l: int) -> int {
    if r >= 0 {
        (r * s + l - 1) / l
    } else {
        -((-r * s + l - 1) / l)
    }
}

/// The heading after moving along offset `(rx, rz)`.
pub open spec fn heading_along(rx: int, rz: int, flipped: bool) -> Heading {
    if flipped {
        Heading { x: (-rx) as i64, z: (-rz) as i64 }
    } else {
        Heading { x: rx as i64, z: rz as i64 }
    }
}

/// Where one tick's step takes a character at `p` going to `d`, when the
/// remaining squared distance `n` exceeds the arrival threshold.
pub open spec fn stepped_position(p: GroundPoint, d: GroundPoint, dt: int) -> GroundPoint {
    let n = dist_sq(p, d);
    let s = step_len(dt);
    if s * s >= n {
        d
    } else {
        let l = floor_sqrt(n);
        GroundPoint {
            x: (p.x + step_part(d.x - p.x, s, l)) as i64,
            z: (p.z + step_part(d.z - p.z, s, l)) as i64,
        }
    }
}

/// One tick of the movement integrator, for a tick of `dt` microseconds.
pub open spec fn advance_spec(m: Mover, dt: int) -> Mover {
    match m.state {
        CharacterState::Idle => m,
        CharacterState::MovingTo(d) => {
            if dist_sq(m.position, d) <= ARRIVAL_EPSILON_SQ {
                Mover { state: CharacterState::Idle, ..m }
            } else {
                let p = stepped_position(m.position, d, dt);
                Mover {
                    state: if dist_sq(p, d) <= ARRIVAL_EPSILON_SQ {
                        CharacterState::Idle
                    } else {
                        m.state
                    },
                    position: p,
                    facing: heading_along(d.x - m.position.x, d.z - m.position.z, m.yaw_flipped),
                    yaw_flipped: m.yaw_flipped,
                }
            }
        },
    }
}

impl Mover {
    pub open spec fn wf(self) -> bool {
        &&& self.state.wf()
        &&& self.position.in_bounds()
        &&& -2 * MAX_COORD <= self.facing.x <= 2 * MAX_COORD
        &&& -2 * MAX_COORD <= self.facing.z <= 2 * MAX_COORD
    }

    /// A character standing still at `position`, facing along `facing`.
    pub fn new(position: GroundPoint, facing: Heading, yaw_flipped: bool) -> (r: Mover)
        ensures
            r == (Mover { state: CharacterState::Idle, position, facing, yaw_flipped }),
    {
        Mover { state: CharacterState::Idle, position, facing, yaw_flipped }
    }

    /// One tick of movement lasting `dt` microseconds.
    pub fn advance(&mut self, dt: u32)
        requires
            old(self).wf(),
        ensures
            *final(self) == advance_spec(*old(self), dt as int),
            final(self).wf(),
    {
        proof {
            lemma_advance_facts(*self, dt as int);
        }
        match self.state {
            CharacterState::Idle => {},
            CharacterState::MovingTo(d) => {
                let n: u64 = distance_squared(&self.position, &d);
                if n <= ARRIVAL_EPSILON_SQ {
                    self.state = CharacterState::Idle;
                } else {
                    let rx: i64 = d.x - self.position.x;
                    let rz: i64 = d.z - self.position.z;
                    let facing = if self.yaw_flipped {
                        Heading { x: -rx, z: -rz }
                    } else {
                        Heading { x: rx, z: rz }
                    };
                    let s: i128 = (SPEED as i128) * (dt as i128);
                    assert(s * s <= 0x1_0000_0000_0000_0000_0000 * 16) by (nonlinear_arith)
                        requires
                            0 <= s <= 4 * 0x1_0000_0000,
                    ;
                    let p = if s * s >= n as i128 {
                        d
                    } else {
                        let l: u64 = isqrt(n);
                        proof {
                            lemma_step_below_root(s as int, n as int, l as int);
                            lemma_part_shrinks(rx as int, s as int, l as int);
                            lemma_part_shrinks(rz as int, s as int, l as int);
                        }
                        GroundPoint {
                            x: self.position.x + step_toward(rx, s, l as i128),
                            z: self.position.z + step_toward(rz, s, l as i128),
                        }
                    };
                    self.position = p;
                    self.facing = facing;
                    if distance_squared(&p, &d) <= ARRIVAL_EPSILON_SQ {
                        self.state = CharacterState::Idle;
                    }
                }
            },
        }
    }
}

/// A step shorter than the remaining distance is no longer than its
/// rounded-down length, which is positive.
pub proof fn lemma_step_below_root(s: int, n: int, l: int)
    requires
        0 <= s,
        s * s < n,
        is_floor_sqrt(l, n),
    ensures
        s <= l,
        1 <= l,
{
    assert(s < l + 1) by (nonlinear_arith)
        requires
            0 <= s,
            0 <= l,
            s * s < n,
            n < (l + 1) * (l + 1),
    ;
}

/// Rounding `a * s / l` up keeps the part within `a`, and leaves at most the
/// share `(l - s) / l` of `a`.
pub proof fn lemma_step_part_bounds(a: int, s: int, l: int)
    requires
        0 <= a,
        0 <= s <= l,
        1 <= l,
    ensures
        0 <= (a * s + l - 1) / l <= a,
        (a - (a * s + l - 1) / l) * l <= a * (l - s),
{
    let x = a * s + l - 1;
    let c = x / l;
    assert(0 <= a * s <= a * l) by (nonlinear_arith)
        requires
            0 <= a,
            0 <= s <= l,
    ;
    vstd::arithmetic::div_mod::lemma_fundamental_div_mod(x, l);
    assert(0 <= x % l < l) by {
        vstd::arithmetic::div_mod::lemma_mod_bound(x, l);
    }
    assert(l * c >= a * s);
    assert(l * c < l * (a + 1)) by (nonlinear_arith)
        requires
            l * c <= x,
            x == a * s + l - 1,
            a * s <= a * l,
            l >= 1,
    ;
    assert(c <= a) by (nonlinear_arith)
        requires
            l * c < l * (a + 1),
            l >= 1,
    ;
    assert(c >= 0) by (nonlinear_arith)
        requires
            l * c > x - l,
            x >= l - 1,
            l >= 1,
    ;
    assert((a - c) * l <= a * (l - s)) by (nonlinear_arith)
        requires
            l * c >= a * s,
    ;
}

/// The executable form of `step_part`.
fn step_toward(r: i64, s: i128, l: i128) -> (c: i64)
    requires
        -2 * MAX_COORD <= r <= 2 * MAX_COORD,
        0 <= s <= l,
        1 <= l <= 0x1_0000_0000,
    ensures
        c == step_part(r as int, s as int, l as int),
{
    let a: i128 = if r >= 0 { r as i128 } else { -(r as i128) };
    proof {
        lemma_step_part_bounds(a as int, s as int, l as int);
        assert(a * s <= 2 * MAX_COORD * 0x1_0000_0000) by (nonlinear_arith)
            requires
                0 <= a <= 2 * MAX_COORD,
                0 <= s <= 0x1_0000_0000,
        ;
    }
    let c: i128 = (a * s + l - 1) / l;
    if r >= 0 {
        c as i64
    } else {
        -(c as i64)
    }
}

/// What one tick does to the remaining offset along a coordinate: it keeps its
/// sign and shrinks to at most `(l - s) / l` of itself.
pub proof fn lemma_part_shrinks(r: int, s: int, l: int)
    requires
        0 <= s <= l,
        1 <= l,
    ensures
        (r - step_part(r, s, l)) * (r - step_part(r, s, l)) <= r * r,
        r >= 0 ==> 0 <= step_part(r, s, l) <= r,
        r < 0 ==> r <= step_part(r, s, l) <= 0,
        (r - step_part(r, s, l)) * (r - step_part(r, s, l)) * (l * l) <= r * r * ((l - s) * (l
            - s)),
{
    let a = if r >= 0 {
        r
    } else {
        -r
    };
    lemma_step_part_bounds(a, s, l);
    let c = (a * s + l - 1) / l;
    let e = a - c;
    assert((r - step_part(r, s, l)) * (r - step_part(r, s, l)) == e * e) by (nonlinear_arith)
        requires
            r >= 0 ==> (a == r && step_part(r, s, l) == c),
            r < 0 ==> (a == -r && step_part(r, s, l) == -c),
            e == a - c,
    ;
    assert(e * e <= a * a) by (nonlinear_arith)
        requires
            0 <= e <= a,
    ;
    assert(e * e * (l * l) <= a * a * ((l - s) * (l - s))) by (nonlinear_arith)
        requires
            0 <= e,
            e * l <= a * (l - s),
            0 <= l - s,
            1 <= l,
    ;
    assert(a * a == r * r) by (nonlinear_arith)
        requires
            a == r || a == -r,
    ;
}

/// Facts about one tick: it keeps the mover well formed, and a step leaves
/// the character between where it stood and its destination.
pub proof fn lemma_advance_facts(m: Mover, dt: int)
    requires
        m.wf(),
        0 <= dt <= u32::MAX,
    ensures
        advance_spec(m, dt).wf(),
        advance_spec(m, dt).yaw_flipped == m.yaw_flipped,
        m.state matches CharacterState::MovingTo(d) ==> {
            let p = stepped_position(m.position, d, dt);
            let n = dist_sq(m.position, d);
            let s = step_len(dt);
            &&& p.in_bounds()
            &&& dist_sq(p, d) <= n
            &&& (s * s >= n ==> p == d)
            &&& (s * s < n ==> {
                let l = floor_sqrt(n);
                &&& is_floor_sqrt(l, n)
                &&& s <= l
                &&& dist_sq(p, d) * (l * l) <= n * ((l - s) * (l - s))
            })
        },
{
    if let CharacterState::MovingTo(d) = m.state {
        let n = dist_sq(m.position, d);
        let s = step_len(dt);
        let rx = d.x - m.position.x;
        let rz = d.z - m.position.z;
        lemma_diff_sq_bound(rx);
        lemma_diff_sq_bound(rz);
        let p = stepped_position(m.position, d, dt);
        if s * s >= n {
            assert(p == d);
            lemma_dist_sq_self(d);
        }
        if s * s < n {
            let l = floor_sqrt(n);
            assert(exists|r: int| is_floor_sqrt(r, n)) by {
                let r = isqrt_witness(n);
                assert(is_floor_sqrt(r, n));
            }
            lemma_step_below_root(s, n, l);
            lemma_part_shrinks(rx, s, l);
            lemma_part_shrinks(rz, s, l);
            assert(p.x == m.position.x + step_part(rx, s, l));
            assert(p.z == m.position.z + step_part(rz, s, l));
            let ex = d.x - p.x;
            let ez = d.z - p.z;
            assert(ex == rx - step_part(rx, s, l));
            assert(ez == rz - step_part(rz, s, l));
            assert(dist_sq(p, d) == ex * ex + ez * ez);
            assert(p.in_bounds());
            assert(dist_sq(p, d) <= n);
            assert(dist_sq(p, d) * (l * l) <= n * ((l - s) * (l - s))) by (nonlinear_arith)
                requires
                    ex * ex * (l * l) <= rx * rx * ((l - s) * (l - s)),
                    ez * ez * (l * l) <= rz * rz * ((l - s) * (l - s)),
                    n == rx * rx + rz * rz,
                    dist_sq(p, d) == ex * ex + ez * ez,
            ;
        }
    }
}

/// The mover after `k` ticks of `dt` microseconds each.
pub open spec fn run(m: Mover, dt: int, k: nat) -> Mover
    decreases k,
{
    if k == 0 {
        m
    } else {
        run(advance_spec(m, dt), dt, (k - 1) as nat)
    }
}

/// Ticks enough to finish the current walk: one more than the rounded-down
/// remaining length divided by the step length, rounded up. It never exceeds
/// `ceil(|d - p| / (SPEED * dt)) + 1`.
pub open spec fn tick_bound(m: Mover, dt: int) -> int {
    match m.state {
        CharacterState::Idle => 0,
        CharacterState::MovingTo(d) => {
            let s = step_len(dt);
            (floor_sqrt(dist_sq(m.position, d)) + s - 1) / s + 1
        },
    }
}

/// An idle character stays where it is, however many ticks pass.
pub proof fn lemma_idle_stays(m: Mover, dt: int, k: nat)
    requires
        m.state is Idle,
    ensures
        run(m, dt, k) == m,
    decreases k,
{
    if k > 0 {
        lemma_idle_stays(advance_spec(m, dt), dt, (k - 1) as nat);
    }
}

/// A step of length `s` along a remaining distance of rounded-down length `l`
/// leaves a rounded-down length of at most `l - s`.
pub proof fn lemma_root_drops(n: int, l: int, n2: int, l2: int, s: int)
    requires
        is_floor_sqrt(l, n),
        is_floor_sqrt(l2, n2),
        1 <= s <= l,
        1 <= l,
        n2 * (l * l) <= n * ((l - s) * (l - s)),
    ensures
        l2 <= l - s,
{
    if l2 > l - s {
        let t = l - s;
        assert((t + 1) * (t + 1) <= l2 * l2) by (nonlinear_arith)
            requires
                0 <= t < l2,
        ;
        assert((t + 1) * (t + 1) * (l * l) <= n * (t * t)) by (nonlinear_arith)
            requires
                (t + 1) * (t + 1) <= l2 * l2,
                l2 * l2 <= n2,
                n2 * (l * l) <= n * (t * t),
        ;
        assert(n * (t * t) <= (l + 1) * (l + 1) * (t * t)) by (nonlinear_arith)
            requires
                n < (l + 1) * (l + 1),
                0 <= t,
        ;
        assert(((t + 1) * l) * ((t + 1) * l) <= ((l + 1) * t) * ((l + 1) * t)) by (
        nonlinear_arith)
            requires
                (t + 1) * (t + 1) * (l * l) <= n * (t * t),
                n * (t * t) <= (l + 1) * (l + 1) * (t * t),
        ;
        assert((t + 1) * l <= (l + 1) * t) by (nonlinear_arith)
            requires
                ((t + 1) * l) * ((t + 1) * l) <= ((l + 1) * t) * ((l + 1) * t),
                0 <= t,
                1 <= l,
        ;
        assert(false) by (nonlinear_arith)
            requires
                (t + 1) * l <= (l + 1) * t,
                t == l - s,
                1 <= s,
                1 <= l,
        ;
    }
}

/// Arrival: a character walking to `d` with ticks of any fixed positive length
/// is idle after `tick_bound` ticks, and stands within `ARRIVAL_EPSILON` of `d`.
pub proof fn lemma_arrival(m: Mover, dt: int, k: nat)
    requires
        m.wf(),
        1 <= dt <= u32::MAX,
        k >= tick_bound(m, dt),
    ensures
        run(m, dt, k).state is Idle,
        m.state matches CharacterState::MovingTo(d) ==> dist_sq(run(m, dt, k).position, d)
            <= ARRIVAL_EPSILON_SQ,
    decreases k,
{
    match m.state {
        CharacterState::Idle => {
            lemma_idle_stays(m, dt, k);
        },
        CharacterState::MovingTo(d) => {
            let s = step_len(dt);
            let n = dist_sq(m.position, d);
            let l = floor_sqrt(n);
            assert(k >= 1) by {
                assert(s >= 1);
                assert(0 <= l) by {
                    lemma_diff_sq_bound(d.x - m.position.x);
                    lemma_diff_sq_bound(d.z - m.position.z);
                    let w = isqrt_witness(n);
                }
                vstd::arithmetic::div_mod::lemma_div_pos_is_pos(l + s - 1, s);
            }
            lemma_advance_facts(m, dt);
            let m1 = advance_spec(m, dt);
            if m1.state is Idle {
                lemma_idle_stays(m1, dt, (k - 1) as nat);
            } else {
                assert(m1.state == m.state);
                lemma_diff_sq_bound(d.x - m.position.x);
                lemma_diff_sq_bound(d.z - m.position.z);
                let p = m1.position;
                assert(s * s < n) by {
                    if s * s >= n {
                        lemma_dist_sq_self(d);
                    }
                }
                let n2 = dist_sq(p, d);
                let l2 = floor_sqrt(n2);
                lemma_diff_sq_bound(d.x - p.x);
                lemma_diff_sq_bound(d.z - p.z);
                let w = isqrt_witness(n2);
                lemma_root_drops(n, l, n2, l2, s);
                vstd::arithmetic::div_mod::lemma_div_is_ordered(l2 + s - 1, l - 1, s);
                vstd::arithmetic::div_mod::lemma_div_plus_one(l - 1, s);
                assert(k - 1 >= tick_bound(m1, dt));
                lemma_arrival(m1, dt, (k - 1) as nat);
            }
        },
    }
}

/// No overshoot: a tick never leaves a walking character farther from its
/// destination than it was.
pub proof fn lemma_no_overshoot(m: Mover, dt: int)
    requires
        m.wf(),
        0 <= dt <= u32::MAX,
        m.state is MovingTo,
    ensures
        dist_sq(advance_spec(m, dt).position, m.state->0) <= dist_sq(m.position, m.state->0),
{
    lemma_advance_facts(m, dt);
}

/// A destination where the character already stands ends the walk on the next
/// tick, without a move.
pub proof fn lemma_zero_distance(m: Mover, dt: int)
    requires
        m.state == CharacterState::MovingTo(m.position),
    ensures
        advance_spec(m, dt) == (Mover { state: CharacterState::Idle, ..m }),
{
    lemma_dist_sq_self(m.position);
}

/// Every natural number has a rounded-down square root.
pub proof fn isqrt_witness(n: int) -> (r: int)
    requires
        0 <= n,
    ensures
        is_floor_sqrt(r, n),
    decreases n,
{
    if n == 0 {
        assert(is_floor_sqrt(0, 0));
        0
    } else {
        let q = isqrt_witness(n - 1);
        if (q + 1) * (q + 1) <= n {
            assert(n < (q + 1 + 1) * (q + 1 + 1)) by (nonlinear_arith)
                requires
                    n - 1 < (q + 1) * (q + 1),
                    0 <= q,
            ;
            assert(is_floor_sqrt(q + 1, n));
            q + 1
        } else {
            assert(is_floor_sqrt(q, n));
            q
        }
    }
}

} // verus!
