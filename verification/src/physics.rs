//! Motion: the integrator step, wall bounces, and the rule that pins a
//! ball's velocity to its speed after a collision.

use crate::components::{Ball, Field, Transform};
use crate::geometry::as_ints;
use crate::fixed::{
    clamp, clamp_i32, clamped, div_toward_zero, floor_sqrt, is_floor_sqrt, isqrt, magnitude,
    trunc_div, DIRECTION_MAX,
};
use vstd::prelude::*;

verus! {

/// Physics substeps per frame.
pub const SUBSTEPS: u32 = 3;

/// How far outside the field a position may lie.
pub const MARGIN: i32 = 16_000;

/// Largest width or height of a field.
pub const FIELD_MAX: i32 = 900_000_000;

/// A served ball's speed is the field's width divided by this.
pub const SERVE_DIVISOR: i32 = 1280;

/// Half a pixel per substep, multiplied by a thousand: the numerator of
/// a ball's gain in speed.
pub const BOOST: i32 = 500_000;

impl Field {
    /// Both sides are positive and no longer than `FIELD_MAX`.
    pub open spec fn sized(self) -> bool {
        &&& 0 < self.width <= FIELD_MAX
        &&& 0 < self.height <= FIELD_MAX
    }

    /// The field is sized, and wide enough for a served ball to move.
    pub open spec fn valid(self) -> bool {
        &&& self.sized()
        &&& SERVE_DIVISOR <= self.width
    }

    /// Whether `sized` holds.
    pub fn is_sized(&self) -> (ok: bool)
        ensures
            ok == self.sized(),
    {
        0 < self.width && self.width <= FIELD_MAX && 0 < self.height && self.height <= FIELD_MAX
    }

    /// Whether `valid` holds.
    pub fn is_valid(&self) -> (ok: bool)
        ensures
            ok == self.valid(),
    {
        self.is_sized() && SERVE_DIVISOR <= self.width
    }

    /// `p` lies in the field or within `MARGIN` of it.
    pub open spec fn holds(self, p: (i32, i32)) -> bool {
        &&& -MARGIN <= p.0 <= self.width + MARGIN
        &&& -MARGIN <= p.1 <= self.height + MARGIN
    }
}

/// One substep of motion: the position moves by the velocity and is then
/// held within `MARGIN` of the field.
pub open spec fn spec_advance(t: Transform, field: Field) -> Transform {
    Transform {
        position: (
            clamped(t.position.0 + t.velocity.0, -MARGIN as int, field.width + MARGIN) as i32,
            clamped(t.position.1 + t.velocity.1, -MARGIN as int, field.height + MARGIN) as i32,
        ),
        velocity: t.velocity,
    }
}

/// Moves `t` by one substep.
pub fn advance(t: &Transform, field: &Field) -> (moved: Transform)
    requires
        field.sized(),
    ensures
        moved == spec_advance(*t, *field),
        field.holds(moved.position),
        moved.valid(),
{
    let x = clamp(
        t.position.0 as i128 + t.velocity.0 as i128,
        -(MARGIN as i128),
        field.width as i128 + MARGIN as i128,
    );
    let y = clamp(
        t.position.1 as i128 + t.velocity.1 as i128,
        -(MARGIN as i128),
        field.height as i128 + MARGIN as i128,
    );
    Transform { position: (x as i32, y as i32), velocity: t.velocity }
}

/// A ball beyond the top or bottom edge is put back on the edge with its
/// vertical velocity reversed; any other ball is left as it is.
pub open spec fn spec_bounce_off_walls(t: Transform, field: Field) -> Transform {
    if t.position.1 < 0 || t.position.1 > field.height {
        Transform {
            position: (t.position.0, clamped(t.position.1 as int, 0, field.height as int) as i32),
            velocity: (
                t.velocity.0,
                clamped(-t.velocity.1, i32::MIN as int, i32::MAX as int) as i32,
            ),
        }
    } else {
        t
    }
}

/// Reflects a ball off the top and bottom edges. The flag says whether it
/// had left the field.
pub fn bounce_off_walls(t: &Transform, field: &Field) -> (out: (Transform, bool))
    requires
        field.sized(),
    ensures
        out.0 == spec_bounce_off_walls(*t, *field),
        out.1 == (t.position.1 < 0 || t.position.1 > field.height),
        t.valid() ==> out.0.valid(),
{
    if t.position.1 < 0 || t.position.1 > field.height {
        let y = clamp(t.position.1 as i128, 0, field.height as i128);
        let vy = clamp_i32(-(t.velocity.1 as i128));
        (Transform { position: (t.position.0, y as i32), velocity: (t.velocity.0, vy) }, true)
    } else {
        (*t, false)
    }
}

/// What a paddle hit adds to a ball's speed: half a pixel per substep,
/// divided by the speed in pixels per substep, and never less than one
/// raw unit.
pub open spec fn spec_gain(speed: int) -> int {
    if (BOOST as int) / speed >= 1 {
        (BOOST as int) / speed
    } else {
        1
    }
}

/// A ball's speed after one more paddle hit: the speed and its gain, or
/// the largest speed there is where the sum would be more.
pub open spec fn spec_faster(speed: int) -> int {
    if speed + spec_gain(speed) <= i32::MAX {
        speed + spec_gain(speed)
    } else {
        i32::MAX as int
    }
}

/// A ball's speed after `n` paddle hits.
pub open spec fn speed_after(speed: int, n: nat) -> int
    decreases n,
{
    if n == 0 {
        speed
    } else {
        spec_faster(speed_after(speed, (n - 1) as nat))
    }
}

/// The speed a ball has after hitting a paddle. It is higher than before
/// for every ball that is not at the largest speed there is.
pub fn faster(speed: i32) -> (next: i32)
    requires
        speed > 0,
    ensures
        next == spec_faster(speed as int),
        next >= speed,
        speed < i32::MAX ==> next > speed,
{
    proof {
        lemma_faster_grows(speed as int);
    }
    let quotient = BOOST / speed;
    let gain = if quotient >= 1 {
        quotient
    } else {
        1
    };
    if gain > i32::MAX - speed {
        i32::MAX
    } else {
        speed + gain
    }
}

/// A paddle hit raises every speed below the largest there is, by at
/// least one raw unit and by no more than `BOOST`. Up to `BOOST` the gain
/// is `BOOST` divided by the speed, rounded down.
pub proof fn lemma_faster_grows(speed: int)
    requires
        speed > 0,
    ensures
        1 <= spec_gain(speed) <= BOOST,
        speed <= BOOST ==> spec_gain(speed) == (BOOST as int) / speed,
        speed > BOOST ==> spec_gain(speed) == 1,
        spec_faster(speed) <= i32::MAX,
        spec_faster(speed) <= speed + BOOST,
        speed < i32::MAX ==> speed < spec_faster(speed),
        speed >= i32::MAX ==> spec_faster(speed) == i32::MAX,
{
    let b = BOOST as int;
    vstd::arithmetic::div_mod::lemma_div_pos_is_pos(b, speed);
    vstd::arithmetic::div_mod::lemma_div_nonincreasing(b, speed);
    if speed <= b {
        vstd::arithmetic::div_mod::lemma_div_is_ordered(speed, b, speed);
        vstd::arithmetic::div_mod::lemma_div_by_self(speed);
    } else {
        vstd::arithmetic::div_mod::lemma_basic_div(b, speed);
    }
}

/// Over any run of paddle hits a ball's speed never drops: after `j` hits
/// it is at least what it was after `i <= j` hits.
pub proof fn lemma_speed_never_drops(speed: int, i: nat, j: nat)
    requires
        0 < speed <= i32::MAX,
        i <= j,
    ensures
        0 < speed_after(speed, i) <= speed_after(speed, j) <= i32::MAX,
    decreases j,
{
    if j == 0 {
    } else if i == j {
        lemma_speed_never_drops(speed, 0, (j - 1) as nat);
        lemma_faster_grows(speed_after(speed, (j - 1) as nat));
    } else {
        lemma_speed_never_drops(speed, i, (j - 1) as nat);
        lemma_faster_grows(speed_after(speed, (j - 1) as nat));
    }
}

/// Each paddle hit strictly raises the speed of a ball that is not at the
/// largest speed there is.
pub proof fn lemma_speed_rises(speed: int, n: nat)
    requires
        0 < speed <= i32::MAX,
        speed_after(speed, n) < i32::MAX,
    ensures
        speed_after(speed, n + 1) > speed_after(speed, n),
{
    lemma_speed_never_drops(speed, 0, n);
    lemma_faster_grows(speed_after(speed, n));
    assert(speed_after(speed, n + 1) == spec_faster(speed_after(speed, ((n + 1) - 1) as nat)));
}

/// A ball below the largest speed there is has its speed after a run of
/// paddle hits equal to its speed before exactly when the run is empty.
pub proof fn lemma_speed_tells_hits(speed: int, n: nat)
    requires
        0 < speed < i32::MAX,
    ensures
        speed_after(speed, n) == speed <==> n == 0,
        speed_after(speed, n) >= speed,
        speed_after(speed, n) <= i32::MAX,
    decreases n,
{
    if n > 0 {
        lemma_speed_tells_hits(speed, (n - 1) as nat);
        lemma_speed_never_drops(speed, 0, (n - 1) as nat);
        lemma_speed_never_drops(speed, 1, n);
        lemma_faster_grows(speed);
        lemma_faster_grows(speed_after(speed, (n - 1) as nat));
        assert(speed_after(speed, 1) == spec_faster(speed_after(speed, 0)));
    }
}

/// Squared length of `d`.
pub open spec fn norm2(d: (int, int)) -> int {
    d.0 * d.0 + d.1 * d.1
}

/// The length of `d` in thousandths, rounded down.
pub open spec fn fine_length(d: (int, int)) -> int {
    floor_sqrt(1_000_000 * norm2(d))
}

/// The vector along `d` whose length is `speed`: each component of `d`
/// times `speed`, divided by the length of `d`.
pub open spec fn spec_redirect(d: (int, int), speed: int) -> (int, int) {
    (
        trunc_div(d.0 * 1000 * speed, fine_length(d)),
        trunc_div(d.1 * 1000 * speed, fine_length(d)),
    )
}

/// Widens a pair.
pub open spec fn wide_ints(p: (i64, i64)) -> (int, int) {
    (p.0 as int, p.1 as int)
}

/// `d` is a direction that `redirect` accepts.
pub open spec fn direction_ok(d: (i64, i64)) -> bool {
    &&& -DIRECTION_MAX <= d.0 <= DIRECTION_MAX
    &&& -DIRECTION_MAX <= d.1 <= DIRECTION_MAX
}

/// One component of a redirected velocity never exceeds the speed.
proof fn lemma_component_bound(a: int, other: int, speed: int, m: int)
    requires
        speed >= 0,
        is_floor_sqrt(1_000_000 * (a * a + other * other), m),
        a != 0 || other != 0,
    ensures
        m >= 1000,
        magnitude(a) * 1000 <= m,
        magnitude(a * 1000 * speed) == magnitude(a) * 1000 * speed,
        magnitude(a * 1000 * speed) <= m * speed,
        magnitude(trunc_div(a * 1000 * speed, m)) <= speed,
        magnitude(trunc_div(a * 1000 * speed, m)) == (magnitude(a) * 1000 * speed) / m,
{
    let k = magnitude(a) * 1000;
    let total = 1_000_000 * (a * a + other * other);
    assert(a * a >= 0 && other * other >= 0) by (nonlinear_arith);
    assert(a * a + other * other >= 1) by (nonlinear_arith)
        requires
            a != 0 || other != 0,
    ;
    assert(k * k == 1_000_000 * (a * a)) by (nonlinear_arith)
        requires
            k == magnitude(a) * 1000,
            magnitude(a) == a || magnitude(a) == -a,
    ;
    assert(k * k <= total);
    assert(k <= m) by (nonlinear_arith)
        requires
            k >= 0,
            m >= 0,
            k * k < (m + 1) * (m + 1),
    ;
    assert(m >= 1000) by (nonlinear_arith)
        requires
            m >= 0,
            1_000_000 < (m + 1) * (m + 1),
    ;
    assert(k * speed <= m * speed) by (nonlinear_arith)
        requires
            0 <= k <= m,
            speed >= 0,
    ;
    assert(k * speed >= 0) by (nonlinear_arith)
        requires
            0 <= k,
            speed >= 0,
    ;
    if a >= 0 {
        assert(a * 1000 * speed == k * speed);
    } else {
        assert(a * 1000 * speed == -(k * speed)) by (nonlinear_arith)
            requires
                k == (-a) * 1000,
        ;
    }
    assert(magnitude(a * 1000 * speed) == k * speed);
    vstd::arithmetic::div_mod::lemma_div_pos_is_pos(k * speed, m);
    vstd::arithmetic::div_mod::lemma_div_is_ordered(k * speed, m * speed, m);
    vstd::arithmetic::div_mod::lemma_div_multiples_vanish(speed, m);
    assert(m * speed == speed * m) by (nonlinear_arith);
}

/// The velocity of length `speed` along `d`, or `None` where `d` is the
/// zero vector, which has no direction.
pub fn redirect(d: (i64, i64), speed: i32) -> (v: Option<(i32, i32)>)
    requires
        direction_ok(d),
        speed >= 0,
    ensures
        v is None <==> (d.0 == 0 && d.1 == 0),
        v is Some ==> as_ints(v->0) == spec_redirect(wide_ints(d), speed as int),
        v is Some ==> magnitude((v->0).0 as int) <= speed && magnitude((v->0).1 as int) <= speed,
{
    let dx: i128 = d.0 as i128;
    let dy: i128 = d.1 as i128;
    proof {
        let m = DIRECTION_MAX as int;
        assert(0 <= dx * dx <= m * m) by (nonlinear_arith)
            requires
                -m <= dx <= m,
        ;
        assert(0 <= dy * dy <= m * m) by (nonlinear_arith)
            requires
                -m <= dy <= m,
        ;
        assert(m * m == 0x40_0000_0000_0000_0000_0000) by (nonlinear_arith)
            requires
                m == 0x800_0000_0000,
        ;
    }
    let n: i128 = dx * dx + dy * dy;
    if n == 0 {
        proof {
            assert(dx == 0) by (nonlinear_arith)
                requires
                    dx * dx == 0,
            ;
            assert(dy == 0) by (nonlinear_arith)
                requires
                    dy * dy == 0,
            ;
        }
        return None;
    }
    let scaled: u128 = (n * 1_000_000) as u128;
    let m: i128 = isqrt(scaled) as i128;
    proof {
        assert(dx == 0 ==> dx * dx == 0) by (nonlinear_arith);
        assert(dy == 0 ==> dy * dy == 0) by (nonlinear_arith);
        lemma_component_bound(dx as int, dy as int, speed as int, m as int);
        assert(dy * dy + dx * dx == dx * dx + dy * dy);
        lemma_component_bound(dy as int, dx as int, speed as int, m as int);
        assert(m * speed <= 0x1_0000_0000_0000_0000 * 0x8000_0000) by (nonlinear_arith)
            requires
                0 <= m < 0x1_0000_0000_0000_0000,
                0 <= speed < 0x8000_0000,
        ;
        assert(dx * 1000 * speed == (dx * 1000) * speed);
        assert(dy * 1000 * speed == (dy * 1000) * speed);
    }
    let vx = div_toward_zero(dx * 1000 * speed as i128, m);
    let vy = div_toward_zero(dy * 1000 * speed as i128, m);
    Some((vx as i32, vy as i32))
}

/// Every non-negative number has a rounded-down square root.
pub proof fn lemma_floor_sqrt_exists(n: nat)
    ensures
        is_floor_sqrt(n as int, floor_sqrt(n as int)),
    decreases n,
{
    if n == 0 {
        assert(is_floor_sqrt(0, 0));
    } else {
        lemma_floor_sqrt_exists((n - 1) as nat);
        let r = floor_sqrt(n - 1);
        if (r + 1) * (r + 1) <= n {
            assert((r + 2) * (r + 2) > (r + 1) * (r + 1)) by (nonlinear_arith)
                requires
                    r >= 0,
            ;
            assert(is_floor_sqrt(n as int, r + 1));
        } else {
            assert(is_floor_sqrt(n as int, r));
        }
    }
}

/// A redirected velocity has the length `speed` up to rounding: neither
/// component exceeds `speed`, the length is at most `speed` and a
/// thousandth of it, and it falls short of `speed` by less than one raw
/// unit on each axis.
pub proof fn lemma_redirect_keeps_speed(d: (int, int), speed: int)
    requires
        d.0 != 0 || d.1 != 0,
        speed >= 0,
    ensures
        ({
            let v = spec_redirect(d, speed);
            &&& magnitude(v.0) <= speed
            &&& magnitude(v.1) <= speed
            &&& 1_000_000 * norm2(v) <= 1_002_001 * (speed * speed)
            &&& norm2((magnitude(v.0) + 1, magnitude(v.1) + 1)) > speed * speed
        }),
{
    let v = spec_redirect(d, speed);
    let total = 1_000_000 * norm2(d);
    assert(d.0 * d.0 >= 0 && d.1 * d.1 >= 0) by (nonlinear_arith);
    lemma_floor_sqrt_exists(total as nat);
    let m = fine_length(d);
    lemma_component_bound(d.0, d.1, speed, m);
    assert(d.1 * d.1 + d.0 * d.0 == d.0 * d.0 + d.1 * d.1);
    lemma_component_bound(d.1, d.0, speed, m);
    let ax = magnitude(d.0) * 1000;
    let ay = magnitude(d.1) * 1000;
    let qx = magnitude(v.0);
    let qy = magnitude(v.1);
    assert(ax * ax + ay * ay == total) by (nonlinear_arith)
        requires
            ax == magnitude(d.0) * 1000,
            ay == magnitude(d.1) * 1000,
            magnitude(d.0) == d.0 || magnitude(d.0) == -d.0,
            magnitude(d.1) == d.1 || magnitude(d.1) == -d.1,
            total == 1_000_000 * (d.0 * d.0 + d.1 * d.1),
    ;
    assert(v.0 * v.0 == qx * qx && v.1 * v.1 == qy * qy) by (nonlinear_arith)
        requires
            qx == v.0 || qx == -v.0,
            qy == v.1 || qy == -v.1,
    ;
    lemma_quotient_squares(ax, speed, m, qx);
    lemma_quotient_squares(ay, speed, m, qy);
    let s2 = speed * speed;
    let mm = m * m;
    // upper bound
    assert(mm * (qx * qx + qy * qy) <= s2 * total) by (nonlinear_arith)
        requires
            mm * (qx * qx) <= s2 * (ax * ax),
            mm * (qy * qy) <= s2 * (ay * ay),
            ax * ax + ay * ay == total,
    ;
    assert(1_000_000 * ((m + 1) * (m + 1)) <= 1_002_001 * mm) by (nonlinear_arith)
        requires
            m >= 1000,
            mm == m * m,
    ;
    assert(s2 >= 0) by (nonlinear_arith)
        requires
            s2 == speed * speed,
    ;
    assert(s2 * total <= s2 * ((m + 1) * (m + 1))) by (nonlinear_arith)
        requires
            s2 >= 0,
            total < (m + 1) * (m + 1),
    ;
    let q = qx * qx + qy * qy;
    assert(1_000_000 * (mm * q) <= 1_002_001 * (mm * s2)) by (nonlinear_arith)
        requires
            mm * q <= s2 * ((m + 1) * (m + 1)),
            1_000_000 * ((m + 1) * (m + 1)) <= 1_002_001 * mm,
            s2 >= 0,
    ;
    assert(mm > 0) by (nonlinear_arith)
        requires
            m >= 1000,
            mm == m * m,
    ;
    assert(1_000_000 * q <= 1_002_001 * s2) by (nonlinear_arith)
        requires
            1_000_000 * (mm * q) <= 1_002_001 * (mm * s2),
            mm > 0,
    ;
    // lower bound
    let px = (qx + 1) * (qx + 1);
    let py = (qy + 1) * (qy + 1);
    if s2 > 0 {
        assert(mm * (px + py) > s2 * total) by (nonlinear_arith)
            requires
                mm * px > s2 * (ax * ax),
                mm * py > s2 * (ay * ay),
                ax * ax + ay * ay == total,
        ;
        assert(s2 * total >= s2 * mm) by (nonlinear_arith)
            requires
                s2 >= 0,
                total >= mm,
        ;
        assert(px + py > s2) by (nonlinear_arith)
            requires
                mm * (px + py) > s2 * mm,
                mm > 0,
        ;
    } else {
        assert(px > 0 && py > 0) by (nonlinear_arith)
            requires
                px == (qx + 1) * (qx + 1),
                py == (qy + 1) * (qy + 1),
                qx >= 0,
                qy >= 0,
        ;
    }
}

/// For `q` the rounded-down quotient of `a * s` by `m`, the square of
/// `q * m` is at most, and that of `(q + 1) * m` is more than, the square
/// of `a * s`.
proof fn lemma_quotient_squares(a: int, s: int, m: int, q: int)
    requires
        a >= 0,
        s >= 0,
        m > 0,
        q == (a * s) / m,
    ensures
        q >= 0,
        (m * m) * (q * q) <= (s * s) * (a * a),
        (m * m) * ((q + 1) * (q + 1)) > (s * s) * (a * a),
        (m * m) * ((q + 1) * (q + 1)) > 0,
{
    let x = a * s;
    assert(x >= 0) by (nonlinear_arith)
        requires
            a >= 0,
            s >= 0,
            x == a * s,
    ;
    vstd::arithmetic::div_mod::lemma_fundamental_div_mod(x, m);
    vstd::arithmetic::div_mod::lemma_mod_bound(x, m);
    vstd::arithmetic::div_mod::lemma_div_pos_is_pos(x, m);
    let lo = m * q;
    let hi = m * (q + 1);
    assert(hi == lo + m) by (nonlinear_arith)
        requires
            lo == m * q,
            hi == m * (q + 1),
    ;
    assert(0 <= lo <= x < hi) by (nonlinear_arith)
        requires
            m > 0,
            q >= 0,
            lo == m * q,
            x == lo + x % m,
            0 <= x % m < m,
            hi == lo + m,
    ;
    assert(lo * lo <= x * x) by (nonlinear_arith)
        requires
            0 <= lo <= x,
    ;
    assert(hi * hi > x * x) by (nonlinear_arith)
        requires
            0 <= x < hi,
    ;
    assert(lo * lo == (m * m) * (q * q)) by (nonlinear_arith)
        requires
            lo == m * q,
    ;
    assert(hi * hi == (m * m) * ((q + 1) * (q + 1))) by (nonlinear_arith)
        requires
            hi == m * (q + 1),
    ;
    assert(x * x == (s * s) * (a * a)) by (nonlinear_arith)
        requires
            x == a * s,
    ;
    assert(hi * hi > 0) by (nonlinear_arith)
        requires
            hi > 0,
    ;
}

impl Ball {
    /// The ball with its speed raised by one paddle hit.
    pub open spec fn sped_up(self) -> Ball {
        Ball { radius: self.radius, speed: spec_faster(self.speed as int) as i32 }
    }
}

} // verus!
