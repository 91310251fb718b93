use vstd::prelude::*;

verus! {

/// Number of fixed-point steps in one whole unit.
pub const UNIT: i64 = 1_000_000;

/// A world-space point, each coordinate in millionths of a world unit.
#[derive(Clone, Copy, Debug, PartialEq, Eq, Structural)]
pub struct Position {
    pub x: i64,
    pub y: i64,
}

/// Scalar speed in world units per second.
#[derive(Clone, Copy, Debug, PartialEq, Eq, Structural)]
pub struct Velocity(pub u32);

/// Heading in whole degrees, counter-clockwise from the +x axis, in `0..360`.
#[derive(Clone, Copy, Debug, PartialEq, Eq, Structural)]
pub struct Angle(pub u32);

/// A unit direction vector `(cos, sin)`, each component in millionths.
#[derive(Clone, Copy, Debug, PartialEq, Eq, Structural)]
pub struct Direction {
    pub cos: i32,
    pub sin: i32,
}

impl Angle {
    pub open spec fn wf(self) -> bool {
        self.0 < 360
    }

    /// The heading of `grad` degrees, brought into one turn.
    pub fn from_grad(grad: u32) -> (r: Angle)
        ensures
            r.0 == grad % 360,
            r.wf(),
    {
        Angle(grad % 360)
    }
}

impl Direction {
    /// Each component lies within one unit.
    pub open spec fn wf(self) -> bool {
        -UNIT <= self.cos <= UNIT && -UNIT <= self.sin <= UNIT
    }
}

/// Distance travelled along one axis, in millionths of a unit, by a particle
/// of speed `speed` during `dt_us` microseconds whose direction component on
/// that axis is `comp` millionths: `speed * dt * comp`, rounded down.
pub open spec fn displacement(speed: u32, dt_us: u32, comp: i32) -> int {
    (speed * dt_us * comp) / (UNIT as int)
}

/// Where a particle at `p` stands after `dt_us` microseconds.
pub open spec fn moved(p: Position, speed: u32, dt_us: u32, dir: Direction) -> (int, int) {
    (p.x + displacement(speed, dt_us, dir.cos), p.y + displacement(speed, dt_us, dir.sin))
}

/// `moved` fits in a `Position`.
pub open spec fn can_move(p: Position, speed: u32, dt_us: u32, dir: Direction) -> bool {
    let (x, y) = moved(p, speed, dt_us, dir);
    i64::MIN <= x <= i64::MAX && i64::MIN <= y <= i64::MAX
}

proof fn lemma_displacement_bounds(speed: u32, dt_us: u32, comp: i32)
    requires
        -UNIT <= comp <= UNIT,
    ensures
        -(speed * dt_us) - 1 <= displacement(speed, dt_us, comp) <= speed * dt_us,
{
    let a = speed * dt_us;
    assert(0 <= a <= 0xffff_ffffu64 * 0xffff_ffffu64) by (nonlinear_arith)
        requires a == speed * dt_us;
    assert(-a * UNIT <= a * comp <= a * UNIT) by (nonlinear_arith)
        requires -UNIT <= comp <= UNIT, a >= 0;
    assert(speed * dt_us * comp == a * comp);
    let n = a * comp;
    let u = UNIT as int;
    assert(n / u <= a) by {
        vstd::arithmetic::div_mod::lemma_div_is_ordered(n, a * u, u);
        vstd::arithmetic::div_mod::lemma_div_multiples_vanish(a, u);
    }
    assert(-a - 1 <= n / u) by {
        vstd::arithmetic::div_mod::lemma_fundamental_div_mod(n, u);
        vstd::arithmetic::div_mod::lemma_mod_bound(n, u);
        assert(u * (n / u) > n - u);
        assert(u * (n / u) > -a * u - u);
        assert(n / u > -a - 1) by (nonlinear_arith)
            requires u * (n / u) > -a * u - u, u > 0;
    }
}

/// One component of the displacement, computed exactly.
pub(crate) fn axis_displacement(speed: u32, dt_us: u32, comp: i32) -> (r: i128)
    requires
        -UNIT <= comp <= UNIT,
    ensures
        r == displacement(speed, dt_us, comp),
        -0x1_0000_0000_0000_0000 <= r <= 0x1_0000_0000_0000_0000,
{
    proof {
        lemma_displacement_bounds(speed, dt_us, comp);
    }
    assert(0 <= speed * dt_us <= 0xffff_ffffu64 * 0xffff_ffffu64) by (nonlinear_arith)
        requires speed <= 0xffff_ffffu64, dt_us <= 0xffff_ffffu64;
    let a: i128 = speed as i128 * dt_us as i128;
    assert(0 <= a <= 0xffff_ffffu64 * 0xffff_ffffu64) by (nonlinear_arith)
        requires a == speed * dt_us;
    assert(-a * UNIT <= a * comp <= a * UNIT) by (nonlinear_arith)
        requires -UNIT <= comp <= UNIT, a >= 0;
    let n: i128 = a * comp as i128;
    match n.checked_div_euclid(UNIT as i128) {
        Some(q) => q,
        None => 0,
    }
}

/// Advances `pos` by `dt_us` microseconds of travel at `speed` along `dir`.
pub fn integrate(pos: &mut Position, speed: Velocity, dt_us: u32, dir: Direction)
    requires
        dir.wf(),
        can_move(*old(pos), speed.0, dt_us, dir),
    ensures
        (final(pos).x as int, final(pos).y as int) == moved(*old(pos), speed.0, dt_us, dir),
{
    let dx = axis_displacement(speed.0, dt_us, dir.cos);
    let dy = axis_displacement(speed.0, dt_us, dir.sin);
    pos.x = (pos.x as i128 + dx) as i64;
    pos.y = (pos.y as i128 + dy) as i64;
}

} // verus!
