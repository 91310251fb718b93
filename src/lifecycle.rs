use vstd::prelude::*;

verus! {

/// Size at or below which a particle is removed: 0.2 units, in millionths.
pub const MIN_SIZE: i64 = 200_000;

/// Shrink rate: 15 units per second, which is 15 millionths per microsecond.
pub const SHRINK_RATE: i64 = 15;

/// What one tick of the lifecycle does to a particle.
#[derive(Clone, Copy, Debug, PartialEq, Eq, Structural)]
pub enum Action {
    /// The particle lives on with a smaller size.
    Shrink,
    /// The particle is gone for good.
    Remove,
}

/// A particle of this size is still alive.
pub open spec fn alive(size: int) -> bool {
    size > MIN_SIZE
}

/// The size after one tick of `dt_us` microseconds, and what the tick does.
pub open spec fn tick_result(size: int, dt_us: int) -> (int, Action) {
    if alive(size) {
        (size - SHRINK_RATE * dt_us, Action::Shrink)
    } else {
        (size, Action::Remove)
    }
}

/// The size after `n` ticks of `dt_us` microseconds each.
pub open spec fn size_after(size: int, dt_us: int, n: nat) -> int
    decreases n,
{
    if n == 0 {
        size
    } else {
        tick_result(size_after(size, dt_us, (n - 1) as nat), dt_us).0
    }
}

/// One lifecycle tick: a live particle shrinks by `15 * dt` and is kept; one
/// whose size has reached the minimum is to be removed and keeps its size.
pub fn tick(size: &mut i64, dt_us: u32) -> (r: Action)
    ensures
        (*final(size) as int, r) == tick_result(*old(size) as int, dt_us as int),
{
    if *size > MIN_SIZE {
        *size = *size - SHRINK_RATE * dt_us as i64;
        Action::Shrink
    } else {
        Action::Remove
    }
}

/// Ticking `n` times with a fixed `dt` shrinks the size linearly, by
/// `15 * dt` each time, as long as the size stayed above the minimum before
/// each of those ticks; the next tick after the size reaches the minimum
/// removes the particle.
pub proof fn lemma_shrink_linear(size: int, dt_us: int, n: nat)
    requires
        dt_us >= 0,
        n > 0 ==> alive(size - SHRINK_RATE * dt_us * (n - 1)),
    ensures
        size_after(size, dt_us, n) == size - SHRINK_RATE * dt_us * n,
        !alive(size_after(size, dt_us, n)) ==> tick_result(size_after(size, dt_us, n), dt_us).1
            == Action::Remove,
    decreases n,
{
    if n > 0 {
        let m = (n - 1) as nat;
        assert(SHRINK_RATE * dt_us * n == SHRINK_RATE * dt_us * m + SHRINK_RATE * dt_us)
            by (nonlinear_arith)
            requires n == m + 1;
        if m > 0 {
            assert(SHRINK_RATE * dt_us * (m - 1) <= SHRINK_RATE * dt_us * m) by (nonlinear_arith)
                requires dt_us >= 0, m > 0;
        }
        lemma_shrink_linear(size, dt_us, m);
    }
}

} // verus!
