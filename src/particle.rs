use nanorand::Rng;
use nanorand::WyRand;
use vstd::prelude::*;

use crate::lifecycle::{alive, tick, tick_result, Action};
use crate::motion::{axis_displacement, can_move, integrate, moved, Angle, Direction, Position, Velocity, UNIT};

verus! {

#[verifier::external_type_specification]
#[verifier::external_body]
pub struct ExWyRand(WyRand);

/// Relies on nanorand's `Rng::generate_range` over the `u32` range `lo..hi`:
/// the number it returns lies in that range.
#[verifier::external_body]
fn draw(rng: &mut WyRand, lo: u32, hi: u32) -> (r: u32)
    requires
        lo < hi,
    ensures
        lo <= r < hi,
{
    rng.generate_range(lo..hi)
}

/// One live particle: its stable identifier, motion, size and colour.
#[derive(Clone, Copy, Debug, PartialEq, Eq, Structural)]
pub struct Particle {
    pub id: u64,
    pub position: Position,
    pub velocity: Velocity,
    pub angle: Angle,
    /// The unit vector of `angle`.
    pub direction: Direction,
    /// Diameter in millionths of a unit; also what is left of its life.
    pub size: i64,
    /// Hue in millionths of a degree, in `0..360` degrees.
    pub hue: u64,
}

/// Hue range in millionths of a degree.
pub const HUE_TURN: u64 = 360_000_000;

/// Particles spawned by a press, and per frame while held.
pub const BURST_COUNT: u32 = 50;
pub const STREAM_COUNT: u32 = 5;

/// The particles of the simulation, in order of creation, with the table of
/// unit vectors for each whole degree.
pub struct ParticleStore {
    particles: Vec<Particle>,
    directions: Vec<Direction>,
    next_id: u64,
}

/// Identifiers rise strictly along `s`.
pub open spec fn ids_rising(s: Seq<Particle>) -> bool {
    forall|i: int, j: int| 0 <= i < j < s.len() ==> (#[trigger] s[i]).id < (#[trigger] s[j]).id
}

/// Some particle of `s` above the minimum size carries identifier `id`.
pub open spec fn has_alive_id(s: Seq<Particle>, id: u64) -> bool {
    exists|m: int| 0 <= m < s.len() && (#[trigger] s[m]).id == id && alive(s[m].size as int)
}

/// Each survivor carries the identifier of a particle of `s` that was alive.
pub proof fn lemma_survivors_from_alive(s: Seq<Particle>, dt_us: u32)
    ensures
        forall|j: int|
            0 <= j < survivors(s, dt_us).len() ==> has_alive_id(
                s,
                (#[trigger] survivors(s, dt_us)[j]).id,
            ),
    decreases s.len(),
{
    if s.len() > 0 {
        let t = s.drop_last();
        lemma_survivors_from_alive(t, dt_us);
        let r = survivors(s, dt_us);
        assert forall|j: int| 0 <= j < r.len() implies has_alive_id(s, (#[trigger] r[j]).id) by {
            if j < survivors(t, dt_us).len() {
                assert(has_alive_id(t, survivors(t, dt_us)[j].id));
                let m = choose|m: int|
                    0 <= m < t.len() && (#[trigger] t[m]).id == survivors(t, dt_us)[j].id
                        && alive(t[m].size as int);
                assert(s[m] == t[m]);
                if alive(s.last().size as int) {
                    assert(r[j] == survivors(t, dt_us)[j]);
                }
            } else {
                assert(alive(s.last().size as int));
                assert(r[j] == shrunk(s.last(), dt_us));
                assert(s[s.len() - 1].id == r[j].id);
            }
        }
    }
}

/// A particle at or below the minimum size is not among the survivors of a
/// tick, when identifiers are unique.
pub proof fn lemma_removed_not_surviving(s: Seq<Particle>, dt_us: u32, i: int)
    requires
        ids_rising(s),
        0 <= i < s.len(),
        !alive(s[i].size as int),
    ensures
        !has_id(survivors(s, dt_us), s[i].id),
{
    lemma_survivors_from_alive(s, dt_us);
    let r = survivors(s, dt_us);
    if has_id(r, s[i].id) {
        let j = choose|j: int| 0 <= j < r.len() && (#[trigger] r[j]).id == s[i].id;
        assert(has_alive_id(s, r[j].id));
        let m = choose|m: int|
            0 <= m < s.len() && (#[trigger] s[m]).id == r[j].id && alive(s[m].size as int);
        if m < i {
            assert(s[m].id < s[i].id);
        } else if m > i {
            assert(s[i].id < s[m].id);
        }
    }
}

/// The hue of frames `elapsed_us` microseconds after start: 100 degrees per
/// second, modulo one turn, in millionths of a degree.
pub open spec fn hue_of(elapsed_us: int) -> int {
    (elapsed_us * 100) % (HUE_TURN as int)
}

/// The lane centre, in degrees, of the `i`-th particle of a held-stream
/// frame whose hue is `hue` (millionths of a degree).
pub open spec fn lane_center(hue: int, i: int) -> int {
    3 * (hue / (UNIT as int)) + (1 + i % 4) * 90
}

/// The table holds a unit vector for each whole degree.
pub open spec fn directions_wf(d: Seq<Direction>) -> bool {
    d.len() == 360 && forall|i: int| 0 <= i < 360 ==> (#[trigger] d[i]).wf()
}

/// The particle's motion after `dt_us` microseconds.
pub open spec fn advanced(p: Particle, dt_us: u32) -> Particle {
    let (x, y) = moved(p.position, p.velocity.0, dt_us, p.direction);
    Particle { position: Position { x: x as i64, y: y as i64 }, ..p }
}

/// The particle after a lifecycle tick that keeps it.
pub open spec fn shrunk(p: Particle, dt_us: u32) -> Particle {
    Particle { size: tick_result(p.size as int, dt_us as int).0 as i64, ..p }
}

/// The particles kept by a lifecycle tick, each shrunk, in order.
pub open spec fn survivors(s: Seq<Particle>, dt_us: u32) -> Seq<Particle>
    decreases s.len(),
{
    if s.len() == 0 {
        s
    } else {
        let rest = survivors(s.drop_last(), dt_us);
        if alive(s.last().size as int) {
            rest.push(shrunk(s.last(), dt_us))
        } else {
            rest
        }
    }
}

/// Some particle of `s` carries identifier `id`.
pub open spec fn has_id(s: Seq<Particle>, id: u64) -> bool {
    exists|i: int| 0 <= i < s.len() && (#[trigger] s[i]).id == id
}

/// A particle spawned at `origin` in a frame of hue `hue`, with identifier
/// `id`, whose unit vector is the table's entry for its heading.
pub open spec fn spawned_at(
    p: Particle,
    id: int,
    origin: Position,
    hue: int,
    d: Seq<Direction>,
) -> bool {
    &&& p.id == id
    &&& p.position == origin
    &&& p.hue == hue
    &&& p.size % UNIT == 0
    &&& 150 <= p.velocity.0 <= 250
    &&& p.angle.wf()
    &&& p.direction == d[p.angle.0 as int]
}

/// A particle of a press burst: size 10 to 50 units, any whole-degree heading.
pub open spec fn burst_particle(
    p: Particle,
    id: int,
    origin: Position,
    hue: int,
    d: Seq<Direction>,
) -> bool {
    &&& spawned_at(p, id, origin, hue, d)
    &&& 10 * UNIT <= p.size <= 50 * UNIT
}

/// The `i`-th particle of a held-stream frame: size 10 to 40 units, heading
/// within `[c - 5, c + 5)` degrees of its lane centre `c`, modulo one turn.
pub open spec fn stream_particle(
    p: Particle,
    i: int,
    id: int,
    origin: Position,
    hue: int,
    d: Seq<Direction>,
) -> bool {
    &&& spawned_at(p, id, origin, hue, d)
    &&& 10 * UNIT <= p.size <= 40 * UNIT
    &&& (p.angle.0 - (lane_center(hue, i) - 5)) % 360 < 10
}

impl ParticleStore {
    /// The live particles, oldest first.
    pub closed spec fn particles(&self) -> Seq<Particle> {
        self.particles@
    }

    /// The unit vector of each whole degree.
    pub closed spec fn directions(&self) -> Seq<Direction> {
        self.directions@
    }

    /// The identifier the next spawned particle gets.
    pub closed spec fn next_id(&self) -> u64 {
        self.next_id
    }

    /// Identifiers rise strictly with creation and stay below `next_id`;
    /// every particle's unit vector is the table's entry for its heading.
    pub closed spec fn wf(&self) -> bool {
        &&& directions_wf(self.directions@)
        &&& forall|i: int, j: int|
            0 <= i < j < self.particles@.len() ==> (#[trigger] self.particles@[i]).id
                < (#[trigger] self.particles@[j]).id
        &&& forall|i: int|
            0 <= i < self.particles@.len() ==> (#[trigger] self.particles@[i]).id < self.next_id
        &&& forall|i: int|
            0 <= i < self.particles@.len() ==> {
                let p = #[trigger] self.particles@[i];
                p.angle.wf() && p.direction == self.directions@[p.angle.0 as int]
            }
    }

    /// `later` holds no particle that is neither in `self` nor newer than
    /// every identifier handed out by `self`.
    pub open spec fn precedes(&self, later: &ParticleStore) -> bool {
        &&& self.next_id() <= later.next_id()
        &&& forall|j: int|
            0 <= j < later.particles().len() ==> has_id(self.particles(), (
            #[trigger] later.particles()[j]).id) || later.particles()[j].id >= self.next_id()
    }

    /// Every particle can advance by `dt_us` microseconds without leaving
    /// the range of a position.
    pub open spec fn can_advance(&self, dt_us: u32) -> bool {
        forall|i: int|
            0 <= i < self.particles().len() ==> {
                let p = #[trigger] self.particles()[i];
                can_move(p.position, p.velocity.0, dt_us, p.direction)
            }
    }
}

impl ParticleStore {
    /// An empty store over the given table of unit vectors, one for each
    /// whole degree; `None` unless the table has 360 entries each within one
    /// unit on both axes.
    pub fn new(directions: Vec<Direction>) -> (r: Option<ParticleStore>)
        ensures
            r.is_some() == directions_wf(directions@),
            r matches Some(st) ==> st.wf() && st.particles() == Seq::<Particle>::empty()
                && st.directions() == directions@ && st.next_id() == 0,
    {
        if directions.len() != 360 {
            return None;
        }
        let mut i: usize = 0;
        while i < 360
            invariant
                directions@.len() == 360,
                i <= 360,
                forall|k: int| 0 <= k < i ==> (#[trigger] directions@[k]).wf(),
            decreases 360 - i,
        {
            let d = directions[i];
            if !(-UNIT <= d.cos as i64 && d.cos as i64 <= UNIT && -UNIT <= d.sin as i64
                && d.sin as i64 <= UNIT) {
                return None;
            }
            i = i + 1;
        }
        Some(ParticleStore { particles: Vec::new(), directions, next_id: 0 })
    }

    /// The live particles, oldest first.
    pub fn particles_ref(&self) -> (r: &Vec<Particle>)
        ensures
            r@ == self.particles(),
    {
        &self.particles
    }

    /// Number of live particles.
    pub fn len(&self) -> (r: usize)
        ensures
            r == self.particles().len(),
    {
        self.particles.len()
    }

    /// The identifier the next spawned particle gets.
    pub fn next_id_value(&self) -> (r: u64)
        ensures
            r == self.next_id(),
    {
        self.next_id
    }
}

impl Particle {
    /// Inserts a new particle with the next identifier, whose unit vector is
    /// the table's entry for `angle`.
    pub fn spawn(
        store: &mut ParticleStore,
        size: i64,
        position: Position,
        velocity: Velocity,
        angle: Angle,
        hue: u64,
    )
        requires
            old(store).wf(),
            angle.wf(),
            old(store).next_id() < u64::MAX,
        ensures
            final(store).wf(),
            final(store).directions() == old(store).directions(),
            final(store).next_id() == old(store).next_id() + 1,
            final(store).particles() == old(store).particles().push(
                Particle {
                    id: old(store).next_id(),
                    position,
                    velocity,
                    angle,
                    direction: old(store).directions()[angle.0 as int],
                    size,
                    hue,
                },
            ),
    {
        let direction = store.directions[angle.0 as usize];
        let p = Particle { id: store.next_id, position, velocity, angle, direction, size, hue };
        store.particles.push(p);
        store.next_id = store.next_id + 1;
        proof {
            let s = store.particles@;
            assert forall|i: int, j: int| 0 <= i < j < s.len() implies (#[trigger] s[i]).id
                < (#[trigger] s[j]).id by {
                if j < s.len() - 1 {
                    assert(s[i] == old(store).particles@[i]);
                    assert(s[j] == old(store).particles@[j]);
                } else {
                    assert(s[i] == old(store).particles@[i]);
                }
            }
            assert forall|i: int| 0 <= i < s.len() implies (#[trigger] s[i]).id
                < store.next_id by {
                if i < s.len() - 1 {
                    assert(s[i] == old(store).particles@[i]);
                }
            }
            assert forall|i: int| 0 <= i < s.len() implies {
                let p = #[trigger] s[i];
                p.angle.wf() && p.direction == store.directions@[p.angle.0 as int]
            } by {
                if i < s.len() - 1 {
                    assert(s[i] == old(store).particles@[i]);
                }
            }
        }
    }
}

impl ParticleStore {
    /// A press burst: fifty particles at `origin`, each with a size of 10 to
    /// 50 units, a speed of 150 to 250 units per second and a heading of 0 to
    /// 359 degrees, all drawn from `rng`.
    pub fn spawn_burst(&mut self, rng: &mut WyRand, origin: Position, hue: u64)
        requires
            old(self).wf(),
            old(self).next_id() + BURST_COUNT <= u64::MAX,
        ensures
            final(self).wf(),
            final(self).directions() == old(self).directions(),
            final(self).next_id() == old(self).next_id() + BURST_COUNT,
            final(self).particles().len() == old(self).particles().len() + BURST_COUNT,
            final(self).particles().take(old(self).particles().len() as int)
                == old(self).particles(),
            old(self).precedes(&*final(self)),
            forall|k: int|
                0 <= k < BURST_COUNT ==> burst_particle(
                    #[trigger] final(self).particles()[old(self).particles().len() + k],
                    old(self).next_id() + k,
                    origin,
                    hue as int,
                    old(self).directions(),
                ),
    {
        let ghost start = self.particles();
        let ghost n = start.len() as int;
        let ghost id0 = self.next_id as int;
        let mut k: u32 = 0;
        while k < BURST_COUNT
            invariant
                self.wf(),
                k <= BURST_COUNT,
                self.directions() == old(self).directions(),
                n == start.len(),
                start == old(self).particles(),
                id0 == old(self).next_id(),
                self.next_id() == id0 + k,
                id0 + BURST_COUNT <= u64::MAX,
                self.particles().len() == n + k,
                forall|i: int| 0 <= i < n ==> #[trigger] self.particles()[i] == start[i],
                forall|j: int|
                    0 <= j < k ==> burst_particle(
                        #[trigger] self.particles()[n + j],
                        id0 + j,
                        origin,
                        hue as int,
                        self.directions(),
                    ),
            decreases BURST_COUNT - k,
        {
            let size = draw(rng, 10, 51);
            let speed = draw(rng, 150, 251);
            let heading = draw(rng, 0, 360);
            let ghost before = self.particles();
            Particle::spawn(
                self,
                size as i64 * UNIT,
                origin,
                Velocity(speed),
                Angle::from_grad(heading),
                hue,
            );
            proof {
                let s = self.particles();
                assert(forall|i: int| 0 <= i < before.len() ==> s[i] == before[i]);
                assert forall|j: int| 0 <= j < k + 1 implies burst_particle(
                    #[trigger] s[n + j],
                    id0 + j,
                    origin,
                    hue as int,
                    self.directions(),
                ) by {
                    if j < k {
                        assert(s[n + j] == before[n + j]);
                    } else {
                        assert(((size as i64 * UNIT) as int) % (UNIT as int) == 0) by (nonlinear_arith)
                            requires 10 <= size < 51;
                    }
                }
            }
            k = k + 1;
        }
        assert(self.particles().take(n) =~= start);
        proof {
            let f = self.particles();
            assert forall|j: int| 0 <= j < f.len() implies has_id(start, (#[trigger] f[j]).id)
                || f[j].id >= id0 by {
                if j < n {
                    assert(f[j] == start[j]);
                } else {
                    let k = j - n;
                    assert(burst_particle(f[n + k], id0 + k, origin, hue as int, self.directions()));
                    assert(n + k == j);
                }
            }
        }
    }

    /// One frame of a held stream: five particles at `origin`, each with a
    /// size of 10 to 40 units, a speed of 150 to 250 units per second, and a
    /// heading drawn from the ten degrees `[c - 5, c + 5)` round the centre
    /// `c` of its lane, which turns with the hue.
    pub fn spawn_stream(&mut self, rng: &mut WyRand, origin: Position, hue: u64)
        requires
            old(self).wf(),
            hue < HUE_TURN,
            old(self).next_id() + STREAM_COUNT <= u64::MAX,
        ensures
            final(self).wf(),
            final(self).directions() == old(self).directions(),
            final(self).next_id() == old(self).next_id() + STREAM_COUNT,
            final(self).particles().len() == old(self).particles().len() + STREAM_COUNT,
            final(self).particles().take(old(self).particles().len() as int)
                == old(self).particles(),
            old(self).precedes(&*final(self)),
            forall|k: int|
                0 <= k < STREAM_COUNT ==> stream_particle(
                    #[trigger] final(self).particles()[old(self).particles().len() + k],
                    k,
                    old(self).next_id() + k,
                    origin,
                    hue as int,
                    old(self).directions(),
                ),
    {
        let ghost start = self.particles();
        let ghost n = start.len() as int;
        let ghost id0 = self.next_id as int;
        let hue_deg: u32 = (hue / (UNIT as u64)) as u32;
        let mut k: u32 = 0;
        while k < STREAM_COUNT
            invariant
                self.wf(),
                k <= STREAM_COUNT,
                hue < HUE_TURN,
                hue_deg == hue as int / (UNIT as int),
                self.directions() == old(self).directions(),
                n == start.len(),
                start == old(self).particles(),
                id0 == old(self).next_id(),
                self.next_id() == id0 + k,
                id0 + STREAM_COUNT <= u64::MAX,
                self.particles().len() == n + k,
                forall|i: int| 0 <= i < n ==> #[trigger] self.particles()[i] == start[i],
                forall|j: int|
                    0 <= j < k ==> stream_particle(
                        #[trigger] self.particles()[n + j],
                        j,
                        id0 + j,
                        origin,
                        hue as int,
                        self.directions(),
                    ),
            decreases STREAM_COUNT - k,
        {
            let lane: u32 = 1 + k % 4;
            let center: u32 = 3 * hue_deg + lane * 90;
            let size = draw(rng, 10, 41);
            let speed = draw(rng, 150, 251);
            let heading = draw(rng, center - 5, center + 5);
            let angle = Angle::from_grad(heading);
            let ghost before = self.particles();
            Particle::spawn(self, size as i64 * UNIT, origin, Velocity(speed), angle, hue);
            proof {
                let s = self.particles();
                assert(forall|i: int| 0 <= i < before.len() ==> s[i] == before[i]);
                assert(center == lane_center(hue as int, k as int));
                let a = angle.0 as int;
                let d = heading as int - (center - 5);
                assert((a - (center - 5)) % 360 < 10) by {
                    vstd::arithmetic::div_mod::lemma_fundamental_div_mod(heading as int, 360);
                    assert(a - (center - 5) == 360 * (-(heading as int / 360)) + d);
                    vstd::arithmetic::div_mod::lemma_mod_multiples_vanish(
                        -(heading as int / 360),
                        d,
                        360,
                    );
                    vstd::arithmetic::div_mod::lemma_small_mod(d as nat, 360);
                }
                assert forall|j: int| 0 <= j < k + 1 implies stream_particle(
                    #[trigger] s[n + j],
                    j,
                    id0 + j,
                    origin,
                    hue as int,
                    self.directions(),
                ) by {
                    if j < k {
                        assert(s[n + j] == before[n + j]);
                    } else {
                        assert(((size as i64 * UNIT) as int) % (UNIT as int) == 0) by (nonlinear_arith)
                            requires 10 <= size < 41;
                    }
                }
            }
            k = k + 1;
        }
        assert(self.particles().take(n) =~= start);
        proof {
            let f = self.particles();
            assert forall|j: int| 0 <= j < f.len() implies has_id(start, (#[trigger] f[j]).id)
                || f[j].id >= id0 by {
                if j < n {
                    assert(f[j] == start[j]);
                } else {
                    let k = j - n;
                    assert(stream_particle(f[n + k], k, id0 + k, origin, hue as int, self.directions()));
                    assert(n + k == j);
                }
            }
        }
    }
}

/// The hue of frames `elapsed_us` microseconds after start.
pub fn hue_at(elapsed_us: u64) -> (r: u64)
    ensures
        r == hue_of(elapsed_us as int),
        r < HUE_TURN,
{
    ((elapsed_us as u128 * 100) % (HUE_TURN as u128)) as u64
}

impl ParticleStore {
    /// The lifecycle system: every particle above the minimum size shrinks
    /// by `15 * dt`; every other particle is removed.
    pub fn shrink(&mut self, dt_us: u32)
        requires
            old(self).wf(),
        ensures
            final(self).wf(),
            final(self).directions() == old(self).directions(),
            final(self).next_id() == old(self).next_id(),
            final(self).particles() == survivors(old(self).particles(), dt_us),
            old(self).precedes(&*final(self)),
    {
        let ghost s = self.particles@;
        let mut out: Vec<Particle> = Vec::new();
        let mut i: usize = 0;
        while i < self.particles.len()
            invariant
                self.wf(),
                s == self.particles@,
                i <= s.len(),
                out@ == survivors(s.take(i as int), dt_us),
                forall|j: int, m: int|
                    0 <= j < out@.len() && i <= m < s.len() ==> (#[trigger] out@[j]).id < (
                    #[trigger] s[m]).id,
                forall|j: int| 0 <= j < out@.len() ==> (#[trigger] out@[j]).id < self.next_id,
                ids_rising(out@),
                forall|j: int|
                    0 <= j < out@.len() ==> {
                        let p = #[trigger] out@[j];
                        p.angle.wf() && p.direction == self.directions@[p.angle.0 as int]
                    },
            decreases s.len() - i,
        {
            let p = self.particles[i];
            let mut size = p.size;
            let action = tick(&mut size, dt_us);
            let ghost before = out@;
            proof {
                assert(s.take(i + 1).drop_last() =~= s.take(i as int));
                assert(s.take(i + 1).last() == s[i as int]);
            }
            match action {
                Action::Shrink => {
                    out.push(Particle { size, ..p });
                },
                Action::Remove => {},
            }
            proof {
                let o = out@;
                assert forall|j: int, k: int| 0 <= j < k < o.len() implies (#[trigger] o[j]).id
                    < (#[trigger] o[k]).id by {
                    if k == before.len() {
                        assert(o[j] == before[j]);
                        assert(before[j].id < s[i as int].id);
                    } else {
                        assert(o[j] == before[j]);
                        assert(o[k] == before[k]);
                    }
                }
                assert forall|j: int, m: int|
                    0 <= j < o.len() && i + 1 <= m < s.len() implies (#[trigger] o[j]).id < (
                    #[trigger] s[m]).id by {
                    if j < before.len() {
                        assert(o[j] == before[j]);
                    } else {
                        assert(s[i as int].id < s[m].id);
                    }
                }
                assert forall|j: int| 0 <= j < o.len() implies (#[trigger] o[j]).id
                    < self.next_id by {
                    if j < before.len() {
                        assert(o[j] == before[j]);
                    }
                }
                assert forall|j: int| 0 <= j < o.len() implies {
                    let p = #[trigger] o[j];
                    p.angle.wf() && p.direction == self.directions@[p.angle.0 as int]
                } by {
                    if j < before.len() {
                        assert(o[j] == before[j]);
                    }
                }
            }
            i = i + 1;
        }
        proof {
            assert(s.take(s.len() as int) =~= s);
            lemma_survivors_from_alive(s, dt_us);
            assert forall|j: int| 0 <= j < out@.len() implies has_id(s, (#[trigger] out@[j]).id)
                || out@[j].id >= self.next_id by {
                assert(has_alive_id(s, survivors(s, dt_us)[j].id));
                let m = choose|m: int|
                    0 <= m < s.len() && (#[trigger] s[m]).id == survivors(s, dt_us)[j].id
                        && alive(s[m].size as int);
            }
        }
        self.particles = out;
    }

    /// The motion system: every particle advances by `dt_us` microseconds of
    /// travel along its heading.
    pub fn update_position(&mut self, dt_us: u32)
        requires
            old(self).wf(),
            old(self).can_advance(dt_us),
        ensures
            final(self).wf(),
            final(self).directions() == old(self).directions(),
            final(self).next_id() == old(self).next_id(),
            final(self).particles().len() == old(self).particles().len(),
            forall|i: int|
                0 <= i < old(self).particles().len() ==> #[trigger] final(self).particles()[i]
                    == advanced(old(self).particles()[i], dt_us),
            old(self).precedes(&*final(self)),
    {
        let ghost s = self.particles@;
        let mut i: usize = 0;
        while i < self.particles.len()
            invariant
                self.wf(),
                self.directions() == old(self).directions(),
                self.next_id() == old(self).next_id(),
                s == old(self).particles(),
                old(self).can_advance(dt_us),
                self.particles@.len() == s.len(),
                i <= s.len(),
                forall|j: int| 0 <= j < i ==> #[trigger] self.particles@[j] == advanced(s[j], dt_us),
                forall|j: int| i <= j < s.len() ==> #[trigger] self.particles@[j] == s[j],
                forall|j: int| 0 <= j < s.len() ==> (#[trigger] self.particles@[j]).id == s[j].id,
            decreases s.len() - i,
        {
            let mut p = self.particles[i];
            assert(can_move(s[i as int].position, s[i as int].velocity.0, dt_us, s[i as int].direction));
            integrate(&mut p.position, p.velocity, dt_us, p.direction);
            let ghost before = self.particles@;
            self.particles.set(i, p);
            proof {
                let o = self.particles@;
                assert(o[i as int] == advanced(s[i as int], dt_us));
                assert forall|a: int, b: int| 0 <= a < b < o.len() implies (#[trigger] o[a]).id
                    < (#[trigger] o[b]).id by {
                    assert(o[a].id == before[a].id);
                    assert(o[b].id == before[b].id);
                }
                assert forall|a: int| 0 <= a < o.len() implies (#[trigger] o[a]).id
                    < self.next_id by {
                    assert(o[a].id == before[a].id);
                }
                assert forall|a: int| 0 <= a < o.len() implies {
                    let p = #[trigger] o[a];
                    p.angle.wf() && p.direction == self.directions@[p.angle.0 as int]
                } by {
                    if a != i {
                        assert(o[a] == before[a]);
                    }
                }
            }
            i = i + 1;
        }
        proof {
            assert forall|j: int| 0 <= j < self.particles@.len() implies has_id(
                s,
                (#[trigger] self.particles@[j]).id,
            ) || self.particles@[j].id >= self.next_id by {
                assert(s[j].id == self.particles@[j].id);
            }
        }
    }

    /// Whether every particle can advance by `dt_us` microseconds without
    /// leaving the range of a position.
    pub fn can_advance_by(&self, dt_us: u32) -> (r: bool)
        requires
            self.wf(),
        ensures
            r == self.can_advance(dt_us),
    {
        let mut i: usize = 0;
        while i < self.particles.len()
            invariant
                self.wf(),
                i <= self.particles@.len(),
                forall|j: int|
                    0 <= j < i ==> {
                        let p = #[trigger] self.particles@[j];
                        can_move(p.position, p.velocity.0, dt_us, p.direction)
                    },
            decreases self.particles@.len() - i,
        {
            let p = self.particles[i];
            let dx = axis_displacement(p.velocity.0, dt_us, p.direction.cos);
            let dy = axis_displacement(p.velocity.0, dt_us, p.direction.sin);
            let x = p.position.x as i128 + dx;
            let y = p.position.y as i128 + dy;
            if x < i64::MIN as i128 || x > i64::MAX as i128 || y < i64::MIN as i128 || y
                > i64::MAX as i128 {
                assert(self.particles()[i as int] == p);
                assert(!can_move(p.position, p.velocity.0, dt_us, p.direction));
                return false;
            }
            i = i + 1;
        }
        true
    }
}

/// Particles a frame spawns as a press burst.
pub open spec fn burst_size(just_pressed: bool, origin: Option<Position>) -> int {
    if just_pressed && origin is Some {
        BURST_COUNT as int
    } else {
        0
    }
}

/// Particles a frame spawns as a held stream.
pub open spec fn stream_size(pressed: bool, origin: Option<Position>) -> int {
    if pressed && origin is Some {
        STREAM_COUNT as int
    } else {
        0
    }
}

/// Every store precedes itself.
pub proof fn lemma_precedes_reflexive(a: ParticleStore)
    ensures
        a.precedes(&a),
{
    assert forall|j: int| 0 <= j < a.particles().len() implies has_id(
        a.particles(),
        (#[trigger] a.particles()[j]).id,
    ) || a.particles()[j].id >= a.next_id() by {}
}

/// Precedence chains: what follows a store's successor follows the store.
pub proof fn lemma_precedes_transitive(a: ParticleStore, b: ParticleStore, c: ParticleStore)
    requires
        a.precedes(&b),
        b.precedes(&c),
    ensures
        a.precedes(&c),
{
    assert forall|j: int| 0 <= j < c.particles().len() implies has_id(
        a.particles(),
        (#[trigger] c.particles()[j]).id,
    ) || c.particles()[j].id >= a.next_id() by {
        if has_id(b.particles(), c.particles()[j].id) {
            let m = choose|m: int|
                0 <= m < b.particles().len() && (#[trigger] b.particles()[m]).id
                    == c.particles()[j].id;
            assert(has_id(a.particles(), b.particles()[m].id) || b.particles()[m].id
                >= a.next_id());
        }
    }
}

/// Removal is final: a particle that a lifecycle tick removes appears in no
/// store that follows, however many frames later.
pub proof fn lemma_removal_is_final(
    a: ParticleStore,
    b: ParticleStore,
    c: ParticleStore,
    i: int,
    dt_us: u32,
)
    requires
        a.wf(),
        0 <= i < a.particles().len(),
        !alive(a.particles()[i].size as int),
        b.particles() == survivors(a.particles(), dt_us),
        b.next_id() == a.next_id(),
        b.precedes(&c),
    ensures
        !has_id(c.particles(), a.particles()[i].id),
{
    let s = a.particles();
    assert(ids_rising(s));
    lemma_removed_not_surviving(s, dt_us, i);
    assert(s[i].id < a.next_id());
    if has_id(c.particles(), s[i].id) {
        let j = choose|j: int| 0 <= j < c.particles().len() && (#[trigger] c.particles()[j]).id
            == s[i].id;
        assert(has_id(b.particles(), c.particles()[j].id) || c.particles()[j].id
            >= b.next_id());
    }
}

impl ParticleStore {
    /// The input system. On a press, with a resolved world position, a burst
    /// of fifty particles; while held, with a resolved world position, five
    /// more in lanes. All of the frame's particles share the hue of
    /// `elapsed_us`, and stand at the resolved position.
    pub fn input_handler(
        &mut self,
        rng: &mut WyRand,
        just_pressed: bool,
        pressed: bool,
        origin: Option<Position>,
        elapsed_us: u64,
    )
        requires
            old(self).wf(),
            old(self).next_id() + BURST_COUNT + STREAM_COUNT <= u64::MAX,
        ensures
            final(self).wf(),
            final(self).directions() == old(self).directions(),
            final(self).next_id() == old(self).next_id() + burst_size(just_pressed, origin)
                + stream_size(pressed, origin),
            final(self).particles().len() == old(self).particles().len() + burst_size(
                just_pressed,
                origin,
            ) + stream_size(pressed, origin),
            final(self).particles().take(old(self).particles().len() as int)
                == old(self).particles(),
            old(self).precedes(&*final(self)),
            forall|k: int|
                0 <= k < burst_size(just_pressed, origin) ==> burst_particle(
                    #[trigger] final(self).particles()[old(self).particles().len() + k],
                    old(self).next_id() + k,
                    origin->Some_0,
                    hue_of(elapsed_us as int),
                    old(self).directions(),
                ),
            forall|k: int|
                0 <= k < stream_size(pressed, origin) ==> stream_particle(
                    #[trigger] final(self).particles()[old(self).particles().len() + burst_size(
                        just_pressed,
                        origin,
                    ) + k],
                    k,
                    old(self).next_id() + burst_size(just_pressed, origin) + k,
                    origin->Some_0,
                    hue_of(elapsed_us as int),
                    old(self).directions(),
                ),
    {
        let hue = hue_at(elapsed_us);
        let ghost start = *self;
        let ghost n = self.particles().len() as int;
        let ghost nb = burst_size(just_pressed, origin);
        proof {
            lemma_precedes_reflexive(start);
        }
        if let Some(at) = origin {
            if just_pressed {
                self.spawn_burst(rng, at, hue);
            }
        }
        let ghost mid = *self;
        assert(mid.particles().take(n) =~= start.particles());
        if let Some(at) = origin {
            if pressed {
                self.spawn_stream(rng, at, hue);
            }
        }
        proof {
            lemma_precedes_reflexive(*self);
            lemma_precedes_transitive(start, mid, *self);
            let f = self.particles();
            assert(f.take(n + nb) =~= mid.particles());
            assert(f.take(n) =~= start.particles()) by {
                assert forall|j: int| 0 <= j < n implies f[j] == start.particles()[j] by {
                    assert(f.take(n + nb)[j] == f[j]);
                    assert(mid.particles().take(n)[j] == mid.particles()[j]);
                }
            }
            assert forall|k: int| 0 <= k < nb implies burst_particle(
                #[trigger] f[n + k],
                start.next_id() + k,
                origin->Some_0,
                hue_of(elapsed_us as int),
                start.directions(),
            ) by {
                assert(f.take(n + nb)[n + k] == f[n + k]);
                assert(burst_particle(
                    mid.particles()[n + k],
                    start.next_id() + k,
                    origin->Some_0,
                    hue as int,
                    start.directions(),
                ));
            }
        }
    }
}

/// The particles after frames with no input, one for each entry of `dts`:
/// each frame advances every particle, then applies a lifecycle tick.
pub open spec fn idle_frames(s: Seq<Particle>, dts: Seq<u32>) -> Seq<Particle>
    decreases dts.len(),
{
    if dts.len() == 0 {
        s
    } else {
        let t = idle_frames(s, dts.drop_last());
        let dt = dts.last();
        survivors(t.map_values(|p: Particle| advanced(p, dt)), dt)
    }
}

/// With no input and no particles, any number of frames leaves the
/// simulation empty.
pub proof fn lemma_idle_stays_empty(dts: Seq<u32>)
    ensures
        idle_frames(Seq::<Particle>::empty(), dts) == Seq::<Particle>::empty(),
    decreases dts.len(),
{
    if dts.len() > 0 {
        lemma_idle_stays_empty(dts.drop_last());
        let dt = dts.last();
        let t = idle_frames(Seq::<Particle>::empty(), dts.drop_last());
        assert(t.map_values(|p: Particle| advanced(p, dt)).len() == 0);
    }
}

/// Held over a resolved position for `k` frames without a new press, the
/// input system hands out five identifiers a frame: `5 * k` particles in all.
pub proof fn lemma_stream_frames_count(frames: Seq<ParticleStore>, origin: Option<Position>)
    requires
        frames.len() >= 1,
        origin is Some,
        forall|i: int|
            0 <= i < frames.len() - 1 ==> (#[trigger] frames[i + 1]).next_id() == frames[i].next_id()
                + burst_size(false, origin) + stream_size(true, origin),
    ensures
        frames.last().next_id() == frames[0].next_id() + STREAM_COUNT * (frames.len() - 1),
    decreases frames.len(),
{
    if frames.len() > 1 {
        let t = frames.drop_last();
        assert forall|i: int| 0 <= i < t.len() - 1 implies (#[trigger] t[i + 1]).next_id()
            == t[i].next_id() + burst_size(false, origin) + stream_size(true, origin) by {
            assert(t[i + 1] == frames[i + 1]);
        }
        lemma_stream_frames_count(t, origin);
        assert(frames[frames.len() - 1] == frames[(frames.len() - 2) + 1]);
    }
}

} // verus!
