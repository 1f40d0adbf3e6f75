//! Cosmetic particles: emission with random jitter, motion, and removal
//! at the end of each particle's life.

use crate::components::Field;
use crate::fixed::{clamp_i32, clamp_i64, clamped, div_toward_zero, magnitude, trunc_div};
use vstd::prelude::*;

verus! {

/// The colours particles are drawn in.
#[derive(Clone, Copy, Debug, Default, PartialEq, Eq, Structural)]
pub enum Color {
    #[default]
    Black,
    White,
    Red,
    Blue,
}

/// One particle. Times are in milliseconds on the simulation clock.
#[derive(Clone, Copy, Debug, Default, PartialEq, Eq)]
pub struct Particle {
    pub position: (i32, i32),
    pub velocity: (i32, i32),
    pub size: i32,
    pub color: Color,
    pub birthtime: i64,
    pub deathtime: i64,
}

/// A request for `count` particles around common base values. Each
/// variance is the largest distance of a drawn value from its base.
#[derive(Clone, Copy, Debug, PartialEq, Eq)]
pub struct Emission {
    pub count: i32,
    pub position: (i32, i32),
    pub velocity: (i32, i32),
    pub size: i32,
    pub color: Color,
    pub age: i64,
    pub position_variance: (i32, i32),
    pub velocity_variance: (i32, i32),
    pub size_variance: i32,
    pub age_variance: i32,
}

/// The offsets drawn for one particle.
#[derive(Clone, Copy, Debug, PartialEq, Eq)]
pub struct Jitter {
    pub position: (i32, i32),
    pub velocity: (i32, i32),
    pub size: i32,
    pub age: i32,
}

/// The live particles, oldest emission first.
#[derive(Debug)]
pub struct ParticleStorage {
    pub particles_container: Vec<Particle>,
}

/// Frames between two backdrop particles.
pub const BACKDROP_PERIOD: u64 = 8;

/// Backdrop particles laid out when a session begins.
pub const BACKDROP_COUNT: i32 = 125;

/// `offset` lies within `variance` of zero.
pub open spec fn within(offset: int, variance: int) -> bool {
    if variance >= 0 {
        -variance <= offset <= variance
    } else {
        variance <= offset <= -variance
    }
}

/// `x` held within the range of `i32`.
pub open spec fn to_i32(x: int) -> i32 {
    clamped(x, i32::MIN as int, i32::MAX as int) as i32
}

/// `x` held within the range of `i64`.
pub open spec fn to_i64(x: int) -> i64 {
    clamped(x, i64::MIN as int, i64::MAX as int) as i64
}

impl Jitter {
    /// Every offset lies within the variance that `e` gives for it.
    pub open spec fn fits(self, e: Emission) -> bool {
        &&& within(self.position.0 as int, e.position_variance.0 as int)
        &&& within(self.position.1 as int, e.position_variance.1 as int)
        &&& within(self.velocity.0 as int, e.velocity_variance.0 as int)
        &&& within(self.velocity.1 as int, e.velocity_variance.1 as int)
        &&& within(self.size as int, e.size_variance as int)
        &&& within(self.age as int, e.age_variance as int)
    }
}

/// The particle born at `now` from the base values of `e` and the
/// offsets `j`.
pub open spec fn spec_particle(now: i64, e: Emission, j: Jitter) -> Particle {
    Particle {
        position: (
            to_i32(e.position.0 + j.position.0),
            to_i32(e.position.1 + j.position.1),
        ),
        velocity: (
            to_i32(e.velocity.0 + j.velocity.0),
            to_i32(e.velocity.1 + j.velocity.1),
        ),
        size: to_i32(e.size + j.size),
        color: e.color,
        birthtime: now,
        deathtime: to_i64(now + e.age + j.age),
    }
}

/// `p` is a particle that `e` may give birth to at `now`: the one made
/// from some offsets within the variances of `e`.
pub open spec fn born_from(p: Particle, now: i64, e: Emission) -> bool {
    exists|j: Jitter| j.fits(e) && p == spec_particle(now, e, j)
}

/// A particle that `e` gives birth to at `now` is born at `now`, has the
/// colour of `e`, and dies no further than the age variance from
/// `now + e.age`, provided that this window lies within the range of
/// the clock.
pub proof fn lemma_born_window(p: Particle, now: i64, e: Emission)
    requires
        born_from(p, now, e),
        i64::MIN <= now + e.age - magnitude(e.age_variance as int),
        now + e.age + magnitude(e.age_variance as int) <= i64::MAX,
    ensures
        p.birthtime == now,
        p.color == e.color,
        now + e.age - magnitude(e.age_variance as int) <= p.deathtime <= now + e.age + magnitude(
            e.age_variance as int,
        ),
        e.age_variance == 0 ==> p.deathtime == now + e.age,
{
}

/// The particles of `s` that are alive at `now`, in their order.
pub open spec fn survivors(s: Seq<Particle>, now: i64) -> Seq<Particle> {
    s.filter(|p: Particle| p.alive_at(now))
}

/// Pruning at or after the end of an emission's age removes every
/// particle of that emission, provided that the emission has no age
/// variance: what survives of any collection `s` holds no particle that
/// `e` gave birth to at `now`.
pub proof fn lemma_pruned_on_time(s: Seq<Particle>, now: i64, e: Emission, later: i64)
    requires
        e.age_variance == 0,
        now + e.age <= later,
    ensures
        forall|k: int|
            0 <= k < survivors(s, later).len() ==> !born_from(
                #[trigger] survivors(s, later)[k],
                now,
                e,
            ),
{
    let keep = |p: Particle| p.alive_at(later);
    assert forall|k: int| 0 <= k < survivors(s, later).len() implies !born_from(
        #[trigger] survivors(s, later)[k],
        now,
        e,
    ) by {
        let p = survivors(s, later)[k];
        s.lemma_filter_pred(keep, k);
        assert(keep(p));
        if born_from(p, now, e) {
            lemma_born_window(p, now, e);
        }
    }
}

/// The particle born at `now` from the base values of `e` and the
/// offsets `j`.
pub fn particle_from(now: i64, e: &Emission, j: &Jitter) -> (p: Particle)
    ensures
        p == spec_particle(now, *e, *j),
{
    Particle {
        position: (
            clamp_i32(e.position.0 as i128 + j.position.0 as i128),
            clamp_i32(e.position.1 as i128 + j.position.1 as i128),
        ),
        velocity: (
            clamp_i32(e.velocity.0 as i128 + j.velocity.0 as i128),
            clamp_i32(e.velocity.1 as i128 + j.velocity.1 as i128),
        ),
        size: clamp_i32(e.size as i128 + j.size as i128),
        color: e.color,
        birthtime: now,
        deathtime: clamp_i64(now as i128 + e.age as i128 + j.age as i128),
    }
}

/// Draws a pseudo-random number with `macroquad::rand::gen_range`, the
/// function of `quad_rand` that maps the generator's next 32-bit output
/// linearly onto the span between its two arguments and rounds toward
/// zero. All that is claimed of the result is that it lies between the
/// two bounds, whichever is larger.
#[verifier::external_body]
fn random_between(low: i32, high: i32) -> (r: i32)
    ensures
        low <= high ==> low <= r <= high,
        high <= low ==> high <= r <= low,
{
    macroquad::rand::gen_range(low, high)
}

/// A random offset within `variance` of zero.
pub fn random_offset(variance: i32) -> (offset: i32)
    ensures
        within(offset as int, variance as int),
{
    if variance == i32::MIN {
        random_between(i32::MIN, i32::MAX)
    } else {
        random_between(-variance, variance)
    }
}

/// Random offsets for one particle of `e`.
pub fn random_jitter(e: &Emission) -> (j: Jitter)
    ensures
        j.fits(*e),
{
    Jitter {
        position: (random_offset(e.position_variance.0), random_offset(e.position_variance.1)),
        velocity: (random_offset(e.velocity_variance.0), random_offset(e.velocity_variance.1)),
        size: random_offset(e.size_variance),
        age: random_offset(e.age_variance),
    }
}

/// The number of particles that `e` asks for.
pub open spec fn burst_size(e: Emission) -> nat {
    if e.count > 0 {
        e.count as nat
    } else {
        0
    }
}

/// The number of particles that the first `n` of `bursts` ask for.
pub open spec fn burst_total(bursts: Seq<Emission>, n: nat) -> nat
    decreases n,
{
    if n == 0 {
        0
    } else {
        burst_total(bursts, (n - 1) as nat) + burst_size(bursts[n - 1])
    }
}

/// `after` is `before` followed by the particles of `bursts`, burst by
/// burst: as many for each burst as it asks for, each born from it at
/// `now`.
pub open spec fn emitted(
    before: Seq<Particle>,
    after: Seq<Particle>,
    bursts: Seq<Emission>,
    now: i64,
) -> bool {
    &&& after.len() == before.len() + burst_total(bursts, bursts.len())
    &&& after.take(before.len() as int) == before
    &&& forall|b: int, k: int|
        0 <= b < bursts.len() && before.len() + burst_total(bursts, b as nat) <= k < before.len()
            + burst_total(bursts, (b + 1) as nat) ==> born_from(
            #[trigger] after[k],
            now,
            #[trigger] bursts[b],
        )
}

/// More bursts ask for no fewer particles.
pub proof fn lemma_burst_total_monotonic(bursts: Seq<Emission>, i: nat, j: nat)
    requires
        i <= j,
    ensures
        burst_total(bursts, i) <= burst_total(bursts, j),
    decreases j,
{
    if i < j {
        lemma_burst_total_monotonic(bursts, i, (j - 1) as nat);
    }
}

impl Particle {
    /// The particle one frame later: moved by its velocity.
    pub open spec fn spec_moved(self) -> Particle {
        Particle {
            position: (
                to_i32(self.position.0 + self.velocity.0),
                to_i32(self.position.1 + self.velocity.1),
            ),
            ..self
        }
    }

    /// Whether the particle is still alive at `now`.
    pub open spec fn alive_at(self, now: i64) -> bool {
        self.deathtime > now
    }

    /// The share of the particle's life that is left at `now`, in
    /// thousandths: 1000 at birth, 0 from its death on, and 0 for a
    /// particle that was born dead.
    pub open spec fn spec_remaining_life(self, now: i64) -> int {
        if self.deathtime <= self.birthtime {
            0
        } else {
            clamped(
                trunc_div(
                    (self.deathtime - now) * 1000,
                    (self.deathtime - self.birthtime) as int,
                ),
                0,
                1000,
            )
        }
    }

    /// The particle one frame later.
    pub fn moved(&self) -> (next: Particle)
        ensures
            next == self.spec_moved(),
    {
        Particle {
            position: (
                clamp_i32(self.position.0 as i128 + self.velocity.0 as i128),
                clamp_i32(self.position.1 as i128 + self.velocity.1 as i128),
            ),
            velocity: self.velocity,
            size: self.size,
            color: self.color,
            birthtime: self.birthtime,
            deathtime: self.deathtime,
        }
    }

    /// The share of the particle's life that is left at `now`, in
    /// thousandths.
    pub fn remaining_life(&self, now: i64) -> (share: i32)
        ensures
            share == self.spec_remaining_life(now),
            0 <= share <= 1000,
    {
        if self.deathtime <= self.birthtime {
            return 0;
        }
        let left: i128 = self.deathtime as i128 - now as i128;
        let span: i128 = self.deathtime as i128 - self.birthtime as i128;
        let share = div_toward_zero(left * 1000, span);
        crate::fixed::clamp(share, 0, 1000) as i32
    }
}

impl Default for ParticleStorage {
    fn default() -> (storage: Self)
        ensures
            storage@ == Seq::<Particle>::empty(),
    {
        ParticleStorage::new()
    }
}

impl ParticleStorage {
    /// The particles as a sequence.
    pub open spec fn view(&self) -> Seq<Particle> {
        self.particles_container@
    }

    /// An empty collection.
    pub fn new() -> (storage: Self)
        ensures
            storage@ == Seq::<Particle>::empty(),
    {
        Self { particles_container: Vec::new() }
    }

    /// The number of live particles.
    pub fn len(&self) -> (n: usize)
        ensures
            n == self@.len(),
    {
        self.particles_container.len()
    }

    /// Adds `e.count` particles born at `now`, each with offsets of its
    /// own drawn within the variances of `e`.
    pub fn emit(&mut self, now: i64, e: &Emission)
        ensures
            final(self)@.len() == old(self)@.len() + (if e.count > 0 {
                e.count as int
            } else {
                0
            }),
            final(self)@.take(old(self)@.len() as int) == old(self)@,
            forall|k: int|
                old(self)@.len() <= k < final(self)@.len() ==> born_from(
                    #[trigger] final(self)@[k],
                    now,
                    *e,
                ),
    {
        let ghost before = self@;
        let mut made: i32 = 0;
        while made < e.count
            invariant
                0 <= made,
                made <= e.count || made == 0,
                self@.len() == before.len() + made,
                self@.take(before.len() as int) == before,
                forall|k: int|
                    before.len() <= k < self@.len() ==> born_from(#[trigger] self@[k], now, *e),
            decreases e.count - made,
        {
            let j = random_jitter(e);
            let p = particle_from(now, e, &j);
            let ghost prior = self@;
            self.particles_container.push(p);
            made = made + 1;
            proof {
                assert(self@.take(before.len() as int) =~= prior.take(before.len() as int));
                assert forall|k: int| before.len() <= k < self@.len() implies born_from(
                    #[trigger] self@[k],
                    now,
                    *e,
                ) by {
                    if k < prior.len() {
                        assert(self@[k] == prior[k]);
                    } else {
                        assert(j.fits(*e) && self@[k] == spec_particle(now, *e, j));
                    }
                }
            }
        }
    }

    /// Adds `count` particles born at `now` around the given base
    /// values: see `emit`.
    pub fn create_particle(
        &mut self,
        now: i64,
        count: i32,
        position: (i32, i32),
        velocity: (i32, i32),
        size: i32,
        color: Color,
        age: i64,
        position_variance: (i32, i32),
        velocity_variance: (i32, i32),
        size_variance: i32,
        age_variance: i32,
    )
        ensures
            final(self)@.len() == old(self)@.len() + (if count > 0 {
                count as int
            } else {
                0
            }),
            final(self)@.take(old(self)@.len() as int) == old(self)@,
            forall|k: int|
                old(self)@.len() <= k < final(self)@.len() ==> born_from(
                    #[trigger] final(self)@[k],
                    now,
                    (Emission {
                        count,
                        position,
                        velocity,
                        size,
                        color,
                        age,
                        position_variance,
                        velocity_variance,
                        size_variance,
                        age_variance,
                    }),
                ),
    {
        let e = Emission {
            count,
            position,
            velocity,
            size,
            color,
            age,
            position_variance,
            velocity_variance,
            size_variance,
            age_variance,
        };
        self.emit(now, &e);
    }

    /// Carries out `bursts` in order: see `emitted`.
    pub fn emit_all(&mut self, now: i64, bursts: &Vec<Emission>)
        ensures
            emitted(old(self)@, final(self)@, bursts@, now),
    {
        let ghost before = self@;
        let mut i: usize = 0;
        while i < bursts.len()
            invariant
                i <= bursts@.len(),
                self@.len() == before.len() + burst_total(bursts@, i as nat),
                self@.take(before.len() as int) == before,
                forall|b: int, k: int|
                    0 <= b < i && before.len() + burst_total(bursts@, b as nat) <= k < before.len()
                        + burst_total(bursts@, (b + 1) as nat) ==> born_from(
                        #[trigger] self@[k],
                        now,
                        #[trigger] bursts@[b],
                    ),
            decreases bursts@.len() - i,
        {
            let ghost prior = self@;
            self.emit(now, &bursts[i]);
            proof {
                assert(burst_total(bursts@, (i + 1) as nat) == burst_total(bursts@, i as nat)
                    + burst_size(bursts@[i as int]));
                assert(self@.take(before.len() as int) =~= prior.take(before.len() as int)) by {
                    assert(self@.take(prior.len() as int) == prior);
                    assert forall|k: int| 0 <= k < before.len() implies self@[k] == prior[k] by {
                        assert(self@.take(prior.len() as int)[k] == prior[k]);
                    }
                }
                assert forall|b: int, k: int|
                    0 <= b < i + 1 && before.len() + burst_total(bursts@, b as nat) <= k
                        < before.len() + burst_total(bursts@, (b + 1) as nat) implies born_from(
                    #[trigger] self@[k],
                    now,
                    #[trigger] bursts@[b],
                ) by {
                    if b < i {
                        lemma_burst_total_monotonic(bursts@, (b + 1) as nat, i as nat);
                        assert(self@.take(prior.len() as int)[k] == prior[k]);
                    }
                }
            }
            i = i + 1;
        }
    }

    /// Moves every particle by its velocity.
    pub fn advance(&mut self)
        ensures
            final(self)@.len() == old(self)@.len(),
            forall|k: int|
                0 <= k < old(self)@.len() ==> #[trigger] final(self)@[k] == old(
                    self,
                )@[k].spec_moved(),
    {
        let ghost before = self@;
        let n = self.particles_container.len();
        let mut i: usize = 0;
        while i < n
            invariant
                i <= n,
                n == before.len(),
                self@.len() == n,
                forall|k: int| 0 <= k < i ==> #[trigger] self@[k] == before[k].spec_moved(),
                forall|k: int| i <= k < n ==> #[trigger] self@[k] == before[k],
            decreases n - i,
        {
            let next = self.particles_container[i].moved();
            self.particles_container.set(i, next);
            i = i + 1;
        }
    }

    /// Drops every particle whose life has ended at `now`, and keeps the
    /// others in their order.
    pub fn prune(&mut self, now: i64)
        ensures
            final(self)@ == survivors(old(self)@, now),
    {
        let ghost before = self@;
        let ghost keep = |p: Particle| p.alive_at(now);
        let n = self.particles_container.len();
        let mut kept: Vec<Particle> = Vec::new();
        let mut i: usize = 0;
        proof {
            reveal(Seq::filter);
            assert(before.take(0) =~= Seq::<Particle>::empty());
        }
        while i < n
            invariant
                i <= n,
                n == before.len(),
                self@ == before,
                keep == |p: Particle| p.alive_at(now),
                kept@ == before.take(i as int).filter(keep),
            decreases n - i,
        {
            let p = self.particles_container[i];
            proof {
                reveal(Seq::filter);
                assert(before.take(i + 1).drop_last() =~= before.take(i as int));
                assert(before.take(i + 1).last() == p);
            }
            if p.deathtime > now {
                kept.push(p);
            }
            i = i + 1;
        }
        proof {
            assert(before.take(n as int) =~= before);
        }
        self.particles_container = kept;
    }
}

/// The backdrop particle that drifts down from the top of the field.
pub open spec fn spec_backdrop(field: Field, count: i32, spread: i32, top: i32) -> Emission {
    Emission {
        count,
        position: ((field.width / 2) as i32, top),
        velocity: (0, 400),
        size: 2000,
        color: Color::White,
        age: 60_000,
        position_variance: ((field.width / 2) as i32, spread),
        velocity_variance: (0, 200),
        size_variance: 0,
        age_variance: 0,
    }
}

/// The backdrop laid out when a session begins: `BACKDROP_COUNT`
/// particles spread over the whole field.
pub fn opening_backdrop(field: &Field) -> (e: Emission)
    requires
        field.sized(),
    ensures
        e == spec_backdrop(
            *field,
            BACKDROP_COUNT,
            (field.height / 2) as i32,
            (field.height / 2) as i32,
        ),
{
    Emission {
        count: BACKDROP_COUNT,
        position: (field.width / 2, field.height / 2),
        velocity: (0, 400),
        size: 2000,
        color: Color::White,
        age: 60_000,
        position_variance: (field.width / 2, field.height / 2),
        velocity_variance: (0, 200),
        size_variance: 0,
        age_variance: 0,
    }
}

/// The backdrop particle due in frame number `frame`: one particle just
/// above the field in every `BACKDROP_PERIOD`-th frame, none in the
/// others.
pub fn drifting_backdrop(frame: u64, field: &Field) -> (e: Option<Emission>)
    requires
        field.sized(),
    ensures
        e is Some <==> frame % BACKDROP_PERIOD == 0,
        e is Some ==> e->0 == spec_backdrop(*field, 1, 0, -4000i32),
{
    if frame % BACKDROP_PERIOD == 0 {
        Some(
            Emission {
                count: 1,
                position: (field.width / 2, -4000),
                velocity: (0, 400),
                size: 2000,
                color: Color::White,
                age: 60_000,
                position_variance: (field.width / 2, 0),
                velocity_variance: (0, 200),
                size_variance: 0,
                age_variance: 0,
            },
        )
    } else {
        None
    }
}

} // verus!
