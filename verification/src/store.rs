//! The entity store: a `hecs::World` that holds paddles, balls and
//! bullets, behind an interface that keeps every stored component valid.

use crate::components::{Ball, Bounds, Bullet, ControlType, Transform};
use hecs::World;
use vstd::prelude::*;

verus! {

/// `hecs::World`, whose inside is not looked into: what it holds is
/// spoken of through `world_view` only.
#[verifier::external_type_specification]
#[verifier::external_body]
pub struct ExWorld(World);

/// What one entity holds of each kind of component.
#[derive(Clone, Copy, Debug, PartialEq, Eq)]
pub struct Record {
    pub transform: Option<Transform>,
    pub bounds: Option<Bounds>,
    pub control: Option<ControlType>,
    pub ball: Option<Ball>,
    pub bullet: Option<Bullet>,
}

/// Most entities that an arena holds.
pub const CAPACITY: u32 = 0xffff_fffe;

/// What a `hecs::World` holds: its live entities, each under the bits of
/// its handle (`hecs::Entity::to_bits`), with the components it has of
/// the five kinds that a `Record` lists.
pub uninterp spec fn world_view(world: World) -> Map<u64, Record>;

/// The record of a paddle.
pub open spec fn paddle_record(transform: Transform, bounds: Bounds, control: ControlType) -> Record {
    Record {
        transform: Some(transform),
        bounds: Some(bounds),
        control: Some(control),
        ball: None,
        bullet: None,
    }
}

/// The record of a ball.
pub open spec fn ball_record(transform: Transform, ball: Ball) -> Record {
    Record { transform: Some(transform), bounds: None, control: None, ball: Some(ball), bullet: None }
}

/// The record of a bullet.
pub open spec fn bullet_record(transform: Transform, bullet: Bullet) -> Record {
    Record {
        transform: Some(transform),
        bounds: None,
        control: None,
        ball: None,
        bullet: Some(bullet),
    }
}

impl Record {
    /// A transform, extents and a control, and nothing else.
    pub open spec fn is_paddle(self) -> bool {
        self.transform is Some && self.bounds is Some && self.control is Some && self.ball is None
            && self.bullet is None
    }

    /// A transform and a ball, and nothing else.
    pub open spec fn is_ball(self) -> bool {
        self.transform is Some && self.bounds is None && self.control is None && self.ball is Some
            && self.bullet is None
    }

    /// A transform and a bullet, and nothing else.
    pub open spec fn is_bullet(self) -> bool {
        self.transform is Some && self.bounds is None && self.control is None && self.ball is None
            && self.bullet is Some
    }

    /// The record is that of a paddle, a ball or a bullet, and each of
    /// its components is valid.
    pub open spec fn valid(self) -> bool {
        &&& self.is_paddle() || self.is_ball() || self.is_bullet()
        &&& self.transform->0.valid()
        &&& self.bounds is Some ==> self.bounds->0.valid()
        &&& self.ball is Some ==> self.ball->0.valid()
        &&& self.bullet is Some ==> self.bullet->0.valid()
    }

    /// Both records hold components of the same kinds.
    pub open spec fn same_kind(self, other: Record) -> bool {
        &&& self.transform is Some <==> other.transform is Some
        &&& self.bounds is Some <==> other.bounds is Some
        &&& self.control is Some <==> other.control is Some
        &&& self.ball is Some <==> other.ball is Some
        &&& self.bullet is Some <==> other.bullet is Some
    }
}

/// An entity as it is handed to the store: the record it is to have, the
/// identifier it is stored under, if it is stored yet, and whether it is
/// to stay.
#[derive(Clone, Copy, Debug, PartialEq, Eq)]
pub struct Slot {
    pub id: Option<u64>,
    pub alive: bool,
    pub record: Record,
}

/// `slots` accounts for the entities of `view`: every identifier in
/// `slots` names an entity of the same kind, no identifier occurs twice,
/// and every entity is named.
pub open spec fn tracks(slots: Seq<Slot>, view: Map<u64, Record>) -> bool {
    &&& forall|k: int|
        0 <= k < slots.len() && (#[trigger] slots[k]).id is Some ==> view.dom().contains(
            slots[k].id->0,
        ) && view[slots[k].id->0].same_kind(slots[k].record)
    &&& forall|i: int, j: int|
        0 <= i < slots.len() && 0 <= j < slots.len() && (#[trigger] slots[i]).id is Some
            && slots[i].id == (#[trigger] slots[j]).id ==> i == j
    &&& forall|id: u64|
        view.dom().contains(id) ==> exists|k: int|
            0 <= k < slots.len() && (#[trigger] slots[k]).id == Some(id)
}

/// Every slot that is to stay holds a valid record.
pub open spec fn storable(slots: Seq<Slot>) -> bool {
    forall|k: int| 0 <= k < slots.len() && (#[trigger] slots[k]).alive ==> slots[k].record.valid()
}

/// `after` is what storing `slots` leaves, and `ids` are the identifiers
/// the slots are stored under. A slot that is to stay keeps the
/// identifier it had, or has a new one, and the store holds its record
/// under it; no two slots share an identifier, and the store holds
/// nothing else.
pub open spec fn stored(slots: Seq<Slot>, ids: Seq<Option<u64>>, after: Map<u64, Record>) -> bool {
    &&& ids.len() == slots.len()
    &&& forall|k: int| 0 <= k < slots.len() ==> ((#[trigger] ids[k]) is Some <==> slots[k].alive)
    &&& forall|k: int|
        0 <= k < slots.len() && (#[trigger] slots[k]).alive ==> after.dom().contains(ids[k]->0)
            && after[ids[k]->0] == slots[k].record
    &&& forall|k: int|
        0 <= k < slots.len() && (#[trigger] slots[k]).alive && slots[k].id is Some ==> ids[k]
            == slots[k].id
    &&& forall|i: int, j: int|
        0 <= i < ids.len() && 0 <= j < ids.len() && (#[trigger] ids[i]) is Some && ids[i] == (
        #[trigger] ids[j]) ==> i == j
    &&& forall|id: u64|
        after.dom().contains(id) ==> exists|k: int|
            0 <= k < ids.len() && (#[trigger] ids[k]) == Some(id)
}

/// How many of the first `n` slots are to stay and name no entity yet:
/// the entities that storing the slots adds.
pub open spec fn fresh_count(slots: Seq<Slot>, n: nat) -> nat
    decreases n,
{
    if n == 0 {
        0
    } else {
        fresh_count(slots, (n - 1) as nat) + if slots[n - 1].alive && slots[n - 1].id is None {
            1nat
        } else {
            0nat
        }
    }
}

/// Among more slots no fewer are fresh, and never more than there are
/// slots.
pub proof fn lemma_fresh_count_monotonic(slots: Seq<Slot>, i: nat, j: nat)
    requires
        i <= j,
    ensures
        fresh_count(slots, i) <= fresh_count(slots, j),
        fresh_count(slots, j) <= j,
    decreases j,
{
    if j > 0 {
        if i < j {
            lemma_fresh_count_monotonic(slots, i, (j - 1) as nat);
        } else {
            lemma_fresh_count_monotonic(slots, 0, (j - 1) as nat);
        }
    }
}

/// A listing has as many entries as the store has entities.
pub proof fn lemma_listing_len(view: Map<u64, Record>, listing: Seq<(u64, Record)>)
    requires
        lists(view, listing),
    ensures
        view.dom().finite(),
        view.dom().len() == listing.len(),
{
    let keys = Seq::new(listing.len(), |i: int| listing[i].0);
    assert(keys.no_duplicates()) by {
        assert forall|i: int, j: int| 0 <= i < keys.len() && 0 <= j < keys.len() && i != j implies keys[i]
            != keys[j] by {
            assert(listing[i].0 == keys[i] && listing[j].0 == keys[j]);
        }
    }
    assert(keys.to_set() =~= view.dom()) by {
        assert forall|id: u64| keys.to_set().contains(id) implies view.dom().contains(id) by {
            let i = choose|i: int| 0 <= i < keys.len() && keys[i] == id;
            assert(view.dom().contains(listing[i].0));
        }
        assert forall|id: u64| view.dom().contains(id) implies keys.to_set().contains(id) by {
            let i = choose|i: int| 0 <= i < listing.len() && (#[trigger] listing[i]).0 == id;
            assert(keys[i] == id);
        }
    }
    keys.unique_seq_to_set();
    vstd::seq_lib::seq_to_set_is_finite(keys);
}

/// `listing` names every entity of `view` once, with its record.
pub open spec fn lists(view: Map<u64, Record>, listing: Seq<(u64, Record)>) -> bool {
    &&& forall|i: int|
        0 <= i < listing.len() ==> view.dom().contains((#[trigger] listing[i]).0) && view[listing[i].0]
            == listing[i].1
    &&& forall|i: int, j: int|
        0 <= i < listing.len() && 0 <= j < listing.len() && (#[trigger] listing[i]).0 == (
        #[trigger] listing[j]).0 ==> i == j
    &&& forall|id: u64|
        view.dom().contains(id) ==> exists|i: int|
            0 <= i < listing.len() && (#[trigger] listing[i]).0 == id
}

/// `hecs::World::new`: the new world holds no entity.
#[verifier::external_body]
fn world_new() -> (world: World)
    ensures
        world_view(world) == (Map::<u64, Record>::empty()),
{
    World::new()
}

/// `hecs::World::clear`: afterwards the world holds no entity.
#[verifier::external_body]
fn world_clear(world: &mut World)
    ensures
        world_view(*final(world)) == (Map::<u64, Record>::empty()),
{
    world.clear()
}

/// `hecs::World::spawn` with a transform, extents and a control: the
/// world gains one entity with exactly these components, under a handle
/// that no live entity had, and nothing else changes. The result is the
/// bits of the handle. `spawn` panics once all 32-bit slots are in use,
/// which the bound on the number of entities rules out.
#[verifier::external_body]
fn world_spawn_paddle(
    world: &mut World,
    transform: Transform,
    bounds: Bounds,
    control: ControlType,
) -> (id: u64)
    requires
        world_view(*old(world)).dom().finite(),
        world_view(*old(world)).dom().len() < CAPACITY,
    ensures
        !world_view(*old(world)).dom().contains(id),
        world_view(*final(world)) == world_view(*old(world)).insert(
            id,
            paddle_record(transform, bounds, control),
        ),
{
    world.spawn((transform, bounds, control)).to_bits().get()
}

/// `hecs::World::spawn` with a transform and a ball: as for a paddle.
#[verifier::external_body]
fn world_spawn_ball(world: &mut World, transform: Transform, ball: Ball) -> (id: u64)
    requires
        world_view(*old(world)).dom().finite(),
        world_view(*old(world)).dom().len() < CAPACITY,
    ensures
        !world_view(*old(world)).dom().contains(id),
        world_view(*final(world)) == world_view(*old(world)).insert(
            id,
            ball_record(transform, ball),
        ),
{
    world.spawn((transform, ball)).to_bits().get()
}

/// `hecs::World::spawn` with a transform and a bullet: as for a paddle.
#[verifier::external_body]
fn world_spawn_bullet(world: &mut World, transform: Transform, bullet: Bullet) -> (id: u64)
    requires
        world_view(*old(world)).dom().finite(),
        world_view(*old(world)).dom().len() < CAPACITY,
    ensures
        !world_view(*old(world)).dom().contains(id),
        world_view(*final(world)) == world_view(*old(world)).insert(
            id,
            bullet_record(transform, bullet),
        ),
{
    world.spawn((transform, bullet)).to_bits().get()
}

/// `hecs::World::despawn` on the entity whose handle has the bits `id`:
/// it succeeds exactly when that entity is alive, and then removes it
/// and nothing else. On failure the world is unchanged.
#[verifier::external_body]
fn world_despawn(world: &mut World, id: u64) -> (removed: bool)
    ensures
        removed == world_view(*old(world)).dom().contains(id),
        world_view(*final(world)) == world_view(*old(world)).remove(id),
{
    match hecs::Entity::from_bits(id) {
        Some(entity) => world.despawn(entity).is_ok(),
        None => false,
    }
}

/// The record of an entity that holds the given components.
fn gather(
    transform: Option<&Transform>,
    bounds: Option<&Bounds>,
    control: Option<&ControlType>,
    ball: Option<&Ball>,
    bullet: Option<&Bullet>,
) -> (record: Record)
    ensures
        record.transform == (match transform {
            Some(t) => Some(*t),
            None => None,
        }),
        record.bounds == (match bounds {
            Some(b) => Some(*b),
            None => None,
        }),
        record.control == (match control {
            Some(c) => Some(*c),
            None => None,
        }),
        record.ball == (match ball {
            Some(b) => Some(*b),
            None => None,
        }),
        record.bullet == (match bullet {
            Some(b) => Some(*b),
            None => None,
        }),
{
    Record {
        transform: match transform {
            Some(t) => Some(*t),
            None => None,
        },
        bounds: match bounds {
            Some(b) => Some(*b),
            None => None,
        },
        control: match control {
            Some(c) => Some(*c),
            None => None,
        },
        ball: match ball {
            Some(b) => Some(*b),
            None => None,
        },
        bullet: match bullet {
            Some(b) => Some(*b),
            None => None,
        },
    }
}

/// Iterates `hecs::World::query` over all five kinds of component, each
/// optional, which visits every live entity once, and gathers what it
/// finds under the bits of the entity's handle.
#[verifier::external_body]
fn world_records(world: &World) -> (listing: Vec<(u64, Record)>)
    ensures
        lists(world_view(*world), listing@),
{
    let mut query = world.query::<
        (Option<&Transform>, Option<&Bounds>, Option<&ControlType>, Option<&Ball>, Option<&Bullet>),
    >();
    query.iter().map(|(e, (t, s, c, b, u))| (e.to_bits().get(), gather(t, s, c, b, u))).collect()
}

/// `hecs::World::query_one_mut` for a transform, extents and a control
/// on the entity whose handle has the bits `id`: it succeeds exactly when
/// that entity is alive and holds all three, and the three are then
/// overwritten. Nothing else changes.
#[verifier::external_body]
fn world_put_paddle(
    world: &mut World,
    id: u64,
    transform: Transform,
    bounds: Bounds,
    control: ControlType,
) -> (written: bool)
    ensures
        written == (world_view(*old(world)).dom().contains(id) && world_view(
            *old(world),
        )[id].transform is Some && world_view(*old(world))[id].bounds is Some && world_view(
            *old(world),
        )[id].control is Some),
        world_view(*final(world)) == (if written {
            world_view(*old(world)).insert(
                id,
                (Record {
                    transform: Some(transform),
                    bounds: Some(bounds),
                    control: Some(control),
                    ..world_view(*old(world))[id]
                }),
            )
        } else {
            world_view(*old(world))
        }),
{
    let entity = match hecs::Entity::from_bits(id) {
        Some(entity) => entity,
        None => return false,
    };
    match world.query_one_mut::<(&mut Transform, &mut Bounds, &mut ControlType)>(entity) {
        Ok((t, b, c)) => {
            *t = transform;
            *b = bounds;
            *c = control;
            true
        },
        Err(_) => false,
    }
}

/// `hecs::World::query_one_mut` for a transform and a ball: as for a
/// paddle.
#[verifier::external_body]
fn world_put_ball(world: &mut World, id: u64, transform: Transform, ball: Ball) -> (written: bool)
    ensures
        written == (world_view(*old(world)).dom().contains(id) && world_view(
            *old(world),
        )[id].transform is Some && world_view(*old(world))[id].ball is Some),
        world_view(*final(world)) == (if written {
            world_view(*old(world)).insert(
                id,
                (Record {
                    transform: Some(transform),
                    ball: Some(ball),
                    ..world_view(*old(world))[id]
                }),
            )
        } else {
            world_view(*old(world))
        }),
{
    let entity = match hecs::Entity::from_bits(id) {
        Some(entity) => entity,
        None => return false,
    };
    match world.query_one_mut::<(&mut Transform, &mut Ball)>(entity) {
        Ok((t, b)) => {
            *t = transform;
            *b = ball;
            true
        },
        Err(_) => false,
    }
}

/// `hecs::World::query_one_mut` for a transform and a bullet: as for a
/// paddle.
#[verifier::external_body]
fn world_put_bullet(world: &mut World, id: u64, transform: Transform, bullet: Bullet) -> (written:
    bool)
    ensures
        written == (world_view(*old(world)).dom().contains(id) && world_view(
            *old(world),
        )[id].transform is Some && world_view(*old(world))[id].bullet is Some),
        world_view(*final(world)) == (if written {
            world_view(*old(world)).insert(
                id,
                (Record {
                    transform: Some(transform),
                    bullet: Some(bullet),
                    ..world_view(*old(world))[id]
                }),
            )
        } else {
            world_view(*old(world))
        }),
{
    let entity = match hecs::Entity::from_bits(id) {
        Some(entity) => entity,
        None => return false,
    };
    match world.query_one_mut::<(&mut Transform, &mut Bullet)>(entity) {
        Ok((t, b)) => {
            *t = transform;
            *b = bullet;
            true
        },
        Err(_) => false,
    }
}

/// Why the store refused a request.
#[derive(Clone, Copy, Debug, PartialEq, Eq, Structural)]
pub enum StoreError {
    /// No live entity has the identifier.
    EntityNotFound,
    /// A component is out of its range.
    InvalidComponent,
    /// The store holds `CAPACITY` entities.
    Full,
}

/// The entities of a match.
pub struct Arena {
    world: World,
}

impl Arena {
    /// The entities, each under its identifier.
    pub closed spec fn view(&self) -> Map<u64, Record> {
        world_view(self.world)
    }

    /// Every entity is a valid paddle, ball or bullet, and there are no
    /// more than `CAPACITY` of them.
    pub open spec fn wf(&self) -> bool {
        &&& self@.dom().finite()
        &&& self@.dom().len() <= CAPACITY
        &&& forall|id: u64| self@.dom().contains(id) ==> (#[trigger] self@[id]).valid()
    }

    /// An arena without entities.
    pub fn new() -> (arena: Arena)
        ensures
            arena.wf(),
            arena@ == Map::<u64, Record>::empty(),
    {
        Arena { world: world_new() }
    }

    /// Removes every entity.
    pub fn clear(&mut self)
        ensures
            final(self).wf(),
            final(self)@ == Map::<u64, Record>::empty(),
    {
        world_clear(&mut self.world);
    }

    /// The number of entities.
    pub fn len(&self) -> (n: u32)
        requires
            self.wf(),
        ensures
            n == self@.dom().len(),
    {
        let listing = world_records(&self.world);
        proof {
            lemma_listing_len(self@, listing@);
        }
        listing.len() as u32
    }

    /// Adds a paddle and returns its identifier.
    pub fn spawn_paddle(&mut self, transform: Transform, bounds: Bounds, control: ControlType) -> (id:
        Result<u64, StoreError>)
        requires
            old(self).wf(),
        ensures
            final(self).wf(),
            !(transform.valid() && bounds.valid()) ==> id == Err::<u64, StoreError>(
                StoreError::InvalidComponent,
            ),
            transform.valid() && bounds.valid() && old(self)@.dom().len() >= CAPACITY ==> id == Err::<
                u64,
                StoreError,
            >(StoreError::Full),
            transform.valid() && bounds.valid() && old(self)@.dom().len() < CAPACITY ==> id is Ok,
            id is Ok ==> !old(self)@.dom().contains(id->Ok_0) && final(self)@ == old(self)@.insert(
                id->Ok_0,
                paddle_record(transform, bounds, control),
            ),
            id is Err ==> final(self)@ == old(self)@,
    {
        if !(transform.is_valid() && bounds.is_valid()) {
            return Err(StoreError::InvalidComponent);
        }
        if self.len() >= CAPACITY {
            return Err(StoreError::Full);
        }
        let id = world_spawn_paddle(&mut self.world, transform, bounds, control);
        Ok(id)
    }

    /// Adds a ball and returns its identifier.
    pub fn spawn_ball(&mut self, transform: Transform, ball: Ball) -> (id: Result<u64, StoreError>)
        requires
            old(self).wf(),
        ensures
            final(self).wf(),
            !(transform.valid() && ball.valid()) ==> id == Err::<u64, StoreError>(
                StoreError::InvalidComponent,
            ),
            transform.valid() && ball.valid() && old(self)@.dom().len() >= CAPACITY ==> id == Err::<
                u64,
                StoreError,
            >(StoreError::Full),
            transform.valid() && ball.valid() && old(self)@.dom().len() < CAPACITY ==> id is Ok,
            id is Ok ==> !old(self)@.dom().contains(id->Ok_0) && final(self)@ == old(self)@.insert(
                id->Ok_0,
                ball_record(transform, ball),
            ),
            id is Err ==> final(self)@ == old(self)@,
    {
        if !(transform.is_valid() && ball.is_valid()) {
            return Err(StoreError::InvalidComponent);
        }
        if self.len() >= CAPACITY {
            return Err(StoreError::Full);
        }
        let id = world_spawn_ball(&mut self.world, transform, ball);
        Ok(id)
    }

    /// Adds a bullet and returns its identifier.
    pub fn spawn_bullet(&mut self, transform: Transform, bullet: Bullet) -> (id: Result<
        u64,
        StoreError,
    >)
        requires
            old(self).wf(),
        ensures
            final(self).wf(),
            !(transform.valid() && bullet.valid()) ==> id == Err::<u64, StoreError>(
                StoreError::InvalidComponent,
            ),
            transform.valid() && bullet.valid() && old(self)@.dom().len() >= CAPACITY ==> id == Err::<
                u64,
                StoreError,
            >(StoreError::Full),
            transform.valid() && bullet.valid() && old(self)@.dom().len() < CAPACITY ==> id is Ok,
            id is Ok ==> !old(self)@.dom().contains(id->Ok_0) && final(self)@ == old(self)@.insert(
                id->Ok_0,
                bullet_record(transform, bullet),
            ),
            id is Err ==> final(self)@ == old(self)@,
    {
        if !(transform.is_valid() && bullet.is_valid()) {
            return Err(StoreError::InvalidComponent);
        }
        if self.len() >= CAPACITY {
            return Err(StoreError::Full);
        }
        let id = world_spawn_bullet(&mut self.world, transform, bullet);
        Ok(id)
    }

    /// Removes the entity `id`.
    pub fn despawn(&mut self, id: u64) -> (done: Result<(), StoreError>)
        requires
            old(self).wf(),
        ensures
            final(self).wf(),
            done is Ok <==> old(self)@.dom().contains(id),
            done is Err ==> done == Err::<(), StoreError>(StoreError::EntityNotFound),
            final(self)@ == old(self)@.remove(id),
    {
        if world_despawn(&mut self.world, id) {
            Ok(())
        } else {
            assert(old(self)@.remove(id) =~= old(self)@);
            Err(StoreError::EntityNotFound)
        }
    }
}

/// While slots are being stored: the first `k` are done, the others
/// still name what they named before.
spec fn storing(
    slots: Seq<Slot>,
    ids: Seq<Option<u64>>,
    k: int,
    before: Map<u64, Record>,
    now: Map<u64, Record>,
) -> bool {
    &&& 0 <= k <= slots.len()
    &&& ids.len() == k
    &&& forall|j: int| 0 <= j < k ==> ((#[trigger] ids[j]) is Some <==> slots[j].alive)
    &&& forall|j: int|
        0 <= j < k && (#[trigger] slots[j]).alive ==> now.dom().contains(ids[j]->0) && now[ids[j]->0]
            == slots[j].record
    &&& forall|j: int|
        0 <= j < k && (#[trigger] slots[j]).alive && slots[j].id is Some ==> ids[j] == slots[j].id
    &&& forall|i: int, j: int|
        0 <= i < k && 0 <= j < k && (#[trigger] ids[i]) is Some && ids[i] == (#[trigger] ids[j])
            ==> i == j
    &&& forall|j: int|
        k <= j < slots.len() && (#[trigger] slots[j]).id is Some ==> now.dom().contains(
            slots[j].id->0,
        ) && now[slots[j].id->0] == before[slots[j].id->0]
    &&& forall|i: int, j: int|
        0 <= i < k && k <= j < slots.len() && (#[trigger] ids[i]) is Some ==> ids[i] != (
        #[trigger] slots[j]).id
    &&& forall|id: u64|
        now.dom().contains(id) ==> held(slots, ids, k, id)
}

/// `id` belongs to one of the first `k` slots as stored, or to a later
/// slot.
spec fn held(slots: Seq<Slot>, ids: Seq<Option<u64>>, k: int, id: u64) -> bool {
    ||| exists|i: int| 0 <= i < k && (#[trigger] ids[i]) == Some(id)
    ||| exists|j: int| k <= j < slots.len() && (#[trigger] slots[j]).id == Some(id)
}

impl Arena {
    /// Every entity with its identifier and record, in the store's order.
    pub fn records(&self) -> (listing: Vec<(u64, Record)>)
        ensures
            lists(self@, listing@),
    {
        world_records(&self.world)
    }

    /// Overwrites the entity `id` with `record`, which is of its kind.
    fn put(&mut self, id: u64, record: &Record)
        requires
            record.valid(),
            old(self)@.dom().contains(id),
            old(self)@[id].same_kind(*record),
        ensures
            final(self)@ == old(self)@.insert(id, *record),
    {
        let transform = match record.transform {
            Some(transform) => transform,
            None => {
                return ;
            },
        };
        match (record.bounds, record.control, record.ball, record.bullet) {
            (Some(bounds), Some(control), _, _) => {
                let written = world_put_paddle(&mut self.world, id, transform, bounds, control);
                assert(written);
            },
            (_, _, Some(ball), _) => {
                let written = world_put_ball(&mut self.world, id, transform, ball);
                assert(written);
            },
            (_, _, _, Some(bullet)) => {
                let written = world_put_bullet(&mut self.world, id, transform, bullet);
                assert(written);
            },
            _ => {},
        }
    }

    /// Adds an entity with `record`.
    fn add(&mut self, record: &Record) -> (id: u64)
        requires
            record.valid(),
            old(self)@.dom().finite(),
            old(self)@.dom().len() < CAPACITY,
        ensures
            !old(self)@.dom().contains(id),
            final(self)@ == old(self)@.insert(id, *record),
    {
        let transform = match record.transform {
            Some(transform) => transform,
            None => {
                return 0;
            },
        };
        match (record.bounds, record.control, record.ball, record.bullet) {
            (Some(bounds), Some(control), _, _) => world_spawn_paddle(
                &mut self.world,
                transform,
                bounds,
                control,
            ),
            (_, _, Some(ball), _) => world_spawn_ball(&mut self.world, transform, ball),
            (_, _, _, Some(bullet)) => world_spawn_bullet(&mut self.world, transform, bullet),
            _ => 0,
        }
    }

    /// Brings the store in line with `slots`: a slot that is to stay is
    /// written over the entity it names or, if it names none, added; a
    /// slot that is not to stay has its entity removed. The result holds
    /// the identifier of each slot that stayed.
    pub fn store(&mut self, slots: &Vec<Slot>) -> (ids: Vec<Option<u64>>)
        requires
            old(self).wf(),
            tracks(slots@, old(self)@),
            storable(slots@),
            old(self)@.dom().len() + fresh_count(slots@, slots@.len()) <= CAPACITY,
        ensures
            final(self).wf(),
            stored(slots@, ids@, final(self)@),
    {
        let ghost before = self@;
        let mut ids: Vec<Option<u64>> = Vec::new();
        let mut k: usize = 0;
        assert(storing(slots@, ids@, 0, before, self@)) by {
            assert forall|id: u64| self@.dom().contains(id) implies held(slots@, ids@, 0, id) by {
                let w = choose|w: int| 0 <= w < slots@.len() && (#[trigger] slots@[w]).id == Some(id);
                assert(slots@[w].id == Some(id));
            }
        }
        while k < slots.len()
            invariant
                k <= slots@.len(),
                self@.dom().finite(),
                self@.dom().len() + fresh_count(slots@, slots@.len()) - fresh_count(
                    slots@,
                    k as nat,
                ) <= CAPACITY,
                forall|id: u64| self@.dom().contains(id) ==> (#[trigger] self@[id]).valid(),
                tracks(slots@, before),
                storable(slots@),
                storing(slots@, ids@, k as int, before, self@),
            decreases slots@.len() - k,
        {
            let slot = slots[k];
            let ghost prior = self@;
            proof {
                lemma_fresh_count_monotonic(slots@, (k + 1) as nat, slots@.len());
            }
            let ghost prior_ids = ids@;
            match slot.id {
                Some(id) => {
                    if slot.alive {
                        self.put(id, &slot.record);
                        assert(self@.dom() =~= prior.dom());
                        ids.push(Some(id));
                    } else {
                        let removed = world_despawn(&mut self.world, id);
                        assert(removed);
                        ids.push(None);
                    }
                },
                None => {
                    if slot.alive {
                        let id = self.add(&slot.record);
                        ids.push(Some(id));
                    } else {
                        ids.push(None);
                    }
                },
            }
            proof {
                let next = k as int + 1;
                assert forall|j: int| 0 <= j < next implies ((#[trigger] ids@[j]) is Some
                    <==> slots@[j].alive) by {
                    if j < k {
                        assert(ids@[j] == prior_ids[j]);
                    }
                }
                assert forall|j: int| 0 <= j < next && (#[trigger] slots@[j]).alive implies self@.dom().contains(
                    ids@[j]->0,
                ) && self@[ids@[j]->0] == slots@[j].record by {
                    if j < k {
                        assert(ids@[j] == prior_ids[j]);
                        assert(prior_ids[j] is Some);
                        assert(prior_ids[j] != slots@[k as int].id);
                    }
                }
                assert forall|j: int|
                    0 <= j < next && (#[trigger] slots@[j]).alive && slots@[j].id is Some implies ids@[j]
                    == slots@[j].id by {
                    if j < k {
                        assert(ids@[j] == prior_ids[j]);
                    }
                }
                assert forall|i: int, j: int|
                    0 <= i < next && 0 <= j < next && (#[trigger] ids@[i]) is Some && ids@[i] == (
                    #[trigger] ids@[j]) implies i == j by {
                    if i < k {
                        assert(ids@[i] == prior_ids[i]);
                    }
                    if j < k {
                        assert(ids@[j] == prior_ids[j]);
                    }
                    if i < k && j == k {
                        assert(slots@[i].alive);
                        assert(prior.dom().contains(prior_ids[i]->0));
                        assert(prior_ids[i] != slots@[k as int].id);
                    }
                    if j < k && i == k {
                        assert(prior_ids[j] is Some);
                        assert(slots@[j].alive);
                        assert(prior.dom().contains(prior_ids[j]->0));
                        assert(prior_ids[j] != slots@[k as int].id);
                    }
                }
                assert forall|j: int|
                    next <= j < slots@.len() && (#[trigger] slots@[j]).id is Some implies self@.dom().contains(
                    slots@[j].id->0,
                ) && self@[slots@[j].id->0] == before[slots@[j].id->0] by {
                    assert(prior.dom().contains(slots@[j].id->0));
                    assert(slots@[j].id != slots@[k as int].id);
                }
                assert forall|i: int, j: int|
                    0 <= i < next && next <= j < slots@.len() && (#[trigger] ids@[i])
                        is Some implies ids@[i] != (#[trigger] slots@[j]).id by {
                    if i < k {
                        assert(ids@[i] == prior_ids[i]);
                    } else {
                        if slots@[j].id is Some {
                            assert(prior.dom().contains(slots@[j].id->0));
                            assert(slots@[j].id != slots@[k as int].id);
                        }
                    }
                }
                assert forall|id: u64| self@.dom().contains(id) implies held(
                    slots@,
                    ids@,
                    next,
                    id,
                ) by {
                    if ids@[k as int] == Some(id) {
                    } else {
                        assert(prior.dom().contains(id));
                        assert(held(slots@, prior_ids, k as int, id));
                        if exists|i: int| 0 <= i < k && (#[trigger] prior_ids[i]) == Some(id) {
                            let i = choose|i: int| 0 <= i < k && (#[trigger] prior_ids[i]) == Some(id);
                            assert(ids@[i] == Some(id));
                        } else {
                            let j = choose|j: int|
                                k <= j < slots@.len() && (#[trigger] slots@[j]).id == Some(id);
                            assert(j != k);
                            assert(slots@[j].id == Some(id));
                        }
                    }
                }
            }
            k = k + 1;
        }
        proof {
            assert forall|id: u64| self@.dom().contains(id) implies exists|i: int|
                0 <= i < ids@.len() && (#[trigger] ids@[i]) == Some(id) by {
                assert(held(slots@, ids@, k as int, id));
            }
        }
        ids
    }
}

} // verus!
