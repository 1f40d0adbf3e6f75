//! Between the store and a frame: copying the stored entities into a
//! scene, and handing a scene back to the store.

use crate::components::{BallEntry, BulletEntry, PaddleEntry};
use crate::scene::{Scene, SceneModel};
use crate::state::GameState;
use crate::store::{
    ball_record, bullet_record, fresh_count, lists, paddle_record, storable, stored, tracks,
    Arena, Record, Slot, CAPACITY,
};
use vstd::prelude::*;

verus! {

/// A paddle as the store sees it.
pub open spec fn paddle_slot(p: PaddleEntry) -> Slot {
    Slot { id: p.id, alive: true, record: paddle_record(p.transform, p.bounds, p.control) }
}

/// A ball as the store sees it.
pub open spec fn ball_slot(b: BallEntry) -> Slot {
    Slot { id: b.id, alive: b.alive, record: ball_record(b.transform, b.ball) }
}

/// A bullet as the store sees it.
pub open spec fn bullet_slot(u: BulletEntry) -> Slot {
    Slot { id: u.id, alive: u.alive, record: bullet_record(u.transform, u.bullet) }
}

/// The slot at place `k` of a scene: the paddles come first, then the
/// balls, then the bullets.
pub open spec fn slot_at(m: SceneModel, k: int) -> Slot {
    if k < m.paddles.len() {
        paddle_slot(m.paddles[k])
    } else if k < m.paddles.len() + m.balls.len() {
        ball_slot(m.balls[k - m.paddles.len()])
    } else {
        bullet_slot(m.bullets[k - m.paddles.len() - m.balls.len()])
    }
}

/// The entities of a scene as the store sees them.
pub open spec fn slots_of(m: SceneModel) -> Seq<Slot> {
    Seq::new(m.paddles.len() + m.balls.len() + m.bullets.len(), |k: int| slot_at(m, k))
}

/// The identifiers of `slots`.
pub open spec fn ids_of(slots: Seq<Slot>) -> Seq<Option<u64>> {
    Seq::new(slots.len(), |k: int| slots[k].id)
}

/// The scene shows exactly what the store holds: every entry is alive
/// and has the identifier and the components of one stored entity, and
/// every stored entity has one entry.
pub open spec fn mirrors(m: SceneModel, view: Map<u64, Record>) -> bool {
    &&& forall|k: int| 0 <= k < m.balls.len() ==> (#[trigger] m.balls[k]).alive
    &&& forall|k: int| 0 <= k < m.bullets.len() ==> (#[trigger] m.bullets[k]).alive
    &&& stored(slots_of(m), ids_of(slots_of(m)), view)
}

/// A scene that mirrors a store accounts for its entities.
pub proof fn lemma_mirror_tracks(m: SceneModel, view: Map<u64, Record>)
    requires
        mirrors(m, view),
    ensures
        tracks(slots_of(m), view),
{
    let slots = slots_of(m);
    let ids = ids_of(slots);
    assert forall|k: int| 0 <= k < slots.len() && (#[trigger] slots[k]).id is Some implies view.dom().contains(
        slots[k].id->0,
    ) && view[slots[k].id->0].same_kind(slots[k].record) by {
        assert(ids[k] is Some <==> slots[k].alive);
        assert(ids[k] == slots[k].id);
    }
    assert forall|i: int, j: int|
        0 <= i < slots.len() && 0 <= j < slots.len() && (#[trigger] slots[i]).id is Some
            && slots[i].id == (#[trigger] slots[j]).id implies i == j by {
        assert(ids[i] == slots[i].id && ids[j] == slots[j].id);
    }
    assert forall|id: u64| view.dom().contains(id) implies exists|k: int|
        0 <= k < slots.len() && (#[trigger] slots[k]).id == Some(id) by {
        let k = choose|k: int| 0 <= k < ids.len() && (#[trigger] ids[k]) == Some(id);
        assert(slots[k].id == Some(id));
    }
}

/// Whatever the passes of a frame make of a scene still accounts for the
/// entities that the scene accounted for.
pub proof fn lemma_extension_tracks(before: SceneModel, after: SceneModel, view: Map<u64, Record>)
    requires
        tracks(slots_of(before), view),
        after.extends(before),
    ensures
        tracks(slots_of(after), view),
{
    let old_slots = slots_of(before);
    let new_slots = slots_of(after);
    let np = before.paddles.len() as int;
    let nb = before.balls.len() as int;
    let nu = before.bullets.len() as int;
    let mb = after.balls.len() as int;
    // where the entry at place `k` of the new scene stood in the old one
    let back = |k: int|
        if k < np + nb {
            k
        } else {
            k - mb + nb
        };
    // where the entry at place `k` of the old scene stands in the new one
    let forth = |k: int|
        if k < np + nb {
            k
        } else {
            k - nb + mb
        };
    assert forall|k: int| 0 <= k < new_slots.len() && (#[trigger] new_slots[k]).id is Some implies {
        &&& 0 <= back(k) < old_slots.len()
        &&& old_slots[back(k)].id == new_slots[k].id
        &&& old_slots[back(k)].record.same_kind(new_slots[k].record)
    } by {
        if k < np {
            assert(after.paddles[k].id == before.paddles[k].id);
        } else if k < np + mb {
            let b = k - np;
            if b >= nb {
                assert(after.balls[b].id is None);
            } else {
                assert(after.balls[b].id == before.balls[b].id);
            }
        } else {
            let u = k - np - mb;
            if u >= nu {
                assert(after.bullets[u].id is None);
            } else {
                assert(after.bullets[u].id == before.bullets[u].id);
            }
        }
    }
    assert forall|k: int| 0 <= k < new_slots.len() && (#[trigger] new_slots[k]).id is Some implies view.dom().contains(
        new_slots[k].id->0,
    ) && view[new_slots[k].id->0].same_kind(new_slots[k].record) by {
        assert(old_slots[back(k)].id is Some);
    }
    assert forall|i: int, j: int|
        0 <= i < new_slots.len() && 0 <= j < new_slots.len() && (#[trigger] new_slots[i]).id
            is Some && new_slots[i].id == (#[trigger] new_slots[j]).id implies i == j by {
        assert(old_slots[back(i)].id == old_slots[back(j)].id);
        assert(back(i) == back(j));
    }
    assert forall|id: u64| view.dom().contains(id) implies exists|k: int|
        0 <= k < new_slots.len() && (#[trigger] new_slots[k]).id == Some(id) by {
        let k = choose|k: int| 0 <= k < old_slots.len() && (#[trigger] old_slots[k]).id == Some(id);
        let n = forth(k);
        if k < np {
            assert(after.paddles[k].id == before.paddles[k].id);
        } else if k < np + nb {
            assert(after.balls[k - np].id == before.balls[k - np].id);
        } else {
            assert(after.bullets[k - np - nb].id == before.bullets[k - np - nb].id);
        }
        assert(new_slots[n].id == Some(id));
    }
}

/// The live entries of a valid scene can be stored.
pub proof fn lemma_valid_storable(m: SceneModel)
    requires
        m.valid(),
    ensures
        storable(slots_of(m)),
{
    let slots = slots_of(m);
    assert forall|k: int| 0 <= k < slots.len() && (#[trigger] slots[k]).alive implies slots[k].record.valid() by {
        if k < m.paddles.len() {
            assert(m.paddles[k].valid());
        } else if k < m.paddles.len() + m.balls.len() {
            assert(m.balls[k - m.paddles.len()].valid());
        } else {
            assert(m.bullets[k - m.paddles.len() - m.balls.len()].valid());
        }
    }
}

/// The entities of a scene as the store sees them. `None` where they are
/// more than `usize` counts.
pub fn slots(scene: &Scene) -> (out: Option<Vec<Slot>>)
    ensures
        out is Some <==> scene@.paddles.len() + scene@.balls.len() + scene@.bullets.len()
            <= usize::MAX,
        out is Some ==> out->0@ == slots_of(scene@),
{
    let np = scene.paddles.len();
    let nb = scene.balls.len();
    let nu = scene.bullets.len();
    if nb > usize::MAX - np || nu > usize::MAX - np - nb {
        return None;
    }
    let mut out: Vec<Slot> = Vec::new();
    let mut k: usize = 0;
    while k < np
        invariant
            k <= np,
            np == scene@.paddles.len(),
            out@.len() == k,
            forall|i: int| 0 <= i < k ==> #[trigger] out@[i] == slot_at(scene@, i),
        decreases np - k,
    {
        let p = scene.paddles[k];
        out.push(
            Slot {
                id: p.id,
                alive: true,
                record: Record {
                    transform: Some(p.transform),
                    bounds: Some(p.bounds),
                    control: Some(p.control),
                    ball: None,
                    bullet: None,
                },
            },
        );
        k = k + 1;
    }
    let mut k: usize = 0;
    while k < nb
        invariant
            k <= nb,
            np == scene@.paddles.len(),
            nb == scene@.balls.len(),
            np + nb <= usize::MAX,
            out@.len() == np + k,
            forall|i: int| 0 <= i < np + k ==> #[trigger] out@[i] == slot_at(scene@, i),
        decreases nb - k,
    {
        let b = scene.balls[k];
        out.push(
            Slot {
                id: b.id,
                alive: b.alive,
                record: Record {
                    transform: Some(b.transform),
                    bounds: None,
                    control: None,
                    ball: Some(b.ball),
                    bullet: None,
                },
            },
        );
        k = k + 1;
    }
    let mut k: usize = 0;
    while k < nu
        invariant
            k <= nu,
            np == scene@.paddles.len(),
            nb == scene@.balls.len(),
            nu == scene@.bullets.len(),
            np + nb + nu <= usize::MAX,
            out@.len() == np + nb + k,
            forall|i: int| 0 <= i < np + nb + k ==> #[trigger] out@[i] == slot_at(scene@, i),
        decreases nu - k,
    {
        let u = scene.bullets[k];
        out.push(
            Slot {
                id: u.id,
                alive: u.alive,
                record: Record {
                    transform: Some(u.transform),
                    bounds: None,
                    control: None,
                    ball: None,
                    bullet: Some(u.bullet),
                },
            },
        );
        k = k + 1;
    }
    assert(out@ =~= slots_of(scene@));
    Some(out)
}

/// Later items are larger.
spec fn increasing(s: Seq<int>) -> bool {
    forall|a: int, b: int| 0 <= a < b < s.len() ==> (#[trigger] s[a]) < (#[trigger] s[b])
}

/// The entry of the listing that slot `k` of the scene was made from.
spec fn made_from(
    m: SceneModel,
    paddles_from: Seq<int>,
    balls_from: Seq<int>,
    bullets_from: Seq<int>,
    k: int,
) -> int {
    if k < m.paddles.len() {
        paddles_from[k]
    } else if k < m.paddles.len() + m.balls.len() {
        balls_from[k - m.paddles.len()]
    } else {
        bullets_from[k - m.paddles.len() - m.balls.len()]
    }
}

/// While a listing is being sorted into a scene: the three sequences say
/// which entry of the listing each paddle, ball and bullet of the scene
/// was made from, and the first `done` entries have been sorted.
spec fn sorting(
    m: SceneModel,
    listing: Seq<(u64, Record)>,
    done: int,
    paddles_from: Seq<int>,
    balls_from: Seq<int>,
    bullets_from: Seq<int>,
) -> bool {
    &&& paddles_from.len() == m.paddles.len()
    &&& balls_from.len() == m.balls.len()
    &&& bullets_from.len() == m.bullets.len()
    &&& increasing(paddles_from)
    &&& increasing(balls_from)
    &&& increasing(bullets_from)
    &&& forall|a: int|
        0 <= a < m.paddles.len() ==> {
            &&& 0 <= (#[trigger] paddles_from[a]) < done
            &&& m.paddles[a].id == Some(listing[paddles_from[a]].0)
            &&& paddle_slot(m.paddles[a]).record == listing[paddles_from[a]].1
            &&& m.paddles[a].valid()
        }
    &&& forall|a: int|
        0 <= a < m.balls.len() ==> {
            &&& 0 <= (#[trigger] balls_from[a]) < done
            &&& m.balls[a].id == Some(listing[balls_from[a]].0)
            &&& ball_slot(m.balls[a]).record == listing[balls_from[a]].1
            &&& m.balls[a].alive
            &&& m.balls[a].valid()
        }
    &&& forall|a: int|
        0 <= a < m.bullets.len() ==> {
            &&& 0 <= (#[trigger] bullets_from[a]) < done
            &&& m.bullets[a].id == Some(listing[bullets_from[a]].0)
            &&& bullet_slot(m.bullets[a]).record == listing[bullets_from[a]].1
            &&& m.bullets[a].alive
            &&& m.bullets[a].valid()
        }
    &&& forall|t: int| 0 <= t < done ==> sorted_into(t, paddles_from, balls_from, bullets_from)
}

/// Entry `t` of the listing has become a slot.
spec fn sorted_into(t: int, paddles_from: Seq<int>, balls_from: Seq<int>, bullets_from: Seq<int>) -> bool {
    ||| exists|a: int| 0 <= a < paddles_from.len() && (#[trigger] paddles_from[a]) == t
    ||| exists|a: int| 0 <= a < balls_from.len() && (#[trigger] balls_from[a]) == t
    ||| exists|a: int| 0 <= a < bullets_from.len() && (#[trigger] bullets_from[a]) == t
}

/// A scene that was sorted from a whole listing of the store mirrors the
/// store.
proof fn lemma_sorted_mirrors(
    m: SceneModel,
    view: Map<u64, Record>,
    listing: Seq<(u64, Record)>,
    paddles_from: Seq<int>,
    balls_from: Seq<int>,
    bullets_from: Seq<int>,
)
    requires
        lists(view, listing),
        sorting(m, listing, listing.len() as int, paddles_from, balls_from, bullets_from),
    ensures
        mirrors(m, view),
{
    let slots = slots_of(m);
    let ids = ids_of(slots);
    let np = m.paddles.len() as int;
    let nb = m.balls.len() as int;
    let from = |k: int| made_from(m, paddles_from, balls_from, bullets_from, k);
    assert forall|k: int| 0 <= k < m.balls.len() implies (#[trigger] m.balls[k]).alive by {
        assert(0 <= balls_from[k]);
    }
    assert forall|k: int| 0 <= k < m.bullets.len() implies (#[trigger] m.bullets[k]).alive by {
        assert(0 <= bullets_from[k]);
    }
    assert forall|k: int| 0 <= k < slots.len() implies {
        &&& 0 <= from(k) < listing.len()
        &&& (#[trigger] slots[k]).id == Some(listing[from(k)].0)
        &&& slots[k].record == listing[from(k)].1
        &&& slots[k].alive
    } by {
        if k < np {
            assert(0 <= paddles_from[k]);
        } else if k < np + nb {
            assert(0 <= balls_from[k - np]);
        } else {
            assert(0 <= bullets_from[k - np - nb]);
        }
    }
    assert forall|k: int| 0 <= k < slots.len() implies ((#[trigger] ids[k]) is Some
        <==> slots[k].alive) by {
        assert(slots[k].alive);
    }
    assert forall|k: int| 0 <= k < slots.len() && (#[trigger] slots[k]).alive implies view.dom().contains(
        ids[k]->0,
    ) && view[ids[k]->0] == slots[k].record by {
        assert(view.dom().contains(listing[from(k)].0));
    }
    assert forall|i: int, j: int|
        0 <= i < ids.len() && 0 <= j < ids.len() && (#[trigger] ids[i]) is Some && ids[i] == (
        #[trigger] ids[j]) implies i == j by {
        assert(slots[i].alive && slots[j].alive);
        assert(listing[from(i)].0 == listing[from(j)].0);
        assert(from(i) == from(j));
        assert(slots[i].record == slots[j].record);
        // slots of different kinds hold different records, and within a kind
        // later slots were made from later entries
        lemma_from_injective(m, listing, paddles_from, balls_from, bullets_from, i, j);
    }
    assert forall|id: u64| view.dom().contains(id) implies exists|k: int|
        0 <= k < ids.len() && (#[trigger] ids[k]) == Some(id) by {
        let t = choose|t: int| 0 <= t < listing.len() && (#[trigger] listing[t]).0 == id;
        assert(sorted_into(t, paddles_from, balls_from, bullets_from));
        if exists|a: int| 0 <= a < paddles_from.len() && (#[trigger] paddles_from[a]) == t {
            let a = choose|a: int| 0 <= a < paddles_from.len() && (#[trigger] paddles_from[a]) == t;
            assert(slots[a].id == Some(id));
            assert(ids[a] == Some(id));
        } else if exists|a: int| 0 <= a < balls_from.len() && (#[trigger] balls_from[a]) == t {
            let a = choose|a: int| 0 <= a < balls_from.len() && (#[trigger] balls_from[a]) == t;
            assert(slots[np + a].id == Some(id));
            assert(ids[np + a] == Some(id));
        } else {
            let a = choose|a: int| 0 <= a < bullets_from.len() && (#[trigger] bullets_from[a]) == t;
            assert(slots[np + nb + a].id == Some(id));
            assert(ids[np + nb + a] == Some(id));
        }
    }
}

/// Two slots that were made from the same entry of the listing are the
/// same slot.
proof fn lemma_from_injective(
    m: SceneModel,
    listing: Seq<(u64, Record)>,
    paddles_from: Seq<int>,
    balls_from: Seq<int>,
    bullets_from: Seq<int>,
    i: int,
    j: int,
)
    requires
        sorting(m, listing, listing.len() as int, paddles_from, balls_from, bullets_from),
        0 <= i < slots_of(m).len(),
        0 <= j < slots_of(m).len(),
        slots_of(m)[i].record == slots_of(m)[j].record,
        made_from(m, paddles_from, balls_from, bullets_from, i) == made_from(
            m,
            paddles_from,
            balls_from,
            bullets_from,
            j,
        ),
    ensures
        i == j,
{
    let np = m.paddles.len() as int;
    let nb = m.balls.len() as int;
    if i < np {
        assert(j < np);
        if i < j {
            assert(paddles_from[i] < paddles_from[j]);
        } else if j < i {
            assert(paddles_from[j] < paddles_from[i]);
        }
    } else if i < np + nb {
        assert(np <= j < np + nb);
        if i < j {
            assert(balls_from[i - np] < balls_from[j - np]);
        } else if j < i {
            assert(balls_from[j - np] < balls_from[i - np]);
        }
    } else {
        assert(np + nb <= j);
        if i < j {
            assert(bullets_from[i - np - nb] < bullets_from[j - np - nb]);
        } else if j < i {
            assert(bullets_from[j - np - nb] < bullets_from[i - np - nb]);
        }
    }
}

/// Copies the stored entities into a scene with the given state and
/// with no bursts or events.
pub fn load(arena: &Arena, state: GameState) -> (scene: Scene)
    requires
        arena.wf(),
    ensures
        mirrors(scene@, arena@),
        scene@.valid(),
        scene@.state == state,
        scene@.bursts.len() == 0,
        scene@.events.len() == 0,
{
    let listing = arena.records();
    let mut scene = Scene {
        state,
        paddles: Vec::new(),
        balls: Vec::new(),
        bullets: Vec::new(),
        bursts: Vec::new(),
        events: Vec::new(),
    };
    let ghost mut paddles_from: Seq<int> = Seq::empty();
    let ghost mut balls_from: Seq<int> = Seq::empty();
    let ghost mut bullets_from: Seq<int> = Seq::empty();
    let mut t: usize = 0;
    while t < listing.len()
        invariant
            t <= listing@.len(),
            arena.wf(),
            lists(arena@, listing@),
            sorting(scene@, listing@, t as int, paddles_from, balls_from, bullets_from),
            scene@.state == state,
            scene@.bursts.len() == 0,
            scene@.events.len() == 0,
        decreases listing@.len() - t,
    {
        let id = listing[t].0;
        let record = listing[t].1;
        let ghost prior = scene@;
        let ghost prior_paddles = paddles_from;
        let ghost prior_balls = balls_from;
        let ghost prior_bullets = bullets_from;
        proof {
            assert(arena@.dom().contains(listing@[t as int].0));
            assert(arena@[id].valid());
        }
        match (record.transform, record.bounds, record.control, record.ball, record.bullet) {
            (Some(transform), Some(bounds), Some(control), None, None) => {
                scene.paddles.push(PaddleEntry { id: Some(id), transform, bounds, control });
                proof {
                    paddles_from = paddles_from.push(t as int);
                }
            },
            (Some(transform), None, None, Some(ball), None) => {
                scene.balls.push(BallEntry { id: Some(id), alive: true, transform, ball });
                proof {
                    balls_from = balls_from.push(t as int);
                }
            },
            (Some(transform), None, None, None, Some(bullet)) => {
                scene.bullets.push(BulletEntry { id: Some(id), alive: true, transform, bullet });
                proof {
                    bullets_from = bullets_from.push(t as int);
                }
            },
            _ => {},
        }
        proof {
            assert forall|a: int| 0 <= a < prior_paddles.len() implies paddles_from[a]
                == prior_paddles[a] && scene@.paddles[a] == prior.paddles[a] by {}
            assert forall|a: int| 0 <= a < prior_balls.len() implies balls_from[a] == prior_balls[a]
                && scene@.balls[a] == prior.balls[a] by {}
            assert forall|a: int| 0 <= a < prior_bullets.len() implies bullets_from[a]
                == prior_bullets[a] && scene@.bullets[a] == prior.bullets[a] by {}
            assert forall|u: int| 0 <= u < t + 1 implies sorted_into(
                u,
                paddles_from,
                balls_from,
                bullets_from,
            ) by {
                if u < t {
                    assert(sorted_into(u, prior_paddles, prior_balls, prior_bullets));
                    if exists|a: int| 0 <= a < prior_paddles.len() && (#[trigger] prior_paddles[a]) == u {
                        let a = choose|a: int|
                            0 <= a < prior_paddles.len() && (#[trigger] prior_paddles[a]) == u;
                        assert(paddles_from[a] == u);
                    } else if exists|a: int|
                        0 <= a < prior_balls.len() && (#[trigger] prior_balls[a]) == u {
                        let a = choose|a: int|
                            0 <= a < prior_balls.len() && (#[trigger] prior_balls[a]) == u;
                        assert(balls_from[a] == u);
                    } else {
                        let a = choose|a: int|
                            0 <= a < prior_bullets.len() && (#[trigger] prior_bullets[a]) == u;
                        assert(bullets_from[a] == u);
                    }
                } else {
                    if record.bounds is Some {
                        assert(paddles_from[prior_paddles.len() as int] == u);
                    } else if record.ball is Some {
                        assert(balls_from[prior_balls.len() as int] == u);
                    } else {
                        assert(bullets_from[prior_bullets.len() as int] == u);
                    }
                }
            }
        }
        t = t + 1;
    }
    proof {
        lemma_sorted_mirrors(scene@, arena@, listing@, paddles_from, balls_from, bullets_from);
        assert forall|k: int| 0 <= k < scene@.paddles.len() implies (
        #[trigger] scene@.paddles[k]).valid() by {
            assert(0 <= paddles_from[k]);
        }
        assert forall|k: int| 0 <= k < scene@.balls.len() implies (
        #[trigger] scene@.balls[k]).valid() by {
            assert(0 <= balls_from[k]);
        }
        assert forall|k: int| 0 <= k < scene@.bullets.len() implies (
        #[trigger] scene@.bullets[k]).valid() by {
            assert(0 <= bullets_from[k]);
        }
    }
    scene
}

/// The store has room for the scene: the scene's entries can be listed,
/// and the stored entities and the scene's new ones together are no more
/// than `CAPACITY`.
pub open spec fn has_room(view: Map<u64, Record>, m: SceneModel) -> bool {
    &&& slots_of(m).len() <= usize::MAX
    &&& view.dom().len() + fresh_count(slots_of(m), slots_of(m).len()) <= CAPACITY
}

/// How many slots are to stay and name no entity yet.
pub fn count_fresh(slots: &Vec<Slot>) -> (n: usize)
    ensures
        n == fresh_count(slots@, slots@.len()),
{
    let mut n: usize = 0;
    let mut k: usize = 0;
    while k < slots.len()
        invariant
            k <= slots@.len(),
            n == fresh_count(slots@, k as nat),
            n <= k,
        decreases slots@.len() - k,
    {
        if slots[k].alive && slots[k].id.is_none() {
            n = n + 1;
        }
        k = k + 1;
    }
    n
}

/// Hands a scene back to the store: see `Arena::store`. The result holds
/// the identifier of each entry that stayed, paddles first, then balls,
/// then bullets. Nothing is stored, and the result is `None`, where the
/// store has no room for the scene.
pub fn save(arena: &mut Arena, scene: &Scene) -> (ids: Option<Vec<Option<u64>>>)
    requires
        old(arena).wf(),
        scene@.valid(),
        tracks(slots_of(scene@), old(arena)@),
    ensures
        final(arena).wf(),
        ids is Some <==> has_room(old(arena)@, scene@),
        ids is Some ==> stored(slots_of(scene@), ids->0@, final(arena)@),
        ids is None ==> final(arena)@ == old(arena)@,
{
    let listed = slots(scene);
    match listed {
        Some(listed) => {
            if count_fresh(&listed) > (CAPACITY - arena.len()) as usize {
                return None;
            }
            proof {
                lemma_valid_storable(scene@);
            }
            Some(arena.store(&listed))
        },
        None => None,
    }
}

} // verus!
