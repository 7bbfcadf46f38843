use vstd::prelude::*;
use crate::enemies::{EnemiesView};
use crate::types::{EnemyHandle, EnemyType, WorldEvent};

verus! {

/// What handling one event does to the pool, and the event it queues in
/// turn, if any. A hit on a live enemy with more than one hit point costs
/// it one; a hit on one with one or none queues its kill. A kill tombstones
/// a live enemy. Events on a free or unknown handle change nothing.
pub open spec fn event_step(v: EnemiesView, e: WorldEvent) -> (EnemiesView, Option<WorldEvent>) {
    match e {
        WorldEvent::HitEnemy(h) => {
            let i = h.0 as int;
            if v.is_live(i) {
                if v.healths[i] > 1 {
                    (EnemiesView { healths: v.healths.update(i, (v.healths[i] - 1) as u8), ..v }, None)
                } else {
                    (v, Some(WorldEvent::KillEnemy(h)))
                }
            } else {
                (v, None)
            }
        },
        WorldEvent::KillEnemy(h) => {
            if v.is_live(h.0 as int) {
                (v.with_removed(h.0 as int), None)
            } else {
                (v, None)
            }
        },
    }
}

pub open spec fn follow_up(f: Option<WorldEvent>) -> Seq<WorldEvent> {
    match f {
        Some(e) => seq![e],
        None => Seq::empty(),
    }
}

/// Work left in a queue: a hit may still queue a kill, so it counts twice.
pub open spec fn weight(q: Seq<WorldEvent>) -> nat
    decreases q.len(),
{
    if q.len() == 0 {
        0
    } else {
        (if q[0] is HitEnemy {
            2nat
        } else {
            1nat
        }) + weight(q.drop_first())
    }
}

pub proof fn lemma_weight_concat(a: Seq<WorldEvent>, b: Seq<WorldEvent>)
    ensures
        weight(a + b) == weight(a) + weight(b),
    decreases a.len(),
{
    if a.len() > 0 {
        assert((a + b).drop_first() =~= a.drop_first() + b);
        lemma_weight_concat(a.drop_first(), b);
    } else {
        assert(a + b =~= b);
    }
}

/// The pool after handling the queue front to back, including the events
/// that handling queues at its back, until it is empty.
pub open spec fn drain(v: EnemiesView, q: Seq<WorldEvent>) -> EnemiesView
    decreases weight(q),
    via lemma_drain_decreases
{
    if q.len() == 0 {
        v
    } else {
        let (v2, f) = event_step(v, q[0]);
        drain(v2, q.drop_first() + follow_up(f))
    }
}

#[via_fn]
proof fn lemma_drain_decreases(v: EnemiesView, q: Seq<WorldEvent>) {
    if q.len() > 0 {
        let (v2, f) = event_step(v, q[0]);
        lemma_weight_concat(q.drop_first(), follow_up(f));
        reveal_with_fuel(weight, 2);
    }
}

/// Handling a single hit on `h` to completion: the hit, and the kill it
/// may queue. Returns the pool and how many kills were queued.
pub open spec fn hit_fully(v: EnemiesView, h: EnemyHandle) -> (EnemiesView, nat) {
    let (v1, f) = event_step(v, WorldEvent::HitEnemy(h));
    match f {
        Some(k) => (event_step(v1, k).0, 1nat),
        None => (v1, 0nat),
    }
}

/// `n` hits on `h`, each handled to completion: the pool after them and the
/// number of kills queued on the way.
pub open spec fn hits(v: EnemiesView, h: EnemyHandle, n: nat) -> (EnemiesView, nat)
    decreases n,
{
    if n == 0 {
        (v, 0nat)
    } else {
        let (v1, k1) = hit_fully(v, h);
        let (v2, k2) = hits(v1, h, (n - 1) as nat);
        (v2, k1 + k2)
    }
}

/// A queue holding one hit drains to that hit handled to completion.
pub proof fn lemma_drain_single_hit(v: EnemiesView, h: EnemyHandle)
    ensures
        drain(v, seq![WorldEvent::HitEnemy(h)]) == hit_fully(v, h).0,
{
    let q = seq![WorldEvent::HitEnemy(h)];
    let (v1, f) = event_step(v, q[0]);
    assert(q.drop_first() + follow_up(f) =~= follow_up(f));
    assert(drain(v, q) == drain(v1, follow_up(f)));
    match f {
        Some(k) => {
            let q2 = follow_up(f);
            assert(q2[0] == k);
            assert(q2.drop_first() + follow_up(event_step(v1, k).1) =~= Seq::<WorldEvent>::empty());
            assert(drain(v1, q2) == drain(event_step(v1, k).0, Seq::<WorldEvent>::empty()));
        },
        None => {
            assert(drain(v1, follow_up(f)) == v1);
        },
    }
}

/// Hitting a live enemy as many times as it has hit points queues exactly
/// one kill and leaves its slot tombstoned; one more hit then changes
/// nothing and queues nothing.
pub proof fn lemma_hits_until_dead(v: EnemiesView, h: EnemyHandle)
    requires
        v.wf(),
        v.is_live(h.0 as int),
        v.healths[h.0 as int] >= 1,
    ensures
        ({
            let (w, kills) = hits(v, h, v.healths[h.0 as int] as nat);
            &&& kills == 1
            &&& w.e_type[h.0 as int] == EnemyType::Empty
            &&& w.len() == v.len()
            &&& hit_fully(w, h) == (w, 0nat)
        }),
    decreases v.healths[h.0 as int],
{
    let i = h.0 as int;
    if v.healths[i] > 1 {
        let v1 = hit_fully(v, h).0;
        assert(hit_fully(v, h).1 == 0);
        assert(v1.healths[i] == v.healths[i] - 1);
        assert(v1.e_type == v.e_type);
        assert(v1.wf());
        lemma_hits_until_dead(v1, h);
        let n = v.healths[i] as nat;
        assert(hits(v, h, n) == (hits(v1, h, (n - 1) as nat).0, 0 + hits(v1, h, (n - 1) as nat).1));
    } else {
        let w = v.with_removed(i);
        assert(hit_fully(v, h) == (w, 1nat));
        assert(hits(w, h, 0) == (w, 0nat));
        assert(hits(v, h, 1) == (w, 1nat));
        assert(!w.is_live(i));
    }
}

/// `n` hits on `h` in a row.
pub open spec fn hit_queue(h: EnemyHandle, n: nat) -> Seq<WorldEvent> {
    Seq::new(n, |_i: int| WorldEvent::HitEnemy(h))
}

/// Queueing as many hits on a live enemy as it has hit points, all at once,
/// and draining the queue leaves it tombstoned, with one hit point left
/// and every other slot as it was.
pub proof fn lemma_queued_hits_kill(v: EnemiesView, h: EnemyHandle)
    requires
        v.wf(),
        v.is_live(h.0 as int),
        v.healths[h.0 as int] >= 1,
    ensures
        drain(v, hit_queue(h, v.healths[h.0 as int] as nat)) == (EnemiesView {
            healths: v.healths.update(h.0 as int, 1u8),
            ..v
        }).with_removed(h.0 as int),
    decreases v.healths[h.0 as int],
{
    let i = h.0 as int;
    let n = v.healths[i] as nat;
    let q = hit_queue(h, n);
    let (v1, f) = event_step(v, q[0]);
    assert(drain(v, q) == drain(v1, q.drop_first() + follow_up(f)));
    if n > 1 {
        assert(q.drop_first() + follow_up(f) =~= hit_queue(h, (n - 1) as nat));
        assert(v1.wf());
        lemma_queued_hits_kill(v1, h);
        assert(v1.healths.update(i, 1u8) =~= v.healths.update(i, 1u8));
    } else {
        let k = WorldEvent::KillEnemy(h);
        let q2 = q.drop_first() + follow_up(f);
        assert(q2 =~= seq![k]);
        assert(q2.drop_first() + follow_up(event_step(v1, k).1) =~= Seq::<WorldEvent>::empty());
        assert(drain(v1, q2) == drain(event_step(v1, k).0, Seq::<WorldEvent>::empty()));
        assert(v.healths.update(i, 1u8) =~= v.healths);
    }
}

} // verus!
