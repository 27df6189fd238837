//! Capture detection and the turnover from one generation of hiders to the
//! next.
use vstd::prelude::*;
use crate::agents::{Hider, Seeker, OFFSPRING_MUTATION_RATE};
use crate::geometry::{Point, WORLD_LIMIT};
use crate::motion::{speed_bounded, Velocity};
use crate::network::is_mutation_of;
use crate::vision::{sensor_sees, Obstacle};

verus! {

/// Some sensor of the seeker sees the point `p`.
pub open spec fn seen_by(seeker: Seeker, obstacle: Option<Obstacle>, p: Point) -> bool {
    exists|i: int|
        0 <= i < seeker.vision_sensors@.len() && sensor_sees(
            #[trigger] seeker.vision_sensors@[i],
            obstacle,
            p,
        )
}

/// Marks the hider caught, and stops it, when some sensor of the seeker sees
/// it and it was not caught before. Returns whether it was caught now.
pub fn mark_if_seen(hider: &mut Hider, seeker: &Seeker, obstacle: Option<Obstacle>) -> (newly: bool)
    requires
        old(hider).wf(),
        seeker.wf(),
        obstacle.is_some() ==> obstacle.unwrap().wf(),
    ensures
        newly == (!old(hider).caught && seen_by(*seeker, obstacle, old(hider).position)),
        newly ==> *final(hider) == (Hider {
            caught: true,
            velocity: Velocity { x: 0, y: 0 },
            ..*old(hider)
        }),
        !newly ==> *final(hider) == *old(hider),
        final(hider).wf(),
{
    let mut found = false;
    let mut i: usize = 0;
    while i < seeker.vision_sensors.len()
        invariant
            seeker.wf(),
            hider.position.within(WORLD_LIMIT as int),
            obstacle.is_some() ==> obstacle.unwrap().wf(),
            i <= seeker.vision_sensors@.len(),
            found == exists|k: int|
                0 <= k < i && sensor_sees(
                    #[trigger] seeker.vision_sensors@[k],
                    obstacle,
                    hider.position,
                ),
        decreases seeker.vision_sensors@.len() - i,
    {
        if seeker.vision_sensors[i].sees_hider(hider, obstacle) {
            found = true;
        }
        i += 1;
    }
    if found && !hider.caught {
        hider.velocity = Velocity { x: 0, y: 0 };
        hider.caught = true;
        true
    } else {
        false
    }
}

/// Whether every hider has been caught: the generation is complete.
pub fn all_caught(hiders: &Vec<Hider>) -> (r: bool)
    ensures
        r == forall|i: int| 0 <= i < hiders@.len() ==> (#[trigger] hiders@[i]).caught,
{
    let mut i: usize = 0;
    while i < hiders.len()
        invariant
            i <= hiders@.len(),
            forall|k: int| 0 <= k < i ==> (#[trigger] hiders@[k]).caught,
        decreases hiders@.len() - i,
    {
        if !hiders[i].caught {
            return false;
        }
        i += 1;
    }
    true
}

/// How long a hider born at `born` has survived at time `now`; never
/// negative.
pub open spec fn age(born: u64, now: u64) -> int {
    if now >= born {
        now - born
    } else {
        0
    }
}

/// `k` is the first index of a hider that has survived longest.
pub open spec fn is_longest_survivor(hiders: Seq<Hider>, now: u64, k: int) -> bool {
    &&& 0 <= k < hiders.len()
    &&& forall|j: int|
        0 <= j < hiders.len() ==> age(#[trigger] hiders[j].born_time, now) <= age(
            hiders[k].born_time,
            now,
        )
    &&& forall|j: int|
        0 <= j < k ==> age(#[trigger] hiders[j].born_time, now) < age(hiders[k].born_time, now)
}

/// The index of the hider that has survived longest at time `now`; of equal
/// survivors, the first.
pub fn longest_survivor(hiders: &Vec<Hider>, now: u64) -> (r: usize)
    requires
        hiders@.len() > 0,
    ensures
        is_longest_survivor(hiders@, now, r as int),
{
    let mut best: usize = 0;
    let mut best_age: u64 = if now >= hiders[0].born_time { now - hiders[0].born_time } else { 0 };
    let mut i: usize = 1;
    while i < hiders.len()
        invariant
            best < i <= hiders@.len(),
            best_age == age(hiders@[best as int].born_time, now),
            forall|j: int| 0 <= j < i ==> age(#[trigger] hiders@[j].born_time, now) <= best_age,
            forall|j: int| 0 <= j < best ==> age(#[trigger] hiders@[j].born_time, now) < best_age,
        decreases hiders@.len() - i,
    {
        let born = hiders[i].born_time;
        let a: u64 = if now >= born { now - born } else { 0 };
        if a > best_age {
            best = i;
            best_age = a;
        }
        i += 1;
    }
    best
}

/// Where a new hider starts: its position and velocity.
pub open spec fn spawn_ok(s: (Point, Velocity)) -> bool {
    s.0.within(WORLD_LIMIT as int) && speed_bounded(s.1)
}

/// The hider at `h` was spawned from `s` at time `now` with a network that
/// is a mutation of `parent`'s.
pub open spec fn spawned_from(h: Hider, s: (Point, Velocity), now: u64, parent: Hider) -> bool {
    &&& h.position == s.0
    &&& h.velocity == s.1
    &&& h.born_time == now
    &&& !h.caught
    &&& h.network.same_shape(&parent.network)
    &&& forall|k: int|
        0 <= k < 3 ==> is_mutation_of(
            #[trigger] h.network.layers()[k],
            parent.network.layers()[k],
            OFFSPRING_MUTATION_RATE,
        )
}

/// `after` is the generation that follows `before` once the first
/// `caught_count` hiders retire and one hider is spawned from each of
/// `spawns` with a mutated copy of the longest survivor's network.
pub open spec fn is_next_generation(
    before: Seq<Hider>,
    caught_count: int,
    now: u64,
    spawns: Seq<(Point, Velocity)>,
    after: Seq<Hider>,
) -> bool {
    &&& after.len() == before.len() - caught_count + spawns.len()
    &&& forall|i: int|
        0 <= i < before.len() - caught_count ==> #[trigger] after[i] == before[caught_count + i]
    &&& exists|k: int|
        is_longest_survivor(before, now, k) && forall|j: int|
            0 <= j < spawns.len() ==> spawned_from(
                #[trigger] after[before.len() - caught_count + j],
                spawns[j],
                now,
                before[k],
            )
}

/// Once every hider has been caught, the next generation holds exactly one
/// new hider for each spawn point, and none of them is caught.
pub proof fn lemma_full_capture_turnover(
    before: Seq<Hider>,
    now: u64,
    spawns: Seq<(Point, Velocity)>,
    after: Seq<Hider>,
)
    requires
        forall|i: int| 0 <= i < before.len() ==> (#[trigger] before[i]).caught,
        is_next_generation(before, before.len() as int, now, spawns, after),
    ensures
        after.len() == spawns.len(),
        forall|i: int| 0 <= i < after.len() ==> !(#[trigger] after[i]).caught,
{
    let k = choose|k: int|
        is_longest_survivor(before, now, k) && forall|j: int|
            0 <= j < spawns.len() ==> spawned_from(
                #[trigger] after[before.len() - before.len() + j],
                spawns[j],
                now,
                before[k],
            );
    assert forall|i: int| 0 <= i < after.len() implies !(#[trigger] after[i]).caught by {
        assert(after[before.len() - before.len() + i] == after[i]);
        assert(spawned_from(after[before.len() - before.len() + i], spawns[i], now, before[k]));
    }
}

/// Breeds the next generation: one new hider for each spawn point, each
/// with a mutated copy of the network of the hider that survived longest,
/// appended after the population; then the first `caught_count` hiders
/// retire.
pub fn next_generation(
    hiders: &mut Vec<Hider>,
    caught_count: usize,
    now: u64,
    spawns: &Vec<(Point, Velocity)>,
)
    requires
        old(hiders)@.len() > 0,
        caught_count <= old(hiders)@.len(),
        forall|i: int| 0 <= i < old(hiders)@.len() ==> (#[trigger] old(hiders)@[i]).wf(),
        forall|j: int| 0 <= j < spawns@.len() ==> spawn_ok(#[trigger] spawns@[j]),
    ensures
        is_next_generation(old(hiders)@, caught_count as int, now, spawns@, final(hiders)@),
        forall|i: int| 0 <= i < final(hiders)@.len() ==> (#[trigger] final(hiders)@[i]).wf(),
{
    let best = longest_survivor(hiders, now);
    let parent = hiders[best].network.clone();
    let ghost parent_hider = hiders@[best as int];
    let mut born: Vec<Hider> = Vec::new();
    let mut j: usize = 0;
    while j < spawns.len()
        invariant
            j <= spawns@.len(),
            born@.len() == j,
            parent.wf(),
            parent.layers() == parent_hider.network.layers(),
            parent.widths() == parent_hider.network.widths(),
            forall|b: int| 0 <= b < spawns@.len() ==> spawn_ok(#[trigger] spawns@[b]),
            forall|b: int|
                0 <= b < j ==> spawned_from(#[trigger] born@[b], spawns@[b], now, parent_hider),
            forall|b: int| 0 <= b < j ==> (#[trigger] born@[b]).wf(),
        decreases spawns@.len() - j,
    {
        let (p, v) = spawns[j];
        let h = Hider::new(p.x, p.y, v, Some(parent.clone()), false, now);
        born.push(h);
        j += 1;
    }
    let mut kept = hiders.split_off(caught_count);
    let ghost kept_before = kept@;
    let ghost born_before = born@;
    kept.append(&mut born);
    *hiders = kept;
    proof {
        assert(hiders@ == kept_before + born_before);
        assert(is_longest_survivor(old(hiders)@, now, best as int));
        assert forall|j: int| 0 <= j < spawns@.len() implies spawned_from(
            #[trigger] hiders@[old(hiders)@.len() - caught_count + j],
            spawns@[j],
            now,
            old(hiders)@[best as int],
        ) by {
            assert(hiders@[old(hiders)@.len() - caught_count + j] == born_before[j]);
        }
    }
}

} // verus!
