//! The seeker and the hiders, and how each moves in a frame.
use vstd::prelude::*;
use crate::geometry::{Point, WORLD_LIMIT};
use crate::motion::{
    advance, advanced, reflect_at_walls, reflected, speed_bounded, speed_of, steer, steered,
    touches, Action, Velocity,
};
use crate::network::{initial_weights, is_mutation_of, NeuralNetwork};
use crate::vision::{Obstacle, VisionSensor};

verus! {

/// The rate at which a hider's inherited network is mutated.
pub const OFFSPRING_MUTATION_RATE: u32 = 300;

/// The pursuer, with its fan of vision sensors.
pub struct Seeker {
    pub position: Point,
    pub num_vision_sensors: u32,
    pub vision_sensors: Vec<VisionSensor>,
    pub velocity: Velocity,
}

/// An evader, steered by its own network.
pub struct Hider {
    pub position: Point,
    pub velocity: Velocity,
    pub network: NeuralNetwork,
    pub born_time: u64,
    pub caught: bool,
}

/// The velocity after the seeker bounces off the obstacle: both components
/// negated where it touches it.
pub open spec fn bounced(p: Point, v: Velocity, o: Obstacle, radius: int) -> Velocity {
    if touches(p, o, radius) {
        Velocity { x: -v.x as i64, y: -v.y as i64 }
    } else {
        v
    }
}

/// Each sensor of `after` is the same-index sensor of `before` moved to `p`.
pub open spec fn sensors_moved(after: Seq<VisionSensor>, before: Seq<VisionSensor>, p: Point) -> bool {
    &&& after.len() == before.len()
    &&& forall|i: int|
        0 <= i < after.len() ==> #[trigger] after[i] == (VisionSensor { origin: p, ..before[i] })
}

/// Arena dimensions and an agent radius that the motion rules accept.
pub open spec fn arena_ok(width: i64, height: i64, radius: i64) -> bool {
    &&& -WORLD_LIMIT <= width <= WORLD_LIMIT
    &&& -WORLD_LIMIT <= height <= WORLD_LIMIT
    &&& -WORLD_LIMIT <= radius <= WORLD_LIMIT
}

impl Seeker {
    /// Position and velocity are in range, and every sensor sits at the
    /// seeker's position.
    pub open spec fn wf(&self) -> bool {
        &&& self.position.within(WORLD_LIMIT as int)
        &&& speed_bounded(self.velocity)
        &&& self.vision_sensors@.len() == self.num_vision_sensors
        &&& forall|i: int|
            0 <= i < self.vision_sensors@.len() ==> (#[trigger] self.vision_sensors@[i]).wf()
                && self.vision_sensors@[i].origin == self.position
    }

    /// A seeker at `(x, y)` with `num_vision_sensors` sensors of the given
    /// threshold, not yet aimed: each reaches nowhere until `aim_sensors`.
    pub fn new(x: i64, y: i64, num_vision_sensors: u32, velocity: Velocity, threshold: i64) -> (r: Seeker)
        requires
            (Point { x, y }).within(WORLD_LIMIT as int),
            speed_bounded(velocity),
            0 <= threshold <= WORLD_LIMIT,
        ensures
            r.wf(),
            r.position == (Point { x, y }),
            r.velocity == velocity,
            r.num_vision_sensors == num_vision_sensors,
            forall|i: int|
                0 <= i < num_vision_sensors ==> #[trigger] r.vision_sensors@[i] == (VisionSensor {
                    origin: Point { x, y },
                    reach: Point { x: 0, y: 0 },
                    threshold,
                }),
    {
        let position = Point { x, y };
        let mut vision_sensors: Vec<VisionSensor> = Vec::new();
        let mut i: u32 = 0;
        while i < num_vision_sensors
            invariant
                i <= num_vision_sensors,
                vision_sensors@.len() == i,
                position.within(WORLD_LIMIT as int),
                0 <= threshold <= WORLD_LIMIT,
                forall|k: int|
                    0 <= k < i ==> #[trigger] vision_sensors@[k] == (VisionSensor {
                        origin: position,
                        reach: Point { x: 0, y: 0 },
                        threshold,
                    }),
            decreases num_vision_sensors - i,
        {
            vision_sensors.push(
                VisionSensor { origin: position, reach: Point { x: 0, y: 0 }, threshold },
            );
            i += 1;
        }
        Seeker { position, num_vision_sensors, vision_sensors, velocity }
    }

    /// Points sensor `i` along `reaches[i]`, keeping its origin and threshold.
    pub fn aim_sensors(&mut self, reaches: &Vec<Point>)
        requires
            old(self).wf(),
            reaches@.len() == old(self).vision_sensors@.len(),
            forall|i: int| 0 <= i < reaches@.len() ==> (#[trigger] reaches@[i]).within(WORLD_LIMIT as int),
        ensures
            final(self).wf(),
            final(self).position == old(self).position,
            final(self).velocity == old(self).velocity,
            final(self).num_vision_sensors == old(self).num_vision_sensors,
            forall|i: int|
                0 <= i < reaches@.len() ==> #[trigger] final(self).vision_sensors@[i] == (VisionSensor {
                    reach: reaches@[i],
                    ..old(self).vision_sensors@[i]
                }),
    {
        let n = self.vision_sensors.len();
        let mut i: usize = 0;
        while i < n
            invariant
                n == reaches@.len(),
                i <= n,
                self.position == old(self).position,
                self.velocity == old(self).velocity,
                self.num_vision_sensors == old(self).num_vision_sensors,
                self.vision_sensors@.len() == n,
                old(self).wf(),
                forall|k: int| 0 <= k < n ==> (#[trigger] reaches@[k]).within(WORLD_LIMIT as int),
                forall|k: int|
                    0 <= k < i ==> #[trigger] self.vision_sensors@[k] == (VisionSensor {
                        reach: reaches@[k],
                        ..old(self).vision_sensors@[k]
                    }),
                forall|k: int|
                    i <= k < n ==> #[trigger] self.vision_sensors@[k] == old(self).vision_sensors@[k],
            decreases n - i,
        {
            let mut s = self.vision_sensors[i];
            s.reach = reaches[i];
            self.vision_sensors.set(i, s);
            i += 1;
        }
        proof {
            assert forall|k: int| 0 <= k < self.vision_sensors@.len() implies (
            #[trigger] self.vision_sensors@[k]).wf() && self.vision_sensors@[k].origin
                == self.position by {
                assert(old(self).vision_sensors@[k].wf());
            }
        }
    }
}

/// Moves the seeker for `time` ticks: it reflects off the arena's walls,
/// bounces off the obstacle, turns the way `key` says (if any), advances,
/// and carries its sensors along.
pub fn move_seeker(
    seeker: &mut Seeker,
    obst: &Obstacle,
    time: u32,
    width: i64,
    height: i64,
    radius: i64,
    key: Option<Action>,
)
    requires
        old(seeker).wf(),
        obst.wf(),
        arena_ok(width, height, radius),
    ensures
        final(seeker).wf(),
        ({
            let p = old(seeker).position;
            let v1 = reflected(p, old(seeker).velocity, width as int, height as int, radius as int);
            let v2 = bounced(p, v1, *obst, radius as int);
            let v3 = steered(v2, key, speed_of(v2));
            &&& final(seeker).velocity == v3
            &&& final(seeker).position == advanced(p, v3, time as int)
        }),
        final(seeker).num_vision_sensors == old(seeker).num_vision_sensors,
        sensors_moved(
            final(seeker).vision_sensors@,
            old(seeker).vision_sensors@,
            final(seeker).position,
        ),
{
    let p = seeker.position;
    let v1 = reflect_at_walls(p, seeker.velocity, width, height, radius);
    let v2 = if p.x > obst.x && p.x < obst.x + obst.length && p.y > obst.y - radius && p.y < obst.y
        + radius {
        proof {
            assert((-v1.x) * (-v1.x) == v1.x * v1.x && (-v1.y) * (-v1.y) == v1.y * v1.y)
                by (nonlinear_arith);
            assert(-WORLD_LIMIT <= v1.x <= WORLD_LIMIT && -WORLD_LIMIT <= v1.y <= WORLD_LIMIT)
                by (nonlinear_arith)
                requires v1.x * v1.x + v1.y * v1.y <= 131072 * 131072;
        }
        Velocity { x: -v1.x, y: -v1.y }
    } else {
        v1
    };
    let v3 = steer(v2, key);
    let q = advance(p, v3, time);
    seeker.velocity = v3;
    seeker.position = q;
    let ghost before = seeker.vision_sensors@;
    let n = seeker.vision_sensors.len();
    let mut i: usize = 0;
    while i < n
        invariant
            n == before.len(),
            i <= n,
            seeker.vision_sensors@.len() == n,
            seeker.position == q,
            seeker.velocity == v3,
            seeker.num_vision_sensors == old(seeker).num_vision_sensors,
            old(seeker).vision_sensors@ == before,
            old(seeker).wf(),
            speed_bounded(v3),
            q.within(WORLD_LIMIT as int),
            forall|k: int| 0 <= k < n ==> (#[trigger] before[k]).wf(),
            forall|k: int|
                0 <= k < i ==> #[trigger] seeker.vision_sensors@[k] == (VisionSensor {
                    origin: q,
                    ..before[k]
                }),
            forall|k: int| i <= k < n ==> #[trigger] seeker.vision_sensors@[k] == before[k],
        decreases n - i,
    {
        let mut s = seeker.vision_sensors[i];
        s.origin = q;
        seeker.vision_sensors.set(i, s);
        i += 1;
    }
    proof {
        assert forall|k: int| 0 <= k < n implies (#[trigger] seeker.vision_sensors@[k]).wf() by {
            assert(before[k].wf());
        }
    }
}

impl Hider {
    /// Position and velocity are in range and the network is well formed.
    pub open spec fn wf(&self) -> bool {
        &&& self.position.within(WORLD_LIMIT as int)
        &&& speed_bounded(self.velocity)
        &&& self.network.wf()
    }

    /// A hider at `(x, y)`, born at `born_time` and not caught. It takes the
    /// given network, or a fresh one for six inputs with four hidden and four
    /// output units; unless `new`, the network is first mutated at
    /// `OFFSPRING_MUTATION_RATE`.
    pub fn new(
        x: i64,
        y: i64,
        velocity: Velocity,
        network: Option<NeuralNetwork>,
        new: bool,
        born_time: u64,
    ) -> (r: Hider)
        requires
            (Point { x, y }).within(WORLD_LIMIT as int),
            speed_bounded(velocity),
            network.is_some() ==> network.unwrap().wf(),
        ensures
            r.wf(),
            r.position == (Point { x, y }),
            r.velocity == velocity,
            r.born_time == born_time,
            !r.caught,
            network.is_some() ==> r.network.same_shape(&network.unwrap()),
            network.is_some() && new ==> r.network.layers() == network.unwrap().layers(),
            network.is_some() && !new ==> forall|k: int|
                0 <= k < 3 ==> is_mutation_of(
                    #[trigger] r.network.layers()[k],
                    network.unwrap().layers()[k],
                    OFFSPRING_MUTATION_RATE,
                ),
            network.is_none() ==> r.network.layers()[0].len() == 6 && r.network.widths()[0] == 4,
            network.is_none() ==> r.network.layers()[1].len() == 4 && r.network.widths()[1] == 4,
            network.is_none() ==> r.network.layers()[2].len() == 4 && r.network.widths()[2] == 4,
            network.is_none() && new ==> forall|k: int|
                0 <= k < 3 ==> initial_weights(#[trigger] r.network.layers()[k]),
    {
        let mut network = match network {
            Some(n) => n,
            None => NeuralNetwork::new(6, 4, 4),
        };
        if !new {
            network.mutate(OFFSPRING_MUTATION_RATE);
        }
        Hider { position: Point { x, y }, velocity, network, born_time, caught: false }
    }
}

/// Moves a hider for `time` ticks: it turns the way `direction` says (if
/// any), reflects off the arena's walls, and advances. A caught hider does
/// not move.
pub fn move_hider(
    hider: &mut Hider,
    time: u32,
    width: i64,
    height: i64,
    radius: i64,
    direction: Option<Action>,
)
    requires
        old(hider).wf(),
        arena_ok(width, height, radius),
    ensures
        final(hider).wf(),
        old(hider).caught ==> *final(hider) == *old(hider),
        !old(hider).caught ==> ({
            let p = old(hider).position;
            let v1 = steered(old(hider).velocity, direction, speed_of(old(hider).velocity));
            let v2 = reflected(p, v1, width as int, height as int, radius as int);
            &&& final(hider).velocity == v2
            &&& final(hider).position == advanced(p, v2, time as int)
            &&& final(hider).network == old(hider).network
            &&& final(hider).born_time == old(hider).born_time
            &&& !final(hider).caught
        }),
{
    if hider.caught {
        return;
    }
    let p = hider.position;
    let v1 = steer(hider.velocity, direction);
    let v2 = reflect_at_walls(p, v1, width, height, radius);
    hider.velocity = v2;
    hider.position = advance(p, v2, time);
}

} // verus!
