use hide_and_seek::agents::{move_hider, move_seeker, Hider, Seeker};
use hide_and_seek::geometry::{Point, WORLD_LIMIT};
use hide_and_seek::motion::{advance, isqrt, reflect_at_walls, steer, Action, Velocity};
use hide_and_seek::vision::Obstacle;

#[test]
fn reflection_flips_only_the_crossed_axis() {
    let v = Velocity { x: 3, y: -4 };
    let r = reflect_at_walls(Point { x: 395, y: 150 }, v, 400, 300, 10);
    assert_eq!(r, Velocity { x: -3, y: -4 });
    let r = reflect_at_walls(Point { x: 200, y: 5 }, v, 400, 300, 10);
    assert_eq!(r, Velocity { x: 3, y: 4 });
    let r = reflect_at_walls(Point { x: 5, y: 295 }, v, 400, 300, 10);
    assert_eq!(r, Velocity { x: -3, y: 4 });
}

#[test]
fn reflection_needs_a_strict_crossing() {
    let v = Velocity { x: 3, y: -4 };
    assert_eq!(reflect_at_walls(Point { x: 390, y: 10 }, v, 400, 300, 10), v);
    assert_eq!(reflect_at_walls(Point { x: 391, y: 10 }, v, 400, 300, 10), Velocity { x: -3, y: -4 });
    assert_eq!(reflect_at_walls(Point { x: 10, y: 9 }, v, 400, 300, 10), Velocity { x: 3, y: 4 });
}

#[test]
fn integer_square_roots() {
    assert_eq!(isqrt(0), 0);
    assert_eq!(isqrt(1), 1);
    assert_eq!(isqrt(24), 4);
    assert_eq!(isqrt(25), 5);
    assert_eq!(isqrt(26), 5);
    let top = (WORLD_LIMIT * WORLD_LIMIT) as u64;
    assert_eq!(isqrt(top), WORLD_LIMIT as u64);
    assert_eq!(isqrt(top - 1), WORLD_LIMIT as u64 - 1);
}

#[test]
fn steering_keeps_the_speed() {
    let v = Velocity { x: 3, y: -4 };
    assert_eq!(v.speed(), 5);
    assert_eq!(steer(v, None), v);
    assert_eq!(steer(v, Some(Action::Right)), Velocity { x: 5, y: 0 });
    assert_eq!(steer(v, Some(Action::Left)), Velocity { x: -5, y: 0 });
    assert_eq!(steer(v, Some(Action::Up)), Velocity { x: 0, y: -5 });
    assert_eq!(steer(v, Some(Action::Down)), Velocity { x: 0, y: 5 });
    assert_eq!(steer(Velocity { x: 2, y: 2 }, Some(Action::Right)), Velocity { x: 2, y: 0 });
}

#[test]
fn advancing_stops_at_the_world_edge() {
    let p = advance(Point { x: 10, y: 20 }, Velocity { x: 3, y: -2 }, 5);
    assert_eq!(p, Point { x: 25, y: 10 });
    let p = advance(Point { x: WORLD_LIMIT - 1, y: 0 }, Velocity { x: 7, y: 0 }, 10);
    assert_eq!(p, Point { x: WORLD_LIMIT, y: 0 });
}

#[test]
fn action_order() {
    assert_eq!(Action::from_index(0), Some(Action::Right));
    assert_eq!(Action::from_index(1), Some(Action::Left));
    assert_eq!(Action::from_index(2), Some(Action::Up));
    assert_eq!(Action::from_index(3), Some(Action::Down));
    assert_eq!(Action::from_index(4), None);
}

#[test]
fn seeker_moves_and_carries_its_sensors() {
    let mut s = Seeker::new(100, 100, 3, Velocity { x: 3, y: 4 }, 10);
    s.aim_sensors(&vec![Point { x: 50, y: 0 }, Point { x: 0, y: 50 }, Point { x: -50, y: 0 }]);
    let wall = Obstacle::new(500, 500, 10);
    move_seeker(&mut s, &wall, 2, 400, 300, 10, None);
    assert_eq!(s.velocity, Velocity { x: 3, y: 4 });
    assert_eq!(s.position, Point { x: 106, y: 108 });
    for sensor in s.vision_sensors.iter() {
        assert_eq!(sensor.origin, s.position);
    }
    assert_eq!(s.vision_sensors[1].reach, Point { x: 0, y: 50 });
}

#[test]
fn seeker_bounces_off_the_obstacle_and_follows_keys() {
    let mut s = Seeker::new(100, 150, 1, Velocity { x: 3, y: 4 }, 10);
    let wall = Obstacle::new(50, 145, 100);
    move_seeker(&mut s, &wall, 1, 400, 300, 10, None);
    assert_eq!(s.velocity, Velocity { x: -3, y: -4 });
    assert_eq!(s.position, Point { x: 97, y: 146 });
    let mut s = Seeker::new(100, 100, 1, Velocity { x: 3, y: 4 }, 10);
    move_seeker(&mut s, &wall, 1, 400, 300, 10, Some(Action::Up));
    assert_eq!(s.velocity, Velocity { x: 0, y: -5 });
    assert_eq!(s.position, Point { x: 100, y: 95 });
}

#[test]
fn hider_turns_then_reflects() {
    let mut h = Hider::new(395, 100, Velocity { x: 0, y: 6 }, None, true, 0);
    move_hider(&mut h, 1, 400, 300, 10, Some(Action::Right));
    assert_eq!(h.velocity, Velocity { x: -6, y: 0 });
    assert_eq!(h.position, Point { x: 389, y: 100 });
}

#[test]
fn caught_hider_stays_put() {
    let mut h = Hider::new(200, 100, Velocity { x: 0, y: 0 }, None, true, 0);
    h.caught = true;
    move_hider(&mut h, 7, 400, 300, 10, Some(Action::Down));
    assert_eq!(h.position, Point { x: 200, y: 100 });
    assert_eq!(h.velocity, Velocity { x: 0, y: 0 });
}

#[test]
fn steering_a_standing_agent_keeps_it_standing() {
    let still = Velocity { x: 0, y: 0 };
    assert_eq!(still.speed(), 0);
    assert_eq!(steer(still, Some(Action::Right)), still);
    assert_eq!(steer(still, Some(Action::Up)), still);
}

#[test]
fn new_seeker_has_unaimed_sensors_at_its_position() {
    let s = Seeker::new(120, 80, 5, Velocity { x: 1, y: 1 }, 10);
    assert_eq!(s.num_vision_sensors, 5);
    assert_eq!(s.vision_sensors.len(), 5);
    for sensor in s.vision_sensors.iter() {
        assert_eq!(sensor.origin, Point { x: 120, y: 80 });
        assert_eq!(sensor.reach, Point { x: 0, y: 0 });
        assert_eq!(sensor.threshold, 10);
    }
}
