use hide_and_seek::agents::Hider;
use hide_and_seek::geometry::{line_intersection, Crossing, Point};
use hide_and_seek::motion::Velocity;
use hide_and_seek::vision::{Obstacle, VisionSensor};

fn sensor(ox: i64, oy: i64, rx: i64, ry: i64, threshold: i64) -> VisionSensor {
    VisionSensor { origin: Point { x: ox, y: oy }, reach: Point { x: rx, y: ry }, threshold }
}

fn hider_at(x: i64, y: i64) -> Hider {
    Hider::new(x, y, Velocity { x: 0, y: 0 }, None, true, 0)
}

#[test]
fn sensor_scenario_without_obstacle() {
    let s = sensor(0, 0, 50, 0, 10);
    assert!(s.sees_hider(&hider_at(40, 0), None));
    assert!(!s.sees_hider(&hider_at(40, 30), None));
    assert!(!s.sees_hider(&hider_at(60, 0), None));
}

#[test]
fn hider_just_inside_threshold_past_the_end_is_seen() {
    let s = sensor(0, 0, 50, 0, 10);
    assert!(s.sees_point(Point { x: 59, y: 0 }, None));
    assert!(s.sees_point(Point { x: 40, y: 9 }, None));
    assert!(!s.sees_point(Point { x: 40, y: -10 }, None));
}

#[test]
fn point_behind_the_origin_is_measured_from_the_origin() {
    let s = sensor(0, 0, 50, 0, 10);
    assert!(s.sees_point(Point { x: -9, y: 0 }, None));
    assert!(!s.sees_point(Point { x: -10, y: 0 }, None));
}

#[test]
fn collinear_wall_is_parallel_and_does_not_cut_the_ray() {
    let s = sensor(0, 0, 50, 0, 10);
    let wall = Obstacle::new(10, 0, 20);
    assert_eq!(s.blocked_by_obs(&wall), None);
    assert!(s.sees_hider(&hider_at(5, 0), Some(wall)));
    assert!(s.sees_hider(&hider_at(40, 0), Some(wall)));
}

#[test]
fn crossing_wall_hides_what_lies_beyond() {
    let s = sensor(0, 0, 40, 40, 10);
    let wall = Obstacle::new(0, 20, 40);
    assert_eq!(s.blocked_by_obs(&wall), Some(Crossing { num: 800, den: 1600 }));
    assert!(s.sees_point(Point { x: 30, y: 30 }, None));
    assert!(!s.sees_point(Point { x: 30, y: 30 }, Some(wall)));
    assert!(s.sees_point(Point { x: 22, y: 22 }, None));
    assert!(!s.sees_point(Point { x: 22, y: 22 }, Some(wall)));
    assert!(!s.sees_point(Point { x: 10, y: 10 }, Some(wall)));
    assert!(s.sees_point(Point { x: 8, y: 8 }, Some(wall)));
}

#[test]
fn sensor_sees_its_own_endpoint_in_any_direction() {
    let reaches = [(50, 0), (0, 50), (-35, 35), (-50, 0), (12, -49), (0, 0), (1000, 777)];
    for (rx, ry) in reaches {
        let s = sensor(100, -40, rx, ry, 10);
        assert!(s.sees_point(s.unblocked_end(), None));
    }
}

#[test]
fn far_point_is_never_seen() {
    let s = sensor(0, 0, 30, 40, 10);
    assert!(!s.sees_point(Point { x: 60, y: 0 }, None));
    assert!(!s.sees_point(Point { x: -60, y: 0 }, None));
    assert!(!s.sees_point(Point { x: 36, y: 48 }, None));
    assert!(!s.sees_point(Point { x: 36, y: 48 }, Some(Obstacle::new(-100, 20, 200))));
}

#[test]
fn crossing_shortens_the_ray() {
    let s = sensor(0, 0, 0, 50, 10);
    let wall = Obstacle::new(-10, 20, 20);
    let c = s.blocked_by_obs(&wall).unwrap();
    assert!(0 < c.num && c.num < c.den);
    assert_eq!(c.num * 5, c.den * 2);
    assert!(s.sees_point(Point { x: 0, y: 5 }, Some(wall)));
    assert!(s.sees_point(Point { x: 6, y: 1 }, Some(wall)));
    assert!(s.sees_point(Point { x: 0, y: 25 }, None));
    assert!(!s.sees_point(Point { x: 0, y: 25 }, Some(wall)));
    assert!(!s.sees_point(Point { x: 0, y: 20 }, Some(wall)));
    assert!(!s.sees_point(Point { x: 0, y: 31 }, Some(wall)));
    assert!(!s.sees_point(Point { x: 0, y: 125 }, Some(wall)));
}

#[test]
fn wall_beside_the_ray_does_not_block() {
    let s = sensor(0, 0, 0, 50, 10);
    let wall = Obstacle::new(5, 20, 20);
    assert_eq!(s.blocked_by_obs(&wall), None);
    assert!(s.sees_point(Point { x: 0, y: 45 }, Some(wall)));
}

#[test]
fn segments_touching_at_an_end_do_not_cross() {
    let r = line_intersection(
        Point { x: 0, y: 0 },
        Point { x: 10, y: 10 },
        Point { x: 10, y: 10 },
        Point { x: 20, y: 10 },
    );
    assert_eq!(r, None);
}

#[test]
fn segments_crossing_in_the_middle() {
    let r = line_intersection(
        Point { x: 0, y: 0 },
        Point { x: 10, y: 0 },
        Point { x: 4, y: -5 },
        Point { x: 4, y: 5 },
    );
    let c = r.unwrap();
    assert_eq!(c.num * 10, c.den * 4);
}

#[test]
fn parallel_segments_do_not_cross() {
    let r = line_intersection(
        Point { x: 0, y: 0 },
        Point { x: 10, y: 0 },
        Point { x: 0, y: 5 },
        Point { x: 10, y: 5 },
    );
    assert_eq!(r, None);
}

/// The projection written with floats: clamp the scaled dot product with the
/// full reach, and measure from the point that far along the visible part.
fn float_distance(s: &VisionSensor, h: Point, cut: Option<Crossing>) -> f64 {
    let (ox, oy) = (s.origin.x as f64, s.origin.y as f64);
    let (dx, dy) = (s.reach.x as f64, s.reach.y as f64);
    let f = cut.map(|c| c.num as f64 / c.den as f64).unwrap_or(1.0);
    let (ex, ey) = (f * dx, f * dy);
    let (wx, wy) = (h.x as f64 - ox, h.y as f64 - oy);
    let r2 = dx * dx + dy * dy;
    let t = if r2 == 0.0 { 0.0 } else { ((wx * ex + wy * ey) / r2).max(0.0).min(1.0) };
    ((wx - t * ex).powi(2) + (wy - t * ey).powi(2)).sqrt()
}

#[test]
fn visibility_agrees_with_the_projection_formula() {
    let sensors = [sensor(0, 0, 40, 40, 10), sensor(3, -7, 13, 50, 6), sensor(10, 60, -30, -45, 9)];
    let walls = [Obstacle::new(-20, 20, 80), Obstacle::new(0, 30, 15), Obstacle::new(-50, 40, 100)];
    let mut compared = 0;
    for s in sensors.iter() {
        for wall in walls.iter() {
            let cut = s.blocked_by_obs(wall);
            for x in -30..70 {
                for y in -30..70 {
                    let h = Point { x, y };
                    let d = float_distance(s, h, cut);
                    if (d - s.threshold as f64).abs() < 1e-6 {
                        continue;
                    }
                    assert_eq!(s.sees_point(h, Some(*wall)), d < s.threshold as f64, "{:?} {:?} {:?}", s, wall, h);
                    compared += 1;
                }
            }
        }
    }
    assert!(compared > 80000);
}
