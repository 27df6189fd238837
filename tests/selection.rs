use hide_and_seek::agents::{Hider, Seeker};
use hide_and_seek::geometry::Point;
use hide_and_seek::motion::Velocity;
use hide_and_seek::network::NeuralNetwork;
use hide_and_seek::selection::{all_caught, longest_survivor, mark_if_seen, next_generation};
use hide_and_seek::vision::Obstacle;

fn hider(x: i64, y: i64, born_time: u64) -> Hider {
    Hider::new(x, y, Velocity { x: 2, y: 1 }, None, true, born_time)
}

fn weights(n: &NeuralNetwork) -> Vec<i64> {
    let mut all = Vec::new();
    for layer in 0..3 {
        let (rows, cols) = n.layer_shape(layer);
        for i in 0..rows {
            for j in 0..cols {
                all.push(n.weight(layer, i, j));
            }
        }
    }
    all
}

fn seeker() -> Seeker {
    let mut s = Seeker::new(0, 0, 2, Velocity { x: 1, y: 0 }, 10);
    s.aim_sensors(&vec![Point { x: 50, y: 0 }, Point { x: 0, y: 50 }]);
    s
}

#[test]
fn seen_hider_is_caught_and_stopped_once() {
    let s = seeker();
    let mut h = hider(3, 40, 0);
    assert!(mark_if_seen(&mut h, &s, None));
    assert!(h.caught);
    assert_eq!(h.velocity, Velocity { x: 0, y: 0 });
    assert!(!mark_if_seen(&mut h, &s, None));
    assert!(h.caught);
}

#[test]
fn unseen_hider_is_left_alone() {
    let s = seeker();
    let mut h = hider(30, 30, 0);
    assert!(!mark_if_seen(&mut h, &s, None));
    assert!(!h.caught);
    assert_eq!(h.velocity, Velocity { x: 2, y: 1 });
}

#[test]
fn obstacle_can_save_a_hider() {
    let s = seeker();
    let mut h = hider(0, 45, 0);
    assert!(!mark_if_seen(&mut h, &s, Some(Obstacle::new(-20, 20, 40))));
    assert!(!h.caught);
    assert!(mark_if_seen(&mut h, &s, None));
}

#[test]
fn longest_survivor_is_the_first_oldest() {
    let hs = vec![hider(0, 0, 50), hider(0, 0, 10), hider(0, 0, 30), hider(0, 0, 10)];
    assert_eq!(longest_survivor(&hs, 100), 1);
    let hs = vec![hider(0, 0, 200), hider(0, 0, 300)];
    assert_eq!(longest_survivor(&hs, 100), 0);
}

#[test]
fn full_capture_replaces_the_whole_generation() {
    let mut hs = vec![hider(10, 10, 5), hider(20, 20, 1), hider(30, 30, 9)];
    for h in hs.iter_mut() {
        h.caught = true;
    }
    let spawns: Vec<(Point, Velocity)> = (0..10)
        .map(|i| (Point { x: 50 + i, y: 60 + i }, Velocity { x: 1, y: -1 }))
        .collect();
    next_generation(&mut hs, 3, 100, &spawns);
    assert_eq!(hs.len(), 10);
    for (i, h) in hs.iter().enumerate() {
        assert!(!h.caught);
        assert_eq!(h.born_time, 100);
        assert_eq!(h.position, Point { x: 50 + i as i64, y: 60 + i as i64 });
        assert_eq!(h.velocity, Velocity { x: 1, y: -1 });
        assert_eq!(h.network.layer_shape(0), (6, 4));
    }
}

#[test]
fn turnover_retires_from_the_front() {
    let mut hs = vec![hider(10, 10, 5), hider(20, 20, 1), hider(30, 30, 9), hider(40, 40, 2)];
    hs[0].caught = true;
    hs[2].caught = true;
    let kept: Vec<Vec<i64>> = hs[2..].iter().map(|h| weights(&h.network)).collect();
    let parent = weights(&hs[1].network);
    let spawns = vec![(Point { x: 1, y: 2 }, Velocity { x: 0, y: 3 })];
    next_generation(&mut hs, 2, 50, &spawns);
    assert_eq!(hs.len(), 3);
    assert_eq!(hs[0].position, Point { x: 30, y: 30 });
    assert!(hs[0].caught);
    assert_eq!(hs[1].position, Point { x: 40, y: 40 });
    assert_eq!(weights(&hs[0].network), kept[0]);
    assert_eq!(weights(&hs[1].network), kept[1]);
    assert_eq!(hs[2].position, Point { x: 1, y: 2 });
    assert!(!hs[2].caught);
    assert_eq!(weights(&hs[2].network).len(), parent.len());
}

#[test]
fn offspring_network_is_inherited() {
    let parent = NeuralNetwork::new(6, 4, 4);
    let before = weights(&parent);
    let child = Hider::new(5, 5, Velocity { x: 0, y: 0 }, Some(parent.clone()), false, 0);
    assert_eq!(weights(&parent), before);
    assert_eq!(weights(&child.network).len(), before.len());
    let twin = Hider::new(5, 5, Velocity { x: 0, y: 0 }, Some(parent.clone()), true, 0);
    assert_eq!(weights(&twin.network), before);
}

#[test]
fn generation_is_complete_only_when_every_hider_is_caught() {
    let mut hs = vec![hider(0, 0, 0), hider(5, 5, 0)];
    assert!(!all_caught(&hs));
    hs[0].caught = true;
    assert!(!all_caught(&hs));
    hs[1].caught = true;
    assert!(all_caught(&hs));
    assert!(all_caught(&Vec::new()));
}
