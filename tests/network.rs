use hide_and_seek::motion::Action;
use hide_and_seek::network::{NeuralNetwork, Perturbation, RATE_ONE, WEIGHT_ONE};

fn snapshot(n: &NeuralNetwork) -> Vec<Vec<Vec<i64>>> {
    let mut layers = Vec::new();
    for layer in 0..3 {
        let (rows, cols) = n.layer_shape(layer);
        let mut m = Vec::new();
        for i in 0..rows {
            let mut row = Vec::new();
            for j in 0..cols {
                row.push(n.weight(layer, i, j));
            }
            m.push(row);
        }
        layers.push(m);
    }
    layers
}

fn shapes(n: &NeuralNetwork) -> Vec<(usize, usize)> {
    (0..3).map(|k| n.layer_shape(k)).collect()
}

fn uniform(rows: usize, cols: usize, roll: u32, delta: i64) -> Perturbation {
    Perturbation { rolls: vec![vec![roll; cols]; rows], deltas: vec![vec![delta; cols]; rows] }
}

#[test]
fn new_network_has_the_requested_shape() {
    let n = NeuralNetwork::new(6, 4, 3);
    assert_eq!(shapes(&n), vec![(6, 4), (4, 3), (3, 4)]);
    for layer in snapshot(&n) {
        for row in layer {
            for w in row {
                assert!(-WEIGHT_ONE <= w && w < WEIGHT_ONE);
            }
        }
    }
}

#[test]
fn mutation_never_changes_the_shape() {
    for rate in [0, 1, 300, 999, RATE_ONE, 5000] {
        let mut n = NeuralNetwork::new(6, 4, 4);
        n.mutate(rate);
        assert_eq!(shapes(&n), vec![(6, 4), (4, 4), (4, 4)]);
    }
}

#[test]
fn mutation_at_rate_zero_changes_nothing() {
    let mut n = NeuralNetwork::new(6, 4, 4);
    let before = snapshot(&n);
    n.mutate(0);
    assert_eq!(snapshot(&n), before);
}

#[test]
fn mutation_at_full_rate_perturbs_every_weight() {
    let mut n = NeuralNetwork::new(2, 3, 2);
    let before = snapshot(&n);
    n.mutate_with(
        RATE_ONE,
        &uniform(2, 3, RATE_ONE - 1, 7),
        &uniform(3, 2, 0, -5),
        &uniform(2, 4, 500, 1),
    );
    let after = snapshot(&n);
    let expected = [7, -5, 1];
    for k in 0..3 {
        for i in 0..before[k].len() {
            for j in 0..before[k][i].len() {
                assert_eq!(after[k][i][j], before[k][i][j] + expected[k]);
            }
        }
    }
}

#[test]
fn mutation_applies_only_rolls_below_the_rate() {
    let mut n = NeuralNetwork::new(1, 2, 1);
    let before = snapshot(&n);
    let input = Perturbation { rolls: vec![vec![299, 300]], deltas: vec![vec![10, 20]] };
    let hidden = Perturbation { rolls: vec![vec![0], vec![999]], deltas: vec![vec![-3], vec![4]] };
    let output = uniform(1, 4, 300, 9);
    n.mutate_with(300, &input, &hidden, &output);
    let after = snapshot(&n);
    assert_eq!(after[0][0][0], before[0][0][0] + 10);
    assert_eq!(after[0][0][1], before[0][0][1]);
    assert_eq!(after[1][0][0], before[1][0][0] - 3);
    assert_eq!(after[1][1][0], before[1][1][0]);
    assert_eq!(after[2], before[2]);
}

#[test]
fn mutating_a_clone_leaves_the_source() {
    let source = NeuralNetwork::new(6, 4, 4);
    let before = snapshot(&source);
    let mut copy = source.clone();
    assert_eq!(snapshot(&copy), before);
    copy.mutate_with(RATE_ONE, &uniform(6, 4, 0, 3), &uniform(4, 4, 0, 3), &uniform(4, 4, 0, 3));
    copy.mutate(RATE_ONE);
    assert_eq!(snapshot(&source), before);
    assert_ne!(snapshot(&copy), before);
}

#[test]
fn direction_is_the_first_highest_score() {
    assert_eq!(NeuralNetwork::get_direction(&vec![1, 5, 3, 2]), Action::Left);
    assert_eq!(NeuralNetwork::get_direction(&vec![1, 5, 3, 9]), Action::Down);
    assert_eq!(NeuralNetwork::get_direction(&vec![4, 4, 4, 4]), Action::Right);
    assert_eq!(NeuralNetwork::get_direction(&vec![-7, 2, 2, -1]), Action::Left);
    assert_eq!(NeuralNetwork::get_direction(&vec![-7, -9, 0, 0]), Action::Up);
}
