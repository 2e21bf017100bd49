use neuronet::fx::{fx_add, fx_mul, fx_sub, FX_ONE};
use neuronet::matrix::Matrix;
use neuronet::neuron::{Activation, Neuron};
use neuronet::rng::{shuffle, RandomGenerator};
use neuronet::EngineError;

fn fx(v: i64) -> i64 {
    v * FX_ONE
}

#[test]
fn dot_shape_and_values() {
    // a 2x3 matrix times a 3x2 matrix lands in a 2x2 matrix
    let lhs = Matrix::from(3, 2, &vec![fx(1), fx(2), fx(3), fx(4), fx(5), fx(6)]).unwrap();
    let rhs = Matrix::from(2, 3, &vec![fx(7), fx(8), fx(9), fx(10), fx(11), fx(12)]).unwrap();
    let mut out = Matrix::new(2, 2);
    assert!(out.dot(&lhs, &rhs).is_ok());
    assert_eq!(out.to_vec(), vec![fx(58), fx(64), fx(139), fx(154)]);
    assert_eq!(out.width(), 2);
    assert_eq!(out.height(), 2);
}

#[test]
fn dot_incompatible_shapes_fail() {
    let lhs = Matrix::from(3, 2, &vec![0; 6]).unwrap();
    let bad_rhs = Matrix::from(2, 2, &vec![0; 4]).unwrap();
    let mut out = Matrix::new(2, 2);
    assert_eq!(out.dot(&lhs, &bad_rhs), Err(EngineError::ShapeMismatch));
    let rhs = Matrix::from(2, 3, &vec![0; 6]).unwrap();
    let mut bad_out = Matrix::new(3, 3);
    assert_eq!(bad_out.dot(&lhs, &rhs), Err(EngineError::ShapeMismatch));
}

#[test]
fn dot_accumulates_into_existing_contents() {
    let lhs = Matrix::from(1, 1, &vec![fx(2)]).unwrap();
    let rhs = Matrix::from(1, 1, &vec![fx(3)]).unwrap();
    let mut out = Matrix::from(1, 1, &vec![fx(10)]).unwrap();
    assert!(out.dot(&lhs, &rhs).is_ok());
    assert_eq!(out.to_vec(), vec![fx(16)]);
}

#[test]
fn add_assign_commutes_on_values() {
    let a0 = Matrix::from(2, 2, &vec![fx(1), fx(-2), fx(3), i64::MAX]).unwrap();
    let b0 = Matrix::from(2, 2, &vec![fx(5), fx(7), fx(-11), fx(13)]).unwrap();
    let mut ab = a0.clone();
    assert!(ab.add_assign(&b0).is_ok());
    let mut ba = b0.clone();
    assert!(ba.add_assign(&a0).is_ok());
    assert_eq!(ab.to_vec(), ba.to_vec());
}

#[test]
fn add_assign_unequal_shapes_fail() {
    let mut a = Matrix::new(2, 2);
    let b = Matrix::new(2, 3);
    assert_eq!(a.add_assign(&b), Err(EngineError::ShapeMismatch));
}

#[test]
fn to_vec_roundtrips_from() {
    let values = vec![fx(1), fx(2), fx(3), fx(4), fx(5), fx(6)];
    let m = Matrix::from(3, 2, &values).unwrap();
    assert_eq!(m.to_vec(), values);
    // a mismatched length is refused
    assert!(Matrix::from(3, 2, &vec![0; 5]).is_err());
}

#[test]
fn row_access_and_bounds() {
    let m = Matrix::from(3, 2, &vec![1, 2, 3, 4, 5, 6]).unwrap();
    assert_eq!(m.row(0).unwrap(), vec![1, 2, 3]);
    assert_eq!(m.row(1).unwrap(), vec![4, 5, 6]);
    assert_eq!(m.row(2), Err(EngineError::IndexOutOfRange));
}

#[test]
fn fill_and_map() {
    let mut m = Matrix::new(2, 2);
    m.fill(fx(3));
    assert_eq!(m.to_vec(), vec![fx(3); 4]);
    m.map(|v: i64| v / 3);
    assert_eq!(m.to_vec(), vec![fx(1); 4]);
}

#[test]
fn shuffle_preserves_elements_and_length() {
    let mut rng = RandomGenerator::new(12345);
    let mut v: Vec<u64> = (0..10).collect();
    shuffle(&mut rng, &mut v);
    assert_eq!(v.len(), 10);
    let mut sorted = v.clone();
    sorted.sort();
    assert_eq!(sorted, (0..10).collect::<Vec<u64>>());
}

#[test]
fn shuffle_of_empty_and_single_is_noop() {
    let mut rng = RandomGenerator::new(7);
    let mut empty: Vec<u64> = vec![];
    shuffle(&mut rng, &mut empty);
    assert!(empty.is_empty());
    let mut one: Vec<u64> = vec![42];
    shuffle(&mut rng, &mut one);
    assert_eq!(one, vec![42]);
}

#[test]
fn shuffle_matches_generator_reference_sequence() {
    // replay the generator's own draws to predict every swap
    let seed: u128 = 0xfeed_beef;
    let mut reference = RandomGenerator::new(seed);
    let mut expected: Vec<u64> = (0..10).collect();
    for i in (1..expected.len()).rev() {
        let draw = reference.rand();
        let j = ((draw & 0xffff_ffff) as usize) % i;
        expected.swap(j, i);
    }
    let mut rng = RandomGenerator::new(seed);
    let mut v: Vec<u64> = (0..10).collect();
    shuffle(&mut rng, &mut v);
    assert_eq!(v, expected);
    let mut sorted = v.clone();
    sorted.sort();
    assert_eq!(sorted, (0..10).collect::<Vec<u64>>());
}

#[test]
fn generator_is_deterministic_for_a_seed() {
    let mut a = RandomGenerator::new(99);
    let mut b = RandomGenerator::new(99);
    for _ in 0..16 {
        assert_eq!(a.rand(), b.rand());
    }
}

#[test]
fn forward_pass_is_deterministic() {
    let mut rng = RandomGenerator::new(2024);
    let mut net = Neuron::new(2);
    net.push_layer(3, Activation::LeakyRelu, &mut rng);
    net.push_layer(1, Activation::Identity, &mut rng);
    let input = vec![fx(1), fx(-2)];
    assert!(net.run(&input).is_ok());
    let first = net.result();
    for _ in 0..3 {
        assert!(net.run(&input).is_ok());
        assert_eq!(net.result(), first);
    }
}

#[test]
fn run_rejects_wrong_input_length() {
    let mut rng = RandomGenerator::new(1);
    let mut net = Neuron::new(2);
    net.push_layer(1, Activation::Identity, &mut rng);
    assert_eq!(net.run(&vec![fx(1)]), Err(EngineError::ShapeMismatch));
}

#[test]
fn push_target_rejects_wrong_lengths() {
    let mut rng = RandomGenerator::new(1);
    let mut net = Neuron::new(2);
    net.push_layer(1, Activation::Identity, &mut rng);
    assert_eq!(
        net.push_target(&vec![fx(1)], &vec![fx(0)]),
        Err(EngineError::ShapeMismatch)
    );
    assert_eq!(
        net.push_target(&vec![fx(1), fx(0)], &vec![fx(0), fx(1)]),
        Err(EngineError::ShapeMismatch)
    );
    assert!(net.push_target(&vec![fx(1), fx(0)], &vec![fx(0)]).is_ok());
}

#[test]
fn identity_forward_pass_computes_exact_values() {
    // a single identity layer computes w*x + b exactly
    let mut rng = RandomGenerator::new(5);
    let mut net = Neuron::new(1);
    net.push_layer(1, Activation::Identity, &mut rng);
    // the layer's weight and bias are random; feeding zero returns the bias,
    // and linearity pins the weight from one more probe
    assert!(net.run(&vec![0]).is_ok());
    let b = net.result()[0];
    assert!(net.run(&vec![fx(1)]).is_ok());
    let wb = net.result()[0];
    let w = fx_sub(wb, b);
    assert!(net.run(&vec![fx(2)]).is_ok());
    let expect = fx_add(fx_add(fx_mul(w, fx(2)), b), 0);
    assert_eq!(net.result()[0], expect);
}

#[test]
fn one_epoch_reduces_loss_on_a_single_sample() {
    // one linear neuron on one sample: the loss never grows after an epoch
    // at a small rate, and shrinks strictly when the gradient is non-zero
    let mut rng = RandomGenerator::new(31337);
    let mut net = Neuron::new(1);
    net.push_layer(1, Activation::Identity, &mut rng);
    net.push_target(&vec![fx(1)], &vec![0]).unwrap();
    net.run(&vec![fx(1)]).unwrap();
    let before = net.result()[0];
    let loss_before = fx_mul(before, before);
    net.learn(1, FX_ONE / 4);
    net.run(&vec![fx(1)]).unwrap();
    let after = net.result()[0];
    let loss_after = fx_mul(after, after);
    if loss_before == 0 {
        assert_eq!(loss_after, 0);
    } else {
        assert!(loss_after < loss_before);
    }
}

#[test]
fn training_moves_output_toward_target() {
    // y = w*x + b with identity activation trained on x=1 -> 0: each epoch
    // halves the error at rate one quarter, so a few epochs shrink it a lot
    let mut rng = RandomGenerator::new(2718);
    let mut net = Neuron::new(1);
    net.push_layer(1, Activation::Identity, &mut rng);
    net.push_target(&vec![fx(1)], &vec![0]).unwrap();
    net.run(&vec![fx(1)]).unwrap();
    let before = net.result()[0].abs();
    net.learn(20, FX_ONE / 4);
    net.run(&vec![fx(1)]).unwrap();
    let after = net.result()[0].abs();
    assert!(after <= before);
    assert!(after < FX_ONE / 10);
}
