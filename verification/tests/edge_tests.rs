use gradtape::ops;
use gradtape::store::GradStore;
use gradtape::tensor::{IdGen, Tensor};

fn tensor(data: Vec<i64>, shape: Vec<usize>, gen: &mut IdGen) -> Tensor {
    Tensor::new(data, shape, gen).expect("shape and data agree")
}

#[test]
fn constructor_rejects_mismatched_element_count() {
    let mut gen = IdGen::new();
    assert!(Tensor::new(vec![1, 2], vec![3], &mut gen).is_none());
    assert!(Tensor::new(vec![1, 2, 3, 4], vec![2, 3], &mut gen).is_none());
}

#[test]
fn constructor_rejects_rank_above_four() {
    let mut gen = IdGen::new();
    assert!(Tensor::new(vec![1], vec![1, 1, 1, 1, 1], &mut gen).is_none());
    assert!(Tensor::new(vec![1], vec![1, 1, 1, 1], &mut gen).is_some());
}

#[test]
fn constructor_accepts_zero_sized_dimensions() {
    let mut gen = IdGen::new();
    assert!(Tensor::new(Vec::new(), vec![0, 3], &mut gen).is_some());
    assert!(Tensor::new(vec![1], vec![0, 3], &mut gen).is_none());
}

#[test]
fn identity_tokens_are_unique_and_stable() {
    let mut gen = IdGen::new();
    let a = tensor(vec![1], vec![1], &mut gen);
    let b = tensor(vec![2], vec![1], &mut gen);
    assert_ne!(a.id(), b.id());
    let a_id = a.id();
    let traced = a.trace();
    assert_eq!(traced.id(), a_id);
    let ph = traced.phantom();
    assert_eq!(ph.id, a_id);
    assert_eq!(ph.shape, vec![1]);
}

#[test]
fn split_and_rewrap_keep_the_tape() {
    let mut gen = IdGen::new();
    let a = tensor(vec![1, 2], vec![2], &mut gen);
    let traced = a.trace();
    let (bare, holder) = traced.split_tape_holder();
    let rewrapped = bare.with_tape_holder(holder);
    // The rewrapped scalar-chain still drives a backward pass.
    let s = ops::sum_all(rewrapped, &mut gen).unwrap();
    assert!(ops::backward(s).is_some());
}

#[test]
fn add_overflow_reports_failure() {
    let mut gen = IdGen::new();
    let a = tensor(vec![i64::MAX], vec![1], &mut gen);
    let b = tensor(vec![1], vec![1], &mut gen);
    assert!(ops::add(&a, b.trace(), &mut gen).is_none());
}

#[test]
fn mul_overflow_reports_failure() {
    let mut gen = IdGen::new();
    let a = tensor(vec![i64::MAX], vec![1], &mut gen);
    let b = tensor(vec![2], vec![1], &mut gen);
    assert!(ops::mul(&a, b.trace(), &mut gen).is_none());
}

#[test]
fn sum_overflow_reports_failure() {
    let mut gen = IdGen::new();
    let t = tensor(vec![i64::MAX, 1], vec![2], &mut gen);
    assert!(ops::sum_all(t.trace(), &mut gen).is_none());
}

#[test]
fn backward_overflow_reports_failure() {
    let mut gen = IdGen::new();
    // Forward stays in range, but the fixed operand gathers i64::MAX twice
    // during the backward pass.
    let a = tensor(vec![1], vec![1], &mut gen);
    let x = tensor(vec![i64::MAX], vec![1], &mut gen);
    let t1 = ops::mul(&a, x.trace(), &mut gen).unwrap();
    assert_eq!(t1.data(), &vec![i64::MAX]);
    let t2 = ops::mul(&a, t1, &mut gen).unwrap();
    assert_eq!(t2.data(), &vec![i64::MAX]);
    let s = ops::sum_all(t2, &mut gen).unwrap();
    assert!(ops::backward(s).is_none());
}

#[test]
fn backward_requires_an_attached_tape() {
    let mut gen = IdGen::new();
    let t = tensor(vec![1, 2], vec![2], &mut gen);
    // Without a trace the sum stays detached, so there is nothing to drain.
    let s = ops::sum_all(t, &mut gen).unwrap();
    assert_eq!(s.data(), &vec![3]);
    assert!(ops::backward(s).is_none());
}

#[test]
fn store_reads_zeros_for_an_unseen_identity() {
    let store = GradStore::new();
    assert!(store.gradient_for(7).is_none());
    let zeros = store.read_or_zeros(7, 3).unwrap();
    assert_eq!(zeros, vec![0, 0, 0]);
}

#[test]
fn gradient_for_an_identity_outside_the_graph_is_absent() {
    let mut gen = IdGen::new();
    let a = tensor(vec![1], vec![1], &mut gen);
    let b = tensor(vec![2], vec![1], &mut gen);
    let outsider = tensor(vec![3], vec![1], &mut gen);
    let a_id = a.id();
    let r = ops::add(&a, b.trace(), &mut gen).unwrap();
    let s = ops::sum_all(r, &mut gen).unwrap();
    let grads = ops::backward(s).unwrap();
    assert!(grads.gradient_for(a_id).is_some());
    assert!(grads.gradient_for(outsider.id()).is_none());
}

#[test]
fn detached_operands_record_nothing() {
    let mut gen = IdGen::new();
    // Both operands detached: the forward value is computed, and the result
    // carries no tape.
    let a = tensor(vec![1, 2], vec![2], &mut gen);
    let b = tensor(vec![3, 4], vec![2], &mut gen);
    let r = ops::add(&a, b, &mut gen).unwrap();
    assert_eq!(r.data(), &vec![4, 6]);
    let s = ops::sum_all(r, &mut gen).unwrap();
    assert!(ops::backward(s).is_none());
}
