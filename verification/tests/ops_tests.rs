use gradtape::ops;
use gradtape::tensor::{IdGen, Tensor};

fn tensor(data: Vec<i64>, shape: Vec<usize>, gen: &mut IdGen) -> Tensor {
    Tensor::new(data, shape, gen).expect("shape and data agree")
}

#[test]
fn add_forward_and_gradients() {
    let mut gen = IdGen::new();
    let a = tensor(vec![1, 2, 3], vec![3], &mut gen);
    let b = tensor(vec![4, 5, 6], vec![3], &mut gen);
    let a_id = a.id();
    let b_id = b.id();
    let r = ops::add(&a, b.trace(), &mut gen).unwrap();
    assert_eq!(r.data(), &vec![5, 7, 9]);
    let s = ops::sum_all(r, &mut gen).unwrap();
    assert_eq!(s.data(), &vec![21]);
    let grads = ops::backward(s).unwrap();
    let ones = vec![1, 1, 1];
    assert_eq!(grads.gradient_for(a_id), Some(&ones));
    assert_eq!(grads.gradient_for(b_id), Some(&ones));
}

#[test]
fn sub_forward_and_gradients() {
    let mut gen = IdGen::new();
    let a = tensor(vec![10, 20, 30], vec![3], &mut gen);
    let b = tensor(vec![1, 2, 3], vec![3], &mut gen);
    let a_id = a.id();
    let b_id = b.id();
    let r = ops::sub(&a, b.trace(), &mut gen).unwrap();
    assert_eq!(r.data(), &vec![9, 18, 27]);
    let s = ops::sum_all(r, &mut gen).unwrap();
    let grads = ops::backward(s).unwrap();
    let plus = vec![1, 1, 1];
    let minus = vec![-1, -1, -1];
    assert_eq!(grads.gradient_for(a_id), Some(&plus));
    assert_eq!(grads.gradient_for(b_id), Some(&minus));
}

#[test]
fn mul_forward_and_gradients() {
    let mut gen = IdGen::new();
    let a = tensor(vec![2, 3, 4], vec![3], &mut gen);
    let b = tensor(vec![5, 6, 7], vec![3], &mut gen);
    let a_id = a.id();
    let b_id = b.id();
    let r = ops::mul(&a, b.trace(), &mut gen).unwrap();
    assert_eq!(r.data(), &vec![10, 18, 28]);
    let s = ops::sum_all(r, &mut gen).unwrap();
    let grads = ops::backward(s).unwrap();
    // Product rule: each slot receives the other operand's forward value.
    let b_values = vec![5, 6, 7];
    let a_values = vec![2, 3, 4];
    assert_eq!(grads.gradient_for(a_id), Some(&b_values));
    assert_eq!(grads.gradient_for(b_id), Some(&a_values));
}

#[test]
fn matmat_mul_forward_and_gradients() {
    let mut gen = IdGen::new();
    // X is 2x3 (tracked), W is 3x2 (fixed).
    let x = tensor(vec![1, 2, 3, 4, 5, 6], vec![2, 3], &mut gen);
    let w = tensor(vec![1, 2, 3, 4, 5, 6], vec![3, 2], &mut gen);
    let x_id = x.id();
    let w_id = w.id();
    let r = ops::matmat_mul(x.trace(), &w, &mut gen).unwrap();
    assert_eq!(r.data(), &vec![22, 28, 49, 64]);
    let s = ops::sum_all(r, &mut gen).unwrap();
    assert_eq!(s.data(), &vec![163]);
    let grads = ops::backward(s).unwrap();
    // d(sum)/dX broadcasts the row sums of W down the rows of X.
    let x_grad = vec![3, 7, 11, 3, 7, 11];
    // d(sum)/dW broadcasts the column sums of X across the columns of W.
    let w_grad = vec![5, 5, 7, 7, 9, 9];
    assert_eq!(grads.gradient_for(x_id), Some(&x_grad));
    assert_eq!(grads.gradient_for(w_id), Some(&w_grad));
}

/// The value of `sum(X * W)` for the fixed 3x2 weight used below.
fn sum_x_times_w(x_data: Vec<i64>) -> i64 {
    let mut gen = IdGen::new();
    let x = tensor(x_data, vec![2, 3], &mut gen);
    let w = tensor(vec![1, 2, 3, 4, 5, 6], vec![3, 2], &mut gen);
    let r = ops::matmat_mul(x.trace(), &w, &mut gen).unwrap();
    let s = ops::sum_all(r, &mut gen).unwrap();
    s.data()[0]
}

#[test]
fn matmat_mul_gradient_matches_finite_differences() {
    // sum(X * W) is linear in X, so a unit perturbation of one entry of X
    // changes the sum by exactly the gradient entry.
    let base_data = vec![1, 2, 3, 4, 5, 6];
    let base = sum_x_times_w(base_data.clone());

    let mut gen = IdGen::new();
    let x = tensor(base_data.clone(), vec![2, 3], &mut gen);
    let w = tensor(vec![1, 2, 3, 4, 5, 6], vec![3, 2], &mut gen);
    let x_id = x.id();
    let r = ops::matmat_mul(x.trace(), &w, &mut gen).unwrap();
    let s = ops::sum_all(r, &mut gen).unwrap();
    let grads = ops::backward(s).unwrap();
    let x_grad = grads.gradient_for(x_id).unwrap().clone();

    for k in 0..base_data.len() {
        let mut bumped = base_data.clone();
        bumped[k] += 1;
        assert_eq!(sum_x_times_w(bumped) - base, x_grad[k]);
    }
}

#[test]
fn vecmat_mul_forward_and_gradients() {
    let mut gen = IdGen::new();
    let v = tensor(vec![1, 2, 3], vec![3], &mut gen);
    let w = tensor(vec![1, 2, 3, 4, 5, 6], vec![3, 2], &mut gen);
    let v_id = v.id();
    let w_id = w.id();
    let r = ops::vecmat_mul(v.trace(), &w, &mut gen).unwrap();
    assert_eq!(r.data(), &vec![22, 28]);
    let s = ops::sum_all(r, &mut gen).unwrap();
    let grads = ops::backward(s).unwrap();
    let v_grad = vec![3, 7, 11];
    let w_grad = vec![1, 1, 2, 2, 3, 3];
    assert_eq!(grads.gradient_for(v_id), Some(&v_grad));
    assert_eq!(grads.gradient_for(w_id), Some(&w_grad));
}

#[test]
fn broadcast_outer_add_forward_and_gradients() {
    let mut gen = IdGen::new();
    // X is 2x3 (tracked); the bias has length 3 and is added to every row.
    let x = tensor(vec![1, 2, 3, 4, 5, 6], vec![2, 3], &mut gen);
    let bias = tensor(vec![10, 20, 30], vec![3], &mut gen);
    let x_id = x.id();
    let bias_id = bias.id();
    let r = ops::broadcast_outer_add(x.trace(), &bias, &mut gen).unwrap();
    assert_eq!(r.data(), &vec![11, 22, 33, 14, 25, 36]);
    let s = ops::sum_all(r, &mut gen).unwrap();
    let grads = ops::backward(s).unwrap();
    let x_grad = vec![1, 1, 1, 1, 1, 1];
    // One contribution per row: the bias gradient is the row count,
    // independent of the column count.
    let bias_grad = vec![2, 2, 2];
    assert_eq!(grads.gradient_for(x_id), Some(&x_grad));
    assert_eq!(grads.gradient_for(bias_id), Some(&bias_grad));
}

#[test]
fn broadcast_sub_2d_forward_and_gradients() {
    let mut gen = IdGen::new();
    // a is 2x3 (tracked); b holds one value per row, broadcast across the
    // trailing dimension.
    let a = tensor(vec![1, 2, 3, 4, 5, 6], vec![2, 3], &mut gen);
    let b = tensor(vec![1, 2], vec![2], &mut gen);
    let a_id = a.id();
    let b_id = b.id();
    let r = ops::broadcast_sub(a.trace(), &b, &mut gen).unwrap();
    assert_eq!(r.data(), &vec![0, 1, 2, 2, 3, 4]);
    let s = ops::sum_all(r, &mut gen).unwrap();
    let grads = ops::backward(s).unwrap();
    let a_grad = vec![1, 1, 1, 1, 1, 1];
    // Each entry of b influenced three outputs with derivative minus one.
    let b_grad = vec![-3, -3];
    assert_eq!(grads.gradient_for(a_id), Some(&a_grad));
    assert_eq!(grads.gradient_for(b_id), Some(&b_grad));
}

#[test]
fn broadcast_sub_1d_forward_and_gradients() {
    let mut gen = IdGen::new();
    let a = tensor(vec![1, 2, 3], vec![3], &mut gen);
    let b = tensor(vec![1], Vec::new(), &mut gen);
    let a_id = a.id();
    let b_id = b.id();
    let r = ops::broadcast_sub(a.trace(), &b, &mut gen).unwrap();
    assert_eq!(r.data(), &vec![0, 1, 2]);
    let s = ops::sum_all(r, &mut gen).unwrap();
    let grads = ops::backward(s).unwrap();
    let a_grad = vec![1, 1, 1];
    let b_grad = vec![-3];
    assert_eq!(grads.gradient_for(a_id), Some(&a_grad));
    assert_eq!(grads.gradient_for(b_id), Some(&b_grad));
}

#[test]
fn chained_operations_accumulate_into_a_shared_fixed_operand() {
    let mut gen = IdGen::new();
    let a = tensor(vec![100], vec![1], &mut gen);
    let x = tensor(vec![5], vec![1], &mut gen);
    let a_id = a.id();
    let x_id = x.id();
    let t1 = ops::add(&a, x.trace(), &mut gen).unwrap();
    assert_eq!(t1.data(), &vec![105]);
    let t2 = ops::add(&a, t1, &mut gen).unwrap();
    assert_eq!(t2.data(), &vec![205]);
    let s = ops::sum_all(t2, &mut gen).unwrap();
    let grads = ops::backward(s).unwrap();
    // `a` entered twice, so its contributions add up.
    let a_grad = vec![2];
    let x_grad = vec![1];
    assert_eq!(grads.gradient_for(a_id), Some(&a_grad));
    assert_eq!(grads.gradient_for(x_id), Some(&x_grad));
}
