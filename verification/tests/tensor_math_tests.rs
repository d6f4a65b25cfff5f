use leaf::layer::{abs_loss_backward, abs_sum_loss, linear_backward_input, linear_forward, linear_weight_gradient, relu_backward, relu_forward};
use leaf::math::{dot_strided, scale_combine, sub_pairwise};
use leaf::solvers::Momentum;
use leaf::tensor::{count_of_shape, Tensor};
use leaf::weight::FillerType;

#[test]
fn tensor_construction_and_fill() {
    let t = Tensor::new(&vec![2, 3]).unwrap();
    assert_eq!(t.size(), 6);
    assert_eq!(t.shape, vec![2, 3]);
    assert!(t.data.iter().all(|v| *v == 0));
    let mut t = Tensor::from_values(&vec![2], vec![4, 5]).unwrap();
    assert_eq!(t.get(1), 5);
    t.put(0, 9);
    assert_eq!(t.data, vec![9, 5]);
    t.fill(7);
    assert_eq!(t.data, vec![7, 7]);
    assert!(Tensor::from_values(&vec![3], vec![1]).is_none());
    // a scalar: the empty shape holds one element
    assert_eq!(count_of_shape(&vec![]), Some(1));
    assert_eq!(count_of_shape(&vec![usize::MAX, 2]), None);
    assert_eq!(count_of_shape(&vec![0, 7]), Some(0));
}

#[test]
fn filler_writes_the_constant() {
    let mut t = Tensor::new(&vec![4]).unwrap();
    FillerType::Constant { value: -3 }.fill(&mut t);
    assert_eq!(t.data, vec![-3, -3, -3, -3]);
}

#[test]
fn dot_and_elementwise_kernels() {
    // strided dot: rows of [1,2,3;4,5,6] against [1,1,1]
    let a = vec![1, 2, 3, 4, 5, 6];
    let ones = vec![1, 1, 1];
    assert_eq!(dot_strided(&a, 0, 1, &ones, 0, 1, 3), 6);
    assert_eq!(dot_strided(&a, 3, 1, &ones, 0, 1, 3), 15);
    // a column: stride equals the row width
    assert_eq!(dot_strided(&a, 1, 3, &ones, 0, 1, 2), 7);
    assert_eq!(sub_pairwise(&vec![5, 0, -2], &vec![1, 4, -2]), vec![4, -4, 0]);
    assert_eq!(scale_combine(2, &vec![1, 2], 10, &vec![3, 4]), vec![32, 44]);
    // wrapping is exact, not saturating
    assert_eq!(sub_pairwise(&vec![i64::MIN], &vec![1]), vec![i64::MAX]);
}

#[test]
fn linear_kernels_match_the_formulas() {
    // W = [[1,2],[3,4],[5,6]] (3x2), x = [[10,100]] (1x2)
    let w = vec![1, 2, 3, 4, 5, 6];
    let x = vec![10, 100];
    let y = linear_forward(&w, &x, 1, 2, 3);
    assert_eq!(y, vec![210, 430, 650]);
    // gradient flowing back through the same weights
    let gy = vec![1, 0, -1];
    let gx = linear_backward_input(&w, &gy, 1, 2, 3);
    assert_eq!(gx, vec![1 - 5, 2 - 6]);
    // accumulated weight gradient: starts from the old gradient
    let gw0 = vec![1, 1, 1, 1, 1, 1];
    let gw = linear_weight_gradient(&gw0, &gy, &x, 1, 2, 3);
    assert_eq!(gw, vec![11, 101, 1, 1, -9, -99]);
}

#[test]
fn rectifier_and_loss_kernels() {
    assert_eq!(relu_forward(&vec![-2, 0, 3]), vec![0, 0, 3]);
    assert_eq!(relu_backward(&vec![0, 0, 3], &vec![7, 8, 9]), vec![0, 0, 9]);
    assert_eq!(abs_sum_loss(&vec![4, -1], &vec![1, 1]), 5);
    assert_eq!(abs_loss_backward(&vec![4, -1, 1], &vec![1, 1, 1]), vec![1, -1, 0]);
}

#[test]
fn momentum_blends_history_into_the_gradient() {
    let mut solver = Momentum::new();
    solver.push_history(Tensor::from_values(&vec![2], vec![10, -10]).unwrap());
    let mut grad = Tensor::from_values(&vec![2], vec![1, 2]).unwrap();
    // local_lr = 3 * 2 = 6; new history = 6*g + 4*h
    solver.compute_update_value(4, &mut grad, 0, 3, 2);
    assert_eq!(grad.data, vec![6 + 40, 12 - 40]);
    assert_eq!(solver.history[0].data, vec![46, -28]);
    // a second step keeps blending
    solver.compute_update_value(1, &mut grad, 0, 1, 1);
    assert_eq!(grad.data, vec![46 + 46, -28 - 28]);
}
