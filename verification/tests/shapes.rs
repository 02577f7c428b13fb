use zkfl::inference::{
    matrix_from_u64, scalars_from_u64, tensor3_from_u64, tensor4_from_u64, CounterUpdate,
    InferenceCircuit, InferenceIteration, ModelWeight,
};
use zkfl::layers::{conv_ok, dense_ok, pad_ok, planes_cover_exec, pool_ok};

fn model(w1: Vec<Vec<Vec<Vec<u64>>>>, b1: Vec<u64>) -> ModelWeight {
    ModelWeight::new(
        &w1,
        &vec![vec![vec![vec![1, 1], vec![1, 1]]]],
        &vec![vec![2]],
        &vec![vec![1], vec![3]],
        &b1,
        &vec![0],
        &vec![1],
        &vec![0, u64::MAX - 525],
    )
}

fn good_w1() -> Vec<Vec<Vec<Vec<u64>>>> {
    vec![vec![vec![vec![1, 2, 3], vec![4, 5, 6], vec![7, 8, 9]]]]
}

#[test]
fn pad_ok_cases() {
    assert!(pad_ok(&tensor3_from_u64(&vec![vec![vec![1, 2], vec![3, 4]]])));
    assert!(!pad_ok(&tensor3_from_u64(&vec![])));
    assert!(!pad_ok(&tensor3_from_u64(&vec![vec![]])));
    // A first row with no columns is fine: the planes are then 2 wide.
    assert!(pad_ok(&tensor3_from_u64(&vec![vec![vec![]]])));
    // A second plane with fewer rows than the first.
    assert!(!pad_ok(&tensor3_from_u64(&vec![vec![vec![1], vec![2]], vec![vec![3]]])));
    // A short row in a later plane.
    assert!(!pad_ok(&tensor3_from_u64(&vec![vec![vec![1, 2]], vec![vec![3]]])));
}

#[test]
fn planes_cover_cases() {
    let x = tensor3_from_u64(&vec![vec![vec![1, 2, 3], vec![4, 5]], vec![vec![6]]]);
    assert!(planes_cover_exec(&x, 1, 2, 2));
    assert!(!planes_cover_exec(&x, 1, 2, 3));
    assert!(!planes_cover_exec(&x, 2, 1, 2));
    assert!(planes_cover_exec(&x, 0, 9, 9));
}

#[test]
fn conv_ok_cases() {
    let x = tensor3_from_u64(&vec![vec![vec![0; 4]; 4]]);
    let b = scalars_from_u64(&vec![0]);
    assert!(conv_ok(&x, &tensor4_from_u64(&good_w1()), &b));
    // Kernel larger than the input.
    assert!(!conv_ok(&x, &tensor4_from_u64(&vec![vec![vec![vec![0; 5]; 5]]]), &b));
    // No bias for the kernel.
    assert!(!conv_ok(&x, &tensor4_from_u64(&good_w1()), &scalars_from_u64(&vec![])));
    // No kernel, or a kernel without planes.
    assert!(!conv_ok(&x, &tensor4_from_u64(&vec![]), &b));
    assert!(!conv_ok(&x, &tensor4_from_u64(&vec![vec![]]), &b));
    // A kernel deeper than the input.
    assert!(!conv_ok(&x, &tensor4_from_u64(&vec![vec![vec![vec![0; 3]; 3]; 2]]), &b));
    // A second kernel narrower than the first.
    let w = tensor4_from_u64(&vec![vec![vec![vec![0; 3]; 3]], vec![vec![vec![0; 2]; 3]]]);
    assert!(!conv_ok(&x, &w, &scalars_from_u64(&vec![0, 0])));
    // A kernel of size 0: the other kernels are never read.
    let w = tensor4_from_u64(&vec![vec![vec![]], vec![]]);
    assert!(conv_ok(&x, &w, &scalars_from_u64(&vec![0, 0])));
}

#[test]
fn pool_ok_cases() {
    assert!(pool_ok(&tensor3_from_u64(&vec![vec![vec![0; 2]; 2]])));
    assert!(!pool_ok(&tensor3_from_u64(&vec![vec![vec![0; 1]; 1]])));
    assert!(!pool_ok(&tensor3_from_u64(&vec![vec![vec![0; 1]; 2]])));
}

#[test]
fn dense_ok_cases() {
    let x = scalars_from_u64(&vec![1, 2]);
    assert!(dense_ok(&x, &matrix_from_u64(&vec![vec![1, 2], vec![3]]), &scalars_from_u64(&vec![0, 0])));
    assert!(!dense_ok(&x, &matrix_from_u64(&vec![vec![1, 2, 3]]), &scalars_from_u64(&vec![0])));
    assert!(!dense_ok(&x, &matrix_from_u64(&vec![vec![1]]), &scalars_from_u64(&vec![])));
}

#[test]
fn try_synthesize_on_a_fitting_network() {
    let c = InferenceCircuit::new(
        InferenceIteration::new(&vec![vec![vec![1, 2], vec![3, 4]]]),
        model(good_w1(), vec![10]),
    );
    assert_eq!(c.try_synthesize(), Some(CounterUpdate::Increment));
}

#[test]
fn try_synthesize_on_a_malformed_network() {
    // The kernel is too large for the padded image.
    let c = InferenceCircuit::new(
        InferenceIteration::new(&vec![vec![vec![1, 2], vec![3, 4]]]),
        model(vec![vec![vec![vec![0; 5]; 5]]], vec![10]),
    );
    assert_eq!(c.try_synthesize(), None);
    // An empty image.
    let c = InferenceCircuit::new(InferenceIteration::new(&vec![]), model(good_w1(), vec![10]));
    assert_eq!(c.try_synthesize(), None);
}
