use bismillah::json_shape::{infer_shape, JsonNode, ShapeError};
use bismillah::nested::nest;
use bismillah::ops::{
    checked_numel, numel, row_width, shape_accepts, AddOp, MatMulOp, ReshapeOp, SumOp, TransposeOp,
};
use bismillah::training::{batch_ranges, num_batches, LossType};

fn array(items: Vec<JsonNode>) -> JsonNode {
    JsonNode::Array(items)
}

fn row(n: usize) -> JsonNode {
    array((0..n).map(|_| JsonNode::Scalar).collect())
}

#[test]
fn batches_partition_the_samples() {
    assert_eq!(num_batches(10, 3), 4);
    assert_eq!(batch_ranges(10, 3), vec![(0, 3), (3, 6), (6, 9), (9, 10)]);
    assert_eq!(batch_ranges(6, 3), vec![(0, 3), (3, 6)]);
    assert_eq!(batch_ranges(2, 5), vec![(0, 2)]);
    assert_eq!(batch_ranges(0, 4), vec![]);
    assert_eq!(num_batches(0, 4), 0);
}

#[test]
fn loss_types_compare() {
    assert_eq!(LossType::MSE, LossType::MSE);
    assert_ne!(LossType::MSE, LossType::CrossEntropy);
}

#[test]
fn element_counts() {
    assert_eq!(numel(&vec![2, 3, 4]), 24);
    assert_eq!(numel(&vec![]), 1);
    assert_eq!(checked_numel(&vec![5, 0, 7]), Some(0));
    assert_eq!(checked_numel(&vec![usize::MAX, 2]), None);
    assert_eq!(checked_numel(&vec![usize::MAX, 0]), Some(0));
}

#[test]
fn shapes_accept_lengths() {
    assert!(shape_accepts(6, &vec![2, 3]));
    assert!(!shape_accepts(5, &vec![2, 3]));
    assert!(shape_accepts(5, &vec![]));
    assert!(!shape_accepts(1, &vec![usize::MAX, 2]));
    let r = ReshapeOp::new(vec![3, 2]);
    assert_eq!(r.new_shape, vec![3, 2]);
    assert!(r.accepts(6));
    assert!(!r.accepts(7));
}

#[test]
fn operation_shapes() {
    assert_eq!(AddOp::output_shape(&vec![2, 3], &vec![2, 3]), Some(vec![2, 3]));
    assert_eq!(AddOp::output_shape(&vec![2, 3], &vec![3]), Some(vec![2, 3]));
    assert_eq!(AddOp::output_shape(&vec![2, 3], &vec![2]), None);
    assert_eq!(MatMulOp::output_shape(&vec![2, 3], &vec![3, 4]), Some(vec![2, 4]));
    assert_eq!(MatMulOp::output_shape(&vec![2, 3], &vec![2, 4]), None);
    assert_eq!(MatMulOp::output_shape(&vec![2, 3, 1], &vec![3, 4]), None);
    assert_eq!(TransposeOp::output_shape(&vec![2, 5]), Some(vec![5, 2]));
    assert_eq!(TransposeOp::output_shape(&vec![2]), None);
    assert_eq!(SumOp::output_shape(), vec![1]);
    assert_eq!(row_width(&vec![4, 3]), Some(3));
    assert_eq!(row_width(&vec![4, 0]), None);
    assert_eq!(row_width(&vec![]), None);
}

#[test]
fn transpose_moves_values() {
    let m = vec![1, 2, 3, 4, 5, 6];
    let t = TransposeOp::transpose_data(&m, 2, 3);
    assert_eq!(t, vec![1, 4, 2, 5, 3, 6]);
    // Transposing twice gives the matrix back.
    assert_eq!(TransposeOp::transpose_data(&t, 3, 2), m);
}

#[test]
fn shapes_of_nested_arrays() {
    let m = array(vec![row(3), row(3)]);
    assert_eq!(infer_shape(&m), Ok(vec![2, 3]));
    assert_eq!(infer_shape(&row(4)), Ok(vec![4]));
    assert_eq!(infer_shape(&array(vec![])), Ok(vec![]));
    let cube = array(vec![array(vec![row(2)]), array(vec![row(2)])]);
    assert_eq!(infer_shape(&cube), Ok(vec![2, 1, 2]));
}

#[test]
fn shape_refusals() {
    let ragged = array(vec![row(3), row(2)]);
    let e = infer_shape(&ragged).unwrap_err();
    assert_eq!(e, ShapeError::Inconsistent);
    assert_eq!(e.message(), "Inconsistent array dimensions.");

    let e = infer_shape(&JsonNode::Scalar).unwrap_err();
    assert_eq!(e, ShapeError::NotArray(0));
    assert_eq!(e.message(), "Invalid JSON: not an array at level 0");

    let mixed = array(vec![row(2), JsonNode::Scalar]);
    let e = infer_shape(&mixed).unwrap_err();
    assert_eq!(e.message(), "Invalid JSON: not an array at level 1");
}

#[test]
fn shapes_only_follow_arrays_from_the_first_item() {
    // The first item is a number, so the others are not looked into.
    let v = array(vec![JsonNode::Scalar, row(5)]);
    assert_eq!(infer_shape(&v), Ok(vec![2]));
    // An empty inner array records nothing at its depth.
    let v = array(vec![array(vec![]), array(vec![])]);
    assert_eq!(infer_shape(&v), Ok(vec![2]));
}

fn written(n: &bismillah::nested::Nested<i32>) -> JsonNode {
    match n {
        bismillah::nested::Nested::Leaf(_) => JsonNode::Scalar,
        bismillah::nested::Nested::List(items) => JsonNode::Array(items.iter().map(written).collect()),
    }
}

fn values(n: &bismillah::nested::Nested<i32>) -> String {
    match n {
        bismillah::nested::Nested::Leaf(x) => x.to_string(),
        bismillah::nested::Nested::List(items) => {
            format!("[{}]", items.iter().map(values).collect::<Vec<_>>().join(","))
        }
    }
}

#[test]
fn tensors_are_written_row_by_row() {
    let data: Vec<i32> = (1..=6).collect();
    assert_eq!(values(&nest(&data, &vec![2, 3], 0)), "[[1,2,3],[4,5,6]]");
    assert_eq!(values(&nest(&data, &vec![3, 2], 0)), "[[1,2],[3,4],[5,6]]");
    assert_eq!(values(&nest(&data, &vec![6], 0)), "[1,2,3,4,5,6]");
    assert_eq!(values(&nest(&data, &vec![1, 2, 3], 0)), "[[[1,2,3],[4,5,6]]]");
    assert_eq!(values(&nest(&data, &vec![], 0)), "1");
    assert_eq!(values(&nest(&data, &vec![2, 0], 0)), "1");
    assert_eq!(values(&nest(&Vec::new(), &vec![0], 7)), "7");
}

#[test]
fn written_tensors_read_back_with_their_shape() {
    let data: Vec<i32> = (0..24).collect();
    for shape in [vec![24], vec![4, 6], vec![2, 3, 4], vec![1, 1, 24], vec![2, 2, 2, 3]] {
        let node = written(&nest(&data, &shape, 0));
        assert_eq!(infer_shape(&node), Ok(shape.clone()));
    }
}

#[test]
fn short_last_runs_are_kept() {
    // Five values cut into runs of two.
    let data: Vec<i32> = (1..=5).collect();
    assert_eq!(values(&nest(&data, &vec![3, 2], 0)), "[[1,2],[3,4],[5]]");
}

#[test]
fn batches_with_sizes_near_the_limit() {
    assert_eq!(batch_ranges(5, usize::MAX), vec![(0, 5)]);
    assert_eq!(num_batches(5, usize::MAX), 1);
    assert_eq!(num_batches(usize::MAX, 2), usize::MAX / 2 + 1);
    assert_eq!(num_batches(usize::MAX, usize::MAX), 1);
    assert_eq!(num_batches(usize::MAX, 1), usize::MAX);
}
