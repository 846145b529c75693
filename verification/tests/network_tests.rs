use ds210::network::{
    argmax, count_matches, dot_shape, elementwise_shape, one_hot, transpose_shape,
    validate_config, NetworkError, Shape,
};

#[test]
fn dot_shape_round_trips_through_transpose_and_identity() {
    // The law proved in the library, checked here on concrete shapes:
    // (4x3 times 3x7) transposed, times the 4x4 identity, is 7x4.
    let a = Shape { rows: 4, cols: 3 };
    let b = Shape { rows: 3, cols: 7 };
    let ab = dot_shape(a, b).unwrap();
    assert_eq!(ab, Shape { rows: 4, cols: 7 });
    let t = transpose_shape(ab);
    let identity = Shape { rows: 4, cols: 4 };
    let back = dot_shape(t, identity).unwrap();
    assert_eq!(back, Shape { rows: 7, cols: 4 });
}

#[test]
fn mismatched_shapes_are_rejected() {
    let a = Shape { rows: 2, cols: 3 };
    let b = Shape { rows: 4, cols: 2 };
    assert_eq!(dot_shape(a, b), Err(NetworkError::ShapeMismatch));
    assert_eq!(elementwise_shape(a, b), Err(NetworkError::ShapeMismatch));
    assert_eq!(elementwise_shape(a, a), Ok(a));
}

#[test]
fn zero_sized_layers_are_an_invalid_configuration() {
    assert_eq!(validate_config(784, 512, 256, 10, true), Ok(()));
    assert_eq!(
        validate_config(784, 0, 256, 10, true),
        Err(NetworkError::InvalidConfiguration)
    );
    assert_eq!(
        validate_config(784, 512, 256, 10, false),
        Err(NetworkError::InvalidConfiguration)
    );
}

#[test]
fn argmax_breaks_ties_to_the_lowest_index() {
    let keys = vec![3u64, 9, 9, 1, 9];
    assert_eq!(argmax(&keys), 1);
    let all_equal = vec![5u64, 5, 5];
    assert_eq!(argmax(&all_equal), 0);
    let single = vec![8u64];
    assert_eq!(argmax(&single), 0);
}

#[test]
fn one_hot_rows_have_a_single_one() {
    let row = one_hot(3, 10).unwrap();
    assert_eq!(row.len(), 10);
    for (i, v) in row.iter().enumerate() {
        assert_eq!(*v, if i == 3 { 1 } else { 0 });
    }
    assert_eq!(one_hot(10, 10), Err(NetworkError::ShapeMismatch));
}

#[test]
fn count_matches_counts_agreements() {
    let predicted = vec![1usize, 2, 3, 4];
    let actual = vec![1usize, 0, 3, 0];
    assert_eq!(count_matches(&predicted, &actual), 2);
    let empty: Vec<usize> = vec![];
    assert_eq!(count_matches(&empty, &empty), 0);
}
