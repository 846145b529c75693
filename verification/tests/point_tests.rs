use ds210::point::Point;

#[test]
fn test_clockwise_rotation() {
    let point = Point { x: 1, y: 2 };
    let expected = Point { x: 2, y: -1 };
    assert_eq!(point.clockwise(), expected);
}

#[test]
fn test_counterclockwise_rotation() {
    let point = Point { x: 3, y: -4 };
    let expected = Point { x: 4, y: 3 };
    assert_eq!(point.counterclockwise(), expected);
}

#[test]
fn test_f32_clockwise_rotation() {
    let point = Point { x: 3.5, y: 2.0 };
    let expected = Point { x: 2.0, y: -3.5 };
    assert_eq!(point.clockwise(), expected);
}

#[test]
fn test_f32_counterclockwise_rotation() {
    let point = Point { x: -1.5, y: 4.0 };
    let expected = Point { x: -4.0, y: -1.5 };
    assert_eq!(point.counterclockwise(), expected);
}

#[test]
fn four_clockwise_rotations_return_home() {
    let point = Point { x: 7, y: -3 };
    let rotated = point.clockwise().clockwise().clockwise().clockwise();
    assert_eq!(rotated, point);
}
