use kaizensim::point::Point;

#[test]
fn signum_takes_the_sign_of_each_coordinate() {
    assert_eq!(Point { x: 7, y: -3 }.signum(), Point { x: 1, y: -1 });
    assert_eq!(Point { x: 0, y: 0 }.signum(), Point { x: 0, y: 0 });
    assert_eq!(Point { x: i32::MIN, y: i32::MAX }.signum(), Point { x: -1, y: 1 });
}

#[test]
fn sum_adds_the_coordinates() {
    assert_eq!(Point { x: 3, y: 4 }.sum(), 7);
    assert_eq!(Point { x: 0, y: -9 }.sum(), -9);
    assert_eq!(Point { x: i32::MAX, y: i32::MIN }.sum(), -1);
}

#[test]
fn only_the_zero_vector_is_empty() {
    assert!(Point { x: 0, y: 0 }.is_empty());
    assert!(!Point { x: 0, y: 1 }.is_empty());
    assert!(!Point { x: -1, y: 0 }.is_empty());
}

#[test]
fn a_line_has_no_extent_along_one_axis() {
    assert!(Point { x: 0, y: 0 }.is_line());
    assert!(Point { x: 0, y: 5 }.is_line());
    assert!(Point { x: -5, y: 0 }.is_line());
    assert!(!Point { x: 1, y: 1 }.is_line());
}

#[test]
fn rotated_turns_by_a_quarter() {
    assert_eq!(Point { x: 1, y: 0 }.rotated(), Point { x: 0, y: 1 });
    assert_eq!(Point { x: 0, y: 1 }.rotated(), Point { x: -1, y: 0 });
    assert_eq!(Point { x: 3, y: -4 }.rotated(), Point { x: 4, y: 3 });
}

#[test]
fn four_quarter_turns_give_the_vector_back() {
    let p = Point { x: 12, y: -7 };
    assert_eq!(p.rotated().rotated().rotated().rotated(), p);
    assert_eq!(p.rotated().rotated(), p * -1);
}

#[test]
fn zero_and_default_are_the_origin() {
    assert_eq!(Point::zero(), Point { x: 0, y: 0 });
    assert_eq!(Point::default(), Point { x: 0, y: 0 });
}

#[test]
fn vectors_add_and_subtract_by_coordinate() {
    let a = Point { x: 1, y: 2 };
    let b = Point { x: 10, y: -20 };
    assert_eq!(a + b, Point { x: 11, y: -18 });
    assert_eq!(a - b, Point { x: -9, y: 22 });
    assert_eq!((a + b) - b, a);
}

#[test]
fn vectors_scale_by_an_integer() {
    assert_eq!(Point { x: 3, y: -4 } * 5, Point { x: 15, y: -20 });
    assert_eq!(Point { x: 3, y: -4 } * 0, Point { x: 0, y: 0 });
}

#[test]
fn assignment_operators_change_in_place() {
    let mut p = Point { x: 1, y: 2 };
    p += Point { x: 4, y: 5 };
    assert_eq!(p, Point { x: 5, y: 7 });
    p -= Point { x: 10, y: 1 };
    assert_eq!(p, Point { x: -5, y: 6 });
}

#[test]
fn points_compare_by_their_coordinates() {
    assert_eq!(Point { x: 1, y: 2 }, Point { x: 1, y: 2 });
    assert_ne!(Point { x: 1, y: 2 }, Point { x: 2, y: 1 });
    assert!(Point { x: 1, y: 9 } < Point { x: 2, y: 0 });
    assert!(Point { x: 1, y: 1 } < Point { x: 1, y: 2 });
}
