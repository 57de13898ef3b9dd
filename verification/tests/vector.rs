use life_sim::fixed::ONE;
use life_sim::vector::Vector;

fn v(x: i64, y: i64) -> Vector {
    Vector::new(x * ONE, y * ONE)
}

#[test]
fn sum_and_difference_are_componentwise() {
    assert_eq!(v(1, 2).add(v(3, -5)), v(4, -3));
    assert_eq!(v(1, 2).sub(v(3, -5)), v(-2, 7));
}

#[test]
fn sum_saturates_at_the_end_of_the_range() {
    let far = Vector::new(i64::MAX, i64::MIN);
    assert_eq!(far.add(Vector::new(1, -1)), far);
}

#[test]
fn length_of_three_four_is_five() {
    assert_eq!(v(3, 4).length(), 5 * ONE);
    assert_eq!(v(0, 0).length(), 0);
    assert_eq!(v(-3, -4).length(), 5 * ONE);
}

#[test]
fn length_rounds_down() {
    // the square root of two is 1.41421356...
    assert_eq!(v(1, 1).length(), 1_414_213);
}

#[test]
fn length_of_the_longest_vector_saturates() {
    assert_eq!(Vector::new(i64::MIN, i64::MIN).length(), i64::MAX);
    assert_eq!(Vector::new(i64::MIN, i64::MIN).distance(Vector::new(i64::MAX, i64::MAX)), i64::MAX);
}

#[test]
fn distance_is_the_length_of_the_difference() {
    assert_eq!(v(70, 70).distance(v(10, 10)), 84_852_813);
    assert_eq!(v(0, 0).distance(v(50, 0)), 50 * ONE);
}

#[test]
fn unit_vector_keeps_the_direction() {
    assert_eq!(v(3, 4).normalize_or_zero(), Vector::new(600_000, 800_000));
    assert_eq!(v(-10, 0).normalize_or_zero(), Vector::new(-ONE, 0));
}

#[test]
fn zero_has_no_direction() {
    assert_eq!(v(0, 0).normalize_or_zero(), Vector::zero());
}

#[test]
fn scale_multiplies_each_component() {
    assert_eq!(v(3, -4).scale(ONE / 2), Vector::new(1_500_000, -2_000_000));
}

#[test]
fn dot_product_of_perpendicular_vectors_is_zero() {
    assert_eq!(v(1, 0).dot(v(0, 1)), 0);
    assert_eq!(v(2, 3).dot(v(4, 5)), 23 * ONE);
    assert_eq!(v(2, 3).dot(v(-4, 5)), 7 * ONE);
}

#[test]
fn perp_is_a_quarter_turn_to_the_left() {
    assert_eq!(v(1, 0).perp(), v(0, 1));
    assert_eq!(v(0, 1).perp(), v(-1, 0));
    assert_eq!(v(1, 0).neg(), v(-1, 0));
}

#[test]
fn a_direction_is_never_longer_than_one() {
    for (x, y) in [(1, 1), (1, 2), (-7, 3), (999_999, -999_999), (1, 0), (123_456, 654_321)] {
        let u = Vector::new(x, y).normalize_or_zero();
        let square = u.x as i128 * u.x as i128 + u.y as i128 * u.y as i128;
        assert!(square <= ONE as i128 * ONE as i128, "({x}, {y})");
        // a vector of a few millionths has a direction that is coarse, a longer one not
        if x > 100_000 {
            assert!(square >= (ONE as i128 - 20) * (ONE as i128 - 20), "({x}, {y})");
        }
    }
    assert_eq!(Vector::new(1, 1).normalize_or_zero(), Vector::new(500_000, 500_000));
    assert_eq!(v(1, 1).normalize_or_zero(), Vector::new(707_106, 707_106));
}
