use oicana::geometry::{
    clamp_to_i32, distance, distance_squared, integer_sqrt, is_inside, is_within, offset_by,
    walk_overshoots, walk_reaches, walk_toward,
};
use oicana::map::Coordinate;

fn at(x: i32, y: i32) -> Coordinate {
    Coordinate { x, y }
}

#[test]
fn integer_sqrt_of_small_numbers() {
    assert_eq!(integer_sqrt(0), 0);
    assert_eq!(integer_sqrt(1), 1);
    assert_eq!(integer_sqrt(2), 1);
    assert_eq!(integer_sqrt(3), 1);
    assert_eq!(integer_sqrt(4), 2);
    assert_eq!(integer_sqrt(24), 4);
    assert_eq!(integer_sqrt(25), 5);
    assert_eq!(integer_sqrt(26), 5);
}

#[test]
fn integer_sqrt_at_the_limits() {
    assert_eq!(integer_sqrt(u128::MAX), u64::MAX);
    let root: u128 = 1 << 64;
    assert_eq!(integer_sqrt(root * (root - 2)), u64::MAX - 1);
    assert_eq!(integer_sqrt((u64::MAX as u128) * (u64::MAX as u128)), u64::MAX);
    assert_eq!(integer_sqrt((u64::MAX as u128) * (u64::MAX as u128) - 1), u64::MAX - 1);
}

#[test]
fn integer_sqrt_brackets_its_argument() {
    let mut n: u128 = 0;
    while n < 5000 {
        let r = integer_sqrt(n) as u128;
        assert!(r * r <= n);
        assert!(n < (r + 1) * (r + 1));
        n += 1;
    }
}

#[test]
fn distance_squared_is_pythagoras() {
    assert_eq!(distance_squared(at(0, 0), at(3, 4)), 25);
    assert_eq!(distance_squared(at(-3, -4), at(0, 0)), 25);
    assert_eq!(distance_squared(at(7, 7), at(7, 7)), 0);
}

#[test]
fn distance_squared_spans_the_plane() {
    let d = distance_squared(at(i32::MIN, i32::MIN), at(i32::MAX, i32::MAX));
    let side: u128 = (1u128 << 32) - 1;
    assert_eq!(d, 2 * side * side);
}

#[test]
fn distance_rounds_down() {
    assert_eq!(distance(at(0, 0), at(3, 4)), 5);
    assert_eq!(distance(at(0, 0), at(1, 1)), 1);
    assert_eq!(distance(at(0, 0), at(1000, 1000)), 1414);
}

#[test]
fn reaching_and_overshooting_differ_on_the_exact_step() {
    assert!(walk_reaches(at(0, 0), at(3, 4), 5));
    assert!(!walk_overshoots(at(0, 0), at(3, 4), 5));
    assert!(walk_overshoots(at(0, 0), at(3, 4), 6));
    assert!(!walk_reaches(at(0, 0), at(3, 4), 4));
    assert!(walk_reaches(at(9, 9), at(9, 9), 0));
    assert!(!walk_overshoots(at(9, 9), at(9, 9), 0));
    assert!(walk_reaches(at(i32::MIN, i32::MIN), at(i32::MAX, i32::MAX), u64::MAX));
    assert!(walk_overshoots(at(i32::MIN, i32::MIN), at(i32::MAX, i32::MAX), u64::MAX));
}

#[test]
fn walk_toward_moves_the_fraction_of_each_offset() {
    assert_eq!(walk_toward(at(0, 0), at(3000, 4000), 2500), at(1500, 2000));
    assert_eq!(walk_toward(at(0, 0), at(-3000, -4000), 2500), at(-1500, -2000));
    assert_eq!(walk_toward(at(100, 100), at(100, 1100), 250), at(100, 350));
}

#[test]
fn walk_toward_stops_at_the_goal() {
    assert_eq!(walk_toward(at(0, 0), at(3, 4), 5), at(3, 4));
    assert_eq!(walk_toward(at(0, 0), at(3, 4), 500), at(3, 4));
    assert_eq!(walk_toward(at(5, 5), at(5, 5), 0), at(5, 5));
}

#[test]
fn walk_toward_rounds_towards_the_start() {
    // The length is 1414 rounded down; 1000 * 10 / 1414 is 7 rounded down.
    assert_eq!(walk_toward(at(0, 0), at(1000, 1000), 10), at(7, 7));
    assert_eq!(walk_toward(at(0, 0), at(-1000, 1000), 10), at(-7, 7));
}

#[test]
fn walk_toward_never_leaves_the_box_between_its_ends() {
    let from = at(i32::MIN, i32::MAX);
    let to = at(i32::MAX, i32::MIN);
    let p = walk_toward(from, to, 1 << 32);
    assert!(p.x > from.x && p.x < to.x);
    assert!(p.y < from.y && p.y > to.y);
}

#[test]
fn walk_toward_comes_no_farther_from_the_goal() {
    let to = at(977, -3511);
    let mut p = at(-12345, 6789);
    let mut last = distance_squared(p, to);
    let mut steps = 0;
    while p != to && steps < 10_000 {
        p = walk_toward(p, to, 37);
        let now = distance_squared(p, to);
        assert!(now <= last);
        last = now;
        steps += 1;
    }
    assert_eq!(p, to);
}

#[test]
fn radius_checks_tell_the_rim_apart() {
    assert!(is_within(at(0, 0), at(12_000, 0), 12_000));
    assert!(!is_inside(at(0, 0), at(12_000, 0), 12_000));
    assert!(is_inside(at(0, 0), at(11_999, 0), 12_000));
    assert!(!is_within(at(0, 0), at(12_000, 1), 12_000));
    assert!(is_within(at(4, 4), at(4, 4), 0));
    assert!(!is_inside(at(4, 4), at(4, 4), 0));
}

#[test]
fn offsets_stay_on_the_plane() {
    assert_eq!(offset_by(at(10, 20), -16_000, 16_000), at(-15_990, 16_020));
    assert_eq!(offset_by(at(i32::MAX, i32::MIN), 1, -1), at(i32::MAX, i32::MIN));
    assert_eq!(clamp_to_i32(i64::MAX), i32::MAX);
    assert_eq!(clamp_to_i32(i64::MIN), i32::MIN);
    assert_eq!(clamp_to_i32(-5), -5);
}
