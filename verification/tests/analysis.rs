use beatmap::analysis::{
    absolute_to_sequential, find_timescale, round_even, tally_steps, Circle, Point, Time,
};
use std::collections::BTreeMap;

#[test]
fn points_and_times() {
    let a = Point { x: 3, y: -4 };
    let b = Point { x: 10, y: 20 };
    assert_eq!(a.add(b), Point { x: 13, y: 16 });
    assert_eq!(a.sub(b), Point { x: -7, y: -24 });
    let t = Time { milliseconds: 1500 };
    assert_eq!(t.ms(), 1500);
    assert_eq!(t.add(Time { milliseconds: 500 }).ms(), 2000);
    assert_eq!(t.sub(Time { milliseconds: 500 }).ms(), 1000);
}

#[test]
fn rounding_down_to_even() {
    for (x, r) in [(0, 0), (1, 0), (2, 2), (3, 2), (-1, -2), (-2, -2), (-3, -4), (7, 6)] {
        assert_eq!(round_even(x), r);
    }
    assert_eq!(round_even(i64::MIN), i64::MIN);
    assert_eq!(round_even(i64::MAX), i64::MAX - 1);
}

#[test]
fn steps_between_neighbours() {
    let circles =
        vec![Circle::new(10, 20, 100), Circle::new(15, 18, 250), Circle::new(15, 30, 400)];
    assert_eq!(
        absolute_to_sequential(&circles),
        vec![
            Circle { x: 10, y: 20, ms: 100 },
            Circle { x: 0, y: 0, ms: 0 },
            Circle { x: 5, y: -2, ms: 150 },
            Circle { x: 0, y: 12, ms: 150 },
        ]
    );
    let one = vec![Circle::new(1, 2, 3)];
    assert_eq!(absolute_to_sequential(&one), vec![Circle::new(1, 2, 3), Circle::new(0, 0, 0)]);
    assert_eq!(Circle::new(1, 2, 3).add(Circle::new(4, 5, 6)), Circle::new(5, 7, 9));
    assert_eq!(Circle::new(1, 2, 3).sub(Circle::new(4, 5, 6)), Circle::new(-3, -3, -3));
}

#[test]
fn the_most_common_step() {
    let steps = |ms: &[i64]| ms.iter().map(|m| Circle::new(0, 0, *m)).collect::<Vec<Circle>>();
    assert_eq!(find_timescale(&steps(&[150])), 150);
    assert_eq!(find_timescale(&steps(&[151])), 150);
    assert_eq!(find_timescale(&steps(&[100, 150, 151, 300])), 150);
    // Of equally common steps, the largest.
    assert_eq!(find_timescale(&steps(&[100, 300, 200])), 300);
    assert_eq!(find_timescale(&steps(&[300, 100, 100, 301])), 300);
    assert_eq!(find_timescale(&steps(&[-3, -4, 7])), -4);
}

#[test]
fn the_tally_of_steps() {
    let steps = |ms: &[i64]| ms.iter().map(|m| Circle::new(0, 0, *m)).collect::<Vec<Circle>>();
    let tally = tally_steps(&steps(&[100, 150, 151, 300, -1, -2]));
    let expected: BTreeMap<i64, usize> = [(-2, 2), (100, 1), (150, 2), (300, 1)].into_iter().collect();
    assert_eq!(tally, expected);
    assert!(tally_steps(&steps(&[])).is_empty());
    assert_eq!(find_timescale(&steps(&[100, 150, 151, 300, -1, -2])), 150);
}
