use natural_control::agents::{nearest, Entity, EntityType};
use natural_control::geometry::{Point, Rect};
use natural_control::quadtree::Entry;
use natural_control::steering::{isqrt, sensitivity, steer, turn_amount, wrap};

#[test]
fn integer_square_roots() {
    assert_eq!(isqrt(0), 0);
    assert_eq!(isqrt(1), 1);
    assert_eq!(isqrt(15), 3);
    assert_eq!(isqrt(16), 4);
    assert_eq!(isqrt(64_000_000), 8000);
    assert_eq!(isqrt(u128::MAX), u64::MAX);
}

#[test]
fn sensitivity_grows_with_food() {
    assert_eq!(sensitivity(0), 1000);
    assert_eq!(sensitivity(1), 1000);
    assert_eq!(sensitivity(4), 8000);
    assert_eq!(sensitivity(2), 2828);
}

#[test]
fn turn_amount_formula() {
    // ten world units away: a tenth of a radian
    assert_eq!(turn_amount(10_000 * 10_000, 0), 100_000);
    // two world units away: half a radian
    assert_eq!(turn_amount(2_000 * 2_000, 0), 500_000);
    assert_eq!(turn_amount(0, 0), 0);
}

#[test]
fn diminishing_sensitivity_example() {
    let fresh = turn_amount(10_000 * 10_000, 0);
    let fed = turn_amount(10_000 * 10_000, 4);
    assert_eq!(fed, 12_500);
    assert!(fresh > fed);
    assert!(turn_amount(100_000 * 100_000, 0) > turn_amount(100_000 * 100_000, 4));
}

#[test]
fn steer_picks_the_shorter_side() {
    let east = Point { x: 1000, y: 0 };
    assert_eq!(steer(&east, &Point { x: 10, y: 0 }), 1);
    assert_eq!(steer(&east, &Point { x: -10, y: 0 }), -1);
    assert_eq!(steer(&east, &Point { x: 0, y: 5 }), 1);
    assert_eq!(steer(&east, &Point { x: 0, y: -5 }), -1);
    assert_eq!(steer(&east, &Point { x: -10, y: 1 }), 1);
}

#[test]
fn wrap_is_euclidean() {
    assert_eq!(wrap(800_500, 800_000), 500);
    assert_eq!(wrap(-1, 800_000), 799_999);
    assert_eq!(wrap(-800_000, 800_000), 0);
    assert_eq!(wrap(1_600_001, 800_000), 1);
    assert_eq!(wrap(42, 800_000), 42);
}

#[test]
fn agent_wraps_at_the_right_edge() {
    let mut e = Entity::new(799_500, 400_000, EntityType::Prey, 0, Point { x: 1000, y: 0 }, 0, 0);
    e.advance(Point { x: 1000, y: 0 }, Rect::new(0, 0, 800_000, 800_000));
    assert_eq!(e.pos, Point { x: 500, y: 400_000 });
}

#[test]
fn nearest_takes_three_closest_in_order() {
    let origin = Point { x: 0, y: 0 };
    let cands = vec![
        Entry { pos: Point { x: 50, y: 0 }, id: 0 },
        Entry { pos: Point { x: 10, y: 0 }, id: 1 },
        Entry { pos: Point { x: 0, y: 30 }, id: 2 },
        Entry { pos: Point { x: 20, y: 0 }, id: 3 },
        Entry { pos: Point { x: 0, y: -40 }, id: 4 },
    ];
    assert_eq!(nearest(&origin, &cands), vec![1, 3, 2]);
    assert_eq!(nearest(&origin, &cands[..2].to_vec()), vec![1, 0]);
    assert_eq!(nearest(&origin, &Vec::new()), Vec::<usize>::new());
}
