use natural_control::geometry::{Point, Rect};
use natural_control::quadtree::{Entry, QuadTree, QuadTreeChildren};

fn world() -> Rect {
    Rect::new(0, 0, 800_000, 800_000)
}

fn entry(x: i64, y: i64, id: usize) -> Entry {
    Entry { pos: Point { x, y }, id }
}

fn sorted_ids(v: Vec<Entry>) -> Vec<usize> {
    let mut ids: Vec<usize> = v.into_iter().map(|e| e.id).collect();
    ids.sort();
    ids
}

/// A small deterministic generator for scattered positions.
fn scatter(n: usize, seed: u64) -> Vec<Entry> {
    let mut s = seed;
    let mut out = Vec::new();
    for id in 0..n {
        s = s.wrapping_mul(6364136223846793005).wrapping_add(1442695040888963407);
        let x = ((s >> 33) % 800_000) as i64;
        s = s.wrapping_mul(6364136223846793005).wrapping_add(1442695040888963407);
        let y = ((s >> 33) % 800_000) as i64;
        out.push(entry(x, y, id));
    }
    out
}

#[test]
fn rect_contains_is_half_open() {
    let r = Rect::new(10, 20, 5, 5);
    assert!(r.contains(&Point { x: 10, y: 20 }));
    assert!(r.contains(&Point { x: 14, y: 24 }));
    assert!(!r.contains(&Point { x: 15, y: 20 }));
    assert!(!r.contains(&Point { x: 10, y: 25 }));
    assert!(!r.contains(&Point { x: 9, y: 22 }));
}

#[test]
fn rect_touching_edges_intersect() {
    let a = Rect::new(0, 0, 10, 10);
    assert!(a.intersects(&Rect::new(10, 0, 5, 5)));
    assert!(a.intersects(&Rect::new(5, 5, 1, 1)));
    assert!(!a.intersects(&Rect::new(11, 0, 5, 5)));
    assert!(!a.intersects(&Rect::new(0, -20, 5, 5)));
}

#[test]
fn quadrants_tile_the_parent() {
    let (nw, ne, sw, se) = Rect::new(0, 0, 7, 5).quadrants();
    assert_eq!(nw, Rect::new(0, 0, 3, 2));
    assert_eq!(ne, Rect::new(3, 0, 4, 2));
    assert_eq!(sw, Rect::new(0, 2, 3, 3));
    assert_eq!(se, Rect::new(3, 2, 4, 3));
}

#[test]
fn inserted_item_is_found_once() {
    let mut t = QuadTree::new(world(), 4);
    t.insert(entry(100_000, 100_000, 7));
    let all = t.query(&world());
    assert_eq!(all.len(), 1);
    assert_eq!(all[0], entry(100_000, 100_000, 7));
}

#[test]
fn out_of_bounds_items_are_dropped() {
    let mut t = QuadTree::new(world(), 4);
    t.insert(entry(-5, 10, 1));
    t.insert(entry(800_000, 0, 2));
    t.insert(entry(0, 800_000, 3));
    t.insert(entry(799_999, 799_999, 4));
    assert_eq!(sorted_ids(t.query(&world())), vec![4]);
    assert_eq!(t.query(&Rect::new(-100, -100, 1_000_000, 1_000_000)).len(), 1);
}

#[test]
fn full_leaf_subdivides_and_keeps_count() {
    let mut t = QuadTree::new(world(), 4);
    for i in 0..5 {
        t.insert(entry(1_000 + i as i64 * 10, 2_000, i));
    }
    assert!(!t.divided());
    t.insert(entry(1_100, 2_000, 5));
    assert!(t.divided());
    assert_eq!(sorted_ids(t.query(&world())), vec![0, 1, 2, 3, 4, 5]);
}

#[test]
fn deep_subdivision_keeps_every_item() {
    let mut t = QuadTree::new(world(), 1);
    for i in 0..40 {
        t.insert(entry(10 + i as i64, 10, i));
    }
    assert_eq!(t.query(&world()).len(), 40);
    assert_eq!(sorted_ids(t.query(&Rect::new(10, 10, 5, 1))), vec![0, 1, 2, 3, 4]);
}

#[test]
fn identical_positions_do_not_recurse_forever() {
    let mut t = QuadTree::new(world(), 2);
    for i in 0..50 {
        t.insert(entry(123_456, 654_321, i));
    }
    assert_eq!(t.query(&world()).len(), 50);
    assert_eq!(t.query(&Rect::new(123_456, 654_321, 1, 1)).len(), 50);
}

#[test]
fn query_does_not_depend_on_capacity() {
    let items = scatter(300, 42);
    let mut small = QuadTree::new(world(), 1);
    let mut large = QuadTree::new(world(), 1000);
    for e in items.iter() {
        small.insert(*e);
        large.insert(*e);
    }
    let ranges = [
        Rect::new(0, 0, 800_000, 800_000),
        Rect::new(100_000, 200_000, 150_000, 90_000),
        Rect::new(600_000, 600_000, 130_000, 98_000),
        Rect::new(-50_000, -50_000, 100_000, 100_000),
        Rect::new(400_000, 0, 1, 800_000),
    ];
    for r in ranges.iter() {
        let expected: Vec<usize> = items
            .iter()
            .filter(|e| r.contains(&e.pos))
            .map(|e| e.id)
            .collect();
        assert_eq!(sorted_ids(small.query(r)), expected);
        assert_eq!(sorted_ids(large.query(r)), expected);
    }
}

#[test]
fn children_cover_the_quadrants() {
    let c = QuadTreeChildren::new(Rect::new(0, 0, 800, 600), 3);
    assert_eq!(c.nw.bounds(), Rect::new(0, 0, 400, 300));
    assert_eq!(c.ne.bounds(), Rect::new(400, 0, 400, 300));
    assert_eq!(c.sw.bounds(), Rect::new(0, 300, 400, 300));
    assert_eq!(c.se.bounds(), Rect::new(400, 300, 400, 300));
    assert!(!c.nw.divided() && !c.se.divided());
    assert!(c.ne.query(&Rect::new(0, 0, 800, 600)).is_empty());
}

#[test]
fn divided_nodes_stay_divided() {
    let mut t = QuadTree::new(world(), 1);
    for i in 0..3 {
        t.insert(entry(1_000 + i as i64, 1_000, i));
    }
    assert!(t.divided());
    let nw_divided = t.kids().unwrap().nw.divided();
    t.insert(entry(700_000, 700_000, 9));
    t.insert(entry(-1, 0, 10));
    assert!(t.divided());
    assert_eq!(t.kids().unwrap().nw.divided(), nw_divided);
    assert_eq!(t.query(&world()).len(), 4);
}
