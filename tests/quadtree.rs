use space_rust::geometry::{Point, ARENA_HEIGHT, ARENA_WIDTH};
use space_rust::quadtree::{QuadNode, LEAF_X_LIMIT, LEAF_Y_LIMIT};

fn arena() -> Box<QuadNode> {
    QuadNode::new((0, ARENA_WIDTH), (0, ARENA_HEIGHT))
}

fn pt(x: i64, y: i64) -> Point {
    Point { x, y }
}

#[test]
fn new_node_is_empty_and_unsplit() {
    let n = arena();
    assert!(n.val.is_none());
    assert!(n.tl.is_none() && n.tr.is_none() && n.bl.is_none() && n.br.is_none());
    assert_eq!(n.xrange, (0, ARENA_WIDTH));
    assert_eq!(n.yrange, (0, ARENA_HEIGHT));
}

#[test]
fn first_insert_is_held_at_root() {
    let mut n = arena();
    assert!(n.insert(7, pt(10_000, 20_000)));
    assert_eq!(n.val, Some((7, pt(10_000, 20_000))));
    assert!(n.tl.is_none());
}

#[test]
fn insert_outside_bounds_is_refused() {
    let mut n = arena();
    assert!(!n.insert(0, pt(-1, 10)));
    assert!(!n.insert(0, pt(10, ARENA_HEIGHT + 1)));
    assert!(n.val.is_none());
}

#[test]
fn within_bounds_is_inclusive() {
    let n = arena();
    assert!(n.within_bounds(pt(0, 0)));
    assert!(n.within_bounds(pt(ARENA_WIDTH, ARENA_HEIGHT)));
    assert!(!n.within_bounds(pt(ARENA_WIDTH + 1, 0)));
}

#[test]
fn leaf_floor_decides_leaf_nodes() {
    assert!(!arena().is_leaf_node());
    assert!(QuadNode::new((0, LEAF_X_LIMIT), (0, 1_000_000)).is_leaf_node());
    assert!(QuadNode::new((0, 1_000_000), (0, LEAF_Y_LIMIT)).is_leaf_node());
    assert!(!QuadNode::new((0, LEAF_X_LIMIT + 1), (0, LEAF_Y_LIMIT + 1)).is_leaf_node());
}

#[test]
fn second_insert_splits_and_routes_by_coordinate() {
    let mut n = arena();
    assert!(n.insert(0, pt(100_000, 100_000)));
    assert!(n.insert(1, pt(700_000, 500_000)));
    // The root became a router: the first entry moved to the top-left child,
    // the second went to the bottom-right one, not to the top-left.
    assert!(n.val.is_none());
    assert_eq!(n.tl.as_ref().unwrap().val, Some((0, pt(100_000, 100_000))));
    assert_eq!(n.br.as_ref().unwrap().val, Some((1, pt(700_000, 500_000))));
    assert!(n.tr.as_ref().unwrap().val.is_none());
    assert!(n.bl.as_ref().unwrap().val.is_none());
    assert_eq!(n.tl.as_ref().unwrap().xrange, (0, 400_000));
    assert_eq!(n.br.as_ref().unwrap().yrange, (300_000, 600_000));
}

#[test]
fn point_on_midpoint_goes_left_and_up() {
    let mut n = arena();
    assert!(n.insert(0, pt(700_000, 500_000)));
    assert!(n.insert(1, pt(400_000, 300_000)));
    assert_eq!(n.tl.as_ref().unwrap().val, Some((1, pt(400_000, 300_000))));
}

#[test]
fn same_leaf_cell_reports_collision() {
    let mut n = arena();
    assert!(n.insert(0, pt(10_000, 10_000)));
    // 1 sub-unit away: the recursion bottoms out at the leaf floor.
    assert!(!n.insert(1, pt(10_001, 10_000)));
    // The refused entry is not stored; the first stays.
    let found = n.query(pt(0, 0), pt(ARENA_WIDTH, ARENA_HEIGHT));
    assert_eq!(found, vec![(0, pt(10_000, 10_000))]);
}

#[test]
fn identical_positions_collide() {
    let mut n = arena();
    assert!(n.insert(0, pt(555_555, 333_333)));
    assert!(!n.insert(1, pt(555_555, 333_333)));
}

#[test]
fn farther_than_leaf_diagonal_never_collides() {
    // The leaf diagonal of the arena tree is 31 250 sub-units.
    let cases = [
        (pt(0, 0), pt(31_251, 0)),
        (pt(0, 0), pt(0, 31_251)),
        (pt(24_999, 18_749), pt(24_999 + 25_000, 18_749 + 18_751)),
        (pt(400_000, 300_000), pt(420_000, 325_000)),
        (pt(800_000, 600_000), pt(768_000, 600_000)),
    ];
    for (p, q) in cases.iter() {
        let mut n = arena();
        assert!(n.insert(0, *p));
        assert!(n.insert(1, *q), "{:?} and {:?} collided", p, q);
    }
}

#[test]
fn many_spread_entries_all_accepted() {
    let mut n = arena();
    let mut key = 0;
    let mut y = 10_000;
    while y < ARENA_HEIGHT {
        let mut x = 10_000;
        while x < ARENA_WIDTH {
            assert!(n.insert(key, pt(x, y)));
            key += 1;
            x += 50_000;
        }
        y += 40_000;
    }
    let all = n.query(pt(0, 0), pt(ARENA_WIDTH, ARENA_HEIGHT));
    assert_eq!(all.len(), key);
}

#[test]
fn deep_insertion_terminates_on_large_root() {
    // A root 2^20 leaf floors on each side: insertion still terminates, and
    // two nearby points still meet in one leaf cell.
    let w = LEAF_X_LIMIT << 20;
    let h = LEAF_Y_LIMIT << 20;
    let mut n = QuadNode::new((0, w), (0, h));
    assert!(n.insert(0, pt(123_456_789, 98_765_432)));
    assert!(!n.insert(1, pt(123_456_790, 98_765_432)));
    assert!(n.insert(2, pt(w, h)));
}

#[test]
fn query_finds_entries_in_box() {
    let mut n = arena();
    assert!(n.insert(0, pt(100_000, 100_000)));
    assert!(n.insert(1, pt(700_000, 500_000)));
    assert!(n.insert(2, pt(110_000, 100_000)));
    let near = n.query(pt(90_000, 90_000), pt(120_000, 110_000));
    assert!(near.contains(&(0, pt(100_000, 100_000))));
    assert!(near.contains(&(2, pt(110_000, 100_000))));
    assert!(!near.contains(&(1, pt(700_000, 500_000))));
}
