use ray_tracer::bvh::widest;
use ray_tracer::{BVHContents, HittableList, Vec3, AABB, BVH};

fn bb(min: (i64, i64, i64), max: (i64, i64, i64)) -> AABB {
    AABB { min: Vec3::new(min.0, min.1, min.2), max: Vec3::new(max.0, max.1, max.2) }
}

fn leaves(tree: &BVH, out: &mut Vec<usize>) {
    match &tree.contents {
        BVHContents::Leaf(id) => out.push(*id),
        BVHContents::Node { left, right } => {
            leaves(left, out);
            leaves(right, out);
        }
    }
}

fn shape(tree: &BVH) -> String {
    match &tree.contents {
        BVHContents::Leaf(id) => format!("{}", id),
        BVHContents::Node { left, right } => format!("({} {})", shape(left), shape(right)),
    }
}

fn holds(outer: &AABB, inner: &AABB) -> bool {
    outer.min.x <= inner.min.x
        && outer.min.y <= inner.min.y
        && outer.min.z <= inner.min.z
        && inner.max.x <= outer.max.x
        && inner.max.y <= outer.max.y
        && inner.max.z <= outer.max.z
}

fn check_boxes(tree: &BVH, boxes: &Vec<AABB>) -> AABB {
    match &tree.contents {
        BVHContents::Leaf(id) => {
            assert_eq!(tree.bounding_box, boxes[*id]);
            tree.bounding_box
        }
        BVHContents::Node { left, right } => {
            let l = check_boxes(left, boxes);
            let r = check_boxes(right, boxes);
            assert_eq!(tree.bounding_box, AABB::merge(&l, &r));
            tree.bounding_box
        }
    }
}

fn scattered(n: usize, seed: u64) -> Vec<AABB> {
    let mut state = seed;
    let mut next = move || {
        state = state.wrapping_mul(6364136223846793005).wrapping_add(1442695040888963407);
        ((state >> 33) % 2001) as i64 - 1000
    };
    let mut boxes = Vec::new();
    for _ in 0..n {
        let (x, y, z) = (next(), next(), next());
        let (w, h, d) = (next().abs() % 50, next().abs() % 50, next().abs() % 50);
        boxes.push(bb((x, y, z), (x + w, y + h, z + d)));
    }
    boxes
}

#[test]
fn widest_picks_the_axis_of_greatest_extent() {
    assert_eq!(widest(&bb((0, 0, 0), (5, 1, 1))), 0);
    assert_eq!(widest(&bb((0, 0, 0), (1, 5, 1))), 1);
    assert_eq!(widest(&bb((0, 0, 0), (1, 1, 5))), 2);
}

#[test]
fn widest_takes_the_first_of_equal_axes() {
    assert_eq!(widest(&bb((0, 0, 0), (3, 3, 3))), 0);
    assert_eq!(widest(&bb((0, 0, 0), (1, 3, 3))), 1);
    assert_eq!(widest(&bb((0, 0, 0), (3, 1, 3))), 0);
}

#[test]
fn widest_on_the_widest_box_there_is() {
    assert_eq!(widest(&bb((0, i64::MIN, 0), (0, i64::MAX, 1))), 1);
}

#[test]
fn one_primitive_makes_a_leaf() {
    let b = bb((1, 2, 3), (4, 5, 6));
    let tree = BVH::new(vec![b]);
    assert!(matches!(tree.contents, BVHContents::Leaf(0)));
    assert_eq!(tree.bounding_box(), b);
    assert_eq!(tree.height(), 1);
}

#[test]
fn two_primitives_split_by_centre() {
    let boxes = vec![bb((10, 0, 0), (11, 1, 1)), bb((0, 0, 0), (1, 1, 1))];
    let tree = BVH::new(boxes);
    assert_eq!(shape(&tree), "(1 0)");
    assert_eq!(tree.bounding_box(), bb((0, 0, 0), (11, 1, 1)));
    assert_eq!(tree.height(), 2);
}

#[test]
fn three_primitives_along_x() {
    let boxes =
        vec![bb((10, 0, 0), (11, 1, 1)), bb((0, 0, 0), (1, 1, 1)), bb((5, 0, 0), (6, 1, 1))];
    let tree = BVH::new(boxes.clone());
    // Sorted along x the order is 1, 2, 0; the lower half, rounded down, goes left.
    assert_eq!(shape(&tree), "(1 (2 0))");
    assert_eq!(tree.bounding_box(), bb((0, 0, 0), (11, 1, 1)));
    assert_eq!(tree.height(), 3);
    check_boxes(&tree, &boxes);
}

#[test]
fn each_node_splits_on_its_own_widest_axis() {
    // The whole is widest along x. The right half, primitives 2 and 3, is
    // widest along y, where 3 lies below 2.
    let boxes = vec![
        bb((0, 0, 0), (1, 1, 1)),
        bb((2, 0, 0), (3, 1, 1)),
        bb((100, 50, 0), (101, 51, 1)),
        bb((103, 0, 0), (104, 1, 1)),
    ];
    let tree = BVH::new(boxes.clone());
    assert_eq!(shape(&tree), "((0 1) (3 2))");
    check_boxes(&tree, &boxes);
}

#[test]
fn equal_centres_keep_the_input_order() {
    let b = bb((0, 0, 0), (2, 2, 2));
    let tree = BVH::new(vec![b, b, b, b, b]);
    assert_eq!(shape(&tree), "((0 1) (2 (3 4)))");
}

#[test]
fn centre_is_the_sum_of_the_bounds() {
    // Primitive 0 starts further left but its centre lies further right.
    let boxes = vec![bb((0, 0, 0), (100, 1, 1)), bb((10, 0, 0), (20, 1, 1))];
    let tree = BVH::new(boxes);
    assert_eq!(shape(&tree), "(1 0)");
}

#[test]
fn every_primitive_is_a_leaf_exactly_once() {
    for n in 1..40usize {
        let boxes = scattered(n, n as u64);
        let tree = BVH::new(boxes.clone());
        let mut found = Vec::new();
        leaves(&tree, &mut found);
        assert_eq!(found.len(), n);
        found.sort();
        assert_eq!(found, (0..n).collect::<Vec<usize>>());
    }
}

#[test]
fn the_root_box_holds_every_primitive() {
    let boxes = scattered(100, 7);
    let tree = BVH::new(boxes.clone());
    for b in boxes.iter() {
        assert!(holds(&tree.bounding_box(), b));
    }
    check_boxes(&tree, &boxes);
}

#[test]
fn building_twice_gives_the_same_tree() {
    let boxes = scattered(64, 99);
    let a = BVH::new(boxes.clone());
    let b = BVH::new(boxes);
    assert_eq!(shape(&a), shape(&b));
}

#[test]
fn height_is_logarithmic() {
    let expected = [(1usize, 1), (2, 2), (3, 3), (4, 3), (5, 4), (8, 4), (9, 5), (100, 8)];
    for (n, h) in expected.iter() {
        let tree = BVH::new(scattered(*n, 3));
        assert_eq!(tree.height(), *h);
    }
}

#[test]
fn from_hittable_list_builds_over_the_list() {
    let mut list = HittableList::default();
    list.add(bb((10, 0, 0), (11, 1, 1)));
    list.add(bb((0, 0, 0), (1, 1, 1)));
    list.add(bb((5, 0, 0), (6, 1, 1)));
    let tree = BVH::from_hittable_list(list);
    assert_eq!(shape(&tree), "(1 (2 0))");
}

#[test]
fn a_large_scene_builds_a_low_tree() {
    let n = 20000;
    let boxes = scattered(n, 42);
    let tree = BVH::new(boxes.clone());
    let mut found = Vec::new();
    leaves(&tree, &mut found);
    found.sort();
    assert_eq!(found, (0..n).collect::<Vec<usize>>());
    assert_eq!(tree.height(), 16);
    check_boxes(&tree, &boxes);
}
