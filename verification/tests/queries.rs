use ray_tracer::hittable::front_face;
use ray_tracer::key::from_bits;
use ray_tracer::traversal::{Pending, Traversal};
use ray_tracer::{HitRecord, HittableList, Scan, Step, Vec3, AABB, BVH};

fn bb(min: (i64, i64, i64), max: (i64, i64, i64)) -> AABB {
    AABB { min: Vec3::new(min.0, min.1, min.2), max: Vec3::new(max.0, max.1, max.2) }
}

fn list_of(boxes: &Vec<AABB>) -> HittableList {
    let mut list = HittableList::default();
    for b in boxes.iter() {
        list.add(*b);
    }
    list
}

/// Drives a scan to its end; also counts the primitive tests.
fn run_scan(
    list: &HittableList,
    t_min: i64,
    t_max: i64,
    test: &dyn Fn(usize, i64, i64) -> Option<i64>,
) -> (Option<HitRecord>, usize) {
    let mut scan = list.scan(t_min, t_max);
    let mut asked = 0;
    loop {
        match scan.step() {
            Step::TestPrimitive { id, t_min, t_max } => {
                asked += 1;
                scan.primitive_result(test(id, t_min, t_max));
            }
            Step::TestBox { .. } => panic!("a list has no boxes to test"),
            Step::Done(hit) => return (hit, asked),
        }
    }
}

/// Drives a walk to its end; also counts the box and the primitive tests.
fn run_walk(
    tree: &BVH,
    t_min: i64,
    t_max: i64,
    box_test: &dyn Fn(&AABB, i64, i64) -> bool,
    test: &dyn Fn(usize, i64, i64) -> Option<i64>,
) -> (Option<HitRecord>, usize, usize) {
    let mut walk = tree.walk(t_min, t_max);
    let (mut boxes, mut primitives) = (0, 0);
    loop {
        match walk.step() {
            Step::TestBox { bounds, t_min, t_max } => {
                boxes += 1;
                walk.box_result(box_test(&bounds, t_min, t_max));
            }
            Step::TestPrimitive { id, t_min, t_max } => {
                primitives += 1;
                walk.primitive_result(test(id, t_min, t_max));
            }
            Step::Done(hit) => return (hit, boxes, primitives),
        }
    }
}

/// A ray along the x axis from the origin: it is inside a box between the
/// box's two x bounds, if the box straddles the axis.
fn on_axis(b: &AABB) -> bool {
    b.min.y <= 0 && 0 <= b.max.y && b.min.z <= 0 && 0 <= b.max.z
}

fn axis_box_test(b: &AABB, t_min: i64, t_max: i64) -> bool {
    on_axis(b) && b.min.x <= t_max && t_min <= b.max.x
}

/// The primitives are the boxes themselves, hit where the ray enters them.
fn axis_test(boxes: &Vec<AABB>, id: usize, t_min: i64, t_max: i64) -> Option<i64> {
    let b = &boxes[id];
    if on_axis(b) && t_min <= b.min.x && b.min.x <= t_max {
        Some(b.min.x)
    } else {
        None
    }
}

fn scattered(n: usize, seed: u64) -> Vec<AABB> {
    let mut state = seed;
    let mut next = move || {
        state = state.wrapping_mul(6364136223846793005).wrapping_add(1442695040888963407);
        ((state >> 33) % 201) as i64 - 100
    };
    let mut boxes = Vec::new();
    for _ in 0..n {
        let (x, y, z) = (next(), next() / 20, next() / 20);
        let (w, h, d) = (next().abs() % 9, next().abs() % 9, next().abs() % 9);
        boxes.push(bb((x, y, z), (x + w, y + h, z + d)));
    }
    boxes
}

#[test]
fn scan_of_an_empty_list_is_done_at_once() {
    let list = HittableList::default();
    let scan = list.scan(0, 100);
    assert_eq!(scan.step(), Step::Done(None));
}

#[test]
fn scan_starts_at_the_first_primitive_with_the_whole_interval() {
    let list = list_of(&vec![bb((0, 0, 0), (1, 1, 1)), bb((0, 0, 0), (1, 1, 1))]);
    let scan = list.scan(3, 90);
    assert_eq!(scan, Scan { next: 0, len: 2, t_min: 3, closest_so_far: 90, hit: None });
    assert_eq!(scan.step(), Step::TestPrimitive { id: 0, t_min: 3, t_max: 90 });
}

#[test]
fn scan_narrows_the_interval_to_the_closest_hit() {
    let list = list_of(&vec![bb((0, 0, 0), (1, 1, 1)); 3]);
    let mut scan = list.scan(0, 100);
    scan.primitive_result(Some(40));
    assert_eq!(scan.step(), Step::TestPrimitive { id: 1, t_min: 0, t_max: 40 });
    scan.primitive_result(None);
    assert_eq!(scan.step(), Step::TestPrimitive { id: 2, t_min: 0, t_max: 40 });
    scan.primitive_result(Some(25));
    assert_eq!(scan.step(), Step::Done(Some(HitRecord { t: 25, id: 2 })));
}

#[test]
fn scan_ignores_answers_after_its_end() {
    let list = list_of(&vec![bb((0, 0, 0), (1, 1, 1))]);
    let mut scan = list.scan(0, 100);
    scan.primitive_result(Some(7));
    let done = scan;
    scan.primitive_result(Some(1));
    assert_eq!(scan, done);
    assert_eq!(scan.step(), Step::Done(Some(HitRecord { t: 7, id: 0 })));
}

#[test]
fn scan_tests_every_primitive_once() {
    let boxes = scattered(30, 5);
    let list = list_of(&boxes);
    let (_, asked) = run_scan(&list, 0, 1000, &|id, lo, hi| axis_test(&boxes, id, lo, hi));
    assert_eq!(asked, 30);
}

#[test]
fn scan_takes_a_later_hit_at_the_same_parameter() {
    let list = list_of(&vec![bb((0, 0, 0), (1, 1, 1)); 2]);
    let (hit, _) = run_scan(&list, 0, 100, &|_, _, hi| if 10 <= hi { Some(10) } else { None });
    assert_eq!(hit, Some(HitRecord { t: 10, id: 1 }));
}

#[test]
fn list_bounding_box_is_the_hull() {
    let list = list_of(&vec![
        bb((0, 0, 0), (1, 1, 1)),
        bb((-5, 2, 0), (-4, 3, 9)),
        bb((3, -7, 1), (4, 0, 2)),
    ]);
    assert_eq!(list.bounding_box(), bb((-5, -7, 0), (4, 3, 9)));
}

#[test]
fn list_bounding_box_of_nothing_is_the_origin() {
    let list = HittableList::default();
    assert_eq!(list.bounding_box(), bb((0, 0, 0), (0, 0, 0)));
}

#[test]
fn list_bounding_box_of_one_is_its_box() {
    let list = list_of(&vec![bb((5, 6, 7), (8, 9, 10))]);
    assert_eq!(list.bounding_box(), bb((5, 6, 7), (8, 9, 10)));
}

#[test]
fn list_add_and_clear() {
    let mut list = HittableList::default();
    list.add(bb((0, 0, 0), (1, 1, 1)));
    list.add(bb((2, 2, 2), (3, 3, 3)));
    assert_eq!(list.list, vec![bb((0, 0, 0), (1, 1, 1)), bb((2, 2, 2), (3, 3, 3))]);
    list.clear();
    assert!(list.list.is_empty());
}

#[test]
fn walk_begins_with_the_box_of_the_root() {
    let boxes = vec![bb((10, 0, 0), (11, 1, 1)), bb((0, 0, 0), (1, 1, 1))];
    let tree = BVH::new(boxes);
    let walk = tree.walk(2, 50);
    assert_eq!(walk.stack.len(), 1);
    assert!(matches!(walk.stack[0], Pending::Enter(_)));
    assert_eq!(
        walk.step(),
        Step::TestBox { bounds: bb((0, 0, 0), (11, 1, 1)), t_min: 2, t_max: 50 }
    );
}

#[test]
fn walk_skips_a_subtree_whose_box_fails() {
    let boxes = vec![bb((10, 0, 0), (11, 1, 1)), bb((0, 0, 0), (1, 1, 1))];
    let tree = BVH::new(boxes);
    let mut walk = tree.walk(0, 50);
    walk.box_result(false);
    assert_eq!(walk.step(), Step::Done(None));
}

#[test]
fn walk_goes_left_then_right_with_the_interval_cut_down() {
    // The tree is (1 0): primitive 1 on the left, primitive 0 on the right.
    let boxes = vec![bb((10, 0, 0), (11, 1, 1)), bb((0, 0, 0), (1, 1, 1))];
    let tree = BVH::new(boxes);
    let mut walk = tree.walk(0, 50);
    walk.box_result(true);
    assert_eq!(
        walk.step(),
        Step::TestBox { bounds: bb((0, 0, 0), (1, 1, 1)), t_min: 0, t_max: 50 }
    );
    walk.box_result(true);
    assert_eq!(walk.step(), Step::TestPrimitive { id: 1, t_min: 0, t_max: 50 });
    walk.primitive_result(Some(30));
    assert_eq!(
        walk.step(),
        Step::TestBox { bounds: bb((10, 0, 0), (11, 1, 1)), t_min: 0, t_max: 30 }
    );
    walk.box_result(true);
    assert_eq!(walk.step(), Step::TestPrimitive { id: 0, t_min: 0, t_max: 30 });
    walk.primitive_result(Some(12));
    assert_eq!(walk.step(), Step::Done(Some(HitRecord { t: 12, id: 0 })));
}

#[test]
fn walk_keeps_the_left_hit_when_the_right_misses() {
    let boxes = vec![bb((10, 0, 0), (11, 1, 1)), bb((0, 0, 0), (1, 1, 1))];
    let tree = BVH::new(boxes);
    let mut walk = tree.walk(0, 50);
    walk.box_result(true);
    walk.box_result(true);
    walk.primitive_result(Some(30));
    walk.box_result(true);
    walk.primitive_result(None);
    assert_eq!(walk.step(), Step::Done(Some(HitRecord { t: 30, id: 1 })));
}

#[test]
fn walk_ignores_an_answer_it_did_not_ask_for() {
    let boxes = vec![bb((10, 0, 0), (11, 1, 1)), bb((0, 0, 0), (1, 1, 1))];
    let tree = BVH::new(boxes);
    let mut walk = tree.walk(0, 50);
    walk.primitive_result(Some(1));
    assert_eq!(walk.hit, None);
    assert_eq!(walk.closest_so_far, 50);
    assert_eq!(
        walk.step(),
        Step::TestBox { bounds: bb((0, 0, 0), (11, 1, 1)), t_min: 0, t_max: 50 }
    );
    walk.box_result(true);
    walk.box_result(true);
    let asked = walk.step();
    walk.box_result(true);
    assert_eq!(walk.step(), asked);
    let mut done: Traversal = tree.walk(0, 50);
    done.box_result(false);
    done.box_result(true);
    done.primitive_result(Some(3));
    assert_eq!(done.step(), Step::Done(None));
}

#[test]
fn walk_of_a_single_leaf() {
    let tree = BVH::new(vec![bb((4, 0, 0), (6, 1, 1))]);
    let mut walk = tree.walk(0, 9);
    assert_eq!(walk.step(), Step::TestBox { bounds: bb((4, 0, 0), (6, 1, 1)), t_min: 0, t_max: 9 });
    walk.box_result(true);
    assert_eq!(walk.step(), Step::TestPrimitive { id: 0, t_min: 0, t_max: 9 });
    walk.primitive_result(Some(4));
    assert_eq!(walk.step(), Step::Done(Some(HitRecord { t: 4, id: 0 })));
}

#[test]
fn hierarchy_and_list_agree_on_the_closest_hit() {
    for seed in 0..60u64 {
        let n = 1 + (seed as usize * 7) % 45;
        let boxes = scattered(n, seed);
        let list = list_of(&boxes);
        let tree = BVH::new(boxes.clone());
        for (t_min, t_max) in [(-100, 200), (0, 200), (-20, 20), (10, 11), (50, 60)] {
            let test = |id: usize, lo: i64, hi: i64| axis_test(&boxes, id, lo, hi);
            let (scanned, _) = run_scan(&list, t_min, t_max, &test);
            let (walked, _, _) = run_walk(&tree, t_min, t_max, &axis_box_test, &test);
            assert_eq!(scanned.map(|h| h.t), walked.map(|h| h.t));
            let closest = (0..n).filter_map(|id| axis_test(&boxes, id, t_min, t_max)).min();
            assert_eq!(walked.map(|h| h.t), closest);
            if let Some(h) = walked {
                assert_eq!(axis_test(&boxes, h.id, t_min, t_max), Some(h.t));
            }
            if let Some(h) = scanned {
                assert_eq!(axis_test(&boxes, h.id, t_min, t_max), Some(h.t));
            }
        }
    }
}

#[test]
fn hierarchy_prunes() {
    // Sixty-four unit boxes in a row along x; the ray can hit only the
    // first few of them within the interval.
    let mut boxes = Vec::new();
    for i in 0..64 {
        boxes.push(bb((10 * i, 0, 0), (10 * i + 1, 1, 1)));
    }
    let tree = BVH::new(boxes.clone());
    let test = |id: usize, lo: i64, hi: i64| axis_test(&boxes, id, lo, hi);
    let (hit, _, primitives) = run_walk(&tree, 0, 25, &axis_box_test, &test);
    assert_eq!(hit, Some(HitRecord { t: 0, id: 0 }));
    assert!(primitives <= 3);
}

#[test]
fn hierarchy_misses_where_the_list_misses() {
    let boxes = scattered(20, 11);
    let list = list_of(&boxes);
    let tree = BVH::new(boxes.clone());
    let test = |id: usize, lo: i64, hi: i64| axis_test(&boxes, id, lo, hi);
    let (scanned, _) = run_scan(&list, 500, 600, &test);
    let (walked, boxes_asked, primitives) = run_walk(&tree, 500, 600, &axis_box_test, &test);
    assert_eq!(scanned, None);
    assert_eq!(walked, None);
    assert_eq!(boxes_asked, 1);
    assert_eq!(primitives, 0);
}

#[test]
fn list_hit_is_the_driven_scan() {
    for seed in 0..20u64 {
        let boxes = scattered(25, seed);
        let list = list_of(&boxes);
        let test = |id: usize, lo: i64, hi: i64| axis_test(&boxes, id, lo, hi);
        for (t_min, t_max) in [(-100, 200), (0, 30), (50, 60)] {
            let (scanned, _) = run_scan(&list, t_min, t_max, &test);
            assert_eq!(list.hit(&test, t_min, t_max), scanned);
        }
    }
}

#[test]
fn list_hit_tests_in_order_over_the_shrinking_interval() {
    let list = list_of(&vec![bb((0, 0, 0), (1, 1, 1)); 4]);
    let asked = std::cell::RefCell::new(Vec::new());
    let answers = [Some(40), None, Some(25), Some(30)];
    let found = list.hit(
        |id: usize, lo: i64, hi: i64| {
            asked.borrow_mut().push((id, lo, hi));
            answers[id].filter(|t| *t <= hi)
        },
        1,
        100,
    );
    assert_eq!(found, Some(HitRecord { t: 25, id: 2 }));
    assert_eq!(asked.into_inner(), vec![(0, 1, 100), (1, 1, 40), (2, 1, 40), (3, 1, 25)]);
}

#[test]
fn list_hit_of_an_empty_list_misses() {
    let list = HittableList::default();
    assert_eq!(list.hit(|_: usize, _: i64, _: i64| Some(1), 0, 100), None);
}

#[test]
fn hierarchy_hit_is_the_driven_walk() {
    for seed in 0..20u64 {
        let boxes = scattered(25, seed);
        let tree = BVH::new(boxes.clone());
        let test = |id: usize, lo: i64, hi: i64| axis_test(&boxes, id, lo, hi);
        for (t_min, t_max) in [(-100, 200), (0, 30), (50, 60)] {
            let (walked, _, _) = run_walk(&tree, t_min, t_max, &axis_box_test, &test);
            let found =
                tree.hit(|b: AABB, lo: i64, hi: i64| axis_box_test(&b, lo, hi), &test, t_min, t_max);
            assert_eq!(found, walked);
        }
    }
}

#[test]
fn hierarchy_hit_asks_left_then_right() {
    // The tree is (1 (2 0)).
    let boxes =
        vec![bb((10, 0, 0), (11, 1, 1)), bb((0, 0, 0), (1, 1, 1)), bb((5, 0, 0), (6, 1, 1))];
    let tree = BVH::new(boxes.clone());
    let asked = std::cell::RefCell::new(Vec::new());
    let found = tree.hit(
        |_: AABB, _: i64, _: i64| true,
        |id: usize, lo: i64, hi: i64| {
            asked.borrow_mut().push((id, lo, hi));
            axis_test(&boxes, id, lo, hi)
        },
        -3,
        100,
    );
    assert_eq!(found, Some(HitRecord { t: 0, id: 1 }));
    assert_eq!(asked.into_inner(), vec![(1, -3, 100), (2, -3, 0), (0, -3, 0)]);
}

#[test]
fn hierarchy_hit_skips_what_the_box_test_fails() {
    let boxes =
        vec![bb((10, 0, 0), (11, 1, 1)), bb((0, 0, 0), (1, 1, 1)), bb((5, 0, 0), (6, 1, 1))];
    let tree = BVH::new(boxes.clone());
    let asked = std::cell::RefCell::new(Vec::new());
    let found = tree.hit(
        |b: AABB, lo: i64, hi: i64| axis_box_test(&b, lo, hi),
        |id: usize, lo: i64, hi: i64| {
            asked.borrow_mut().push(id);
            axis_test(&boxes, id, lo, hi)
        },
        4,
        100,
    );
    assert_eq!(found, Some(HitRecord { t: 5, id: 2 }));
    assert_eq!(asked.into_inner(), vec![2]);
}

#[test]
fn front_face_is_where_the_ray_runs_against_the_normal() {
    let key = |x: f64| from_bits(x.to_bits());
    assert!(front_face(key(-1.0)));
    assert!(front_face(key(-5e-324)));
    assert!(!front_face(key(0.0)));
    assert!(!front_face(key(-0.0)));
    assert!(!front_face(key(0.3)));
    assert!(!front_face(key(f64::NAN)));
    assert!(!front_face(key(-f64::NAN)));
}
