use ray_tracer::key::from_bits;
use ray_tracer::sphere::select_root;

fn key(x: f64) -> i64 {
    from_bits(x.to_bits())
}

#[test]
fn select_root_takes_the_nearer_root() {
    assert_eq!(select_root(1, 3, 9, 0, 100), Some(3));
}

#[test]
fn select_root_takes_the_farther_root_when_the_nearer_is_behind() {
    assert_eq!(select_root(1, -4, 9, 0, 100), Some(9));
}

#[test]
fn select_root_takes_the_farther_root_from_inside() {
    assert_eq!(select_root(1, -5, 5, 1, 100), Some(5));
}

#[test]
fn select_root_misses_when_both_roots_are_outside() {
    assert_eq!(select_root(1, -9, -4, 0, 100), None);
    assert_eq!(select_root(1, 200, 300, 0, 100), None);
    assert_eq!(select_root(1, -1, 101, 0, 100), None);
}

#[test]
fn select_root_misses_when_the_nearer_root_is_beyond() {
    assert_eq!(select_root(1, 50, 60, 0, 40), None);
}

#[test]
fn select_root_counts_the_ends_of_the_interval() {
    assert_eq!(select_root(1, 0, 9, 0, 100), Some(0));
    assert_eq!(select_root(1, 100, 109, 0, 100), Some(100));
    assert_eq!(select_root(1, -3, 100, 0, 100), Some(100));
}

#[test]
fn select_root_misses_on_a_negative_discriminant() {
    assert_eq!(select_root(-1, 3, 9, 0, 100), None);
    assert_eq!(select_root(key(-1e-300), 3, 9, 0, 100), None);
    assert_eq!(select_root(key(f64::NEG_INFINITY), 3, 9, 0, 100), None);
}

#[test]
fn select_root_of_a_double_root() {
    assert_eq!(select_root(0, 7, 7, 0, 100), Some(7));
    assert_eq!(select_root(key(-0.0), 7, 7, 0, 100), Some(7));
}

#[test]
fn select_root_leaves_out_what_is_not_a_number() {
    let (t_min, t_max) = (key(0.001), key(f64::INFINITY));
    let nan = key(f64::NAN);
    assert_eq!(select_root(nan, nan, nan, t_min, t_max), None);
    assert_eq!(select_root(nan, -nan, nan, t_min, t_max), None);
    assert_eq!(select_root(key(1.0), nan, key(2.0), t_min, t_max), Some(key(2.0)));
}

#[test]
fn select_root_is_the_nearest_candidate_cut_at_the_upper_end() {
    for near in -3..8i64 {
        for far in near..8 {
            for t_min in -2..6i64 {
                let nearest = if t_min <= near {
                    Some(near)
                } else if t_min <= far {
                    Some(far)
                } else {
                    None
                };
                for t_max in -4..10i64 {
                    assert_eq!(
                        select_root(1, near, far, t_min, t_max),
                        nearest.filter(|t| *t <= t_max)
                    );
                }
            }
        }
    }
}
