use ray_tracer::integrator::{trace, Bounce, Light, Path, MAX_DEPTH};

fn run(depth: i32, reports: &dyn Fn(i32) -> Bounce) -> (Light, usize) {
    let mut path = Path::new(depth);
    let mut casts = 0;
    loop {
        match path.light() {
            Some(light) => return (light, casts),
            None => {
                casts += 1;
                path.report(reports(path.depth));
            }
        }
    }
}

#[test]
fn max_depth_is_fifty() {
    assert_eq!(MAX_DEPTH, 50);
}

#[test]
fn path_without_depth_is_black() {
    assert_eq!(Path::new(0).light(), Some(Light::Black));
    assert_eq!(Path::new(-3).light(), Some(Light::Black));
    assert_eq!(Path::new(i32::MIN).light(), Some(Light::Black));
}

#[test]
fn path_with_depth_asks_for_a_cast() {
    assert_eq!(Path::new(1).light(), None);
    assert_eq!(Path::new(MAX_DEPTH).light(), None);
}

#[test]
fn miss_ends_with_the_sky() {
    let mut path = Path::new(MAX_DEPTH);
    path.report(Bounce::Miss);
    assert_eq!(path.light(), Some(Light::Sky));
    assert_eq!(path, Path { depth: 50, ended: Some(Light::Sky) });
}

#[test]
fn absorption_ends_black() {
    let mut path = Path::new(MAX_DEPTH);
    path.report(Bounce::Absorbed);
    assert_eq!(path.light(), Some(Light::Black));
}

#[test]
fn scattering_uses_up_one_bounce() {
    let mut path = Path::new(3);
    path.report(Bounce::Scattered);
    assert_eq!(path, Path { depth: 2, ended: None });
    assert_eq!(path.light(), None);
}

#[test]
fn path_is_cut_off_black_after_its_bounces() {
    let (light, casts) = run(MAX_DEPTH, &|_| Bounce::Scattered);
    assert_eq!(light, Light::Black);
    assert_eq!(casts, 50);
}

#[test]
fn path_that_scatters_then_misses_sees_the_sky() {
    let (light, casts) = run(10, &|d| if d > 7 { Bounce::Scattered } else { Bounce::Miss });
    assert_eq!(light, Light::Sky);
    assert_eq!(casts, 4);
}

#[test]
fn miss_at_the_last_bounce_still_sees_the_sky() {
    let (light, casts) = run(3, &|d| if d > 1 { Bounce::Scattered } else { Bounce::Miss });
    assert_eq!(light, Light::Sky);
    assert_eq!(casts, 3);
}

#[test]
fn reports_after_the_end_change_nothing() {
    let mut path = Path::new(5);
    path.report(Bounce::Absorbed);
    let ended = path;
    path.report(Bounce::Scattered);
    path.report(Bounce::Miss);
    assert_eq!(path, ended);
    let mut spent = Path::new(0);
    spent.report(Bounce::Miss);
    assert_eq!(spent, Path { depth: 0, ended: None });
    assert_eq!(spent.light(), Some(Light::Black));
}

#[test]
fn trace_follows_the_reports() {
    for depth in [-1, 0, 1, 2, 7, MAX_DEPTH] {
        for miss_at in 0..9 {
            let reports = |d: i32| if d == miss_at { Bounce::Miss } else { Bounce::Scattered };
            assert_eq!(trace(depth, reports), run(depth, &reports).0);
        }
        let absorbed = |d: i32| if d == 2 { Bounce::Absorbed } else { Bounce::Scattered };
        assert_eq!(trace(depth, absorbed), Light::Black);
    }
}

#[test]
fn trace_casts_once_for_each_bounce() {
    let casts = std::cell::RefCell::new(Vec::new());
    let light = trace(4, |d: i32| {
        casts.borrow_mut().push(d);
        if d > 2 {
            Bounce::Scattered
        } else {
            Bounce::Miss
        }
    });
    assert_eq!(light, Light::Sky);
    assert_eq!(casts.into_inner(), vec![4, 3, 2]);
}

#[test]
fn trace_without_depth_does_not_cast() {
    let light = trace(0, |_: i32| panic!("there is no bounce to cast for"));
    assert_eq!(light, Light::Black);
}

#[test]
fn trace_is_cut_off_after_fifty_bounces() {
    let casts = std::cell::Cell::new(0);
    let light = trace(MAX_DEPTH, |_: i32| {
        casts.set(casts.get() + 1);
        Bounce::Scattered
    });
    assert_eq!(light, Light::Black);
    assert_eq!(casts.get(), 50);
}
