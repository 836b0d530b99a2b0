use ray_tracing::integrator::Encounter;
use ray_tracing::integrator::Ending;
use ray_tracing::integrator::Path;
use ray_tracing::integrator::Step;

/// Walks a path over what its rays meet, as a tracer would, and returns the
/// bounces made and the ending.
fn walk(max_depth: usize, meets: &[Encounter]) -> (usize, Ending) {
    let mut path = Path::new(max_depth);
    let mut k = 0;
    loop {
        if path.exhausted() {
            return (path.depth(), Ending::Black);
        }
        match path.advance(meets[k]) {
            Step::Bounce => k += 1,
            Step::Done(ending) => return (path.depth(), ending),
        }
    }
}

#[test]
fn depth_zero_is_black_whatever_the_scene() {
    let mut path = Path::new(0);
    assert!(path.exhausted());
    for met in [Encounter::Miss, Encounter::Absorbed, Encounter::Scattered] {
        assert_eq!(path.advance(met), Step::Done(Ending::Black));
        assert_eq!(path.depth(), 0);
    }
    assert_eq!(walk(0, &[]), (0, Ending::Black));
}

#[test]
fn a_miss_ends_in_the_sky() {
    assert_eq!(walk(50, &[Encounter::Miss]), (0, Ending::Sky));
    let mut path = Path::new(1);
    assert!(!path.exhausted());
    assert_eq!(path.advance(Encounter::Miss), Step::Done(Ending::Sky));
}

#[test]
fn absorption_ends_in_black() {
    assert_eq!(walk(50, &[Encounter::Absorbed]), (0, Ending::Black));
    assert_eq!(
        walk(50, &[Encounter::Scattered, Encounter::Scattered, Encounter::Absorbed]),
        (2, Ending::Black)
    );
}

#[test]
fn bounces_are_counted_up_to_the_miss() {
    let meets = [Encounter::Scattered, Encounter::Scattered, Encounter::Scattered, Encounter::Miss];
    assert_eq!(walk(50, &meets), (3, Ending::Sky));
    assert_eq!(walk(4, &meets), (3, Ending::Sky));
}

#[test]
fn the_limit_cuts_the_path_off_in_black() {
    let meets = [Encounter::Scattered, Encounter::Scattered, Encounter::Scattered, Encounter::Miss];
    assert_eq!(walk(3, &meets), (3, Ending::Black));
    assert_eq!(walk(1, &meets), (1, Ending::Black));
    let endless = [Encounter::Scattered; 50];
    assert_eq!(walk(50, &endless), (50, Ending::Black));
}

#[test]
fn advance_moves_the_depth_only_on_a_bounce() {
    let mut path = Path::new(2);
    assert_eq!(path.limit(), 2);
    assert_eq!(path.depth(), 0);
    assert_eq!(path.advance(Encounter::Scattered), Step::Bounce);
    assert_eq!(path.depth(), 1);
    assert_eq!(path.advance(Encounter::Absorbed), Step::Done(Ending::Black));
    assert_eq!(path.depth(), 1);
    assert_eq!(path.advance(Encounter::Scattered), Step::Bounce);
    assert_eq!(path.depth(), 2);
    assert!(path.exhausted());
    assert_eq!(path.advance(Encounter::Scattered), Step::Done(Ending::Black));
    assert_eq!(path.advance(Encounter::Miss), Step::Done(Ending::Black));
    assert_eq!(path.depth(), 2);
    assert_eq!(path.limit(), 2);
}

#[test]
fn a_diffuse_sphere_under_the_sky_is_not_black() {
    // One bounce off the sphere, then the scattered ray leaves the scene.
    assert_eq!(walk(1, &[Encounter::Scattered, Encounter::Miss]), (1, Ending::Black));
    assert_eq!(walk(2, &[Encounter::Scattered, Encounter::Miss]), (1, Ending::Sky));
}
