use raytracer::color::Color;
use raytracer::double::Double;
use raytracer::light_ray::{
    compute_shadows, find_closest_intersection, Bounce, LightRay, LightSample, BACKGROUND_LEVEL,
    NUM_RAYS,
};

fn dist(x: f64) -> Option<Double> {
    Double::from_bits(x.to_bits())
}

fn shade(x: f64) -> Double {
    Double::from_bits(x.to_bits()).unwrap()
}

fn channels(color: Color) -> (u8, u8, u8) {
    (color.r, color.g, color.b)
}

/// A hit on a surface of the given color, from which the ray numbered
/// `reflected` goes on. Rays are told apart by a number here.
fn hit(color: (u8, u8, u8), shadow: f64, reflected: u32) -> Bounce<u32> {
    Bounce::Hit { color: Color::new(color.0, color.1, color.2), shadow: shade(shadow), reflected }
}

#[test]
fn one_bounce_is_the_policy() {
    assert_eq!(NUM_RAYS, 1);
    assert_eq!(BACKGROUND_LEVEL, 128);
}

#[test]
fn closest_of_two_spheres_along_one_ray() {
    // a sphere at distance 5 and one at distance 10, in either order
    assert_eq!(find_closest_intersection(&vec![dist(5.0), dist(10.0)]), Some(0));
    assert_eq!(find_closest_intersection(&vec![dist(10.0), dist(5.0)]), Some(1));
}

#[test]
fn closest_skips_objects_that_are_missed() {
    let hits = vec![None, dist(10.0), None, dist(9.5), None];
    assert_eq!(find_closest_intersection(&hits), Some(3));
}

#[test]
fn closest_of_equal_distances_is_the_earlier() {
    let hits = vec![dist(7.0), dist(3.0), dist(3.0), dist(3.0)];
    assert_eq!(find_closest_intersection(&hits), Some(1));
    let zeros = vec![dist(0.0), dist(-0.0)];
    assert_eq!(find_closest_intersection(&zeros), Some(0));
    let zeros = vec![dist(-0.0), dist(0.0)];
    assert_eq!(find_closest_intersection(&zeros), Some(0));
}

#[test]
fn closest_of_nothing_is_none() {
    assert_eq!(find_closest_intersection(&vec![]), None);
    assert_eq!(find_closest_intersection(&vec![None, None]), None);
}

#[test]
fn closest_takes_negative_distances_in_order() {
    let hits = vec![dist(1.0), dist(-2.0), dist(-0.5)];
    assert_eq!(find_closest_intersection(&hits), Some(1));
}

#[test]
fn closest_of_one() {
    assert_eq!(find_closest_intersection(&vec![dist(f64::INFINITY)]), Some(0));
}

#[test]
fn occluded_light_gives_nothing() {
    // a sphere between the point and the light
    let lights = vec![LightSample { shadow_hits: vec![dist(2.0)], unshadowed: shade(0.81) }];
    let given = compute_shadows(&lights);
    assert_eq!(given.len(), 1);
    assert_eq!(f64::from_bits(given[0].to_bits()), 0.0);
}

#[test]
fn free_light_gives_its_share() {
    let lights = vec![LightSample { shadow_hits: vec![None, None], unshadowed: shade(0.81) }];
    let given = compute_shadows(&lights);
    assert_eq!(f64::from_bits(given[0].to_bits()), 0.81);
}

#[test]
fn lights_are_judged_one_by_one() {
    let lights = vec![
        LightSample { shadow_hits: vec![None, dist(4.0)], unshadowed: shade(1.0) },
        LightSample { shadow_hits: vec![None, None], unshadowed: shade(0.25) },
        LightSample { shadow_hits: vec![], unshadowed: shade(0.5) },
        LightSample { shadow_hits: vec![dist(1.0), dist(1.0)], unshadowed: shade(0.75) },
    ];
    let given: Vec<f64> =
        compute_shadows(&lights).iter().map(|d| f64::from_bits(d.to_bits())).collect();
    assert_eq!(given, vec![0.0, 0.25, 0.5, 0.0]);
}

#[test]
fn no_lights_no_intensities() {
    assert!(compute_shadows(&vec![]).is_empty());
}

#[test]
fn new_ray_is_black() {
    let ray = LightRay::new(7u32);
    assert_eq!(channels(ray.accumulated()), (0, 0, 0));
    assert_eq!(ray.current(), 7);
}

#[test]
fn empty_scene_gives_the_background() {
    let mut ray = LightRay::new(7u32);
    let color = ray.trace(&vec![Bounce::Miss]);
    assert_eq!(channels(color), (64, 64, 64));
    assert_eq!(channels(ray.accumulated()), (64, 64, 64));
    assert_eq!(ray.current(), 7);
}

#[test]
fn lit_surface_gives_its_color() {
    let mut ray = LightRay::new(7u32);
    assert_eq!(channels(ray.trace(&vec![hit((255, 255, 255), 1.0, 8)])), (255, 255, 255));
}

#[test]
fn surface_in_full_shadow_is_black() {
    let mut ray = LightRay::new(7u32);
    assert_eq!(channels(ray.trace(&vec![hit((255, 255, 100), 0.0, 8)])), (0, 0, 0));
}

#[test]
fn surface_in_half_shadow() {
    let mut ray = LightRay::new(7u32);
    // scaled to (127, 127, 50), norm 186.4..., over 441.67...
    assert_eq!(channels(ray.trace(&vec![hit((255, 255, 100), 0.5, 8)])), (53, 53, 21));
}

#[test]
fn hit_sends_the_reflected_ray_on() {
    let mut ray = LightRay::with_depth(1u32, 3);
    assert!(ray.bounce(hit((10, 10, 10), 1.0, 2)));
    assert_eq!(ray.current(), 2);
    assert!(ray.bounce(hit((10, 10, 10), 1.0, 3)));
    assert_eq!(ray.current(), 3);
    assert!(!ray.bounce(Bounce::Miss));
    assert_eq!(ray.current(), 3);
}

#[test]
fn nothing_found_leaves_the_ray_as_it_is() {
    let mut ray = LightRay::new(7u32);
    assert_eq!(channels(ray.trace(&vec![])), (0, 0, 0));
    assert_eq!(ray.current(), 7);
    assert!(ray.bounce(Bounce::Miss) == false);
    assert_eq!(channels(ray.accumulated()), (64, 64, 64));
}

#[test]
fn trace_stops_after_the_last_bounce() {
    let white = hit((255, 255, 255), 1.0, 8);
    let mut ray = LightRay::new(7u32);
    let color = ray.trace(&vec![Bounce::Miss, white, white]);
    assert_eq!(channels(color), (64, 64, 64));
    assert_eq!(ray.current(), 7);
    let mut ray = LightRay::new(7u32);
    let color = ray.trace(&vec![white, Bounce::Miss]);
    assert_eq!(channels(color), (255, 255, 255));
    assert_eq!(ray.current(), 8);
}

#[test]
fn bounce_tells_whether_the_ray_goes_on() {
    let mut ray = LightRay::new(7u32);
    let grey = hit((100, 100, 100), 1.0, 8);
    assert!(!ray.bounce(grey));
    let after = channels(ray.accumulated());
    assert!(!ray.bounce(hit((100, 100, 100), 1.0, 9)));
    assert!(!ray.bounce(Bounce::Miss));
    assert_eq!(channels(ray.accumulated()), after);
    assert_eq!(ray.current(), 8);
}

#[test]
fn deeper_rays_take_in_more() {
    let grey = hit((100, 100, 100), 1.0, 8);
    let mut ray = LightRay::with_depth(7u32, 2);
    assert!(ray.bounce(grey));
    // sums (100, 100, 100): 100 * 100 / 255 = 39.2...
    assert_eq!(channels(ray.accumulated()), (39, 39, 39));
    assert!(!ray.bounce(grey));
    // sums (139, 139, 139): 139 * 139 / 255 = 75.7...
    assert_eq!(channels(ray.accumulated()), (75, 75, 75));

    let mut ray = LightRay::with_depth(7u32, 3);
    // 39 and the background: sums (167, 167, 167), 167 * 167 / 255 = 109.3...
    assert_eq!(channels(ray.trace(&vec![grey, Bounce::Miss, grey])), (109, 109, 109));
    assert!(!ray.bounce(grey));

    let mut ray = LightRay::with_depth(7u32, 0);
    assert_eq!(channels(ray.trace(&vec![grey, Bounce::Miss])), (0, 0, 0));
    assert_eq!(ray.current(), 7);
}
