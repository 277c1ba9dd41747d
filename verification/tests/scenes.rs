// Whole scenes, traced the way a caller does it: the geometry in floating
// point here, the decisions in the library.

use raytracer::camera::{recenter, CameraPixelIterator};
use raytracer::color::Color;
use raytracer::double::Double;
use raytracer::light_ray::{
    compute_shadows, find_closest_intersection, Bounce, LightRay, LightSample,
};
use raytracer::object::sphere_intersects;
use raytracer::primitives::{rotation_order, Rotation};
use raytracer::scene::render;

type Vector = [f64; 3];

struct Ball {
    center: Vector,
    radius: f64,
    color: Color,
}

fn exact(x: f64) -> Double {
    Double::from_bits(x.to_bits()).expect("a number")
}

fn plus(a: Vector, b: Vector) -> Vector {
    [a[0] + b[0], a[1] + b[1], a[2] + b[2]]
}

fn times(a: Vector, k: f64) -> Vector {
    [a[0] * k, a[1] * k, a[2] * k]
}

fn dot(a: Vector, b: Vector) -> f64 {
    a[0] * b[0] + a[1] * b[1] + a[2] * b[2]
}

fn unit(a: Vector) -> Vector {
    let length = dot(a, a).sqrt();
    assert!(length > 0.0);
    times(a, 1.0 / length)
}

fn turned(a: Vector, theta: f64, axis: Rotation) -> Vector {
    let (first, second) = axis.plane();
    let mut b = a;
    b[first] = theta.cos() * a[first] - theta.sin() * a[second];
    b[second] = theta.sin() * a[first] + theta.cos() * a[second];
    b
}

/// Where the ray from `origin` along `direction` meets `ball`: the point,
/// the outward normal there, and the distance along the ray.
fn meet(ball: &Ball, origin: Vector, direction: Vector) -> Option<(Vector, Vector, f64)> {
    let along = (dot(direction, ball.center) - dot(direction, origin)) / dot(direction, direction);
    let nearest = plus(origin, times(direction, along));
    let offset = plus(nearest, times(ball.center, -1.0));
    let apart = dot(offset, offset).sqrt();
    if sphere_intersects(&exact(along), &exact(apart), &exact(ball.radius)) {
        let distance = along - (ball.radius * ball.radius - apart * apart).sqrt();
        let point = plus(origin, times(direction, distance));
        let normal = unit(plus(point, times(ball.center, -1.0)));
        Some((point, normal, distance))
    } else {
        None
    }
}

fn distances(balls: &[Ball], origin: Vector, direction: Vector) -> Vec<Option<Double>> {
    balls.iter().map(|ball| meet(ball, origin, direction).map(|hit| exact(hit.2))).collect()
}

/// The share of the light that reaches `point`, for each light.
fn shares(balls: &[Ball], lights: &[Vector], point: Vector, normal: Vector) -> Vec<f64> {
    let samples: Vec<LightSample> = lights
        .iter()
        .map(|&light| {
            let towards = unit(plus(light, times(point, -1.0)));
            let start = plus(point, times(normal, 1e-20));
            let cosine = dot(normal, towards);
            LightSample {
                shadow_hits: distances(balls, start, towards),
                unshadowed: exact(cosine * cosine),
            }
        })
        .collect();
    compute_shadows(&samples).iter().map(|d| f64::from_bits(d.to_bits())).collect()
}

fn traced(balls: &[Ball], lights: &[Vector], origin: Vector, direction: Vector) -> Color {
    let mut ray = LightRay::new((origin, unit(direction)));
    loop {
        let (origin, direction) = ray.current();
        let found = match find_closest_intersection(&distances(balls, origin, direction)) {
            None => Bounce::Miss,
            Some(closest) => {
                let (point, normal, _) = meet(&balls[closest], origin, direction).unwrap();
                let given = shares(balls, lights, point, normal);
                let count = given.len() as f64;
                let shadow = given.iter().fold(0.0, |sum, share| sum + share / count);
                let thrown = plus(direction, times(normal, -2.0 * dot(direction, normal)));
                Bounce::Hit {
                    color: balls[closest].color,
                    shadow: exact(shadow),
                    reflected: (point, unit(thrown)),
                }
            },
        };
        if !ray.bounce(found) {
            return ray.accumulated();
        }
    }
}

fn white_ball() -> Ball {
    Ball { center: [10.0, 0.0, 0.0], radius: 0.5, color: Color::new(255, 255, 255) }
}

#[test]
fn ray_straight_at_a_sphere_hits_its_near_side() {
    let hit = meet(&white_ball(), [0.0, 0.0, 0.0], [1.0, 0.0, 0.0]);
    let (point, normal, distance) = hit.expect("a hit");
    assert_eq!(distance, 9.5);
    assert_eq!(normal, [-1.0, 0.0, 0.0]);
    assert_eq!(point, [9.5, 0.0, 0.0]);
}

#[test]
fn ray_past_a_sphere_misses_it() {
    assert!(meet(&white_ball(), [0.0, 0.0, 0.0], [0.0, 1.0, 0.0]).is_none());
    assert!(meet(&white_ball(), [0.0, 0.0, 0.0], [-1.0, 0.0, 0.0]).is_none());
}

#[test]
fn nearer_of_two_spheres_gives_the_color() {
    let red = Ball { center: [5.5, 0.0, 0.0], radius: 0.5, color: Color::new(255, 0, 0) };
    let blue = Ball { center: [10.5, 0.0, 0.0], radius: 0.5, color: Color::new(0, 0, 255) };
    let lights = [[0.0, 0.0, 0.0]];
    let (origin, direction) = ([0.0, 0.0, 0.0], [1.0, 0.0, 0.0]);

    let hits = distances(&[blue, red], origin, direction);
    assert_eq!(hits.iter().map(|d| d.map(|d| d.to_bits())).collect::<Vec<_>>(), vec![
        Some(10.0f64.to_bits()),
        Some(5.0f64.to_bits()),
    ]);
    assert_eq!(find_closest_intersection(&hits), Some(1));

    let red = Ball { center: [5.5, 0.0, 0.0], radius: 0.5, color: Color::new(255, 0, 0) };
    let blue = Ball { center: [10.5, 0.0, 0.0], radius: 0.5, color: Color::new(0, 0, 255) };
    // lit head on from the origin: the red sphere at full strength
    let color = traced(&[blue, red], &lights, origin, direction);
    assert_eq!((color.r, color.g, color.b), (147, 0, 0));
}

#[test]
fn sphere_between_point_and_light_takes_the_light_away() {
    // a floor point on top of a large sphere, a light above it, and a small
    // sphere in between
    let ground = Ball { center: [0.0, -100.0, 0.0], radius: 100.0, color: Color::new(200, 200, 200) };
    let blocker = Ball { center: [0.0, 2.5, 0.0], radius: 0.5, color: Color::new(9, 9, 9) };
    let light = [0.0, 5.0, 0.0];
    let (point, normal) = ([0.0, 0.0, 0.0], [0.0, 1.0, 0.0]);

    let open = shares(&[Ball { ..ground }], &[light], point, normal);
    assert_eq!(open, vec![1.0]);
    let shut = shares(&[ground, blocker], &[light], point, normal);
    assert_eq!(shut, vec![0.0]);
}

#[test]
fn one_of_two_lights_hidden_halves_the_light() {
    let blocker = Ball { center: [0.0, 2.5, 0.0], radius: 0.5, color: Color::new(9, 9, 9) };
    let lights = [[0.0, 5.0, 0.0], [3.0, 4.0, 0.0]];
    let given = shares(&[blocker], &lights, [0.0, 0.0, 0.0], [0.0, 1.0, 0.0]);
    assert_eq!(given[0], 0.0);
    assert!((given[1] - 0.64).abs() < 1e-12);
}

#[test]
fn empty_scene_is_background_all_over() {
    let frame = render(4, 4, |x, y| {
        let (x, y) = recenter(x, y, 4, 4);
        traced(&[], &[[0.0, 5.0, 0.0]], [0.0, 0.0, 0.0], [1.0, x as f64 / 4.0, y as f64 / 4.0])
    });
    assert_eq!(frame.len(), 16);
    assert!(frame.iter().all(|color| *color == Color::new(64, 64, 64)));
}

#[test]
fn sphere_shows_in_the_middle_of_the_frame() {
    let (width, height) = (9u32, 9u32);
    let frame = render(width, height, |x, y| {
        let (x, y) = recenter(x, y, width, height);
        let towards = [1.0, x as f64 / 9.0, y as f64 / 9.0];
        let ball = Ball { center: [3.0, 0.0, 0.0], radius: 1.0, color: Color::new(255, 255, 255) };
        traced(&[ball], &[[0.0, 0.0, 0.0]], [0.0, 0.0, 0.0], towards)
    });
    let pixels = CameraPixelIterator::new(width, height).collect();
    for (&(x, y), color) in pixels.iter().zip(frame.iter()) {
        if (x, y) == (4, 4) {
            assert_eq!(*color, Color::new(255, 255, 255));
        }
        if x == 0 || y == 0 || x == 8 || y == 8 {
            assert_eq!(*color, Color::new(64, 64, 64));
        }
    }
}

#[test]
fn turning_there_and_back_changes_nothing() {
    let v = [0.3, -1.2, 2.5];
    for axis in rotation_order() {
        assert_eq!(turned(v, 0.0, axis), v);
        let back = turned(turned(v, 0.7, axis), -0.7, axis);
        for i in 0..3 {
            assert!((back[i] - v[i]).abs() < 1e-12);
        }
        let (first, second) = axis.plane();
        let kept = 3 - first - second;
        assert_eq!(turned(v, 0.7, axis)[kept], v[kept]);
    }
}
