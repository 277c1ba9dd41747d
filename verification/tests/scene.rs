use raytracer::color::Color;
use raytracer::light_ray::{Bounce, LightRay};
use raytracer::scene::render;
use std::cell::RefCell;

#[test]
fn frame_is_row_major() {
    let frame = render(4, 3, |x, y| Color::new(x as u8, y as u8, 7));
    assert_eq!(frame.len(), 12);
    for y in 0..3u32 {
        for x in 0..4u32 {
            let color = frame[(y * 4 + x) as usize];
            assert_eq!((color.r, color.g, color.b), (x as u8, y as u8, 7));
        }
    }
}

#[test]
fn frame_of_an_empty_scene_is_background() {
    let frame = render(5, 2, |x, y| LightRay::new((x, y)).trace(&vec![Bounce::Miss]));
    assert_eq!(frame.len(), 10);
    assert!(frame.iter().all(|c| (c.r, c.g, c.b) == (64, 64, 64)));
}

#[test]
fn frame_without_pixels_is_empty() {
    assert!(render(0, 9, |_, _| Color::new(1, 1, 1)).is_empty());
    assert!(render(9, 0, |_, _| Color::new(1, 1, 1)).is_empty());
}

#[test]
fn every_pixel_is_traced_once() {
    let asked: RefCell<Vec<(u32, u32)>> = RefCell::new(Vec::new());
    let frame = render(3, 2, |x, y| {
        asked.borrow_mut().push((x, y));
        Color::new(0, 0, 0)
    });
    assert_eq!(frame.len(), 6);
    assert_eq!(*asked.borrow(), vec![(0, 0), (1, 0), (2, 0), (0, 1), (1, 1), (2, 1)]);
}
