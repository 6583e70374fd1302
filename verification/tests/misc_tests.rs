use mocca_matrix::hex::{cube_distance, cube_directions, Cube, Hex};
use mocca_matrix::os::Scheduler;
use mocca_matrix::math::{Vec2, Vec3, Vec4};
use mocca_matrix::matrix::{
    get_matrix, set_matrix, wheel, Rainbow, Rgb, MATRIX_HEIGHT, MATRIX_WIDTH, NUM_LEDS,
};
use mocca_matrix::Error;

#[test]
fn test_vec2_ops() {
    assert_eq!(Vec2::new(3, -4).manhattan(), 7);
    assert_eq!(Vec2::new(2, 3).rotate_right90(), Vec2::new(3, -2));
    assert_eq!(Vec2::new(2, 3).rotate_left90(), Vec2::new(-3, 2));
    assert_eq!(Vec2::new(1, 2).plus(Vec2::new(10, 20)), Vec2::new(11, 22));
    assert_eq!(Vec2::new(2, -3).scaled(4), Vec2::new(8, -12));
}

#[test]
fn test_vec3_vec4() {
    assert_eq!(Vec3::new(1, -2, 3).manhattan(), 6);
    assert_eq!(Vec4::new(1, -2, 3, -4).manhattan(), 10);
}

#[test]
fn test_cube_basics() {
    assert_eq!(Cube::zero(), Cube::new(0, 0, 0));
    let a = Cube::new(1, -1, 0);
    let b = Cube::new(0, 1, -1);
    assert_eq!(a.plus(b), Cube::new(1, 0, -1));
    assert_eq!(a.minus(b), Cube::new(1, -2, 1));
    assert_eq!(a.scaled(3), Cube::new(3, -3, 0));
    assert_eq!(cube_distance(&a, &b), 3);
    assert_eq!(cube_directions().len(), 6);
}

#[test]
fn test_hex_axial() {
    let h = Hex { q: 2, r: -1 };
    let c = h.to_cube();
    assert_eq!((c.x, c.y, c.z), (2, -1, -1));
    let h2 = c.to_hex();
    assert_eq!((h2.q, h2.r), (2, -1));
}

#[test]
fn test_offset_cube_roundtrip() {
    for v in [
        Vec2::new(0, 0),
        Vec2::new(3, 5),
        Vec2::new(-4, 7),
        Vec2::new(10, -3),
        Vec2::new(-6, -9),
    ] {
        let c = Cube::from_offset(v);
        assert_eq!(c.x + c.y + c.z, 0);
        assert_eq!(c.to_offset(), v);
    }
}

#[test]
fn test_set_get_matrix() {
    let mut data = vec![Rgb::new(0, 0, 0); NUM_LEDS];
    let c = Rgb::new(10, 20, 30);
    // (8, 0) is the first mapped position of the top row: LED 0
    assert_eq!(set_matrix(8, 0, c, &mut data), Ok(0));
    assert_eq!(data[0], c);
    assert_eq!(get_matrix(8, 0, &mut data), Ok((0, c)));
    // the corner of the panel has no LED behind it
    assert_eq!(set_matrix(0, 0, c, &mut data), Err(Error::OutOfBounds));
    // positions off the panel are rejected
    assert_eq!(set_matrix(MATRIX_WIDTH, 0, c, &mut data), Err(Error::OutOfBounds));
    assert_eq!(get_matrix(0, MATRIX_HEIGHT, &mut data), Err(Error::OutOfBounds));
}

#[test]
fn test_wheel() {
    assert_eq!(wheel(255), Rgb::new(255, 0, 0));
    assert_eq!(wheel(0), Rgb::new(255, 0, 0));
    assert_eq!(wheel(170), Rgb::new(0, 0, 255));
    // each color keeps the total intensity: r + g + b == 255
    for p in [0u8, 1, 50, 84, 85, 100, 170, 200, 255] {
        let c = wheel(p);
        assert_eq!(c.r as u16 + c.g as u16 + c.b as u16, 255);
    }
}

#[test]
fn test_rainbow() {
    let mut r = Rainbow::step(13);
    let first = r.next_color();
    assert_eq!(first, wheel(0));
    let second = r.next_color();
    assert_eq!(second, wheel(13));

    let mut d = Rainbow::default();
    assert_eq!(d.next_color(), wheel(0));
    assert_eq!(d.next_color(), wheel(1));
}

#[test]
fn test_scheduler_countdown() {
    // intervals 1, 3 and 0 (which counts as 1)
    let mut s = Scheduler::new(&vec![1, 3, 0]);
    assert_eq!(s.tick(), vec![true, false, true]);
    assert_eq!(s.tick(), vec![true, false, true]);
    assert_eq!(s.tick(), vec![true, true, true]);
    assert_eq!(s.tick(), vec![true, false, true]);
}
