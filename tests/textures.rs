use raytracer::color::{Color, FIXED_ONE};
use raytracer::texture::{Skybox, Texture};

fn grid() -> Texture {
    // 2 x 2: red, green / blue, white
    let rgba = vec![255, 0, 0, 9, 0, 255, 0, 9, 0, 0, 255, 9, 255, 255, 255, 9];
    Texture::from_rgba(2, 2, &rgba)
}

#[test]
fn rgba_drops_alpha() {
    let t = grid();
    assert_eq!(t.pixels, vec![
        Color::new(255, 0, 0),
        Color::new(0, 255, 0),
        Color::new(0, 0, 255),
        Color::new(255, 255, 255),
    ]);
}

#[test]
fn sample_picks_nearest_cell() {
    let t = grid();
    assert_eq!(t.sample(0, 0), Color::new(255, 0, 0));
    assert_eq!(t.sample(FIXED_ONE / 2, 0), Color::new(0, 255, 0));
    assert_eq!(t.sample(0, FIXED_ONE - 1), Color::new(0, 0, 255));
    assert_eq!(t.sample(FIXED_ONE, FIXED_ONE), Color::new(255, 255, 255));
}

fn solid(c: u8) -> Texture {
    Texture::from_rgba(1, 1, &vec![c, c, c, 255])
}

#[test]
fn skybox_reports_first_failed_face() {
    let r = Skybox::load(Ok(solid(1)), Ok(solid(2)), Err("gone".to_string()), Err("x".to_string()), Ok(solid(5)), Ok(solid(6)));
    assert_eq!(r.err(), Some("skybox py: gone".to_string()));
}

#[test]
fn skybox_samples_dominant_axis() {
    let s = Skybox::load(Ok(solid(1)), Ok(solid(2)), Ok(solid(3)), Ok(solid(4)), Ok(solid(5)), Ok(solid(6))).unwrap();
    assert_eq!(s.sample(10, 1, -3), Color::new(1, 1, 1));
    assert_eq!(s.sample(-10, 1, -3), Color::new(2, 2, 2));
    assert_eq!(s.sample(0, 7, 1), Color::new(3, 3, 3));
    assert_eq!(s.sample(0, -7, 1), Color::new(4, 4, 4));
    assert_eq!(s.sample(1, 1, 9), Color::new(5, 5, 5));
    assert_eq!(s.sample(1, 1, -9), Color::new(6, 6, 6));
}
