use raytracer::color::{Color, FIXED_ONE};

#[test]
fn new_keeps_channels() {
    let c = Color::new(1, 2, 3);
    assert_eq!((c.r, c.g, c.b), (1, 2, 3));
}

#[test]
fn hex_round_trip() {
    let c = Color::from_hex(0x12_34_56);
    assert_eq!(c, Color::new(0x12, 0x34, 0x56));
    assert_eq!(c.to_hex(), 0x12_34_56);
    assert_eq!(Color::from_hex(0xff_ab_cd_ef), Color::new(0xab, 0xcd, 0xef));
    assert_eq!(Color::black().to_hex(), 0);
}

#[test]
fn saturating_add_of_whites_stays_white() {
    let w = Color::new(255, 255, 255);
    assert_eq!(w.add(&w), w);
    assert_eq!(Color::new(200, 10, 0).add(&Color::new(100, 20, 0)), Color::new(255, 30, 0));
}

#[test]
fn channel_product_rounds_down() {
    let a = Color::new(255, 128, 10);
    let b = Color::new(255, 128, 200);
    assert_eq!(a.mul(&b), Color::new(255, 64, 7));
}

#[test]
fn scalar_product_saturates() {
    let c = Color::new(100, 200, 0);
    assert_eq!(c.mul_scalar(FIXED_ONE), c);
    assert_eq!(c.mul_scalar(FIXED_ONE / 2), Color::new(50, 100, 0));
    assert_eq!(c.mul_scalar(3 * FIXED_ONE), Color::new(255, 255, 0));
    assert_eq!(c.mul_scalar(0), Color::black());
}

#[test]
fn lerp_hits_both_ends() {
    let a = Color::new(10, 20, 30);
    let b = Color::new(250, 0, 128);
    assert_eq!(Color::lerp(&a, &b, 0), a);
    assert_eq!(Color::lerp(&a, &b, FIXED_ONE), b);
    assert_eq!(Color::lerp(&a, &b, FIXED_ONE / 2), Color::new(130, 10, 79));
}

#[test]
fn intensity_is_mean_fraction() {
    assert_eq!(Color::new(255, 255, 255).intensity(), FIXED_ONE);
    assert_eq!(Color::black().intensity(), 0);
    assert_eq!(Color::new(255, 0, 0).intensity(), 3333);
}

#[test]
fn describe_prints_channels() {
    assert_eq!(Color::new(1, 22, 255).describe(), "Color(r: 1, g: 22, b: 255)");
}
