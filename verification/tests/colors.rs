use tracer::color::Color;

const S: i64 = 65536;

#[test]
fn mix_at_zero_returns_first() {
    let a = Color::new(123, 45678, S);
    let b = Color::new(S, 0, 9999);
    assert_eq!(a.mix(&b, 0), a);
}

#[test]
fn mix_at_one_returns_second() {
    let a = Color::new(123, 45678, S);
    let b = Color::new(S, 0, 9999);
    assert_eq!(a.mix(&b, S), b);
}

#[test]
fn mix_midpoint() {
    let a = Color::new(S, 0, 0);
    let b = Color::new(0, S, 0);
    assert_eq!(a.mix(&b, S / 2), Color::new(S / 2, S / 2, 0));
}

#[test]
fn desample_divides_each_channel() {
    let c = Color::new(4 * S, 2 * S, S);
    assert_eq!(c.desample(4), Color::new(S, S / 2, S / 4));
}

#[test]
fn gamma_correct_takes_square_roots() {
    let c = Color::new(S / 4, S, 0);
    assert_eq!(c.gamma_correct(), Color::new(S / 2, S, 0));
}

#[test]
fn desample_then_gamma_is_monotone_per_channel() {
    let lo = Color::new(3 * S, 5 * S, 0);
    let hi = Color::new(4 * S, 5 * S, 7);
    let n = 3;
    let dlo = lo.desample(n).gamma_correct();
    let dhi = hi.desample(n).gamma_correct();
    assert!(dlo.red <= dhi.red);
    assert!(dlo.green <= dhi.green);
    assert!(dlo.blue <= dhi.blue);
}

#[test]
fn as_image_color_clamps_and_scales() {
    let c = Color::new(-5, 2 * S, S / 2);
    assert_eq!(c.as_image_color(), (0, 255, 127));
    let w = Color::new(S, 0, S / 4);
    assert_eq!(w.as_image_color(), (255, 0, 63));
}

#[test]
fn add_assign_accumulates() {
    let mut c = Color::new(1, 2, 3);
    c.add_assign(Color::new(10, 20, 30));
    assert_eq!(c, Color::new(11, 22, 33));
}

#[test]
fn multiplication_by_scalar_and_color() {
    let c = Color::new(S, S / 2, S / 4);
    assert_eq!(c.mul_scalar(S / 2), Color::new(S / 2, S / 4, S / 8));
    let f = Color::new(S / 2, S, 0);
    assert_eq!(c.mul_color(f), Color::new(S / 2, S / 2, 0));
}

#[test]
fn default_color_is_black() {
    assert_eq!(Color::default(), Color::new(0, 0, 0));
}
