use raytracing::approx::{ApproxEq, EPS};
use raytracing::color::{to_u8, Color};

fn fx(v: f64) -> i64 {
    (v * 10000.0).round() as i64
}

fn rgb(r: f64, g: f64, b: f64) -> Color {
    Color(fx(r), fx(g), fx(b))
}

#[test]
fn to_u8_works() {
    let cases = vec![
        (-0.5, 0),
        (0.0, 0),
        (0.001, 0),
        (0.5, 0x80),
        (0.999, 0xff),
        (1.0, 0xff),
        (1.5, 0xff),
        (12345678.9, 0xff),
    ];
    for (f, want) in cases {
        let got = to_u8(fx(f));
        assert_eq!(got, want, "to_u8({}) == {}, want {}", f, got, want)
    }
}

#[test]
fn color_u8() {
    assert_eq!(rgb(0.25, 0.5, 0.75).to_u8(), (0x40, 0x80, 0xc0));
    assert_eq!(rgb(-1.1, 0.0, 99.9).to_u8(), (0, 0, 0xff));
}

#[test]
fn color_approx_eq() {
    let small = EPS / 2;
    let big = EPS * 2;
    let c = rgb(0.1, 0.2, 0.3);
    assert!(c.approx_eq(Color(fx(0.1) + small, fx(0.2) - small, fx(0.3) + small)));
    assert!(!c.approx_eq(Color(fx(0.1) + big, fx(0.2), fx(0.3))));
    assert!(!c.approx_eq(Color(fx(0.1), fx(0.2) - big, fx(0.3))));
    assert!(!c.approx_eq(Color(fx(0.1), fx(0.2), fx(0.3) + big)));
}

#[test]
fn color_ops() {
    let c = rgb(0.1, 0.2, 0.3);
    let d = rgb(0.2, 0.3, 0.4);
    assert!(c.scale(fx(2.0)).approx_eq(rgb(0.2, 0.4, 0.6)));
    assert!(c.scale(fx(2.0)).approx_eq(rgb(0.2, 0.4, 0.6)));
    assert!(c.add(d).approx_eq(rgb(0.3, 0.5, 0.7)));
}

#[test]
fn color_scale_rounds_down_exactly() {
    // 0.3333 * 0.5 = 0.16665, kept to four places by rounding down
    assert_eq!(Color(3333, -3333, 0).scale(5000), Color(1666, -1667, 0));
}

#[test]
fn color_ops_saturate_at_the_limit() {
    let big = Color(268435456, -268435456, 0);
    assert_eq!(big.add(big), big);
    assert_eq!(big.scale(fx(3.0)), big);
}

#[test]
fn to_u8_boundaries() {
    assert_eq!(to_u8(-1), 0);
    assert_eq!(to_u8(39), 0); // 256 * 0.0039 = 0.9984
    assert_eq!(to_u8(40), 1); // 256 * 0.004 = 1.024
    assert_eq!(to_u8(9961), 255);
    assert_eq!(to_u8(9960), 254);
    assert_eq!(to_u8(i64::MAX), 255);
    assert_eq!(to_u8(i64::MIN), 0);
}

#[test]
fn black_and_white() {
    assert_eq!(Color::black(), rgb(0.0, 0.0, 0.0));
    assert_eq!(Color::white(), rgb(1.0, 1.0, 1.0));
    assert_eq!(Color::white().to_u8(), (0xff, 0xff, 0xff));
}
