use unicornify::color::Color;
use unicornify::fixed::FX_ONE;

#[test]
fn test_rgb_rgba() {
    let c = Color::rgb(1, 2, 3);
    assert_eq!((c.r, c.g, c.b, c.a), (1, 2, 3, 255));
    let d = Color::rgba(4, 5, 6, 7);
    assert_eq!((d.r, d.g, d.b, d.a), (4, 5, 6, 7));
    assert_eq!(Color::black(), Color::rgb(0, 0, 0));
    assert_eq!(Color::white(), Color::rgb(255, 255, 255));
}

#[test]
fn test_darken_lighten_saturate() {
    let c = Color::rgb(10, 128, 250);
    let d = c.darken(20);
    assert_eq!((d.r, d.g, d.b), (0, 108, 230));
    let l = c.lighten(20);
    assert_eq!((l.r, l.g, l.b), (30, 148, 255));
}

#[test]
fn test_hsl_primaries() {
    // full saturation, half lightness: the pure hues
    assert_eq!(Color::hsl(0, 100, 50), Color::rgb(255, 0, 0));
    assert_eq!(Color::hsl(120, 100, 50), Color::rgb(0, 255, 0));
    assert_eq!(Color::hsl(240, 100, 50), Color::rgb(0, 0, 255));
    // zero saturation short-circuits to white
    assert_eq!(Color::hsl(77, 0, 31), Color::white());
    // dark green: the ramp value itself is small, but the doubled 255
    // scale saturates any channel the hue reaches
    assert_eq!(Color::hsl(120, 100, 25), Color::rgb(0, 255, 0));
    // hue wraps around the circle
    assert_eq!(Color::hsl(360, 100, 50), Color::hsl(0, 100, 50));
    assert_eq!(Color::hsl(-240, 100, 50), Color::hsl(120, 100, 50));
}

#[test]
fn test_mix_channels() {
    let red = Color::rgb(255, 0, 0);
    let blue = Color::rgb(0, 0, 255);
    assert_eq!(red.mix(blue, 0), red);
    assert_eq!(red.mix(blue, FX_ONE), blue);
    let half = red.mix(blue, FX_ONE / 2);
    // halves round away from zero in each channel's step
    assert_eq!((half.r, half.g, half.b, half.a), (127, 0, 128, 255));
}
