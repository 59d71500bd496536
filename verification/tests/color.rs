use egui_skia::color::{unmultiply, Color};
use egui_skia::geometry::Color32;

fn in_floats(channel: u8, alpha: u8) -> u8 {
    let unit = |c: u8| f32::from(c) * (1.0 / 255.0);
    let mut x = unit(channel);
    if unit(alpha) > 0.0 {
        x /= unit(alpha);
    }
    (x * 255.0) as u8
}

#[test]
fn every_channel_comes_out_as_in_floats() {
    for alpha in 0..=255 {
        for channel in 0..=255 {
            let r = unmultiply(channel, alpha);
            assert_eq!(r, in_floats(channel, alpha), "{channel} / {alpha}");
        }
    }
}

#[test]
fn opaque_and_invisible_colors_stay() {
    for channel in 0..=255 {
        assert_eq!(unmultiply(channel, 255), channel);
        assert_eq!(unmultiply(channel, 0), channel);
    }
}

#[test]
fn empty_and_full_channels() {
    for alpha in 1..=255 {
        assert_eq!(unmultiply(0, alpha), 0);
        assert_eq!(unmultiply(alpha, alpha), 255);
    }
}

#[test]
fn a_channel_is_at_most_one_too_low() {
    for alpha in 1..=255u8 {
        for channel in 0..=alpha {
            let exact = 255 * channel as u32 / alpha as u32;
            let r = unmultiply(channel, alpha) as u32;
            let whole = 255 * channel as u32 % alpha as u32 == 0;
            assert!(r == exact || (whole && r + 1 == exact), "{channel} / {alpha}");
        }
    }
    assert_eq!(unmultiply(1, 3), 84);
    assert_eq!(unmultiply(1, 2), 127);
}

#[test]
fn channels_above_alpha_are_cut() {
    assert_eq!(unmultiply(255, 1), 255);
    assert_eq!(unmultiply(4, 2), 255);
}

#[test]
fn alpha_stays() {
    let color = Color32 { r: 10, g: 64, b: 128, a: 128 };
    assert_eq!(color.unmultiplied(), Color { a: 128, r: 19, g: 127, b: 255 });
}
