use mandel::color::{channel_mix, hsv_base, hsv_to_rgb, rgb_convert, MixRatio};
use mandel::escape::{escape_color, EscapeTime};

fn ratio(num: u32, den: u32) -> MixRatio {
    MixRatio::new(num, den).unwrap()
}

#[test]
fn hue_zero_is_half_red() {
    assert_eq!(hsv_base(0), (127, 0, 0));
}

#[test]
fn hue_120_is_green_sector() {
    assert_eq!(hsv_base(120), (0, 127, 0));
    assert_eq!(hsv_base(150), (0, 127, 63));
}

#[test]
fn hue_240_is_blue_sector() {
    assert_eq!(hsv_base(240), (0, 0, 127));
    assert_eq!(hsv_base(270), (63, 0, 127));
}

#[test]
fn sector_edges_closed_below_open_above() {
    assert_eq!(hsv_base(59), (127, 125, 0));
    assert_eq!(hsv_base(60), (127, 127, 0));
    assert_eq!(hsv_base(61), (125, 127, 0));
    assert_eq!(hsv_base(119), (2, 127, 0));
    assert_eq!(hsv_base(179), (0, 127, 125));
    assert_eq!(hsv_base(180), (0, 127, 127));
    assert_eq!(hsv_base(181), (0, 125, 127));
    assert_eq!(hsv_base(239), (0, 2, 127));
    assert_eq!(hsv_base(299), (125, 0, 127));
    assert_eq!(hsv_base(300), (127, 0, 127));
    assert_eq!(hsv_base(359), (127, 0, 2));
}

#[test]
fn secondary_channel_truncates() {
    assert_eq!(hsv_base(30), (127, 63, 0));
    assert_eq!(hsv_base(1), (127, 2, 0));
    assert_eq!(hsv_base(8), (127, 17, 0));
}

#[test]
fn mix_ratio_one_keeps_channels() {
    assert_eq!(channel_mix((127, 63, 0), ratio(1, 1)), (127, 63, 0));
    assert_eq!(channel_mix((12, 200, 255), ratio(7, 7)), (12, 200, 255));
}

#[test]
fn mix_ratio_zero_rotates_channels() {
    assert_eq!(channel_mix((127, 63, 0), ratio(0, 1)), (63, 0, 127));
    assert_eq!(channel_mix((12, 200, 255), ratio(0, 5)), (200, 255, 12));
}

#[test]
fn mix_blends_then_truncates() {
    // 0.3 * 127 + 0.7 * 63 = 82.2; 0.3 * 63 = 18.9; 0.7 * 127 = 88.9
    assert_eq!(channel_mix((127, 63, 0), ratio(3, 10)), (82, 18, 88));
    assert_eq!(channel_mix((255, 255, 255), ratio(1, 3)), (255, 255, 255));
    assert_eq!(channel_mix((1, 0, 0), ratio(1, 2)), (0, 0, 0));
}

#[test]
fn hsv_to_rgb_applies_mix() {
    assert_eq!(hsv_to_rgb(30, ratio(1, 1)), (127, 63, 0));
    assert_eq!(hsv_to_rgb(30, ratio(3, 10)), (82, 18, 88));
}

#[test]
fn rgb_convert_wraps_hue() {
    let k = ratio(1, 1);
    assert_eq!(rgb_convert(390, k), rgb_convert(30, k));
    assert_eq!(rgb_convert(360, k), (127, 0, 0));
    assert_eq!(rgb_convert(65535, k), hsv_base(65535 % 360));
    assert_eq!(rgb_convert(2, k), (127, 4, 0));
}

#[test]
fn mix_ratio_rejects_out_of_range() {
    assert!(MixRatio::new(1, 0).is_none());
    assert!(MixRatio::new(0, 0).is_none());
    assert!(MixRatio::new(4, 3).is_none());
    let m = MixRatio::new(3, 10).unwrap();
    assert_eq!((m.num, m.den), (3, 10));
}

#[test]
fn escape_color_of_outcomes() {
    let k = ratio(1, 1);
    assert_eq!(escape_color(EscapeTime::Bounded, k), (0, 0, 0));
    assert_eq!(escape_color(EscapeTime::Diverged(2), k), (127, 4, 0));
    assert_eq!(escape_color(EscapeTime::Diverged(480), k), hsv_base(120));
}
