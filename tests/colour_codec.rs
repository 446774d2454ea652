use img_to_array::{Rgb, Rgb565};

fn expand(v: u16) -> Rgb {
    let r = ((v >> 11) as u32) << 3;
    let g = (((v >> 5) & 0x3f) as u32) << 2;
    let b = ((v & 0x1f) as u32) << 3;
    Rgb((r << 16) | (g << 8) | b)
}

#[test]
fn rgb565_of_primaries() {
    assert_eq!(Rgb565::from_rgb(&Rgb(0xFF0000)), Rgb565(0xF800));
    assert_eq!(Rgb565::from_rgb(&Rgb(0x00FF00)), Rgb565(0x07E0));
    assert_eq!(Rgb565::from_rgb(&Rgb(0x0000FF)), Rgb565(0x001F));
    assert_eq!(Rgb565::from_rgb(&Rgb(0xFFFFFF)), Rgb565(0xFFFF));
    assert_eq!(Rgb565::from_rgb(&Rgb(0x000000)), Rgb565(0x0000));
}

#[test]
fn rgb565_truncates_low_bits() {
    // 0x17 >> 3 = 2, 0x2B >> 2 = 10, 0x3F >> 3 = 7
    assert_eq!(Rgb565::from_rgb(&Rgb(0x172B3F)), Rgb565((2 << 11) | (10 << 5) | 7));
    assert_eq!(Rgb565::from_rgb(&Rgb(0x070307)), Rgb565(0));
}

#[test]
fn rgb565_stable_on_expanded_values() {
    let samples: [u32; 6] = [0x123456, 0xFFFFFF, 0x000000, 0x808080, 0xABCDEF, 0x0F0F0F];
    for c in samples.iter() {
        let v = Rgb565::from_rgb(&Rgb(*c));
        assert_eq!(Rgb565::from_rgb(&expand(v.0)), v);
    }
    for v in [0u16, 1, 0x07E0, 0xF800, 0xFFFF, 0x1234].iter() {
        assert_eq!(Rgb565::from_rgb(&expand(*v)).0, *v);
    }
}

#[test]
fn rgb_from_bgra_samples() {
    assert_eq!(Rgb::from_bgra([0, 0, 255, 255]), Rgb(0xFF0000));
    assert_eq!(Rgb::from_bgra([0x56, 0x34, 0x12, 0x00]), Rgb(0x123456));
    assert_eq!(Rgb::from_bgra([1, 2, 3, 4]), Rgb(0x030201));
}
