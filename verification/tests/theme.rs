use zen_markdown::{Palette, Rgb, ThemeMode};

#[test]
fn tokyo_night_colors() {
    let p = Palette::tokyo_night();
    assert_eq!(p.mode, ThemeMode::Dark);
    assert_eq!(p.bg, Rgb { r: 0x1A, g: 0x1B, b: 0x26 });
    assert_eq!(p.accent_orange, Rgb { r: 0xFF, g: 0x9E, b: 0x64 });
}

#[test]
fn tokyo_day_colors() {
    let p = Palette::tokyo_day();
    assert_eq!(p.mode, ThemeMode::Light);
    assert_eq!(p.text, Rgb { r: 0x3D, g: 0x42, b: 0x6B });
    assert_eq!(p.quote_bg, Rgb { r: 0xD5, g: 0xDA, b: 0xEB });
}

#[test]
fn heading_colors_by_level() {
    let p = Palette::tokyo_night();
    assert_eq!(p.heading_color(1), p.accent);
    assert_eq!(p.heading_color(2), p.accent_soft);
    assert_eq!(p.heading_color(3), p.accent_cyan);
    assert_eq!(p.heading_color(4), p.accent_purple);
    assert_eq!(p.heading_color(5), p.text);
    assert_eq!(p.heading_color(0), p.text);
}

#[test]
fn toggling_twice_is_identity() {
    let n = Palette::tokyo_night();
    assert_eq!(n.toggled(), Palette::tokyo_day());
    assert_eq!(n.toggled().toggled(), n);
    let d = Palette::tokyo_day();
    assert_eq!(d.toggled().toggled(), d);
}
