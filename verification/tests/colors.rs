use piet::color::Color;
use piet::color::Rgb8;

const ALL_COLORS: [Color; 20] = [
    Color::White,
    Color::Black,
    Color::LightRed,
    Color::LightYellow,
    Color::LightGreen,
    Color::LightCyan,
    Color::LightBlue,
    Color::LightMagenta,
    Color::Red,
    Color::Yellow,
    Color::Green,
    Color::Cyan,
    Color::Blue,
    Color::Magenta,
    Color::DarkRed,
    Color::DarkYellow,
    Color::DarkGreen,
    Color::DarkCyan,
    Color::DarkBlue,
    Color::DarkMagenta,
];

#[test]
fn rgb_round_trip_all_colors() {
    for c in ALL_COLORS {
        let px = c.to_rgb8();
        assert_eq!(Color::from_rgb8(px, false), c);
        assert_eq!(Color::from_rgb8(px, true), c);
    }
}

#[test]
fn canonical_rgb_values() {
    assert_eq!(Color::Red.to_rgb8(), Rgb8 { r: 0xFF, g: 0x00, b: 0x00 });
    assert_eq!(Color::LightYellow.to_rgb8(), Rgb8 { r: 0xFF, g: 0xFF, b: 0xC0 });
    assert_eq!(Color::DarkCyan.to_rgb8(), Rgb8 { r: 0x00, g: 0xC0, b: 0xC0 });
    assert_eq!(Color::White.to_rgb8(), Rgb8 { r: 0xFF, g: 0xFF, b: 0xFF });
    assert_eq!(Color::Black.to_rgb8(), Rgb8 { r: 0x00, g: 0x00, b: 0x00 });
}

#[test]
fn unrecognized_pixel_maps_to_white_by_default() {
    let odd = Rgb8 { r: 0x12, g: 0x34, b: 0x56 };
    assert_eq!(Color::from_rgb8(odd, false), Color::White);
}

#[test]
fn unrecognized_pixel_maps_to_black_when_asked() {
    let odd = Rgb8 { r: 0x12, g: 0x34, b: 0x56 };
    assert_eq!(Color::from_rgb8(odd, true), Color::Black);
}

#[test]
fn hue_numbers_follow_the_wheel() {
    assert_eq!(Color::Red.hue_number(), Some(0));
    assert_eq!(Color::Yellow.hue_number(), Some(1));
    assert_eq!(Color::Green.hue_number(), Some(2));
    assert_eq!(Color::Cyan.hue_number(), Some(3));
    assert_eq!(Color::Blue.hue_number(), Some(4));
    assert_eq!(Color::Magenta.hue_number(), Some(5));
    assert_eq!(Color::White.hue_number(), None);
    assert_eq!(Color::Black.hue_number(), None);
}

#[test]
fn lightness_numbers_follow_the_shades() {
    assert_eq!(Color::LightRed.lightness_number(), Some(0));
    assert_eq!(Color::Red.lightness_number(), Some(1));
    assert_eq!(Color::DarkRed.lightness_number(), Some(2));
    assert_eq!(Color::White.lightness_number(), None);
}

#[test]
fn shifts_of_a_color_against_itself_are_zero() {
    for c in ALL_COLORS {
        if c != Color::White && c != Color::Black {
            assert_eq!(c.hue_change(&c), Some(0));
            assert_eq!(c.lightness_change(&c), Some(0));
        }
    }
}

#[test]
fn shifts_are_defined_exactly_between_hue_bearing_colors() {
    for a in ALL_COLORS {
        for b in ALL_COLORS {
            let defined = a != Color::White && a != Color::Black
                && b != Color::White && b != Color::Black;
            assert_eq!(a.hue_change(&b).is_some(), defined);
            assert_eq!(a.lightness_change(&b).is_some(), defined);
        }
    }
}

#[test]
fn shifts_wrap_around() {
    assert_eq!(Color::Magenta.hue_change(&Color::Red), Some(1));
    assert_eq!(Color::Red.hue_change(&Color::Magenta), Some(5));
    assert_eq!(Color::DarkRed.lightness_change(&Color::Red), Some(2));
    assert_eq!(Color::Red.lightness_change(&Color::DarkRed), Some(1));
}
