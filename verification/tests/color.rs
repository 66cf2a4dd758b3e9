use piet::color::{ColorName, PietColor};

fn classified(r: u8, g: u8, b: u8) -> PietColor {
    PietColor::from_rgb(&[r, g, b]).unwrap()
}

#[test]
fn new_keeps_its_arguments() {
    let c = PietColor::new(ColorName::Cyan, 1, 3);
    assert_eq!(c.name, ColorName::Cyan);
    assert_eq!(c.lightness, 1);
    assert_eq!(c.hue, 3);
}

#[test]
fn of_name_gives_the_indices_of_the_name() {
    assert_eq!(PietColor::of_name(ColorName::DarkBlue), PietColor::new(ColorName::DarkBlue, 2, 4));
    assert_eq!(PietColor::of_name(ColorName::LightYellow), PietColor::new(ColorName::LightYellow, 0, 1));
    assert_eq!(PietColor::of_name(ColorName::Black), PietColor::new(ColorName::Black, 0, 0));
}

#[test]
fn from_rgb_knows_black_and_white() {
    assert_eq!(classified(0, 0, 0).name, ColorName::Black);
    assert_eq!(classified(255, 255, 255).name, ColorName::White);
}

#[test]
fn from_rgb_knows_the_normal_colours() {
    assert_eq!(classified(255, 0, 0), PietColor::new(ColorName::Red, 1, 0));
    assert_eq!(classified(255, 255, 0), PietColor::new(ColorName::Yellow, 1, 1));
    assert_eq!(classified(0, 255, 0), PietColor::new(ColorName::Green, 1, 2));
    assert_eq!(classified(0, 255, 255), PietColor::new(ColorName::Cyan, 1, 3));
    assert_eq!(classified(0, 0, 255), PietColor::new(ColorName::Blue, 1, 4));
    assert_eq!(classified(255, 0, 255), PietColor::new(ColorName::Magenta, 1, 5));
}

#[test]
fn from_rgb_knows_the_dark_colours() {
    assert_eq!(classified(192, 0, 0), PietColor::new(ColorName::DarkRed, 2, 0));
    assert_eq!(classified(192, 192, 0), PietColor::new(ColorName::DarkYellow, 2, 1));
    assert_eq!(classified(0, 192, 0), PietColor::new(ColorName::DarkGreen, 2, 2));
    assert_eq!(classified(0, 192, 192), PietColor::new(ColorName::DarkCyan, 2, 3));
    assert_eq!(classified(0, 0, 192), PietColor::new(ColorName::DarkBlue, 2, 4));
    assert_eq!(classified(192, 0, 192), PietColor::new(ColorName::DarkMagenta, 2, 5));
}

#[test]
fn from_rgb_knows_the_light_colours() {
    assert_eq!(classified(255, 192, 192), PietColor::new(ColorName::LightRed, 0, 0));
    assert_eq!(classified(255, 255, 192), PietColor::new(ColorName::LightYellow, 0, 1));
    assert_eq!(classified(192, 255, 192), PietColor::new(ColorName::LightGreen, 0, 2));
    assert_eq!(classified(192, 255, 255), PietColor::new(ColorName::LightCyan, 0, 3));
    assert_eq!(classified(192, 192, 255), PietColor::new(ColorName::LightBlue, 0, 4));
    assert_eq!(classified(255, 192, 255), PietColor::new(ColorName::LightMagenta, 0, 5));
}

#[test]
fn from_rgb_hands_back_an_unknown_pixel() {
    let pixel = [1u8, 2, 3];
    assert_eq!(PietColor::from_rgb(&pixel), Err(&pixel));
    let grey = [192u8, 192, 192];
    assert_eq!(PietColor::from_rgb(&grey), Err(&grey));
    let nearly_red = [254u8, 0, 0];
    assert_eq!(PietColor::from_rgb(&nearly_red), Err(&nearly_red));
}

#[test]
fn from_rgb_accepts_exactly_twenty_pixels() {
    let levels = [0u8, 192, 255];
    let mut accepted = 0;
    for r in levels {
        for g in levels {
            for b in levels {
                if PietColor::from_rgb(&[r, g, b]).is_ok() {
                    accepted += 1;
                }
            }
        }
    }
    assert_eq!(accepted, 20);
}

#[test]
fn hue_difference_counts_steps_along_the_cycle() {
    let red = PietColor::of_name(ColorName::Red);
    let yellow = PietColor::of_name(ColorName::Yellow);
    let magenta = PietColor::of_name(ColorName::Magenta);
    let blue = PietColor::of_name(ColorName::DarkBlue);
    assert_eq!(red.hue_difference(&yellow), 1);
    assert_eq!(yellow.hue_difference(&red), 5);
    assert_eq!(red.hue_difference(&magenta), 5);
    assert_eq!(magenta.hue_difference(&red), 1);
    assert_eq!(red.hue_difference(&blue), 4);
    assert_eq!(red.hue_difference(&red), 0);
}

#[test]
fn lightness_difference_counts_steps_along_the_cycle() {
    let light = PietColor::of_name(ColorName::LightGreen);
    let normal = PietColor::of_name(ColorName::Green);
    let dark = PietColor::of_name(ColorName::DarkGreen);
    assert_eq!(light.lightness_difference(&normal), 1);
    assert_eq!(light.lightness_difference(&dark), 2);
    assert_eq!(normal.lightness_difference(&dark), 1);
    assert_eq!(normal.lightness_difference(&light), 2);
    assert_eq!(dark.lightness_difference(&light), 1);
    assert_eq!(dark.lightness_difference(&normal), 2);
    assert_eq!(dark.lightness_difference(&dark), 0);
}

#[test]
fn two_different_colours_differ_in_hue_or_lightness() {
    let names = [
        ColorName::Red,
        ColorName::Yellow,
        ColorName::Green,
        ColorName::Cyan,
        ColorName::Blue,
        ColorName::Magenta,
        ColorName::DarkRed,
        ColorName::DarkYellow,
        ColorName::DarkGreen,
        ColorName::DarkCyan,
        ColorName::DarkBlue,
        ColorName::DarkMagenta,
        ColorName::LightRed,
        ColorName::LightYellow,
        ColorName::LightGreen,
        ColorName::LightCyan,
        ColorName::LightBlue,
        ColorName::LightMagenta,
    ];
    for a in names {
        for b in names {
            let from = PietColor::of_name(a);
            let to = PietColor::of_name(b);
            let changed = from.lightness_difference(&to) != 0 || from.hue_difference(&to) != 0;
            assert_eq!(changed, a != b);
        }
    }
}

#[test]
fn default_is_white() {
    let c = PietColor::default();
    assert_eq!(c.name, ColorName::White);
    assert_eq!(c, PietColor::of_name(ColorName::White));
}
