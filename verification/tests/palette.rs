use alacritty_terminal::term::color;
use alacritty_terminal::vte::ansi;
use baduhan::palette::{
    color_request, dim, indexed, resolve, rgb, Color, Colors, NamedColor, Scheme, COUNT,
};

#[test]
fn indexed_low_16_match_ansi_table() {
    let s = Scheme::campbell();
    assert_eq!(indexed(0, &s), s.ansi[0]);
    assert_eq!(indexed(15, &s), s.ansi[15]);
}

#[test]
fn indexed_cube_corners() {
    let s = Scheme::campbell();
    // 16 = cube (0,0,0); 231 = cube (5,5,5) = white.
    assert_eq!(indexed(16, &s), rgb(0, 0, 0));
    assert_eq!(indexed(231, &s), rgb(0xFF, 0xFF, 0xFF));
    // 196 = pure red (5,0,0).
    assert_eq!(indexed(196, &s), rgb(0xFF, 0, 0));
}

#[test]
fn indexed_grayscale_ramp() {
    let s = Scheme::campbell();
    assert_eq!(indexed(232, &s), rgb(8, 8, 8));
    assert_eq!(indexed(255, &s), rgb(238, 238, 238));
}

#[test]
fn resolve_spec_passthrough_and_named_defaults() {
    let s = Scheme::campbell();
    let colors = Colors::default();
    let c = rgb(1, 2, 3);
    assert_eq!(resolve(Color::Spec(c), &colors, &s), c);
    assert_eq!(resolve(Color::Named(NamedColor::Foreground), &colors, &s), rgb(0xcc, 0xcc, 0xcc));
    assert_eq!(resolve(Color::Named(NamedColor::Red), &colors, &s), s.ansi[1]);
    assert_eq!(resolve(Color::Indexed(196), &colors, &s), rgb(0xFF, 0, 0));
}

#[test]
fn an_override_wins() {
    let s = Scheme::campbell();
    let mut colors = Colors::default();
    colors.slots[1] = Some(rgb(9, 9, 9));
    assert_eq!(resolve(Color::Named(NamedColor::Red), &colors, &s), rgb(9, 9, 9));
    assert_eq!(resolve(Color::Indexed(1), &colors, &s), rgb(9, 9, 9));
}

#[test]
fn dim_colors_are_two_thirds() {
    assert_eq!(dim(rgb(90, 255, 1)), rgb(60, 170, 0));
}

#[test]
fn color_requests_name_the_ground_and_the_cursor() {
    let s = Scheme::campbell();
    assert_eq!(color_request(256, &s), s.fg);
    assert_eq!(color_request(257, &s), s.bg);
    assert_eq!(color_request(258, &s), s.cursor);
    assert_eq!(color_request(196, &s), rgb(0xFF, 0, 0));
    assert_eq!(color_request(9999, &s), s.fg);
}

#[test]
fn colors_are_numbered_as_in_the_emulator() {
    assert_eq!(COUNT, color::COUNT);
    assert_eq!(NamedColor::Red.index(), ansi::NamedColor::Red as usize);
    assert_eq!(NamedColor::Foreground.index(), ansi::NamedColor::Foreground as usize);
    assert_eq!(NamedColor::Cursor.index(), ansi::NamedColor::Cursor as usize);
    assert_eq!(NamedColor::DimBlack.index(), ansi::NamedColor::DimBlack as usize);
    assert_eq!(NamedColor::DimForeground.index(), ansi::NamedColor::DimForeground as usize);
}
