use molecular_dynamics::screen::{HorizontalAlign, Screen, ScreenPosition, VerticalAlign};
use molecular_dynamics::units::LengthUnit;
use HorizontalAlign as H;
use VerticalAlign as V;

#[test]
fn length_unit_symbols() {
    assert_eq!(LengthUnit::Meter.name(), "m");
    assert_eq!(LengthUnit::Angstrom.name(), "Å");
    assert_eq!(LengthUnit::Nanometer.name(), "nm");
    assert_eq!(LengthUnit::Picometer.name(), "pm");
}

#[test]
fn stats_alignment_for_each_position() {
    let cases = [
        (ScreenPosition::Top, H::Center, V::Top),
        (ScreenPosition::Bottom, H::Center, V::Bottom),
        (ScreenPosition::Left, H::Left, V::Middle),
        (ScreenPosition::Right, H::Right, V::Middle),
        (ScreenPosition::TopLeft, H::Left, V::Top),
        (ScreenPosition::TopRight, H::Right, V::Top),
        (ScreenPosition::BottomLeft, H::Left, V::Bottom),
        (ScreenPosition::BottomRight, H::Right, V::Bottom),
    ];
    for (pos, h, v) in cases {
        assert_eq!(Screen::horizontal_align(pos), h);
        assert_eq!(Screen::vertical_align(pos), v);
    }
}
