use feo::colors::{Colors, Rgb};

#[test]
fn colors_test_color_new_white() {
    let colors = Colors::new('w');

    assert_eq!(Rgb(255, 255, 255), colors.temp);
    assert_eq!(Rgb(255, 255, 255), colors.cpu);
    assert_eq!(Rgb(255, 255, 255), colors.mem);
    assert_eq!(Rgb(255, 255, 255), colors.uptime);
}

#[test]
fn colors_test_color_new_no_match_returns_standard() {
    let colors_mo_match = Colors::new('x');
    let colors_std = Colors::new('s');

    assert_eq!(colors_std.temp, colors_mo_match.temp);
    assert_eq!(colors_std.cpu, colors_mo_match.cpu);
    assert_eq!(colors_std.mem, colors_mo_match.mem);
    assert_eq!(colors_std.uptime, colors_mo_match.uptime);
}

#[test]
fn test_colors_test_color_new_white() {
    let colors = Colors::new('w');

    assert_eq!(Rgb(255, 255, 255), colors.temp);
    assert_eq!(Rgb(255, 255, 255), colors.cpu);
    assert_eq!(Rgb(255, 255, 255), colors.mem);
    assert_eq!(Rgb(255, 255, 255), colors.uptime);
}

#[test]
fn test_colors_test_color_new_no_match_returns_standard() {
    let colors_mo_match = Colors::new('x');
    let colors_std = Colors::new('s');

    assert_eq!(colors_std.temp, colors_mo_match.temp);
    assert_eq!(colors_std.cpu, colors_mo_match.cpu);
    assert_eq!(colors_std.mem, colors_mo_match.mem);
    assert_eq!(colors_std.uptime, colors_mo_match.uptime);
}

#[test]
fn black_scheme_is_all_black() {
    let colors = Colors::new('b');
    assert_eq!(colors.temp, Rgb(0, 0, 0));
    assert_eq!(colors.cpu, Rgb(0, 0, 0));
    assert_eq!(colors.mem, Rgb(0, 0, 0));
    assert_eq!(colors.uptime, Rgb(0, 0, 0));
}

#[test]
fn standard_scheme_colours() {
    let colors = Colors::new('s');
    assert_eq!(colors.temp, Rgb(255, 255, 0));
    assert_eq!(colors.cpu, Rgb(0, 220, 0));
    assert_eq!(colors.mem, Rgb(255, 0, 255));
    assert_eq!(colors.uptime, Rgb(0, 230, 230));
    assert_eq!(Colors::new('W'), colors);
}
