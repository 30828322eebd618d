use termctl::colours::Colour;
use termctl::colours::Plane;
use termctl::colours::RGB;
use termctl::colours::colour_escape;
use termctl::colours::reset_all;
use termctl::colours::reset_background;
use termctl::colours::reset_foreground;

#[test]
fn it_works() {
    println!("\x1b[4m{}", Colour::bg(RGB(255, 0, 0)).paint("crossed out"));
}

#[test]
fn basic() {
    let blue = Colour::fg(RGB(0, 0, 255));
    let painted = blue.paint("hello!");
    assert_eq!(painted, "\x1b[38;2;0;0;255mhello!\x1b[0m");
    println!("{}", painted);
}

#[test]
fn test_rgb() {
    let burlywood = Colour::fg(RGB(222, 184, 135));
    assert_eq!(burlywood.unescaped(), "38;2;222;184;135");
    println!("{}", burlywood.paint("hello, burly wood!"));
    println!("{}how's it going?", burlywood.escaped());
    println!("{}how's it going?", reset_all());
}

#[test]
fn test_fg_bg() {
    let cyan_on_red = Colour::fg_bg(RGB(0, 255, 255), RGB(205, 92, 92));
    println!(
        "{}this is in cyan on red.{} and this white on red\n{}",
        cyan_on_red.escaped(),
        reset_background(),
        reset_all()
    );
}

#[test]
fn single_plane_bodies() {
    assert_eq!(RGB(1, 2, 3).unescaped(Plane::FG), "38;2;1;2;3");
    assert_eq!(RGB(10, 20, 30).unescaped(Plane::BG), "48;2;10;20;30");
    assert_eq!(RGB(0, 0, 0).unescaped(Plane::FG), "38;2;0;0;0");
    assert_eq!(RGB(255, 255, 255).unescaped(Plane::BG), "48;2;255;255;255");
}

#[test]
fn both_planes_fg_first() {
    let c = Colour::fg_bg(RGB(1, 2, 3), RGB(4, 5, 6));
    assert_eq!(c.unescaped(), "38;2;1;2;3;48;2;4;5;6");
    assert_eq!(c.escaped(), "\x1b[38;2;1;2;3;48;2;4;5;6m");
}

#[test]
fn paint_ends_with_reset() {
    let specs = [
        Colour::fg(RGB(9, 8, 7)),
        Colour::bg(RGB(1, 1, 1)),
        Colour::fg_bg(RGB(0, 0, 0), RGB(255, 255, 255)),
        Colour { fg: None, bg: None },
    ];
    for c in specs.iter() {
        assert!(c.paint("X").ends_with("\x1b[0m"));
        assert!(c.paint("").ends_with("\x1b[0m"));
    }
}

#[test]
fn escape_with_nothing_bound() {
    let c = Colour { fg: None, bg: None };
    assert_eq!(c.unescaped(), "");
    assert_eq!(c.escaped(), "\x1b[m");
    assert_eq!(c.paint("x"), "\x1b[mx\x1b[0m");
}

#[test]
fn escape_wraps_body() {
    assert_eq!(colour_escape("38;2;0;0;255"), "\x1b[38;2;0;0;255m");
    assert_eq!(colour_escape(""), "\x1b[m");
}

#[test]
fn reset_sequences() {
    assert_eq!(reset_all(), "\x1b[0m");
    assert_eq!(reset_foreground(), "\x1b[39m");
    assert_eq!(reset_background(), "\x1b[49m");
}
