use termctl::cursor::ParseError;
use termctl::cursor::clear_down;
use termctl::cursor::clear_left;
use termctl::cursor::clear_line;
use termctl::cursor::clear_right;
use termctl::cursor::clear_screen;
use termctl::cursor::clear_up;
use termctl::cursor::move_hor;
use termctl::cursor::move_to;
use termctl::cursor::move_to_next_line;
use termctl::cursor::move_to_upper_left;
use termctl::cursor::move_vert;
use termctl::cursor::parse_position;
use termctl::cursor::position_request;
use termctl::cursor::restore_position;
use termctl::cursor::save_position;
use termctl::cursor::scroll_down;
use termctl::cursor::scroll_up;

#[test]
fn cursor_basic() {
    println!("{}", clear_up());
}

#[test]
fn test_move_hor() {
    println!("hello{}world{},", move_hor(10), move_hor(-15));
}

#[test]
fn test_move_diagonal() {
    for i in 0..8 {
        println!(
            "{}{}",
            move_hor(i),
            std::char::from_u32((i + 65) as u32).unwrap()
        );
    }
    println!();
}

#[test]
fn vertical_moves() {
    assert_eq!(move_vert(5), "\x1b[5A");
    assert_eq!(move_vert(-5), "\x1b[5B");
    assert_eq!(move_vert(0), "\x1b[0A");
    assert_eq!(move_vert(i32::MIN), "\x1b[2147483648B");
}

#[test]
fn horizontal_moves() {
    assert_eq!(move_hor(12), "\x1b[12C");
    assert_eq!(move_hor(-3), "\x1b[3D");
}

#[test]
fn horizontal_zero_boundary() {
    // A magnitude of 0 is emitted as-is; terminals treat the 0
    // parameter as the ANSI default of 1.
    assert_eq!(move_hor(0), "\x1b[0C");
}

#[test]
fn absolute_moves() {
    assert_eq!(move_to(1, 1), "\x1b[1;1H");
    assert_eq!(move_to(24, 80), "\x1b[24;80H");
    assert_eq!(move_to_upper_left(), "\x1b[H");
    assert_eq!(move_to_next_line(), "\x1b[E");
}

#[test]
fn scroll_sequences() {
    assert_eq!(scroll_up(), "\x1bD");
    assert_eq!(scroll_down(), "\x1bM");
}

#[test]
fn clear_sequences() {
    assert_eq!(clear_right(), "\x1b[K");
    assert_eq!(clear_left(), "\x1b[1K");
    assert_eq!(clear_line(), "\x1b[2K");
    assert_eq!(clear_down(), "\x1b[J");
    assert_eq!(clear_up(), "\x1b[1J");
    assert_eq!(clear_screen(), "\x1b[2J");
}

#[test]
fn save_restore_sequences() {
    assert_eq!(save_position(), "\x1b7");
    assert_eq!(restore_position(), "\x1b8");
}

#[test]
fn position_request_sequence() {
    assert_eq!(position_request(), "\x1b[6n\r\n");
}

#[test]
fn parse_position_round_trip() {
    assert_eq!(parse_position("\x1b[24;80R"), Ok((24, 80)));
    assert_eq!(parse_position("\x1b[1;1R"), Ok((1, 1)));
    assert_eq!(parse_position("\x1b[4294967295;0R"), Ok((4294967295, 0)));
    // a trailing line break, as a terminal reply read line-wise may carry
    assert_eq!(parse_position("\x1b[3;14R\n"), Ok((3, 14)));
}

#[test]
fn parse_position_reply_anywhere_in_line() {
    // typed-ahead input sitting in the buffer precedes the reply
    assert_eq!(parse_position("x\x1b[3;4R"), Ok((3, 4)));
    assert_eq!(parse_position("typed ahead\x1b[24;80R\n"), Ok((24, 80)));
    // a stray ESC before the real reply is skipped over
    assert_eq!(parse_position("\x1b\x1b[5;6R"), Ok((5, 6)));
    // the leftmost match wins
    assert_eq!(parse_position("\x1b[1;2R\x1b[3;4R"), Ok((1, 2)));
}

#[test]
fn parse_position_malformed() {
    assert_eq!(parse_position("garbage\n"), Err(ParseError));
    assert_eq!(parse_position(""), Err(ParseError));
    assert_eq!(parse_position("\x1b["), Err(ParseError));
    assert_eq!(parse_position("\x1b[;3R"), Err(ParseError));
    assert_eq!(parse_position("\x1b[7;R"), Err(ParseError));
    assert_eq!(parse_position("\x1b[12R"), Err(ParseError));
    assert_eq!(parse_position("\x1b[1;2X"), Err(ParseError));
    assert_eq!(parse_position("\x1b[1;2;3R"), Err(ParseError));
    assert_eq!(parse_position("x1b[1;2R"), Err(ParseError));
}

#[test]
fn parse_position_overflow() {
    assert_eq!(parse_position("\x1b[4294967296;1R"), Err(ParseError));
    assert_eq!(parse_position("\x1b[1;99999999999R"), Err(ParseError));
    // the leftmost match decides: an overflowing reply is an error
    // even when a well-formed one follows it
    assert_eq!(parse_position("\x1b[99999999999;1R\x1b[2;3R"), Err(ParseError));
}
