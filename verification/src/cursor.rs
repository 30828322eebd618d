//! The cursor controller: builders for the escape sequences that
//! move, scroll and clear, and a parser for the terminal's
//! cursor-position report (`ESC [ <row> ; <col> R`).

use vstd::prelude::*;
use crate::ansi::csi_seq;
use crate::ansi::csi_string;
use crate::decimal::dec_seq;
use crate::decimal::dec_value;
use crate::decimal::is_digit_char;
use crate::decimal::push_dec_u32;
use crate::decimal::lemma_dec_seq_digits;
use crate::decimal::lemma_dec_value_of_dec_seq;
use crate::decimal::lemma_dec_value_prefix_le;

verus! {

/// The reply line held `ESC [ <row> ; <col> R` nowhere, or a
/// coordinate of the leftmost such reply did not fit in 32 bits.
#[derive(Clone, Copy, PartialEq, Eq, Structural, Debug)]
pub struct ParseError;

/// Moves the cursor `n` rows up when `n >= 0`, `|n|` rows down when
/// `n < 0`. A magnitude of exactly 0 is still emitted; most terminals
/// treat a 0 parameter as the ANSI default of 1.
pub fn move_vert(n: i32) -> (r: String)
    ensures
        n >= 0 ==> r@ == csi_seq() + dec_seq(n as nat) + seq!['A'],
        n < 0 ==> r@ == csi_seq() + dec_seq((-(n as int)) as nat) + seq!['B'],
{
    let mut s = csi_string();
    if n >= 0 {
        push_dec_u32(&mut s, n as u32);
        s.append("A");
        proof {
            reveal_strlit("A");
            assert("A"@ =~= seq!['A']);
            assert(s@ =~= csi_seq() + dec_seq(n as nat) + seq!['A']);
        }
    } else {
        let mag: u32 = (-(n as i64)) as u32;
        push_dec_u32(&mut s, mag);
        s.append("B");
        proof {
            reveal_strlit("B");
            assert("B"@ =~= seq!['B']);
            assert(s@ =~= csi_seq() + dec_seq((-(n as int)) as nat) + seq!['B']);
        }
    }
    s
}

/// Moves the cursor `n` columns right when `n >= 0`, `|n|` columns
/// left when `n < 0`. The 0 boundary behaves as in [`move_vert`].
pub fn move_hor(n: i32) -> (r: String)
    ensures
        n >= 0 ==> r@ == csi_seq() + dec_seq(n as nat) + seq!['C'],
        n < 0 ==> r@ == csi_seq() + dec_seq((-(n as int)) as nat) + seq!['D'],
{
    let mut s = csi_string();
    if n >= 0 {
        push_dec_u32(&mut s, n as u32);
        s.append("C");
        proof {
            reveal_strlit("C");
            assert("C"@ =~= seq!['C']);
            assert(s@ =~= csi_seq() + dec_seq(n as nat) + seq!['C']);
        }
    } else {
        let mag: u32 = (-(n as i64)) as u32;
        push_dec_u32(&mut s, mag);
        s.append("D");
        proof {
            reveal_strlit("D");
            assert("D"@ =~= seq!['D']);
            assert(s@ =~= csi_seq() + dec_seq((-(n as int)) as nat) + seq!['D']);
        }
    }
    s
}

/// Moves the cursor to row 1, column 1.
pub fn move_to_upper_left() -> (r: String)
    ensures
        r@ == seq!['\x1b', '[', 'H'],
{
    proof {
        reveal_strlit("\x1b[H");
    }
    let s = String::from_str("\x1b[H");
    proof {
        assert(s@ =~= seq!['\x1b', '[', 'H']);
    }
    s
}

/// Moves the cursor to the given 1-based row and column.
pub fn move_to(line: u32, column: u32) -> (r: String)
    ensures
        r@ == csi_seq() + dec_seq(line as nat) + seq![';'] + dec_seq(column as nat) + seq!['H'],
{
    let mut s = csi_string();
    push_dec_u32(&mut s, line);
    s.append(";");
    push_dec_u32(&mut s, column);
    s.append("H");
    proof {
        reveal_strlit(";");
        reveal_strlit("H");
        assert(";"@ =~= seq![';']);
        assert("H"@ =~= seq!['H']);
        assert(s@ =~= csi_seq() + dec_seq(line as nat) + seq![';'] + dec_seq(column as nat)
            + seq!['H']);
    }
    s
}

/// Moves the cursor to the start of the next line.
pub fn move_to_next_line() -> (r: String)
    ensures
        r@ == seq!['\x1b', '[', 'E'],
{
    proof {
        reveal_strlit("\x1b[E");
    }
    let s = String::from_str("\x1b[E");
    proof {
        assert(s@ =~= seq!['\x1b', '[', 'E']);
    }
    s
}

/// Scrolls the visible region up one line (`ESC D`).
pub fn scroll_up() -> (r: String)
    ensures
        r@ == seq!['\x1b', 'D'],
{
    proof {
        reveal_strlit("\x1bD");
    }
    let s = String::from_str("\x1bD");
    proof {
        assert(s@ =~= seq!['\x1b', 'D']);
    }
    s
}

/// Scrolls the visible region down one line (`ESC M`).
pub fn scroll_down() -> (r: String)
    ensures
        r@ == seq!['\x1b', 'M'],
{
    proof {
        reveal_strlit("\x1bM");
    }
    let s = String::from_str("\x1bM");
    proof {
        assert(s@ =~= seq!['\x1b', 'M']);
    }
    s
}

/// Erases from the cursor to the end of the line.
pub fn clear_right() -> (r: String)
    ensures
        r@ == seq!['\x1b', '[', 'K'],
{
    proof {
        reveal_strlit("\x1b[K");
    }
    let s = String::from_str("\x1b[K");
    proof {
        assert(s@ =~= seq!['\x1b', '[', 'K']);
    }
    s
}

/// Erases from the start of the line to the cursor.
pub fn clear_left() -> (r: String)
    ensures
        r@ == seq!['\x1b', '[', '1', 'K'],
{
    proof {
        reveal_strlit("\x1b[1K");
    }
    let s = String::from_str("\x1b[1K");
    proof {
        assert(s@ =~= seq!['\x1b', '[', '1', 'K']);
    }
    s
}

/// Erases the entire current line.
pub fn clear_line() -> (r: String)
    ensures
        r@ == seq!['\x1b', '[', '2', 'K'],
{
    proof {
        reveal_strlit("\x1b[2K");
    }
    let s = String::from_str("\x1b[2K");
    proof {
        assert(s@ =~= seq!['\x1b', '[', '2', 'K']);
    }
    s
}

/// Erases from the cursor to the end of the screen.
pub fn clear_down() -> (r: String)
    ensures
        r@ == seq!['\x1b', '[', 'J'],
{
    proof {
        reveal_strlit("\x1b[J");
    }
    let s = String::from_str("\x1b[J");
    proof {
        assert(s@ =~= seq!['\x1b', '[', 'J']);
    }
    s
}

/// Erases from the start of the screen to the cursor.
pub fn clear_up() -> (r: String)
    ensures
        r@ == seq!['\x1b', '[', '1', 'J'],
{
    proof {
        reveal_strlit("\x1b[1J");
    }
    let s = String::from_str("\x1b[1J");
    proof {
        assert(s@ =~= seq!['\x1b', '[', '1', 'J']);
    }
    s
}

/// Erases the entire screen.
pub fn clear_screen() -> (r: String)
    ensures
        r@ == seq!['\x1b', '[', '2', 'J'],
{
    proof {
        reveal_strlit("\x1b[2J");
    }
    let s = String::from_str("\x1b[2J");
    proof {
        assert(s@ =~= seq!['\x1b', '[', '2', 'J']);
    }
    s
}

/// Saves the cursor position in the terminal's single save slot.
pub fn save_position() -> (r: String)
    ensures
        r@ == seq!['\x1b', '7'],
{
    proof {
        reveal_strlit("\x1b7");
    }
    let s = String::from_str("\x1b7");
    proof {
        assert(s@ =~= seq!['\x1b', '7']);
    }
    s
}

/// Restores the cursor position saved by [`save_position`].
pub fn restore_position() -> (r: String)
    ensures
        r@ == seq!['\x1b', '8'],
{
    proof {
        reveal_strlit("\x1b8");
    }
    let s = String::from_str("\x1b8");
    proof {
        assert(s@ =~= seq!['\x1b', '8']);
    }
    s
}

/// The Device Status Report request asking the terminal to report
/// the cursor position, followed by the line break the original
/// protocol sends with it.
pub fn position_request() -> (r: String)
    ensures
        r@ == seq!['\x1b', '[', '6', 'n', '\r', '\n'],
{
    proof {
        reveal_strlit("\x1b[6n\r\n");
    }
    let s = String::from_str("\x1b[6n\r\n");
    proof {
        assert(s@ =~= seq!['\x1b', '[', '6', 'n', '\r', '\n']);
    }
    s
}

/// The first index at or after `i` that holds no decimal digit
/// (or the end of `s`).
pub open spec fn digit_run_end(s: Seq<char>, i: int) -> int
    decreases s.len() - i,
{
    if 0 <= i < s.len() && is_digit_char(s[i]) {
        digit_run_end(s, i + 1)
    } else {
        i
    }
}

/// A reply beginning at index `i` of `s`: `Some((row, col))` when
/// `ESC [`, a non-empty digit run, `;`, a second non-empty digit run
/// and `R` stand there in that order, and `None` otherwise.
pub open spec fn reply_match_at(s: Seq<char>, i: int) -> Option<(nat, nat)> {
    if 0 <= i && i + 2 <= s.len() && s[i] == '\x1b' && s[i + 1] == '[' {
        let e1 = digit_run_end(s, i + 2);
        if i + 2 < e1 < s.len() && s[e1] == ';' {
            let e2 = digit_run_end(s, e1 + 1);
            if e1 + 1 < e2 < s.len() && s[e2] == 'R' {
                Some((dec_value(s.subrange(i + 2, e1)), dec_value(s.subrange(e1 + 1, e2))))
            } else {
                None
            }
        } else {
            None
        }
    } else {
        None
    }
}

/// The leftmost reply beginning at or after index `i` of `s`.
pub open spec fn reply_search(s: Seq<char>, i: int) -> Option<(nat, nat)>
    decreases s.len() - i,
{
    if 0 <= i < s.len() {
        if reply_match_at(s, i) is Some {
            reply_match_at(s, i)
        } else {
            reply_search(s, i + 1)
        }
    } else {
        None
    }
}

/// What a cursor-position reply line means: the `(row, col)` of the
/// leftmost place where `ESC [ <digits> ; <digits> R` stands in `s`
/// (anything may precede or follow it), and `None` when no such
/// place exists.
pub open spec fn reply_spec(s: Seq<char>) -> Option<(nat, nat)> {
    reply_search(s, 0)
}

/// While no reply begins before `i`, the search from the start of
/// `s` agrees with the search from `i`.
pub proof fn lemma_reply_search_skip(s: Seq<char>, i: int)
    requires
        0 <= i <= s.len(),
        forall|j: int| 0 <= j < i ==> reply_match_at(s, j) is None,
    ensures
        reply_search(s, 0) == reply_search(s, i),
    decreases i,
{
    if i > 0 {
        lemma_reply_search_skip(s, i - 1);
    }
}

/// A digit run ends within bounds, covers only digits, and stops at
/// a non-digit.
pub proof fn lemma_digit_run_end_props(s: Seq<char>, i: int)
    requires
        0 <= i <= s.len(),
    ensures
        i <= digit_run_end(s, i) <= s.len(),
        forall|k: int| i <= k < digit_run_end(s, i) ==> is_digit_char(s[k]),
        digit_run_end(s, i) < s.len() ==> !is_digit_char(s[digit_run_end(s, i)]),
    decreases s.len() - i,
{
    if i < s.len() && is_digit_char(s[i]) {
        lemma_digit_run_end_props(s, i + 1);
    }
}

/// A run of digits bounded by the end of `s` or by a non-digit is
/// exactly what `digit_run_end` finds.
pub proof fn lemma_digit_run_end_of(s: Seq<char>, i: int, j: int)
    requires
        0 <= i <= j <= s.len(),
        forall|k: int| i <= k < j ==> is_digit_char(s[k]),
        j == s.len() || !is_digit_char(s[j]),
    ensures
        digit_run_end(s, i) == j,
    decreases j - i,
{
    if i < j {
        lemma_digit_run_end_of(s, i + 1, j);
    }
}

/// Scans the digit run of `s` beginning at `start`.
fn scan_digits(s: &str, start: usize) -> (e: usize)
    requires
        start <= s@.len(),
    ensures
        start <= e <= s@.len(),
        e as int == digit_run_end(s@, start as int),
    decreases s@.len() - start,
{
    let len: usize = s.unicode_len();
    if start < len {
        let c = s.get_char(start);
        let u: u32 = c as u32;
        if 48 <= u && u <= 57 {
            return scan_digits(s, start + 1);
        }
    }
    start
}

/// Reads the value of the digit run `s[start..end]`, or `None` when
/// it does not fit in a `u32`.
fn parse_decimal_run(s: &str, start: usize, end: usize) -> (r: Option<u32>)
    requires
        start <= end <= s@.len(),
        forall|k: int| start <= k < end ==> is_digit_char(s@[k]),
    ensures
        match r {
            Some(v) => v as nat == dec_value(s@.subrange(start as int, end as int)),
            None => dec_value(s@.subrange(start as int, end as int)) > u32::MAX,
        },
{
    let mut i: usize = start;
    let mut acc: u64 = 0;
    while i < end
        invariant
            start <= i <= end <= s@.len(),
            forall|k: int| start <= k < end ==> is_digit_char(s@[k]),
            acc <= u32::MAX as u64,
            acc as nat == dec_value(s@.subrange(start as int, i as int)),
        decreases end - i,
    {
        let c = s.get_char(i);
        let u: u32 = c as u32;
        proof {
            assert(is_digit_char(s@[i as int]));
        }
        let d: u64 = (u - 48) as u64;
        acc = acc * 10 + d;
        proof {
            let pre = s@.subrange(start as int, i as int);
            let cur = s@.subrange(start as int, i as int + 1);
            assert(cur.drop_last() =~= pre);
            assert(cur.last() == s@[i as int]);
            assert(acc as nat == dec_value(cur));
        }
        i = i + 1;
        if acc > 0xffff_ffff {
            proof {
                let full = s@.subrange(start as int, end as int);
                lemma_dec_value_prefix_le(full, i as int - start as int);
                assert(full.subrange(0, i as int - start as int) =~= s@.subrange(
                    start as int,
                    i as int,
                ));
            }
            return None;
        }
    }
    proof {
        assert(s@.subrange(start as int, i as int) =~= s@.subrange(start as int, end as int));
    }
    Some(acc as u32)
}

/// Tries to read a reply beginning exactly at index `i`: `None` when
/// the grammar does not stand there, `Some(None)` when it does but a
/// coordinate overflows a `u32`, and `Some(Some((row, col)))`
/// otherwise.
fn try_match_at(s: &str, i: usize) -> (r: Option<Option<(u32, u32)>>)
    requires
        i <= s@.len(),
    ensures
        match r {
            None => reply_match_at(s@, i as int) is None,
            Some(None) => (reply_match_at(s@, i as int) matches Some(p) && (p.0 > u32::MAX || p.1
                > u32::MAX)),
            Some(Some(v)) => reply_match_at(s@, i as int) == Some((v.0 as nat, v.1 as nat)),
        },
{
    let len: usize = s.unicode_len();
    if i >= len || i + 1 >= len {
        return None;
    }
    if s.get_char(i) != '\x1b' {
        return None;
    }
    if s.get_char(i + 1) != '[' {
        return None;
    }
    let e1: usize = scan_digits(s, i + 2);
    if e1 == i + 2 || e1 >= len {
        return None;
    }
    if s.get_char(e1) != ';' {
        return None;
    }
    let e2: usize = scan_digits(s, e1 + 1);
    if e2 == e1 + 1 || e2 >= len {
        return None;
    }
    if s.get_char(e2) != 'R' {
        return None;
    }
    proof {
        lemma_digit_run_end_props(s@, i as int + 2);
        lemma_digit_run_end_props(s@, e1 as int + 1);
    }
    let row = match parse_decimal_run(s, i + 2, e1) {
        Some(v) => v,
        None => {
            return Some(None);
        },
    };
    let col = match parse_decimal_run(s, e1 + 1, e2) {
        Some(v) => v,
        None => {
            return Some(None);
        },
    };
    Some(Some((row, col)))
}

/// Parses a cursor-position reply line, returning the 1-based
/// (row, col) of the leftmost place where the reply grammar matches
/// — leading characters (typed-ahead input sitting in the buffer)
/// and trailing characters are both tolerated — exactly when such a
/// place exists and its coordinates fit in a `u32`, and a
/// [`ParseError`] otherwise.
pub fn parse_position(s: &str) -> (r: Result<(u32, u32), ParseError>)
    ensures
        match reply_spec(s@) {
            Some(p) => if p.0 <= u32::MAX && p.1 <= u32::MAX {
                r == Ok::<(u32, u32), ParseError>((p.0 as u32, p.1 as u32))
            } else {
                r is Err
            },
            None => r is Err,
        },
{
    let len: usize = s.unicode_len();
    let mut i: usize = 0;
    while i < len
        invariant
            i <= len,
            len as nat == s@.len(),
            forall|j: int| 0 <= j < i ==> reply_match_at(s@, j) is None,
        decreases len - i,
    {
        if s.get_char(i) == '\x1b' {
            match try_match_at(s, i) {
                Some(Some(v)) => {
                    proof {
                        lemma_reply_search_skip(s@, i as int);
                    }
                    return Ok(v);
                },
                Some(None) => {
                    proof {
                        lemma_reply_search_skip(s@, i as int);
                    }
                    return Err(ParseError);
                },
                None => {},
            }
        } else {
            proof {
                assert(reply_match_at(s@, i as int) is None);
            }
        }
        i = i + 1;
    }
    proof {
        lemma_reply_search_skip(s@, len as int);
    }
    Err(ParseError)
}

/// The reply a terminal sends for a cursor at the given row and
/// column: `ESC [ <row> ; <col> R`.
pub open spec fn position_reply(row: nat, col: nat) -> Seq<char> {
    csi_seq() + dec_seq(row) + seq![';'] + dec_seq(col) + seq!['R']
}

/// Round trip: a well-formed reply for any (row, col) parses back to
/// exactly that pair.
pub proof fn lemma_reply_round_trip(row: nat, col: nat)
    ensures
        reply_spec(position_reply(row, col)) == Some((row, col)),
{
    let s = position_reply(row, col);
    let a = dec_seq(row).len() as int;
    let b = dec_seq(col).len() as int;
    lemma_dec_seq_digits(row);
    lemma_dec_seq_digits(col);
    assert(s.len() == 2 + a + 1 + b + 1);
    assert(s[0] == '\x1b');
    assert(s[1] == '[');
    assert forall|k: int| 2 <= k < 2 + a implies is_digit_char(s[k]) by {
        assert(s[k] == dec_seq(row)[k - 2]);
    }
    assert(s[2 + a] == ';');
    assert(!is_digit_char(';'));
    lemma_digit_run_end_of(s, 2, 2 + a);
    assert forall|k: int| 2 + a + 1 <= k < 2 + a + 1 + b implies is_digit_char(s[k]) by {
        assert(s[k] == dec_seq(col)[k - (2 + a + 1)]);
    }
    assert(s[2 + a + 1 + b] == 'R');
    assert(!is_digit_char('R'));
    lemma_digit_run_end_of(s, 2 + a + 1, 2 + a + 1 + b);
    assert(s.subrange(2, 2 + a) =~= dec_seq(row));
    assert(s.subrange(2 + a + 1, 2 + a + 1 + b) =~= dec_seq(col));
    lemma_dec_value_of_dec_seq(row);
    lemma_dec_value_of_dec_seq(col);
    assert(reply_match_at(s, 0) == Some((row, col)));
    assert(reply_search(s, 0) == reply_match_at(s, 0));
}

} // verus!
