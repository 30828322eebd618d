//! The colour engine: 24-bit RGB colour intents and their rendering
//! into exact SGR escape-sequence strings.

use vstd::prelude::*;
use crate::ansi::csi_string;
use crate::ansi::sgr_seq;
use crate::ansi::reset_seq;
use crate::decimal::dec_seq;
use crate::decimal::push_dec_u32;

verus! {

/// Which of the two colourable regions a parameter body addresses:
/// the text itself or the fill behind it.
#[derive(Clone, Copy, PartialEq, Eq, Structural, Debug)]
pub enum Plane {
    FG,
    BG,
}

/// The fixed SGR parameter code that selects a plane: 38 sets the
/// foreground, 48 the background.
pub open spec fn plane_code(p: Plane) -> nat {
    match p {
        Plane::FG => 38,
        Plane::BG => 48,
    }
}

/// A 24-bit colour: red, green and blue channels. Every value is a
/// valid terminal colour; nothing needs validating.
#[derive(Clone, Copy, PartialEq, Eq, Structural, Debug)]
pub struct RGB(pub u8, pub u8, pub u8);

/// The SGR parameter body for one plane bound to one colour:
/// `<code>;2;<r>;<g>;<b>`, where `2` is the fixed subparameter
/// selecting direct RGB.
pub open spec fn plane_body(p: Plane, c: RGB) -> Seq<char> {
    dec_seq(plane_code(p)) + seq![';', '2', ';'] + dec_seq(c.0 as nat) + seq![';'] + dec_seq(
        c.1 as nat,
    ) + seq![';'] + dec_seq(c.2 as nat)
}

impl RGB {
    /// Renders this colour's parameter body for the given plane.
    pub fn unescaped(&self, plane: Plane) -> (r: String)
        ensures
            r@ == plane_body(plane, *self),
    {
        let code: u32 = match plane {
            Plane::FG => 38,
            Plane::BG => 48,
        };
        let mut s = String::new();
        push_dec_u32(&mut s, code);
        s.append(";2;");
        push_dec_u32(&mut s, self.0 as u32);
        s.append(";");
        push_dec_u32(&mut s, self.1 as u32);
        s.append(";");
        push_dec_u32(&mut s, self.2 as u32);
        proof {
            reveal_strlit(";2;");
            reveal_strlit(";");
            assert(";2;"@ =~= seq![';', '2', ';']);
            assert(";"@ =~= seq![';']);
            assert(s@ =~= plane_body(plane, *self));
        }
        s
    }
}

/// Wraps an SGR parameter body into a full escape sequence,
/// `ESC [ <body> m`.
pub fn colour_escape(s: &str) -> (r: String)
    ensures
        r@ == sgr_seq(s@),
{
    let mut t = csi_string();
    t.append(s);
    t.append("m");
    proof {
        reveal_strlit("m");
        assert("m"@ =~= seq!['m']);
        assert(t@ =~= sgr_seq(s@));
    }
    t
}

/// A colour intent: optionally a foreground colour, optionally a
/// background colour. Binding neither is legal and renders as an
/// empty parameter body.
#[derive(Clone, Copy, Debug)]
pub struct Colour {
    pub fg: Option<RGB>,
    pub bg: Option<RGB>,
}

/// The rendered parameter body of a colour intent: the bodies of the
/// bound planes, foreground first, joined by `;`.
pub open spec fn spec_unescaped(c: Colour) -> Seq<char> {
    match (c.fg, c.bg) {
        (Option::None, Option::None) => Seq::empty(),
        (Option::None, Option::Some(b)) => plane_body(Plane::BG, b),
        (Option::Some(f), Option::None) => plane_body(Plane::FG, f),
        (Option::Some(f), Option::Some(b)) => plane_body(Plane::FG, f) + seq![';'] + plane_body(
            Plane::BG,
            b,
        ),
    }
}

/// The full escape sequence of a colour intent.
pub open spec fn spec_escaped(c: Colour) -> Seq<char> {
    sgr_seq(spec_unescaped(c))
}

/// Text wrapped in a colour intent: the escape sequence, the text,
/// then the universal reset.
pub open spec fn spec_paint(c: Colour, text: Seq<char>) -> Seq<char> {
    spec_escaped(c) + text + reset_seq()
}

impl Colour {
    /// A colour intent bound only to a foreground colour.
    pub fn fg(rgb: RGB) -> (r: Self)
        ensures
            r.fg == Some(rgb),
            r.bg is None,
    {
        Colour { fg: Some(rgb), bg: None }
    }

    /// A colour intent bound only to a background colour.
    pub fn bg(rgb: RGB) -> (r: Self)
        ensures
            r.fg is None,
            r.bg == Some(rgb),
    {
        Colour { fg: None, bg: Some(rgb) }
    }

    /// A colour intent binding both planes.
    pub fn fg_bg(fg: RGB, bg: RGB) -> (r: Self)
        ensures
            r.fg == Some(fg),
            r.bg == Some(bg),
    {
        Colour { fg: Some(fg), bg: Some(bg) }
    }

    /// Renders the semicolon-joined parameter body of this intent.
    pub fn unescaped(&self) -> (r: String)
        ensures
            r@ == spec_unescaped(*self),
    {
        match (self.fg, self.bg) {
            (None, None) => {
                let s = String::new();
                proof {
                    assert(s@ =~= spec_unescaped(*self));
                }
                s
            },
            (None, Some(b)) => b.unescaped(Plane::BG),
            (Some(f), None) => f.unescaped(Plane::FG),
            (Some(f), Some(b)) => {
                let mut s = f.unescaped(Plane::FG);
                s.append(";");
                let t = b.unescaped(Plane::BG);
                s.append(t.as_str());
                proof {
                    reveal_strlit(";");
                    assert(";"@ =~= seq![';']);
                    assert(s@ =~= spec_unescaped(*self));
                }
                s
            },
        }
    }

    /// Renders the full escape sequence of this intent,
    /// `ESC [ <body> m`.
    pub fn escaped(&self) -> (r: String)
        ensures
            r@ == spec_escaped(*self),
    {
        let body = self.unescaped();
        colour_escape(body.as_str())
    }

    /// Wraps `text` in this intent's escape sequence and the
    /// universal reset, so that printing the result leaves the
    /// terminal's colour state as it was.
    pub fn paint(&self, text: &str) -> (r: String)
        ensures
            r@ == spec_paint(*self, text@),
    {
        let mut s = self.escaped();
        s.append(text);
        s.append("\x1b[0m");
        proof {
            reveal_strlit("\x1b[0m");
            assert("\x1b[0m"@ =~= reset_seq());
            assert(s@ =~= spec_paint(*self, text@));
        }
        s
    }
}

/// The universal reset sequence `ESC [ 0 m`.
pub fn reset_all() -> (r: String)
    ensures
        r@ == reset_seq(),
{
    proof {
        reveal_strlit("\x1b[0m");
    }
    let s = String::from_str("\x1b[0m");
    proof {
        assert(s@ =~= reset_seq());
    }
    s
}

/// The foreground-only reset sequence `ESC [ 3 9 m`.
pub fn reset_foreground() -> (r: String)
    ensures
        r@ == seq!['\x1b', '[', '3', '9', 'm'],
{
    proof {
        reveal_strlit("\x1b[39m");
    }
    let s = String::from_str("\x1b[39m");
    proof {
        assert(s@ =~= seq!['\x1b', '[', '3', '9', 'm']);
    }
    s
}

/// The background-only reset sequence `ESC [ 4 9 m`.
pub fn reset_background() -> (r: String)
    ensures
        r@ == seq!['\x1b', '[', '4', '9', 'm'],
{
    proof {
        reveal_strlit("\x1b[49m");
    }
    let s = String::from_str("\x1b[49m");
    proof {
        assert(s@ =~= seq!['\x1b', '[', '4', '9', 'm']);
    }
    s
}

/// A single-plane intent renders as the literal digits of the plane
/// code, `;2;`, then the three channel values, semicolon-separated.
pub proof fn lemma_render_single_plane(p: Plane, c: RGB)
    ensures
        spec_unescaped(
            (match p {
                Plane::FG => Colour { fg: Some(c), bg: None },
                Plane::BG => Colour { fg: None, bg: Some(c) },
            }),
        ) == dec_seq(plane_code(p)) + seq![';', '2', ';'] + dec_seq(c.0 as nat) + seq![';']
            + dec_seq(c.1 as nat) + seq![';'] + dec_seq(c.2 as nat),
        plane_code(p) == 38 || plane_code(p) == 48,
{
}

/// With both planes bound, the body is the foreground body, a
/// semicolon, then the background body, in that fixed order.
pub proof fn lemma_render_both(f: RGB, b: RGB)
    ensures
        spec_unescaped((Colour { fg: Some(f), bg: Some(b) })) == plane_body(Plane::FG, f)
            + seq![';'] + plane_body(Plane::BG, b),
{
}

/// Whatever the intent and the text, a painted string ends with the
/// exact four-character universal reset.
pub proof fn lemma_paint_reset_suffix(c: Colour, text: Seq<char>)
    ensures
        spec_paint(c, text).len() >= 4,
        spec_paint(c, text).subrange(
            spec_paint(c, text).len() - 4,
            spec_paint(c, text).len() as int,
        ) == reset_seq(),
{
    assert(spec_paint(c, text).subrange(
        spec_paint(c, text).len() - 4,
        spec_paint(c, text).len() as int,
    ) =~= reset_seq());
}

/// An intent with neither plane bound escapes to exactly `ESC [ m`:
/// an empty body between the brackets.
pub proof fn lemma_escape_unbound(c: Colour)
    requires
        c.fg is None,
        c.bg is None,
    ensures
        spec_escaped(c) == seq!['\x1b', '[', 'm'],
{
    assert(spec_escaped(c) =~= seq!['\x1b', '[', 'm']);
}

} // verus!
