//! The shared shapes of ANSI escape sequences: the CSI prefix
//! `ESC [`, the SGR wrapper `ESC [ <body> m`, and the universal
//! colour reset.

use vstd::prelude::*;

verus! {

/// The two-character Control Sequence Introducer, `ESC [`.
pub open spec fn csi_seq() -> Seq<char> {
    seq!['\x1b', '[']
}

/// A Select Graphic Rendition sequence: the CSI prefix, a parameter
/// body, and the terminator `m`.
pub open spec fn sgr_seq(body: Seq<char>) -> Seq<char> {
    csi_seq() + body + seq!['m']
}

/// The universal reset `ESC [ 0 m`, clearing foreground and
/// background to the terminal's defaults.
pub open spec fn reset_seq() -> Seq<char> {
    seq!['\x1b', '[', '0', 'm']
}

/// A fresh `String` holding the CSI prefix.
pub fn csi_string() -> (r: String)
    ensures
        r@ == csi_seq(),
{
    proof {
        reveal_strlit("\x1b[");
    }
    let s = String::from_str("\x1b[");
    proof {
        assert(s@ =~= csi_seq());
    }
    s
}

} // verus!
