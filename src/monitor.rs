//! What the daemon asks of a display backend, as values.

use vstd::prelude::*;

verus! {

/// How a wallpaper covers an output.
#[derive(Debug, PartialEq, Eq, Structural, Clone, Copy)]
pub enum Mode {
    Fill,
    Tile,
}

/// The display backends the daemon can drive.
#[derive(Debug, PartialEq, Eq, Structural, Clone, Copy)]
pub enum Backend {
    Sway,
}

/// The word the sway backend uses for a mode.
pub open spec fn mode_word(mode: Mode) -> Seq<char> {
    match mode {
        Mode::Fill => seq!['f', 'i', 'l', 'l'],
        Mode::Tile => seq!['t', 'i', 'l', 'e'],
    }
}

/// The sway command that sets the background of an output.
pub open spec fn background_command(ident: Seq<char>, path: Seq<char>, mode: Mode) -> Seq<char> {
    seq!['o', 'u', 't', 'p', 'u', 't', ' '] + ident + seq![' ', 'b', 'a', 'c', 'k', 'g', 'r', 'o', 'u', 'n', 'd', ' ', '"']
        + path + seq!['"', ' '] + mode_word(mode)
}

/// Builds the command that sets `path` as the background of output `ident`.
pub fn sway_background_command(ident: &str, path: &str, mode: Mode) -> (r: String)
    ensures
        r@ == background_command(ident@, path@, mode),
{
    let mut cmd = String::from_str("output ");
    cmd.append(ident);
    cmd.append(" background \"");
    cmd.append(path);
    cmd.append("\" ");
    match mode {
        Mode::Fill => cmd.append("fill"),
        Mode::Tile => cmd.append("tile"),
    }
    proof {
        reveal_strlit("output ");
        reveal_strlit(" background \"");
        reveal_strlit("\" ");
        reveal_strlit("fill");
        reveal_strlit("tile");
        assert(cmd@ =~= background_command(ident@, path@, mode));
    }
    cmd
}

} // verus!
