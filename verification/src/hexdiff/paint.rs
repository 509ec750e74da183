//! Colour for the rendered bytes: one terminal colour per class.
//!
//! The escape sequences come from the `colored` crate, which decides by a
//! switch of its own, set from the environment of the process, whether it
//! colours at all. The library therefore knows of a painted text only which
//! forms it can have.

use super::classify::ByteClass;
use colored::Colorize;
use vstd::prelude::*;

verus! {

/// The character that starts a terminal escape sequence.
pub const ESCAPE: char = '\u{1b}';

/// The digits that select the foreground colour of a class.
pub open spec fn color_code(class: ByteClass) -> Seq<char> {
    match class {
        ByteClass::Green => seq!['3', '2'],
        ByteClass::Blue => seq!['3', '4'],
        ByteClass::Red => seq!['3', '1'],
    }
}

/// The escape sequence that selects the colour of a class.
pub open spec fn color_on(class: ByteClass) -> Seq<char> {
    seq![ESCAPE, '['] + color_code(class) + seq!['m']
}

/// The escape sequence that resets the colour.
pub open spec fn color_off() -> Seq<char> {
    seq![ESCAPE, '[', '0', 'm']
}

/// Whether `out` is `text` painted for a byte of class `class`: the text as
/// it is, where colouring is switched off; the text between the sequence that
/// selects its colour and the one that resets it, where it is switched on; or
/// the text followed by the reset sequence alone, where it was switched off
/// while the text was being formatted.
pub open spec fn is_painted(class: ByteClass, text: Seq<char>, out: Seq<char>) -> bool {
    ||| out == text
    ||| out == color_on(class) + text + color_off()
    ||| out == text + color_off()
}

/// `Colorize::green` on a `&str`, formatted by the `Display` of the
/// `ColoredString` it gives. With colouring switched off `colored` writes the
/// text as it is; switched on, it writes `ESC[32m`, the text and `ESC[0m`. It
/// reads its switch once to choose between the two and again for the opening
/// sequence, so a change in between leaves the text and `ESC[0m`. A text that
/// holds a reset sequence would be rewritten: such texts are left out.
#[verifier::external_body]
fn paint_green(text: &str) -> (out: String)
    requires
        !text@.contains(ESCAPE),
    ensures
        is_painted(ByteClass::Green, text@, out@),
{
    text.green().to_string()
}

/// `Colorize::blue` on a `&str`, formatted by the `Display` of the
/// `ColoredString` it gives: as for green, with `ESC[34m` as the opening
/// sequence.
#[verifier::external_body]
fn paint_blue(text: &str) -> (out: String)
    requires
        !text@.contains(ESCAPE),
    ensures
        is_painted(ByteClass::Blue, text@, out@),
{
    text.blue().to_string()
}

/// `Colorize::red` on a `&str`, formatted by the `Display` of the
/// `ColoredString` it gives: as for green, with `ESC[31m` as the opening
/// sequence.
#[verifier::external_body]
fn paint_red(text: &str) -> (out: String)
    requires
        !text@.contains(ESCAPE),
    ensures
        is_painted(ByteClass::Red, text@, out@),
{
    text.red().to_string()
}

impl ByteClass {
    /// Paints a hex pair in the colour of this class.
    pub(crate) fn to_colored_hex(self, hex: &str) -> (out: String)
        requires
            !hex@.contains(ESCAPE),
        ensures
            is_painted(self, hex@, out@),
    {
        match self {
            ByteClass::Green => paint_green(hex),
            ByteClass::Blue => paint_blue(hex),
            ByteClass::Red => paint_red(hex),
        }
    }

    /// Paints an ASCII glyph as the hex pair of the same byte is painted.
    pub(crate) fn to_colored_ascii(self, ascii: &str) -> (out: String)
        requires
            !ascii@.contains(ESCAPE),
        ensures
            is_painted(self, ascii@, out@),
    {
        self.to_colored_hex(ascii)
    }
}

} // verus!
