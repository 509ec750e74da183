//! The pieces of text that a line is made of: hexadecimal numbers, glyphs and
//! padding.

use super::paint::ESCAPE;
use vstd::prelude::*;

verus! {

/// `String::push` appends one character to the end of the string and leaves
/// what was there untouched.
pub assume_specification[ String::push ](text: &mut String, ch: char)
    ensures
        final(text)@ == old(text)@.push(ch),
;

/// The sixteen upper-case hexadecimal digits, by value.
pub open spec fn hex_alphabet() -> Seq<char> {
    seq!['0', '1', '2', '3', '4', '5', '6', '7', '8', '9', 'A', 'B', 'C', 'D', 'E', 'F']
}

/// The upper-case hexadecimal digit for `value`, which is below 16.
pub open spec fn hex_digit(value: int) -> char
    recommends
        0 <= value < 16,
{
    hex_alphabet()[value]
}

/// `n` in upper-case hexadecimal, with as few digits as it takes (one for
/// zero).
pub open spec fn hex_digits(n: nat) -> Seq<char>
    decreases n,
{
    if n < 16 {
        seq![hex_digit(n as int)]
    } else {
        hex_digits(n / 16).push(hex_digit((n % 16) as int))
    }
}

/// `count` copies of `ch`.
pub open spec fn repeated(ch: char, count: int) -> Seq<char> {
    Seq::new(
        if count > 0 {
            count as nat
        } else {
            0
        },
        |i: int| ch,
    )
}

/// `n` in upper-case hexadecimal, filled with leading zeros up to `width`
/// digits; a longer number is not cut.
pub open spec fn upper_hex(n: nat, width: nat) -> Seq<char> {
    repeated('0', width - hex_digits(n).len()) + hex_digits(n)
}

/// `text` filled with spaces on the right up to `width` characters; a longer
/// text is not cut.
pub open spec fn left_justified(text: Seq<char>, width: nat) -> Seq<char> {
    text + repeated(' ', width - text.len())
}

/// Whether `b` is a printable ASCII character other than the space: `!`
/// (0x21) to `~` (0x7E).
pub open spec fn is_printable(b: u8) -> bool {
    0x21 <= b <= 0x7E
}

/// The two characters that show a value in the hex column: its two
/// hexadecimal digits, or `XX` where the buffer has ended.
pub open spec fn hex_cell(value: Option<u8>) -> Seq<char> {
    match value {
        Some(b) => upper_hex(b as nat, 2),
        None => seq!['X', 'X'],
    }
}

/// The character that shows a value in the ASCII column: the byte itself
/// where it is printable, a dot where it is not or where the buffer has ended.
pub open spec fn glyph(value: Option<u8>) -> char {
    match value {
        Some(b) => if is_printable(b) {
            b as char
        } else {
            '.'
        },
        None => '.',
    }
}

/// A number in hexadecimal is at least as wide as asked for, and exactly so
/// where its digits fit.
pub proof fn lemma_upper_hex_width(n: nat, width: nat)
    ensures
        upper_hex(n, width).len() == if hex_digits(n).len() > width {
            hex_digits(n).len()
        } else {
            width
        },
{
}

/// A byte is shown by exactly two characters: its high and its low
/// hexadecimal digit, or `XX`.
pub proof fn lemma_hex_cell_is_a_pair(value: Option<u8>)
    ensures
        hex_cell(value) == match value {
            Some(b) => seq![hex_digit(b as int / 16), hex_digit(b as int % 16)],
            None => seq!['X', 'X'],
        },
{
    if let Some(b) = value {
        if b < 16 {
            assert(upper_hex(b as nat, 2) =~= seq![hex_digit(0), hex_digit(b as int)]);
        } else {
            assert(hex_digits(b as nat / 16) == seq![hex_digit(b as int / 16)]);
            assert(upper_hex(b as nat, 2) =~= seq![
                hex_digit(b as int / 16),
                hex_digit(b as int % 16),
            ]);
        }
    }
}

/// Hexadecimal digits are no escape characters.
proof fn lemma_hex_digits_have_no_escape(n: nat)
    ensures
        !hex_digits(n).contains(ESCAPE),
    decreases n,
{
    if n >= 16 {
        lemma_hex_digits_have_no_escape(n / 16);
        vstd::seq_lib::lemma_seq_contains_after_push(
            hex_digits(n / 16),
            hex_digit((n % 16) as int),
            ESCAPE,
        );
    }
}

/// The hex column never holds an escape character of its own.
pub proof fn lemma_hex_cell_has_no_escape(value: Option<u8>)
    ensures
        !hex_cell(value).contains(ESCAPE),
{
    if let Some(b) = value {
        lemma_hex_digits_have_no_escape(b as nat);
    }
}

/// The ASCII column never holds an escape character of its own.
pub proof fn lemma_glyph_is_no_escape(value: Option<u8>)
    ensures
        !seq![glyph(value)].contains(ESCAPE),
{
}

/// Says whether `b` is a printable ASCII character other than the space.
pub fn is_printable_ascii(b: u8) -> (printable: bool)
    ensures
        printable == is_printable(b),
{
    0x21 <= b && b <= 0x7E
}

/// The upper-case hexadecimal digit for `value`.
fn hex_digit_char(value: u8) -> (digit: char)
    requires
        value < 16,
    ensures
        digit == hex_digit(value as int),
{
    if value < 10 {
        (value + 48) as char
    } else {
        (value + 55) as char
    }
}

/// The number of hexadecimal digits that `n` takes.
fn hex_len(n: usize) -> (len: usize)
    ensures
        len == hex_digits(n as nat).len(),
        1 <= len <= n / 16 + 1,
    decreases n,
{
    if n < 16 {
        1
    } else {
        let rest = hex_len(n / 16);
        rest + 1
    }
}

/// Appends `n` in hexadecimal, without leading zeros.
fn push_hex_digits(out: &mut String, n: usize)
    ensures
        final(out)@ == old(out)@ + hex_digits(n as nat),
    decreases n,
{
    if n >= 16 {
        push_hex_digits(out, n / 16);
    }
    out.push(hex_digit_char((n % 16) as u8));
}

/// Appends `count` copies of `ch`.
pub(crate) fn push_repeated(out: &mut String, ch: char, count: usize)
    ensures
        final(out)@ == old(out)@ + repeated(ch, count as int),
{
    let mut i: usize = 0;
    while i < count
        invariant
            i <= count,
            out@ == old(out)@ + repeated(ch, i as int),
        decreases count - i,
    {
        out.push(ch);
        i += 1;
        assert(repeated(ch, i as int) =~= repeated(ch, i as int - 1).push(ch));
    }
}

/// Appends `n` in upper-case hexadecimal, zero-filled to `width` digits.
pub(crate) fn push_upper_hex(out: &mut String, n: usize, width: usize)
    ensures
        final(out)@ == old(out)@ + upper_hex(n as nat, width as nat),
{
    let len = hex_len(n);
    if len < width {
        push_repeated(out, '0', width - len);
    }
    push_hex_digits(out, n);
}

/// Appends the two hex-column characters of `value`.
pub(crate) fn push_hex_cell(out: &mut String, value: Option<u8>)
    ensures
        final(out)@ == old(out)@ + hex_cell(value),
{
    match value {
        Some(b) => push_upper_hex(out, b as usize, 2),
        None => {
            out.push('X');
            out.push('X');
        },
    }
}

/// The ASCII-column character of `value`.
pub(crate) fn glyph_char(value: Option<u8>) -> (ch: char)
    ensures
        ch == glyph(value),
{
    match value {
        Some(b) => if is_printable_ascii(b) {
            b as char
        } else {
            '.'
        },
        None => '.',
    }
}

} // verus!
