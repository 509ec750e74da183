//! Rendering of the header and of one line of the dump.

use super::classify::{
    block_classes, byte_at, classify_block, contents, flags_for_classes, line_flags, value_at,
    ByteClass,
};
use super::paint::{is_painted, ESCAPE};
use super::text::{
    glyph, glyph_char, hex_cell, left_justified, lemma_glyph_is_no_escape,
    lemma_hex_cell_has_no_escape, push_hex_cell, push_repeated, push_upper_hex, upper_hex,
};
use vstd::prelude::*;
use vstd::string::StringExecFns;

verus! {

/// One line of the dump, ready to be filtered and printed.
#[derive(Debug, Clone)]
pub struct RenderedLine {
    /// The columns of the line without colour and without its offset: what
    /// repeated lines are recognised by.
    pub raw: String,
    /// The line as it is printed.
    pub display: String,
    /// The line holds a byte on which no two buffers agree.
    pub has_red: bool,
    /// The line holds a byte on which all buffers agree.
    pub has_green: bool,
    /// The line holds a byte on which only some buffers agree.
    pub has_blue: bool,
}

/// What a [`RenderedLine`] holds, as plain values.
pub struct LineText {
    /// The columns of the line without colour and without its offset.
    pub raw: Seq<char>,
    /// The line as it is printed.
    pub display: Seq<char>,
    /// The line holds a byte on which no two buffers agree.
    pub has_red: bool,
    /// The line holds a byte on which all buffers agree.
    pub has_green: bool,
    /// The line holds a byte on which only some buffers agree.
    pub has_blue: bool,
}

impl View for RenderedLine {
    type V = LineText;

    open spec fn view(&self) -> LineText {
        LineText {
            raw: self.raw@,
            display: self.display@,
            has_red: self.has_red,
            has_green: self.has_green,
            has_blue: self.has_blue,
        }
    }
}

/// The two texts that show one byte: its cell in the hex column and its cell
/// in the ASCII column.
pub type CellText = (Seq<char>, Seq<char>);

/// The bytes of each of the named buffers.
pub open spec fn buffers(files: Seq<(String, Vec<u8>)>) -> Seq<Seq<u8>> {
    Seq::new(files.len(), |f: int| files[f].1@)
}

/// The names of the named buffers.
pub open spec fn names(files: Seq<(String, Vec<u8>)>) -> Seq<Seq<char>> {
    Seq::new(files.len(), |f: int| files[f].0@)
}

/// The text of each name.
pub open spec fn name_texts(file_names: Seq<String>) -> Seq<Seq<char>> {
    Seq::new(file_names.len(), |f: int| file_names[f]@)
}

/// The texts of the cells of one buffer.
pub open spec fn row_texts(row: Seq<(String, String)>) -> Seq<CellText> {
    Seq::new(row.len(), |i: int| (row[i].0@, row[i].1@))
}

/// The texts of the cells of a line, buffer by buffer.
pub open spec fn cell_texts(cells: Seq<Vec<(String, String)>>) -> Seq<Seq<CellText>> {
    Seq::new(cells.len(), |f: int| row_texts(cells[f]@))
}

/// The number of buffers whose bytes are shown: the first alone in terse
/// mode, else all of them.
pub open spec fn shown_count(terse: bool, count: nat) -> nat {
    if terse {
        1
    } else {
        count
    }
}

/// The width of a name's column in the header, for lines of `block` bytes.
pub open spec fn header_width(block: nat) -> nat {
    block * 4 + 2
}

/// The header line: the label `OFFSET`, then the names of the first `count`
/// buffers, each left-justified in its column and followed by three spaces,
/// then the end of the line.
pub open spec fn header_text(file_names: Seq<Seq<char>>, block: nat, count: nat) -> Seq<char> {
    "OFFSET      "@ + Seq::new(
        count,
        |f: int| left_justified(file_names[f], header_width(block)) + "   "@,
    ).flatten().push('\n')
}

/// The start of a line: the offset as `0x` and at least eight hexadecimal
/// digits, then four spaces.
pub open spec fn offset_label(offset: int) -> Seq<char> {
    "0x"@ + upper_hex(offset as nat, 8) + "    "@
}

/// The hex column of one buffer: the hex cell of each byte, and a space after
/// each.
pub open spec fn hex_column(row: Seq<CellText>) -> Seq<char> {
    Seq::new(row.len(), |i: int| row[i].0.push(' ')).flatten()
}

/// The ASCII column of one buffer: the ASCII cell of each byte.
pub open spec fn ascii_column(row: Seq<CellText>) -> Seq<char> {
    Seq::new(row.len(), |i: int| row[i].1).flatten()
}

/// Both columns of one buffer: the hex column, a bar, the ASCII column, a bar.
pub open spec fn buffer_columns(row: Seq<CellText>) -> Seq<char> {
    (hex_column(row).push('|') + ascii_column(row)).push('|')
}

/// The two spaces that part the columns of buffer `f` from those of the next
/// one; nothing after the last of `count` buffers.
pub open spec fn gap_after(f: int, count: nat) -> Seq<char> {
    if f + 1 != count {
        "  "@
    } else {
        Seq::empty()
    }
}

/// The columns of the first `shown` buffers of a line of `cells`, each with
/// the gap that follows it.
pub open spec fn columns_text(cells: Seq<Seq<CellText>>, shown: nat) -> Seq<char> {
    Seq::new(shown, |f: int| buffer_columns(cells[f]) + gap_after(f, cells.len())).flatten()
}

/// The line at `offset` that is made of `cells`: the offset, then the columns
/// of each buffer.
pub open spec fn line_of_cells(offset: int, cells: Seq<Seq<CellText>>) -> Seq<char> {
    offset_label(offset) + columns_text(cells, cells.len())
}

/// The value that buffer `f` shows at place `i` of the line at `offset`.
pub open spec fn shown_value(files: Seq<Seq<u8>>, offset: int, f: int, i: int) -> Option<u8> {
    byte_at(files[f], offset + i)
}

/// The cells of one value without colour: see [`hex_cell`] and [`glyph`].
pub open spec fn plain_cell(value: Option<u8>) -> CellText {
    (hex_cell(value), seq![glyph(value)])
}

/// The cells without colour of the `block` bytes of one buffer from `offset`.
pub open spec fn plain_row(data: Seq<u8>, offset: int, block: nat) -> Seq<CellText> {
    Seq::new(block, |i: int| plain_cell(byte_at(data, offset + i)))
}

/// The cells without colour of the line at `offset` that shows `block` bytes
/// of each of the first `count` buffers.
pub open spec fn plain_cells(files: Seq<Seq<u8>>, offset: int, block: nat, count: nat) -> Seq<
    Seq<CellText>,
> {
    Seq::new(count, |f: int| plain_row(files[f], offset, block))
}

/// The raw form of the line at `offset` that shows `block` bytes of each of
/// the first `count` buffers: the columns without colour and without the
/// offset, so that lines of the same bytes have the same raw form wherever
/// they start.
pub open spec fn raw_line(files: Seq<Seq<u8>>, offset: int, block: nat, count: nat) -> Seq<char> {
    columns_text(plain_cells(files, offset, block, count), count)
}

/// Whether `row` holds the cells of `plain`, each painted for the class of
/// its position.
pub open spec fn is_painted_row(
    classes: Seq<ByteClass>,
    plain: Seq<CellText>,
    row: Seq<CellText>,
) -> bool {
    &&& row.len() == plain.len()
    &&& forall|i: int|
        0 <= i < plain.len() ==> is_painted(classes[i], plain[i].0, (#[trigger] row[i]).0)
            && is_painted(classes[i], plain[i].1, row[i].1)
}

/// Whether `cells` are the cells of the line at `offset`, each painted for
/// the class of its position.
pub open spec fn are_painted_cells(
    cells: Seq<Seq<CellText>>,
    files: Seq<Seq<u8>>,
    offset: int,
    block: nat,
    count: nat,
) -> bool {
    &&& cells.len() == count
    &&& forall|f: int|
        0 <= f < count ==> is_painted_row(
            block_classes(files, offset, block),
            plain_row(files[f], offset, block),
            #[trigger] cells[f],
        )
}

/// Whether `display` is the line at `offset` with each cell either plain or
/// painted in the colour of its position's class.
pub open spec fn is_display_line(
    display: Seq<char>,
    files: Seq<Seq<u8>>,
    offset: int,
    block: nat,
    count: nat,
) -> bool {
    exists|cells: Seq<Seq<CellText>>| #[trigger]
        are_painted_cells(cells, files, offset, block, count) && display == line_of_cells(
            offset,
            cells,
        )
}

/// Whether `line` is the line at `offset`, of `block` bytes of each of the
/// first `count` buffers: its raw form and its flags are fixed by the bytes,
/// and its display form is the offset and then the raw form where `color` is
/// off, and the offset and then the columns with painted cells where it is on.
pub open spec fn is_rendering(
    line: LineText,
    files: Seq<Seq<u8>>,
    offset: int,
    block: nat,
    count: nat,
    color: bool,
) -> bool {
    &&& line.raw == raw_line(files, offset, block, count)
    &&& (line.has_red, line.has_green, line.has_blue) == line_flags(
        block_classes(files, offset, block),
    )
    &&& is_display_line(line.display, files, offset, block, count)
    &&& !color ==> line.display == offset_label(offset) + line.raw
}

/// Cells without colour count as painted: the offset and then the raw form
/// is a display form of the line.
pub proof fn lemma_plain_cells_are_painted(
    files: Seq<Seq<u8>>,
    offset: int,
    block: nat,
    count: nat,
)
    ensures
        are_painted_cells(plain_cells(files, offset, block, count), files, offset, block, count),
        is_display_line(
            offset_label(offset) + raw_line(files, offset, block, count),
            files,
            offset,
            block,
            count,
        ),
{
    assert(are_painted_cells(plain_cells(files, offset, block, count), files, offset, block, count));
}

/// The raw form of a line is fixed by the bytes it shows: two lines that
/// show the same values of every buffer have the same raw form, whatever
/// their offsets.
pub proof fn lemma_raw_ignores_offset(files: Seq<Seq<u8>>, o1: int, o2: int, block: nat, count: nat)
    requires
        forall|f: int, i: int|
            0 <= f < count && 0 <= i < block ==> #[trigger] shown_value(files, o1, f, i)
                == shown_value(files, o2, f, i),
    ensures
        raw_line(files, o1, block, count) == raw_line(files, o2, block, count),
{
    assert forall|f: int| 0 <= f < count implies plain_row(files[f], o1, block) == plain_row(
        files[f],
        o2,
        block,
    ) by {
        assert forall|i: int| 0 <= i < block implies plain_row(files[f], o1, block)[i] == plain_row(
            files[f],
            o2,
            block,
        )[i] by {
            assert(shown_value(files, o1, f, i) == shown_value(files, o2, f, i));
        }
        assert(plain_row(files[f], o1, block) =~= plain_row(files[f], o2, block));
    }
    assert(plain_cells(files, o1, block, count) =~= plain_cells(files, o2, block, count));
}

/// Borrows the bytes of each named buffer.
fn borrow_buffers<'a>(files: &'a [(String, Vec<u8>)]) -> (bufs: Vec<&'a [u8]>)
    ensures
        contents(bufs@) == buffers(files@),
{
    let mut bufs: Vec<&'a [u8]> = Vec::new();
    let mut f: usize = 0;
    while f < files.len()
        invariant
            f <= files.len(),
            bufs@.len() == f,
            forall|g: int| 0 <= g < f ==> bufs@[g]@ == files@[g].1@,
        decreases files.len() - f,
    {
        bufs.push(files[f].1.as_slice());
        f += 1;
    }
    assert(contents(bufs@) =~= buffers(files@));
    bufs
}

/// Appends the start of the line at `offset`.
fn push_offset_label(out: &mut String, offset: usize)
    ensures
        final(out)@ == old(out)@ + offset_label(offset as int),
{
    out.append("0x");
    push_upper_hex(out, offset, 8);
    out.append("    ");
    assert(out@ =~= old(out)@ + offset_label(offset as int));
}

/// Renders the header line for lines of `block` bytes: the names of all the
/// buffers, or that of the first alone in terse mode.
pub fn render_header(file_names: &[String], block: usize, terse: bool) -> (out: String)
    requires
        header_width(block as nat) <= usize::MAX,
        terse ==> file_names@.len() > 0,
    ensures
        out@ == header_text(
            name_texts(file_names@),
            block as nat,
            shown_count(terse, file_names@.len()),
        ),
{
    let mut out = String::new();
    out.append("OFFSET      ");
    let width: usize = block * 4 + 2;
    let count: usize = if terse {
        1
    } else {
        file_names.len()
    };
    let ghost texts = name_texts(file_names@);
    let mut i: usize = 0;
    while i < count
        invariant
            i <= count <= file_names@.len(),
            width == header_width(block as nat),
            texts == name_texts(file_names@),
            out@ == "OFFSET      "@ + Seq::new(
                i as nat,
                |f: int| left_justified(texts[f], header_width(block as nat)) + "   "@,
            ).flatten(),
        decreases count - i,
    {
        let name = file_names[i].as_str();
        let len = name.unicode_len();
        out.append(name);
        if len < width {
            push_repeated(&mut out, ' ', width - len);
        }
        out.append("   ");
        proof {
            let cells = Seq::new(
                i as nat,
                |f: int| left_justified(texts[f], header_width(block as nat)) + "   "@,
            );
            let more = Seq::new(
                (i + 1) as nat,
                |f: int| left_justified(texts[f], header_width(block as nat)) + "   "@,
            );
            let last = left_justified(texts[i as int], header_width(block as nat)) + "   "@;
            assert(more =~= cells.push(last));
            cells.lemma_flatten_push(last);
            assert(out@ =~= "OFFSET      "@ + more.flatten());
        }
        i += 1;
    }
    out.push('\n');
    out
}

/// Joins the cells of one buffer into its two columns.
fn format_row(row: &Vec<(String, String)>) -> (out: String)
    ensures
        out@ == buffer_columns(row_texts(row@)),
{
    let ghost texts = row_texts(row@);
    let mut hex = String::new();
    let mut ascii = String::new();
    let mut i: usize = 0;
    while i < row.len()
        invariant
            i <= row.len(),
            texts == row_texts(row@),
            hex@ == Seq::new(i as nat, |j: int| texts[j].0.push(' ')).flatten(),
            ascii@ == Seq::new(i as nat, |j: int| texts[j].1).flatten(),
        decreases row.len() - i,
    {
        hex.append(row[i].0.as_str());
        hex.push(' ');
        ascii.append(row[i].1.as_str());
        proof {
            let hex_cells = Seq::new(i as nat, |j: int| texts[j].0.push(' '));
            let ascii_cells = Seq::new(i as nat, |j: int| texts[j].1);
            assert(Seq::new((i + 1) as nat, |j: int| texts[j].0.push(' ')) =~= hex_cells.push(
                texts[i as int].0.push(' '),
            ));
            assert(Seq::new((i + 1) as nat, |j: int| texts[j].1) =~= ascii_cells.push(
                texts[i as int].1,
            ));
            hex_cells.lemma_flatten_push(texts[i as int].0.push(' '));
            ascii_cells.lemma_flatten_push(texts[i as int].1);
            assert(hex@ =~= hex_cells.flatten() + texts[i as int].0.push(' '));
        }
        i += 1;
    }
    hex.push('|');
    hex.append(ascii.as_str());
    hex.push('|');
    hex
}

/// Lays out the columns of a line from the cells of its bytes, buffer by
/// buffer: for each buffer its hex cells with a space after each, a bar, its
/// ASCII cells and a bar, with two spaces between one buffer's columns and
/// the next.
pub fn format_columns(cells: &[Vec<(String, String)>]) -> (out: String)
    ensures
        out@ == columns_text(cell_texts(cells@), cells@.len()),
{
    let ghost texts = cell_texts(cells@);
    let count = cells.len();
    let mut out = String::new();
    assert(columns_text(texts, 0) =~= Seq::<char>::empty());
    let mut f: usize = 0;
    while f < count
        invariant
            f <= count == cells@.len(),
            texts == cell_texts(cells@),
            out@ == columns_text(texts, f as nat),
        decreases count - f,
    {
        let ghost before = out@;
        let columns = format_row(&cells[f]);
        out.append(columns.as_str());
        if f + 1 != count {
            out.append("  ");
        }
        proof {
            let last = buffer_columns(texts[f as int]) + gap_after(f as int, texts.len());
            let parts = Seq::new(
                f as nat,
                |g: int| buffer_columns(texts[g]) + gap_after(g, texts.len()),
            );
            assert(Seq::new(
                (f + 1) as nat,
                |g: int| buffer_columns(texts[g]) + gap_after(g, texts.len()),
            ) =~= parts.push(last));
            parts.lemma_flatten_push(last);
            assert(out@ =~= before + last);
        }
        f += 1;
    }
    out
}

/// Lays out the line at `offset` from the cells of its bytes: the offset,
/// then the columns of each buffer.
pub fn format_line(offset: usize, cells: &[Vec<(String, String)>]) -> (out: String)
    ensures
        out@ == line_of_cells(offset as int, cell_texts(cells@)),
{
    let mut out = String::new();
    push_offset_label(&mut out, offset);
    let columns = format_columns(cells);
    out.append(columns.as_str());
    out
}

/// The cells without colour of the `block` bytes of `buf` from `offset`.
fn plain_row_of(buf: &[u8], offset: usize, block: usize) -> (row: Vec<(String, String)>)
    ensures
        row@.len() == block,
        row_texts(row@) == plain_row(buf@, offset as int, block as nat),
{
    let mut row: Vec<(String, String)> = Vec::new();
    let mut i: usize = 0;
    while i < block
        invariant
            i <= block,
            row@.len() == i,
            forall|j: int|
                0 <= j < i ==> (#[trigger] row@[j]).0@ == hex_cell(byte_at(buf@, offset + j))
                    && row@[j].1@ == seq![glyph(byte_at(buf@, offset + j))],
        decreases block - i,
    {
        let value = value_at(buf, offset, i);
        let mut hex = String::new();
        push_hex_cell(&mut hex, value);
        let mut ascii = String::new();
        ascii.push(glyph_char(value));
        assert(hex@ =~= hex_cell(value));
        assert(ascii@ =~= seq![glyph(value)]);
        row.push((hex, ascii));
        i += 1;
    }
    assert(row_texts(row@) =~= plain_row(buf@, offset as int, block as nat));
    row
}

/// Paints each cell of `plain` in the colour of the class of its position.
fn paint_row(classes: &[ByteClass], plain: &Vec<(String, String)>) -> (row: Vec<(String, String)>)
    requires
        plain@.len() == classes@.len(),
        forall|i: int|
            0 <= i < plain@.len() ==> !(#[trigger] plain@[i]).0@.contains(ESCAPE)
                && !plain@[i].1@.contains(ESCAPE),
    ensures
        is_painted_row(classes@, row_texts(plain@), row_texts(row@)),
{
    let mut row: Vec<(String, String)> = Vec::new();
    let mut i: usize = 0;
    while i < plain.len()
        invariant
            i <= plain.len() == classes@.len(),
            row@.len() == i,
            forall|j: int|
                0 <= j < plain@.len() ==> !(#[trigger] plain@[j]).0@.contains(ESCAPE)
                    && !plain@[j].1@.contains(ESCAPE),
            forall|j: int|
                0 <= j < i ==> is_painted(classes@[j], plain@[j].0@, (#[trigger] row@[j]).0@)
                    && is_painted(classes@[j], plain@[j].1@, row@[j].1@),
        decreases plain.len() - i,
    {
        let class = classes[i];
        let hex = class.to_colored_hex(plain[i].0.as_str());
        let ascii = class.to_colored_ascii(plain[i].1.as_str());
        row.push((hex, ascii));
        i += 1;
    }
    row
}

/// Renders the line at `offset`: `block` bytes of every buffer, or of the
/// first alone in terse mode. All the buffers are compared in either mode.
/// The raw form holds the columns alone; the display form starts with the
/// offset, and with `color` off the raw form follows it unchanged. Terse mode
/// needs a first buffer to take the bytes from.
pub fn render_line(
    offset: usize,
    files: &[(String, Vec<u8>)],
    block: usize,
    terse: bool,
    color: bool,
) -> (line: RenderedLine)
    requires
        terse && block > 0 ==> files@.len() > 0,
    ensures
        is_rendering(
            line@,
            buffers(files@),
            offset as int,
            block as nat,
            shown_count(terse, files@.len()),
            color,
        ),
{
    let bufs = borrow_buffers(files);
    let ghost data = buffers(files@);
    let classes = classify_block(bufs.as_slice(), offset, block);
    let flags = flags_for_classes(classes.as_slice());
    let count: usize = if terse {
        1
    } else {
        files.len()
    };

    let nothing: Vec<u8> = Vec::new();
    let mut raw_cells: Vec<Vec<(String, String)>> = Vec::new();
    let mut display_cells: Vec<Vec<(String, String)>> = Vec::new();
    assert(contents(bufs@).len() == bufs@.len() && buffers(files@).len() == files@.len());
    let mut f: usize = 0;
    while f < count
        invariant
            f <= count,
            block > 0 ==> count <= bufs@.len(),
            nothing@.len() == 0,
            contents(bufs@) == data,
            classes@ == block_classes(data, offset as int, block as nat),
            raw_cells@.len() == f,
            color ==> display_cells@.len() == f,
            forall|g: int|
                0 <= g < f ==> row_texts((#[trigger] raw_cells@[g])@) == plain_row(
                    data[g],
                    offset as int,
                    block as nat,
                ),
            color ==> forall|g: int|
                0 <= g < f ==> is_painted_row(
                    classes@,
                    plain_row(data[g], offset as int, block as nat),
                    row_texts((#[trigger] display_cells@[g])@),
                ),
        decreases count - f,
    {
        let buf: &[u8] = if f < bufs.len() {
            bufs[f]
        } else {
            nothing.as_slice()
        };
        let plain = plain_row_of(buf, offset, block);
        proof {
            if block > 0 {
                assert(buf@ == contents(bufs@)[f as int]);
            }
            assert(plain_row(buf@, offset as int, block as nat) =~= plain_row(
                data[f as int],
                offset as int,
                block as nat,
            ));
        }
        if color {
            proof {
                assert(classes@.len() == block);
                assert forall|i: int| 0 <= i < plain@.len() implies !(#[trigger] plain@[i]).0@.contains(
                    ESCAPE,
                ) && !plain@[i].1@.contains(ESCAPE) by {
                    let value = byte_at(buf@, offset + i);
                    assert(row_texts(plain@)[i] == plain_cell(value));
                    lemma_hex_cell_has_no_escape(value);
                    lemma_glyph_is_no_escape(value);
                }
            }
            let painted = paint_row(classes.as_slice(), &plain);
            display_cells.push(painted);
        }
        raw_cells.push(plain);
        f += 1;
    }
    let raw = format_columns(raw_cells.as_slice());
    proof {
        assert(cell_texts(raw_cells@) =~= plain_cells(
            data,
            offset as int,
            block as nat,
            count as nat,
        ));
        lemma_plain_cells_are_painted(data, offset as int, block as nat, count as nat);
    }
    let display = if color {
        let display = format_line(offset, display_cells.as_slice());
        proof {
            assert(are_painted_cells(
                cell_texts(display_cells@),
                data,
                offset as int,
                block as nat,
                count as nat,
            ));
        }
        display
    } else {
        let mut display = String::new();
        push_offset_label(&mut display, offset);
        display.append(raw.as_str());
        display
    };
    RenderedLine {
        raw,
        display,
        has_red: flags.0,
        has_green: flags.1,
        has_blue: flags.2,
    }
}

} // verus!
