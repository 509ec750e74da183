//! The walk over the buffers: which lines are shown, which repeated lines
//! are replaced by a marker, and the text that results.

use super::options::{displays, effective, lemma_no_filter_shows_all, HexdiffOptions};
use super::classify::{block_classes, line_flags};
use super::render::{
    are_painted_cells, buffers, header_text, header_width, is_rendering, lemma_raw_ignores_offset,
    line_of_cells, names, name_texts, render_header, render_line, shown_count, shown_value,
    CellText, LineText, RenderedLine,
};
use vstd::prelude::*;
use vstd::string::StringExecFns;

verus! {

/// What a run does with one rendered line.
#[derive(Debug, Clone, Copy, PartialEq, Eq, Structural)]
pub enum LineAction {
    /// Nothing is printed: the filters hide the line, or it repeats the line
    /// before it and the marker of this run of repeats is already out.
    Skip,
    /// A single `*` is printed in place of the line, which repeats the last
    /// printed one.
    Marker,
    /// The line is printed.
    Print,
}

/// What a run remembers from one line to the next.
pub struct Collapser {
    previous_raw: Option<String>,
    in_repeat: bool,
}

/// What a [`Collapser`] holds, as plain values.
pub struct CollapseState {
    /// The raw form of the last printed line, if any line was printed.
    pub previous_raw: Option<Seq<char>>,
    /// Whether the marker of the current run of repeats has been printed.
    pub in_repeat: bool,
}

impl View for Collapser {
    type V = CollapseState;

    closed spec fn view(&self) -> CollapseState {
        CollapseState {
            previous_raw: match self.previous_raw {
                Some(raw) => Some(raw@),
                None => None,
            },
            in_repeat: self.in_repeat,
        }
    }
}

/// The state before the first line.
pub open spec fn initial_state() -> CollapseState {
    CollapseState { previous_raw: None, in_repeat: false }
}

/// Whether the filters of `opts` let `line` through.
pub open spec fn line_shown(line: LineText, opts: HexdiffOptions) -> bool {
    displays((line.has_red, line.has_green, line.has_blue), opts)
}

/// Whether `line` counts as a repeat: repeats are collapsed and its raw form
/// is that of the last printed line.
pub open spec fn repeats(state: CollapseState, line: LineText, opts: HexdiffOptions) -> bool {
    opts.collapse_repeats && state.previous_raw == Some(line.raw)
}

/// What is done with `line` in state `state`.
pub open spec fn action_for(state: CollapseState, line: LineText, opts: HexdiffOptions) -> LineAction {
    if !line_shown(line, opts) {
        LineAction::Skip
    } else if repeats(state, line, opts) {
        if state.in_repeat {
            LineAction::Skip
        } else {
            LineAction::Marker
        }
    } else {
        LineAction::Print
    }
}

/// The state after `line` in state `state`. A hidden line leaves the state
/// as it is.
pub open spec fn next_state(state: CollapseState, line: LineText, opts: HexdiffOptions) -> CollapseState {
    if !line_shown(line, opts) {
        state
    } else if repeats(state, line, opts) {
        CollapseState { previous_raw: state.previous_raw, in_repeat: true }
    } else {
        CollapseState { previous_raw: Some(line.raw), in_repeat: false }
    }
}

/// The state after all of `lines`, in their order.
pub open spec fn state_after(lines: Seq<LineText>, opts: HexdiffOptions) -> CollapseState
    decreases lines.len(),
{
    if lines.len() == 0 {
        initial_state()
    } else {
        next_state(state_after(lines.drop_last(), opts), lines.last(), opts)
    }
}

/// What is done with line `k` of `lines`.
pub open spec fn action_at(lines: Seq<LineText>, opts: HexdiffOptions, k: int) -> LineAction {
    action_for(state_after(lines.take(k), opts), lines[k], opts)
}

/// The line that stands for a run of repeats.
pub open spec fn marker() -> Seq<char> {
    "*"@
}

/// The lines of text that an action puts out for a line: none, the marker,
/// or the line's display form.
pub open spec fn emitted_lines(action: LineAction, line: LineText) -> Seq<Seq<char>> {
    match action {
        LineAction::Skip => Seq::empty(),
        LineAction::Marker => seq![marker()],
        LineAction::Print => seq![line.display],
    }
}

/// The text that an action puts out for a line.
pub open spec fn emitted_text(action: LineAction, line: LineText) -> Seq<char> {
    match action {
        LineAction::Skip => Seq::empty(),
        LineAction::Marker => marker().push('\n'),
        LineAction::Print => line.display.push('\n'),
    }
}

/// The lines of text that `lines` put out, one after the other.
pub open spec fn output_lines(lines: Seq<LineText>, opts: HexdiffOptions) -> Seq<Seq<char>> {
    Seq::new(lines.len(), |k: int| emitted_lines(action_at(lines, opts, k), lines[k])).flatten()
}

/// The lines of text one after the other, each ended by a newline.
pub open spec fn terminated(text_lines: Seq<Seq<char>>) -> Seq<char> {
    Seq::new(text_lines.len(), |i: int| text_lines[i].push('\n')).flatten()
}

/// The text that `lines` put out.
pub open spec fn body_text(lines: Seq<LineText>, opts: HexdiffOptions) -> Seq<char> {
    terminated(output_lines(lines, opts))
}

/// The length of the longest buffer; zero where there is none.
pub open spec fn longest(data: Seq<Seq<u8>>) -> nat
    decreases data.len(),
{
    if data.len() == 0 {
        0
    } else if data.last().len() > longest(data.drop_last()) {
        data.last().len()
    } else {
        longest(data.drop_last())
    }
}

/// The offset at which line `k` starts.
pub open spec fn line_offset(k: int, block: nat) -> int {
    k * block
}

/// Whether `count` lines of `block` bytes are all the lines that start
/// before `len`.
pub open spec fn is_line_count(count: nat, len: nat, block: nat) -> bool {
    forall|k: int| 0 <= k ==> (k < count <==> #[trigger] line_offset(k, block) < len)
}

/// Whether `out` is the dump whose lines, from offset zero on, are `lines`:
/// the header, then what the lines put out.
pub open spec fn is_output_of(
    out: Seq<char>,
    lines: Seq<LineText>,
    files: Seq<(String, Vec<u8>)>,
    opts: HexdiffOptions,
    color: bool,
) -> bool {
    let count = shown_count(opts.terse, files.len());
    &&& is_line_count(lines.len(), longest(buffers(files)), opts.block as nat)
    &&& forall|k: int|
        0 <= k < lines.len() ==> is_rendering(
            #[trigger] lines[k],
            buffers(files),
            line_offset(k, opts.block as nat),
            opts.block as nat,
            count,
            color,
        )
    &&& out == header_text(names(files), opts.block as nat, count) + body_text(lines, opts)
}

/// Whether `out` is the dump of `files` under the options in effect for
/// `opts`: the header, then for each line that starts before the end of the
/// longest buffer what the filters and the collapsing of repeats leave of it.
pub open spec fn is_output(
    out: Seq<char>,
    files: Seq<(String, Vec<u8>)>,
    opts: HexdiffOptions,
    color: bool,
) -> bool {
    exists|lines: Seq<LineText>| #[trigger] is_output_of(out, lines, files, effective(opts), color)
}

/// Whether `result` is what a run gives: nothing where it is quiet, else an
/// error for an empty list of buffers, else the dump.
pub open spec fn is_result(
    result: Result<String, String>,
    quiet: bool,
    files: Seq<(String, Vec<u8>)>,
    opts: HexdiffOptions,
    color: bool,
) -> bool {
    match result {
        Ok(out) => if quiet {
            out@.len() == 0
        } else {
            files.len() > 0 && is_output(out@, files, opts, color)
        },
        Err(message) => !quiet && files.len() == 0 && message@ == "No inputs provided"@,
    }
}

/// Whether two results are both the same text or both the same error.
pub open spec fn same_result(a: Result<String, String>, b: Result<String, String>) -> bool {
    match (a, b) {
        (Ok(x), Ok(y)) => x@ == y@,
        (Err(x), Err(y)) => x@ == y@,
        _ => false,
    }
}

/// Decides whether `line` is displayed under the filters of `opts`.
pub fn should_show_line(line: &RenderedLine, opts: &HexdiffOptions) -> (shown: bool)
    ensures
        shown == line_shown(line@, *opts),
{
    super::options::should_display_flags((line.has_red, line.has_green, line.has_blue), opts)
}

impl Collapser {
    /// The state before the first line.
    pub fn new() -> (state: Self)
        ensures
            state@ == initial_state(),
    {
        Collapser { previous_raw: None, in_repeat: false }
    }

    /// Takes the next line: says what is done with it, and remembers what
    /// the lines after it need.
    pub fn step(&mut self, line: &RenderedLine, opts: &HexdiffOptions) -> (action: LineAction)
        ensures
            action == action_for(old(self)@, line@, *opts),
            final(self)@ == next_state(old(self)@, line@, *opts),
    {
        if !should_show_line(line, opts) {
            return LineAction::Skip;
        }
        if opts.collapse_repeats {
            let repeated = match &self.previous_raw {
                Some(previous) => *previous == line.raw,
                None => false,
            };
            if repeated {
                let action = if self.in_repeat {
                    LineAction::Skip
                } else {
                    LineAction::Marker
                };
                self.in_repeat = true;
                return action;
            }
        }
        self.in_repeat = false;
        self.previous_raw = Some(line.raw.clone());
        LineAction::Print
    }
}

/// Lines of text that are written one after the other are ended one after
/// the other.
proof fn lemma_terminated_add(first: Seq<Seq<char>>, second: Seq<Seq<char>>)
    ensures
        terminated(first + second) == terminated(first) + terminated(second),
{
    let whole = first + second;
    let all = Seq::new(whole.len(), |i: int| whole[i].push('\n'));
    let head = Seq::new(first.len(), |i: int| first[i].push('\n'));
    let tail = Seq::new(second.len(), |i: int| second[i].push('\n'));
    assert(all =~= head + tail);
    vstd::seq_lib::lemma_flatten_concat(head, tail);
}

/// What an action puts out is its lines of text, each ended by a newline.
proof fn lemma_emitted_text(action: LineAction, line: LineText)
    ensures
        terminated(emitted_lines(action, line)) == emitted_text(action, line),
{
    let text_lines = emitted_lines(action, line);
    let ended = Seq::new(text_lines.len(), |i: int| text_lines[i].push('\n'));
    if text_lines.len() == 1 {
        ended.lemma_flatten_one_element();
    }
}

/// One more line lengthens the text by what that line puts out, and moves the
/// state on by one step.
pub proof fn lemma_output_push(lines: Seq<LineText>, line: LineText, opts: HexdiffOptions)
    ensures
        state_after(lines.push(line), opts) == next_state(state_after(lines, opts), line, opts),
        action_at(lines.push(line), opts, lines.len() as int) == action_for(
            state_after(lines, opts),
            line,
            opts,
        ),
        forall|k: int|
            0 <= k < lines.len() ==> #[trigger] action_at(lines.push(line), opts, k) == action_at(
                lines,
                opts,
                k,
            ),
        output_lines(lines.push(line), opts) == output_lines(lines, opts) + emitted_lines(
            action_for(state_after(lines, opts), line, opts),
            line,
        ),
        body_text(lines.push(line), opts) == body_text(lines, opts) + emitted_text(
            action_for(state_after(lines, opts), line, opts),
            line,
        ),
{
    let longer = lines.push(line);
    assert(longer.drop_last() =~= lines);
    assert(longer.take(lines.len() as int) =~= lines);
    let parts = Seq::new(lines.len(), |k: int| emitted_lines(action_at(lines, opts, k), lines[k]));
    let more = Seq::new(
        longer.len(),
        |k: int| emitted_lines(action_at(longer, opts, k), longer[k]),
    );
    let last = emitted_lines(action_for(state_after(lines, opts), line, opts), line);
    assert forall|k: int| 0 <= k < lines.len() implies #[trigger] action_at(longer, opts, k)
        == action_at(lines, opts, k) by {
        assert(longer.take(k) =~= lines.take(k));
    }
    assert(more =~= parts.push(last));
    parts.lemma_flatten_push(last);
    lemma_terminated_add(output_lines(lines, opts), last);
    lemma_emitted_text(action_for(state_after(lines, opts), line, opts), line);
}

/// The length of the longest buffer.
fn longest_len(files: &[(String, Vec<u8>)]) -> (len: usize)
    ensures
        len == longest(buffers(files@)),
{
    let ghost data = buffers(files@);
    let mut len: usize = 0;
    let mut f: usize = 0;
    assert(data.take(0) =~= Seq::<Seq<u8>>::empty());
    while f < files.len()
        invariant
            f <= files.len(),
            data == buffers(files@),
            len == longest(data.take(f as int)),
        decreases files.len() - f,
    {
        assert(data.take(f as int + 1).drop_last() =~= data.take(f as int));
        if files[f].1.len() > len {
            len = files[f].1.len();
        }
        f += 1;
    }
    assert(data.take(files.len() as int) =~= data);
    len
}

/// The names of the buffers.
fn clone_names(files: &[(String, Vec<u8>)]) -> (file_names: Vec<String>)
    ensures
        file_names@.len() == files@.len(),
        name_texts(file_names@) == names(files@),
{
    let mut file_names: Vec<String> = Vec::new();
    let mut f: usize = 0;
    while f < files.len()
        invariant
            f <= files.len(),
            file_names@.len() == f,
            forall|g: int| 0 <= g < f ==> file_names@[g]@ == files@[g].0@,
        decreases files.len() - f,
    {
        file_names.push(files[f].0.clone());
        f += 1;
    }
    assert(name_texts(file_names@) =~= names(files@));
    file_names
}

/// Renders the dump of one or more named buffers and returns its text: the
/// header, then the lines that the filters let through, with runs of repeated
/// lines collapsed where `opts` asks for it. A single buffer gives a plain hex
/// dump. With `quiet` set nothing is rendered. An empty list of buffers is an
/// error. With `color` off every line is printed as its offset and its raw
/// form.
pub fn run(quiet: bool, inputs: Vec<(String, Vec<u8>)>, opts: HexdiffOptions, color: bool) -> (result:
    Result<String, String>)
    requires
        !quiet && inputs@.len() > 0 ==> header_width(effective(opts).block as nat) <= usize::MAX,
    ensures
        is_result(result, quiet, inputs@, opts, color),
{
    if quiet {
        return Ok(String::new());
    }
    if inputs.len() == 0 {
        return Err("No inputs provided".to_owned());
    }
    let opts = opts.normalized();
    let files = inputs.as_slice();
    let block = opts.block;
    let max_len = longest_len(files);
    let file_names = clone_names(files);

    let mut out = render_header(file_names.as_slice(), block, opts.terse);
    let ghost header = out@;
    let ghost mut lines: Seq<LineText> = Seq::empty();
    let mut state = Collapser::new();
    let mut offset: usize = 0;
    assert(output_lines(lines, opts) =~= Seq::<Seq<char>>::empty());
    assert(body_text(lines, opts) =~= Seq::<char>::empty());
    while offset < max_len
        invariant
            files@.len() > 0,
            block >= 1,
            block == opts.block,
            offset == line_offset(lines.len() as int, block as nat) || (offset == usize::MAX
                && line_offset(lines.len() as int, block as nat) >= usize::MAX),
            forall|k: int| 0 <= k < lines.len() ==> #[trigger] line_offset(k, block as nat) < max_len,
            forall|k: int|
                0 <= k < lines.len() ==> is_rendering(
                    #[trigger] lines[k],
                    buffers(files@),
                    line_offset(k, block as nat),
                    block as nat,
                    shown_count(opts.terse, files@.len()),
                    color,
                ),
            state@ == state_after(lines, opts),
            out@ == header + body_text(lines, opts),
        decreases usize::MAX - offset,
    {
        let line = render_line(offset, files, block, opts.terse, color);
        let ghost before = out@;
        let action = state.step(&line, &opts);
        match action {
            LineAction::Skip => {},
            LineAction::Marker => {
                out.append("*");
                out.push('\n');
            },
            LineAction::Print => {
                out.append(line.display.as_str());
                out.push('\n');
            },
        }
        proof {
            lemma_output_push(lines, line@, opts);
            assert(out@ =~= before + emitted_text(action, line@));
            assert(line_offset(lines.len() as int + 1, block as nat) == line_offset(
                lines.len() as int,
                block as nat,
            ) + block) by (nonlinear_arith);
            lines = lines.push(line@);
        }
        offset = offset.saturating_add(block);
    }
    proof {
        assert forall|k: int| 0 <= k implies (k < lines.len() <==> #[trigger] line_offset(
            k,
            block as nat,
        ) < max_len) by {
            if k >= lines.len() {
                assert(line_offset(k, block as nat) >= line_offset(
                    lines.len() as int,
                    block as nat,
                )) by (nonlinear_arith)
                    requires
                        k >= lines.len(),
                        block >= 1,
                ;
            }
        }
        assert(is_line_count(lines.len(), longest(buffers(inputs@)), opts.block as nat));
        assert(out@ == header_text(
            names(inputs@),
            opts.block as nat,
            shown_count(opts.terse, inputs@.len()),
        ) + body_text(lines, opts));
        assert(is_output_of(out@, lines, inputs@, opts, color));
    }
    Ok(out)
}

/// After a marker, the run of repeats lasts until a line is printed.
proof fn lemma_repeat_lasts(lines: Seq<LineText>, opts: HexdiffOptions, i: int, m: int)
    requires
        0 <= i < m <= lines.len(),
        state_after(lines.take(i + 1), opts).in_repeat,
        forall|k: int| i < k < m ==> action_at(lines, opts, k) != LineAction::Print,
    ensures
        state_after(lines.take(m), opts).in_repeat,
    decreases m,
{
    if m > i + 1 {
        lemma_repeat_lasts(lines, opts, i, m - 1);
        assert(lines.take(m).drop_last() =~= lines.take(m - 1));
        assert(action_at(lines, opts, m - 1) != LineAction::Print);
    }
}

/// Two markers never follow one another: between any two of them a line is
/// printed.
pub proof fn lemma_markers_are_separated(lines: Seq<LineText>, opts: HexdiffOptions, i: int, j: int)
    requires
        0 <= i < j < lines.len(),
        action_at(lines, opts, i) == LineAction::Marker,
        action_at(lines, opts, j) == LineAction::Marker,
    ensures
        exists|k: int| i < k < j && action_at(lines, opts, k) == LineAction::Print,
{
    if forall|k: int| i < k < j ==> action_at(lines, opts, k) != LineAction::Print {
        assert(lines.take(i + 1).drop_last() =~= lines.take(i));
        lemma_repeat_lasts(lines, opts, i, j);
    }
}

/// The line that the state remembers was printed, and nothing is in repeat
/// before a line was printed.
proof fn lemma_previous_was_printed(lines: Seq<LineText>, opts: HexdiffOptions)
    ensures
        match state_after(lines, opts).previous_raw {
            Some(raw) => exists|k: int|
                0 <= k < lines.len() && action_at(lines, opts, k) == LineAction::Print
                    && lines[k].raw == raw,
            None => !state_after(lines, opts).in_repeat,
        },
    decreases lines.len(),
{
    if lines.len() > 0 {
        let rest = lines.drop_last();
        let n = lines.len() - 1;
        lemma_previous_was_printed(rest, opts);
        assert(lines.take(n) =~= rest);
        if let Some(raw) = state_after(lines, opts).previous_raw {
            if action_at(lines, opts, n) == LineAction::Print {
                assert(lines[n].raw == raw);
            } else {
                let k = choose|k: int|
                    0 <= k < rest.len() && action_at(rest, opts, k) == LineAction::Print
                        && rest[k].raw == raw;
                assert(rest.take(k) =~= lines.take(k));
                assert(action_at(lines, opts, k) == LineAction::Print && lines[k].raw == raw);
            }
        }
    }
}

/// A marker stands for a repeat of a line that was printed before it.
pub proof fn lemma_marker_repeats_a_line(lines: Seq<LineText>, opts: HexdiffOptions, j: int)
    requires
        0 <= j < lines.len(),
        action_at(lines, opts, j) == LineAction::Marker,
    ensures
        opts.collapse_repeats,
        exists|k: int|
            0 <= k < j && action_at(lines, opts, k) == LineAction::Print && lines[k].raw
                == lines[j].raw,
{
    let before = lines.take(j);
    lemma_previous_was_printed(before, opts);
    let k = choose|k: int|
        0 <= k < before.len() && action_at(before, opts, k) == LineAction::Print && before[k].raw
            == lines[j].raw;
    assert(before.take(k) =~= lines.take(k));
    assert(action_at(lines, opts, k) == LineAction::Print && lines[k].raw == lines[j].raw);
}

/// The raw form and the flags of a line are those of its bytes, whether it
/// is rendered with colour or without; and without colour nothing else is
/// left open.
pub proof fn lemma_rendering_ignores_color(
    a: LineText,
    b: LineText,
    files: Seq<Seq<u8>>,
    offset: int,
    block: nat,
    count: nat,
    color_a: bool,
    color_b: bool,
)
    requires
        is_rendering(a, files, offset, block, count, color_a),
        is_rendering(b, files, offset, block, count, color_b),
    ensures
        a.raw == b.raw,
        a.has_red == b.has_red,
        a.has_green == b.has_green,
        a.has_blue == b.has_blue,
        !color_a && !color_b ==> a == b,
{
}

/// Whether two runs of lines differ in their display forms at most.
pub open spec fn same_but_for_color(a: Seq<LineText>, b: Seq<LineText>) -> bool {
    &&& a.len() == b.len()
    &&& forall|k: int|
        0 <= k < a.len() ==> (#[trigger] a[k]).raw == b[k].raw && a[k].has_red == b[k].has_red
            && a[k].has_green == b[k].has_green && a[k].has_blue == b[k].has_blue
}

/// The state depends on the raw forms and the flags of the lines alone.
proof fn lemma_state_ignores_color(a: Seq<LineText>, b: Seq<LineText>, opts: HexdiffOptions)
    requires
        same_but_for_color(a, b),
    ensures
        state_after(a, opts) == state_after(b, opts),
    decreases a.len(),
{
    if a.len() > 0 {
        assert(same_but_for_color(a.drop_last(), b.drop_last()));
        lemma_state_ignores_color(a.drop_last(), b.drop_last(), opts);
        assert(a.last().raw == b.last().raw);
    }
}

/// Which lines are printed, skipped or replaced by a marker depends on the
/// raw forms and the flags of the lines alone, not on their colour.
pub proof fn lemma_actions_ignore_color(
    a: Seq<LineText>,
    b: Seq<LineText>,
    opts: HexdiffOptions,
    k: int,
)
    requires
        same_but_for_color(a, b),
        0 <= k < a.len(),
    ensures
        action_at(a, opts, k) == action_at(b, opts, k),
{
    assert(same_but_for_color(a.take(k), b.take(k)));
    lemma_state_ignores_color(a.take(k), b.take(k), opts);
    assert(a[k].raw == b[k].raw);
}

/// The longest buffer is at least as long as every buffer, and as long as
/// one of them.
pub proof fn lemma_longest_is_a_maximum(data: Seq<Seq<u8>>)
    ensures
        forall|f: int| 0 <= f < data.len() ==> (#[trigger] data[f]).len() <= longest(data),
        data.len() > 0 ==> exists|f: int| 0 <= f < data.len() && (#[trigger] data[f]).len()
            == longest(data),
    decreases data.len(),
{
    if data.len() > 0 {
        let rest = data.drop_last();
        lemma_longest_is_a_maximum(rest);
        assert forall|f: int| 0 <= f < data.len() implies (#[trigger] data[f]).len() <= longest(
            data,
        ) by {
            if f < rest.len() {
                assert(rest[f] == data[f]);
            }
        }
        if data.last().len() > longest(rest) || rest.len() == 0 {
            assert(data[data.len() - 1].len() == longest(data));
        } else {
            let f = choose|f: int| 0 <= f < rest.len() && (#[trigger] rest[f]).len() == longest(rest);
            assert(data[f].len() == longest(data));
        }
    }
}

/// A buffer of `len` bytes takes `len / block` lines, and one more where the
/// last line is not full.
pub proof fn lemma_line_count(len: nat, block: nat)
    requires
        block >= 1,
    ensures
        is_line_count(((len + block - 1) / block as int) as nat, len, block),
{
    let padded = len + block - 1;
    let count = padded / block as int;
    vstd::arithmetic::div_mod::lemma_fundamental_div_mod(padded, block as int);
    vstd::arithmetic::div_mod::lemma_mod_bound(padded, block as int);
    vstd::arithmetic::div_mod::lemma_div_pos_is_pos(padded, block as int);
    assert forall|k: int| 0 <= k implies (k < count <==> #[trigger] line_offset(k, block) < len) by {
        if k < count {
            vstd::arithmetic::mul::lemma_mul_inequality(k, count - 1, block as int);
            vstd::arithmetic::mul::lemma_mul_is_distributive_sub_other_way(block as int, count, 1);
            vstd::arithmetic::mul::lemma_mul_is_commutative(block as int, count);
        } else {
            vstd::arithmetic::mul::lemma_mul_inequality(count, k, block as int);
            vstd::arithmetic::mul::lemma_mul_is_commutative(block as int, count);
        }
    }
}

/// The number of lines is fixed by the length of the longest buffer and the
/// block size.
proof fn lemma_line_count_is_unique(a: nat, b: nat, len: nat, block: nat)
    requires
        is_line_count(a, len, block),
        is_line_count(b, len, block),
    ensures
        a == b,
{
    if a < b {
        assert(line_offset(a as int, block) < len);
    }
    if b < a {
        assert(line_offset(b as int, block) < len);
    }
}

/// Two dumps of the same buffers under the same options have the same lines
/// but for their colour, whatever the two runs were told about colour.
pub proof fn lemma_runs_agree(
    out_a: Seq<char>,
    lines_a: Seq<LineText>,
    color_a: bool,
    out_b: Seq<char>,
    lines_b: Seq<LineText>,
    color_b: bool,
    files: Seq<(String, Vec<u8>)>,
    opts: HexdiffOptions,
)
    requires
        is_output_of(out_a, lines_a, files, opts, color_a),
        is_output_of(out_b, lines_b, files, opts, color_b),
    ensures
        same_but_for_color(lines_a, lines_b),
        !color_a && !color_b ==> lines_a == lines_b && out_a == out_b,
{
    lemma_line_count_is_unique(
        lines_a.len(),
        lines_b.len(),
        longest(buffers(files)),
        opts.block as nat,
    );
    let count = shown_count(opts.terse, files.len());
    assert forall|k: int| 0 <= k < lines_a.len() implies (#[trigger] lines_a[k]).raw
        == lines_b[k].raw && lines_a[k].has_red == lines_b[k].has_red && lines_a[k].has_green
        == lines_b[k].has_green && lines_a[k].has_blue == lines_b[k].has_blue && (!color_a
        && !color_b ==> lines_a[k] == lines_b[k]) by {
        lemma_rendering_ignores_color(
            lines_a[k],
            lines_b[k],
            buffers(files),
            line_offset(k, opts.block as nat),
            opts.block as nat,
            count,
            color_a,
            color_b,
        );
    }
    if !color_a && !color_b {
        assert(lines_a =~= lines_b);
    }
}

/// Without colour the dump is a function of the buffers and the options:
/// two runs give the same text, character for character.
pub proof fn lemma_plain_output_is_unique(
    out_a: Seq<char>,
    out_b: Seq<char>,
    files: Seq<(String, Vec<u8>)>,
    opts: HexdiffOptions,
)
    requires
        is_output(out_a, files, opts, false),
        is_output(out_b, files, opts, false),
    ensures
        out_a == out_b,
{
    let lines_a = choose|lines: Seq<LineText>| #[trigger]
        is_output_of(out_a, lines, files, effective(opts), false);
    let lines_b = choose|lines: Seq<LineText>| #[trigger]
        is_output_of(out_b, lines, files, effective(opts), false);
    lemma_runs_agree(out_a, lines_a, false, out_b, lines_b, false, files, effective(opts));
}

/// A run with no filter switched on gives what a run with all three switched
/// on gives.
pub proof fn lemma_unfiltered_output(
    out: Seq<char>,
    files: Seq<(String, Vec<u8>)>,
    opts: HexdiffOptions,
    color: bool,
)
    requires
        !opts.show_red,
        !opts.show_green,
        !opts.show_blue,
    ensures
        is_output(out, files, opts, color) <==> is_output(
            out,
            files,
            HexdiffOptions { show_red: true, show_green: true, show_blue: true, ..opts },
            color,
        ),
{
    lemma_no_filter_shows_all(opts, (false, false, false));
}

/// A rendered line is never mistaken for the marker: its display form
/// starts with the offset.
pub proof fn lemma_display_is_no_marker(
    line: LineText,
    files: Seq<Seq<u8>>,
    offset: int,
    block: nat,
    count: nat,
    color: bool,
)
    requires
        is_rendering(line, files, offset, block, count, color),
    ensures
        line.display != marker(),
{
    reveal_strlit("0x");
    reveal_strlit("*");
    let cells = choose|cells: Seq<Seq<CellText>>| #[trigger]
        are_painted_cells(cells, files, offset, block, count) && line.display == line_of_cells(
            offset,
            cells,
        );
    assert(line.display.len() >= 2);
}

/// In the text that lines put out, every marker comes directly after a line
/// that is no marker: never first, and never two in a row. Without
/// collapsing there is no marker at all. This holds of all lines whose
/// display form is not itself the marker.
pub proof fn lemma_markers_follow_lines(lines: Seq<LineText>, opts: HexdiffOptions)
    requires
        forall|k: int| 0 <= k < lines.len() ==> (#[trigger] lines[k]).display != marker(),
    ensures
        forall|i: int|
            0 <= i < output_lines(lines, opts).len() && #[trigger] output_lines(lines, opts)[i]
                == marker() ==> i > 0 && output_lines(lines, opts)[i - 1] != marker(),
        !opts.collapse_repeats ==> forall|i: int|
            0 <= i < output_lines(lines, opts).len() ==> #[trigger] output_lines(lines, opts)[i]
                != marker(),
        state_after(lines, opts).in_repeat <==> output_lines(lines, opts).len() > 0
            && output_lines(lines, opts).last() == marker(),
        state_after(lines, opts).previous_raw is Some ==> output_lines(lines, opts).len() > 0,
    decreases lines.len(),
{
    if lines.len() == 0 {
        assert(output_lines(lines, opts) =~= Seq::<Seq<char>>::empty());
    } else {
        let rest = lines.drop_last();
        let last = lines.last();
        assert(lines =~= rest.push(last));
        lemma_markers_follow_lines(rest, opts);
        lemma_output_push(rest, last, opts);
    }
}

/// A line that the filters hide puts out nothing and leaves no trace; and
/// without collapsing a line is printed exactly when the filters let it
/// through.
pub proof fn lemma_filter_decides(lines: Seq<LineText>, opts: HexdiffOptions, k: int)
    requires
        0 <= k < lines.len(),
    ensures
        !line_shown(lines[k], opts) ==> action_at(lines, opts, k) == LineAction::Skip
            && state_after(lines.take(k + 1), opts) == state_after(lines.take(k), opts),
        !opts.collapse_repeats ==> action_at(lines, opts, k) == if line_shown(lines[k], opts) {
            LineAction::Print
        } else {
            LineAction::Skip
        },
{
    assert(lines.take(k + 1).drop_last() =~= lines.take(k));
}

/// In a dump without collapsing, the line at each offset is printed exactly
/// when a filter in effect finds its class among the classes of the bytes at
/// that offset; a line that is not printed leaves nothing in the text.
pub proof fn lemma_dump_shows_by_filter(
    out: Seq<char>,
    lines: Seq<LineText>,
    files: Seq<(String, Vec<u8>)>,
    opts: HexdiffOptions,
    color: bool,
    k: int,
)
    requires
        is_output_of(out, lines, files, opts, color),
        !opts.collapse_repeats,
        0 <= k < lines.len(),
    ensures
        emitted_lines(action_at(lines, opts, k), lines[k]) == if displays(
            line_flags(
                block_classes(buffers(files), line_offset(k, opts.block as nat), opts.block as nat),
            ),
            opts,
        ) {
            seq![lines[k].display]
        } else {
            Seq::<Seq<char>>::empty()
        },
{
    lemma_filter_decides(lines, opts, k);
    assert(is_rendering(
        lines[k],
        buffers(files),
        line_offset(k, opts.block as nat),
        opts.block as nat,
        shown_count(opts.terse, files.len()),
        color,
    ));
}

/// In the text of a dump every `*` line comes directly after a data line:
/// never directly after the header, and never two in a row. Without
/// collapsing no line is `*`.
pub proof fn lemma_dump_markers(
    out: Seq<char>,
    lines: Seq<LineText>,
    files: Seq<(String, Vec<u8>)>,
    opts: HexdiffOptions,
    color: bool,
)
    requires
        is_output_of(out, lines, files, opts, color),
    ensures
        out == header_text(
            names(files),
            opts.block as nat,
            shown_count(opts.terse, files.len()),
        ) + terminated(output_lines(lines, opts)),
        forall|i: int|
            0 <= i < output_lines(lines, opts).len() && #[trigger] output_lines(lines, opts)[i]
                == marker() ==> i > 0 && output_lines(lines, opts)[i - 1] != marker(),
        !opts.collapse_repeats ==> forall|i: int|
            0 <= i < output_lines(lines, opts).len() ==> #[trigger] output_lines(lines, opts)[i]
                != marker(),
{
    assert forall|k: int| 0 <= k < lines.len() implies (#[trigger] lines[k]).display
        != marker() by {
        lemma_display_is_no_marker(
            lines[k],
            buffers(files),
            line_offset(k, opts.block as nat),
            opts.block as nat,
            shown_count(opts.terse, files.len()),
            color,
        );
    }
    lemma_markers_follow_lines(lines, opts);
}

/// In a dump that collapses repeats, a line that shows the same bytes as the
/// printed line before it is replaced by the marker, whatever the two
/// offsets are.
pub proof fn lemma_repeat_collapses(
    out: Seq<char>,
    lines: Seq<LineText>,
    files: Seq<(String, Vec<u8>)>,
    opts: HexdiffOptions,
    color: bool,
    k: int,
)
    requires
        is_output_of(out, lines, files, opts, color),
        opts.collapse_repeats,
        0 <= k,
        k + 1 < lines.len(),
        action_at(lines, opts, k) == LineAction::Print,
        line_shown(lines[k + 1], opts),
        forall|f: int, i: int|
            0 <= f < shown_count(opts.terse, files.len()) && 0 <= i < opts.block
                ==> #[trigger] shown_value(
                buffers(files),
                line_offset(k, opts.block as nat),
                f,
                i,
            ) == shown_value(buffers(files), line_offset(k + 1, opts.block as nat), f, i),
    ensures
        lines[k + 1].raw == lines[k].raw,
        action_at(lines, opts, k + 1) == LineAction::Marker,
{
    let count = shown_count(opts.terse, files.len());
    let block = opts.block as nat;
    assert(is_rendering(lines[k], buffers(files), line_offset(k, block), block, count, color));
    assert(is_rendering(
        lines[k + 1],
        buffers(files),
        line_offset(k + 1, block),
        block,
        count,
        color,
    ));
    lemma_raw_ignores_offset(
        buffers(files),
        line_offset(k, block),
        line_offset(k + 1, block),
        block,
        count,
    );
    assert(lines.take(k + 1).drop_last() =~= lines.take(k));
}

/// The text of a dump is fixed by its rendered lines: two runs over the same
/// buffers and options to which the terminal gave the same lines, colour and
/// all, give the same text. And with no filter switched on the text is that
/// of a run with all three switched on.
pub proof fn lemma_same_lines_same_text(
    out_a: Seq<char>,
    out_b: Seq<char>,
    lines: Seq<LineText>,
    files: Seq<(String, Vec<u8>)>,
    opts_a: HexdiffOptions,
    opts_b: HexdiffOptions,
    color: bool,
)
    requires
        is_output_of(out_a, lines, files, effective(opts_a), color),
        is_output_of(out_b, lines, files, effective(opts_b), color),
        opts_a == opts_b || (!opts_a.show_red && !opts_a.show_green && !opts_a.show_blue && opts_b
            == HexdiffOptions { show_red: true, show_green: true, show_blue: true, ..opts_a }),
    ensures
        out_a == out_b,
{
}

/// Without colour a run is a function of its arguments: two runs give the
/// same text, or the same error.
pub proof fn lemma_plain_result_is_unique(
    a: Result<String, String>,
    b: Result<String, String>,
    quiet: bool,
    files: Seq<(String, Vec<u8>)>,
    opts: HexdiffOptions,
)
    requires
        is_result(a, quiet, files, opts, false),
        is_result(b, quiet, files, opts, false),
    ensures
        same_result(a, b),
{
    match (a, b) {
        (Ok(x), Ok(y)) => {
            if quiet {
                assert(x@ =~= y@);
            } else {
                lemma_plain_output_is_unique(x@, y@, files, opts);
            }
        },
        _ => {},
    }
}

} // verus!
