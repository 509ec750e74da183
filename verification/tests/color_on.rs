use binwalk::hexdiff::{render_line, run, HexdiffOptions};

fn named(files: &[(&str, &[u8])]) -> Vec<(String, Vec<u8>)> {
    files
        .iter()
        .map(|(name, data)| (name.to_string(), data.to_vec()))
        .collect()
}

fn green(text: &str) -> String {
    format!("\u{1b}[32m{text}\u{1b}[0m")
}

fn blue(text: &str) -> String {
    format!("\u{1b}[34m{text}\u{1b}[0m")
}

fn red(text: &str) -> String {
    format!("\u{1b}[31m{text}\u{1b}[0m")
}

#[test]
fn cells_take_the_colour_of_their_position() {
    colored::control::set_override(true);
    let files = named(&[("a", b"AB"), ("b", b"A")]);
    let line = render_line(0, &files, 2, false, true);
    assert_eq!(line.raw, "41 42 |AB|  41 XX |A.|");
    let expected = format!(
        "0x00000000    {} {} |{}{}|  {} {} |{}{}|",
        green("41"),
        red("42"),
        green("A"),
        red("B"),
        green("41"),
        red("XX"),
        green("A"),
        red("."),
    );
    assert_eq!(line.display, expected);
}

#[test]
fn partial_match_is_blue() {
    colored::control::set_override(true);
    let files = named(&[("a", b"C"), ("b", b"c"), ("c", b"C")]);
    let line = render_line(0, &files, 1, false, true);
    let expected = format!(
        "0x00000000    {} |{}|  {} |{}|  {} |{}|",
        blue("43"),
        blue("C"),
        blue("63"),
        blue("c"),
        blue("43"),
        blue("C"),
    );
    assert_eq!(line.display, expected);
    assert_eq!(line.raw, "43 |C|  63 |c|  43 |C|");
}

#[test]
fn terse_line_is_coloured_by_all_buffers() {
    colored::control::set_override(true);
    let files = named(&[("a", b"AB"), ("b", b"Ab")]);
    let line = render_line(0, &files, 2, true, true);
    let expected = format!(
        "0x00000000    {} {} |{}{}|",
        green("41"),
        red("42"),
        green("A"),
        red("B"),
    );
    assert_eq!(line.display, expected);
}

#[test]
fn colour_switched_off_by_the_caller_leaves_the_raw_form() {
    colored::control::set_override(true);
    let files = named(&[("a", b"AB"), ("b", b"A")]);
    let line = render_line(0, &files, 2, false, false);
    assert_eq!(line.display, "0x00000000    41 42 |AB|  41 XX |A.|");
    assert_eq!(line.raw, "41 42 |AB|  41 XX |A.|");
}

#[test]
fn coloured_repeats_collapse_as_plain_ones_do() {
    colored::control::set_override(true);
    let files = named(&[("f", b"AAAAAABB")]);
    let mut opts = HexdiffOptions::default();
    opts.block = 2;
    opts.collapse_repeats = true;
    let out = run(false, files, opts, true).unwrap();
    let expected = format!(
        "OFFSET      f            \n0x00000000    {} {} |{}{}|\n*\n0x00000006    {} {} |{}{}|\n",
        green("41"),
        green("41"),
        green("A"),
        green("A"),
        green("42"),
        green("42"),
        green("B"),
        green("B"),
    );
    assert_eq!(out, expected);
}

#[test]
fn coloured_dump_twice_gives_the_same_text() {
    colored::control::set_override(true);
    let files = named(&[("a", b"hello world"), ("b", b"hello w0rld!")]);
    let mut opts = HexdiffOptions::default();
    opts.block = 4;
    let first = run(false, files.clone(), opts.clone(), true).unwrap();
    let second = run(false, files, opts, true).unwrap();
    assert_eq!(first, second);
    assert!(first.contains("\u{1b}[31m"));
}

#[test]
fn dump_prints_the_coloured_form() {
    colored::control::set_override(true);
    let files = named(&[("a", b"AB")]);
    let mut opts = HexdiffOptions::default();
    opts.block = 2;
    let out = run(false, files, opts, true).unwrap();
    let expected = format!(
        "OFFSET      a            \n0x00000000    {} {} |{}{}|\n",
        green("41"),
        green("42"),
        green("A"),
        green("B"),
    );
    assert_eq!(out, expected);
}

#[test]
fn coloured_dump_has_the_lines_of_the_plain_dump() {
    colored::control::set_override(true);
    let files = named(&[("a", b"AAxAzA"), ("b", b"AAyAzA"), ("c", b"AAxAwB")]);
    let mut opts = HexdiffOptions::default();
    opts.block = 1;
    opts.show_green = false;
    let plain = run(false, files.clone(), opts.clone(), false).unwrap();
    let coloured = run(false, files, opts, true).unwrap();
    let stripped = coloured
        .replace("\u{1b}[31m", "")
        .replace("\u{1b}[32m", "")
        .replace("\u{1b}[34m", "")
        .replace("\u{1b}[0m", "");
    assert_ne!(plain, coloured);
    assert_eq!(plain, stripped);
}
