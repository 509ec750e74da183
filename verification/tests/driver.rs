use binwalk::hexdiff::{
    run, should_show_line, Collapser, HexdiffOptions, LineAction, RenderedLine,
};

fn named(files: &[(&str, &[u8])]) -> Vec<(String, Vec<u8>)> {
    files
        .iter()
        .map(|(name, data)| (name.to_string(), data.to_vec()))
        .collect()
}

fn line(raw: &str, flags: (bool, bool, bool)) -> RenderedLine {
    RenderedLine {
        raw: raw.to_string(),
        display: format!("<{raw}>"),
        has_red: flags.0,
        has_green: flags.1,
        has_blue: flags.2,
    }
}

fn options(block: usize) -> HexdiffOptions {
    let mut opts = HexdiffOptions::default();
    opts.block = block;
    opts
}

fn collapsing() -> HexdiffOptions {
    let mut opts = HexdiffOptions::default();
    opts.collapse_repeats = true;
    opts
}

const GREEN: (bool, bool, bool) = (false, true, false);
const RED: (bool, bool, bool) = (true, false, false);

#[test]
fn line_is_shown_by_its_flags() {
    let mut opts = HexdiffOptions::default();
    opts.show_green = false;
    opts.show_blue = false;
    assert!(should_show_line(&line("x", RED), &opts));
    assert!(!should_show_line(&line("x", GREEN), &opts));
    assert!(!should_show_line(&line("x", (false, true, true)), &opts));
    assert!(should_show_line(&line("x", (true, true, true)), &opts));
    assert!(!should_show_line(&line("x", (false, false, false)), &opts));
}

#[test]
fn three_repeats_then_a_new_line() {
    let opts = collapsing();
    let mut state = Collapser::new();
    let same = line("same", GREEN);
    let other = line("other", GREEN);
    assert_eq!(state.step(&same, &opts), LineAction::Print);
    assert_eq!(state.step(&same, &opts), LineAction::Marker);
    assert_eq!(state.step(&same, &opts), LineAction::Skip);
    assert_eq!(state.step(&other, &opts), LineAction::Print);
}

#[test]
fn marker_comes_once_per_run_of_repeats() {
    let opts = collapsing();
    let mut state = Collapser::new();
    let a = line("a", GREEN);
    let b = line("b", GREEN);
    let actions: Vec<LineAction> = [&a, &a, &a, &a, &b, &b, &a, &a, &a]
        .iter()
        .map(|l| state.step(l, &opts))
        .collect();
    assert_eq!(
        actions,
        vec![
            LineAction::Print,
            LineAction::Marker,
            LineAction::Skip,
            LineAction::Skip,
            LineAction::Print,
            LineAction::Marker,
            LineAction::Print,
            LineAction::Marker,
            LineAction::Skip,
        ]
    );
}

#[test]
fn repeats_are_printed_unless_collapsed() {
    let opts = HexdiffOptions::default();
    let mut state = Collapser::new();
    let same = line("same", GREEN);
    assert_eq!(state.step(&same, &opts), LineAction::Print);
    assert_eq!(state.step(&same, &opts), LineAction::Print);
    assert_eq!(state.step(&same, &opts), LineAction::Print);
}

#[test]
fn repeat_is_told_by_the_raw_form_alone() {
    let opts = collapsing();
    let mut state = Collapser::new();
    let mut first = line("same", GREEN);
    let mut second = line("same", (true, true, true));
    first.display = "one".to_string();
    second.display = "two".to_string();
    assert_eq!(state.step(&first, &opts), LineAction::Print);
    assert_eq!(state.step(&second, &opts), LineAction::Marker);
}

#[test]
fn hidden_line_leaves_the_repeat_state_alone() {
    let mut opts = collapsing();
    opts.show_red = false;
    opts.show_blue = false;
    let mut state = Collapser::new();
    let same = line("same", GREEN);
    let hidden = line("hidden", RED);
    let hidden_same = line("same", RED);
    assert_eq!(state.step(&hidden, &opts), LineAction::Skip);
    assert_eq!(state.step(&same, &opts), LineAction::Print);
    assert_eq!(state.step(&hidden, &opts), LineAction::Skip);
    assert_eq!(state.step(&same, &opts), LineAction::Marker);
    assert_eq!(state.step(&hidden_same, &opts), LineAction::Skip);
    assert_eq!(state.step(&hidden, &opts), LineAction::Skip);
    assert_eq!(state.step(&same, &opts), LineAction::Skip);
    assert_eq!(state.step(&line("new", GREEN), &opts), LineAction::Print);
    assert_eq!(state.step(&same, &opts), LineAction::Print);
}

#[test]
fn first_line_is_never_a_repeat() {
    let opts = collapsing();
    let mut state = Collapser::new();
    assert_eq!(state.step(&line("", GREEN), &opts), LineAction::Print);
}

#[test]
fn no_inputs_is_an_error() {
    assert_eq!(
        run(false, Vec::new(), HexdiffOptions::default(), false),
        Err("No inputs provided".to_string())
    );
    assert_eq!(
        run(false, Vec::new(), HexdiffOptions::default(), true),
        Err("No inputs provided".to_string())
    );
}

#[test]
fn quiet_run_renders_nothing() {
    let files = named(&[("a", b"AB")]);
    assert_eq!(
        run(true, files, HexdiffOptions::default(), false),
        Ok(String::new())
    );
    assert_eq!(
        run(true, Vec::new(), HexdiffOptions::default(), false),
        Ok(String::new())
    );
}

#[test]
fn dump_of_two_buffers_one_shorter() {
    let files = named(&[("a", b"AB"), ("b", b"A")]);
    let out = run(false, files, options(2), false).unwrap();
    assert_eq!(
        out,
        "OFFSET      a            b            \n\
         0x00000000    41 42 |AB|  41 XX |A.|\n"
    );
}

#[test]
fn dump_of_a_single_buffer_is_a_plain_hex_dump() {
    let files = named(&[("a", b"ABCDE")]);
    let out = run(false, files, options(2), false).unwrap();
    assert_eq!(
        out,
        "OFFSET      a            \n\
         0x00000000    41 42 |AB|\n\
         0x00000002    43 44 |CD|\n\
         0x00000004    45 XX |E.|\n"
    );
}

#[test]
fn dump_stops_at_the_end_of_the_longest_buffer() {
    let files = named(&[("a", b"ABCD"), ("b", b"AB"), ("c", b"")]);
    let out = run(false, files, options(2), false).unwrap();
    let lines: Vec<&str> = out.lines().collect();
    assert_eq!(lines.len(), 3);
    assert_eq!(lines[1], "0x00000000    41 42 |AB|  41 42 |AB|  XX XX |..|");
    assert_eq!(lines[2], "0x00000002    43 44 |CD|  XX XX |..|  XX XX |..|");
}

#[test]
fn dump_of_empty_buffers_is_the_header_alone() {
    let files = named(&[("a", b""), ("b", b"")]);
    let out = run(false, files, options(1), false).unwrap();
    assert_eq!(out, "OFFSET      a        b        \n");
}

#[test]
fn zero_block_dumps_sixteen_bytes_a_line() {
    let files = named(&[("a", &[0x41; 17])]);
    let out = run(false, files, options(0), false).unwrap();
    let expected = format!(
        "OFFSET      a{}   \n0x00000000    {}|{}|\n0x00000010    41 {}|A{}|\n",
        " ".repeat(65),
        "41 ".repeat(16),
        "A".repeat(16),
        "XX ".repeat(15),
        ".".repeat(15),
    );
    assert_eq!(out, expected);
}

#[test]
fn filters_choose_the_lines() {
    let files = named(&[("a", b"AAxAzA"), ("b", b"AAyAzA"), ("c", b"AAxAwA")]);
    let header = "OFFSET      a        b        c        \n";
    let green = "0x00000000    41 |A|  41 |A|  41 |A|\n";
    let green_too = "0x00000001    41 |A|  41 |A|  41 |A|\n";
    let blue = "0x00000002    78 |x|  79 |y|  78 |x|\n";
    let blue_too = "0x00000004    7A |z|  7A |z|  77 |w|\n";

    let mut opts = options(1);
    opts.show_red = false;
    opts.show_green = false;
    opts.show_blue = true;
    assert_eq!(
        run(false, files.clone(), opts.clone(), false).unwrap(),
        format!("{header}{blue}{blue_too}")
    );

    opts.show_blue = false;
    opts.show_red = true;
    assert_eq!(run(false, files.clone(), opts.clone(), false).unwrap(), header);

    opts.show_red = false;
    opts.show_green = true;
    assert_eq!(
        run(false, files.clone(), opts, false).unwrap(),
        format!(
            "{header}{green}{green_too}0x00000003    41 |A|  41 |A|  41 |A|\n\
             0x00000005    41 |A|  41 |A|  41 |A|\n"
        )
    );
}

#[test]
fn line_with_several_classes_passes_any_of_their_filters() {
    let files = named(&[("a", b"AB"), ("b", b"A")]);
    let mut opts = options(2);
    opts.show_green = false;
    opts.show_blue = false;
    let shown = "OFFSET      a            b            \n\
                 0x00000000    41 42 |AB|  41 XX |A.|\n";
    assert_eq!(run(false, files.clone(), opts.clone(), false).unwrap(), shown);
    opts.show_red = false;
    opts.show_blue = true;
    assert_eq!(
        run(false, files, opts, false).unwrap(),
        "OFFSET      a            b            \n"
    );
}

#[test]
fn no_filter_dumps_what_all_filters_dump() {
    let files = named(&[("a", b"AAxAzA"), ("b", b"AAyAzA"), ("c", b"AAxAwB")]);
    let mut none = options(1);
    none.show_red = false;
    none.show_green = false;
    none.show_blue = false;
    let all = options(1);
    let out = run(false, files.clone(), none, false).unwrap();
    assert_eq!(out, run(false, files, all, false).unwrap());
    assert_eq!(out.lines().count(), 7);
}

#[test]
fn terse_dump_shows_the_first_buffer() {
    let files = named(&[("first", b"AB"), ("second", b"Ab")]);
    let mut opts = options(2);
    opts.terse = true;
    assert_eq!(
        run(false, files, opts, false).unwrap(),
        "OFFSET      first        \n0x00000000    41 42 |AB|\n"
    );
}

#[test]
fn repeated_lines_collapse_to_one_marker() {
    let files = named(&[("a", &[0u8; 6])]);
    let mut opts = options(2);
    opts.collapse_repeats = true;
    assert_eq!(
        run(false, files, opts, false).unwrap(),
        "OFFSET      a            \n\
         0x00000000    00 00 |..|\n\
         *\n"
    );
}

#[test]
fn three_repeats_then_a_new_line_in_a_dump() {
    let files = named(&[("f", b"AAAAAABB")]);
    let mut opts = options(2);
    opts.collapse_repeats = true;
    let expected = format!("OFFSET      {:<10}   \n", "f")
        + "0x00000000    41 41 |AA|\n*\n0x00000006    42 42 |BB|\n";
    assert_eq!(run(false, files, opts, false).unwrap(), expected);
}

#[test]
fn repeats_are_dumped_in_full_unless_collapsed() {
    let files = named(&[("f", b"AAAAAABB")]);
    assert_eq!(
        run(false, files, options(2), false).unwrap(),
        "OFFSET      f            \n\
         0x00000000    41 41 |AA|\n\
         0x00000002    41 41 |AA|\n\
         0x00000004    41 41 |AA|\n\
         0x00000006    42 42 |BB|\n"
    );
}

#[test]
fn each_run_of_repeats_gets_its_own_marker() {
    let files = named(&[("a", b"AAAAAAABAAAAAA"), ("b", b"AAAAAAACAAAAAA")]);
    let mut opts = options(2);
    opts.collapse_repeats = true;
    let out = run(false, files, opts, false).unwrap();
    let lines: Vec<&str> = out.lines().skip(1).collect();
    assert_eq!(
        lines,
        vec![
            "0x00000000    41 41 |AA|  41 41 |AA|",
            "*",
            "0x00000006    41 42 |AB|  41 43 |AC|",
            "0x00000008    41 41 |AA|  41 41 |AA|",
            "*",
        ]
    );
}

#[test]
fn hidden_lines_do_not_break_a_run_of_repeats() {
    let files = named(&[("a", b"AAxAAyAA"), ("b", b"AAzAAwAB")]);
    let mut opts = options(1);
    opts.collapse_repeats = true;
    opts.show_red = false;
    opts.show_blue = false;
    let out = run(false, files, opts, false).unwrap();
    let lines: Vec<&str> = out.lines().skip(1).collect();
    assert_eq!(lines, vec!["0x00000000    41 |A|  41 |A|", "*"]);
}

#[test]
fn partial_last_line_is_no_repeat_of_a_full_one() {
    let files = named(&[("a", b"AAAAA")]);
    let mut opts = options(2);
    opts.collapse_repeats = true;
    assert_eq!(
        run(false, files, opts, false).unwrap(),
        "OFFSET      a            \n\
         0x00000000    41 41 |AA|\n\
         *\n\
         0x00000004    41 XX |A.|\n"
    );
}

#[test]
fn marker_always_follows_a_data_line() {
    let inputs: Vec<Vec<(String, Vec<u8>)>> = vec![
        named(&[("a", &[0u8; 40])]),
        named(&[("a", b"AAAAAAAABBBBBBBBAAAAAAAAC"), ("b", b"AAAAAAAABBBBBBBBAAAAAAAA")]),
        named(&[("a", b"xxAAAAAAxxAAxxxx"), ("b", b"yyAAAAAAyyAAyyyy")]),
        named(&[("a", b""), ("b", b"AAAA")]),
    ];
    for files in inputs {
        for block in [1usize, 2, 4] {
            for (red, green) in [(true, true), (false, true), (true, false)] {
                let mut opts = options(block);
                opts.collapse_repeats = true;
                opts.show_red = red;
                opts.show_green = green;
                opts.show_blue = false;
                let out = run(false, files.clone(), opts, false).unwrap();
                let lines: Vec<&str> = out.lines().collect();
                assert!(lines[0].starts_with("OFFSET"));
                for i in 1..lines.len() {
                    if lines[i] == "*" {
                        assert!(i >= 2);
                        assert!(lines[i - 1].starts_with("0x"));
                    } else {
                        assert!(lines[i].starts_with("0x"));
                    }
                }
            }
        }
    }
}

#[test]
fn without_collapsing_each_shown_line_is_printed() {
    let files = named(&[("a", b"AAxAAyAA"), ("b", b"AAzAAwAB")]);
    let mut opts = options(1);
    opts.show_green = false;
    opts.show_blue = false;
    let out = run(false, files, opts, false).unwrap();
    let lines: Vec<&str> = out.lines().skip(1).collect();
    assert_eq!(
        lines,
        vec![
            "0x00000002    78 |x|  7A |z|",
            "0x00000005    79 |y|  77 |w|",
            "0x00000007    41 |A|  42 |B|",
        ]
    );
}

#[test]
fn dumping_twice_gives_the_same_text() {
    let files = named(&[("a", b"hello world"), ("b", b"hello w0rld!")]);
    let first = run(false, files.clone(), options(4), false).unwrap();
    let second = run(false, files, options(4), false).unwrap();
    assert_eq!(first, second);
    assert_eq!(
        first,
        "OFFSET      a                    b                    \n\
         0x00000000    68 65 6C 6C |hell|  68 65 6C 6C |hell|\n\
         0x00000004    6F 20 77 6F |o.wo|  6F 20 77 30 |o.w0|\n\
         0x00000008    72 6C 64 XX |rld.|  72 6C 64 21 |rld!|\n"
    );
}
