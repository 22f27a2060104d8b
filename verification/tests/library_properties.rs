//! Further checks: edge cases, the round-trip laws on concrete values, and the
//! character model against the standard library.
use fuda::comment::{
    all_commented, comment_line, min_indent, toggle_block, toggle_lines, uncomment_line, CommentStyle,
};
use fuda::text::{back_over_ws, char_is_ws, is_blank_str, range_ends_with, range_starts_with, skip_spaces, skip_ws};

fn strs(v: &[String]) -> Vec<&str> {
    v.iter().map(String::as_str).collect()
}

#[test]
fn whitespace_matches_std_for_every_char() {
    for code in 0u32..=0x10FFFF {
        if let Some(c) = char::from_u32(code) {
            assert_eq!(char_is_ws(c), c.is_whitespace(), "char {:#x}", code);
        }
    }
}

#[test]
fn scanners_on_ranges() {
    let s = "  ab  c \t";
    assert_eq!(skip_ws(s, 0, 9), 2);
    assert_eq!(skip_ws(s, 4, 9), 6);
    assert_eq!(skip_spaces(s, 0, 9), 2);
    assert_eq!(skip_spaces("\t x", 0, 3), 0);
    assert_eq!(back_over_ws(s, 0, 9), 7);
    assert_eq!(back_over_ws(s, 0, 5), 4);
    assert!(range_starts_with(s, 2, 9, "ab"));
    assert!(!range_starts_with(s, 2, 3, "ab"));
    assert!(range_ends_with(s, 0, 7, "  c"));
    assert!(!range_ends_with(s, 0, 7, "b"));
    assert!(is_blank_str(" \t\u{3000}"));
    assert!(!is_blank_str(" x "));
}

#[test]
fn parse_takes_first_placeholder() {
    let style = CommentStyle::parse("<%s>%s").unwrap();
    assert_eq!(style.left, "<");
    assert_eq!(style.right, ">%s");
}

#[test]
fn parse_blank_left_returns_none() {
    assert!(CommentStyle::parse("   %s").is_none());
    assert!(CommentStyle::parse("").is_none());
    assert!(CommentStyle::parse("%").is_none());
}

#[test]
fn parse_keeps_leading_space_of_left_and_trailing_of_right() {
    let style = CommentStyle::parse(" # %s ;; ").unwrap();
    assert_eq!(style.left, " #");
    assert_eq!(style.right, ";; ");
    assert!(!style.is_line_style());
}

#[test]
fn min_indent_counts_characters() {
    let lines = vec!["\u{3000}\u{3000}x", "\t\t\ty"];
    assert_eq!(min_indent(&lines), 2);
}

#[test]
fn min_indent_empty_input() {
    let lines: Vec<&str> = vec![];
    assert_eq!(min_indent(&lines), 0);
}

#[test]
fn all_blank_lines_count_as_commented_and_stay() {
    let style = CommentStyle::parse("// %s").unwrap();
    let lines = vec!["", "   "];
    assert!(all_commented(&lines, &style));
    assert_eq!(toggle_lines(&lines, &style), vec!["", "   "]);
}

#[test]
fn uncomment_finds_delimiter_after_spaces() {
    let style = CommentStyle::parse("// %s").unwrap();
    // Both count as commented: spaces may stand before the delimiter, and the
    // delimiter is removed where it stands, the spaces before it staying.
    let lines = vec!["  // a", "// b"];
    assert!(all_commented(&lines, &style));
    assert_eq!(toggle_lines(&lines, &style), vec!["  a", "b"]);
}

#[test]
fn uncomment_deeper_indented_line() {
    let style = CommentStyle::parse("// %s").unwrap();
    let lines = vec!["    // a", "        // b"];
    assert_eq!(toggle_lines(&lines, &style), vec!["    a", "        b"]);
}

#[test]
fn uncomment_block_style_line_after_spaces() {
    let style = CommentStyle::parse("/* %s */").unwrap();
    let lines = vec!["  /* a */", "      /* b */"];
    assert_eq!(toggle_lines(&lines, &style), vec!["  a", "      b"]);
}

#[test]
fn block_line_needs_closing_delimiter() {
    let style = CommentStyle::parse("/* %s */").unwrap();
    let lines = vec!["/* a */", "/* b"];
    assert!(!all_commented(&lines, &style));
    assert_eq!(toggle_lines(&lines, &style), vec!["/* /* a */ */", "/* /* b */"]);
}

#[test]
fn block_uncomment_strips_trailing_whitespace_then_delimiter() {
    let style = CommentStyle::parse("/* %s */").unwrap();
    let lines = vec!["  /*x*/   "];
    assert_eq!(toggle_lines(&lines, &style), vec!["  x"]);
}

#[test]
fn toggle_block_unwraps_content_on_delimiter_lines() {
    let style = CommentStyle::parse("/* %s */").unwrap();
    let lines = vec!["  /* a", "  mid", "  b */"];
    assert_eq!(toggle_block(&lines, &style), vec!["  a", "  mid", "  b"]);
}

#[test]
fn toggle_block_empty_input() {
    let style = CommentStyle::parse("/* %s */").unwrap();
    let lines: Vec<&str> = vec![];
    assert!(toggle_block(&lines, &style).is_empty());
}

#[test]
fn toggle_block_wraps_blank_lines() {
    let style = CommentStyle::parse("/* %s */").unwrap();
    let lines = vec!["", "  "];
    assert_eq!(toggle_block(&lines, &style), vec!["/*", "", "  ", "*/"]);
}

#[test]
fn toggle_block_single_content_line_among_blanks() {
    let style = CommentStyle::parse("<!-- %s -->").unwrap();
    // The only non-blank line is both edges of the block: it loses both
    // delimiters, and the blank line after it stays.
    let lines = vec!["  <!-- x -->", "  "];
    assert_eq!(toggle_block(&lines, &style), vec!["  x", "  "]);
    let lines = vec!["", "  /* x */", ""];
    let style = CommentStyle::parse("/* %s */").unwrap();
    assert_eq!(toggle_block(&lines, &style), vec!["", "  x", ""]);
}

#[test]
fn toggle_block_unwraps_between_blank_edges() {
    let style = CommentStyle::parse("/* %s */").unwrap();
    let lines = vec!["", "    /* foo", "    bar */", ""];
    assert_eq!(toggle_block(&lines, &style), vec!["", "    foo", "    bar", ""]);
    // A blank first line shorter than the indentation is kept as it is.
    let lines = vec![" ", "  /* a", "  b */"];
    assert_eq!(toggle_block(&lines, &style), vec![" ", "  a", "  b"]);
}

#[test]
fn toggle_block_unwraps_deeper_indented_opening() {
    let style = CommentStyle::parse("/* %s */").unwrap();
    let lines = vec!["      /* foo", "    bar */"];
    assert_eq!(toggle_block(&lines, &style), vec!["      foo", "    bar"]);
}

#[test]
fn line_round_trip_per_line_with_deeper_indent() {
    let style = CommentStyle::parse("/* %s */").unwrap();
    let original = vec!["  a", "      b ", "    c"];
    let once = toggle_lines(&original, &style);
    assert_eq!(once, vec!["  /* a */", "  /*     b  */", "  /*   c */"]);
    assert_eq!(toggle_lines(&strs(&once), &style), original);
}

#[test]
fn line_round_trip_law_on_mixed_block() {
    let style = CommentStyle::parse("# %s").unwrap();
    let original = vec!["  a", "", "    b  ", "\t", "  c"];
    let once = toggle_lines(&original, &style);
    assert_eq!(once, vec!["  # a", "", "  #   b  ", "\t", "  # c"]);
    assert!(!all_commented(&original, &style));
    assert!(all_commented(&strs(&once), &style));
    assert_eq!(min_indent(&strs(&once)), min_indent(&original));
    let twice = toggle_lines(&strs(&once), &style);
    assert_eq!(twice, original);
}

#[test]
fn line_round_trip_law_block_style() {
    let style = CommentStyle::parse("<!-- %s -->").unwrap();
    let original = vec!["<p>", "  x  "];
    let once = toggle_lines(&original, &style);
    assert_eq!(once, vec!["<!-- <p> -->", "<!--   x   -->"]);
    let twice = toggle_lines(&strs(&once), &style);
    assert_eq!(twice, original);
}

#[test]
fn line_round_trip_fails_for_left_starting_with_space() {
    // A style outside the law: its left delimiter starts with whitespace.
    let style = CommentStyle::parse(" # %s").unwrap();
    let original = vec!["a"];
    let once = toggle_lines(&original, &style);
    assert_eq!(once, vec![" # a"]);
    let twice = toggle_lines(&strs(&once), &style);
    assert_eq!(twice, vec!["  # # a"]);
}

#[test]
fn block_round_trip_law() {
    let style = CommentStyle::parse("/* %s */").unwrap();
    let original = vec!["", "   x", "  y", "   "];
    let once = toggle_block(&original, &style);
    assert_eq!(once, vec!["  /*", "", "   x", "  y", "   ", "  */"]);
    let twice = toggle_block(&strs(&once), &style);
    assert_eq!(twice, original);
}

#[test]
fn comment_line_and_uncomment_line_examples() {
    let style = CommentStyle::parse("// %s").unwrap();
    assert_eq!(comment_line("    foo", &style, 2), "  //   foo");
    assert_eq!(comment_line("   ", &style, 2), "   ");
    assert_eq!(uncomment_line("  //   foo", &style, 2), "    foo");
    assert_eq!(uncomment_line("      //foo", &style, 2), "      foo");
    assert_eq!(uncomment_line("  bar", &style, 2), "  bar");
}

#[test]
fn uncomment_line_undoes_comment_line() {
    let styles = ["// %s", "# %s", "/* %s */", "<!-- %s -->", " ; %s"];
    let lines = ["x", "  y  ", "    z", "", "   ", "\tw", "  // v", "  /* u */"];
    for cs in styles {
        let style = CommentStyle::parse(cs).unwrap();
        for line in lines {
            let lead = line.len() - line.trim_start().len();
            for indent in 0..=lead {
                let c = comment_line(line, &style, indent);
                assert_eq!(uncomment_line(&c, &style, indent), line, "{:?} {:?} {}", cs, line, indent);
            }
        }
    }
}
