//! Scenarios of comment-style parsing, indentation, and line and block toggling.
use fuda::comment::{all_commented, min_indent, toggle_block, toggle_lines, CommentStyle};

// --- CommentStyle::parse tests ---

#[test]
fn parse_line_comment_double_slash() {
    let style = CommentStyle::parse("// %s").unwrap();
    assert_eq!(style.left, "//");
    assert_eq!(style.right, "");
    assert!(style.is_line_style());
}

#[test]
fn parse_line_comment_hash() {
    let style = CommentStyle::parse("# %s").unwrap();
    assert_eq!(style.left, "#");
    assert_eq!(style.right, "");
}

#[test]
fn parse_line_comment_double_dash() {
    let style = CommentStyle::parse("-- %s").unwrap();
    assert_eq!(style.left, "--");
    assert_eq!(style.right, "");
}

#[test]
fn parse_block_comment_c_style() {
    let style = CommentStyle::parse("/* %s */").unwrap();
    assert_eq!(style.left, "/*");
    assert_eq!(style.right, "*/");
    assert!(!style.is_line_style());
}

#[test]
fn parse_block_comment_html() {
    let style = CommentStyle::parse("<!-- %s -->").unwrap();
    assert_eq!(style.left, "<!--");
    assert_eq!(style.right, "-->");
}

#[test]
fn parse_no_placeholder_returns_none() {
    assert!(CommentStyle::parse("//").is_none());
}

#[test]
fn parse_empty_left_returns_none() {
    assert!(CommentStyle::parse("%s -->").is_none());
}

#[test]
fn parse_percent_s_no_spaces() {
    let style = CommentStyle::parse("//%s").unwrap();
    assert_eq!(style.left, "//");
    assert_eq!(style.right, "");
}

#[test]
fn parse_semicolon_comment() {
    let style = CommentStyle::parse("; %s").unwrap();
    assert_eq!(style.left, ";");
    assert_eq!(style.right, "");
}

// --- min_indent tests ---

#[test]
fn min_indent_uniform() {
    let lines = vec!["    foo", "    bar", "    baz"];
    assert_eq!(min_indent(&lines), 4);
}

#[test]
fn min_indent_mixed() {
    let lines = vec!["  foo", "    bar", "      baz"];
    assert_eq!(min_indent(&lines), 2);
}

#[test]
fn min_indent_with_blank_lines() {
    let lines = vec!["    foo", "", "    bar"];
    assert_eq!(min_indent(&lines), 4);
}

#[test]
fn min_indent_no_indent() {
    let lines = vec!["foo", "bar"];
    assert_eq!(min_indent(&lines), 0);
}

#[test]
fn min_indent_all_blank() {
    let lines: Vec<&str> = vec!["", "   ", ""];
    assert_eq!(min_indent(&lines), 0);
}

// --- toggle_lines tests (line-style comments) ---

#[test]
fn toggle_adds_line_comments() {
    let style = CommentStyle::parse("// %s").unwrap();
    let lines = vec!["    foo", "    bar"];
    let result = toggle_lines(&lines, &style);
    assert_eq!(result, vec!["    // foo", "    // bar"]);
}

#[test]
fn toggle_removes_line_comments() {
    let style = CommentStyle::parse("// %s").unwrap();
    let lines = vec!["    // foo", "    // bar"];
    let result = toggle_lines(&lines, &style);
    assert_eq!(result, vec!["    foo", "    bar"]);
}

#[test]
fn toggle_mixed_comments_and_uncomments() {
    // When not all lines are commented, should add comments to all.
    let style = CommentStyle::parse("// %s").unwrap();
    let lines = vec!["    foo", "    // bar"];
    let result = toggle_lines(&lines, &style);
    assert_eq!(result, vec!["    // foo", "    // // bar"]);
}

#[test]
fn toggle_preserves_blank_lines() {
    let style = CommentStyle::parse("// %s").unwrap();
    let lines = vec!["    foo", "", "    bar"];
    let result = toggle_lines(&lines, &style);
    assert_eq!(result, vec!["    // foo", "", "    // bar"]);
}

#[test]
fn toggle_hash_comments() {
    let style = CommentStyle::parse("# %s").unwrap();
    let lines = vec!["def hello:", "    pass"];
    let result = toggle_lines(&lines, &style);
    // min_indent is 0, so comment marker is placed at column 0;
    // inner indentation of "    pass" is preserved.
    assert_eq!(result, vec!["# def hello:", "#     pass"]);
}

#[test]
fn toggle_single_line() {
    let style = CommentStyle::parse("// %s").unwrap();
    let lines = vec!["let x = 5;"];
    let result = toggle_lines(&lines, &style);
    assert_eq!(result, vec!["// let x = 5;"]);
}

#[test]
fn toggle_uncomment_single_line() {
    let style = CommentStyle::parse("// %s").unwrap();
    let lines = vec!["// let x = 5;"];
    let result = toggle_lines(&lines, &style);
    assert_eq!(result, vec!["let x = 5;"]);
}

#[test]
fn toggle_empty_input() {
    let style = CommentStyle::parse("// %s").unwrap();
    let lines: Vec<&str> = vec![];
    let result = toggle_lines(&lines, &style);
    assert!(result.is_empty());
}

#[test]
fn toggle_block_style_as_line_comment() {
    // When commentstring is block-style, line toggle wraps each line.
    let style = CommentStyle::parse("/* %s */").unwrap();
    let lines = vec!["    foo", "    bar"];
    let result = toggle_lines(&lines, &style);
    assert_eq!(result, vec!["    /* foo */", "    /* bar */"]);
}

#[test]
fn toggle_uncomment_block_style_line() {
    let style = CommentStyle::parse("/* %s */").unwrap();
    let lines = vec!["    /* foo */", "    /* bar */"];
    let result = toggle_lines(&lines, &style);
    assert_eq!(result, vec!["    foo", "    bar"]);
}

// --- toggle_block tests ---

#[test]
fn toggle_block_adds_wrapper() {
    let style = CommentStyle::parse("/* %s */").unwrap();
    let lines = vec!["    foo", "    bar"];
    let result = toggle_block(&lines, &style);
    assert_eq!(
        result,
        vec!["    /*", "    foo", "    bar", "    */"]
    );
}

#[test]
fn toggle_block_removes_wrapper() {
    let style = CommentStyle::parse("/* %s */").unwrap();
    let lines = vec!["    /*", "    foo", "    bar", "    */"];
    let result = toggle_block(&lines, &style);
    assert_eq!(result, vec!["    foo", "    bar"]);
}

#[test]
fn toggle_block_single_line_wrap() {
    let style = CommentStyle::parse("/* %s */").unwrap();
    let lines = vec!["    foo"];
    let result = toggle_block(&lines, &style);
    assert_eq!(result, vec!["    /*", "    foo", "    */"]);
}

#[test]
fn toggle_block_single_line_unwrap() {
    let style = CommentStyle::parse("/* %s */").unwrap();
    let lines = vec!["    /* foo */"];
    let result = toggle_block(&lines, &style);
    assert_eq!(result, vec!["    foo"]);
}

#[test]
fn toggle_block_falls_back_for_line_style() {
    let style = CommentStyle::parse("// %s").unwrap();
    let lines = vec!["    foo", "    bar"];
    let result = toggle_block(&lines, &style);
    // Should behave like toggle_lines for line-style comments.
    assert_eq!(result, vec!["    // foo", "    // bar"]);
}

#[test]
fn toggle_block_html() {
    let style = CommentStyle::parse("<!-- %s -->").unwrap();
    let lines = vec!["  <div>hello</div>"];
    let result = toggle_block(&lines, &style);
    assert_eq!(
        result,
        vec!["  <!--", "  <div>hello</div>", "  -->"]
    );
}

// --- Roundtrip tests ---

#[test]
fn roundtrip_line_comment() {
    let style = CommentStyle::parse("// %s").unwrap();
    let original = vec!["    let x = 1;", "    let y = 2;"];
    let commented = toggle_lines(&original, &style);
    let uncommented: Vec<String> = toggle_lines(
        &commented.iter().map(String::as_str).collect::<Vec<_>>(),
        &style,
    );
    assert_eq!(
        uncommented,
        original.iter().map(|s| (*s).to_string()).collect::<Vec<_>>()
    );
}

#[test]
fn roundtrip_hash_comment() {
    let style = CommentStyle::parse("# %s").unwrap();
    let original = vec!["def foo:", "    return 1"];
    let commented = toggle_lines(&original, &style);
    let uncommented: Vec<String> = toggle_lines(
        &commented.iter().map(String::as_str).collect::<Vec<_>>(),
        &style,
    );
    assert_eq!(
        uncommented,
        original.iter().map(|s| (*s).to_string()).collect::<Vec<_>>()
    );
}

#[test]
fn roundtrip_block_comment_per_line() {
    let style = CommentStyle::parse("/* %s */").unwrap();
    let original = vec!["    int x = 1;", "    int y = 2;"];
    let commented = toggle_lines(&original, &style);
    let uncommented: Vec<String> = toggle_lines(
        &commented.iter().map(String::as_str).collect::<Vec<_>>(),
        &style,
    );
    assert_eq!(
        uncommented,
        original.iter().map(|s| (*s).to_string()).collect::<Vec<_>>()
    );
}

// --- Edge case tests ---

#[test]
fn comment_preserves_trailing_whitespace() {
    let style = CommentStyle::parse("// %s").unwrap();
    let lines = vec!["    foo   "];
    let result = toggle_lines(&lines, &style);
    assert_eq!(result, vec!["    // foo   "]);
}

#[test]
fn uncomment_without_space_after_delimiter() {
    let style = CommentStyle::parse("// %s").unwrap();
    let lines = vec!["    //foo"];
    let result = toggle_lines(&lines, &style);
    assert_eq!(result, vec!["    foo"]);
}

#[test]
fn all_commented_with_blank() {
    let style = CommentStyle::parse("// %s").unwrap();
    let lines = vec!["    // foo", "", "    // bar"];
    assert!(all_commented(&lines, &style));
}

#[test]
fn not_all_commented() {
    let style = CommentStyle::parse("// %s").unwrap();
    let lines = vec!["    // foo", "    bar"];
    assert!(!all_commented(&lines, &style));
}
