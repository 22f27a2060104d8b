# fuda

Comment toggling for lines of text, verified with Verus.

- `src/text.rs` — the character-level model of strings (Unicode whitespace,
  `trim`, prefixes and suffixes as `Seq<char>` functions) and verified scanners
  over `&str` that compute them.
- `src/comment.rs` — `CommentStyle::parse` for `commentstring` values such as
  `// %s` or `/* %s */`, `min_indent`, `all_commented`, `toggle_lines` and
  `toggle_block`, each with a contract that gives its exact result as a spec
  function of the input lines.
- `src/laws.rs` — laws over successive toggles: commenting then toggling again
  gives back the original lines, for line toggles and for block toggles.
- `app/` — the Neovim plugin around the library: reads the buffer and the
  `commentstring` option, calls the library, writes the lines back.

Columns (indentation) are counted in characters.
