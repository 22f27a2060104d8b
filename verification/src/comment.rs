//! Core comment toggling logic.
//!
//! Parses the `commentstring` format (e.g., `// %s`, `/* %s */`) and toggles
//! line and block comments on lines of text. Columns are counted in characters.
use vstd::prelude::*;
use crate::text::{
    back_over_ws, is_blank, is_blank_str, is_ws, leading_ws, lemma_blank_iff_all_leading,
    lemma_one_space_prefix, lemma_one_space_suffix, lemma_strip_prefix_range,
    lemma_strip_suffix_range, lemma_ws_run_end, lemma_ws_run_start, one_space, range_ends_with,
    range_starts_with, skip_spaces, skip_ws, space_run_end, spaces, strip_prefix_or, strip_suffix_or, trim,
    trim_end, trim_start, trim_start_spaces,
};

verus! {

/// Parsed comment delimiters extracted from `commentstring`.
#[derive(Debug, Clone, PartialEq, Eq)]
pub struct CommentStyle {
    /// The prefix placed before the comment body (e.g., `//` or `/*`).
    pub left: String,
    /// The suffix placed after the comment body (e.g., `*/`), empty for line comments.
    pub right: String,
}

/// The mathematical value of a `CommentStyle`: its two delimiters as characters.
pub ghost struct Delims {
    pub left: Seq<char>,
    pub right: Seq<char>,
}

impl View for CommentStyle {
    type V = Delims;

    open spec fn view(&self) -> Delims {
        Delims { left: self.left@, right: self.right@ }
    }
}

/// A style without closing delimiter comments line by line.
pub open spec fn is_line_style_spec(d: Delims) -> bool {
    d.right.len() == 0
}

/// Whether `%s` starts at position `i` of `s`.
pub open spec fn placeholder_at(s: Seq<char>, i: int) -> bool {
    0 <= i && i + 1 < s.len() && s[i] == '%' && s[i + 1] == 's'
}

/// The first position at or after `i` where `%s` starts.
pub open spec fn placeholder_from(s: Seq<char>, i: nat) -> Option<nat>
    decreases s.len() - i,
{
    if i + 1 >= s.len() {
        None
    } else if placeholder_at(s, i as int) {
        Some(i)
    } else {
        placeholder_from(s, i + 1)
    }
}

/// What `CommentStyle::parse` gives for `s`: the text before the first `%s`
/// without its trailing whitespace, and the text after it without its leading
/// whitespace; nothing where there is no `%s` or nothing stands before it.
pub open spec fn parse_spec(s: Seq<char>) -> Option<Delims> {
    match placeholder_from(s, 0) {
        None => None,
        Some(i) => {
            let left = trim_end(s.take(i as int));
            let right = trim_start(s.skip(i + 2int));
            if left.len() == 0 {
                None
            } else {
                Some(Delims { left, right })
            }
        },
    }
}

/// `placeholder_from` finds the first `%s` at or after `i`, and only fails
/// where there is none.
pub proof fn lemma_placeholder_from(s: Seq<char>, i: nat)
    ensures
        placeholder_from(s, i) matches Some(p) ==> i <= p && placeholder_at(s, p as int) && (
        forall|j: int| i <= j < p ==> !placeholder_at(s, j)),
        placeholder_from(s, i) is None ==> forall|j: int| i <= j ==> !placeholder_at(s, j),
    decreases s.len() - i,
{
    if i + 1 < s.len() && !placeholder_at(s, i as int) {
        lemma_placeholder_from(s, i + 1);
    }
}

/// The lines' texts.
pub open spec fn lines_view(lines: Seq<&str>) -> Seq<Seq<char>> {
    lines.map_values(|l: &str| l@)
}

/// The strings' texts.
pub open spec fn strings_view(v: Seq<String>) -> Seq<Seq<char>> {
    v.map_values(|s: String| s@)
}

/// The least indentation of the non-blank lines, if there is a non-blank line.
pub open spec fn indent_fold(ls: Seq<Seq<char>>) -> Option<nat>
    decreases ls.len(),
{
    if ls.len() == 0 {
        None
    } else {
        let rest = indent_fold(ls.drop_last());
        let l = ls.last();
        if is_blank(l) {
            rest
        } else {
            match rest {
                None => Some(leading_ws(l)),
                Some(m) => Some(
                    if leading_ws(l) < m {
                        leading_ws(l)
                    } else {
                        m
                    },
                ),
            }
        }
    }
}

/// What `min_indent` gives: the least indentation of the non-blank lines, 0 if none.
pub open spec fn min_indent_spec(ls: Seq<Seq<char>>) -> nat {
    match indent_fold(ls) {
        Some(m) => m,
        None => 0,
    }
}

/// The minimum indentation is at most that of every non-blank line and is that of
/// one of them; it is 0 where every line is blank.
pub proof fn lemma_min_indent(ls: Seq<Seq<char>>)
    ensures
        forall|i: int|
            0 <= i < ls.len() && !is_blank(ls[i]) ==> min_indent_spec(ls) <= leading_ws(
                #[trigger] ls[i],
            ),
        (exists|i: int| 0 <= i < ls.len() && !is_blank(#[trigger] ls[i])) ==> exists|i: int|
            0 <= i < ls.len() && !is_blank(#[trigger] ls[i]) && min_indent_spec(ls) == leading_ws(
                ls[i],
            ),
        indent_fold(ls) is None <==> forall|i: int| 0 <= i < ls.len() ==> is_blank(#[trigger] ls[i]),
    decreases ls.len(),
{
    if ls.len() > 0 {
        let init = ls.drop_last();
        let p = ls.len() - 1;
        let l = ls.last();
        lemma_min_indent(init);
        assert forall|i: int| 0 <= i < init.len() implies #[trigger] init[i] == ls[i] by {}
        assert(ls[p] == l);
        if is_blank(l) {
            assert(min_indent_spec(ls) == min_indent_spec(init));
            assert forall|i: int|
                0 <= i < ls.len() && !is_blank(ls[i]) implies min_indent_spec(ls) <= leading_ws(
                #[trigger] ls[i],
            ) by {
                assert(init[i] == ls[i]);
            }
            if exists|i: int| 0 <= i < ls.len() && !is_blank(#[trigger] ls[i]) {
                let j = choose|i: int| 0 <= i < ls.len() && !is_blank(#[trigger] ls[i]);
                assert(init[j] == ls[j]);
                let w = choose|i: int|
                    0 <= i < init.len() && !is_blank(#[trigger] init[i]) && min_indent_spec(init)
                        == leading_ws(init[i]);
                assert(ls[w] == init[w]);
            }
            if indent_fold(ls) is None {
                assert forall|i: int| 0 <= i < ls.len() implies is_blank(#[trigger] ls[i]) by {
                    if i < p {
                        assert(init[i] == ls[i]);
                    }
                }
            }
        } else {
            assert(indent_fold(ls) is Some);
            assert forall|i: int|
                0 <= i < ls.len() && !is_blank(ls[i]) implies min_indent_spec(ls) <= leading_ws(
                #[trigger] ls[i],
            ) by {
                if i < p {
                    assert(init[i] == ls[i]);
                    assert(!is_blank(init[i]));
                }
            }
            if indent_fold(init) is Some && min_indent_spec(init) <= leading_ws(l) {
                let w = choose|i: int|
                    0 <= i < init.len() && !is_blank(#[trigger] init[i]) && min_indent_spec(init)
                        == leading_ws(init[i]);
                assert(ls[w] == init[w]);
            } else {
                assert(!is_blank(ls[p]) && min_indent_spec(ls) == leading_ws(ls[p]));
            }
        }
    }
}

/// Where every non-blank line is indented by at least `k` and one by exactly `k`,
/// the minimum indentation is `k`.
pub proof fn lemma_min_indent_is(ls: Seq<Seq<char>>, k: nat, w: int)
    requires
        forall|i: int| 0 <= i < ls.len() && !is_blank(ls[i]) ==> k <= leading_ws(#[trigger] ls[i]),
        0 <= w < ls.len(),
        !is_blank(ls[w]),
        leading_ws(ls[w]) == k,
    ensures
        min_indent_spec(ls) == k,
{
    lemma_min_indent(ls);
    assert(!is_blank(ls[w]));
}

impl CommentStyle {
    /// Parse a `commentstring` value into delimiters.
    ///
    /// The format is `<left>%s<right>`, where `%s` marks where the text goes.
    /// Examples: `// %s`, `/* %s */`, `# %s`, `-- %s`.
    ///
    /// Returns `None` if the format is unrecognized (no `%s` placeholder), or if
    /// nothing but whitespace stands before the placeholder.
    pub fn parse(commentstring: &str) -> (r: Option<Self>)
        ensures
            r matches Some(st) ==> parse_spec(commentstring@) == Some(st@),
            r is None ==> parse_spec(commentstring@) is None,
            (forall|i: int| !placeholder_at(commentstring@, i)) ==> r is None,
            r matches Some(st) ==> {
                &&& st@.left.len() > 0
                &&& !is_ws(st@.left.last())
                &&& st@.right.len() > 0 ==> !is_ws(st@.right[0])
            },
    {
        let ghost s = commentstring@;
        let n = commentstring.unicode_len();
        let mut i: usize = 0;
        let mut found = false;
        while !found && i < n && i + 1 < n
            invariant
                n == s.len(),
                s == commentstring@,
                i <= n,
                !found ==> placeholder_from(s, i as nat) == placeholder_from(s, 0),
                found ==> i + 1 < n && placeholder_from(s, 0) == Some(i as nat),
            decreases n - i + (if found {
                0int
            } else {
                1int
            }),
        {
            if commentstring.get_char(i) == '%' && commentstring.get_char(i + 1) == 's' {
                found = true;
            } else {
                i = i + 1;
            }
        }
        proof {
            lemma_placeholder_from(s, 0);
        }
        if !found {
            return None;
        }
        let left_end = back_over_ws(commentstring, 0, i);
        let right_start = skip_ws(commentstring, i + 2, n);
        proof {
            assert(s.subrange(0, i as int) =~= s.take(i as int));
            assert(s.subrange(i + 2, n as int) =~= s.skip(i + 2));
            let t = s.take(i as int);
            let u = s.skip(i + 2);
            lemma_ws_run_start(t, t.len());
            lemma_ws_run_end(u, 0);
            assert(trim_end(t) =~= s.subrange(0, left_end as int));
            assert(trim_start(u) =~= s.subrange(right_start as int, n as int));
        }
        if left_end == 0 {
            return None;
        }
        let left = commentstring.substring_char(0, left_end).to_owned();
        let right = commentstring.substring_char(right_start, n).to_owned();
        Some(CommentStyle { left, right })
    }

    /// Whether this is a line-style comment (no closing delimiter).
    pub fn is_line_style(&self) -> (b: bool)
        ensures
            b == is_line_style_spec(self@),
    {
        self.right.as_str().unicode_len() == 0
    }
}

/// Determine the minimum indentation level across a set of non-empty lines.
///
/// Returns the number of leading whitespace characters of the least-indented
/// non-empty line. Empty/whitespace-only lines are ignored; with no other
/// line the result is 0.
pub fn min_indent(lines: &[&str]) -> (r: usize)
    ensures
        r == min_indent_spec(lines_view(lines@)),
        forall|i: int|
            0 <= i < lines@.len() && !is_blank(lines@[i]@) ==> r <= leading_ws(#[trigger] lines@[i]@),
        (exists|i: int| 0 <= i < lines@.len() && !is_blank(#[trigger] lines@[i]@)) ==> exists|i: int|
            0 <= i < lines@.len() && !is_blank(#[trigger] lines@[i]@) && r == leading_ws(lines@[i]@),
        (forall|i: int| 0 <= i < lines@.len() ==> is_blank(#[trigger] lines@[i]@)) ==> r == 0,
{
    let ghost ls = lines_view(lines@);
    let mut found = false;
    let mut m: usize = 0;
    let mut i: usize = 0;
    while i < lines.len()
        invariant
            i <= lines@.len(),
            ls == lines_view(lines@),
            !found ==> m == 0,
            indent_fold(ls.take(i as int)) == (if found {
                Some(m as nat)
            } else {
                None::<nat>
            }),
        decreases lines@.len() - i,
    {
        let line = lines[i];
        let n = line.unicode_len();
        let lead = skip_ws(line, 0, n);
        let blank = lead == n;
        proof {
            assert(line@.subrange(0, n as int) =~= line@);
            lemma_blank_iff_all_leading(line@);
            assert(ls.take(i + 1).drop_last() =~= ls.take(i as int));
            assert(ls[i as int] == line@);
            assert(ls.take(i + 1).last() == line@);
        }
        if !blank {
            if !found || lead < m {
                m = lead;
            }
            found = true;
        }
        i = i + 1;
    }
    proof {
        assert(i == lines@.len());
        assert(ls.len() == lines@.len());
        assert(ls.take(i as int) =~= ls);
        assert(indent_fold(ls) == (if found { Some(m as nat) } else { None::<nat> }));
        lemma_min_indent(ls);
        assert forall|j: int|
            0 <= j < lines@.len() && !is_blank(lines@[j]@) implies m <= leading_ws(
            #[trigger] lines@[j]@,
        ) by {
            assert(ls[j] == lines@[j]@);
        }
        if exists|j: int| 0 <= j < lines@.len() && !is_blank(#[trigger] lines@[j]@) {
            let j = choose|j: int| 0 <= j < lines@.len() && !is_blank(#[trigger] lines@[j]@);
            assert(ls[j] == lines@[j]@);
            let w = choose|k: int|
                0 <= k < ls.len() && !is_blank(#[trigger] ls[k]) && min_indent_spec(ls)
                    == leading_ws(ls[k]);
            assert(ls[w] == lines@[w]@);
        }
        assert forall|j: int| 0 <= j < lines@.len() implies #[trigger] ls[j] == lines@[j]@ by {}
    }
    m
}

/// Whether line `l` counts as commented in `d` when the block is indented by `k`:
/// blank lines always count; others must carry the left delimiter after column `k`
/// and any spaces, and for block styles must also end with the right delimiter.
pub open spec fn line_commented(l: Seq<char>, d: Delims, k: nat) -> bool {
    if is_blank(l) {
        true
    } else if !d.left.is_prefix_of(trim_start_spaces(l.skip(k as int))) {
        false
    } else if is_line_style_spec(d) {
        true
    } else {
        d.right.is_suffix_of(trim(l))
    }
}

/// Whether every line counts as commented at the lines' minimum indentation.
pub open spec fn all_commented_spec(ls: Seq<Seq<char>>, d: Delims) -> bool {
    forall|i: int| 0 <= i < ls.len() ==> line_commented(#[trigger] ls[i], d, min_indent_spec(ls))
}

/// Line `l` commented at column `k`: blank lines stay as they are; others get
/// `left` and a space inserted at column `k`, and for block styles a space and
/// `right` appended.
pub open spec fn comment_line_spec(l: Seq<char>, d: Delims, k: nat) -> Seq<char> {
    if is_blank(l) {
        l
    } else if is_line_style_spec(d) {
        l.take(k as int) + d.left + one_space() + l.skip(k as int)
    } else {
        l.take(k as int) + d.left + one_space() + l.skip(k as int) + one_space() + d.right
    }
}

/// `s` without its opening: the left delimiter and then one space, each removed
/// only where it is there.
pub open spec fn strip_open(s: Seq<char>, d: Delims) -> Seq<char> {
    strip_prefix_or(strip_prefix_or(s, d.left), one_space())
}

/// `s` without its closing: trailing whitespace, then the right delimiter, then one
/// space, each removed only where it is there.
pub open spec fn strip_close(s: Seq<char>, d: Delims) -> Seq<char> {
    strip_suffix_or(strip_suffix_or(trim_end(s), d.right), one_space())
}

/// The body of a commented text `s`: without its opening, and for block styles
/// without its closing too.
pub open spec fn comment_body(s: Seq<char>, d: Delims) -> Seq<char> {
    if is_line_style_spec(d) {
        strip_open(s, d)
    } else {
        strip_close(strip_open(s, d), d)
    }
}

/// Where the left delimiter of line `l` starts, for a line commented at column
/// `k`: at `k` where it stands there, else after the spaces that follow `k`.
pub open spec fn line_open_col(l: Seq<char>, d: Delims, k: nat) -> nat {
    if d.left.is_prefix_of(l.skip(k as int)) {
        k
    } else {
        k + space_run_end(l.skip(k as int), 0)
    }
}

/// Line `l` uncommented at column `k`: blank lines stay as they are; others keep
/// everything before their left delimiter (the first `k` characters and any spaces
/// after them) followed by the body of the rest.
pub open spec fn uncomment_line_spec(l: Seq<char>, d: Delims, k: nat) -> Seq<char> {
    if is_blank(l) {
        l
    } else {
        let c = line_open_col(l, d, k);
        l.take(c as int) + comment_body(l.skip(c as int), d)
    }
}

/// What `toggle_lines` gives: where every line counts as commented, each line
/// uncommented, else each line commented, at the minimum indentation.
pub open spec fn toggle_lines_spec(ls: Seq<Seq<char>>, d: Delims) -> Seq<Seq<char>> {
    let k = min_indent_spec(ls);
    if all_commented_spec(ls, d) {
        Seq::new(ls.len(), |i: int| uncomment_line_spec(ls[i], d, k))
    } else {
        Seq::new(ls.len(), |i: int| comment_line_spec(ls[i], d, k))
    }
}

/// Check whether a single line is commented with the given style at the specified indent.
fn is_line_commented(line: &str, style: &CommentStyle, indent: usize) -> (b: bool)
    requires
        !is_blank(line@) ==> indent <= line@.len(),
    ensures
        b == line_commented(line@, style@, indent as nat),
{
    if is_blank_str(line) {
        // blank lines are considered "commented" to avoid toggling artifacts
        return true;
    }
    let ghost l = line@;
    let n = line.unicode_len();
    let a = skip_spaces(line, indent, n);
    proof {
        assert(l.skip(indent as int) =~= l.subrange(indent as int, n as int));
        assert(trim_start_spaces(l.skip(indent as int)) =~= l.subrange(a as int, n as int));
    }
    if !range_starts_with(line, a, n, style.left.as_str()) {
        return false;
    }
    if style.is_line_style() {
        return true;
    }
    // For block-style used as line comments, check for closing delimiter too.
    let lo = skip_ws(line, 0, n);
    let hi = back_over_ws(line, lo, n);
    proof {
        assert(l.subrange(0, n as int) =~= l);
        assert(trim_start(l) =~= l.subrange(lo as int, n as int));
        assert(trim(l) =~= l.subrange(lo as int, hi as int));
    }
    range_ends_with(line, lo, hi, style.right.as_str())
}

/// Check whether ALL non-empty lines in the range are already commented.
pub fn all_commented(lines: &[&str], style: &CommentStyle) -> (b: bool)
    ensures
        b == all_commented_spec(lines_view(lines@), style@),
{
    let ghost ls = lines_view(lines@);
    let indent = min_indent(lines);
    let mut i: usize = 0;
    while i < lines.len()
        invariant
            i <= lines@.len(),
            ls == lines_view(lines@),
            indent == min_indent_spec(ls),
            forall|i: int| 0 <= i < lines@.len() && !is_blank(lines@[i]@) ==> indent <= leading_ws(#[trigger] lines@[i]@),
            forall|j: int| 0 <= j < i ==> line_commented(#[trigger] ls[j], style@, indent as nat),
        decreases lines@.len() - i,
    {
        let line = lines[i];
        proof {
            assert(ls[i as int] == line@);
            lemma_ws_run_end(line@, 0);
        }
        if !is_line_commented(line, style, indent) {
            return false;
        }
        i = i + 1;
    }
    true
}

/// Add a comment to a single line at the given indentation level.
pub fn comment_line(line: &str, style: &CommentStyle, indent: usize) -> (r: String)
    requires
        !is_blank(line@) ==> indent <= line@.len(),
    ensures
        r@ == comment_line_spec(line@, style@, indent as nat),
{
    if is_blank_str(line) {
        return line.to_owned();
    }
    let n = line.unicode_len();
    let mut out = line.substring_char(0, indent).to_owned();
    out.append(style.left.as_str());
    out.append(" ");
    out.append(line.substring_char(indent, n));
    if !style.is_line_style() {
        out.append(" ");
        out.append(style.right.as_str());
    }
    proof {
        reveal_strlit(" ");
        assert(line@.take(indent as int) =~= line@.subrange(0, indent as int));
        assert(line@.skip(indent as int) =~= line@.subrange(indent as int, n as int));
        assert(" "@ =~= one_space());
    }
    out
}

/// Remove a comment from a single line.
pub fn uncomment_line(line: &str, style: &CommentStyle, indent: usize) -> (r: String)
    requires
        !is_blank(line@) ==> indent <= line@.len(),
    ensures
        r@ == uncomment_line_spec(line@, style@, indent as nat),
{
    if is_blank_str(line) {
        return line.to_owned();
    }
    let ghost l = line@;
    let n = line.unicode_len();
    // The left delimiter stands at the indentation column or after spaces.
    let c = if range_starts_with(line, indent, n, style.left.as_str()) {
        indent
    } else {
        skip_spaces(line, indent, n)
    };
    proof {
        assert(l.skip(indent as int) =~= l.subrange(indent as int, n as int));
        assert(c == line_open_col(l, style@, indent as nat));
        assert(l.skip(c as int) =~= l.subrange(c as int, n as int));
    }
    let a = skip_open(line, style, c, n);
    let b = if style.is_line_style() {
        n
    } else {
        cut_close(line, style, a, n)
    };
    let mut out = line.substring_char(0, c).to_owned();
    out.append(line.substring_char(a, b));
    assert(l.take(c as int) =~= l.subrange(0, c as int));
    out
}

/// The start of `line[lo..hi]` once its opening is stripped: `line[a..hi]`.
fn skip_open(line: &str, style: &CommentStyle, lo: usize, hi: usize) -> (a: usize)
    requires
        lo <= hi <= line@.len(),
    ensures
        lo <= a <= hi,
        strip_open(line@.subrange(lo as int, hi as int), style@) == line@.subrange(a as int, hi as int),
{
    let ghost l = line@;
    let ghost d = style@;
    let mut a = lo;
    // Strip the left delimiter.
    if range_starts_with(line, lo, hi, style.left.as_str()) {
        a = lo + style.left.as_str().unicode_len();
    }
    let ghost s1 = strip_prefix_or(l.subrange(lo as int, hi as int), d.left);
    assert(s1 == l.subrange(a as int, hi as int)) by {
        lemma_strip_prefix_range(l, lo as int, hi as int, d.left);
    }
    // Strip optional single space after the left delimiter.
    let ghost a1 = a;
    if a < hi && line.get_char(a) == ' ' {
        a = a + 1;
    }
    assert(strip_prefix_or(s1, one_space()) == l.subrange(a as int, hi as int)) by {
        lemma_one_space_prefix(s1);
        if a1 < hi {
            assert(s1[0] == l[a1 as int]);
        }
        lemma_strip_prefix_range(l, a1 as int, hi as int, one_space());
    }
    a
}

/// The end of `line[lo..hi]` once its closing is stripped: `line[lo..b]`.
fn cut_close(line: &str, style: &CommentStyle, lo: usize, hi: usize) -> (b: usize)
    requires
        lo <= hi <= line@.len(),
    ensures
        lo <= b <= hi,
        strip_close(line@.subrange(lo as int, hi as int), style@) == line@.subrange(lo as int, b as int),
{
    let ghost l = line@;
    let ghost d = style@;
    let b0 = back_over_ws(line, lo, hi);
    let ghost s3 = trim_end(l.subrange(lo as int, hi as int));
    assert(s3 =~= l.subrange(lo as int, b0 as int));
    // Strip the right delimiter if present.
    let mut b = b0;
    if range_ends_with(line, lo, b0, style.right.as_str()) {
        b = b0 - style.right.as_str().unicode_len();
    }
    let ghost s4 = strip_suffix_or(s3, d.right);
    assert(s4 == l.subrange(lo as int, b as int)) by {
        lemma_strip_suffix_range(l, lo as int, b0 as int, d.right);
    }
    // Strip optional single space before the right delimiter.
    let ghost b1 = b;
    if b > lo && line.get_char(b - 1) == ' ' {
        b = b - 1;
    }
    assert(strip_suffix_or(s4, one_space()) == l.subrange(lo as int, b as int)) by {
        lemma_one_space_suffix(s4);
        if b1 > lo {
            assert(s4[s4.len() - 1] == l[b1 - 1]);
        }
        lemma_strip_suffix_range(l, lo as int, b1 as int, one_space());
    }
    b
}

/// Toggle line comments on a set of lines.
///
/// If all non-empty lines are already commented, removes the comment prefix
/// (and suffix for block-style line comments). Otherwise, adds the comment
/// prefix to every line at the minimum indentation level.
///
/// Blank lines are left blank (not prefixed with a comment marker).
pub fn toggle_lines(lines: &[&str], style: &CommentStyle) -> (r: Vec<String>)
    ensures
        strings_view(r@) == toggle_lines_spec(lines_view(lines@), style@),
        r@.len() == lines@.len(),
        forall|i: int| 0 <= i < lines@.len() && is_blank(lines@[i]@) ==> #[trigger] r@[i]@ == lines@[i]@,
{
    let ghost ls = lines_view(lines@);
    if lines.len() == 0 {
        let r = Vec::new();
        assert(strings_view(r@) =~= toggle_lines_spec(ls, style@));
        return r;
    }
    let indent = min_indent(lines);
    let commenting = !all_commented(lines, style);
    let mut out: Vec<String> = Vec::new();
    let mut i: usize = 0;
    while i < lines.len()
        invariant
            i <= lines@.len(),
            ls == lines_view(lines@),
            indent == min_indent_spec(ls),
            commenting == !all_commented_spec(ls, style@),
            forall|i: int| 0 <= i < lines@.len() && !is_blank(lines@[i]@) ==> indent <= leading_ws(#[trigger] lines@[i]@),
            out@.len() == i,
            forall|j: int| 0 <= j < i ==> (#[trigger] out@[j])@ == (if commenting {
                comment_line_spec(ls[j], style@, indent as nat)
            } else {
                uncomment_line_spec(ls[j], style@, indent as nat)
            }),
        decreases lines@.len() - i,
    {
        let line = lines[i];
        proof {
            assert(ls[i as int] == line@);
            lemma_ws_run_end(line@, 0);
        }
        let t = if commenting {
            comment_line(line, style, indent)
        } else {
            uncomment_line(line, style, indent)
        };
        out.push(t);
        i = i + 1;
    }
    assert(strings_view(out@) =~= toggle_lines_spec(ls, style@));
    proof {
        assert forall|i: int| 0 <= i < lines@.len() && is_blank(lines@[i]@) implies #[trigger] out@[i]@ == lines@[i]@ by {
            assert(ls[i] == lines@[i]@);
        }
    }
    out
}

/// The first non-blank line at or after `i`.
pub open spec fn first_content_from(ls: Seq<Seq<char>>, i: nat) -> Option<nat>
    decreases ls.len() - i,
{
    if i >= ls.len() {
        None
    } else if !is_blank(ls[i as int]) {
        Some(i)
    } else {
        first_content_from(ls, i + 1)
    }
}

/// The last non-blank line before `j`.
pub open spec fn last_content_before(ls: Seq<Seq<char>>, j: nat) -> Option<nat>
    decreases j,
{
    if j == 0 || j > ls.len() {
        None
    } else if !is_blank(ls[j - 1]) {
        Some((j - 1) as nat)
    } else {
        last_content_before(ls, (j - 1) as nat)
    }
}

/// Whether the lines already form a block comment: the first non-blank line starts,
/// past the minimum indentation and its whitespace, with the left delimiter, and
/// the last non-blank line ends, before its trailing whitespace, with the right one.
pub open spec fn block_commented(ls: Seq<Seq<char>>, d: Delims) -> bool {
    let k = min_indent_spec(ls);
    match (first_content_from(ls, 0), last_content_before(ls, ls.len())) {
        (Some(f), Some(g)) => d.left.is_prefix_of(trim_start(ls[f as int].skip(k as int)))
            && d.right.is_suffix_of(trim_end(ls[g as int])),
        _ => false,
    }
}

/// Where the left delimiter of the first line of a block comment starts, for a
/// block indented by `k`: at `k` where it stands there, else after the whitespace
/// that follows `k`.
pub open spec fn block_open_col(l: Seq<char>, d: Delims, k: nat) -> nat {
    if d.left.is_prefix_of(l.skip(k as int)) {
        k
    } else {
        k + leading_ws(l.skip(k as int))
    }
}

/// `Seq![l]`, or nothing where `l` is blank.
pub open spec fn unless_blank(l: Seq<char>) -> Seq<Seq<char>> {
    if is_blank(l) {
        Seq::empty()
    } else {
        seq![l]
    }
}

/// A block comment taken apart at indentation `k`. Its edges are its first and
/// last non-blank lines; the blank lines around them stay. Where one line is both
/// edges it loses its opening and its closing; otherwise the first edge loses its
/// opening, the last its closing, and either is dropped where nothing but
/// whitespace is left of it. Whatever stands before the left delimiter stays.
pub open spec fn uncomment_block_spec(ls: Seq<Seq<char>>, d: Delims, k: nat) -> Seq<Seq<char>> {
    match (first_content_from(ls, 0), last_content_before(ls, ls.len())) {
        (Some(f), Some(g)) => {
            let fl = ls[f as int];
            let c = block_open_col(fl, d, k);
            if f == g {
                ls.take(f as int) + seq![fl.take(c as int) + strip_close(strip_open(fl.skip(c as int), d), d)]
                    + ls.skip(f + 1int)
            } else {
                let first = fl.take(c as int) + strip_open(fl.skip(c as int), d);
                let last = strip_close(ls[g as int], d);
                ls.take(f as int) + unless_blank(first) + ls.subrange(f + 1int, g as int)
                    + unless_blank(last) + ls.skip(g + 1int)
            }
        },
        _ => ls,
    }
}

/// The first non-blank line is non-blank and every line before it is blank; none
/// is found only where every line is blank.
pub proof fn lemma_first_content(ls: Seq<Seq<char>>, i: nat)
    requires
        i <= ls.len(),
    ensures
        first_content_from(ls, i) matches Some(f) ==> i <= f < ls.len() && !is_blank(ls[f as int])
            && forall|j: int| i <= j < f ==> is_blank(#[trigger] ls[j]),
        first_content_from(ls, i) is None ==> forall|j: int| i <= j < ls.len() ==> is_blank(
            #[trigger] ls[j],
        ),
    decreases ls.len() - i,
{
    if i < ls.len() && is_blank(ls[i as int]) {
        lemma_first_content(ls, i + 1);
    }
}

/// The last non-blank line before `j` is non-blank and every line after it up to
/// `j` is blank; none is found only where every line before `j` is blank.
pub proof fn lemma_last_content(ls: Seq<Seq<char>>, j: nat)
    requires
        j <= ls.len(),
    ensures
        last_content_before(ls, j) matches Some(g) ==> g < j && !is_blank(ls[g as int]) && forall|
            m: int,
        | g < m < j ==> is_blank(#[trigger] ls[m]),
        last_content_before(ls, j) is None ==> forall|m: int| 0 <= m < j ==> is_blank(
            #[trigger] ls[m],
        ),
    decreases j,
{
    if j > 0 && is_blank(ls[j - 1]) {
        lemma_last_content(ls, (j - 1) as nat);
    }
}

/// The lines wrapped in a block comment: the left delimiter on a line of its own
/// before them and the right one after them, both at indentation `k`.
pub open spec fn wrap_block_spec(ls: Seq<Seq<char>>, d: Delims, k: nat) -> Seq<Seq<char>> {
    seq![spaces(k) + d.left] + ls + seq![spaces(k) + d.right]
}

/// What `toggle_block` gives: nothing for no lines; for line styles what
/// `toggle_lines` gives; else the block taken apart where it is already a block
/// comment, and wrapped where it is not.
pub open spec fn toggle_block_spec(ls: Seq<Seq<char>>, d: Delims) -> Seq<Seq<char>> {
    if ls.len() == 0 {
        Seq::empty()
    } else if is_line_style_spec(d) {
        toggle_lines_spec(ls, d)
    } else if block_commented(ls, d) {
        uncomment_block_spec(ls, d, min_indent_spec(ls))
    } else {
        wrap_block_spec(ls, d, min_indent_spec(ls))
    }
}

/// A string of `n` spaces.
fn spaces_string(n: usize) -> (r: String)
    ensures
        r@ == spaces(n as nat),
{
    let mut r = String::new();
    let mut i: usize = 0;
    while i < n
        invariant
            i <= n,
            r@ == spaces(i as nat),
        decreases n - i,
    {
        r.append(" ");
        proof {
            reveal_strlit(" ");
            assert(spaces((i + 1) as nat) =~= spaces(i as nat) + " "@);
        }
        i = i + 1;
    }
    r
}

/// The first non-blank line.
fn find_first_content(lines: &[&str]) -> (r: Option<usize>)
    ensures
        r matches Some(f) ==> first_content_from(lines_view(lines@), 0) == Some(f as nat),
        r is None ==> first_content_from(lines_view(lines@), 0) is None,
{
    let ghost ls = lines_view(lines@);
    let mut f: usize = 0;
    while f < lines.len()
        invariant
            f <= lines@.len(),
            ls == lines_view(lines@),
            first_content_from(ls, f as nat) == first_content_from(ls, 0),
        decreases lines@.len() - f,
    {
        assert(ls[f as int] == lines@[f as int]@);
        if !is_blank_str(lines[f]) {
            return Some(f);
        }
        f = f + 1;
    }
    None
}

/// The last non-blank line.
fn find_last_content(lines: &[&str]) -> (r: Option<usize>)
    ensures
        r matches Some(g) ==> last_content_before(lines_view(lines@), lines@.len()) == Some(
            g as nat,
        ),
        r is None ==> last_content_before(lines_view(lines@), lines@.len()) is None,
{
    let ghost ls = lines_view(lines@);
    let mut g: usize = lines.len();
    while g > 0
        invariant
            g <= lines@.len(),
            ls == lines_view(lines@),
            last_content_before(ls, g as nat) == last_content_before(ls, ls.len()),
        decreases g,
    {
        assert(ls[g - 1] == lines@[g - 1]@);
        if !is_blank_str(lines[g - 1]) {
            return Some(g - 1);
        }
        g = g - 1;
    }
    None
}

/// Wrap a range of lines in a block comment.
///
/// Adds `/* ... */` style wrapping around the entire block rather than
/// per-line commenting; a block already wrapped so (its first non-empty line
/// starts with the left delimiter, its last non-empty line ends with the right
/// one) is unwrapped. Line styles fall back to `toggle_lines`.
pub fn toggle_block(lines: &[&str], style: &CommentStyle) -> (r: Vec<String>)
    ensures
        strings_view(r@) == toggle_block_spec(lines_view(lines@), style@),
{
    let ghost ls = lines_view(lines@);
    let ghost d = style@;
    if lines.len() == 0 {
        let r = Vec::new();
        assert(strings_view(r@) =~= toggle_block_spec(ls, d));
        return r;
    }
    // For line-style comments, fall back to line toggling.
    if style.is_line_style() {
        return toggle_lines(lines, style);
    }
    let indent = min_indent(lines);
    // Check if already block-commented: first non-empty line starts with left,
    // last non-empty line ends with right.
    if let (Some(f), Some(g)) = (find_first_content(lines), find_last_content(lines)) {
        proof {
            lemma_first_content(ls, 0);
            lemma_last_content(ls, ls.len());
        }
        let first = lines[f];
        let n = first.unicode_len();
        proof {
            lemma_ws_run_end(first@, 0);
            assert(ls[f as int] == first@);
        }
        let a = skip_ws(first, indent, n);
        let last = lines[g];
        let m = last.unicode_len();
        let e = back_over_ws(last, 0, m);
        proof {
            assert(ls[g as int] == last@);
            assert(first@.skip(indent as int) =~= first@.subrange(indent as int, n as int));
            assert(trim_start(first@.skip(indent as int)) =~= first@.subrange(a as int, n as int));
            assert(last@.subrange(0, m as int) =~= last@);
            assert(trim_end(last@) =~= last@.subrange(0, e as int));
        }
        if range_starts_with(first, a, n, style.left.as_str()) && range_ends_with(
            last,
            0,
            e,
            style.right.as_str(),
        ) {
            // Uncomment block.
            return uncomment_block(lines, style, indent);
        }
    }
    // Comment block: wrap with delimiters.

    let indent_str = spaces_string(indent);
    let mut result: Vec<String> = Vec::new();
    let mut head = indent_str.clone();
    head.append(style.left.as_str());
    result.push(head);
    let mut i: usize = 0;
    while i < lines.len()
        invariant
            i <= lines@.len(),
            ls == lines_view(lines@),
            result@.len() == i + 1,
            result@[0]@ == spaces(indent as nat) + d.left,
            forall|j: int| 0 <= j < i ==> (#[trigger] result@[j + 1])@ == ls[j],
        decreases lines@.len() - i,
    {
        assert(ls[i as int] == lines@[i as int]@);
        result.push(lines[i].to_owned());
        i = i + 1;
    }
    let mut tail = indent_str;
    tail.append(style.right.as_str());
    result.push(tail);
    proof {
        let w = wrap_block_spec(ls, d, indent as nat);
        assert forall|j: int| 0 <= j < w.len() implies #[trigger] strings_view(result@)[j] == w[j] by {
            if 1 <= j < w.len() - 1 {
                assert(result@[(j - 1) + 1] == result@[j]);
            }
        }
        assert(strings_view(result@) =~= w);
    }
    result
}

/// Appends the lines `lines[lo..hi]` unchanged.
fn push_lines(result: &mut Vec<String>, lines: &[&str], lo: usize, hi: usize)
    requires
        lo <= hi <= lines@.len(),
    ensures
        strings_view(final(result)@) == strings_view(old(result)@) + lines_view(lines@).subrange(
            lo as int,
            hi as int,
        ),
{
    let ghost ls = lines_view(lines@);
    let ghost start = strings_view(result@);
    let mut i = lo;
    while i < hi
        invariant
            lo <= i <= hi <= lines@.len(),
            ls == lines_view(lines@),
            strings_view(result@) == start + ls.subrange(lo as int, i as int),
        decreases hi - i,
    {
        assert(ls[i as int] == lines@[i as int]@);
        let ghost prev = result@;
        result.push(lines[i].to_owned());
        assert(strings_view(result@) =~= strings_view(prev).push(ls[i as int]));
        assert(ls.subrange(lo as int, i + 1) =~= ls.subrange(lo as int, i as int).push(ls[i as int]));
        i = i + 1;
    }
}

/// Remove block comment wrapping.
///
/// `toggle_block` calls this only on lines that form a block comment, with the
/// indentation they have; those are the inputs it takes.
fn uncomment_block(lines: &[&str], style: &CommentStyle, indent: usize) -> (r: Vec<String>)
    requires
        block_commented(lines_view(lines@), style@),
        indent == min_indent_spec(lines_view(lines@)),
    ensures
        strings_view(r@) == uncomment_block_spec(lines_view(lines@), style@, indent as nat),
{
    let ghost ls = lines_view(lines@);
    let ghost d = style@;
    proof {
        lemma_min_indent(ls);
        assert forall|i: int|
            0 <= i < lines@.len() && !is_blank(lines@[i]@) implies indent <= leading_ws(
            #[trigger] lines@[i]@,
        ) by {
            assert(ls[i] == lines@[i]@);
        }
    }
    let mut result: Vec<String> = Vec::new();
    // A block comment has first and last non-blank lines.
    let f = find_first_content(lines).unwrap();
    let g = find_last_content(lines).unwrap();
    proof {
        lemma_first_content(ls, 0);
        lemma_last_content(ls, ls.len());
        if g < f {
            assert(is_blank(ls[f as int]));
        }
        assert(ls[f as int] == lines@[f as int]@);
        assert(ls[g as int] == lines@[g as int]@);
        lemma_ws_run_end(lines@[f as int]@, 0);
    }
    // Blank lines before the block stay.
    push_lines(&mut result, lines, 0, f);
    assert(ls.subrange(0, f as int) =~= ls.take(f as int));
    // First line: remove left delimiter, found at the indentation or past the
    // whitespace after it.
    let line = lines[f];
    let n = line.unicode_len();
    let c = if range_starts_with(line, indent, n, style.left.as_str()) {
        indent
    } else {
        skip_ws(line, indent, n)
    };
    proof {
        assert(line@.skip(indent as int) =~= line@.subrange(indent as int, n as int));
        assert(c == block_open_col(line@, d, indent as nat));
        assert(line@.skip(c as int) =~= line@.subrange(c as int, n as int));
        assert(line@.take(c as int) =~= line@.subrange(0, c as int));
    }
    let a = skip_open(line, style, c, n);
    let ghost fl = ls[f as int];
    if f == g {
        // Single line with both delimiters: `/* content */` -> `content`
        let b = cut_close(line, style, a, n);
        let mut out = line.substring_char(0, c).to_owned();
        out.append(line.substring_char(a, b));
        let ghost before = result@;
        result.push(out);
        assert(strings_view(result@) =~= strings_view(before).push(
            fl.take(c as int) + strip_close(strip_open(fl.skip(c as int), d), d),
        ));
    } else {
        let mut content = line.substring_char(0, c).to_owned();
        content.append(line.substring_char(a, n));
        let ghost first = fl.take(c as int) + strip_open(fl.skip(c as int), d);
        assert(content@ == first);
        let ghost before = result@;
        if !is_blank_str(content.as_str()) {
            result.push(content);
        }
        assert(strings_view(result@) =~= strings_view(before) + unless_blank(first));
        push_lines(&mut result, lines, f + 1, g);
        // Last line: remove right delimiter.
        let line = lines[g];
        let m = line.unicode_len();
        let b = cut_close(line, style, 0, m);
        let stripped = line.substring_char(0, b).to_owned();
        assert(line@.subrange(0, m as int) =~= line@);
        let ghost before = result@;
        if !is_blank_str(stripped.as_str()) {
            result.push(stripped);
        }
        assert(strings_view(result@) =~= strings_view(before) + unless_blank(
            strip_close(ls[g as int], d),
        ));
    }
    // Blank lines after the block stay.
    push_lines(&mut result, lines, g + 1, lines.len());
    assert(ls.subrange(g + 1, ls.len() as int) =~= ls.skip(g + 1));
    assert(strings_view(result@) =~= uncomment_block_spec(ls, d, indent as nat));
    result
}

} // verus!
