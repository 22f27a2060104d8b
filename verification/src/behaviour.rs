//! What each operation does, stated directly over its inputs and results: which
//! lines count as commented, when toggling comments or uncomments, when a block is
//! wrapped or taken apart, and what parsing keeps of a `commentstring`.
use vstd::prelude::*;
use crate::comment::{
    all_commented_spec, first_content_from, last_content_before, lemma_first_content,
    lemma_last_content, lemma_min_indent, lemma_min_indent_is, min_indent_spec, parse_spec,
    placeholder_from, lemma_placeholder_from, toggle_block_spec, toggle_lines_spec, Delims,
};
use crate::laws::{lemma_toggle_lines_round_trip, style_round_trips};
use crate::text::{
    is_blank, leading_ws, space_run_end, spaces, strip_prefix_or, strip_suffix_or, trim, trim_end,
    trim_start, trim_start_spaces,
};

verus! {

/// `k` is the least indentation of the non-blank lines, or 0 where all are blank.
pub open spec fn least_indent(ls: Seq<Seq<char>>, k: nat) -> bool {
    &&& forall|i: int| 0 <= i < ls.len() && !is_blank(ls[i]) ==> k <= leading_ws(#[trigger] ls[i])
    &&& (exists|w: int| 0 <= w < ls.len() && !is_blank(#[trigger] ls[w]) && leading_ws(ls[w]) == k)
        || (k == 0 && forall|i: int| 0 <= i < ls.len() ==> is_blank(#[trigger] ls[i]))
}

/// Line `l`, in a block indented by `k`, carries the left delimiter right after the
/// indentation and any spaces that follow it.
pub open spec fn opens_after_spaces(l: Seq<char>, d: Delims, k: nat) -> bool {
    d.left.is_prefix_of(trim_start_spaces(l.skip(k as int)))
}

/// The minimum indentation the library computes is the least indentation.
proof fn lemma_least_indent(ls: Seq<Seq<char>>, k: nat)
    requires
        least_indent(ls, k),
    ensures
        min_indent_spec(ls) == k,
{
    lemma_min_indent(ls);
    if exists|w: int| 0 <= w < ls.len() && !is_blank(#[trigger] ls[w]) && leading_ws(ls[w]) == k {
        let w = choose|w: int| 0 <= w < ls.len() && !is_blank(#[trigger] ls[w]) && leading_ws(ls[w]) == k;
        lemma_min_indent_is(ls, k, w);
    }
}

/// All lines count as commented exactly when every non-blank line carries the
/// left delimiter after the least indentation and any spaces, and, for block
/// styles, ends (before trailing whitespace) with the right delimiter. Blank lines
/// anywhere count as commented and nothing else does.
pub proof fn law_all_commented(ls: Seq<Seq<char>>, d: Delims, k: nat)
    requires
        least_indent(ls, k),
    ensures
        all_commented_spec(ls, d) <==> forall|i: int|
            0 <= i < ls.len() ==> is_blank(#[trigger] ls[i]) || (opens_after_spaces(ls[i], d, k) && (
            d.right.len() == 0 || d.right.is_suffix_of(trim(ls[i])))),
{
    lemma_least_indent(ls, k);
}

/// Where some non-blank line does not carry the left delimiter after the least
/// indentation and any spaces, toggling comments every line: each non-blank line
/// gets the left delimiter and a space at that indentation (and a space and the
/// right delimiter at its end for block styles); blank lines stay as they are.
pub proof fn law_toggle_lines_comments(ls: Seq<Seq<char>>, d: Delims, k: nat, i: int)
    requires
        least_indent(ls, k),
        0 <= i < ls.len(),
        !is_blank(ls[i]),
        !opens_after_spaces(ls[i], d, k),
    ensures
        toggle_lines_spec(ls, d).len() == ls.len(),
        forall|j: int|
            0 <= j < ls.len() ==> #[trigger] toggle_lines_spec(ls, d)[j] == (if is_blank(ls[j]) {
                ls[j]
            } else if d.right.len() == 0 {
                ls[j].take(k as int) + d.left + seq![' '] + ls[j].skip(k as int)
            } else {
                ls[j].take(k as int) + d.left + seq![' '] + ls[j].skip(k as int) + seq![' ']
                    + d.right
            }),
{
    lemma_least_indent(ls, k);
    assert(!all_commented_spec(ls, d));
    assert forall|j: int| 0 <= j < ls.len() implies #[trigger] toggle_lines_spec(ls, d)[j] == (
    if is_blank(ls[j]) {
        ls[j]
    } else if d.right.len() == 0 {
        ls[j].take(k as int) + d.left + seq![' '] + ls[j].skip(k as int)
    } else {
        ls[j].take(k as int) + d.left + seq![' '] + ls[j].skip(k as int) + seq![' '] + d.right
    }) by {
        assert(seq![' '] =~= crate::text::one_space());
    }
}

/// Where every non-blank line of a line style carries the left delimiter after
/// the least indentation and any spaces, toggling uncomments every line: each
/// non-blank line loses that delimiter and one space after it, and keeps what
/// stood before the delimiter; blank lines stay as they are.
pub proof fn law_toggle_lines_uncomments(ls: Seq<Seq<char>>, d: Delims, k: nat)
    requires
        least_indent(ls, k),
        d.right.len() == 0,
        forall|i: int| 0 <= i < ls.len() && !is_blank(ls[i]) ==> opens_after_spaces(#[trigger] ls[i], d, k),
    ensures
        toggle_lines_spec(ls, d).len() == ls.len(),
        forall|j: int|
            0 <= j < ls.len() ==> #[trigger] toggle_lines_spec(ls, d)[j] == (if is_blank(ls[j]) {
                ls[j]
            } else {
                let c = if d.left.is_prefix_of(ls[j].skip(k as int)) {
                    k
                } else {
                    k + space_run_end(ls[j].skip(k as int), 0)
                };
                ls[j].take(c as int) + strip_prefix_or(ls[j].skip(c + d.left.len() as int), seq![' '])
            }),
{
    lemma_least_indent(ls, k);
    assert(all_commented_spec(ls, d));
    assert forall|j: int| 0 <= j < ls.len() implies #[trigger] toggle_lines_spec(ls, d)[j] == (
    if is_blank(ls[j]) {
        ls[j]
    } else {
        let c = if d.left.is_prefix_of(ls[j].skip(k as int)) {
            k
        } else {
            k + space_run_end(ls[j].skip(k as int), 0)
        };
        ls[j].take(c as int) + strip_prefix_or(ls[j].skip(c + d.left.len() as int), seq![' '])
    }) by {
        assert(seq![' '] =~= crate::text::one_space());
        if !is_blank(ls[j]) {
            let l = ls[j];
            let s = l.skip(k as int);
            crate::text::lemma_ws_run_end(l, 0);
            assert(k <= leading_ws(ls[j]));
            crate::text::lemma_space_run_end(s, 0);
            let c = if d.left.is_prefix_of(s) {
                k
            } else {
                k + space_run_end(s, 0)
            };
            if !d.left.is_prefix_of(s) {
                assert(trim_start_spaces(s) =~= l.skip(c as int));
            }
            assert(d.left.is_prefix_of(l.skip(c as int)));
            assert(l.skip(c as int).skip(d.left.len() as int) =~= l.skip(c + d.left.len() as int));
        }
    }
}

/// Where every non-blank line of a block style carries the left delimiter after
/// the least indentation and any spaces, and ends (before trailing whitespace) with
/// the right one, toggling uncomments every line: each non-blank line keeps what
/// stood before the left delimiter and, of the rest, drops the delimiter and one
/// space after it, then trailing whitespace, the right delimiter and one space
/// before it; blank lines stay as they are.
pub proof fn law_toggle_lines_uncomments_block(ls: Seq<Seq<char>>, d: Delims, k: nat)
    requires
        least_indent(ls, k),
        d.right.len() > 0,
        forall|i: int|
            0 <= i < ls.len() && !is_blank(ls[i]) ==> opens_after_spaces(#[trigger] ls[i], d, k)
                && d.right.is_suffix_of(trim(ls[i])),
    ensures
        toggle_lines_spec(ls, d).len() == ls.len(),
        forall|j: int|
            0 <= j < ls.len() ==> #[trigger] toggle_lines_spec(ls, d)[j] == (if is_blank(ls[j]) {
                ls[j]
            } else {
                let c = if d.left.is_prefix_of(ls[j].skip(k as int)) {
                    k
                } else {
                    k + space_run_end(ls[j].skip(k as int), 0)
                };
                let body = strip_prefix_or(ls[j].skip(c + d.left.len() as int), seq![' ']);
                ls[j].take(c as int) + strip_suffix_or(
                    strip_suffix_or(trim_end(body), d.right),
                    seq![' '],
                )
            }),
{
    lemma_least_indent(ls, k);
    assert(all_commented_spec(ls, d));
    assert forall|j: int| 0 <= j < ls.len() implies #[trigger] toggle_lines_spec(ls, d)[j] == (
    if is_blank(ls[j]) {
        ls[j]
    } else {
        let c = if d.left.is_prefix_of(ls[j].skip(k as int)) {
            k
        } else {
            k + space_run_end(ls[j].skip(k as int), 0)
        };
        let body = strip_prefix_or(ls[j].skip(c + d.left.len() as int), seq![' ']);
        ls[j].take(c as int) + strip_suffix_or(strip_suffix_or(trim_end(body), d.right), seq![' '])
    }) by {
        assert(seq![' '] =~= crate::text::one_space());
        if !is_blank(ls[j]) {
            let l = ls[j];
            let s = l.skip(k as int);
            crate::text::lemma_ws_run_end(l, 0);
            assert(k <= leading_ws(ls[j]));
            crate::text::lemma_space_run_end(s, 0);
            let c = if d.left.is_prefix_of(s) {
                k
            } else {
                k + space_run_end(s, 0)
            };
            if !d.left.is_prefix_of(s) {
                assert(trim_start_spaces(s) =~= l.skip(c as int));
            }
            assert(d.left.is_prefix_of(l.skip(c as int)));
            assert(l.skip(c as int).skip(d.left.len() as int) =~= l.skip(c + d.left.len() as int));
        }
    }
}

/// For line styles, toggling a block is toggling lines.
pub proof fn law_toggle_block_line_style(ls: Seq<Seq<char>>, d: Delims)
    requires
        d.right.len() == 0,
    ensures
        toggle_block_spec(ls, d) == toggle_lines_spec(ls, d),
{
    if ls.len() == 0 {
        assert(toggle_lines_spec(ls, d) =~= Seq::<Seq<char>>::empty());
    }
}

/// For line styles, toggling a block twice gives back lines that were not all
/// commented, where the left delimiter does not start with whitespace.
pub proof fn law_toggle_block_line_style_round_trip(ls: Seq<Seq<char>>, d: Delims)
    requires
        d.right.len() == 0,
        d.left.len() > 0,
        !crate::text::is_ws(d.left[0]),
        !all_commented_spec(ls, d),
    ensures
        toggle_block_spec(toggle_block_spec(ls, d), d) == ls,
{
    law_toggle_block_line_style(ls, d);
    law_toggle_block_line_style(toggle_lines_spec(ls, d), d);
    assert(style_round_trips(d));
    lemma_toggle_lines_round_trip(ls, d);
}

/// `f` is the first non-blank line.
pub open spec fn is_first_content(ls: Seq<Seq<char>>, f: int) -> bool {
    0 <= f < ls.len() && !is_blank(ls[f]) && forall|j: int| 0 <= j < f ==> is_blank(#[trigger] ls[j])
}

/// `g` is the last non-blank line.
pub open spec fn is_last_content(ls: Seq<Seq<char>>, g: int) -> bool {
    0 <= g < ls.len() && !is_blank(ls[g]) && forall|j: int| g < j < ls.len() ==> is_blank(#[trigger] ls[j])
}

/// The lines wrapped: a line of `k` spaces and the left delimiter, the lines, and
/// a line of `k` spaces and the right delimiter.
pub open spec fn wrapped(ls: Seq<Seq<char>>, d: Delims, k: nat) -> Seq<Seq<char>> {
    seq![spaces(k) + d.left] + ls + seq![spaces(k) + d.right]
}

/// The first and last non-blank lines are found by the library's scans.
proof fn lemma_edges(ls: Seq<Seq<char>>, f: int, g: int)
    requires
        is_first_content(ls, f),
        is_last_content(ls, g),
    ensures
        first_content_from(ls, 0) == Some(f as nat),
        last_content_before(ls, ls.len()) == Some(g as nat),
{
    lemma_first_content(ls, 0);
    lemma_last_content(ls, ls.len());
    let f2 = first_content_from(ls, 0)->0;
    let g2 = last_content_before(ls, ls.len())->0;
    if f2 < f {
        assert(is_blank(ls[f2 as int]));
    }
    if f < f2 {
        assert(is_blank(ls[f]));
    }
    if g2 < g {
        assert(is_blank(ls[g]));
    }
    if g < g2 {
        assert(is_blank(ls[g2 as int]));
    }
}

/// For block styles, a block whose lines are all blank, whose first non-blank line
/// does not start (past the least indentation and whitespace) with the left
/// delimiter, or whose last non-blank line does not end (before trailing
/// whitespace) with the right one, is wrapped: a line of the indentation and the
/// left delimiter before it, one of the indentation and the right delimiter after.
pub proof fn law_toggle_block_wraps(ls: Seq<Seq<char>>, d: Delims, k: nat, f: int, g: int)
    requires
        d.right.len() > 0,
        ls.len() > 0,
        least_indent(ls, k),
        (forall|i: int| 0 <= i < ls.len() ==> is_blank(#[trigger] ls[i])) || (is_first_content(ls, f)
            && is_last_content(ls, g) && (!d.left.is_prefix_of(trim_start(ls[f].skip(k as int)))
            || !d.right.is_suffix_of(trim_end(ls[g])))),
    ensures
        toggle_block_spec(ls, d) == wrapped(ls, d, k),
{
    lemma_least_indent(ls, k);
    lemma_first_content(ls, 0);
    if !(forall|i: int| 0 <= i < ls.len() ==> is_blank(#[trigger] ls[i])) {
        lemma_edges(ls, f, g);
    } else {
        if first_content_from(ls, 0) is Some {
            let f2 = first_content_from(ls, 0)->0;
            assert(is_blank(ls[f2 as int]));
        }
    }
}

/// For block styles, a block whose first non-blank line starts (past the least
/// indentation and whitespace) with the left delimiter and whose last non-blank
/// line ends (before trailing whitespace) with the right one is taken apart, not
/// wrapped: no line is added, the blank lines before and after it stay, a single
/// such line stays one line, and the lines between its first and last non-blank
/// lines stay, after the first one or nothing where that line is dropped.
pub proof fn law_toggle_block_unwraps(ls: Seq<Seq<char>>, d: Delims, k: nat, f: int, g: int)
    requires
        d.right.len() > 0,
        least_indent(ls, k),
        is_first_content(ls, f),
        is_last_content(ls, g),
        d.left.is_prefix_of(trim_start(ls[f].skip(k as int))),
        d.right.is_suffix_of(trim_end(ls[g])),
    ensures
        ls.len() <= toggle_block_spec(ls, d).len() + 2,
        toggle_block_spec(ls, d).len() <= ls.len(),
        f == g ==> toggle_block_spec(ls, d).len() == ls.len(),
        toggle_block_spec(ls, d).take(f) == ls.take(f),
        toggle_block_spec(ls, d).skip(toggle_block_spec(ls, d).len() - (ls.len() - g - 1))
            == ls.skip(g + 1),
        f < g ==> exists|a: int|
            (a == 0 || a == 1) && #[trigger] toggle_block_spec(ls, d).subrange(f + a, g + a - 1)
                == ls.subrange(f + 1, g),
{
    lemma_least_indent(ls, k);
    lemma_edges(ls, f, g);
    if g < f {
        assert(is_blank(ls[f]));
    }
    let r = toggle_block_spec(ls, d);
    let t = ls.len() - g - 1;
    assert(r.take(f) =~= ls.take(f));
    assert(r.skip(r.len() - t) =~= ls.skip(g + 1));
    if f < g {
        let m = ls.subrange(f + 1, g);
        if r.subrange(f, g - 1) =~= m {
            assert(r.subrange(f + 0, g + 0 - 1) == m);
        } else {
            assert(r.subrange(f + 1, g + 1 - 1) =~= m);
        }
    }
}

/// The lines of a block comment taken apart, edge by edge. The opening of its
/// first non-blank line is found right at the least indentation or past the
/// whitespace after it; that line keeps what stands before the left delimiter and
/// loses the delimiter and one space after it. The last non-blank line loses
/// trailing whitespace, the right delimiter and one space before it. A single such
/// line loses both and stays; otherwise either edge is dropped where nothing but
/// whitespace is left of it. All other lines stay as they are.
pub proof fn law_toggle_block_unwrap_edges(ls: Seq<Seq<char>>, d: Delims, k: nat, f: int, g: int)
    requires
        d.right.len() > 0,
        least_indent(ls, k),
        is_first_content(ls, f),
        is_last_content(ls, g),
        d.left.is_prefix_of(trim_start(ls[f].skip(k as int))),
        d.right.is_suffix_of(trim_end(ls[g])),
    ensures
        ({
            let fl = ls[f];
            let c = if d.left.is_prefix_of(fl.skip(k as int)) {
                k
            } else {
                k + leading_ws(fl.skip(k as int))
            };
            let opened = fl.take(c as int) + strip_prefix_or(fl.skip(c + d.left.len() as int), seq![' ']);
            let close = |t: Seq<char>| strip_suffix_or(strip_suffix_or(trim_end(t), d.right), seq![' ']);
            let keep = |t: Seq<char>|
                if is_blank(t) {
                    Seq::<Seq<char>>::empty()
                } else {
                    seq![t]
                };
            toggle_block_spec(ls, d) == if f == g {
                ls.take(f) + seq![fl.take(c as int) + close(
                    strip_prefix_or(fl.skip(c + d.left.len() as int), seq![' ']),
                )] + ls.skip(f + 1)
            } else {
                ls.take(f) + keep(opened) + ls.subrange(f + 1, g) + keep(close(ls[g])) + ls.skip(
                    g + 1,
                )
            }
        }),
{
    lemma_least_indent(ls, k);
    lemma_edges(ls, f, g);
    if g < f {
        assert(is_blank(ls[f]));
    }
    assert(seq![' '] =~= crate::text::one_space());
    let fl = ls[f];
    let s0 = fl.skip(k as int);
    crate::text::lemma_ws_run_end(fl, 0);
    assert(k <= leading_ws(fl));
    crate::text::lemma_ws_run_end(s0, 0);
    let c = if d.left.is_prefix_of(s0) {
        k
    } else {
        k + leading_ws(s0)
    };
    if !d.left.is_prefix_of(s0) {
        assert(trim_start(s0) =~= fl.skip(c as int));
    }
    assert(d.left.is_prefix_of(fl.skip(c as int)));
    assert(fl.skip(c as int).skip(d.left.len() as int) =~= fl.skip(c + d.left.len() as int));
}

/// Parsing takes the first `%s`, whatever stands before it (another `%`
/// included): the text before it without trailing whitespace is the left
/// delimiter, the text after it without leading whitespace the right one, and
/// there is a style exactly where the left delimiter is not empty. Without `%s`
/// there is none.
pub proof fn law_parse(s: Seq<char>, i: int)
    requires
        0 <= i && i + 1 < s.len(),
        s[i] == '%' && s[i + 1] == 's',
        forall|j: int| 0 <= j < i ==> !(s[j] == '%' && #[trigger] s[j + 1] == 's'),
    ensures
        parse_spec(s) == (if trim_end(s.take(i)).len() == 0 {
            None
        } else {
            Some(Delims { left: trim_end(s.take(i)), right: trim_start(s.skip(i + 2)) })
        }),
{
    lemma_placeholder_from(s, 0);
    let p = placeholder_from(s, 0);
    if p is None {
        assert(!crate::comment::placeholder_at(s, i));
    } else {
        let q = p->0 as int;
        if q < i {
            assert(s[q] == '%' && s[q + 1] == 's');
        }
        if i < q {
            assert(crate::comment::placeholder_at(s, i));
        }
    }
}

/// Without `%s` there is no style.
pub proof fn law_parse_needs_placeholder(s: Seq<char>)
    requires
        forall|j: int| 0 <= j && j + 1 < s.len() ==> !(s[j] == '%' && #[trigger] s[j + 1] == 's'),
    ensures
        parse_spec(s) is None,
{
    lemma_placeholder_from(s, 0);
    if placeholder_from(s, 0) is Some {
        let q = placeholder_from(s, 0)->0 as int;
        assert(s[q] == '%' && s[q + 1] == 's');
    }
}

} // verus!
