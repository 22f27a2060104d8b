//! Laws that relate successive toggles.
use vstd::prelude::*;
use crate::comment::{
    all_commented_spec, block_commented, comment_body, comment_line_spec, first_content_from,
    is_line_style_spec, last_content_before, lemma_min_indent, lemma_min_indent_is, line_commented,
    min_indent_spec, strip_close, strip_open, toggle_block_spec, block_open_col,
    toggle_lines_spec, uncomment_block_spec, uncomment_line_spec, line_open_col, wrap_block_spec, Delims,
};
use crate::text::{
    is_blank, is_ws, leading_ws, lemma_ws_run_end, lemma_ws_run_end_at,
    lemma_ws_run_start_at, one_space, space_run_end, spaces, strip_prefix_or, strip_suffix_or, trim,
    trim_end, trim_start, trim_start_spaces,
};

verus! {

/// A style whose delimiters toggle back cleanly: the left delimiter is not empty and
/// does not start with whitespace, and the right one, if any, does not end with it.
pub open spec fn style_round_trips(d: Delims) -> bool {
    &&& d.left.len() > 0
    &&& !is_ws(d.left[0])
    &&& d.right.len() > 0 ==> !is_ws(d.right.last())
}

/// A text whose first `k` characters are whitespace and whose character at `k` is
/// not has `k` leading whitespace characters.
proof fn lemma_lead_is(s: Seq<char>, k: nat)
    requires
        k < s.len(),
        forall|j: int| 0 <= j < k ==> #[trigger] is_ws(s[j]),
        !is_ws(s[k as int]),
    ensures
        leading_ws(s) == k,
        !is_blank(s),
{
    lemma_ws_run_end_at(s, 0, k);
}

/// A text that ends with a non-whitespace character is its own `trim_end`.
proof fn lemma_trim_end_id(s: Seq<char>)
    requires
        s.len() > 0,
        !is_ws(s.last()),
    ensures
        trim_end(s) == s,
{
    lemma_ws_run_start_at(s, s.len(), s.len());
    assert(s.take(s.len() as int) =~= s);
}

/// Uncommenting a line at the column it was commented at gives it back, for every
/// line that is blank or indented by at least that column, where the right
/// delimiter, if any, does not end with whitespace.
pub proof fn lemma_uncomment_undoes_comment(l: Seq<char>, d: Delims, k: nat)
    requires
        is_blank(l) || k <= leading_ws(l),
        d.right.len() > 0 ==> !is_ws(d.right.last()),
    ensures
        uncomment_line_spec(comment_line_spec(l, d, k), d, k) == l,
{
    if !is_blank(l) {
        lemma_ws_run_end(l, 0);
        let c = comment_line_spec(l, d, k);
        let rest = if is_line_style_spec(d) {
            l.skip(k as int)
        } else {
            l.skip(k as int) + one_space() + d.right
        };
        assert(c =~= l.take(k as int) + d.left + one_space() + rest);
        let j = choose|j: int| 0 <= j < l.len() && !is_ws(#[trigger] l[j]);
        assert(j >= k);
        assert(c[j + d.left.len() + 1] == l[j]);
        assert(!is_blank(c));
        let after = c.skip(k as int);
        assert(after =~= d.left + one_space() + rest);
        assert(d.left =~= after.subrange(0, d.left.len() as int));
        assert(line_open_col(c, d, k) == k);
        assert(strip_prefix_or(after, d.left) =~= one_space() + rest);
        assert(one_space() =~= (one_space() + rest).subrange(0, 1));
        assert(strip_open(after, d) =~= rest);
        assert(c.take(k as int) =~= l.take(k as int));
        if !is_line_style_spec(d) {
            assert(rest.last() == d.right.last());
            lemma_trim_end_id(rest);
            assert(d.right =~= rest.subrange(rest.len() - d.right.len(), rest.len() as int));
            let r1 = l.skip(k as int) + one_space();
            assert(strip_suffix_or(rest, d.right) =~= r1);
            assert(one_space() =~= r1.subrange(r1.len() - 1, r1.len() as int));
            assert(strip_suffix_or(r1, one_space()) =~= l.skip(k as int));
            assert(strip_close(rest, d) == l.skip(k as int));
        }
        assert(comment_body(after, d) == l.skip(k as int));
        assert(l.take(k as int) + l.skip(k as int) =~= l);
    }
}

/// What commenting a non-blank line at its block's indentation gives: a non-blank
/// line indented by exactly `k` that counts as commented.
proof fn lemma_comment_line(l: Seq<char>, d: Delims, k: nat)
    requires
        style_round_trips(d),
        !is_blank(l),
        k <= leading_ws(l),
    ensures
        !is_blank(comment_line_spec(l, d, k)),
        leading_ws(comment_line_spec(l, d, k)) == k,
        line_commented(comment_line_spec(l, d, k), d, k),
{
    lemma_ws_run_end(l, 0);
    let c = comment_line_spec(l, d, k);
    let rest = if is_line_style_spec(d) {
        l.skip(k as int)
    } else {
        l.skip(k as int) + one_space() + d.right
    };
    assert(c =~= l.take(k as int) + d.left + one_space() + rest);
    assert forall|j: int| 0 <= j < k implies #[trigger] is_ws(c[j]) by {
        assert(c[j] == l[j]);
    }
    assert(c[k as int] == d.left[0]);
    lemma_lead_is(c, k);
    let after = c.skip(k as int);
    assert(after =~= d.left + one_space() + rest);
    assert(after[0] == d.left[0]);
    assert(space_run_end(after, 0) == 0);
    assert(trim_start_spaces(after) =~= after);
    assert(d.left =~= after.subrange(0, d.left.len() as int));
    if !is_line_style_spec(d) {
        assert(after.last() == d.right.last());
        lemma_trim_end_id(after);
        assert(trim(c) == after);
        assert(d.right =~= after.subrange(after.len() - d.right.len(), after.len() as int));
    }
}

/// Where toggling comments the lines (they are not all commented already), the
/// result counts as all commented, at the same minimum indentation, and every
/// line uncomments back to what it was; for styles whose delimiters do not begin
/// or end on whitespace.
pub proof fn lemma_commenting_marks_all(ls: Seq<Seq<char>>, d: Delims)
    requires
        style_round_trips(d),
        !all_commented_spec(ls, d),
    ensures
        all_commented_spec(toggle_lines_spec(ls, d), d),
        min_indent_spec(toggle_lines_spec(ls, d)) == min_indent_spec(ls),
        forall|i: int|
            0 <= i < ls.len() ==> #[trigger] uncomment_line_spec(
                toggle_lines_spec(ls, d)[i],
                d,
                min_indent_spec(ls),
            ) == ls[i],
{
    let k = min_indent_spec(ls);
    let t = toggle_lines_spec(ls, d);
    assert(t =~= Seq::new(ls.len(), |i: int| comment_line_spec(ls[i], d, k)));
    lemma_min_indent(ls);
    assert forall|i: int| 0 <= i < ls.len() && !is_blank(ls[i]) implies {
        &&& !is_blank(#[trigger] t[i])
        &&& leading_ws(t[i]) == k
        &&& line_commented(t[i], d, k)
        &&& uncomment_line_spec(t[i], d, k) == ls[i]
    } by {
        lemma_comment_line(ls[i], d, k);
        lemma_uncomment_undoes_comment(ls[i], d, k);
    }
    let w = choose|i: int| 0 <= i < ls.len() && !line_commented(#[trigger] ls[i], d, k);
    assert(!is_blank(ls[w]));
    assert forall|i: int| 0 <= i < t.len() && !is_blank(t[i]) implies k <= leading_ws(
        #[trigger] t[i],
    ) by {
        if is_blank(ls[i]) {
            assert(t[i] == ls[i]);
        }
    }
    lemma_min_indent_is(t, k, w);
    assert forall|i: int| 0 <= i < t.len() implies line_commented(
        #[trigger] t[i],
        d,
        min_indent_spec(t),
    ) by {
        if is_blank(ls[i]) {
            assert(t[i] == ls[i]);
        }
    }
    assert forall|i: int| 0 <= i < ls.len() implies #[trigger] uncomment_line_spec(t[i], d, k)
        == ls[i] by {
        if is_blank(ls[i]) {
            assert(t[i] == ls[i]);
        }
    }
}

/// Toggling line comments twice gives back the lines, when the first toggle
/// comments them (they are not all commented already) and the style's delimiters
/// do not begin or end on whitespace where that would be cut off.
pub proof fn lemma_toggle_lines_round_trip(ls: Seq<Seq<char>>, d: Delims)
    requires
        style_round_trips(d),
        !all_commented_spec(ls, d),
    ensures
        toggle_lines_spec(toggle_lines_spec(ls, d), d) == ls,
{
    lemma_commenting_marks_all(ls, d);
    let t = toggle_lines_spec(ls, d);
    let k = min_indent_spec(ls);
    assert forall|i: int| 0 <= i < ls.len() implies #[trigger] toggle_lines_spec(t, d)[i]
        == ls[i] by {
        assert(uncomment_line_spec(t[i], d, k) == ls[i]);
    }
    assert(toggle_lines_spec(t, d) =~= ls);
}

/// Every character of `spaces(n)` and of its prefixes is whitespace.
proof fn lemma_spaces_blank(n: nat, m: int)
    requires
        0 <= m <= n,
    ensures
        is_blank(spaces(n).take(m)),
{
}

/// Toggling a block comment twice gives back the lines, when the first toggle
/// wraps them (they are not a block comment already) and the style's delimiters do
/// not begin or end on whitespace.
pub proof fn lemma_toggle_block_round_trip(ls: Seq<Seq<char>>, d: Delims)
    requires
        ls.len() > 0,
        !is_line_style_spec(d),
        style_round_trips(d),
        !block_commented(ls, d),
    ensures
        toggle_block_spec(toggle_block_spec(ls, d), d) == ls,
{
    let k = min_indent_spec(ls);
    let w = toggle_block_spec(ls, d);
    assert(w == wrap_block_spec(ls, d, k));
    let head = spaces(k) + d.left;
    let tail = spaces(k) + d.right;
    let n = w.len();
    assert(w[0] == head);
    assert(w[n - 1] == tail);
    assert forall|i: int| 0 <= i < ls.len() implies #[trigger] w[i + 1] == ls[i] by {}
    // The head line is indented by exactly k, every other non-blank line by at least k.
    assert forall|j: int| 0 <= j < k implies #[trigger] is_ws(head[j]) by {}
    assert(head[k as int] == d.left[0]);
    lemma_lead_is(head, k);
    lemma_min_indent(ls);
    assert forall|i: int| 0 <= i < n && !is_blank(w[i]) implies k <= leading_ws(#[trigger] w[i]) by {
        if i == n - 1 {
            lemma_ws_run_end(tail, 0);
            if leading_ws(tail) < k {
                assert(tail[leading_ws(tail) as int] == ' ');
            }
        } else if i > 0 {
            assert(w[(i - 1) + 1] == ls[i - 1]);
        }
    }
    lemma_min_indent_is(w, k, 0);
    // It is a block comment.
    assert(first_content_from(w, 0) == Some(0nat));
    assert(tail.last() == d.right.last());
    assert(!is_blank(tail)) by {
        assert(!is_ws(tail[tail.len() - 1]));
    }
    assert(last_content_before(w, n) == Some((n - 1) as nat));
    assert(head.skip(k as int) =~= d.left);
    lemma_ws_run_end_at(d.left, 0, 0);
    assert(trim_start(d.left) =~= d.left);
    assert(d.left =~= d.left.subrange(0, d.left.len() as int));
    lemma_trim_end_id(tail);
    assert(d.right =~= tail.subrange(tail.len() - d.right.len(), tail.len() as int));
    assert(block_commented(w, d));
    // Taking it apart drops the delimiter lines.
    assert(strip_prefix_or(d.left, d.left) =~= Seq::<char>::empty());
    assert(strip_open(d.left, d) =~= Seq::<char>::empty());
    assert(head.take(k as int) =~= spaces(k));
    let first = head.take(k as int) + strip_open(head.skip(k as int), d);
    assert(first =~= spaces(k));
    lemma_spaces_blank(k, k as int);
    assert(spaces(k).take(k as int) =~= spaces(k));
    assert(is_blank(first));
    assert(strip_suffix_or(tail, d.right) =~= spaces(k));
    let last = strip_close(tail, d);
    assert(is_blank(last)) by {
        lemma_spaces_blank(k, k as int);
        assert(spaces(k).take(k as int) =~= spaces(k));
        if one_space().is_suffix_of(spaces(k)) {
            lemma_spaces_blank(k, k - 1);
        }
    }
    assert(block_open_col(head, d, k) == k);
    assert(w.subrange(1, n - 1) =~= ls);
    assert(w.take(0) =~= Seq::<Seq<char>>::empty());
    assert(w.skip(n as int) =~= Seq::<Seq<char>>::empty());
    assert(uncomment_block_spec(w, d, k) =~= ls);
}

} // verus!
