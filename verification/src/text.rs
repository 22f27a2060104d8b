//! Character-level view of strings: whitespace, trimming and affixes.
//!
//! Every string is seen through its view, the sequence of its `char`s. Positions
//! are character positions, so no slice here can fall inside a character.
use vstd::prelude::*;

verus! {

/// The Unicode `White_Space` property, which is what `char::is_whitespace` tests.
pub open spec fn is_ws(c: char) -> bool {
    ||| ('\u{9}' <= c && c <= '\u{d}')
    ||| c == ' '
    ||| c == '\u{85}'
    ||| c == '\u{a0}'
    ||| c == '\u{1680}'
    ||| ('\u{2000}' <= c && c <= '\u{200a}')
    ||| c == '\u{2028}'
    ||| c == '\u{2029}'
    ||| c == '\u{202f}'
    ||| c == '\u{205f}'
    ||| c == '\u{3000}'
}

/// A string made of whitespace only (the empty string included).
pub open spec fn is_blank(s: Seq<char>) -> bool {
    forall|i: int| 0 <= i < s.len() ==> #[trigger] is_ws(s[i])
}

/// Position of the first non-whitespace character at or after `i` (the length if none).
pub open spec fn ws_run_end(s: Seq<char>, i: nat) -> nat
    decreases s.len() - i,
{
    if i >= s.len() {
        s.len()
    } else if is_ws(s[i as int]) {
        ws_run_end(s, i + 1)
    } else {
        i
    }
}

/// Position of the first character other than `' '` at or after `i` (the length if none).
pub open spec fn space_run_end(s: Seq<char>, i: nat) -> nat
    decreases s.len() - i,
{
    if i >= s.len() {
        s.len()
    } else if s[i as int] == ' ' {
        space_run_end(s, i + 1)
    } else {
        i
    }
}

/// Position just after the last non-whitespace character before `j` (0 if none).
pub open spec fn ws_run_start(s: Seq<char>, j: nat) -> nat
    decreases j,
{
    if j == 0 || j > s.len() {
        j
    } else if is_ws(s[j - 1]) {
        ws_run_start(s, (j - 1) as nat)
    } else {
        j
    }
}

/// Number of leading whitespace characters.
pub open spec fn leading_ws(s: Seq<char>) -> nat {
    ws_run_end(s, 0)
}

/// Length of `s` once trailing whitespace is cut off.
pub open spec fn content_end(s: Seq<char>) -> nat {
    ws_run_start(s, s.len())
}

/// `str::trim_start`.
pub open spec fn trim_start(s: Seq<char>) -> Seq<char> {
    s.skip(leading_ws(s) as int)
}

/// `str::trim_end`.
pub open spec fn trim_end(s: Seq<char>) -> Seq<char> {
    s.take(content_end(s) as int)
}

/// `str::trim`.
pub open spec fn trim(s: Seq<char>) -> Seq<char> {
    trim_end(trim_start(s))
}

/// `str::trim_start_matches(' ')`.
pub open spec fn trim_start_spaces(s: Seq<char>) -> Seq<char> {
    s.skip(space_run_end(s, 0) as int)
}

/// `s.strip_prefix(p).unwrap_or(s)`.
pub open spec fn strip_prefix_or(s: Seq<char>, p: Seq<char>) -> Seq<char> {
    if p.is_prefix_of(s) {
        s.skip(p.len() as int)
    } else {
        s
    }
}

/// `s.strip_suffix(p).unwrap_or(s)`.
pub open spec fn strip_suffix_or(s: Seq<char>, p: Seq<char>) -> Seq<char> {
    if p.is_suffix_of(s) {
        s.take(s.len() - p.len())
    } else {
        s
    }
}

/// The string of one space.
pub open spec fn one_space() -> Seq<char> {
    seq![' ']
}

/// `n` spaces.
pub open spec fn spaces(n: nat) -> Seq<char> {
    Seq::new(n, |i: int| ' ')
}

/// What `ws_run_end` is: the end of the whitespace run that starts at `i`.
pub proof fn lemma_ws_run_end(s: Seq<char>, i: nat)
    requires
        i <= s.len(),
    ensures
        i <= ws_run_end(s, i) <= s.len(),
        forall|j: int| i <= j < ws_run_end(s, i) ==> #[trigger] is_ws(s[j]),
        ws_run_end(s, i) < s.len() ==> !is_ws(s[ws_run_end(s, i) as int]),
    decreases s.len() - i,
{
    if i < s.len() && is_ws(s[i as int]) {
        lemma_ws_run_end(s, i + 1);
    }
}

/// A whitespace run from `i` to `n`, followed by the end or by another character,
/// ends at `n`.
pub proof fn lemma_ws_run_end_at(s: Seq<char>, i: nat, n: nat)
    requires
        i <= n <= s.len(),
        forall|j: int| i <= j < n ==> #[trigger] is_ws(s[j]),
        n < s.len() ==> !is_ws(s[n as int]),
    ensures
        ws_run_end(s, i) == n,
    decreases n - i,
{
    if i < n {
        lemma_ws_run_end_at(s, i + 1, n);
    }
}

/// `space_run_end` stays within the text.
pub proof fn lemma_space_run_end(s: Seq<char>, i: nat)
    requires
        i <= s.len(),
    ensures
        i <= space_run_end(s, i) <= s.len(),
    decreases s.len() - i,
{
    if i < s.len() && s[i as int] == ' ' {
        lemma_space_run_end(s, i + 1);
    }
}

/// What `ws_run_start` is: the start of the whitespace run that ends at `j`.
pub proof fn lemma_ws_run_start(s: Seq<char>, j: nat)
    requires
        j <= s.len(),
    ensures
        ws_run_start(s, j) <= j,
        forall|k: int| ws_run_start(s, j) <= k < j ==> #[trigger] is_ws(s[k]),
        ws_run_start(s, j) > 0 ==> !is_ws(s[ws_run_start(s, j) - 1]),
    decreases j,
{
    if j > 0 && is_ws(s[j - 1]) {
        lemma_ws_run_start(s, (j - 1) as nat);
    }
}

/// A whitespace run from `n` to `j`, after the start or after another character,
/// starts at `n`.
pub proof fn lemma_ws_run_start_at(s: Seq<char>, j: nat, n: nat)
    requires
        n <= j <= s.len(),
        forall|k: int| n <= k < j ==> #[trigger] is_ws(s[k]),
        n > 0 ==> !is_ws(s[n - 1]),
    ensures
        ws_run_start(s, j) == n,
    decreases j - n,
{
    if n < j {
        lemma_ws_run_start_at(s, (j - 1) as nat, n);
    }
}

/// A string is blank exactly when its leading whitespace is all of it.
pub proof fn lemma_blank_iff_all_leading(s: Seq<char>)
    ensures
        is_blank(s) <==> leading_ws(s) == s.len(),
{
    lemma_ws_run_end(s, 0);
    if is_blank(s) {
        lemma_ws_run_end_at(s, 0, s.len());
    }
}

/// Removing a prefix from a range of `l` leaves a later range of `l`.
pub proof fn lemma_strip_prefix_range(l: Seq<char>, a: int, n: int, p: Seq<char>)
    requires
        0 <= a <= n <= l.len(),
    ensures
        strip_prefix_or(l.subrange(a, n), p) == (if p.is_prefix_of(l.subrange(a, n)) {
            l.subrange(a + p.len(), n)
        } else {
            l.subrange(a, n)
        }),
{
    if p.is_prefix_of(l.subrange(a, n)) {
        assert(l.subrange(a, n).skip(p.len() as int) =~= l.subrange(a + p.len(), n));
    }
}

/// Removing a suffix from a range of `l` leaves a shorter range of `l`.
pub proof fn lemma_strip_suffix_range(l: Seq<char>, a: int, n: int, p: Seq<char>)
    requires
        0 <= a <= n <= l.len(),
    ensures
        strip_suffix_or(l.subrange(a, n), p) == (if p.is_suffix_of(l.subrange(a, n)) {
            l.subrange(a, n - p.len())
        } else {
            l.subrange(a, n)
        }),
{
    if p.is_suffix_of(l.subrange(a, n)) {
        assert(l.subrange(a, n).take(n - a - p.len()) =~= l.subrange(a, n - p.len()));
    }
}

/// One space is a prefix exactly where the text starts with a space.
pub proof fn lemma_one_space_prefix(s: Seq<char>)
    ensures
        one_space().is_prefix_of(s) <==> (s.len() > 0 && s[0] == ' '),
{
    assert(one_space()[0] == ' ');
    if s.len() > 0 && s[0] == ' ' {
        assert(one_space() =~= s.subrange(0, 1));
    }
    if one_space().is_prefix_of(s) {
        assert(s.subrange(0, 1)[0] == s[0]);
    }
}

/// One space is a suffix exactly where the text ends with a space.
pub proof fn lemma_one_space_suffix(s: Seq<char>)
    ensures
        one_space().is_suffix_of(s) <==> (s.len() > 0 && s[s.len() - 1] == ' '),
{
    assert(one_space()[0] == ' ');
    if s.len() > 0 && s[s.len() - 1] == ' ' {
        assert(one_space() =~= s.subrange(s.len() - 1, s.len() as int));
    }
    if one_space().is_suffix_of(s) {
        assert(s.subrange(s.len() - 1, s.len() as int)[0] == s[s.len() - 1]);
    }
}

/// Whether `c` is a whitespace character (`char::is_whitespace`).
pub fn char_is_ws(c: char) -> (b: bool)
    ensures
        b == is_ws(c),
{
    ('\u{9}' <= c && c <= '\u{d}') || c == ' ' || c == '\u{85}' || c == '\u{a0}' || c == '\u{1680}'
        || ('\u{2000}' <= c && c <= '\u{200a}') || c == '\u{2028}' || c == '\u{2029}' || c
        == '\u{202f}' || c == '\u{205f}' || c == '\u{3000}'
}

/// Skips the whitespace of `s[lo..hi]` from the left: the result `r` is such that
/// `s[r..hi]` is that range with its leading whitespace removed.
pub fn skip_ws(s: &str, lo: usize, hi: usize) -> (r: usize)
    requires
        lo <= hi <= s@.len(),
    ensures
        lo <= r <= hi,
        r - lo == leading_ws(s@.subrange(lo as int, hi as int)),
{
    let ghost t = s@.subrange(lo as int, hi as int);
    let mut j = lo;
    while j < hi && char_is_ws(s.get_char(j))
        invariant
            lo <= j <= hi <= s@.len(),
            t == s@.subrange(lo as int, hi as int),
            ws_run_end(t, (j - lo) as nat) == ws_run_end(t, 0),
        decreases hi - j,
    {
        assert(t[j - lo] == s@[j as int]);
        j = j + 1;
    }
    proof {
        if j < hi {
            assert(t[j - lo] == s@[j as int]);
        }
    }
    j
}

/// Skips the spaces of `s[lo..hi]` from the left: `s[r..hi]` is that range with
/// its leading `' '` characters removed.
pub fn skip_spaces(s: &str, lo: usize, hi: usize) -> (r: usize)
    requires
        lo <= hi <= s@.len(),
    ensures
        lo <= r <= hi,
        r - lo == space_run_end(s@.subrange(lo as int, hi as int), 0),
{
    let ghost t = s@.subrange(lo as int, hi as int);
    let mut j = lo;
    while j < hi && s.get_char(j) == ' '
        invariant
            lo <= j <= hi <= s@.len(),
            t == s@.subrange(lo as int, hi as int),
            space_run_end(t, (j - lo) as nat) == space_run_end(t, 0),
        decreases hi - j,
    {
        assert(t[j - lo] == s@[j as int]);
        j = j + 1;
    }
    proof {
        if j < hi {
            assert(t[j - lo] == s@[j as int]);
        }
    }
    j
}

/// Backs over the whitespace at the end of `s[lo..hi]`: `s[lo..r]` is that range
/// with its trailing whitespace removed.
pub fn back_over_ws(s: &str, lo: usize, hi: usize) -> (r: usize)
    requires
        lo <= hi <= s@.len(),
    ensures
        lo <= r <= hi,
        r - lo == content_end(s@.subrange(lo as int, hi as int)),
{
    let ghost t = s@.subrange(lo as int, hi as int);
    let mut j = hi;
    while j > lo && char_is_ws(s.get_char(j - 1))
        invariant
            lo <= j <= hi <= s@.len(),
            t == s@.subrange(lo as int, hi as int),
            ws_run_start(t, (j - lo) as nat) == ws_run_start(t, t.len()),
        decreases j,
    {
        assert(t[j - lo - 1] == s@[j - 1]);
        j = j - 1;
    }
    proof {
        if j > lo {
            assert(t[j - lo - 1] == s@[j - 1]);
        }
    }
    j
}

/// Whether `s[lo..hi]` starts with `p`.
pub fn range_starts_with(s: &str, lo: usize, hi: usize, p: &str) -> (b: bool)
    requires
        lo <= hi <= s@.len(),
    ensures
        b == p@.is_prefix_of(s@.subrange(lo as int, hi as int)),
{
    let n = p.unicode_len();
    if n > hi - lo {
        return false;
    }
    let mut k: usize = 0;
    while k < n
        invariant
            n == p@.len(),
            lo + n <= hi <= s@.len(),
            k <= n,
            forall|m: int| 0 <= m < k ==> p@[m] == s@[lo + m],
        decreases n - k,
    {
        if p.get_char(k) != s.get_char(lo + k) {
            assert(p@[k as int] != s@.subrange(lo as int, hi as int).subrange(0, n as int)[k as int]);
            return false;
        }
        k = k + 1;
    }
    assert(p@ =~= s@.subrange(lo as int, hi as int).subrange(0, n as int));
    true
}

/// Whether `s[lo..hi]` ends with `p`.
pub fn range_ends_with(s: &str, lo: usize, hi: usize, p: &str) -> (b: bool)
    requires
        lo <= hi <= s@.len(),
    ensures
        b == p@.is_suffix_of(s@.subrange(lo as int, hi as int)),
{
    let n = p.unicode_len();
    if n > hi - lo {
        return false;
    }
    let start = hi - n;
    let mut k: usize = 0;
    while k < n
        invariant
            n == p@.len(),
            lo <= start,
            start + n == hi,
            hi <= s@.len(),
            k <= n,
            forall|m: int| 0 <= m < k ==> p@[m] == s@[start + m],
        decreases n - k,
    {
        if p.get_char(k) != s.get_char(start + k) {
            let ghost t = s@.subrange(lo as int, hi as int);
            assert(p@[k as int] != t.subrange(t.len() - n, t.len() as int)[k as int]);
            return false;
        }
        k = k + 1;
    }
    let ghost t = s@.subrange(lo as int, hi as int);
    assert(p@ =~= t.subrange(t.len() - n, t.len() as int));
    true
}

/// Whether `s` is whitespace only (`s.trim().is_empty()`).
pub fn is_blank_str(s: &str) -> (b: bool)
    ensures
        b == is_blank(s@),
{
    let n = s.unicode_len();
    let r = skip_ws(s, 0, n);
    proof {
        assert(s@.subrange(0, n as int) =~= s@);
        lemma_blank_iff_all_leading(s@);
    }
    r == n
}

} // verus!
