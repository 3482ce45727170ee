//! Character-sequence primitives: whitespace, pattern search and
//! replacement, trimming, splitting and joining, and decimal digits.
//! Spec functions state the meaning; the exec functions mirror them.

use vstd::prelude::*;

verus! {

/// Whitespace as this tool understands it: space, tab, carriage return.
/// Line feeds never occur inside a line, the line splitter consumes them.
pub open spec fn is_space(c: char) -> bool {
    c == ' ' || c == '\t' || c == '\r'
}

pub fn is_space_exec(c: char) -> (r: bool)
    ensures
        r == is_space(c),
{
    c == ' ' || c == '\t' || c == '\r'
}

/// The pattern `p` occurs in `s` starting at position `i`.
pub open spec fn match_at(s: Seq<char>, p: Seq<char>, i: int) -> bool {
    &&& 0 <= i
    &&& i + p.len() <= s.len()
    &&& s.subrange(i, i + p.len()) == p
}

/// The pattern `p` occurs somewhere in `s`.
pub open spec fn contains_tok(s: Seq<char>, p: Seq<char>) -> bool {
    exists|i: int| match_at(s, p, i)
}

pub fn match_at_exec(s: &Vec<char>, p: &Vec<char>, i: usize) -> (r: bool)
    requires
        i <= s@.len(),
    ensures
        r == match_at(s@, p@, i as int),
{
    if s.len() - i < p.len() {
        return false;
    }
    let mut k: usize = 0;
    while k < p.len()
        invariant
            i + p@.len() <= s@.len(),
            k <= p@.len(),
            forall|t: int| 0 <= t < k ==> s@[i + t] == p@[t],
        decreases p@.len() - k,
    {
        let n = s.len();
        assert(i + k < n);
        let idx: usize = i + k;
        if s[idx] != p[k] {
            assert(s@.subrange(i as int, i + p@.len())[k as int] != p@[k as int]);
            return false;
        }
        k += 1;
    }
    assert(s@.subrange(i as int, i + p@.len()) =~= p@);
    true
}

pub fn contains_tok_exec(s: &Vec<char>, p: &Vec<char>) -> (r: bool)
    ensures
        r == contains_tok(s@, p@),
{
    let mut i: usize = 0;
    while i < s.len()
        invariant
            i <= s@.len(),
            forall|t: int| 0 <= t < i ==> !match_at(s@, p@, t),
        decreases s@.len() - i,
    {
        if match_at_exec(s, p, i) {
            return true;
        }
        i += 1;
    }
    // An empty pattern still matches at the very end of the text.
    if match_at_exec(s, p, s.len()) {
        return true;
    }
    assert forall|t: int| !match_at(s@, p@, t) by {
        if 0 <= t && t + p@.len() <= s@.len() {
            assert(t <= s@.len());
        }
    }
    false
}

/// Leftmost, non-overlapping replacement of `p` by `r` in the suffix of `s`
/// that starts at `i`; the empty pattern replaces nothing.
pub open spec fn replace_from(s: Seq<char>, p: Seq<char>, r: Seq<char>, i: int) -> Seq<char>
    decreases s.len() - i,
{
    if i < 0 || i >= s.len() {
        Seq::empty()
    } else if p.len() > 0 && match_at(s, p, i) {
        r + replace_from(s, p, r, i + p.len())
    } else {
        seq![s[i]] + replace_from(s, p, r, i + 1)
    }
}

/// `s` with every occurrence of `p` replaced by `r`, scanning left to right
/// and never rescanning replaced text.
pub open spec fn replace_all(s: Seq<char>, p: Seq<char>, r: Seq<char>) -> Seq<char> {
    replace_from(s, p, r, 0)
}

/// Copy of `s[i..j]`.
pub fn copy_range(s: &Vec<char>, i: usize, j: usize) -> (out: Vec<char>)
    requires
        i <= j <= s@.len(),
    ensures
        out@ == s@.subrange(i as int, j as int),
{
    let mut out: Vec<char> = Vec::new();
    let mut k: usize = i;
    while k < j
        invariant
            i <= k <= j <= s@.len(),
            out@ == s@.subrange(i as int, k as int),
        decreases j - k,
    {
        out.push(s[k]);
        k += 1;
        assert(out@ =~= s@.subrange(i as int, k as int));
    }
    out
}

/// Copy of a whole vector of characters.
pub fn dup_chars(s: &Vec<char>) -> (out: Vec<char>)
    ensures
        out@ == s@,
{
    let out = copy_range(s, 0, s.len());
    assert(s@.subrange(0, s@.len() as int) =~= s@);
    out
}

pub fn replace_from_exec(s: &Vec<char>, p: &Vec<char>, r: &Vec<char>, i: usize) -> (out: Vec<
    char,
>)
    requires
        i <= s@.len(),
    ensures
        out@ == replace_from(s@, p@, r@, i as int),
    decreases s@.len() - i,
{
    if i >= s.len() {
        let out: Vec<char> = Vec::new();
        assert(out@ =~= replace_from(s@, p@, r@, i as int));
        return out;
    }
    if p.len() > 0 && match_at_exec(s, p, i) {
        let mut out = dup_chars(r);
        let mut rest = replace_from_exec(s, p, r, i + p.len());
        out.append(&mut rest);
        assert(out@ =~= replace_from(s@, p@, r@, i as int));
        out
    } else {
        let mut out: Vec<char> = Vec::new();
        out.push(s[i]);
        let mut rest = replace_from_exec(s, p, r, i + 1);
        out.append(&mut rest);
        assert(out@ =~= replace_from(s@, p@, r@, i as int));
        out
    }
}

pub fn replace_all_exec(s: &Vec<char>, p: &Vec<char>, r: &Vec<char>) -> (out: Vec<char>)
    ensures
        out@ == replace_all(s@, p@, r@),
{
    replace_from_exec(s, p, r, 0)
}

/// The two vectors hold the same characters.
pub fn chars_eq(a: &Vec<char>, b: &Vec<char>) -> (r: bool)
    ensures
        r == (a@ == b@),
{
    if a.len() != b.len() {
        return false;
    }
    let mut k: usize = 0;
    while k < a.len()
        invariant
            a@.len() == b@.len(),
            k <= a@.len(),
            forall|t: int| 0 <= t < k ==> a@[t] == b@[t],
        decreases a@.len() - k,
    {
        if a[k] != b[k] {
            return false;
        }
        k += 1;
    }
    assert(a@ =~= b@);
    true
}

/// The characters of a string slice, in order.
pub fn chars_of(s: &str) -> (out: Vec<char>)
    ensures
        out@ == s@,
{
    let n = s.unicode_len();
    let mut out: Vec<char> = Vec::new();
    let mut i: usize = 0;
    while i < n
        invariant
            n == s@.len(),
            i <= n,
            out@ == s@.subrange(0, i as int),
        decreases n - i,
    {
        out.push(s.get_char(i));
        i += 1;
        assert(out@ =~= s@.subrange(0, i as int));
    }
    assert(s@.subrange(0, n as int) =~= s@);
    out
}

/// Index of the first character at or past `i` that is not whitespace.
pub open spec fn scan_ws(s: Seq<char>, i: int) -> int
    decreases s.len() - i,
{
    if 0 <= i < s.len() && is_space(s[i]) {
        scan_ws(s, i + 1)
    } else {
        i
    }
}

pub proof fn lemma_scan_ws(s: Seq<char>, i: int)
    requires
        0 <= i <= s.len(),
    ensures
        i <= scan_ws(s, i) <= s.len(),
        forall|k: int| i <= k < scan_ws(s, i) ==> is_space(s[k]),
        scan_ws(s, i) < s.len() ==> !is_space(s[scan_ws(s, i)]),
    decreases s.len() - i,
{
    if i < s.len() && is_space(s[i]) {
        lemma_scan_ws(s, i + 1);
    }
}

/// Index just past the last whitespace run that ends at `i`.
pub open spec fn scan_ws_back(s: Seq<char>, i: int) -> int
    decreases i,
{
    if 0 < i <= s.len() && is_space(s[i - 1]) {
        scan_ws_back(s, i - 1)
    } else {
        i
    }
}

pub proof fn lemma_scan_ws_back(s: Seq<char>, i: int)
    requires
        0 <= i <= s.len(),
    ensures
        0 <= scan_ws_back(s, i) <= i,
        forall|k: int| scan_ws_back(s, i) <= k < i ==> is_space(s[k]),
        scan_ws_back(s, i) > 0 ==> !is_space(s[scan_ws_back(s, i) - 1]),
    decreases i,
{
    if 0 < i && is_space(s[i - 1]) {
        lemma_scan_ws_back(s, i - 1);
    }
}

/// `s` with leading and trailing whitespace removed.
pub open spec fn trim_spec(s: Seq<char>) -> Seq<char> {
    if scan_ws(s, 0) == s.len() {
        Seq::empty()
    } else {
        s.subrange(scan_ws(s, 0), scan_ws_back(s, s.len() as int))
    }
}

pub fn trim(s: &Vec<char>) -> (out: Vec<char>)
    ensures
        out@ == trim_spec(s@),
{
    proof {
        lemma_scan_ws(s@, 0);
        lemma_scan_ws_back(s@, s@.len() as int);
    }
    let mut a: usize = 0;
    while a < s.len() && is_space_exec(s[a])
        invariant
            a <= s@.len(),
            scan_ws(s@, 0) == scan_ws(s@, a as int),
        decreases s@.len() - a,
    {
        a += 1;
    }
    assert(scan_ws(s@, a as int) == a as int);
    if a == s.len() {
        let out: Vec<char> = Vec::new();
        assert(out@ =~= trim_spec(s@));
        return out;
    }
    let mut b: usize = s.len();
    while b > 0 && is_space_exec(s[b - 1])
        invariant
            b <= s@.len(),
            scan_ws_back(s@, s@.len() as int) == scan_ws_back(s@, b as int),
        decreases b,
    {
        b -= 1;
    }
    assert(scan_ws_back(s@, b as int) == b as int);
    proof {
        if b < a {
            assert(is_space(s@[a as int]));
        }
    }
    copy_range(s, a, b)
}

/// Index just past the maximal run of non-whitespace starting at `i`.
pub open spec fn token_end(s: Seq<char>, i: int) -> int
    decreases s.len() - i,
{
    if 0 <= i < s.len() && !is_space(s[i]) {
        token_end(s, i + 1)
    } else {
        i
    }
}

pub proof fn lemma_token_end(s: Seq<char>, i: int)
    requires
        0 <= i <= s.len(),
    ensures
        i <= token_end(s, i) <= s.len(),
        forall|k: int| i <= k < token_end(s, i) ==> !is_space(s[k]),
        token_end(s, i) < s.len() ==> is_space(s[token_end(s, i)]),
        i < s.len() && !is_space(s[i]) ==> token_end(s, i) > i,
    decreases s.len() - i,
{
    if i < s.len() && !is_space(s[i]) {
        lemma_token_end(s, i + 1);
    }
}

/// The whitespace-separated tokens of `s` from position `i` on.
pub open spec fn split_ws_from(s: Seq<char>, i: int) -> Seq<Seq<char>>
    decreases s.len() - i,
    via split_ws_from_dec
{
    if !(0 <= i < s.len()) {
        Seq::empty()
    } else if is_space(s[i]) {
        split_ws_from(s, i + 1)
    } else {
        seq![s.subrange(i, token_end(s, i))] + split_ws_from(s, token_end(s, i))
    }
}

#[via_fn]
proof fn split_ws_from_dec(s: Seq<char>, i: int) {
    if 0 <= i < s.len() && !is_space(s[i]) {
        lemma_token_end(s, i);
    }
}

/// The whitespace-separated tokens of `s`.
pub open spec fn split_ws(s: Seq<char>) -> Seq<Seq<char>> {
    split_ws_from(s, 0)
}

/// The views of a sequence of character vectors.
pub open spec fn views(vs: Seq<Vec<char>>) -> Seq<Seq<char>> {
    vs.map_values(|v: Vec<char>| v@)
}

pub proof fn lemma_views_concat(a: Seq<Vec<char>>, b: Seq<Vec<char>>)
    ensures
        views(a + b) == views(a) + views(b),
{
    assert forall|j: int| 0 <= j < a.len() + b.len() implies views(a + b)[j] == (views(a) + views(
        b,
    ))[j] by {
        if j < a.len() {
            assert((a + b)[j] == a[j]);
        } else {
            assert((a + b)[j] == b[j - a.len()]);
        }
    }
    assert(views(a + b) =~= views(a) + views(b));
}

/// One of the texts equals `t`.
pub fn has_text_exec(v: &Vec<Vec<char>>, t: &Vec<char>) -> (r: bool)
    ensures
        r == views(v@).contains(t@),
{
    let mut k: usize = 0;
    while k < v.len()
        invariant
            k <= v@.len(),
            forall|j: int| 0 <= j < k ==> views(v@)[j] != t@,
        decreases v@.len() - k,
    {
        if chars_eq(&v[k], t) {
            assert(views(v@)[k as int] == t@);
            return true;
        }
        k += 1;
    }
    assert forall|j: int| 0 <= j < views(v@).len() implies views(v@)[j] != t@ by {}
    false
}

pub proof fn lemma_views_push(a: Seq<Vec<char>>, v: Vec<char>)
    ensures
        views(a.push(v)) == views(a).push(v@),
{
    assert forall|j: int| 0 <= j < a.len() + 1 implies views(a.push(v))[j] == views(a).push(
        v@,
    )[j] by {
        if j < a.len() {
            assert(a.push(v)[j] == a[j]);
        } else {
            assert(a.push(v)[j] == v);
        }
    }
    assert(views(a.push(v)) =~= views(a).push(v@));
}

fn token_end_exec(s: &Vec<char>, i: usize) -> (e: usize)
    requires
        i <= s@.len(),
    ensures
        e as int == token_end(s@, i as int),
{
    let mut e: usize = i;
    while e < s.len() && !is_space_exec(s[e])
        invariant
            i <= e <= s@.len(),
            token_end(s@, i as int) == token_end(s@, e as int),
        decreases s@.len() - e,
    {
        e += 1;
    }
    assert(token_end(s@, e as int) == e as int);
    e
}

fn split_ws_from_exec(s: &Vec<char>, i: usize) -> (out: Vec<Vec<char>>)
    requires
        i <= s@.len(),
    ensures
        views(out@) == split_ws_from(s@, i as int),
    decreases s@.len() - i,
{
    if i >= s.len() {
        let out: Vec<Vec<char>> = Vec::new();
        assert(views(out@) =~= split_ws_from(s@, i as int));
        return out;
    }
    if is_space_exec(s[i]) {
        return split_ws_from_exec(s, i + 1);
    }
    let e = token_end_exec(s, i);
    proof {
        lemma_token_end(s@, i as int);
    }
    let tok = copy_range(s, i, e);
    let mut out: Vec<Vec<char>> = Vec::new();
    out.push(tok);
    let mut rest = split_ws_from_exec(s, e);
    out.append(&mut rest);
    assert(views(out@) =~= split_ws_from(s@, i as int));
    out
}

/// Split `s` on whitespace into its tokens.
pub fn split_ws_exec(s: &Vec<char>) -> (out: Vec<Vec<char>>)
    ensures
        views(out@) == split_ws(s@),
{
    split_ws_from_exec(s, 0)
}

/// The elements of `ds` from `i` on, joined by single spaces.
pub open spec fn join_from(ds: Seq<Seq<char>>, i: int) -> Seq<char>
    decreases ds.len() - i,
{
    if !(0 <= i < ds.len()) {
        Seq::empty()
    } else if i == ds.len() - 1 {
        ds[i]
    } else {
        ds[i] + seq![' '] + join_from(ds, i + 1)
    }
}

/// The elements of `ds` joined by single spaces.
pub open spec fn join_ws(ds: Seq<Seq<char>>) -> Seq<char> {
    join_from(ds, 0)
}

fn join_from_exec(ds: &Vec<Vec<char>>, i: usize) -> (out: Vec<char>)
    requires
        i <= ds@.len(),
    ensures
        out@ == join_from(views(ds@), i as int),
    decreases ds@.len() - i,
{
    if i >= ds.len() {
        let out: Vec<char> = Vec::new();
        assert(out@ =~= join_from(views(ds@), i as int));
        return out;
    }
    let mut out = dup_chars(&ds[i]);
    if i == ds.len() - 1 {
        assert(out@ =~= join_from(views(ds@), i as int));
        return out;
    }
    out.push(' ');
    let mut rest = join_from_exec(ds, i + 1);
    out.append(&mut rest);
    assert(out@ =~= join_from(views(ds@), i as int));
    out
}

/// Join tokens with single spaces.
pub fn join_ws_exec(ds: &Vec<Vec<char>>) -> (out: Vec<char>)
    ensures
        out@ == join_ws(views(ds@)),
{
    join_from_exec(ds, 0)
}

/// The elements of `ds` from `i` on, joined by `sep`.
pub open spec fn join_sep(ds: Seq<Seq<char>>, sep: Seq<char>, i: int) -> Seq<char>
    decreases ds.len() - i,
{
    if !(0 <= i < ds.len()) {
        Seq::empty()
    } else if i == ds.len() - 1 {
        ds[i]
    } else {
        ds[i] + sep + join_sep(ds, sep, i + 1)
    }
}

fn join_sep_from(ds: &Vec<Vec<char>>, sep: &Vec<char>, i: usize) -> (out: Vec<char>)
    requires
        i <= ds@.len(),
    ensures
        out@ == join_sep(views(ds@), sep@, i as int),
    decreases ds@.len() - i,
{
    if i >= ds.len() {
        let out: Vec<char> = Vec::new();
        assert(out@ =~= join_sep(views(ds@), sep@, i as int));
        return out;
    }
    let mut out = dup_chars(&ds[i]);
    if i == ds.len() - 1 {
        assert(out@ =~= join_sep(views(ds@), sep@, i as int));
        return out;
    }
    let mut s = dup_chars(sep);
    out.append(&mut s);
    let mut rest = join_sep_from(ds, sep, i + 1);
    out.append(&mut rest);
    assert(out@ =~= join_sep(views(ds@), sep@, i as int));
    out
}

/// Join tokens with a separator.
pub fn join_sep_exec(ds: &Vec<Vec<char>>, sep: &Vec<char>) -> (out: Vec<char>)
    ensures
        out@ == join_sep(views(ds@), sep@, 0),
{
    join_sep_from(ds, sep, 0)
}

/// Index of the first occurrence of `c` at or past `i`.
pub open spec fn find_char_from(s: Seq<char>, c: char, i: int) -> Option<int>
    decreases s.len() - i,
{
    if !(0 <= i < s.len()) {
        None
    } else if s[i] == c {
        Some(i)
    } else {
        find_char_from(s, c, i + 1)
    }
}

pub proof fn lemma_find_char(s: Seq<char>, c: char, i: int)
    requires
        0 <= i <= s.len(),
    ensures
        match find_char_from(s, c, i) {
            Some(j) => i <= j < s.len() && s[j] == c && forall|k: int| i <= k < j ==> s[k] != c,
            None => forall|k: int| i <= k < s.len() ==> s[k] != c,
        },
    decreases s.len() - i,
{
    if i < s.len() && s[i] != c {
        lemma_find_char(s, c, i + 1);
    }
}

pub fn find_char_from_exec(s: &Vec<char>, c: char, i: usize) -> (r: Option<usize>)
    requires
        i <= s@.len(),
    ensures
        match r {
            Some(j) => find_char_from(s@, c, i as int) == Some(j as int),
            None => find_char_from(s@, c, i as int) is None,
        },
{
    let mut k: usize = i;
    while k < s.len()
        invariant
            i <= k <= s@.len(),
            find_char_from(s@, c, i as int) == find_char_from(s@, c, k as int),
        decreases s@.len() - k,
    {
        if s[k] == c {
            return Some(k);
        }
        k += 1;
    }
    None
}

/// A decimal digit.
pub open spec fn is_digit(c: char) -> bool {
    '0' <= c && c <= '9'
}

pub open spec fn digit_val(c: char) -> int {
    c as int - '0' as int
}

pub open spec fn all_digits(s: Seq<char>) -> bool {
    forall|k: int| 0 <= k < s.len() ==> is_digit(s[k])
}

/// The number whose decimal digits are `s`.
pub open spec fn digits_val(s: Seq<char>) -> int
    decreases s.len(),
{
    if s.len() == 0 {
        0
    } else {
        digits_val(s.drop_last()) * 10 + digit_val(s.last())
    }
}

pub proof fn lemma_digits_val_bounds(s: Seq<char>)
    requires
        all_digits(s),
    ensures
        digits_val(s) >= 0,
        s.len() > 0 ==> digits_val(s) >= digits_val(s.drop_last()),
    decreases s.len(),
{
    if s.len() > 0 {
        assert(all_digits(s.drop_last()));
        lemma_digits_val_bounds(s.drop_last());
    }
}

/// The bracket content of an indexed-dependency token, read as a number:
/// a non-empty run of digits that fits in `usize`, and zero otherwise.
pub open spec fn parse_index(s: Seq<char>) -> int {
    if s.len() > 0 && all_digits(s) && digits_val(s) <= usize::MAX {
        digits_val(s)
    } else {
        0
    }
}

pub fn parse_index_exec(s: &Vec<char>) -> (r: usize)
    ensures
        r as int == parse_index(s@),
{
    if s.len() == 0 {
        return 0;
    }
    let mut acc: usize = 0;
    let mut k: usize = 0;
    while k < s.len()
        invariant
            k <= s@.len(),
            s@.len() > 0,
            all_digits(s@.subrange(0, k as int)),
            acc as int == digits_val(s@.subrange(0, k as int)),
        decreases s@.len() - k,
    {
        let c = s[k];
        if c < '0' || c > '9' {
            assert(!all_digits(s@));
            return 0;
        }
        let d: usize = (c as usize) - ('0' as usize);
        proof {
            assert(s@.subrange(0, k + 1).drop_last() =~= s@.subrange(0, k as int));
            assert(s@.subrange(0, k + 1).last() == s@[k as int]);
        }
        if acc > (usize::MAX - d) / 10 {
            // The prefix already exceeds the largest representable index,
            // and appending digits can only grow the value.
            proof {
                let pre = s@.subrange(0, k + 1);
                assert(digits_val(pre) == acc * 10 + d);
                assert(acc >= (usize::MAX - d) / 10 + 1);
                assert(acc * 10 + d > usize::MAX) by (nonlinear_arith)
                    requires
                        acc >= (usize::MAX - d) / 10 + 1,
                        d <= usize::MAX,
                        d >= 0,
                ;
                if all_digits(s@) {
                    lemma_digits_prefix_mono(s@, k + 1);
                }
            }
            return 0;
        }
        acc = acc * 10 + d;
        k += 1;
    }
    assert(s@.subrange(0, s@.len() as int) =~= s@);
    acc
}

/// For a string of digits, the value of a prefix never exceeds the whole.
pub proof fn lemma_digits_prefix_mono(s: Seq<char>, i: int)
    requires
        all_digits(s),
        0 <= i <= s.len(),
    ensures
        digits_val(s.subrange(0, i)) <= digits_val(s),
    decreases s.len() - i,
{
    if i == s.len() {
        assert(s.subrange(0, i) =~= s);
    }
    if i < s.len() {
        lemma_digits_prefix_mono(s, i + 1);
        let pre = s.subrange(0, i + 1);
        assert(pre.drop_last() =~= s.subrange(0, i));
        assert(all_digits(pre.drop_last()));
        lemma_digits_val_bounds(pre.drop_last());
        assert(digits_val(pre) == digits_val(pre.drop_last()) * 10 + digit_val(pre.last()));
        assert(digits_val(pre.drop_last()) * 10 >= digits_val(pre.drop_last())) by (nonlinear_arith)
            requires
                digits_val(pre.drop_last()) >= 0,
        ;
        assert(digit_val(pre.last()) >= 0);
    }
}

/// A character for one decimal digit.
pub open spec fn digit_chr(d: int) -> char {
    if d == 0 {
        '0'
    } else if d == 1 {
        '1'
    } else if d == 2 {
        '2'
    } else if d == 3 {
        '3'
    } else if d == 4 {
        '4'
    } else if d == 5 {
        '5'
    } else if d == 6 {
        '6'
    } else if d == 7 {
        '7'
    } else if d == 8 {
        '8'
    } else {
        '9'
    }
}

/// The decimal rendering of a non-negative number.
pub open spec fn dec_str(n: int) -> Seq<char>
    decreases n,
{
    if n < 10 {
        seq![digit_chr(n)]
    } else {
        dec_str(n / 10) + seq![digit_chr(n % 10)]
    }
}

fn digit_chr_exec(d: usize) -> (c: char)
    requires
        d <= 9,
    ensures
        c == digit_chr(d as int),
{
    match d {
        0 => '0',
        1 => '1',
        2 => '2',
        3 => '3',
        4 => '4',
        5 => '5',
        6 => '6',
        7 => '7',
        8 => '8',
        _ => '9',
    }
}

/// Render a number in decimal.
pub fn dec_str_exec(n: usize) -> (out: Vec<char>)
    ensures
        out@ == dec_str(n as int),
    decreases n,
{
    if n < 10 {
        let mut out: Vec<char> = Vec::new();
        out.push(digit_chr_exec(n));
        assert(out@ =~= dec_str(n as int));
        out
    } else {
        let mut out = dec_str_exec(n / 10);
        out.push(digit_chr_exec(n % 10));
        assert(out@ =~= dec_str(n as int));
        out
    }
}

} // verus!

