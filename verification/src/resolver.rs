//! Page-selection resolution.
//!
//! A user's page-selection expression is a comma-separated list of tokens;
//! each token is a single one-indexed page number or an inclusive `A-B`
//! range, with optional surrounding whitespace.  [`resolve`] validates the
//! expression against the document's page count and returns the selected
//! pages as a strictly ascending, duplicate-free, zero-indexed vector.
//!
//! The grammar and its validation rules are written out as specification
//! functions over character sequences ([`spec_resolve`]); the executable
//! resolver is proved to agree with them exactly, including which fault is
//! reported for an invalid expression (the leftmost offending token wins).

use crate::error::NotedError;
use vstd::prelude::*;

verus! {

/// A strictly ascending sequence (hence duplicate-free).
pub open spec fn strictly_increasing(s: Seq<u32>) -> bool {
    forall|i: int, j: int| 0 <= i < j < s.len() ==> s[i] < s[j]
}

/// A decimal digit.
pub open spec fn is_digit(c: char) -> bool {
    '0' <= c && c <= '9'
}

/// The numeric value of a digit.
pub open spec fn digit_val(c: char) -> int {
    c as int - '0' as int
}

/// Every character is a digit.
pub open spec fn all_digits(s: Seq<char>) -> bool {
    forall|i: int| 0 <= i < s.len() ==> is_digit(#[trigger] s[i])
}

/// The value of a digit string, most significant digit first.
pub open spec fn digits_val(s: Seq<char>) -> int
    decreases s.len(),
{
    if s.len() == 0 {
        0
    } else {
        digits_val(s.drop_last()) * 10 + digit_val(s.last())
    }
}

/// Whitespace tolerated around a numeric token: the Unicode white-space
/// characters, the set `str::trim` removes.
pub open spec fn is_space(c: char) -> bool {
    ||| c == '\u{9}' || c == '\u{a}' || c == '\u{b}' || c == '\u{c}' || c == '\u{d}'
    ||| c == ' ' || c == '\u{85}' || c == '\u{a0}' || c == '\u{1680}'
    ||| '\u{2000}' <= c && c <= '\u{200a}'
    ||| c == '\u{2028}' || c == '\u{2029}' || c == '\u{202f}' || c == '\u{205f}'
    ||| c == '\u{3000}'
}

/// The number of leading whitespace characters.
pub open spec fn leading_spaces(s: Seq<char>) -> int
    decreases s.len(),
{
    if s.len() > 0 && is_space(s[0]) {
        1 + leading_spaces(s.drop_first())
    } else {
        0
    }
}

/// The number of trailing whitespace characters.
pub open spec fn trailing_spaces(s: Seq<char>) -> int
    decreases s.len(),
{
    if s.len() > 0 && is_space(s.last()) {
        1 + trailing_spaces(s.drop_last())
    } else {
        0
    }
}

/// `s` with surrounding whitespace removed.
pub open spec fn trimmed(s: Seq<char>) -> Seq<char> {
    if leading_spaces(s) == s.len() {
        Seq::empty()
    } else {
        s.subrange(leading_spaces(s), s.len() - trailing_spaces(s))
    }
}

/// The index of the first occurrence of `c` in `s`, or `-1`.
pub open spec fn find_char(s: Seq<char>, c: char) -> int
    decreases s.len(),
{
    if s.len() == 0 {
        -1
    } else if s[0] == c {
        0
    } else {
        let r = find_char(s.drop_first(), c);
        if r < 0 {
            -1
        } else {
            r + 1
        }
    }
}

/// `s` split on `sep`; splitting the empty sequence yields one empty part.
pub open spec fn split_on(s: Seq<char>, sep: char) -> Seq<Seq<char>>
    decreases s.len(),
{
    let d = find_char(s, sep);
    if d < 0 || d >= s.len() {
        seq![s]
    } else {
        seq![s.take(d)] + split_on(s.skip(d + 1), sep)
    }
}

/// A numeric token: non-empty, all digits, and within `u32` range.
pub open spec fn numeric(s: Seq<char>) -> bool {
    s.len() > 0 && all_digits(s) && digits_val(s) <= u32::MAX
}

/// How an invalid selection expression fails.
pub enum SelectionFault {
    /// The token is not a positive integer or `A-B` range of integers.
    BadToken(Seq<char>),
    /// A page number `0`.
    ZeroPage,
    /// A range whose start exceeds its end.
    Inverted(u32, u32),
    /// The first requested page past the end of the document.
    PastEnd(u32),
}

/// The executable error reported for a specification-level fault.
pub open spec fn fault_matches(e: NotedError, f: SelectionFault, total: u32) -> bool {
    match f {
        SelectionFault::BadToken(t) => e matches NotedError::InvalidPageToken(x) && x@ == t,
        SelectionFault::ZeroPage => e matches NotedError::ZeroPage,
        SelectionFault::Inverted(a, b) => e matches NotedError::InvertedRange(x, y) && x == a && y
            == b,
        SelectionFault::PastEnd(p) => e matches NotedError::PageOutOfRange(x, t) && x == p && t
            == total,
    }
}

/// The zero-indexed pages denoted by a range token `A-B`, or its fault.
pub open spec fn range_token_set(t: Seq<char>, total: u32) -> Result<Set<u32>, SelectionFault> {
    let d = find_char(t, '-');
    let a = trimmed(t.take(d));
    let b = trimmed(t.skip(d + 1));
    if find_char(t.skip(d + 1), '-') >= 0 {
        Err(SelectionFault::BadToken(t))
    } else if !numeric(a) || !numeric(b) {
        Err(SelectionFault::BadToken(t))
    } else {
        let sv = digits_val(a) as u32;
        let ev = digits_val(b) as u32;
        if sv == 0 || ev == 0 {
            Err(SelectionFault::ZeroPage)
        } else if sv > ev {
            Err(SelectionFault::Inverted(sv, ev))
        } else if ev > total {
            Err(
                SelectionFault::PastEnd(
                    if sv > total {
                        sv
                    } else {
                        (total + 1) as u32
                    },
                ),
            )
        } else {
            Ok(Set::new(|p: u32| sv - 1 <= p <= ev - 1))
        }
    }
}

/// The zero-indexed page denoted by a single-number token, or its fault.
pub open spec fn single_token_set(t: Seq<char>, total: u32) -> Result<Set<u32>, SelectionFault> {
    let a = trimmed(t);
    if !numeric(a) {
        Err(SelectionFault::BadToken(t))
    } else {
        let v = digits_val(a) as u32;
        if v == 0 {
            Err(SelectionFault::ZeroPage)
        } else if v > total {
            Err(SelectionFault::PastEnd(v))
        } else {
            Ok(Set::new(|p: u32| p == v - 1))
        }
    }
}

/// The zero-indexed pages denoted by one token, or its fault.
pub open spec fn token_set(t: Seq<char>, total: u32) -> Result<Set<u32>, SelectionFault> {
    if find_char(t, '-') >= 0 {
        range_token_set(t, total)
    } else {
        single_token_set(t, total)
    }
}

/// The pages denoted by a token list: the union of the tokens' pages,
/// unless some token is at fault, in which case the leftmost fault wins.
pub open spec fn resolve_parts(parts: Seq<Seq<char>>, total: u32) -> Result<
    Set<u32>,
    SelectionFault,
>
    decreases parts.len(),
{
    if parts.len() == 0 {
        Ok(Set::empty())
    } else {
        match token_set(parts[0], total) {
            Err(f) => Err(f),
            Ok(s) => match resolve_parts(parts.drop_first(), total) {
                Err(f) => Err(f),
                Ok(rest) => Ok(s.union(rest)),
            },
        }
    }
}

/// What a selection expression denotes against a page count: the set of
/// selected zero-indexed pages, or the leftmost fault.
pub open spec fn spec_resolve(expr: Seq<char>, total: u32) -> Result<Set<u32>, SelectionFault> {
    resolve_parts(split_on(expr, ','), total)
}

proof fn lemma_find_char_present(s: Seq<char>, c: char, i: int)
    requires
        0 <= i < s.len(),
        s[i] == c,
        forall|j: int| 0 <= j < i ==> s[j] != c,
    ensures
        find_char(s, c) == i,
    decreases s.len(),
{
    if i > 0 {
        assert(s.drop_first()[i - 1] == c);
        lemma_find_char_present(s.drop_first(), c, i - 1);
    }
}

proof fn lemma_find_char_absent(s: Seq<char>, c: char)
    requires
        forall|j: int| 0 <= j < s.len() ==> s[j] != c,
    ensures
        find_char(s, c) == -1,
    decreases s.len(),
{
    if s.len() > 0 {
        lemma_find_char_absent(s.drop_first(), c);
    }
}

proof fn lemma_leading_spaces_at(s: Seq<char>, k: int)
    requires
        0 <= k <= s.len(),
        forall|j: int| 0 <= j < k ==> is_space(#[trigger] s[j]),
        k < s.len() ==> !is_space(s[k]),
    ensures
        leading_spaces(s) == k,
    decreases s.len(),
{
    if k == 0 {
    } else {
        assert(forall|j: int| 0 <= j < k - 1 ==> is_space(#[trigger] s.drop_first()[j]));
        lemma_leading_spaces_at(s.drop_first(), k - 1);
    }
}

proof fn lemma_trailing_spaces_at(s: Seq<char>, k: int)
    requires
        0 <= k <= s.len(),
        forall|j: int| s.len() - k <= j < s.len() ==> is_space(#[trigger] s[j]),
        k < s.len() ==> !is_space(s[s.len() - k - 1]),
    ensures
        trailing_spaces(s) == k,
    decreases s.len(),
{
    if k == 0 {
    } else {
        assert(is_space(s.last()));
        assert(forall|j: int|
            s.drop_last().len() - (k - 1) <= j < s.drop_last().len() ==> is_space(
                #[trigger] s.drop_last()[j],
            ));
        lemma_trailing_spaces_at(s.drop_last(), k - 1);
    }
}

/// `digits_val` only grows as a digit string is extended to the right.
proof fn lemma_digits_val_grows(s: Seq<char>, k: int)
    requires
        all_digits(s),
        0 <= k <= s.len(),
    ensures
        0 <= digits_val(s.take(k)) <= digits_val(s),
    decreases s.len() - k,
{
    if k == s.len() {
        assert(s.take(k) =~= s);
        lemma_digits_val_nonneg(s);
    } else {
        lemma_digits_val_grows(s, k + 1);
        assert(s.take(k + 1).drop_last() =~= s.take(k));
        assert(digits_val(s.take(k + 1)) == digits_val(s.take(k)) * 10 + digit_val(s[k]));
        lemma_digits_val_nonneg(s.take(k));
        assert(is_digit(s[k]));
    }
}

proof fn lemma_digits_val_nonneg(s: Seq<char>)
    requires
        all_digits(s),
    ensures
        digits_val(s) >= 0,
    decreases s.len(),
{
    if s.len() > 0 {
        assert(all_digits(s.drop_last()));
        lemma_digits_val_nonneg(s.drop_last());
        assert(is_digit(s.last()));
    }
}

/// Whether `c` is tolerated whitespace.
fn ch_is_space(c: char) -> (r: bool)
    ensures
        r == is_space(c),
{
    c == '\u{9}' || c == '\u{a}' || c == '\u{b}' || c == '\u{c}' || c == '\u{d}' || c == ' '
        || c == '\u{85}' || c == '\u{a0}' || c == '\u{1680}' || ('\u{2000}' <= c && c
        <= '\u{200a}') || c == '\u{2028}' || c == '\u{2029}' || c == '\u{202f}' || c == '\u{205f}'
        || c == '\u{3000}'
}

/// The first occurrence of `c` in `s[lo..hi)`, or none.
fn find_in(s: &str, lo: usize, hi: usize, c: char) -> (r: Option<usize>)
    requires
        lo <= hi <= s@.len(),
    ensures
        match r {
            Some(k) => {
                &&& lo <= k < hi
                &&& s@[k as int] == c
                &&& find_char(s@.subrange(lo as int, hi as int), c) == k - lo
            },
            None => find_char(s@.subrange(lo as int, hi as int), c) == -1,
        },
{
    let mut i: usize = lo;
    while i < hi
        invariant
            lo <= i <= hi <= s@.len(),
            forall|j: int| lo <= j < i ==> s@[j] != c,
        decreases hi - i,
    {
        if s.get_char(i) == c {
            proof {
                let w = s@.subrange(lo as int, hi as int);
                assert(w[i - lo] == c);
                assert(forall|j: int| 0 <= j < i - lo ==> w[j] != c);
                lemma_find_char_present(w, c, i - lo);
            }
            return Some(i);
        }
        i += 1;
    }
    proof {
        let w = s@.subrange(lo as int, hi as int);
        assert(forall|j: int| 0 <= j < w.len() ==> w[j] != c);
        lemma_find_char_absent(w, c);
    }
    None
}

/// Narrow `s[lo..hi)` to its whitespace-trimmed core.
fn trim_in(s: &str, lo: usize, hi: usize) -> (r: (usize, usize))
    requires
        lo <= hi <= s@.len(),
    ensures
        lo <= r.0 <= r.1 <= hi,
        s@.subrange(r.0 as int, r.1 as int) == trimmed(s@.subrange(lo as int, hi as int)),
{
    let ghost w = s@.subrange(lo as int, hi as int);
    let mut a: usize = lo;
    while a < hi
        invariant
            lo <= a <= hi <= s@.len(),
            forall|j: int| lo <= j < a ==> is_space(#[trigger] s@[j]),
        ensures
            lo <= a <= hi,
            forall|j: int| lo <= j < a ==> is_space(#[trigger] s@[j]),
            a < hi ==> !is_space(s@[a as int]),
        decreases hi - a,
    {
        if !ch_is_space(s.get_char(a)) {
            break ;
        }
        a += 1;
    }
    if a == hi {
        proof {
            assert(forall|j: int| 0 <= j < w.len() ==> is_space(#[trigger] w[j]));
            lemma_leading_spaces_at(w, w.len() as int);
            assert(trimmed(w) =~= s@.subrange(hi as int, hi as int));
        }
        return (hi, hi);
    }
    let mut b: usize = hi;
    while b > a
        invariant
            a <= b <= hi <= s@.len(),
            forall|j: int| b <= j < hi ==> is_space(#[trigger] s@[j]),
        ensures
            a <= b <= hi,
            forall|j: int| b <= j < hi ==> is_space(#[trigger] s@[j]),
            b > a ==> !is_space(s@[b - 1]),
        decreases b,
    {
        if !ch_is_space(s.get_char(b - 1)) {
            break ;
        }
        b -= 1;
    }
    proof {
        assert(!is_space(s@[a as int]));
        assert(b > a) by {
            if b == a {
                assert(is_space(s@[a as int]));
            }
        }
        assert(forall|j: int| 0 <= j < a - lo ==> is_space(#[trigger] w[j]));
        assert(w[a - lo] == s@[a as int]);
        lemma_leading_spaces_at(w, a - lo);
        assert(forall|j: int| w.len() - (hi - b) <= j < w.len() ==> is_space(#[trigger] w[j]));
        assert(w[w.len() - (hi - b) - 1] == s@[b - 1]);
        lemma_trailing_spaces_at(w, hi - b);
        assert(s@.subrange(a as int, b as int) =~= w.subrange(a - lo, w.len() - (hi - b)));
    }
    (a, b)
}

/// Parse the digit string `s[lo..hi)` as a `u32`.
fn parse_page_number(s: &str, lo: usize, hi: usize) -> (r: Option<u32>)
    requires
        lo <= hi <= s@.len(),
    ensures
        ({
            let t = s@.subrange(lo as int, hi as int);
            match r {
                Some(v) => numeric(t) && v == digits_val(t),
                None => !numeric(t),
            }
        }),
{
    let ghost t = s@.subrange(lo as int, hi as int);
    if lo == hi {
        return None;
    }
    let mut acc: u32 = 0;
    let mut i: usize = lo;
    while i < hi
        invariant
            lo <= i <= hi <= s@.len(),
            t == s@.subrange(lo as int, hi as int),
            all_digits(t.take(i - lo)),
            acc == digits_val(t.take(i - lo)),
        decreases hi - i,
    {
        let c = s.get_char(i);
        proof {
            assert(t[i - lo] == c);
            assert(t.take(i - lo + 1).drop_last() =~= t.take(i - lo));
        }
        if !('0' <= c && c <= '9') {
            proof {
                assert(!is_digit(t[i - lo]));
            }
            return None;
        }
        let d: u32 = (c as u32) - ('0' as u32);
        proof {
            assert(digit_val(c) == d);
            assert(digits_val(t.take(i - lo + 1)) == acc * 10 + d);
        }
        if acc > (u32::MAX - d) / 10 {
            proof {
                assert(acc * 10 + d > u32::MAX) by (nonlinear_arith)
                    requires
                        acc > (u32::MAX - d) / 10 && d <= 9,
                ;
                if numeric(t) {
                    lemma_digits_val_grows(t, i - lo + 1);
                }
            }
            return None;
        }
        proof {
            assert(acc * 10 + d <= u32::MAX) by (nonlinear_arith)
                requires
                    acc <= (u32::MAX - d) / 10 && d <= 9,
            ;
        }
        acc = acc * 10 + d;
        i += 1;
    }
    proof {
        assert(t.take(hi - lo) =~= t);
    }
    Some(acc)
}

/// Insert a page index into a strictly ascending vector, keeping it
/// strictly ascending; inserting a present index is a no-op.
fn insert_page(acc: &mut Vec<u32>, p: u32)
    requires
        strictly_increasing(old(acc)@),
    ensures
        strictly_increasing(final (acc)@),
        forall|x: u32| #[trigger] final (acc)@.contains(x) <==> old(acc)@.contains(x) || x == p,
{
    let n = acc.len();
    let mut i: usize = 0;
    while i < n
        invariant
            i <= n,
            n == acc@.len(),
            acc@ == old(acc)@,
            forall|j: int| 0 <= j < i ==> acc@[j] < p,
        ensures
            i <= n,
            n == acc@.len(),
            acc@ == old(acc)@,
            forall|j: int| 0 <= j < i ==> acc@[j] < p,
            i < n ==> acc@[i as int] >= p,
        decreases n - i,
    {
        if acc[i] >= p {
            break ;
        }
        i += 1;
    }
    if i < n && acc[i] == p {
        proof {
            assert(acc@.contains(p));
        }
        return ;
    }
    let ghost s0 = acc@;
    acc.insert(i, p);
    proof {
        s0.insert_ensures(i as int, p);
        assert forall|k: int, l: int| 0 <= k < l < acc@.len() implies acc@[k] < acc@[l] by {
            if l < i {
                assert(acc@[k] == s0[k] && acc@[l] == s0[l]);
            } else if k > i {
                assert(acc@[k] == s0[k - 1] && acc@[l] == s0[l - 1]);
            } else if k == i {
                assert(acc@[k] == p && acc@[l] == s0[l - 1]);
                assert(s0[i as int] > p);
                assert(l - 1 == i || s0[l - 1] > s0[i as int]);
            } else if l == i {
                assert(acc@[k] == s0[k] && acc@[l] == p);
            } else {
                assert(acc@[k] == s0[k] && acc@[l] == s0[l - 1]);
                assert(k < i <= l - 1);
                assert(s0[k] < s0[l - 1]);
            }
        }
        assert forall|x: u32| #[trigger] acc@.contains(x) implies s0.contains(x) || x == p by {
            let w = choose|w: int| 0 <= w < acc@.len() && acc@[w] == x;
            if w < i {
                assert(s0[w] == x);
            } else if w > i {
                assert(s0[w - 1] == x);
            }
        }
        assert forall|x: u32| s0.contains(x) || x == p implies #[trigger] acc@.contains(x) by {
            if x == p {
                assert(acc@[i as int] == p);
            } else {
                let w = choose|w: int| 0 <= w < s0.len() && s0[w] == x;
                if w < i {
                    assert(acc@[w] == x);
                } else {
                    assert(acc@[w + 1] == x);
                }
            }
        }
    }
}

/// Handle one token of the expression: extend `acc` with its pages, or
/// report its fault.  `acc` is untouched when the token is at fault.
fn resolve_token(s: &str, lo: usize, hi: usize, total_pages: u32, acc: &mut Vec<u32>) -> (r:
    Result<(), NotedError>)
    requires
        lo <= hi <= s@.len(),
        strictly_increasing(old(acc)@),
        forall|j: int| 0 <= j < old(acc)@.len() ==> old(acc)@[j] < total_pages,
    ensures
        ({
            let t = s@.subrange(lo as int, hi as int);
            match r {
                Ok(()) => {
                    &&& token_set(t, total_pages) matches Ok(ts)
                    &&& strictly_increasing(final (acc)@)
                    &&& forall|j: int|
                        0 <= j < final (acc)@.len() ==> final (acc)@[j] < total_pages
                    &&& forall|x: u32|
                        #[trigger] final (acc)@.contains(x) <==> old(acc)@.contains(x)
                            || ts.contains(x)
                },
                Err(e) => {
                    &&& token_set(t, total_pages) matches Err(f)
                    &&& fault_matches(e, f, total_pages)
                    &&& final (acc)@ == old(acc)@
                },
            }
        }),
{
    let ghost t = s@.subrange(lo as int, hi as int);
    let dash = find_in(s, lo, hi, '-');
    match dash {
        None => {
            let (a_lo, a_hi) = trim_in(s, lo, hi);
            match parse_page_number(s, a_lo, a_hi) {
                None => Err(NotedError::InvalidPageToken(s.substring_char(lo, hi).to_owned())),
                Some(v) => {
                    if v == 0 {
                        Err(NotedError::ZeroPage)
                    } else if v > total_pages {
                        Err(NotedError::PageOutOfRange(v, total_pages))
                    } else {
                        proof {
                            assert(trimmed(t) == s@.subrange(a_lo as int, a_hi as int));
                            assert(single_token_set(t, total_pages) == Ok::<
                                Set<u32>,
                                SelectionFault,
                            >(Set::new(|p: u32| p == v - 1)));
                        }
                        insert_page(acc, v - 1);
                        proof {
                            let ts = single_token_set(t, total_pages)->Ok_0;
                            assert(forall|x: u32| ts.contains(x) <==> x == v - 1);
                            assert forall|j: int| 0 <= j < acc@.len() implies acc@[j]
                                < total_pages by {
                                assert(acc@.contains(acc@[j]));
                            }
                        }
                        Ok(())
                    }
                },
            }
        },
        Some(d) => {
            proof {
                assert(t.skip(d - lo + 1) =~= s@.subrange(d + 1, hi as int));
                assert(t.take(d - lo) =~= s@.subrange(lo as int, d as int));
            }
            let dash2 = find_in(s, d + 1, hi, '-');
            if let Some(_) = dash2 {
                return Err(NotedError::InvalidPageToken(s.substring_char(lo, hi).to_owned()));
            }
            let (a_lo, a_hi) = trim_in(s, lo, d);
            let (b_lo, b_hi) = trim_in(s, d + 1, hi);
            let sv = match parse_page_number(s, a_lo, a_hi) {
                Some(v) => v,
                None => {
                    return Err(NotedError::InvalidPageToken(s.substring_char(lo, hi).to_owned()));
                },
            };
            let ev = match parse_page_number(s, b_lo, b_hi) {
                Some(v) => v,
                None => {
                    return Err(NotedError::InvalidPageToken(s.substring_char(lo, hi).to_owned()));
                },
            };
            if sv == 0 || ev == 0 {
                return Err(NotedError::ZeroPage);
            }
            if sv > ev {
                return Err(NotedError::InvertedRange(sv, ev));
            }
            if ev > total_pages {
                let first_past = if sv > total_pages {
                    sv
                } else {
                    total_pages + 1
                };
                return Err(NotedError::PageOutOfRange(first_past, total_pages));
            }
            proof {
                assert(trimmed(t.take(d - lo)) == s@.subrange(a_lo as int, a_hi as int));
                assert(trimmed(t.skip(d - lo + 1)) == s@.subrange(b_lo as int, b_hi as int));
                assert(range_token_set(t, total_pages) == Ok::<Set<u32>, SelectionFault>(
                    Set::new(|p: u32| sv - 1 <= p <= ev - 1),
                ));
            }
            let ghost ts = range_token_set(t, total_pages)->Ok_0;
            proof {
                assert(forall|x: u32| ts.contains(x) <==> sv - 1 <= x <= ev - 1);
            }
            let ghost acc0 = acc@;
            let mut q: u32 = sv - 1;
            while q <= ev - 1
                invariant
                    1 <= sv <= ev <= total_pages,
                    sv - 1 <= q <= ev,
                    strictly_increasing(acc@),
                    forall|j: int| 0 <= j < acc@.len() ==> acc@[j] < total_pages,
                    forall|x: u32|
                        #[trigger] acc@.contains(x) <==> acc0.contains(x) || (sv - 1 <= x < q),
                decreases ev - q,
            {
                insert_page(acc, q);
                proof {
                    assert forall|j: int| 0 <= j < acc@.len() implies acc@[j] < total_pages by {
                        assert(acc@.contains(acc@[j]));
                    }
                }
                q += 1;
            }
            Ok(())
        },
    }
}

/// Resolve a page-selection expression against a page count.
///
/// On success the result is the strictly ascending, duplicate-free vector
/// of the selected zero-indexed pages, each below `total_pages`; otherwise
/// the error names the leftmost offending token exactly as
/// [`spec_resolve`] classifies it.
pub fn resolve(page_selection: &str, total_pages: u32) -> (r: Result<Vec<u32>, NotedError>)
    ensures
        match r {
            Ok(v) => {
                &&& spec_resolve(page_selection@, total_pages) matches Ok(s)
                &&& strictly_increasing(v@)
                &&& forall|x: u32| #[trigger] v@.contains(x) <==> s.contains(x)
                &&& forall|i: int| 0 <= i < v@.len() ==> v@[i] < total_pages
            },
            Err(e) => {
                &&& spec_resolve(page_selection@, total_pages) matches Err(f)
                &&& fault_matches(e, f, total_pages)
            },
        },
{
    let n = page_selection.unicode_len();
    let mut acc: Vec<u32> = Vec::new();
    let mut cur: usize = 0;
    proof {
        assert(page_selection@.skip(0) =~= page_selection@);
    }
    loop
        invariant
            cur <= n,
            n == page_selection@.len(),
            strictly_increasing(acc@),
            forall|j: int| 0 <= j < acc@.len() ==> acc@[j] < total_pages,
            match resolve_parts(split_on(page_selection@.skip(cur as int), ','), total_pages) {
                Ok(rest) => spec_resolve(page_selection@, total_pages) matches Ok(s) && (forall|
                    x: u32,
                |
                    (acc@.contains(x) || rest.contains(x)) <==> s.contains(x)),
                Err(f) => spec_resolve(page_selection@, total_pages) == Err::<
                    Set<u32>,
                    SelectionFault,
                >(f),
            },
        decreases n - cur,
    {
        let ghost suffix = page_selection@.skip(cur as int);
        let comma = find_in(page_selection, cur, n, ',');
        let tok_hi = match comma {
            Some(k) => k,
            None => n,
        };
        proof {
            let d = find_char(suffix, ',');
            if comma is Some {
                let k = comma->0;
                assert(d == k - cur);
                assert(0 <= d < suffix.len());
                assert(suffix.take(d) =~= page_selection@.subrange(cur as int, k as int));
                assert(suffix.skip(d + 1) =~= page_selection@.skip(k + 1 as int));
                assert(split_on(suffix, ',') == seq![suffix.take(d)] + split_on(
                    suffix.skip(d + 1),
                    ',',
                ));
            } else {
                assert(d == -1);
                assert(split_on(suffix, ',') == seq![suffix]);
                assert(suffix =~= page_selection@.subrange(cur as int, n as int));
            }
            let parts = split_on(suffix, ',');
            assert(parts[0] == page_selection@.subrange(cur as int, tok_hi as int));
            assert(parts.drop_first() =~= if comma is Some {
                split_on(page_selection@.skip(comma->0 + 1 as int), ',')
            } else {
                Seq::<Seq<char>>::empty()
            });
        }
        let ghost acc_before = acc@;
        match resolve_token(page_selection, cur, tok_hi, total_pages, &mut acc) {
            Err(e) => {
                proof {
                    let parts = split_on(suffix, ',');
                    let t = parts[0];
                    let f = token_set(t, total_pages)->Err_0;
                    assert(resolve_parts(parts, total_pages) == Err::<Set<u32>, SelectionFault>(
                        f,
                    ));
                }
                return Err(e);
            },
            Ok(()) => {
                proof {
                    let parts = split_on(suffix, ',');
                    let t = parts[0];
                    let ts = token_set(t, total_pages)->Ok_0;
                    if comma is None {
                        assert(resolve_parts(parts.drop_first(), total_pages) == Ok::<
                            Set<u32>,
                            SelectionFault,
                        >(Set::empty()));
                        assert(resolve_parts(parts, total_pages) == Ok::<
                            Set<u32>,
                            SelectionFault,
                        >(ts.union(Set::empty())));
                        let s = spec_resolve(page_selection@, total_pages)->Ok_0;
                        assert(forall|x: u32| #[trigger]
                            acc@.contains(x) <==> (acc_before.contains(x) || ts.contains(x)));
                        assert(forall|x: u32| ts.union(Set::empty()).contains(x) <==> ts.contains(
                            x,
                        ));
                        assert(forall|x: u32| #[trigger] acc@.contains(x) <==> s.contains(x));
                    }
                }
                match comma {
                    Some(k) => {
                        proof {
                            let parts = split_on(suffix, ',');
                            let t = parts[0];
                            let ts = token_set(t, total_pages)->Ok_0;
                            let next = split_on(page_selection@.skip(k + 1 as int), ',');
                            assert(next =~= parts.drop_first());
                            match resolve_parts(next, total_pages) {
                                Ok(rest2) => {
                                    assert(resolve_parts(parts, total_pages) == Ok::<
                                        Set<u32>,
                                        SelectionFault,
                                    >(ts.union(rest2)));
                                    assert(forall|x: u32|
                                        (acc@.contains(x) || rest2.contains(x)) <==> (
                                        acc_before.contains(x) || ts.union(rest2).contains(x)));
                                },
                                Err(_) => {},
                            }
                        }
                        cur = k + 1;
                    },
                    None => {
                        return Ok(acc);
                    },
                }
            },
        }
    }
}

proof fn lemma_digit_not_special(c: char)
    requires
        is_digit(c),
    ensures
        c != ',' && c != '-' && !is_space(c),
{
}

/// Law: the selection `"0"` is rejected for every page count; page numbers
/// are one-indexed at the boundary.
pub proof fn lemma_resolve_rejects_zero(total: u32)
    ensures
        spec_resolve("0"@, total) is Err,
{
    reveal_strlit("0");
    let e = "0"@;
    assert(e.len() == 1 && e[0] == '0');
    assert(find_char(e.drop_first(), ',') == -1);
    assert(find_char(e, ',') == -1);
    assert(split_on(e, ',') == seq![e]);
    assert(find_char(e.drop_first(), '-') == -1);
    assert(find_char(e, '-') == -1);
    lemma_leading_spaces_at(e, 0);
    lemma_trailing_spaces_at(e, 0);
    assert(trimmed(e) =~= e);
    assert(all_digits(e));
    assert(e.drop_last().len() == 0);
    assert(digits_val(e.drop_last()) == 0);
    assert(digits_val(e) == 0);
    assert(numeric(e));
    assert(single_token_set(e, total) == Err::<Set<u32>, SelectionFault>(
        SelectionFault::ZeroPage,
    ));
    let parts = seq![e];
    assert(parts[0] == e);
    assert(resolve_parts(parts, total) is Err);
}

/// Law: an inverted range `B-A` whose start exceeds its end is rejected for
/// every page count, whatever digit strings spell the two numbers.
pub proof fn lemma_resolve_rejects_inverted(b: Seq<char>, a: Seq<char>, total: u32)
    requires
        numeric(a),
        numeric(b),
        digits_val(b) > digits_val(a),
    ensures
        spec_resolve(b + seq!['-'] + a, total) is Err,
{
    let e = b + seq!['-'] + a;
    let bl = b.len() as int;
    assert(e[bl] == '-');
    assert forall|j: int| 0 <= j < e.len() implies e[j] != ',' by {
        if j < bl {
            assert(e[j] == b[j]);
            lemma_digit_not_special(b[j]);
        } else if j > bl {
            assert(e[j] == a[j - bl - 1]);
            lemma_digit_not_special(a[j - bl - 1]);
        }
    }
    lemma_find_char_absent(e, ',');
    assert(split_on(e, ',') == seq![e]);
    assert forall|j: int| 0 <= j < bl implies e[j] != '-' by {
        assert(e[j] == b[j]);
        lemma_digit_not_special(b[j]);
    }
    lemma_find_char_present(e, '-', bl);
    assert(e.take(bl) =~= b);
    assert(e.skip(bl + 1) =~= a);
    assert forall|j: int| 0 <= j < a.len() implies a[j] != '-' by {
        lemma_digit_not_special(a[j]);
    }
    lemma_find_char_absent(a, '-');
    assert(!is_space(b[0])) by {
        lemma_digit_not_special(b[0]);
    }
    assert(!is_space(b[b.len() - 1])) by {
        lemma_digit_not_special(b[b.len() - 1]);
    }
    lemma_leading_spaces_at(b, 0);
    lemma_trailing_spaces_at(b, 0);
    assert(trimmed(b) =~= b);
    assert(!is_space(a[0])) by {
        lemma_digit_not_special(a[0]);
    }
    assert(!is_space(a[a.len() - 1])) by {
        lemma_digit_not_special(a[a.len() - 1]);
    }
    lemma_leading_spaces_at(a, 0);
    lemma_trailing_spaces_at(a, 0);
    assert(trimmed(a) =~= a);
    lemma_digits_val_nonneg(a);
    assert(range_token_set(e, total) is Err);
    assert(token_set(e, total) is Err);
    let parts = seq![e];
    assert(parts[0] == e);
    assert(resolve_parts(parts, total) is Err);
}

} // verus!
