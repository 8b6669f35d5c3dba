//! Small executable string helpers shared across the crate.

use vstd::prelude::*;

verus! {

/// Character-by-character string equality.
pub fn str_eq(a: &str, b: &str) -> (r: bool)
    ensures
        r == (a@ == b@),
{
    let n = a.unicode_len();
    let m = b.unicode_len();
    if n != m {
        return false;
    }
    let mut i: usize = 0;
    while i < n
        invariant
            i <= n,
            n == a@.len(),
            n == b@.len(),
            forall|j: int| 0 <= j < i ==> a@[j] == b@[j],
        decreases n - i,
    {
        if a.get_char(i) != b.get_char(i) {
            return false;
        }
        i += 1;
    }
    proof {
        assert(a@ =~= b@);
    }
    true
}

/// `s` with every leading copy of `p` removed.
pub open spec fn strip_prefix_all(s: Seq<char>, p: Seq<char>) -> Seq<char>
    decreases s.len(),
{
    if p.len() > 0 && s.len() >= p.len() && s.take(p.len() as int) == p {
        strip_prefix_all(s.skip(p.len() as int), p)
    } else {
        s
    }
}

/// `s` with every trailing copy of `p` removed.
pub open spec fn strip_suffix_all(s: Seq<char>, p: Seq<char>) -> Seq<char>
    decreases s.len(),
{
    if p.len() > 0 && s.len() >= p.len() && s.skip(s.len() - p.len()) == p {
        strip_suffix_all(s.take(s.len() - p.len()), p)
    } else {
        s
    }
}

/// A backend response with its code-fence wrapper removed: leading
/// ```` ```markdown ```` fence lines and trailing ```` ``` ```` fences.
pub open spec fn cleaned_markdown(s: Seq<char>) -> Seq<char> {
    strip_suffix_all(strip_prefix_all(s, "```markdown\n"@), "```"@)
}

/// Whether `s[lo..hi)` begins with `pat`.
fn window_has_prefix(s: &str, lo: usize, hi: usize, pat: &str) -> (r: bool)
    requires
        lo <= hi <= s@.len(),
    ensures
        r == (hi - lo >= pat@.len() && s@.subrange(lo as int, hi as int).take(pat@.len() as int)
            == pat@),
{
    let m = pat.unicode_len();
    if hi - lo < m {
        return false;
    }
    let ghost w = s@.subrange(lo as int, hi as int);
    let mut k: usize = 0;
    while k < m
        invariant
            k <= m,
            m == pat@.len(),
            lo + m <= hi <= s@.len(),
            w == s@.subrange(lo as int, hi as int),
            forall|j: int| 0 <= j < k ==> s@[lo + j] == pat@[j],
        decreases m - k,
    {
        if s.get_char(lo + k) != pat.get_char(k) {
            proof {
                assert(w.take(m as int)[k as int] == s@[lo + k]);
            }
            return false;
        }
        k += 1;
    }
    proof {
        assert(w.take(m as int) =~= pat@);
    }
    true
}

/// Whether `s[lo..hi)` ends with `pat`.
fn window_has_suffix(s: &str, lo: usize, hi: usize, pat: &str) -> (r: bool)
    requires
        lo <= hi <= s@.len(),
    ensures
        ({
            let w = s@.subrange(lo as int, hi as int);
            r == (hi - lo >= pat@.len() && w.skip(w.len() - pat@.len()) == pat@)
        }),
{
    let m = pat.unicode_len();
    if hi - lo < m {
        return false;
    }
    let base = hi - m;
    let ghost w = s@.subrange(lo as int, hi as int);
    let mut k: usize = 0;
    while k < m
        invariant
            k <= m,
            m == pat@.len(),
            lo <= base,
            base + m == hi <= s@.len(),
            w == s@.subrange(lo as int, hi as int),
            forall|j: int| 0 <= j < k ==> s@[base + j] == pat@[j],
        decreases m - k,
    {
        if s.get_char(base + k) != pat.get_char(k) {
            proof {
                assert(w.skip(w.len() - m)[k as int] == s@[base + k]);
            }
            return false;
        }
        k += 1;
    }
    proof {
        assert(w.skip(w.len() - m) =~= pat@);
    }
    true
}

/// Remove the code-fence wrapper some backends put around their Markdown.
pub fn clean_markdown(s: &str) -> (r: String)
    ensures
        r@ == cleaned_markdown(s@),
{
    proof {
        reveal_strlit("```markdown\n");
        reveal_strlit("```");
    }
    let pre = "```markdown\n";
    let suf = "```";
    let pm = pre.unicode_len();
    let sm = suf.unicode_len();
    let n = s.unicode_len();
    let mut lo: usize = 0;
    let hi: usize = n;
    proof {
        assert(s@.subrange(0, n as int) =~= s@);
    }
    while window_has_prefix(s, lo, hi, pre)
        invariant
            lo <= hi <= s@.len(),
            hi == n == s@.len(),
            pm == pre@.len(),
            pm > 0,
            strip_prefix_all(s@, pre@) == strip_prefix_all(
                s@.subrange(lo as int, hi as int),
                pre@,
            ),
        decreases hi - lo,
    {
        proof {
            let w = s@.subrange(lo as int, hi as int);
            assert(w.skip(pm as int) =~= s@.subrange(lo + pm, hi as int));
        }
        lo += pm;
    }
    let ghost mid = s@.subrange(lo as int, hi as int);
    proof {
        assert(strip_prefix_all(mid, pre@) == mid);
    }
    let mut hi2: usize = hi;
    while window_has_suffix(s, lo, hi2, suf)
        invariant
            lo <= hi2 <= hi <= s@.len(),
            sm == suf@.len(),
            sm > 0,
            mid == s@.subrange(lo as int, hi as int),
            strip_suffix_all(mid, suf@) == strip_suffix_all(
                s@.subrange(lo as int, hi2 as int),
                suf@,
            ),
        decreases hi2 - lo,
    {
        proof {
            let w = s@.subrange(lo as int, hi2 as int);
            assert(w.take(w.len() - sm) =~= s@.subrange(lo as int, hi2 - sm));
        }
        hi2 -= sm;
    }
    proof {
        let w = s@.subrange(lo as int, hi2 as int);
        assert(strip_suffix_all(w, suf@) == w);
    }
    String::from_str(s.substring_char(lo, hi2))
}

} // verus!
