//! Substring and keyword matching over strings, and the small text
//! transformations the engine needs (keyword heuristics, ICS unescaping).

use vstd::prelude::*;

verus! {

/// `s` holds `pat` starting at position `i`.
pub open spec fn spec_match_at(s: Seq<char>, pat: Seq<char>, i: int) -> bool {
    forall|j: int| 0 <= j < pat.len() ==> s[i + j] == pat[j]
}

/// `s` holds `pat` as a contiguous substring.
pub open spec fn spec_text_contains(s: Seq<char>, pat: Seq<char>) -> bool {
    exists|i: int| 0 <= i && i + pat.len() <= s.len() && #[trigger] spec_match_at(s, pat, i)
}

/// `c` equals the pattern character `k`, or is the ASCII upper-case form of a
/// lower-case ASCII `k`.
pub open spec fn spec_char_eq_ci(c: char, k: char) -> bool {
    c == k || (97 <= k as u32 <= 122 && c as u32 + 32 == k as u32)
}

/// `s` holds `pat` starting at `i`, comparing ASCII letters case-insensitively
/// (the pattern is expected in lower case).
pub open spec fn spec_match_at_ci(s: Seq<char>, pat: Seq<char>, i: int) -> bool {
    forall|j: int| 0 <= j < pat.len() ==> spec_char_eq_ci(s[i + j], pat[j])
}

/// `s` holds `pat` as a substring, ASCII-case-insensitively.
pub open spec fn spec_text_contains_ci(s: Seq<char>, pat: Seq<char>) -> bool {
    exists|i: int| 0 <= i && i + pat.len() <= s.len() && #[trigger] spec_match_at_ci(s, pat, i)
}

/// `s` ends with `pat`.
pub open spec fn spec_text_ends_with(s: Seq<char>, pat: Seq<char>) -> bool {
    pat.len() <= s.len() && spec_match_at(s, pat, s.len() - pat.len())
}

/// `s` starts with `pat`.
pub open spec fn spec_text_starts_with(s: Seq<char>, pat: Seq<char>) -> bool {
    pat.len() <= s.len() && spec_match_at(s, pat, 0)
}

fn match_at(s: &str, pat: &str, i: usize) -> (r: bool)
    requires
        i + pat@.len() <= s@.len(),
        s@.len() <= usize::MAX,
    ensures
        r == spec_match_at(s@, pat@, i as int),
{
    let m = pat.unicode_len();
    let mut j: usize = 0;
    while j < m
        invariant
            m == pat@.len(),
            i + m <= s@.len(),
            s@.len() <= usize::MAX,
            0 <= j <= m,
            forall|j0: int| 0 <= j0 < j ==> s@[i + j0] == pat@[j0],
        decreases m - j,
    {
        if s.get_char(i + j) != pat.get_char(j) {
            return false;
        }
        j += 1;
    }
    true
}

/// Whether `s` holds `pat` as a contiguous substring (case-sensitive).
pub fn text_contains(s: &str, pat: &str) -> (r: bool)
    ensures
        r == spec_text_contains(s@, pat@),
{
    let n = s.unicode_len();
    let m = pat.unicode_len();
    if m > n {
        assert(!spec_text_contains(s@, pat@));
        return false;
    }
    let mut i: usize = 0;
    while i <= n - m
        invariant
            n == s@.len(),
            m == pat@.len(),
            m <= n,
            0 <= i <= n - m + 1,
            forall|k: int| 0 <= k < i ==> !#[trigger] spec_match_at(s@, pat@, k),
        decreases n - m + 1 - i,
    {
        if match_at(s, pat, i) {
            return true;
        }
        i += 1;
    }
    false
}

fn match_at_ci(s: &str, pat: &str, i: usize) -> (r: bool)
    requires
        i + pat@.len() <= s@.len(),
        s@.len() <= usize::MAX,
    ensures
        r == spec_match_at_ci(s@, pat@, i as int),
{
    let m = pat.unicode_len();
    let mut j: usize = 0;
    while j < m
        invariant
            m == pat@.len(),
            i + m <= s@.len(),
            s@.len() <= usize::MAX,
            0 <= j <= m,
            forall|j0: int| 0 <= j0 < j ==> spec_char_eq_ci(s@[i + j0], pat@[j0]),
        decreases m - j,
    {
        let c = s.get_char(i + j);
        let k = pat.get_char(j);
        let matches_here = c == k || (97 <= k as u32 && k as u32 <= 122 && c as u32 + 32 == k as u32);
        if !matches_here {
            assert(!spec_char_eq_ci(s@[i + j as int], pat@[j as int]));
            return false;
        }
        j += 1;
    }
    true
}

/// Whether `s` holds `pat` as a substring, comparing ASCII letters
/// case-insensitively; `pat` is expected in lower case.
pub fn text_contains_ci(s: &str, pat: &str) -> (r: bool)
    ensures
        r == spec_text_contains_ci(s@, pat@),
{
    let n = s.unicode_len();
    let m = pat.unicode_len();
    if m > n {
        assert(!spec_text_contains_ci(s@, pat@));
        return false;
    }
    let mut i: usize = 0;
    while i <= n - m
        invariant
            n == s@.len(),
            m == pat@.len(),
            m <= n,
            0 <= i <= n - m + 1,
            forall|k: int| 0 <= k < i ==> !#[trigger] spec_match_at_ci(s@, pat@, k),
        decreases n - m + 1 - i,
    {
        if match_at_ci(s, pat, i) {
            return true;
        }
        i += 1;
    }
    false
}

/// Whether `s` ends with `pat`.
pub fn text_ends_with(s: &str, pat: &str) -> (r: bool)
    ensures
        r == spec_text_ends_with(s@, pat@),
{
    let n = s.unicode_len();
    let m = pat.unicode_len();
    if m > n {
        return false;
    }
    match_at(s, pat, n - m)
}

/// Whether `s` starts with `pat`.
pub fn text_starts_with(s: &str, pat: &str) -> (r: bool)
    ensures
        r == spec_text_starts_with(s@, pat@),
{
    let n = s.unicode_len();
    let m = pat.unicode_len();
    if m > n {
        return false;
    }
    match_at(s, pat, 0)
}

/// Left-to-right, non-overlapping replacement of the two-character pattern
/// `a b` by the single character `r`.
pub open spec fn spec_replace_two(s: Seq<char>, a: char, b: char, r: char) -> Seq<char>
    decreases s.len(),
{
    if s.len() >= 2 && s[0] == a && s[1] == b {
        seq![r] + spec_replace_two(s.skip(2), a, b, r)
    } else if s.len() >= 1 {
        seq![s[0]] + spec_replace_two(s.skip(1), a, b, r)
    } else {
        Seq::empty()
    }
}

/// Replace every non-overlapping occurrence of the two-character pattern
/// `a b` in `s` by `r`, scanning left to right.
pub fn replace_two(s: &str, a: char, b: char, r: char) -> (out: String)
    ensures
        out@ == spec_replace_two(s@, a, b, r),
{
    let n = s.unicode_len();
    let mut acc: Vec<char> = Vec::new();
    let mut i: usize = 0;
    proof {
        assert(s@.skip(0) =~= s@);
        assert(acc@ + spec_replace_two(s@, a, b, r) =~= spec_replace_two(s@, a, b, r));
    }
    while i < n
        invariant
            n == s@.len(),
            0 <= i <= n,
            spec_replace_two(s@, a, b, r) == acc@ + spec_replace_two(s@.skip(i as int), a, b, r),
        decreases n - i,
    {
        let ghost prev = s@.skip(i as int);
        let ghost acc0 = acc@;
        proof {
            assert(prev.len() == n - i);
            assert(prev[0] == s@[i as int]);
            if prev.len() >= 2 {
                assert(prev[1] == s@[i + 1]);
            }
        }
        let c = s.get_char(i);
        if i + 1 < n && c == a && s.get_char(i + 1) == b {
            acc.push(r);
            proof {
                assert(prev.len() >= 2 && prev[0] == a && prev[1] == b);
                assert(prev.skip(2) =~= s@.skip(i + 2));
                assert(acc@ + spec_replace_two(s@.skip(i + 2), a, b, r)
                    =~= acc0 + spec_replace_two(prev, a, b, r));
            }
            i += 2;
        } else {
            acc.push(c);
            proof {
                assert(prev.len() >= 1);
                if prev.len() >= 2 && prev[0] == a && prev[1] == b {
                    assert(false);
                }
                assert(prev.skip(1) =~= s@.skip(i + 1));
                assert(acc@ + spec_replace_two(s@.skip(i + 1), a, b, r)
                    =~= acc0 + spec_replace_two(prev, a, b, r));
            }
            i += 1;
        }
    }
    proof {
        assert(s@.skip(n as int) =~= Seq::<char>::empty());
        assert(acc@ + spec_replace_two(Seq::empty(), a, b, r) =~= acc@);
    }
    string_from_chars(&acc)
}

/// Relies on `String`'s `FromIterator` over characters: collecting a vector
/// of characters yields the string with exactly that character sequence.
#[verifier::external_body]
fn string_from_chars(v: &Vec<char>) -> (s: String)
    ensures
        s@ == v@,
{
    v.iter().collect()
}

/// Unescape ICS text: `\n` becomes a newline, `\,` a comma, `\;` a
/// semicolon, and `\\` a single backslash, applied in that order.
pub fn unescape_ics(value: &str) -> (out: String)
    ensures
        out@ == spec_replace_two(
            spec_replace_two(
                spec_replace_two(
                    spec_replace_two(value@, '\\', 'n', '\n'),
                    '\\', ',', ','),
                '\\', ';', ';'),
            '\\', '\\', '\\'),
{
    let pass1 = replace_two(value, '\\', 'n', '\n');
    let pass2 = replace_two(pass1.as_str(), '\\', ',', ',');
    let pass3 = replace_two(pass2.as_str(), '\\', ';', ';');
    replace_two(pass3.as_str(), '\\', '\\', '\\')
}

} // verus!
