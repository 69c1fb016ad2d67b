//! Character classes and string primitives shared by the whole library.
//!
//! All text handling here is ASCII-oriented: the phrase patterns, the
//! whitespace that separates caption cues, and the structural markers in
//! embedded page scripts are ASCII.  Non-ASCII characters pass through
//! untouched; they are never letters or whitespace for these purposes.

use vstd::prelude::*;

verus! {

/// An ASCII letter, `a`-`z` or `A`-`Z`.
pub open spec fn is_ascii_letter(c: char) -> bool {
    (97 <= c as u32 && c as u32 <= 122) || (65 <= c as u32 && c as u32 <= 90)
}

/// ASCII whitespace: space, tab, line feed, carriage return, vertical tab,
/// form feed.
pub open spec fn is_ascii_space(c: char) -> bool {
    c as u32 == 32 || c as u32 == 9 || c as u32 == 10 || c as u32 == 13 || c as u32 == 11
        || c as u32 == 12
}

/// Case folding for ASCII: upper-case letters map onto their lower-case
/// code point, everything else is left as it is.
pub open spec fn fold_case(c: char) -> int {
    if 65 <= c as u32 && c as u32 <= 90 {
        c as u32 + 32
    } else {
        c as u32 as int
    }
}

/// Case-insensitive character equality (ASCII case only).
pub open spec fn eq_ci(a: char, b: char) -> bool {
    fold_case(a) == fold_case(b)
}

pub fn ascii_letter(c: char) -> (r: bool)
    ensures
        r == is_ascii_letter(c),
{
    let u = c as u32;
    (97 <= u && u <= 122) || (65 <= u && u <= 90)
}

pub fn ascii_space(c: char) -> (r: bool)
    ensures
        r == is_ascii_space(c),
{
    let u = c as u32;
    u == 32 || u == 9 || u == 10 || u == 13 || u == 11 || u == 12
}

pub fn chars_eq_ci(a: char, b: char) -> (r: bool)
    ensures
        r == eq_ci(a, b),
{
    let au = a as u32;
    let bu = b as u32;
    let af = if 65 <= au && au <= 90 {
        au + 32
    } else {
        au
    };
    let bf = if 65 <= bu && bu <= 90 {
        bu + 32
    } else {
        bu
    };
    af == bf
}

/// Case-insensitive equality of two characters implies that they agree on
/// being a letter, and that non-letters are outright equal.
pub proof fn lemma_eq_ci_classes(a: char, b: char)
    requires
        eq_ci(a, b),
    ensures
        is_ascii_letter(a) == is_ascii_letter(b),
        !is_ascii_letter(a) ==> a == b,
        is_ascii_space(a) == is_ascii_space(b),
{
    assert(a as u32 == b as u32 ==> a == b);
}

/// The end of the ASCII-whitespace run beginning at position `j`.
pub open spec fn space_run_end(s: Seq<char>, j: int) -> int
    decreases s.len() - j when 0 <= j <= s.len()
{
    if j < s.len() && is_ascii_space(s[j]) {
        space_run_end(s, j + 1)
    } else {
        j
    }
}

/// The start of the ASCII-whitespace run ending just before position `j`.
pub open spec fn space_run_start(s: Seq<char>, j: int) -> int
    decreases j when 0 <= j <= s.len()
{
    if j > 0 && is_ascii_space(s[j - 1]) {
        space_run_start(s, j - 1)
    } else {
        j
    }
}

pub proof fn lemma_space_run_end_bounds(s: Seq<char>, j: int)
    requires
        0 <= j <= s.len(),
    ensures
        j <= space_run_end(s, j) <= s.len(),
    decreases s.len() - j,
{
    if j < s.len() && is_ascii_space(s[j]) {
        lemma_space_run_end_bounds(s, j + 1);
    }
}

pub proof fn lemma_space_run_start_bounds(s: Seq<char>, j: int)
    requires
        0 <= j <= s.len(),
    ensures
        0 <= space_run_start(s, j) <= j,
    decreases j,
{
    if j > 0 && is_ascii_space(s[j - 1]) {
        lemma_space_run_start_bounds(s, j - 1);
    }
}

/// `s` with leading and trailing ASCII whitespace removed.
pub open spec fn trim_spec(s: Seq<char>) -> Seq<char> {
    let a = space_run_end(s, 0);
    let b = space_run_start(s, s.len() as int);
    if a <= b {
        s.subrange(a, b)
    } else {
        Seq::empty()
    }
}

pub fn run_end_exec(t: &Vec<char>, j: usize) -> (g: usize)
    requires
        j <= t@.len(),
    ensures
        g as int == space_run_end(t@, j as int),
        j <= g <= t@.len(),
{
    let mut cur: usize = j;
    while cur < t.len() && ascii_space(t[cur])
        invariant
            j <= cur <= t@.len(),
            space_run_end(t@, j as int) == space_run_end(t@, cur as int),
        decreases t@.len() - cur,
    {
        cur += 1;
    }
    cur
}

/// `s.trim()` for ASCII whitespace, as a fresh `String`.
pub fn trim_str(s: &str) -> (r: String)
    ensures
        r@ == trim_spec(s@),
{
    let v = chars_vec(s);
    let a = run_end_exec(&v, 0);
    let mut b: usize = v.len();
    while b > a && ascii_space(v[b - 1])
        invariant
            a <= b <= v@.len(),
            v@ == s@,
            a as int == space_run_end(s@, 0),
            space_run_start(s@, s@.len() as int) == space_run_start(s@, b as int),
        decreases b,
    {
        b -= 1;
    }
    if b == a {
        proof {
            lemma_space_run_start_bounds(s@, b as int);
        }
        String::new()
    } else {
        proof {
            assert(!is_ascii_space(s@[b - 1]));
            assert(space_run_start(s@, b as int) == b);
        }
        s.substring_char(a, b).to_owned()
    }
}

/// The parts joined with a single space between consecutive parts.
pub open spec fn join_spaces(parts: Seq<Seq<char>>) -> Seq<char>
    decreases parts.len(),
{
    if parts.len() == 0 {
        Seq::empty()
    } else if parts.len() == 1 {
        parts[0]
    } else {
        join_spaces(parts.drop_last()) + seq![' '] + parts.last()
    }
}

/// Joins the parts with single spaces.
pub fn join_with_spaces(parts: &Vec<String>) -> (r: String)
    ensures
        r@ == join_spaces(parts.deep_view()),
{
    let mut r = String::new();
    let mut k: usize = 0;
    while k < parts.len()
        invariant
            0 <= k <= parts@.len(),
            r@ == join_spaces(parts.deep_view().subrange(0, k as int)),
        decreases parts@.len() - k,
    {
        let ghost prefix = parts.deep_view().subrange(0, k as int);
        let ghost next = parts.deep_view().subrange(0, k as int + 1);
        if k > 0 {
            r.append(" ");
        }
        r.append(parts[k].as_str());
        proof {
            reveal_strlit(" ");
            assert(" "@ =~= seq![' ']);
            assert(next.drop_last() =~= prefix);
            assert(next.last() == parts.deep_view()[k as int]);
            assert(parts.deep_view()[k as int] =~= parts@[k as int]@);
            assert(r@ =~= join_spaces(next));
        }
        k += 1;
    }
    proof {
        assert(parts.deep_view().subrange(0, parts@.len() as int) =~= parts.deep_view());
    }
    r
}

/// An optional string, seen as its characters.
pub open spec fn opt_str_view(o: Option<String>) -> Option<Seq<char>> {
    match o {
        Some(s) => Some(s@),
        None => None,
    }
}

/// `p` is a prefix of `s`.
pub open spec fn has_prefix(s: Seq<char>, p: Seq<char>) -> bool {
    p.len() <= s.len() && s.subrange(0, p.len() as int) == p
}

/// `p` is a suffix of `s`.
pub open spec fn has_suffix(s: Seq<char>, p: Seq<char>) -> bool {
    p.len() <= s.len() && s.subrange(s.len() - p.len(), s.len() as int) == p
}

pub fn has_prefix_exec(s: &Vec<char>, p: &Vec<char>) -> (r: bool)
    ensures
        r == has_prefix(s@, p@),
{
    if p.len() > s.len() {
        return false;
    }
    let mut k: usize = 0;
    while k < p.len()
        invariant
            0 <= k <= p@.len(),
            p@.len() <= s@.len(),
            forall|m: int| 0 <= m < k ==> s@[m] == p@[m],
        decreases p@.len() - k,
    {
        if s[k] != p[k] {
            proof {
                assert(s@.subrange(0, p@.len() as int)[k as int] != p@[k as int]);
            }
            return false;
        }
        k += 1;
    }
    proof {
        assert(s@.subrange(0, p@.len() as int) =~= p@);
    }
    true
}

pub fn has_suffix_exec(s: &Vec<char>, p: &Vec<char>) -> (r: bool)
    ensures
        r == has_suffix(s@, p@),
{
    if p.len() > s.len() {
        return false;
    }
    let off = s.len() - p.len();
    let mut k: usize = 0;
    while k < p.len()
        invariant
            0 <= k <= p@.len(),
            p.len() <= s.len(),
            off == s.len() - p.len(),
            forall|m: int| 0 <= m < k ==> s@[off + m] == p@[m],
        decreases p@.len() - k,
    {
        if s[off + k] != p[k] {
            proof {
                let ghost bad = s@.subrange(s@.len() - p@.len(), s@.len() as int)[k as int];
                assert(bad != p@[k as int]);
            }
            return false;
        }
        k += 1;
    }
    proof {
        assert(s@.subrange(s@.len() - p@.len(), s@.len() as int) =~= p@);
    }
    true
}

/// The characters of `s`, as a vector that can be indexed in constant time.
pub fn chars_vec(s: &str) -> (v: Vec<char>)
    ensures
        v@ == s@,
{
    let n = s.unicode_len();
    let mut v: Vec<char> = Vec::new();
    let mut i: usize = 0;
    while i < n
        invariant
            i <= n,
            n == s@.len(),
            v@ == s@.subrange(0, i as int),
        decreases n - i,
    {
        v.push(s.get_char(i));
        i += 1;
    }
    proof {
        assert(v@ =~= s@);
    }
    v
}

} // verus!
