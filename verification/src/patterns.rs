//! The pattern counter: counts occurrences of fixed phrases in a transcript.
//!
//! A phrase is a sequence of words.  It occurs at a position of the text when
//! its words appear there in order, each pair separated by one or more ASCII
//! whitespace characters, letters compared ASCII-case-insensitively, and the
//! occurrence is flanked by non-letters (or the ends of the text), so that a
//! phrase inside a longer word does not count.

use vstd::prelude::*;
use crate::text::{
    is_ascii_letter, is_ascii_space, eq_ci, ascii_letter, chars_eq_ci, chars_vec, space_run_end,
    run_end_exec,
};

verus! {

/// A well-formed phrase: at least one word, every word non-empty and made of
/// ASCII letters only.
pub open spec fn wellformed_pattern(words: Seq<Seq<char>>) -> bool {
    &&& words.len() > 0
    &&& forall|k: int| 0 <= k < words.len() ==> (#[trigger] words[k]).len() > 0
    &&& forall|k: int, j: int|
        0 <= k < words.len() && 0 <= j < words[k].len() ==> is_ascii_letter(#[trigger] words[k][j])
}

/// The word `w` matches the text at position `i`, case-insensitively.
pub open spec fn word_at(t: Seq<char>, w: Seq<char>, i: int) -> bool {
    &&& 0 <= i
    &&& i + w.len() <= t.len()
    &&& forall|k: int| 0 <= k < w.len() ==> eq_ci(t[i + k], #[trigger] w[k])
}

/// Where a match of the whole phrase starting at position `i` would end:
/// `Some(e)` when each word matches in turn, consecutive words separated by a
/// non-empty whitespace run, with `e` just past the last word.
pub open spec fn phrase_end(t: Seq<char>, words: Seq<Seq<char>>, i: int) -> Option<int>
    decreases words.len()
{
    if words.len() == 0 {
        Some(i)
    } else if !word_at(t, words[0], i) {
        None
    } else if words.len() == 1 {
        Some(i + words[0].len() as int)
    } else {
        let g = space_run_end(t, i + words[0].len() as int);
        if g == i + words[0].len() as int {
            None
        } else {
            phrase_end(t, words.drop_first(), g)
        }
    }
}

/// The phrase occurs at position `i`: it matches there and the match is
/// bounded by non-letters (or by the ends of the text).
pub open spec fn occurs_at(t: Seq<char>, words: Seq<Seq<char>>, i: int) -> bool {
    match phrase_end(t, words, i) {
        Some(e) => {
            &&& (i == 0 || !is_ascii_letter(t[i - 1]))
            &&& (e == t.len() || !is_ascii_letter(t[e]))
        },
        None => false,
    }
}

/// How many positions in `i..t.len()` the phrase occurs at.
pub open spec fn count_from(t: Seq<char>, words: Seq<Seq<char>>, i: int) -> nat
    decreases t.len() - i when i <= t.len()
{
    if i >= t.len() {
        0
    } else {
        (if occurs_at(t, words, i) {
            1nat
        } else {
            0
        }) + count_from(t, words, i + 1)
    }
}

/// The number of occurrences of the phrase in the text.
pub open spec fn pattern_count(t: Seq<char>, words: Seq<Seq<char>>) -> nat {
    count_from(t, words, 0)
}

/// The first survey phrase, two words.
pub open spec fn phrase_defacto() -> Seq<Seq<char>> {
    seq!["de"@, "facto"@]
}

/// The second survey phrase, a single word.
pub open spec fn phrase_trivial() -> Seq<Seq<char>> {
    seq!["trivial"@]
}

/// The third survey phrase, three words.
pub open spec fn phrase_sinn() -> Seq<Seq<char>> {
    seq!["ergibt"@, "das"@, "sinn"@]
}

pub proof fn lemma_phrase_end_bounds(t: Seq<char>, words: Seq<Seq<char>>, i: int)
    requires
        0 <= i,
        phrase_end(t, words, i) is Some,
    ensures
        words.len() > 0 ==> i <= phrase_end(t, words, i)->0 <= t.len(),
        words.len() == 0 ==> phrase_end(t, words, i) == Some(i),
    decreases words.len(),
{
    if words.len() == 0 {
    } else if words.len() == 1 {
    } else if word_at(t, words[0], i) {
        let j = i + words[0].len() as int;
        let g = space_run_end(t, j);
        if g != j {
            crate::text::lemma_space_run_end_bounds(t, j);
            lemma_phrase_end_bounds(t, words.drop_first(), g);
        }
    }
}

proof fn lemma_word_at_ci(t1: Seq<char>, t2: Seq<char>, w: Seq<char>, i: int)
    requires
        t1.len() == t2.len(),
        forall|m: int| 0 <= m < t1.len() ==> eq_ci(t1[m], #[trigger] t2[m]),
    ensures
        word_at(t1, w, i) == word_at(t2, w, i),
{
    if word_at(t1, w, i) {
        assert forall|k: int| 0 <= k < w.len() implies eq_ci(t2[i + k], #[trigger] w[k]) by {
            assert(eq_ci(t1[i + k], w[k]));
            assert(eq_ci(t1[i + k], t2[i + k]));
        }
    }
    if word_at(t2, w, i) {
        assert forall|k: int| 0 <= k < w.len() implies eq_ci(t1[i + k], #[trigger] w[k]) by {
            assert(eq_ci(t2[i + k], w[k]));
            assert(eq_ci(t1[i + k], t2[i + k]));
        }
    }
}

proof fn lemma_space_run_end_ci(t1: Seq<char>, t2: Seq<char>, j: int)
    requires
        t1.len() == t2.len(),
        forall|m: int| 0 <= m < t1.len() ==> eq_ci(t1[m], #[trigger] t2[m]),
        0 <= j <= t1.len(),
    ensures
        space_run_end(t1, j) == space_run_end(t2, j),
    decreases t1.len() - j,
{
    if j < t1.len() {
        crate::text::lemma_eq_ci_classes(t1[j], t2[j]);
        if is_ascii_space(t1[j]) {
            lemma_space_run_end_ci(t1, t2, j + 1);
        }
    }
}

proof fn lemma_phrase_end_ci(t1: Seq<char>, t2: Seq<char>, words: Seq<Seq<char>>, i: int)
    requires
        t1.len() == t2.len(),
        forall|m: int| 0 <= m < t1.len() ==> eq_ci(t1[m], #[trigger] t2[m]),
        0 <= i,
    ensures
        phrase_end(t1, words, i) == phrase_end(t2, words, i),
    decreases words.len(),
{
    if words.len() == 0 {
    } else {
        lemma_word_at_ci(t1, t2, words[0], i);
        if word_at(t1, words[0], i) && words.len() > 1 {
            let j = i + words[0].len() as int;
            lemma_space_run_end_ci(t1, t2, j);
            let g = space_run_end(t1, j);
            if g != j {
                crate::text::lemma_space_run_end_bounds(t1, j);
                lemma_phrase_end_ci(t1, t2, words.drop_first(), g);
            }
        }
    }
}

proof fn lemma_occurs_at_ci(t1: Seq<char>, t2: Seq<char>, words: Seq<Seq<char>>, i: int)
    requires
        t1.len() == t2.len(),
        forall|m: int| 0 <= m < t1.len() ==> eq_ci(t1[m], #[trigger] t2[m]),
        0 <= i < t1.len(),
    ensures
        occurs_at(t1, words, i) == occurs_at(t2, words, i),
{
    lemma_phrase_end_ci(t1, t2, words, i);
    match phrase_end(t1, words, i) {
        Some(e) => {
            lemma_phrase_end_bounds(t1, words, i);
            if i > 0 {
                crate::text::lemma_eq_ci_classes(t1[i - 1], t2[i - 1]);
            }
            if e < t1.len() {
                crate::text::lemma_eq_ci_classes(t1[e], t2[e]);
            }
        },
        None => {},
    }
}

proof fn lemma_count_from_ci(t1: Seq<char>, t2: Seq<char>, words: Seq<Seq<char>>, i: int)
    requires
        t1.len() == t2.len(),
        forall|m: int| 0 <= m < t1.len() ==> eq_ci(t1[m], #[trigger] t2[m]),
        0 <= i <= t1.len(),
    ensures
        count_from(t1, words, i) == count_from(t2, words, i),
    decreases t1.len() - i,
{
    if i < t1.len() {
        lemma_occurs_at_ci(t1, t2, words, i);
        lemma_count_from_ci(t1, t2, words, i + 1);
    }
}

/// The count of a phrase is invariant under changing the ASCII letter case of
/// the text: two texts whose characters agree case-insensitively carry every
/// phrase equally often.
pub proof fn lemma_count_case_insensitive(t1: Seq<char>, t2: Seq<char>, words: Seq<Seq<char>>)
    requires
        t1.len() == t2.len(),
        forall|m: int| 0 <= m < t1.len() ==> eq_ci(t1[m], #[trigger] t2[m]),
    ensures
        pattern_count(t1, words) == pattern_count(t2, words),
{
    lemma_count_from_ci(t1, t2, words, 0);
}

/// A phrase occurrence is never flanked by a letter: at a position directly
/// preceded by a letter, or whose match would be directly followed by one,
/// nothing is counted — a phrase inside a longer word does not count.
pub proof fn lemma_flanked_by_letter_never_counts(t: Seq<char>, words: Seq<Seq<char>>, i: int)
    requires
        (i > 0 && is_ascii_letter(t[i - 1])) || (match phrase_end(t, words, i) {
            Some(e) => e < t.len() && is_ascii_letter(t[e]),
            None => false,
        }),
    ensures
        !occurs_at(t, words, i),
{
}


proof fn lemma_word_at_prefix(t: Seq<char>, w: Seq<char>, c: char, i: int)
    requires
        0 <= i,
    ensures
        word_at(seq![c] + t, w, i + 1) == word_at(t, w, i),
{
    let u = seq![c] + t;
    if word_at(t, w, i) {
        assert forall|k: int| 0 <= k < w.len() implies eq_ci(u[i + 1 + k], #[trigger] w[k]) by {
            assert(u[i + 1 + k] == t[i + k]);
            assert(eq_ci(t[i + k], w[k]));
        }
    }
    if word_at(u, w, i + 1) {
        assert forall|k: int| 0 <= k < w.len() implies eq_ci(t[i + k], #[trigger] w[k]) by {
            assert(u[i + 1 + k] == t[i + k]);
            assert(eq_ci(u[i + 1 + k], w[k]));
        }
    }
}

proof fn lemma_space_run_end_prefix(t: Seq<char>, c: char, j: int)
    requires
        0 <= j <= t.len(),
    ensures
        space_run_end(seq![c] + t, j + 1) == space_run_end(t, j) + 1,
    decreases t.len() - j,
{
    let u = seq![c] + t;
    assert(j < t.len() ==> u[j + 1] == t[j]);
    if j < t.len() && is_ascii_space(t[j]) {
        lemma_space_run_end_prefix(t, c, j + 1);
    }
}

proof fn lemma_phrase_end_prefix(t: Seq<char>, words: Seq<Seq<char>>, c: char, i: int)
    requires
        0 <= i,
    ensures
        phrase_end(seq![c] + t, words, i + 1) == match phrase_end(t, words, i) {
            Some(e) => Some(e + 1),
            None => None::<int>,
        },
    decreases words.len(),
{
    let u = seq![c] + t;
    if words.len() == 0 {
    } else {
        lemma_word_at_prefix(t, words[0], c, i);
        if word_at(t, words[0], i) && words.len() > 1 {
            let j = i + words[0].len() as int;
            lemma_space_run_end_prefix(t, c, j);
            let g = space_run_end(t, j);
            if g != j {
                crate::text::lemma_space_run_end_bounds(t, j);
                lemma_phrase_end_prefix(t, words.drop_first(), c, g);
            }
        }
    }
}

proof fn lemma_occurs_at_prefix(t: Seq<char>, words: Seq<Seq<char>>, c: char, i: int)
    requires
        0 <= i < t.len(),
        !is_ascii_letter(c),
    ensures
        occurs_at(seq![c] + t, words, i + 1) == occurs_at(t, words, i),
{
    let u = seq![c] + t;
    lemma_phrase_end_prefix(t, words, c, i);
    match phrase_end(t, words, i) {
        Some(e) => {
            lemma_phrase_end_bounds(t, words, i);
            if i > 0 {
                assert(u[i] == t[i - 1]);
            } else {
                assert(u[0] == c);
            }
            if 0 <= e < t.len() {
                assert(u[e + 1] == t[e]);
            }
        },
        None => {},
    }
}

proof fn lemma_occurs_at_zero_prefix(t: Seq<char>, words: Seq<Seq<char>>, c: char)
    requires
        wellformed_pattern(words),
        !is_ascii_letter(c),
    ensures
        !occurs_at(seq![c] + t, words, 0),
{
    let u = seq![c] + t;
    let w0 = words[0];
    assert(w0.len() > 0);
    if word_at(u, w0, 0) {
        assert(eq_ci(u[0], w0[0]));
        assert(u[0] == c);
        assert(is_ascii_letter(w0[0]));
        crate::text::lemma_eq_ci_classes(u[0], w0[0]);
        assert(false);
    }
    assert(phrase_end(u, words, 0) is None);
}

proof fn lemma_count_from_prefix(t: Seq<char>, words: Seq<Seq<char>>, c: char, i: int)
    requires
        0 <= i <= t.len(),
        !is_ascii_letter(c),
    ensures
        count_from(seq![c] + t, words, i + 1) == count_from(t, words, i),
    decreases t.len() - i,
{
    if i < t.len() {
        lemma_occurs_at_prefix(t, words, c, i);
        lemma_count_from_prefix(t, words, c, i + 1);
    }
}

proof fn lemma_word_at_suffix(t: Seq<char>, w: Seq<char>, c: char, i: int)
    requires
        0 <= i,
        w.len() > 0,
        forall|j: int| 0 <= j < w.len() ==> is_ascii_letter(#[trigger] w[j]),
        !is_ascii_letter(c),
    ensures
        word_at(t + seq![c], w, i) == word_at(t, w, i),
{
    let v = t + seq![c];
    if word_at(t, w, i) {
        assert forall|k: int| 0 <= k < w.len() implies eq_ci(v[i + k], #[trigger] w[k]) by {
            assert(v[i + k] == t[i + k]);
        }
    }
    if word_at(v, w, i) {
        if i + w.len() <= t.len() {
            assert forall|k: int| 0 <= k < w.len() implies eq_ci(t[i + k], #[trigger] w[k]) by {
                assert(v[i + k] == t[i + k]);
            }
        } else {
            assert(i + w.len() == t.len() + 1);
            let k = w.len() - 1;
            assert(eq_ci(v[i + k], w[k]));
            assert(v[i + k] == c);
            crate::text::lemma_eq_ci_classes(c, w[k]);
            assert(false);
        }
    }
}

proof fn lemma_space_run_end_suffix(t: Seq<char>, c: char, j: int)
    requires
        0 <= j <= t.len(),
    ensures
        space_run_end(t, j) < t.len() ==> space_run_end(t + seq![c], j) == space_run_end(t, j),
        space_run_end(t, j) == t.len() ==> space_run_end(t + seq![c], j) == space_run_end(
            t + seq![c],
            t.len() as int,
        ),
    decreases t.len() - j,
{
    let v = t + seq![c];
    crate::text::lemma_space_run_end_bounds(t, j);
    assert(j < t.len() ==> v[j] == t[j]);
    if j < t.len() && is_ascii_space(t[j]) {
        lemma_space_run_end_suffix(t, c, j + 1);
    }
}

proof fn lemma_phrase_end_after_end(t: Seq<char>, words: Seq<Seq<char>>, i: int)
    requires
        wellformed_pattern(words),
        i >= t.len(),
    ensures
        phrase_end(t, words, i) is None,
{
    assert(words[0].len() > 0);
    assert(!word_at(t, words[0], i));
}

proof fn lemma_phrase_end_suffix(t: Seq<char>, words: Seq<Seq<char>>, c: char, i: int)
    requires
        0 <= i,
        words.len() > 0,
        forall|k: int| 0 <= k < words.len() ==> (#[trigger] words[k]).len() > 0,
        forall|k: int, j: int|
            0 <= k < words.len() && 0 <= j < words[k].len() ==> is_ascii_letter(
                #[trigger] words[k][j],
            ),
        !is_ascii_letter(c),
    ensures
        phrase_end(t + seq![c], words, i) == phrase_end(t, words, i),
    decreases words.len(),
{
    let v = t + seq![c];
    lemma_word_at_suffix(t, words[0], c, i);
    if word_at(t, words[0], i) && words.len() > 1 {
        let j = i + words[0].len() as int;
        assert(j <= t.len());
        lemma_space_run_end_suffix(t, c, j);
        let g = space_run_end(t, j);
        let gv = space_run_end(v, j);
        crate::text::lemma_space_run_end_bounds(t, j);
        crate::text::lemma_space_run_end_bounds(v, j);
        let rest = words.drop_first();
        assert(forall|k: int| 0 <= k < rest.len() ==> (#[trigger] rest[k]).len() > 0) by {
            assert(forall|k: int| 0 <= k < rest.len() ==> rest[k] == words[k + 1]);
        }
        assert(forall|k: int, m: int|
            0 <= k < rest.len() && 0 <= m < rest[k].len() ==> is_ascii_letter(
                #[trigger] rest[k][m],
            )) by {
            assert(forall|k: int| 0 <= k < rest.len() ==> rest[k] == words[k + 1]);
        }
        if g < t.len() {
            assert(gv == g);
            if g != j {
                lemma_phrase_end_suffix(t, rest, c, g);
            }
        } else {
            assert(g == t.len());
            assert(phrase_end(t, words, i) is None) by {
                if g != j {
                    assert(rest[0].len() > 0);
                    assert(!word_at(t, rest[0], g));
                    assert(phrase_end(t, rest, g) is None);
                }
            }
            assert(phrase_end(v, words, i) is None) by {
                if gv != j {
                    assert(gv == t.len() || gv == t.len() + 1) by {
                        if is_ascii_space(c) {
                            assert(space_run_end(v, t.len() as int + 1) == t.len() + 1);
                            assert(space_run_end(v, t.len() as int) == t.len() + 1) by {
                                assert(v[t.len() as int] == c);
                                assert(space_run_end(v, t.len() as int + 1) == t.len() + 1);
                            }
                        } else {
                            assert(space_run_end(v, t.len() as int) == t.len()) by {
                                assert(v[t.len() as int] == c);
                            }
                        }
                    }
                    assert(rest[0].len() > 0);
                    if gv == t.len() {
                        lemma_word_at_suffix(t, rest[0], c, gv);
                        assert(!word_at(t, rest[0], gv));
                        assert(!word_at(v, rest[0], gv));
                    } else {
                        assert(!word_at(v, rest[0], gv));
                    }
                    assert(phrase_end(v, rest, gv) is None);
                }
            }
        }
    }
}

proof fn lemma_occurs_at_suffix(t: Seq<char>, words: Seq<Seq<char>>, c: char, i: int)
    requires
        0 <= i < t.len(),
        wellformed_pattern(words),
        !is_ascii_letter(c),
    ensures
        occurs_at(t + seq![c], words, i) == occurs_at(t, words, i),
{
    let v = t + seq![c];
    lemma_phrase_end_suffix(t, words, c, i);
    match phrase_end(t, words, i) {
        Some(e) => {
            lemma_phrase_end_bounds(t, words, i);
            if i > 0 {
                assert(v[i - 1] == t[i - 1]);
            }
            if e < t.len() {
                assert(v[e] == t[e]);
            } else {
                assert(e == t.len());
                assert(v[e] == c);
            }
        },
        None => {},
    }
}

proof fn lemma_count_from_suffix(t: Seq<char>, words: Seq<Seq<char>>, c: char, i: int)
    requires
        0 <= i <= t.len(),
        wellformed_pattern(words),
        !is_ascii_letter(c),
    ensures
        count_from(t + seq![c], words, i) == count_from(t, words, i),
    decreases t.len() - i,
{
    let v = t + seq![c];
    if i < t.len() {
        lemma_occurs_at_suffix(t, words, c, i);
        lemma_count_from_suffix(t, words, c, i + 1);
    } else {
        assert(i == t.len());
        assert(count_from(t, words, i) == 0);
        assert(!occurs_at(v, words, i)) by {
            lemma_word_at_suffix(t, words[0], c, i);
            assert(words[0].len() > 0);
            assert(!word_at(t, words[0], i));
            assert(!word_at(v, words[0], i));
            assert(phrase_end(v, words, i) is None);
        }
        assert(count_from(v, words, i) == count_from(v, words, i + 1));
        assert(count_from(v, words, i + 1) == 0);
    }
}

/// The count of a well-formed phrase is invariant under padding the text
/// with a non-letter character (whitespace or punctuation) on either side.
pub proof fn lemma_count_nonletter_padding(t: Seq<char>, words: Seq<Seq<char>>, c: char)
    requires
        wellformed_pattern(words),
        !is_ascii_letter(c),
    ensures
        pattern_count(seq![c] + t, words) == pattern_count(t, words),
        pattern_count(t + seq![c], words) == pattern_count(t, words),
{
    let u = seq![c] + t;
    lemma_occurs_at_zero_prefix(t, words, c);
    lemma_count_from_prefix(t, words, c, 0);
    assert(count_from(u, words, 0) == count_from(u, words, 1));
    lemma_count_from_suffix(t, words, c, 0);
}

/// The three survey phrases are well-formed patterns.
pub proof fn lemma_survey_phrases_wellformed()
    ensures
        wellformed_pattern(phrase_defacto()),
        wellformed_pattern(phrase_trivial()),
        wellformed_pattern(phrase_sinn()),
{
    reveal_strlit("de");
    reveal_strlit("facto");
    reveal_strlit("trivial");
    reveal_strlit("ergibt");
    reveal_strlit("das");
    reveal_strlit("sinn");
}

/// The padding law at the survey phrases themselves: each of the three
/// counts is invariant under padding the transcript with a non-letter
/// character on either side.
pub proof fn lemma_survey_counts_ignore_padding(t: Seq<char>, c: char)
    requires
        !is_ascii_letter(c),
    ensures
        pattern_count(seq![c] + t, phrase_defacto()) == pattern_count(t, phrase_defacto()),
        pattern_count(t + seq![c], phrase_defacto()) == pattern_count(t, phrase_defacto()),
        pattern_count(seq![c] + t, phrase_trivial()) == pattern_count(t, phrase_trivial()),
        pattern_count(t + seq![c], phrase_trivial()) == pattern_count(t, phrase_trivial()),
        pattern_count(seq![c] + t, phrase_sinn()) == pattern_count(t, phrase_sinn()),
        pattern_count(t + seq![c], phrase_sinn()) == pattern_count(t, phrase_sinn()),
{
    lemma_survey_phrases_wellformed();
    lemma_count_nonletter_padding(t, phrase_defacto(), c);
    lemma_count_nonletter_padding(t, phrase_trivial(), c);
    lemma_count_nonletter_padding(t, phrase_sinn(), c);
}

fn word_at_exec(t: &Vec<char>, w: &Vec<char>, i: usize) -> (r: bool)
    ensures
        r == word_at(t@, w@, i as int),
{
    if i > t.len() || w.len() > t.len() - i {
        return false;
    }
    let mut k: usize = 0;
    while k < w.len()
        invariant
            0 <= k <= w@.len(),
            i + w.len() <= t.len(),
            forall|m: int| 0 <= m < k ==> eq_ci(t@[i + m], #[trigger] w@[m]),
        decreases w@.len() - k,
    {
        if !chars_eq_ci(t[i + k], w[k]) {
            return false;
        }
        k += 1;
    }
    true
}

fn phrase_end_exec(t: &Vec<char>, words: &Vec<Vec<char>>, widx: usize, i: usize) -> (r: Option<
    usize,
>)
    requires
        widx <= words@.len(),
        i <= t@.len(),
    ensures
        match r {
            Some(e) => {
                &&& phrase_end(t@, words.deep_view().skip(widx as int), i as int) == Some(e as int)
                &&& i <= e <= t@.len()
            },
            None => phrase_end(t@, words.deep_view(), i as int) is None || widx > 0,
        },
        r is None ==> phrase_end(t@, words.deep_view().skip(widx as int), i as int) is None,
    decreases words@.len() - widx,
{
    let ghost suffix = words.deep_view().skip(widx as int);
    if widx == words.len() {
        proof {
            assert(suffix.len() == 0);
        }
        return Some(i);
    }
    proof {
        assert(suffix[0] == words@[widx as int].deep_view());
        assert(words@[widx as int].deep_view() =~= words@[widx as int]@);
    }
    if !word_at_exec(t, &words[widx], i) {
        return None;
    }
    let wlen = words[widx].len();
    proof {
        assert(word_at(t@, words@[widx as int]@, i as int));
        assert(t.len() == t@.len());
        assert(i + wlen <= t.len());
    }
    if widx == words.len() - 1 {
        proof {
            assert(suffix.len() == 1);
        }
        return Some(i + wlen);
    }
    let g = run_end_exec(t, i + wlen);
    if g == i + wlen {
        return None;
    }
    let rest = phrase_end_exec(t, words, widx + 1, g);
    proof {
        assert(suffix.drop_first() =~= words.deep_view().skip(widx as int + 1));
    }
    rest
}

fn occurs_at_exec(t: &Vec<char>, words: &Vec<Vec<char>>, i: usize) -> (r: bool)
    requires
        i <= t@.len(),
    ensures
        r == occurs_at(t@, words.deep_view(), i as int),
{
    proof {
        assert(words.deep_view().skip(0) =~= words.deep_view());
    }
    match phrase_end_exec(t, words, 0, i) {
        None => false,
        Some(e) => {
            let before_ok = i == 0 || !ascii_letter(t[i - 1]);
            let after_ok = e == t.len() || !ascii_letter(t[e]);
            before_ok && after_ok
        },
    }
}

/// Counts the occurrences of one phrase in a text given as characters.
pub fn count_pattern(t: &Vec<char>, words: &Vec<Vec<char>>) -> (n: usize)
    ensures
        n as nat == pattern_count(t@, words.deep_view()),
{
    let mut n: usize = 0;
    let mut i: usize = 0;
    while i < t.len()
        invariant
            0 <= i <= t@.len(),
            n <= i,
            n + count_from(t@, words.deep_view(), i as int) == pattern_count(
                t@,
                words.deep_view(),
            ),
        decreases t@.len() - i,
    {
        if occurs_at_exec(t, words, i) {
            n += 1;
        }
        i += 1;
    }
    n
}

fn defacto_words() -> (w: Vec<Vec<char>>)
    ensures
        w.deep_view() == phrase_defacto(),
{
    let mut w: Vec<Vec<char>> = Vec::new();
    w.push(chars_vec("de"));
    w.push(chars_vec("facto"));
    proof {
        assert(w.deep_view() =~~= phrase_defacto());
    }
    w
}

fn trivial_words() -> (w: Vec<Vec<char>>)
    ensures
        w.deep_view() == phrase_trivial(),
{
    let mut w: Vec<Vec<char>> = Vec::new();
    w.push(chars_vec("trivial"));
    proof {
        assert(w.deep_view() =~~= phrase_trivial());
    }
    w
}

fn sinn_words() -> (w: Vec<Vec<char>>)
    ensures
        w.deep_view() == phrase_sinn(),
{
    let mut w: Vec<Vec<char>> = Vec::new();
    w.push(chars_vec("ergibt"));
    w.push(chars_vec("das"));
    w.push(chars_vec("sinn"));
    proof {
        assert(w.deep_view() =~~= phrase_sinn());
    }
    w
}

/// Counts the three survey phrases in a transcript, in their fixed order.
pub fn count_phrases(t: &str) -> (counts: (usize, usize, usize))
    ensures
        counts.0 as nat == pattern_count(t@, phrase_defacto()),
        counts.1 as nat == pattern_count(t@, phrase_trivial()),
        counts.2 as nat == pattern_count(t@, phrase_sinn()),
{
    let chars = chars_vec(t);
    let defacto = count_pattern(&chars, &defacto_words());
    let trivial = count_pattern(&chars, &trivial_words());
    let sinn = count_pattern(&chars, &sinn_words());
    (defacto, trivial, sinn)
}

} // verus!
