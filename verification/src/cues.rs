//! Caption cue reduction.
//!
//! Captioning systems frequently re-emit the same line across consecutive
//! time windows.  Reduction keeps exactly one copy per maximal run of equal
//! consecutive cues, in original order, then joins the survivors with single
//! spaces.  Only a cue equal to the immediately preceding one is dropped; a
//! cue that repeats later, non-consecutively, is kept again on purpose.

use vstd::prelude::*;
use crate::text::{trim_spec, trim_str, join_spaces, join_with_spaces};

verus! {

/// One representative per maximal run of equal consecutive elements.
pub open spec fn collapse_runs(s: Seq<Seq<char>>) -> Seq<Seq<char>>
    decreases s.len(),
{
    if s.len() == 0 {
        Seq::empty()
    } else if s.len() == 1 {
        s
    } else if s.last() == s[s.len() - 2] {
        collapse_runs(s.drop_last())
    } else {
        collapse_runs(s.drop_last()).push(s.last())
    }
}

/// No two consecutive elements are equal.
pub open spec fn no_adjacent_repeats(s: Seq<Seq<char>>) -> bool {
    forall|i: int| 0 < i < s.len() ==> #[trigger] s[i] != s[i - 1]
}

/// Collapsing keeps the last element of a non-empty sequence.
pub proof fn lemma_collapse_runs_last(s: Seq<Seq<char>>)
    requires
        s.len() > 0,
    ensures
        collapse_runs(s).len() > 0,
        collapse_runs(s).last() == s.last(),
    decreases s.len(),
{
    if s.len() > 1 {
        lemma_collapse_runs_last(s.drop_last());
    }
}

/// After collapsing, no two consecutive cues are equal: each maximal run is
/// reduced to exactly one copy.
pub proof fn lemma_collapse_runs_no_repeats(s: Seq<Seq<char>>)
    ensures
        no_adjacent_repeats(collapse_runs(s)),
    decreases s.len(),
{
    if s.len() > 1 {
        lemma_collapse_runs_no_repeats(s.drop_last());
        if s.last() != s[s.len() - 2] {
            lemma_collapse_runs_last(s.drop_last());
            let c = collapse_runs(s.drop_last());
            let r = collapse_runs(s);
            assert(r == c.push(s.last()));
            assert forall|i: int| 0 < i < r.len() implies r[i] != #[trigger] r[i - 1] by {
                if i < r.len() - 1 {
                    assert(r[i] == c[i] && r[i - 1] == c[i - 1]);
                } else {
                    assert(r[i] == s.last() && r[i - 1] == c.last());
                    assert(c.last() == s.drop_last().last());
                }
            }
        }
    }
}

/// A sequence without adjacent repeats collapses to itself.
pub proof fn lemma_collapse_runs_fixed(s: Seq<Seq<char>>)
    requires
        no_adjacent_repeats(s),
    ensures
        collapse_runs(s) == s,
    decreases s.len(),
{
    if s.len() > 1 {
        assert(s[s.len() - 1] != s[s.len() - 1 - 1]);
        assert(s.last() != s[s.len() - 2]);
        assert(no_adjacent_repeats(s.drop_last())) by {
            assert forall|i: int| 0 < i < s.drop_last().len() implies s.drop_last()[i]
                != #[trigger] s.drop_last()[i - 1] by {
                assert(s.drop_last()[i] == s[i] && s.drop_last()[i - 1] == s[i - 1]);
            }
        }
        lemma_collapse_runs_fixed(s.drop_last());
        assert(collapse_runs(s) =~= s);
    } else if s.len() == 1 {
    } else {
        assert(collapse_runs(s) =~= s);
    }
}

/// Collapsing runs is idempotent: applying the reduction to an already
/// reduced cue sequence changes nothing.
pub proof fn lemma_collapse_runs_idempotent(s: Seq<Seq<char>>)
    ensures
        collapse_runs(collapse_runs(s)) == collapse_runs(s),
{
    lemma_collapse_runs_no_repeats(s);
    lemma_collapse_runs_fixed(collapse_runs(s));
}

/// Collapses consecutive equal strings, keeping the first of each run.
pub fn collapse_consecutive(items: &Vec<String>) -> (out: Vec<String>)
    ensures
        out.deep_view() == collapse_runs(items.deep_view()),
{
    let mut out: Vec<String> = Vec::new();
    let mut k: usize = 0;
    while k < items.len()
        invariant
            0 <= k <= items@.len(),
            out.deep_view() == collapse_runs(items.deep_view().subrange(0, k as int)),
        decreases items@.len() - k,
    {
        let ghost prefix = items.deep_view().subrange(0, k as int);
        let ghost next = items.deep_view().subrange(0, k as int + 1);
        proof {
            assert(next.drop_last() =~= prefix);
            assert(next.last() == items.deep_view()[k as int]);
            assert(items.deep_view()[k as int] =~= items@[k as int]@);
        }
        let ghost prev = out.deep_view();
        if k == 0 || !(items[k] == items[k - 1]) {
            out.push(items[k].clone());
            proof {
                assert(next.len() == k + 1);
                assert(out@.last() == items@[k as int]);
                assert forall|i: int| 0 <= i < prev.len() implies out.deep_view()[i] == prev[i] by {
                    assert(out@[i] == out@.drop_last()[i]);
                }
                assert(out.deep_view() =~~= prev.push(items@[k as int]@));
                if k > 0 {
                    assert(next[k as int - 1] =~= items@[k as int - 1]@);
                    assert(next.last() != next[k as int - 1]);
                    assert(collapse_runs(next) == collapse_runs(next.drop_last()).push(next.last()));
                }
                assert(out.deep_view() =~~= collapse_runs(next));
            }
        } else {
            proof {
                assert(next[k as int - 1] =~= items@[k as int - 1]@);
                assert(next.last() == next[k as int - 1]);
                assert(out.deep_view() =~~= collapse_runs(next));
            }
        }
        k += 1;
    }
    proof {
        assert(items.deep_view().subrange(0, items@.len() as int) =~= items.deep_view());
    }
    out
}

/// The reduced transcript of a cue list: each cue's payload lines joined with
/// single spaces and trimmed, maximal runs of equal consecutive cue texts
/// collapsed to one copy, and the survivors joined with single spaces.
pub open spec fn reduce_cues(cues: Seq<Seq<Seq<char>>>) -> Seq<char> {
    join_spaces(collapse_runs(Seq::new(cues.len(), |i: int| trim_spec(join_spaces(cues[i])))))
}

/// Reduces a cue list (one payload-line vector per cue) to a transcript.
pub fn reduce_cue_texts(cues: &Vec<Vec<String>>) -> (r: String)
    ensures
        r@ == reduce_cues(cues.deep_view()),
{
    let ghost goal = Seq::new(
        cues.deep_view().len(),
        |i: int| trim_spec(join_spaces(cues.deep_view()[i])),
    );
    let mut texts: Vec<String> = Vec::new();
    let mut k: usize = 0;
    while k < cues.len()
        invariant
            0 <= k <= cues@.len(),
            goal == Seq::new(
                cues.deep_view().len(),
                |i: int| trim_spec(join_spaces(cues.deep_view()[i])),
            ),
            cues.deep_view().len() == cues@.len(),
            texts.deep_view() == goal.subrange(0, k as int),
        decreases cues@.len() - k,
    {
        let joined = join_with_spaces(&cues[k]);
        let trimmed = trim_str(joined.as_str());
        let ghost prev = texts.deep_view();
        let ghost new_text = trimmed@;
        texts.push(trimmed);
        proof {

            assert forall|i: int| 0 <= i < prev.len() implies texts.deep_view()[i] == prev[i] by {
                assert(texts@[i] == texts@.drop_last()[i]);
            }
            assert(texts.deep_view() =~~= prev.push(new_text));
            assert(cues.deep_view()[k as int] =~~= cues@[k as int].deep_view());
            assert(new_text == goal[k as int]);
            assert(texts.deep_view() =~~= goal.subrange(0, k as int + 1));
        }
        k += 1;
    }
    proof {
        assert(texts.deep_view() =~= goal);
    }
    let collapsed = collapse_consecutive(&texts);
    let r = join_with_spaces(&collapsed);
    r
}

} // verus!
