//! The fan-out coordinator's collection step.
//!
//! One unit of work runs per recording; the units are drained in dispatch
//! order, so the same input set yields the same output order on an
//! immediate re-run against frozen content.  A failed unit is dropped from
//! the output and affects neither its siblings nor the batch.

use vstd::prelude::*;
use crate::rows::DataRow;

verus! {

/// The rows of the successful units, in dispatch order.
pub open spec fn ok_rows<E>(results: Seq<Result<DataRow, E>>) -> Seq<DataRow>
    decreases results.len(),
{
    if results.len() == 0 {
        Seq::empty()
    } else {
        let rest = ok_rows(results.drop_first());
        match results[0] {
            Ok(r) => seq![r] + rest,
            Err(_) => rest,
        }
    }
}

/// Collects the batch output from the per-recording results, drained in
/// dispatch order: every successful row, failures dropped.
pub fn collect_rows<E>(results: Vec<Result<DataRow, E>>) -> (rows: Vec<DataRow>)
    ensures
        rows@ == ok_rows(results@),
{
    let ghost goal = ok_rows(results@);
    let mut rest = results;
    let mut rows: Vec<DataRow> = Vec::new();
    proof {
        assert(rows@ + ok_rows(rest@) =~= goal);
    }
    while rest.len() > 0
        invariant
            rows@ + ok_rows(rest@) == goal,
        decreases rest@.len(),
    {
        let ghost before = rest@;
        let item = rest.remove(0);
        proof {
            assert(rest@ =~= before.drop_first());
            assert(item == before[0]);
        }
        match item {
            Ok(row) => {
                rows.push(row);
                proof {
                    assert(rows@ + ok_rows(rest@) =~= goal);
                }
            },
            Err(_) => {
                proof {
                    assert(rows@ + ok_rows(rest@) =~= goal);
                }
            },
        }
    }
    proof {
        assert(ok_rows(rest@) =~= Seq::<DataRow>::empty());
        assert(rows@ =~= goal);
    }
    rows
}

/// Batch isolation: one failing unit is dropped from the output, and the
/// output is exactly what the batch without that unit yields — the failure
/// has no effect on any other unit's row.
pub proof fn lemma_batch_isolation<E>(results: Seq<Result<DataRow, E>>, j: int)
    requires
        0 <= j < results.len(),
        results[j] is Err,
    ensures
        ok_rows(results) == ok_rows(results.remove(j)),
    decreases j,
{
    if j == 0 {
        assert(results.remove(0) =~= results.drop_first());
    } else {
        lemma_batch_isolation(results.drop_first(), j - 1);
        assert(results.remove(j).drop_first() =~= results.drop_first().remove(j - 1));
        assert(results.remove(j)[0] == results[0]);
        assert(ok_rows(results.remove(j)) == ok_rows(results));
    }
}

} // verus!
