//! Counting the outcomes of a run.

use crate::outcome::{outcome_views, CopyOutcome, OutcomeView};
use vstd::prelude::*;

verus! {

/// How a run ended: the number of rows copied and the number of rows that
/// failed.
#[derive(Debug, Clone, Copy, PartialEq, Eq)]
pub struct RunResult {
    pub ok_cnt: usize,
    pub err_cnt: usize,
}

/// The number of outcomes that are successes.
pub open spec fn count_ok(outcomes: Seq<OutcomeView>) -> nat {
    outcomes.filter(|outcome: OutcomeView| outcome.succeeded()).len()
}

/// The number of outcomes that are failures: all that are no successes.
pub open spec fn count_err(outcomes: Seq<OutcomeView>) -> nat {
    (outcomes.len() - count_ok(outcomes)) as nat
}

/// Every success is one of the outcomes, so the two counts add up to the
/// number of outcomes.
pub proof fn lemma_counts_add_up(outcomes: Seq<OutcomeView>)
    ensures
        count_ok(outcomes) <= outcomes.len(),
        count_ok(outcomes) + count_err(outcomes) == outcomes.len(),
{
    outcomes.lemma_filter_len(|outcome: OutcomeView| outcome.succeeded());
}

/// One more outcome adds one to the count of its kind.
pub proof fn lemma_count_push(outcomes: Seq<OutcomeView>, outcome: OutcomeView)
    ensures
        count_ok(outcomes.push(outcome)) == count_ok(outcomes) + if outcome.succeeded() {
            1nat
        } else {
            0nat
        },
{
    outcomes.lemma_filter_len_push(|outcome: OutcomeView| outcome.succeeded(), outcome);
}

/// No outcomes, no successes.
pub proof fn lemma_count_empty()
    ensures
        count_ok(Seq::<OutcomeView>::empty()) == 0,
        count_err(Seq::<OutcomeView>::empty()) == 0,
{
    lemma_counts_add_up(Seq::<OutcomeView>::empty());
}

impl RunResult {
    /// Counts the successes and the failures among the outcomes.
    pub fn tally(outcomes: &Vec<CopyOutcome>) -> (result: RunResult)
        ensures
            result.ok_cnt == count_ok(outcome_views(outcomes@)),
            result.err_cnt == count_err(outcome_views(outcomes@)),
            result.ok_cnt + result.err_cnt == outcomes@.len(),
    {
        let ghost views = outcome_views(outcomes@);
        let mut ok_cnt: usize = 0;
        let mut i: usize = 0;
        proof {
            lemma_count_empty();
            assert(views.take(0) =~= Seq::<OutcomeView>::empty());
        }
        while i < outcomes.len()
            invariant
                i <= outcomes.len(),
                views == outcome_views(outcomes@),
                ok_cnt == count_ok(views.take(i as int)),
                ok_cnt <= i,
            decreases outcomes.len() - i,
        {
            proof {
                lemma_count_push(views.take(i as int), views[i as int]);
                assert(views.take(i as int + 1) =~= views.take(i as int).push(views[i as int]));
            }
            if outcomes[i].is_ok() {
                ok_cnt = ok_cnt + 1;
            }
            i = i + 1;
        }
        proof {
            assert(views.take(i as int) =~= views);
            lemma_counts_add_up(views);
        }
        RunResult { ok_cnt, err_cnt: outcomes.len() - ok_cnt }
    }
}

/// Two outcomes of one kind count alike, so taking one outcome out lowers
/// the count of its kind by one, wherever it stood.
proof fn lemma_count_remove(outcomes: Seq<OutcomeView>, i: int)
    requires
        0 <= i < outcomes.len(),
    ensures
        count_ok(outcomes) == count_ok(outcomes.remove(i)) + if outcomes[i].succeeded() {
            1nat
        } else {
            0nat
        },
{
    let succeeded = |outcome: OutcomeView| outcome.succeeded();
    let before = outcomes.take(i);
    let after = outcomes.skip(i + 1);
    assert(outcomes =~= before.push(outcomes[i]) + after);
    assert(outcomes.remove(i) =~= before + after);
    Seq::filter_distributes_over_add(before.push(outcomes[i]), after, succeeded);
    Seq::filter_distributes_over_add(before, after, succeeded);
    before.lemma_filter_len_push(succeeded, outcomes[i]);
}

/// The counts do not depend on the order of the outcomes: two sequences that
/// hold the same outcomes, each as often as the other, have the same counts.
pub proof fn lemma_tally_ignores_order(first: Seq<OutcomeView>, second: Seq<OutcomeView>)
    requires
        first.to_multiset() == second.to_multiset(),
    ensures
        count_ok(first) == count_ok(second),
        count_err(first) == count_err(second),
    decreases first.len(),
{
    first.to_multiset_ensures();
    second.to_multiset_ensures();
    if first.len() == 0 {
        assert(second.len() == 0);
        assert(first =~= second);
    } else {
        let last = first.last();
        let rest = first.drop_last();
        assert(first.contains(last));
        assert(second.to_multiset().count(last) > 0);
        assert(second.contains(last));
        let i = second.index_of(last);
        assert(rest =~= first.remove(first.len() - 1));
        vstd::seq_lib::to_multiset_remove(first, first.len() - 1);
        vstd::seq_lib::to_multiset_remove(second, i);
        lemma_tally_ignores_order(rest, second.remove(i));
        lemma_count_remove(first, first.len() - 1);
        lemma_count_remove(second, i);
    }
}

} // verus!
