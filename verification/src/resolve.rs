//! Keeper selection and the deletion plan: within each duplicate set the
//! earliest-timestamped record is kept (the first such on ties) and every
//! other member becomes a deletion candidate.
//!
//! Selection is a pure function of the records and the set, so re-running it
//! — once to preview, once to act — always yields the same choice.

use vstd::prelude::*;
use crate::grouping::{contains_index, set_wf, sets_in_bounds, DuplicateSet};
use crate::record::FileRecord;

verus! {

/// Position within `ms` of the first entry whose record has the minimum
/// timestamp.
pub open spec fn min_ts_pos(records: Seq<FileRecord>, ms: Seq<usize>) -> int
    decreases ms.len(),
{
    if ms.len() <= 1 {
        0
    } else {
        let p = min_ts_pos(records, ms.drop_last());
        if records[ms[ms.len() - 1] as int].timestamp < records[ms[p] as int].timestamp {
            ms.len() - 1
        } else {
            p
        }
    }
}

/// The chosen position carries the minimum timestamp, and every position
/// before it carries a strictly larger one — so the choice is the unique
/// first minimum.
pub proof fn lemma_min_ts_pos(records: Seq<FileRecord>, ms: Seq<usize>)
    requires
        ms.len() >= 1,
    ensures
        0 <= min_ts_pos(records, ms) < ms.len(),
        forall|a: int|
            0 <= a < ms.len() ==> records[ms[min_ts_pos(records, ms)] as int].timestamp
                <= records[#[trigger] ms[a] as int].timestamp,
        forall|a: int|
            0 <= a < min_ts_pos(records, ms) ==> records[#[trigger] ms[a] as int].timestamp
                > records[ms[min_ts_pos(records, ms)] as int].timestamp,
    decreases ms.len(),
{
    if ms.len() > 1 {
        lemma_min_ts_pos(records, ms.drop_last());
        assert(forall|a: int| 0 <= a < ms.len() - 1 ==> ms.drop_last()[a] == #[trigger] ms[a]);
    }
}

/// Keeper choice for one duplicate set: the position in `ds.members` of the
/// earliest-timestamped member, the first such position on ties.
pub fn keeper_position(records: &Vec<FileRecord>, ds: &DuplicateSet) -> (p: usize)
    requires
        ds.members@.len() >= 1,
        forall|a: int| 0 <= a < ds.members@.len() ==> #[trigger] ds.members@[a] < records@.len(),
    ensures
        p == min_ts_pos(records@, ds.members@),
        p < ds.members@.len(),
{
    let mut best: usize = 0;
    let mut a: usize = 1;
    proof {
        assert(ds.members@.take(1).len() == 1);
    }
    while a < ds.members.len()
        invariant
            1 <= a <= ds.members@.len(),
            ds.members@.len() >= 1,
            forall|k: int| 0 <= k < ds.members@.len() ==> #[trigger] ds.members@[k]
                < records@.len(),
            best < a,
            best == min_ts_pos(records@, ds.members@.take(a as int)),
        decreases ds.members@.len() - a,
    {
        let m = ds.members[a];
        let b = ds.members[best];
        let ghost prev = ds.members@.take(a as int);
        if records[m].timestamp < records[b].timestamp {
            best = a;
        }
        a = a + 1;
        proof {
            let cur = ds.members@.take(a as int);
            assert(cur.drop_last() =~= prev);
            assert(cur[cur.len() - 1] == ds.members@[a - 1]);
        }
    }
    proof {
        assert(ds.members@.take(ds.members@.len() as int) =~= ds.members@);
    }
    best
}

/// The members of a duplicate set other than the keeper, in order.
pub fn deletion_candidates(ds: &DuplicateSet, keep: usize) -> (dels: Vec<usize>)
    requires
        keep < ds.members@.len(),
    ensures
        dels@ == ds.members@.remove(keep as int),
{
    let mut dels: Vec<usize> = Vec::new();
    let mut a: usize = 0;
    while a < ds.members.len()
        invariant
            a <= ds.members@.len(),
            keep < ds.members@.len(),
            a <= keep ==> dels@ =~= ds.members@.take(a as int),
            a > keep ==> dels@ =~= ds.members@.remove(keep as int).take(a - 1),
        decreases ds.members@.len() - a,
    {
        let ghost d0 = dels@;
        if a != keep {
            dels.push(ds.members[a]);
        }
        a = a + 1;
        proof {
            let ms = ds.members@;
            if a - 1 < keep {
                assert(dels@ =~= ms.take(a as int));
            } else if a - 1 == keep {
                assert(dels@ == d0);
                assert(ms.remove(keep as int).take(keep as int) =~= ms.take(keep as int));
            } else {
                assert(dels@ == d0.push(ms[a - 1]));
                assert(ms.remove(keep as int)[a - 2] == ms[a - 1]);
                assert(dels@ =~= ms.remove(keep as int).take(a - 1));
            }
        }
    }
    proof {
        let ms = ds.members@;
        assert(ms.remove(keep as int).len() == ms.len() - 1);
        assert(dels@ =~= ms.remove(keep as int));
    }
    dels
}

/// Deletion candidates of one set: its members with the keeper removed.
pub open spec fn spec_set_deletions(records: Seq<FileRecord>, ds: DuplicateSet) -> Seq<usize> {
    ds.members@.remove(min_ts_pos(records, ds.members@))
}

/// All deletion candidates of a run, sets taken in order.
pub open spec fn spec_deletion_plan(records: Seq<FileRecord>, sets: Seq<DuplicateSet>) -> Seq<
    usize,
>
    decreases sets.len(),
{
    if sets.len() == 0 {
        Seq::empty()
    } else {
        spec_deletion_plan(records, sets.drop_last()) + spec_set_deletions(records, sets.last())
    }
}

/// Total number of files slated for deletion: the sum over the sets of one
/// less than the set's size.
pub open spec fn spec_deletions_total(sets: Seq<DuplicateSet>) -> int
    decreases sets.len(),
{
    if sets.len() == 0 {
        0
    } else {
        spec_deletions_total(sets.drop_last()) + sets.last().members@.len() - 1
    }
}

/// Every set contributes all of its members but the keeper, so the plan's
/// length is the sum over the sets of one less than the set's size.
pub proof fn lemma_plan_len(records: Seq<FileRecord>, sets: Seq<DuplicateSet>)
    requires
        forall|s: int| 0 <= s < sets.len() ==> (#[trigger] sets[s]).members@.len() >= 1,
    ensures
        spec_deletion_plan(records, sets).len() == spec_deletions_total(sets),
    decreases sets.len(),
{
    if sets.len() > 0 {
        lemma_plan_len(records, sets.drop_last());
        let ds = sets.last();
        lemma_min_ts_pos(records, ds.members@);
        assert(ds.members@.remove(min_ts_pos(records, ds.members@)).len() == ds.members@.len()
            - 1);
    }
}

/// The whole run's deletion plan: for every duplicate set, in order, the
/// indices of its members other than the keeper.
pub fn deletion_plan(records: &Vec<FileRecord>, sets: &Vec<DuplicateSet>) -> (plan: Vec<usize>)
    requires
        sets_in_bounds(sets@, records@.len() as int),
    ensures
        plan@ == spec_deletion_plan(records@, sets@),
{
    let mut plan: Vec<usize> = Vec::new();
    let mut s: usize = 0;
    while s < sets.len()
        invariant
            s <= sets@.len(),
            sets_in_bounds(sets@, records@.len() as int),
            plan@ == spec_deletion_plan(records@, sets@.take(s as int)),
        decreases sets@.len() - s,
    {
        let p = keeper_position(records, &sets[s]);
        let mut dels = deletion_candidates(&sets[s], p);
        plan.append(&mut dels);
        s = s + 1;
        proof {
            let cur = sets@.take(s as int);
            assert(cur.drop_last() =~= sets@.take(s - 1));
            assert(cur.last() == sets@[s - 1]);
        }
    }
    proof {
        assert(sets@.take(sets@.len() as int) =~= sets@);
    }
    plan
}

/// Totals for the report.
pub struct RunSummary {
    /// Number of duplicate sets found.
    pub sets_found: usize,
    /// Number of files slated for deletion.
    pub files_to_delete: usize,
}

/// Report totals: how many duplicate sets were found and how many files are
/// slated for deletion (sum over the sets of one less than the set's size).
pub fn summarize(records: &Vec<FileRecord>, sets: &Vec<DuplicateSet>) -> (sum: RunSummary)
    requires
        sets_in_bounds(sets@, records@.len() as int),
    ensures
        sum.sets_found == sets@.len(),
        sum.files_to_delete == spec_deletions_total(sets@),
        sum.files_to_delete == spec_deletion_plan(records@, sets@).len(),
{
    let plan = deletion_plan(records, sets);
    proof {
        lemma_plan_len(records@, sets@);
    }
    RunSummary { sets_found: sets.len(), files_to_delete: plan.len() }
}

/// Law: for a well-formed duplicate set exactly one member is kept — the
/// keeper carries the minimum timestamp — and every other member occurs in
/// the deletion candidates exactly once, the keeper not at all.
pub proof fn lemma_keeper_unique(records: Seq<FileRecord>, ds: DuplicateSet)
    requires
        set_wf(ds, records),
    ensures
        ({
            let p = min_ts_pos(records, ds.members@);
            let dels = spec_set_deletions(records, ds);
            &&& 0 <= p < ds.members@.len()
            &&& forall|a: int|
                0 <= a < ds.members@.len() ==> records[ds.members@[p] as int].timestamp
                    <= records[#[trigger] ds.members@[a] as int].timestamp
            &&& dels.len() == ds.members@.len() - 1
            &&& !contains_index(dels, ds.members@[p] as int)
            &&& forall|a: int|
                0 <= a < ds.members@.len() && a != p ==> contains_index(
                    dels,
                    #[trigger] ds.members@[a] as int,
                )
            &&& forall|b1: int, b2: int| 0 <= b1 < b2 < dels.len() ==> dels[b1] != dels[b2]
        }),
{
    let ms = ds.members@;
    lemma_min_ts_pos(records, ms);
    let p = min_ts_pos(records, ms);
    let dels = ms.remove(p);
    assert(dels.len() == ms.len() - 1);
    // members are strictly increasing, hence pairwise distinct
    assert forall|x: int, y: int| 0 <= x < ms.len() && 0 <= y < ms.len() && x != y implies ms[x]
        != ms[y] by {
        if x < y {
            assert(ms[x] < ms[y]);
        } else {
            assert(ms[y] < ms[x]);
        }
    };
    assert forall|b: int| 0 <= b < dels.len() implies dels[b] == if b < p {
        ms[b]
    } else {
        ms[b + 1]
    } by {};
    assert(!contains_index(dels, ms[p] as int)) by {
        if contains_index(dels, ms[p] as int) {
            let b = choose|b: int| 0 <= b < dels.len() && dels[b] == ms[p] as int;
            if b < p {
                assert(ms[b] != ms[p]);
            } else {
                assert(ms[b + 1] != ms[p]);
            }
        }
    };
    assert forall|a: int| 0 <= a < ms.len() && a != p implies contains_index(
        dels,
        #[trigger] ms[a] as int,
    ) by {
        if a < p {
            assert(dels[a] == ms[a]);
        } else {
            assert(dels[a - 1] == ms[a]);
        }
    };
    assert forall|b1: int, b2: int| 0 <= b1 < b2 < dels.len() implies dels[b1] != dels[b2] by {
        let x1: int = if b1 < p {
            b1
        } else {
            b1 + 1
        };
        let x2: int = if b2 < p {
            b2
        } else {
            b2 + 1
        };
        assert(dels[b1] == ms[x1]);
        assert(dels[b2] == ms[x2]);
        assert(ms[x1] != ms[x2]);
    };
}

} // verus!
