//! Two-level grouping: records are partitioned by normalized filename and
//! then by exact byte size; the classes with at least two members are the
//! duplicate sets.
//!
//! The partition is stated index-wise: two records land in the same
//! duplicate set exactly when their normalized names and sizes agree, and no
//! record appears twice.

use vstd::prelude::*;
use crate::normalize::{normalize_filename, normalize_spec};
use crate::record::{same_class, FileRecord};

verus! {

/// A group of record indices sharing one normalized name and one exact size.
pub struct DuplicateSet {
    /// The shared normalized filename.
    pub key: String,
    /// The shared byte size.
    pub size: u64,
    /// Indices into the scanned records, in increasing order; at least two.
    pub members: Vec<usize>,
}

/// `x` occurs among the member indices `ms`.
pub open spec fn contains_index(ms: Seq<usize>, x: int) -> bool {
    exists|a: int| 0 <= a < ms.len() && ms[a] == x
}

/// Member `a` of the set points at a record carrying the set's key and size.
pub open spec fn member_matches(ds: DuplicateSet, records: Seq<FileRecord>, a: int) -> bool {
    &&& ds.members@[a] < records.len()
    &&& normalize_spec(records[ds.members@[a] as int].name@) == ds.key@
    &&& records[ds.members@[a] as int].size == ds.size
}

/// Well-formedness of a duplicate set with respect to the scanned records:
/// at least two members, each carrying the set's key and size, listed in
/// strictly increasing index order.
pub open spec fn set_wf(ds: DuplicateSet, records: Seq<FileRecord>) -> bool {
    &&& ds.members@.len() >= 2
    &&& forall|a: int| 0 <= a < ds.members@.len() ==> #[trigger] member_matches(ds, records, a)
    &&& forall|a: int, b: int|
        0 <= a < b < ds.members@.len() ==> #[trigger] ds.members@[a] < #[trigger] ds.members@[b]
}

/// Records `i` and `j` are members of one common duplicate set.
pub open spec fn in_same_set(sets: Seq<DuplicateSet>, i: int, j: int) -> bool {
    exists|s: int|
        0 <= s < sets.len() && contains_index(#[trigger] sets[s].members@, i) && contains_index(
            sets[s].members@,
            j,
        )
}

/// Every set is in bounds for the scanned records: non-empty members, each a
/// valid record index.
pub open spec fn sets_in_bounds(sets: Seq<DuplicateSet>, n_records: int) -> bool {
    forall|s: int|
        0 <= s < sets.len() ==> {
            &&& (#[trigger] sets[s]).members@.len() >= 1
            &&& forall|a: int| 0 <= a < sets[s].members@.len() ==> #[trigger] sets[s].members@[a]
                < n_records
        }
}

/// Well-formed duplicate sets are in bounds, so the resolver can work
/// directly on the grouper's output.
pub proof fn lemma_wf_sets_in_bounds(records: Seq<FileRecord>, sets: Seq<DuplicateSet>)
    requires
        forall|s: int| 0 <= s < sets.len() ==> set_wf(#[trigger] sets[s], records),
    ensures
        sets_in_bounds(sets, records.len() as int),
{
    assert forall|s: int|
        0 <= s < sets.len() implies ((#[trigger] sets[s]).members@.len() >= 1 && forall|a: int|
        0 <= a < sets[s].members@.len() ==> #[trigger] sets[s].members@[a] < records.len()) by {
        assert(set_wf(sets[s], records));
        assert forall|a: int|
            0 <= a < sets[s].members@.len() implies #[trigger] sets[s].members@[a]
            < records.len() by {
            assert(member_matches(sets[s], records, a));
        };
    };
}

/// Runtime check of `sets_in_bounds`, for callers that assembled the sets
/// elsewhere.
pub fn sets_in_bounds_check(records: &Vec<FileRecord>, sets: &Vec<DuplicateSet>) -> (b: bool)
    ensures
        b == sets_in_bounds(sets@, records@.len() as int),
{
    let n = records.len();
    let mut s: usize = 0;
    while s < sets.len()
        invariant
            s <= sets@.len(),
            n == records@.len(),
            forall|s0: int|
                0 <= s0 < s ==> {
                    &&& (#[trigger] sets@[s0]).members@.len() >= 1
                    &&& forall|a: int|
                        0 <= a < sets@[s0].members@.len() ==> #[trigger] sets@[s0].members@[a] < n
                },
        decreases sets@.len() - s,
    {
        if sets[s].members.len() == 0 {
            return false;
        }
        let mut a: usize = 0;
        while a < sets[s].members.len()
            invariant
                s < sets@.len(),
                a <= sets@[s as int].members@.len(),
                n == records@.len(),
                forall|a0: int|
                    0 <= a0 < a ==> #[trigger] sets@[s as int].members@[a0] < n,
            decreases sets@[s as int].members@.len() - a,
        {
            if sets[s].members[a] >= n {
                return false;
            }
            a = a + 1;
        }
        s = s + 1;
    }
    true
}

/// Some record before position `i` shares the class of record `p`.
pub open spec fn class_seen_before(records: Seq<FileRecord>, p: int, i: int) -> bool {
    exists|j: int| 0 <= j < i && #[trigger] same_class(records[j], records[p])
}

/// Partition the records into duplicate sets: classes of equal normalized
/// name and equal size with at least two members.  Each record appears in at
/// most one set, and at most once; two distinct records share a set exactly
/// when their classes agree.
#[verifier::loop_isolation(false)]
pub fn find_duplicate_sets(records: &Vec<FileRecord>) -> (sets: Vec<DuplicateSet>)
    ensures
        forall|s: int| 0 <= s < sets@.len() ==> set_wf(#[trigger] sets@[s], records@),
        sets_in_bounds(sets@, records@.len() as int),
        forall|p: int, q: int|
            0 <= p < records@.len() && 0 <= q < records@.len() && p != q && #[trigger] same_class(
                records@[p],
                records@[q],
            ) ==> in_same_set(sets@, p, q),
        forall|s1: int, s2: int, a: int, b: int|
            0 <= s1 < sets@.len() && 0 <= s2 < sets@.len() && 0 <= a < sets@[s1].members@.len()
                && 0 <= b < sets@[s2].members@.len() && (s1 != s2 || a != b)
                ==> #[trigger] sets@[s1].members@[a] != #[trigger] sets@[s2].members@[b],
        forall|s: int, a: int, b: int|
            0 <= s < sets@.len() && 0 <= a < sets@[s].members@.len() && 0 <= b
                < sets@[s].members@.len() ==> same_class(
                records@[#[trigger] sets@[s].members@[a] as int],
                records@[#[trigger] sets@[s].members@[b] as int],
            ),
{
    let n = records.len();
    let mut keys: Vec<String> = Vec::new();
    let mut idx: usize = 0;
    while idx < n
        invariant
            idx <= n,
            keys@.len() == idx,
            forall|k: int| 0 <= k < idx ==> (#[trigger] keys@[k])@ == normalize_spec(
                records@[k].name@,
            ),
        decreases n - idx,
    {
        let key = normalize_filename(records[idx].name.as_str());
        keys.push(key);
        idx = idx + 1;
    }
    let mut sets: Vec<DuplicateSet> = Vec::new();
    let mut i: usize = 0;
    while i < n
        invariant
            i <= n,
            forall|s: int| 0 <= s < sets@.len() ==> set_wf(#[trigger] sets@[s], records@),
            forall|s: int| 0 <= s < sets@.len() ==> #[trigger] sets@[s].members@[0] < i,
            forall|s1: int, s2: int|
                0 <= s1 < s2 < sets@.len() ==> #[trigger] sets@[s1].members@[0]
                    < #[trigger] sets@[s2].members@[0],
            forall|s: int, l: int|
                0 <= s < sets@.len() && 0 <= l < records@.len() && #[trigger] same_class(
                    records@[l],
                    records@[sets@[s].members@[0] as int],
                ) ==> contains_index(sets@[s].members@, l),
            forall|p: int, q: int|
                0 <= p < records@.len() && 0 <= q < records@.len() && p != q
                    && #[trigger] same_class(records@[p], records@[q]) && class_seen_before(
                    records@,
                    p,
                    i as int,
                ) ==> in_same_set(sets@, p, q),
        decreases n - i,
    {
        let mut seen = false;
        let mut j: usize = 0;
        while j < i
            invariant
                j <= i,
                seen == exists|j0: int|
                    0 <= j0 < j && #[trigger] same_class(records@[j0], records@[i as int]),
            decreases i - j,
        {
            if keys[j] == keys[i] && records[j].size == records[i].size {
                proof {
                    assert(same_class(records@[j as int], records@[i as int]));
                }
                seen = true;
            } else {
                proof {
                    assert(!same_class(records@[j as int], records@[i as int]));
                }
            }
            j = j + 1;
        }
        if !seen {
            let mut members: Vec<usize> = Vec::new();
            let mut l: usize = i;
            while l < n
                invariant
                    i <= l <= n,
                    forall|a: int|
                        0 <= a < members@.len() ==> i <= #[trigger] members@[a] && members@[a] < l,
                    forall|a: int|
                        0 <= a < members@.len() ==> same_class(
                            records@[#[trigger] members@[a] as int],
                            records@[i as int],
                        ),
                    forall|l0: int|
                        i <= l0 < l && #[trigger] same_class(records@[l0], records@[i as int])
                            ==> contains_index(members@, l0),
                    forall|a: int, b: int|
                        0 <= a < b < members@.len() ==> #[trigger] members@[a]
                            < #[trigger] members@[b],
                    l > i ==> members@.len() >= 1 && members@[0] == i,
                decreases n - l,
            {
                if keys[l] == keys[i] && records[l].size == records[i].size {
                    proof {
                        assert(same_class(records@[l as int], records@[i as int]));
                    }
                    let ghost m0 = members@;
                    members.push(l);
                    proof {
                        assert(members@ == m0.push(l as usize));
                        assert(members@[m0.len() as int] == l as usize);
                        assert forall|l0: int|
                            i <= l0 < l + 1 && #[trigger] same_class(
                                records@[l0],
                                records@[i as int],
                            ) implies contains_index(members@, l0) by {
                            if l0 < l {
                                let a = choose|a: int| 0 <= a < m0.len() && m0[a] == l0;
                                assert(members@[a] == l0);
                            } else {
                                assert(members@[m0.len() as int] == l0);
                            }
                        };
                    }
                } else {
                    proof {
                        assert(!same_class(records@[l as int], records@[i as int]));
                    }
                }
                l = l + 1;
            }
            if members.len() >= 2 {
                let ghost old_sets = sets@;
                let key = keys[i].clone();
                let size = records[i].size;
                let ds = DuplicateSet { key, size, members };
                proof {
                    assert forall|a: int| 0 <= a < ds.members@.len() implies #[trigger] member_matches(
                        ds,
                        records@,
                        a,
                    ) by {
                        assert(same_class(records@[ds.members@[a] as int], records@[i as int]));
                    };
                    assert(set_wf(ds, records@));
                }
                sets.push(ds);
                proof {
                    let sn = old_sets.len() as int;
                    assert(sets@[sn] == ds);
                    assert forall|s: int| 0 <= s < sn implies sets@[s] == old_sets[s] by {};
                    // the new set holds its whole class
                    assert forall|l0: int|
                        0 <= l0 < records@.len() && same_class(
                            records@[l0],
                            records@[i as int],
                        ) implies contains_index(ds.members@, l0) by {
                        if l0 < i {
                            assert(same_class(records@[l0], records@[i as int]));
                            assert(seen == false);
                            assert(false);
                        }
                    };
                    // completeness carries to the grown list of sets
                    assert forall|p: int, q: int|
                        0 <= p < records@.len() && 0 <= q < records@.len() && p != q
                            && #[trigger] same_class(records@[p], records@[q]) && class_seen_before(
                            records@,
                            p,
                            (i + 1) as int,
                        ) implies in_same_set(sets@, p, q) by {
                        let w = choose|w: int|
                            0 <= w < i + 1 && #[trigger] same_class(records@[w], records@[p]);
                        if w < i {
                            assert(class_seen_before(records@, p, i as int));
                            assert(in_same_set(old_sets, p, q));
                            let s0 = choose|s0: int|
                                0 <= s0 < old_sets.len() && contains_index(
                                    #[trigger] old_sets[s0].members@,
                                    p,
                                ) && contains_index(old_sets[s0].members@, q);
                            assert(sets@[s0] == old_sets[s0]);
                            assert(in_same_set(sets@, p, q));
                        } else {
                            // the witness is record i itself: both p and q lie in its class
                            assert(same_class(records@[i as int], records@[p]));
                            assert(same_class(records@[p], records@[q]));
                            assert(same_class(records@[p], records@[i as int]));
                            assert(same_class(records@[q], records@[i as int]));
                            assert(contains_index(ds.members@, p));
                            assert(contains_index(ds.members@, q));
                            assert(contains_index(sets@[sn].members@, p));
                            assert(in_same_set(sets@, p, q));
                        }
                    };
                }
            } else {
                proof {
                    // the class of record i is the singleton {i}: no pair to cover
                    assert forall|p: int, q: int|
                        0 <= p < records@.len() && 0 <= q < records@.len() && p != q
                            && #[trigger] same_class(records@[p], records@[q]) && class_seen_before(
                            records@,
                            p,
                            (i + 1) as int,
                        ) implies in_same_set(sets@, p, q) by {
                        let w = choose|w: int|
                            0 <= w < i + 1 && #[trigger] same_class(records@[w], records@[p]);
                        if w < i {
                            assert(class_seen_before(records@, p, i as int));
                        } else {
                            assert(same_class(records@[i as int], records@[p]));
                            assert(same_class(records@[p], records@[i as int]));
                            if p < i {
                                assert(false);
                            }
                            assert(contains_index(members@, p));
                            let a = choose|a: int|
                                0 <= a < members@.len() && members@[a] == p;
                            assert(members@.len() == 1);
                            assert(p == i as int);
                            assert(same_class(records@[q], records@[i as int]));
                            if q < i {
                                assert(false);
                            }
                            assert(contains_index(members@, q));
                            let b = choose|b: int|
                                0 <= b < members@.len() && members@[b] == q;
                            assert(q == i as int);
                            assert(false);
                        }
                    };
                }
            }
        } else {
            proof {
                assert forall|p: int, q: int|
                    0 <= p < records@.len() && 0 <= q < records@.len() && p != q
                        && #[trigger] same_class(records@[p], records@[q]) && class_seen_before(
                        records@,
                        p,
                        (i + 1) as int,
                    ) implies in_same_set(sets@, p, q) by {
                    let w = choose|w: int|
                        0 <= w < i + 1 && #[trigger] same_class(records@[w], records@[p]);
                    if w < i {
                        assert(class_seen_before(records@, p, i as int));
                    } else {
                        let j0 = choose|j0: int|
                            0 <= j0 < i && #[trigger] same_class(records@[j0], records@[i as int]);
                        assert(same_class(records@[i as int], records@[p]));
                        assert(same_class(records@[j0], records@[p]));
                        assert(class_seen_before(records@, p, i as int));
                    }
                };
            }
        }
        i = i + 1;
    }
    proof {
        // every pair of one class is covered: the record itself is a witness
        assert forall|p: int, q: int|
            0 <= p < records@.len() && 0 <= q < records@.len() && p != q && #[trigger] same_class(
                records@[p],
                records@[q],
            ) implies in_same_set(sets@, p, q) by {
            assert(same_class(records@[p], records@[p]));
            assert(class_seen_before(records@, p, n as int));
        };
        // no record index appears twice across or within sets
        assert forall|s1: int, s2: int, a: int, b: int|
            0 <= s1 < sets@.len() && 0 <= s2 < sets@.len() && 0 <= a < sets@[s1].members@.len()
                && 0 <= b < sets@[s2].members@.len() && (s1 != s2 || a != b) implies #[trigger] sets@[s1].members@[a]
            != #[trigger] sets@[s2].members@[b] by {
            if s1 == s2 {
                if a < b {
                    assert(sets@[s1].members@[a] < sets@[s1].members@[b]);
                } else {
                    assert(sets@[s1].members@[b] < sets@[s1].members@[a]);
                }
            } else if sets@[s1].members@[a] == sets@[s2].members@[b] {
                let x = sets@[s1].members@[a] as int;
                assert(member_matches(sets@[s1], records@, a));
                assert(member_matches(sets@[s1], records@, 0));
                assert(member_matches(sets@[s2], records@, b));
                assert(member_matches(sets@[s2], records@, 0));
                let f1 = sets@[s1].members@[0] as int;
                let f2 = sets@[s2].members@[0] as int;
                assert(same_class(records@[x], records@[f1]));
                assert(same_class(records@[x], records@[f2]));
                assert(same_class(records@[f2], records@[f1]));
                assert(same_class(records@[f1], records@[f2]));
                assert(contains_index(sets@[s1].members@, f2));
                assert(contains_index(sets@[s2].members@, f1));
                let a2 = choose|a2: int|
                    0 <= a2 < sets@[s1].members@.len() && sets@[s1].members@[a2] == f2;
                if a2 > 0 {
                    assert(sets@[s1].members@[0] < sets@[s1].members@[a2]);
                }
                let b2 = choose|b2: int|
                    0 <= b2 < sets@[s2].members@.len() && sets@[s2].members@[b2] == f1;
                if b2 > 0 {
                    assert(sets@[s2].members@[0] < sets@[s2].members@[b2]);
                }
                assert(f1 == f2);
                if s1 < s2 {
                    assert(sets@[s1].members@[0] < sets@[s2].members@[0]);
                } else {
                    assert(sets@[s2].members@[0] < sets@[s1].members@[0]);
                }
                assert(false);
            }
        };
        // members of one set are all of one class
        assert forall|s: int, a: int, b: int|
            0 <= s < sets@.len() && 0 <= a < sets@[s].members@.len() && 0 <= b
                < sets@[s].members@.len() implies same_class(
            records@[#[trigger] sets@[s].members@[a] as int],
            records@[#[trigger] sets@[s].members@[b] as int],
        ) by {
            assert(member_matches(sets@[s], records@, a));
            assert(member_matches(sets@[s], records@, b));
        };
        lemma_wf_sets_in_bounds(records@, sets@);
    }
    sets
}

} // verus!
