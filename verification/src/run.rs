//! Run control: what happens after the report is emitted, how the
//! confirmation prompt is interpreted, and how deletion outcomes are
//! tallied.
//!
//! Deletion is approved only when duplicates were found, the run is not a
//! dry run, and the prompt was answered affirmatively; the laws below state
//! that a dry run or a declined prompt never approves a deletion.

use vstd::prelude::*;

verus! {

/// Where the run stands once the report is emitted.
#[derive(Clone, Copy, Debug, PartialEq, Eq, Structural)]
pub enum RunOutcome {
    /// No duplicate sets were found: the run ends at once, no prompt.
    NoDuplicates,
    /// Dry-run mode: totals are printed, nothing is touched, no prompt.
    DryRunDone,
    /// Duplicates were found in a live run: ask for confirmation.
    AwaitConfirmation,
}

/// Transition after reporting, as a function of the count of duplicate sets
/// and the mode.
pub open spec fn outcome_spec(sets_found: int, dry_run: bool) -> RunOutcome {
    if sets_found == 0 {
        RunOutcome::NoDuplicates
    } else if dry_run {
        RunOutcome::DryRunDone
    } else {
        RunOutcome::AwaitConfirmation
    }
}

/// Decide where the run stands after the report: a run without duplicates
/// ends at once, a dry run stops before any prompt, and only a live run with
/// duplicates asks for confirmation.
pub fn after_report(sets_found: usize, dry_run: bool) -> (o: RunOutcome)
    ensures
        o == outcome_spec(sets_found as int, dry_run),
{
    if sets_found == 0 {
        RunOutcome::NoDuplicates
    } else if dry_run {
        RunOutcome::DryRunDone
    } else {
        RunOutcome::AwaitConfirmation
    }
}

/// Whitespace stripped around a prompt answer.
pub open spec fn is_answer_ws(c: char) -> bool {
    c == ' ' || c == '\t' || c == '\r' || c == '\n'
}

/// Number of whitespace characters at the front of `s`.
pub open spec fn leading_ws_count(s: Seq<char>) -> int
    decreases s.len(),
{
    if s.len() == 0 || !is_answer_ws(s[0]) {
        0
    } else {
        1 + leading_ws_count(s.drop_first())
    }
}

/// Number of whitespace characters at the end of `s`.
pub open spec fn trailing_ws_count(s: Seq<char>) -> int
    decreases s.len(),
{
    if s.len() == 0 || !is_answer_ws(s[s.len() - 1]) {
        0
    } else {
        1 + trailing_ws_count(s.drop_last())
    }
}

/// The answer with surrounding whitespace removed.
pub open spec fn trimmed_spec(s: Seq<char>) -> Seq<char> {
    if leading_ws_count(s) == s.len() {
        Seq::empty()
    } else {
        s.subrange(leading_ws_count(s), s.len() - trailing_ws_count(s))
    }
}

/// An affirmative answer: `y` or `yes` in any letter case, ignoring
/// surrounding whitespace.  Anything else — the empty line included —
/// declines.
pub open spec fn affirmative_spec(s: Seq<char>) -> bool {
    let t = trimmed_spec(s);
    ||| (t.len() == 1 && (t[0] == 'y' || t[0] == 'Y'))
    ||| (t.len() == 3 && (t[0] == 'y' || t[0] == 'Y') && (t[1] == 'e' || t[1] == 'E') && (t[2]
        == 's' || t[2] == 'S'))
}

/// Whether the character at position `i` of `s` is answer whitespace.
fn ws_at(s: &str, i: usize) -> (b: bool)
    requires
        i < s@.len(),
    ensures
        b == is_answer_ws(s@[i as int]),
{
    let c = s.get_char(i);
    c == ' ' || c == '\t' || c == '\r' || c == '\n'
}

/// Interpret the confirmation prompt's answer.
pub fn is_affirmative(answer: &str) -> (b: bool)
    ensures
        b == affirmative_spec(answer@),
{
    let n = answer.unicode_len();
    let mut lead: usize = 0;
    proof {
        assert(answer@.subrange(0, n as int) =~= answer@);
    }
    while lead < n && ws_at(answer, lead)
        invariant
            lead <= n,
            n == answer@.len(),
            leading_ws_count(answer@) == lead + leading_ws_count(
                answer@.subrange(lead as int, n as int),
            ),
            forall|k: int| 0 <= k < lead ==> is_answer_ws(#[trigger] answer@[k]),
        decreases n - lead,
    {
        lead = lead + 1;
        proof {
            let prev = answer@.subrange(lead - 1, n as int);
            assert(prev[0] == answer@[lead - 1]);
            assert(prev.drop_first() =~= answer@.subrange(lead as int, n as int));
        }
    }
    proof {
        let rest = answer@.subrange(lead as int, n as int);
        if lead < n {
            assert(rest[0] == answer@[lead as int]);
            assert(leading_ws_count(rest) == 0);
        }
        assert(leading_ws_count(answer@) == lead);
    }
    if lead == n {
        return false;
    }
    let mut trail: usize = 0;
    proof {
        assert(answer@.subrange(0, n as int) =~= answer@);
    }
    while trail < n && ws_at(answer, n - trail - 1)
        invariant
            trail <= n,
            n == answer@.len(),
            trailing_ws_count(answer@) == trail + trailing_ws_count(
                answer@.subrange(0, (n - trail) as int),
            ),
            forall|k: int| n - trail <= k < n ==> is_answer_ws(#[trigger] answer@[k]),
        decreases n - trail,
    {
        trail = trail + 1;
        proof {
            let prev = answer@.subrange(0, (n - trail + 1) as int);
            assert(prev[prev.len() - 1] == answer@[n - trail]);
            assert(prev.drop_last() =~= answer@.subrange(0, (n - trail) as int));
        }
    }
    proof {
        let rest = answer@.subrange(0, (n - trail) as int);
        if trail < n {
            assert(rest[rest.len() - 1] == answer@[n - trail - 1]);
            assert(trailing_ws_count(rest) == 0);
        } else {
            assert(rest.len() == 0);
        }
        assert(trailing_ws_count(answer@) == trail);
        // the first non-whitespace character bounds the trailing run
        assert(!is_answer_ws(answer@[lead as int]));
        assert(n - trail > lead);
    }
    let start = lead;
    let end = n - trail;
    proof {
        assert(trimmed_spec(answer@) == answer@.subrange(start as int, end as int));
    }
    let tlen = end - start;
    if tlen == 1 {
        let c = answer.get_char(start);
        proof {
            assert(trimmed_spec(answer@)[0] == answer@[start as int]);
        }
        c == 'y' || c == 'Y'
    } else if tlen == 3 {
        let c0 = answer.get_char(start);
        let c1 = answer.get_char(start + 1);
        let c2 = answer.get_char(start + 2);
        proof {
            assert(trimmed_spec(answer@)[0] == answer@[start as int]);
            assert(trimmed_spec(answer@)[1] == answer@[start + 1]);
            assert(trimmed_spec(answer@)[2] == answer@[start + 2]);
        }
        (c0 == 'y' || c0 == 'Y') && (c1 == 'e' || c1 == 'E') && (c2 == 's' || c2 == 'S')
    } else {
        false
    }
}

/// Deletion is approved only when duplicates were found, the run is not a
/// dry run, and the prompt was answered affirmatively.
pub open spec fn deletion_approved(sets_found: int, dry_run: bool, answer: Option<Seq<char>>) -> bool {
    &&& outcome_spec(sets_found, dry_run) == RunOutcome::AwaitConfirmation
    &&& match answer {
        Some(a) => affirmative_spec(a),
        None => false,
    }
}

/// The decision in front of the executor: approve deletion or stop.
pub fn confirm_deletion(sets_found: usize, dry_run: bool, answer: Option<&str>) -> (b: bool)
    ensures
        b == deletion_approved(
            sets_found as int,
            dry_run,
            match answer {
                Some(a) => Some(a@),
                None => None,
            },
        ),
{
    if sets_found == 0 || dry_run {
        false
    } else {
        match answer {
            Some(a) => is_affirmative(a),
            None => false,
        }
    }
}

/// Law: a dry run never asks for confirmation and never approves a deletion,
/// whatever was typed — or not typed — at a prompt.
pub proof fn lemma_dry_run_never_deletes(sets_found: int, answer: Option<Seq<char>>)
    ensures
        outcome_spec(sets_found, true) != RunOutcome::AwaitConfirmation,
        !deletion_approved(sets_found, true, answer),
{
}

/// Law: declining the confirmation prompt never approves a deletion.
pub proof fn lemma_decline_never_deletes(sets_found: int, dry_run: bool, answer: Seq<char>)
    requires
        !affirmative_spec(answer),
    ensures
        !deletion_approved(sets_found, dry_run, Some(answer)),
{
}

/// Law: with no duplicate sets the run ends at once, so no confirmation is
/// ever requested.
pub proof fn lemma_no_duplicates_short_circuit(dry_run: bool)
    ensures
        outcome_spec(0, dry_run) == RunOutcome::NoDuplicates,
{
}

/// Number of `true` entries in `s`.
pub open spec fn count_true(s: Seq<bool>) -> int
    decreases s.len(),
{
    if s.len() == 0 {
        0
    } else {
        count_true(s.drop_last()) + if s.last() {
            1int
        } else {
            0int
        }
    }
}

pub proof fn lemma_count_true_bounds(s: Seq<bool>)
    ensures
        0 <= count_true(s) <= s.len(),
    decreases s.len(),
{
    if s.len() > 0 {
        lemma_count_true_bounds(s.drop_last());
    }
}

/// Totals of the deletion phase.
pub struct DeletionTally {
    /// Removals that succeeded.
    pub deleted: usize,
    /// Removals that failed; each was reported and did not stop the rest.
    pub failed: usize,
}

/// Tally the per-candidate removal outcomes: every success and every failure
/// is counted, and together they cover all attempts.
pub fn tally_outcomes(results: &Vec<bool>) -> (t: DeletionTally)
    ensures
        t.deleted == count_true(results@),
        t.failed == results@.len() - count_true(results@),
        t.deleted + t.failed == results@.len(),
{
    let mut deleted: usize = 0;
    let mut failed: usize = 0;
    let mut i: usize = 0;
    while i < results.len()
        invariant
            i <= results@.len(),
            deleted == count_true(results@.take(i as int)),
            deleted + failed == i,
        decreases results@.len() - i,
    {
        let ghost prev = results@.take(i as int);
        proof {
            lemma_count_true_bounds(prev);
        }
        if results[i] {
            deleted = deleted + 1;
        } else {
            failed = failed + 1;
        }
        i = i + 1;
        proof {
            let cur = results@.take(i as int);
            assert(cur.drop_last() =~= prev);
            assert(cur.last() == results@[i - 1]);
        }
    }
    proof {
        assert(results@.take(results@.len() as int) =~= results@);
    }
    DeletionTally { deleted, failed }
}

} // verus!
