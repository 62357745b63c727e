use dedupe::grouping::{find_duplicate_sets, sets_in_bounds_check};
use dedupe::record::{collect_entry, Collected, FileRecord};
use dedupe::resolve::{deletion_candidates, deletion_plan, keeper_position, summarize};
use dedupe::run::{after_report, confirm_deletion, is_affirmative, tally_outcomes, RunOutcome};

fn rec(name: &str, size: u64, ts: u64) -> FileRecord {
    FileRecord {
        path: format!("/scan/{}", name),
        name: name.to_string(),
        size,
        timestamp: ts,
    }
}

#[test]
fn grouping_by_normalized_name_and_size() {
    let records = vec![
        rec("doc.txt", 100, 1),      // 0
        rec("doc (1).txt", 100, 2),  // 1: same class as 0
        rec("doc (2).txt", 200, 3),  // 2: same name, other size
        rec("other.txt", 100, 4),    // 3: other name
        rec("doc copy.txt", 100, 5), // 4: same class as 0
    ];
    let sets = find_duplicate_sets(&records);
    assert_eq!(sets.len(), 1);
    assert_eq!(sets[0].key, "doc.txt");
    assert_eq!(sets[0].size, 100);
    assert_eq!(sets[0].members, vec![0, 1, 4]);
}

#[test]
fn equal_names_different_sizes_yield_no_set() {
    let records = vec![rec("doc.txt", 100, 1), rec("doc (1).txt", 200, 2)];
    let sets = find_duplicate_sets(&records);
    assert_eq!(sets.len(), 0);
}

#[test]
fn two_separate_sets_and_their_keepers() {
    let records = vec![
        rec("a.txt", 1, 10),
        rec("b.txt", 2, 10),
        rec("a (1).txt", 1, 5),
        rec("b copy.txt", 2, 30),
    ];
    let sets = find_duplicate_sets(&records);
    assert_eq!(sets.len(), 2);
    assert_eq!(sets[0].members, vec![0, 2]);
    assert_eq!(sets[1].members, vec![1, 3]);
    // earliest timestamp wins: record 2 (ts 5) and record 1 (ts 10)
    let p0 = keeper_position(&records, &sets[0]);
    assert_eq!(sets[0].members[p0], 2);
    let p1 = keeper_position(&records, &sets[1]);
    assert_eq!(sets[1].members[p1], 1);
}

#[test]
fn keeper_tie_breaks_to_first_member() {
    let records = vec![
        rec("t.txt", 9, 50),
        rec("t (1).txt", 9, 50),
        rec("t (2).txt", 9, 50),
    ];
    let sets = find_duplicate_sets(&records);
    assert_eq!(sets.len(), 1);
    let p = keeper_position(&records, &sets[0]);
    assert_eq!(p, 0);
    let dels = deletion_candidates(&sets[0], p);
    assert_eq!(dels, vec![1, 2]);
}

#[test]
fn summary_totals_and_plan() {
    let records = vec![
        rec("a.txt", 1, 1),
        rec("a (1).txt", 1, 2),
        rec("a (2).txt", 1, 3),
        rec("b.txt", 2, 2),
        rec("b (1).txt", 2, 1),
    ];
    let sets = find_duplicate_sets(&records);
    assert!(sets_in_bounds_check(&records, &sets));
    let sum = summarize(&records, &sets);
    assert_eq!(sum.sets_found, 2);
    assert_eq!(sum.files_to_delete, 3);
    // keepers are record 0 (ts 1) and record 4 (ts 1); the rest are planned
    let plan = deletion_plan(&records, &sets);
    assert_eq!(plan, vec![1, 2, 3]);
}

#[test]
fn end_to_end_photo_scenario() {
    let records = vec![rec("photo.jpg", 1000, 100), rec("photo (1).jpg", 1000, 200)];
    let sets = find_duplicate_sets(&records);
    assert_eq!(sets.len(), 1);
    assert_eq!(sets[0].key, "photo.jpg");
    assert_eq!(sets[0].size, 1000);
    assert_eq!(sets[0].members, vec![0, 1]);
    let p = keeper_position(&records, &sets[0]);
    assert_eq!(records[sets[0].members[p]].path, "/scan/photo.jpg");
    let dels = deletion_candidates(&sets[0], p);
    assert_eq!(dels, vec![1]);
    assert_eq!(records[dels[0]].path, "/scan/photo (1).jpg");
    assert_eq!(after_report(sets.len(), false), RunOutcome::AwaitConfirmation);
    assert!(confirm_deletion(sets.len(), false, Some("y")));
    let results = vec![true];
    let tally = tally_outcomes(&results);
    assert_eq!(tally.deleted, 1);
    assert_eq!(tally.failed, 0);
}

#[test]
fn no_duplicates_scenario_short_circuits() {
    let records = vec![rec("a.txt", 10, 1), rec("b.txt", 10, 2), rec("c.txt", 20, 3)];
    let sets = find_duplicate_sets(&records);
    assert_eq!(sets.len(), 0);
    // no confirmation step is offered in either mode
    assert_eq!(after_report(0, false), RunOutcome::NoDuplicates);
    assert_eq!(after_report(0, true), RunOutcome::NoDuplicates);
}

#[test]
fn dry_run_never_approves_deletion() {
    assert_eq!(after_report(3, true), RunOutcome::DryRunDone);
    assert!(!confirm_deletion(3, true, Some("y")));
    assert!(!confirm_deletion(3, true, Some("yes")));
    assert!(!confirm_deletion(3, true, None));
}

#[test]
fn declined_prompt_never_approves_deletion() {
    assert!(!confirm_deletion(3, false, Some("n")));
    assert!(!confirm_deletion(3, false, Some("")));
    assert!(!confirm_deletion(3, false, Some("no")));
    assert!(!confirm_deletion(3, false, None));
    assert!(confirm_deletion(3, false, Some("yes")));
}

#[test]
fn affirmative_answers() {
    assert!(is_affirmative("y"));
    assert!(is_affirmative("Y"));
    assert!(is_affirmative("yes"));
    assert!(is_affirmative("YES"));
    assert!(is_affirmative("Yes\n"));
    assert!(is_affirmative("  y  "));
}

#[test]
fn non_affirmative_answers() {
    assert!(!is_affirmative(""));
    assert!(!is_affirmative("\n"));
    assert!(!is_affirmative("n"));
    assert!(!is_affirmative("no"));
    assert!(!is_affirmative("yess"));
    assert!(!is_affirmative("y es"));
    assert!(!is_affirmative("sure"));
}

#[test]
fn collect_entry_decisions() {
    match collect_entry("p".to_string(), "n".to_string(), true, 5, Some(7), Some(9)) {
        Collected::Record(r) => {
            assert_eq!(r.timestamp, 7);
            assert_eq!(r.size, 5);
            assert_eq!(r.path, "p");
            assert_eq!(r.name, "n");
        }
        _ => panic!("expected a record"),
    }
    match collect_entry("p".to_string(), "n".to_string(), true, 5, None, Some(9)) {
        Collected::Record(r) => assert_eq!(r.timestamp, 9),
        _ => panic!("expected a record"),
    }
    assert!(matches!(
        collect_entry("p".to_string(), "n".to_string(), false, 5, Some(7), Some(9)),
        Collected::SkippedNonFile
    ));
    assert!(matches!(
        collect_entry("p".to_string(), "n".to_string(), true, 5, None, None),
        Collected::SkippedNoTimestamp
    ));
}

#[test]
fn tally_counts_successes_and_failures() {
    let t = tally_outcomes(&vec![true, false, true, true]);
    assert_eq!(t.deleted, 3);
    assert_eq!(t.failed, 1);
    let empty: Vec<bool> = vec![];
    let t0 = tally_outcomes(&empty);
    assert_eq!(t0.deleted, 0);
    assert_eq!(t0.failed, 0);
}
