use dedupe::normalize::normalize_filename;

#[test]
fn suffix_precedence_dash_copy_before_paren() {
    assert_eq!(normalize_filename("report - Copy (2).pdf"), "report.pdf");
}

#[test]
fn plain_copy_suffix() {
    assert_eq!(normalize_filename("notes copy.txt"), "notes.txt");
    assert_eq!(normalize_filename("notes copy 3.txt"), "notes.txt");
}

#[test]
fn extension_preserved_split_at_last_dot() {
    // the "(1)" sits mid-stem once the name is split at the last dot, so
    // nothing is stripped
    assert_eq!(normalize_filename("archive(1).tar.gz"), "archive(1).tar.gz");
    // with a single extension the same suffix is a true stem suffix
    assert_eq!(normalize_filename("archive(1).gz"), "archive.gz");
}

#[test]
fn paren_number_with_and_without_space() {
    assert_eq!(normalize_filename("photo (1).jpg"), "photo.jpg");
    assert_eq!(normalize_filename("photo(1).jpg"), "photo.jpg");
}

#[test]
fn dash_copy_without_number() {
    assert_eq!(normalize_filename("file - Copy"), "file");
    assert_eq!(normalize_filename("file - Copy.txt"), "file.txt");
}

#[test]
fn copy_number_without_dot() {
    assert_eq!(normalize_filename("file copy 12"), "file");
    assert_eq!(normalize_filename("file copy"), "file");
}

#[test]
fn identity_when_nothing_matches() {
    assert_eq!(normalize_filename("file"), "file");
    assert_eq!(normalize_filename("file.txt"), "file.txt");
    assert_eq!(normalize_filename(".txt"), ".txt");
    assert_eq!(normalize_filename("file."), "file.");
    assert_eq!(normalize_filename(""), "");
}

#[test]
fn only_first_matching_pattern_applied() {
    // one strip only: the remaining suffix stays for this pass
    assert_eq!(normalize_filename("a (1) (2).txt"), "a (1).txt");
    assert_eq!(normalize_filename("a copy (2).txt"), "a copy.txt");
}

#[test]
fn case_sensitive_matching() {
    // "copy" is lower-case in the plain pattern, "Copy" capitalized in the
    // dashed one
    assert_eq!(normalize_filename("file Copy.txt"), "file Copy.txt");
    assert_eq!(normalize_filename("file COPY.txt"), "file COPY.txt");
    // the dashed pattern needs "Copy", but the plain " copy" still strips
    assert_eq!(normalize_filename("file - copy.txt"), "file -.txt");
}

#[test]
fn normalization_idempotent_on_tested_names() {
    let names = [
        "report - Copy (2).pdf",
        "notes copy.txt",
        "notes copy 3.txt",
        "archive(1).tar.gz",
        "photo (1).jpg",
        "photo(1).jpg",
        "file - Copy",
        "file.txt",
        "file",
        "file copy 12",
        "b (7)",
        ".txt",
        "",
    ];
    for name in names {
        let once = normalize_filename(name);
        let twice = normalize_filename(&once);
        assert_eq!(twice, once);
    }
}
