use primer::allowlist::{add, entry, file_allows, filter_entry, remove, target, visible_entries};

#[test]
fn allows_bare_package_name() {
    assert!(file_allows("requests\n", "requests", "PyPI"));
}

#[test]
fn allows_ecosystem_qualified_entry() {
    assert!(file_allows("pypi:requests\n", "requests", "PyPI"));
}

#[test]
fn rejects_different_package() {
    assert!(!file_allows("flask\n", "requests", "PyPI"));
}

#[test]
fn rejects_wrong_ecosystem() {
    assert!(!file_allows("npm:requests\n", "requests", "PyPI"));
}

#[test]
fn ignores_comment_lines() {
    let contents = "# allow requests for now\nrequests\n";
    assert!(file_allows(contents, "requests", "PyPI"));
}

#[test]
fn matching_is_case_insensitive() {
    assert!(file_allows("PyPI:Requests\n", "requests", "pypi"));
}

#[test]
fn empty_file_allows_nothing() {
    assert!(!file_allows("", "requests", "PyPI"));
}

#[test]
fn filter_entry_removes_matching_line() {
    let (out, found) = filter_entry("requests\nflask\n", "requests");
    assert!(found);
    assert!(!out.contains("requests"));
    assert!(out.contains("flask"));
}

#[test]
fn filter_entry_reports_not_found() {
    let contents = "flask\n";
    let (out, found) = filter_entry(contents, "requests");
    assert!(!found);
    assert_eq!(out, contents);
}

#[test]
fn filter_entry_removes_ecosystem_qualified_entry() {
    let (out, found) = filter_entry("pypi:requests\nflask\n", "pypi:requests");
    assert!(found);
    assert!(!out.contains("pypi:requests"));
    assert!(out.contains("flask"));
}

#[test]
fn filter_entry_leaves_other_entries_intact() {
    let (out, found) = filter_entry("requests\nflask\ndjango\n", "flask");
    assert!(found);
    let lines: Vec<&str> = out.lines().collect();
    assert_eq!(lines, ["requests", "django"]);
}

#[test]
fn visible_entries_skips_comments_and_blanks() {
    let contents = "# comment\n\nrequests\nflask\n";
    assert_eq!(visible_entries(contents), ["requests", "flask"]);
}

#[test]
fn visible_entries_empty_when_all_comments() {
    assert!(visible_entries("# one\n# two\n").is_empty());
}

// --- further cases ---

#[test]
fn ignores_surrounding_whitespace_and_crlf() {
    assert!(file_allows("  flask  \r\n  requests \r\n", "requests", "npm"));
}

#[test]
fn entry_lowercases_the_ecosystem() {
    assert_eq!(entry("pillow", Some("PyPI")), "pypi:pillow\n");
    assert_eq!(entry("pillow", None), "pillow\n");
    assert_eq!(target("pillow", Some("PyPI")), "pypi:pillow");
}

#[test]
fn add_appends_new_entry() {
    assert_eq!(add("flask\n", "requests", None), Some("flask\nrequests\n".to_string()));
    assert_eq!(add("", "requests", Some("PyPI")), Some("pypi:requests\n".to_string()));
}

#[test]
fn add_is_noop_when_already_listed() {
    assert_eq!(add("flask\n  requests  \n", "requests", None), None);
}

#[test]
fn add_then_file_allows() {
    let after = add("# mine\nflask\n", "requests", None).unwrap();
    assert!(file_allows(&after, "requests", "PyPI"));
    assert!(file_allows(&after, "REQUESTS", "npm"));
}

#[test]
fn add_without_trailing_newline_starts_a_new_line() {
    let after = add("flask", "requests", None).unwrap();
    assert_eq!(after, "flask\nrequests\n");
    assert!(file_allows(&after, "requests", "PyPI"));
    assert!(file_allows(&after, "flask", "PyPI"));
}

#[test]
fn remove_after_add_finds_entry() {
    let after = add("flask\n", "requests", Some("PyPI")).unwrap();
    let removed = remove(&after, "requests", Some("PyPI")).unwrap();
    assert_eq!(removed, "flask\n");
    assert!(remove(&removed, "requests", Some("PyPI")).is_none());
}

#[test]
fn filter_entry_normalises_line_endings() {
    let (out, found) = filter_entry("a\r\nb", "zzz");
    assert_eq!(out, "a\nb\n");
    assert!(!found);
}

#[test]
fn filter_entry_without_final_newline_finds_nothing_else() {
    let (out, found) = filter_entry("flask", "requests");
    assert_eq!(out, "flask\n");
    assert!(!found);
    assert!(remove("flask", "requests", None).is_none());
}

#[test]
fn remove_undoes_add() {
    let before = "# mine\nflask\n";
    let after = add(before, "requests", Some("npm")).unwrap();
    assert_eq!(remove(&after, "requests", Some("npm")), Some(before.to_string()));
    let after = add("", "requests", None).unwrap();
    assert_eq!(remove(&after, "requests", None), Some(String::new()));
}

#[test]
fn scoped_add_allows_that_ecosystem_only() {
    let after = add("", "pillow", Some("PyPI")).unwrap();
    assert!(file_allows(&after, "pillow", "PyPI"));
    assert!(file_allows(&after, "Pillow", "pypi"));
    assert!(!file_allows(&after, "pillow", "npm"));
}
