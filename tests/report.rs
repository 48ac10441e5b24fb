use grepr::{decimal_text, find_lines, prefix_paths, report_entry, Pattern};

fn lines(items: &[&str]) -> Vec<String> {
    items.iter().map(|s| s.to_string()).collect()
}

#[test]
fn two_files_prefix_each_line() {
    let p = Pattern::new("needle", false).unwrap();
    let a = find_lines(&lines(&["hay", "a needle"]), &p, false);
    let b = find_lines(&lines(&["needle b", "straw"]), &p, false);
    assert_eq!(report_entry("a.txt", &a, false, 2), lines(&["a.txt:a needle"]));
    assert_eq!(report_entry("b.txt", &b, false, 2), lines(&["b.txt:needle b"]));
}

#[test]
fn single_entry_has_no_prefix() {
    let m = lines(&["x", "y"]);
    assert_eq!(report_entry("f.txt", &m, false, 1), lines(&["x", "y"]));
}

#[test]
fn count_reports_selected_lines_only() {
    let p = Pattern::new("o", false).unwrap();
    let input = lines(&["one", "two", "three", "four"]);
    let m = find_lines(&input, &p, false);
    assert_eq!(report_entry("f.txt", &m, true, 1), lines(&["3"]));
    assert_eq!(report_entry("f.txt", &m, true, 3), lines(&["f.txt:3"]));
    let none = find_lines(&input, &Pattern::new("z", false).unwrap(), false);
    assert_eq!(report_entry("f.txt", &none, true, 1), lines(&["0"]));
}

#[test]
fn prefix_follows_result_count_not_found_count() {
    // Two discovery results of which one failed: the found file is still prefixed.
    assert!(prefix_paths(2));
    assert_eq!(report_entry("ok.txt", &lines(&["hit"]), false, 2), lines(&["ok.txt:hit"]));
    // Gating on found files instead would print the line bare.
    assert_ne!(report_entry("ok.txt", &lines(&["hit"]), false, 2), lines(&["hit"]));
    assert!(!prefix_paths(1));
    assert!(!prefix_paths(0));
}

#[test]
fn decimal_rendering() {
    assert_eq!(decimal_text(0), "0");
    assert_eq!(decimal_text(7), "7");
    assert_eq!(decimal_text(10), "10");
    assert_eq!(decimal_text(1234), "1234");
    assert_eq!(decimal_text(usize::MAX), usize::MAX.to_string());
}
