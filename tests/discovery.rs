use grepr::{resolve_root, visit_entry, GrepError, WalkEntry};

fn dir(p: &str) -> WalkEntry {
    WalkEntry::Directory(p.to_string())
}

fn file(p: &str) -> WalkEntry {
    WalkEntry::File(p.to_string())
}

fn inputs_walk() -> Vec<WalkEntry> {
    vec![
        dir("./tests/inputs"),
        file("./tests/inputs/fox.txt"),
        file("./tests/inputs/bustle.txt"),
        file("./tests/inputs/empty.txt"),
        file("./tests/inputs/nobody.txt"),
    ]
}

#[test]
fn single_file_is_found() {
    let res = resolve_root(&vec![file("./tests/inputs/fox.txt")], false);
    assert_eq!(res.len(), 1);
    assert_eq!(res[0].as_ref().unwrap(), "./tests/inputs/fox.txt");
}

#[test]
fn directory_refused_without_recursion() {
    let res = resolve_root(&inputs_walk(), false);
    assert_eq!(res.len(), 1);
    match &res[0] {
        Err(e) => assert_eq!(e.to_string(), "./tests/inputs is a directory"),
        Ok(p) => panic!("unexpected path {}", p),
    }
}

#[test]
fn recursion_finds_every_file() {
    let res = resolve_root(&inputs_walk(), true);
    let mut files: Vec<String> = res.iter().map(|r| r.as_ref().unwrap().clone()).collect();
    files.sort();
    assert_eq!(
        files,
        vec![
            "./tests/inputs/bustle.txt",
            "./tests/inputs/empty.txt",
            "./tests/inputs/fox.txt",
            "./tests/inputs/nobody.txt",
        ]
    );
}

#[test]
fn recursion_skips_nested_directories() {
    let walk = vec![dir("d"), file("d/a"), dir("d/sub"), file("d/sub/b")];
    let res = resolve_root(&walk, true);
    let found: Vec<String> = res.iter().map(|r| r.as_ref().unwrap().clone()).collect();
    assert_eq!(found, vec!["d/a".to_string(), "d/sub/b".to_string()]);
}

#[test]
fn missing_path_gives_one_failure() {
    let msg = "IO error for operation on Xy7qZ1p: No such file or directory (os error 2)";
    let res = resolve_root(&vec![WalkEntry::Failure(msg.to_string())], false);
    assert_eq!(res.len(), 1);
    assert!(res[0].is_err());
    assert_eq!(res[0].as_ref().unwrap_err().to_string(), msg);
}

#[test]
fn access_failure_does_not_end_the_walk() {
    let walk = vec![dir("d"), WalkEntry::Failure("denied".to_string()), file("d/a")];
    let res = resolve_root(&walk, true);
    assert_eq!(res.len(), 2);
    assert_eq!(res[0].as_ref().unwrap_err().to_string(), "denied");
    assert_eq!(res[1].as_ref().unwrap(), "d/a");
}

#[test]
fn visit_entry_reports_whether_to_go_on() {
    let mut results: Vec<Result<String, GrepError>> = Vec::new();
    assert!(visit_entry(&mut results, &file("a"), false));
    assert!(!visit_entry(&mut results, &dir("b"), false));
    assert!(visit_entry(&mut results, &dir("c"), true));
    assert_eq!(results.len(), 2);
    assert_eq!(results[1].as_ref().unwrap_err().to_string(), "b is a directory");
}

#[test]
fn empty_walk_gives_nothing() {
    assert!(resolve_root(&Vec::new(), false).is_empty());
}
