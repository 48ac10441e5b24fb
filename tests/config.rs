use grepr::{Config, GrepError};

#[test]
fn invalid_pattern_is_refused() {
    let r = Config::new("*", false, vec!["f".to_string()], false, false, false);
    match r {
        Err(e) => assert_eq!(e.to_string(), "Invalid pattern \"*\""),
        Ok(_) => panic!("pattern accepted"),
    }
}

#[test]
fn no_paths_means_standard_input() {
    let c = Config::new("a", false, Vec::new(), false, false, false).unwrap();
    assert_eq!(c.files(), &vec!["-".to_string()]);
}

#[test]
fn settings_are_kept() {
    let files = vec!["x".to_string(), "y".to_string()];
    let c = Config::new("a+", true, files.clone(), true, true, false).unwrap();
    assert_eq!(c.files(), &files);
    assert!(c.recursive());
    assert!(c.count());
    assert!(!c.invert_match());
    assert_eq!(c.pattern().as_str(), "a+");
    assert!(c.pattern().case_insensitive());
}

#[test]
fn error_messages() {
    assert_eq!(GrepError::IsDirectory("d".to_string()).to_string(), "d is a directory");
    assert_eq!(GrepError::Access("gone".to_string()).to_string(), "gone");
    let read = GrepError::Read { path: "f".to_string(), cause: "bad".to_string() };
    assert_eq!(read.to_string(), "f: bad");
    assert_eq!(GrepError::InvalidPattern("(".to_string()).to_string(), "Invalid pattern \"(\"");
}
