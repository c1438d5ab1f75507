use img_sort::discovery::{build_glob_walker, PatternError, MAX_DEPTH, PATTERNS};
use std::path::{Path, PathBuf};
use tempfile::TempDir;

#[test]
fn globwalker_invalid_patterns() {
    let dir = TempDir::new().expect("Failed to create temporary folder");
    let dir_path = PathBuf::from(dir.path());
    let invalid_patterns = ["\\", ""];

    let walker = build_glob_walker(&dir_path, &invalid_patterns);

    assert!(
        walker.is_err(),
        "Expected an error for invalid search patterns"
    );
}

#[test]
fn globwalker_valid_patterns() {
    let dir = TempDir::new().expect("Failed to create temporary folder");
    let dir_path = PathBuf::from(dir.path());

    let walker = build_glob_walker(&dir_path, &PATTERNS);

    assert!(walker.is_ok(), "Expected OK for valid search patterns");
}

#[test]
fn empty_pattern_is_an_error() {
    let root = PathBuf::from("anywhere");

    assert!(matches!(
        build_glob_walker(&root, &[""]),
        Err(PatternError::Empty)
    ));
    assert!(matches!(
        build_glob_walker(&root, &["*.png", "", "*.jpg"]),
        Err(PatternError::Empty)
    ));
    assert!(matches!(
        build_glob_walker(&root, &["\\", ""]),
        Err(PatternError::Empty)
    ));
}

#[test]
fn pattern_that_the_walker_refuses_is_an_error() {
    let root = PathBuf::from("anywhere");

    assert!(matches!(
        build_glob_walker(&root, &["\\"]),
        Err(PatternError::Refused(_))
    ));
    assert!(matches!(
        build_glob_walker(&root, &["*.png", "[a-"]),
        Err(PatternError::Refused(_))
    ));
}

#[test]
fn no_pattern_is_no_error() {
    let root = PathBuf::from("anywhere");
    let none: [&str; 0] = [];

    assert!(build_glob_walker(&root, &none).is_ok());
}

#[test]
fn patterns_and_depth_are_fixed() {
    assert_eq!(PATTERNS, ["*.png", "*.jpg", "*.jpeg", "*.heic", ".mov"]);
    assert_eq!(MAX_DEPTH, 4);
}

fn file_in(dir: &Path, name: &str) {
    tempfile::Builder::new()
        .prefix(name)
        .rand_bytes(0)
        .tempfile_in(dir)
        .and_then(|file| file.keep().map_err(|error| error.error))
        .expect("Failed to create a test file");
}

fn dir_in(dir: &Path, name: &str) -> PathBuf {
    tempfile::Builder::new()
        .prefix(name)
        .rand_bytes(0)
        .tempdir_in(dir)
        .expect("Failed to create a test directory")
        .keep()
}

fn found(dir: &TempDir) -> Vec<PathBuf> {
    let root = PathBuf::from(dir.path());
    let walker = build_glob_walker(&root, &PATTERNS).expect("Expected a walker");
    let mut names: Vec<PathBuf> = walker
        .into_iter()
        .filter_map(Result::ok)
        .map(|entry| entry.path().strip_prefix(&root).unwrap().to_path_buf())
        .collect();
    names.sort();
    names
}

#[test]
fn walker_matches_without_regard_to_case() {
    let dir = TempDir::new().expect("Failed to create temporary folder");
    for name in ["a.png", "b.PNG", "c.Jpg", "d.jpeg", "e.HEIC", "notes.txt", "f.gif"] {
        file_in(dir.path(), name);
    }

    assert_eq!(
        found(&dir),
        vec![
            PathBuf::from("a.png"),
            PathBuf::from("b.PNG"),
            PathBuf::from("c.Jpg"),
            PathBuf::from("d.jpeg"),
            PathBuf::from("e.HEIC"),
        ]
    );
}

#[test]
fn walker_stops_at_the_depth_limit() {
    let dir = TempDir::new().expect("Failed to create temporary folder");
    let one = dir_in(dir.path(), "1");
    let two = dir_in(&one, "2");
    let three = dir_in(&two, "3");
    let four = dir_in(&three, "4");
    file_in(&three, "near.jpg");
    file_in(&four, "far.jpg");

    assert_eq!(
        found(&dir),
        vec![PathBuf::from("1").join("2").join("3").join("near.jpg")]
    );
}

#[test]
fn walker_of_an_empty_directory_finds_nothing() {
    let dir = TempDir::new().expect("Failed to create temporary folder");

    assert!(found(&dir).is_empty());
}
