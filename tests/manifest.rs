use dotfiles::repo::{cmp_paths, RepoInfo};
use dotfiles::{PathError, RelPath};
use std::cmp::Ordering;

fn rel(s: &str) -> RelPath {
    RelPath::new(s).unwrap()
}

#[test]
fn files_stay_sorted_and_unique() {
    let mut info = RepoInfo::new();
    for p in ["c", "a", "b/x", "a", "b", "c", "a"] {
        info.add_file(rel(p));
    }
    assert_eq!(info.file_texts(), vec!["a", "b", "b/x", "c"]);
    assert!(info.dirs.is_empty());
}

#[test]
fn dirs_stay_sorted_and_unique() {
    let mut info = RepoInfo::new();
    for p in [".config/nvim", ".config", ".config/nvim", ".local"] {
        info.add_dir(rel(p));
    }
    assert_eq!(info.dir_texts(), vec![".config", ".config/nvim", ".local"]);
    assert!(info.files.is_empty());
}

#[test]
fn repeated_pick_of_same_path_is_noop() {
    let mut info = RepoInfo::new();
    info.add_file(rel(".bashrc"));
    let once = info.file_texts();
    info.add_file(rel(".bashrc"));
    info.add_file(rel("./.bashrc"));
    assert_eq!(info.file_texts(), once);
}

#[test]
fn order_is_by_component() {
    // As std::path::Path orders: "a/b" comes before "a-b" although '-' < '/'.
    assert_eq!(cmp_paths(&rel("a/b"), &rel("a-b")), Ordering::Less);
    assert_eq!(cmp_paths(&rel("a-b"), &rel("a/b")), Ordering::Greater);
    assert_eq!(cmp_paths(&rel("a"), &rel("a/b")), Ordering::Less);
    assert_eq!(cmp_paths(&rel("x/y"), &rel("x/y")), Ordering::Equal);
    let mut info = RepoInfo::new();
    info.add_file(rel("a-b"));
    info.add_file(rel("a/b"));
    assert_eq!(info.file_texts(), vec!["a/b", "a-b"]);
}

#[test]
fn membership() {
    let mut info = RepoInfo::new();
    info.add_file(rel(".vimrc"));
    info.add_dir(rel(".vim"));
    assert!(info.has_file(&rel(".vimrc")));
    assert!(!info.has_file(&rel(".vim")));
    assert!(info.has_dir(&rel(".vim")));
    assert!(!info.has_dir(&rel(".vimrc")));
}

#[test]
fn load_sorts_and_dedups() {
    let files = vec!["z".to_string(), "./a".to_string(), "a".to_string()];
    let dirs = vec!["d/".to_string()];
    let info = RepoInfo::from_texts(&files, &dirs).unwrap();
    assert_eq!(info.file_texts(), vec!["a", "z"]);
    assert_eq!(info.dir_texts(), vec!["d"]);
}

#[test]
fn load_empty_manifest() {
    let info = RepoInfo::from_texts(&Vec::new(), &Vec::new()).unwrap();
    assert!(info.file_texts().is_empty());
    assert!(info.dir_texts().is_empty());
}

#[test]
fn load_refuses_bad_entries() {
    let bad = vec!["a".to_string(), "/etc/passwd".to_string()];
    assert_eq!(
        RepoInfo::from_texts(&bad, &Vec::new()).err(),
        Some(PathError::NoWorkingDirectory)
    );
    let escaping = vec!["../x".to_string()];
    assert_eq!(
        RepoInfo::from_texts(&Vec::new(), &escaping).err(),
        Some(PathError::PathDiff)
    );
}

#[test]
fn saved_texts_read_back() {
    let mut info = RepoInfo::new();
    for p in [".config/fish/config.fish", ".bashrc", "a-b", "a/b"] {
        info.add_file(rel(p));
    }
    info.add_dir(rel(".vim"));
    let files = info.file_texts();
    let dirs = info.dir_texts();
    let back = RepoInfo::from_texts(&files, &dirs).unwrap();
    assert_eq!(back.files, info.files);
    assert_eq!(back.dirs, info.dirs);
    assert_eq!(back.file_texts(), files);
}

#[test]
fn load_reports_first_bad_entry() {
    let files = vec!["ok".to_string(), "../up".to_string(), "/abs".to_string()];
    assert_eq!(RepoInfo::from_texts(&files, &Vec::new()).err(), Some(PathError::PathDiff));
    let dirs = vec!["".to_string()];
    let bad_files = vec!["/abs".to_string()];
    assert_eq!(
        RepoInfo::from_texts(&bad_files, &dirs).err(),
        Some(PathError::NoWorkingDirectory)
    );
    assert_eq!(
        RepoInfo::from_texts(&vec!["x".to_string()], &dirs).err(),
        Some(PathError::Absolutize)
    );
}
