use dotfiles::{AbsPath, ErrorKind, IntoIoError, PathError, RelPath};

fn abs(s: &str) -> AbsPath {
    AbsPath::new(s).unwrap()
}

#[test]
fn relative_resolves_against_virtual_cwd() {
    let home = abs("/home/u");
    let p = AbsPath::with_virtual_working_dir("a/b.txt", &home).unwrap();
    assert_eq!(p.to_string(), "/home/u/a/b.txt");
}

#[test]
fn absolute_relative_to_base() {
    let home = abs("/home/u");
    let r = RelPath::with_virtual_working_dir("/home/u/a/b.txt", &home).unwrap();
    assert_eq!(r.to_string(), "a/b.txt");
}

#[test]
fn absolute_relative_to_unrelated_base_fails() {
    let etc = abs("/etc");
    let r = RelPath::with_virtual_working_dir("/home/u/a/b.txt", &etc);
    assert_eq!(r, Err(PathError::PathDiff));
}

#[test]
fn absolute_path_ignores_virtual_cwd() {
    let home = abs("/home/u");
    let p = AbsPath::with_virtual_working_dir("/etc/hosts", &home).unwrap();
    assert_eq!(p.to_string(), "/etc/hosts");
}

#[test]
fn dots_collapse_lexically() {
    assert_eq!(abs("/home/u/./x/../y/").to_string(), "/home/u/y");
    assert_eq!(abs("//a///b").to_string(), "/a/b");
    assert_eq!(abs("/..").to_string(), "/");
    assert_eq!(abs("/").to_string(), "/");
}

#[test]
fn parent_steps_climb_from_cwd() {
    let home = abs("/home/u");
    let p = AbsPath::with_virtual_working_dir("../x", &home).unwrap();
    assert_eq!(p.to_string(), "/home/x");
    let q = AbsPath::with_virtual_working_dir("../../../x", &home).unwrap();
    assert_eq!(q.to_string(), "/x");
}

#[test]
fn relative_without_cwd_fails() {
    assert_eq!(AbsPath::new("a/b"), Err(PathError::NoWorkingDirectory));
    assert_eq!(AbsPath::resolve("a/b", None), Err(PathError::NoWorkingDirectory));
}

#[test]
fn empty_path_fails_to_absolutize() {
    assert_eq!(AbsPath::new(""), Err(PathError::Absolutize));
    assert_eq!(RelPath::new(""), Err(PathError::Absolutize));
}

#[test]
fn relative_path_normalises() {
    assert_eq!(RelPath::new("a//b/./c/").unwrap().to_string(), "a/b/c");
    assert_eq!(RelPath::new("a/../b").unwrap().to_string(), "b");
    assert_eq!(RelPath::new(".").unwrap().to_string(), ".");
}

#[test]
fn relative_path_refuses_escape_and_absolute() {
    assert_eq!(RelPath::new("../a"), Err(PathError::PathDiff));
    assert_eq!(RelPath::new("a/../../b"), Err(PathError::PathDiff));
    assert_eq!(RelPath::new("/a"), Err(PathError::NoWorkingDirectory));
}

#[test]
fn relative_path_of_escape_under_base_fails() {
    let home = abs("/home/u");
    assert_eq!(RelPath::with_virtual_working_dir("../v/x", &home), Err(PathError::PathDiff));
    assert_eq!(RelPath::with_virtual_working_dir("", &home), Err(PathError::Absolutize));
}

#[test]
fn base_itself_is_empty_relative() {
    let home = abs("/home/u");
    let r = RelPath::with_virtual_working_dir("/home/u", &home).unwrap();
    assert_eq!(r.to_string(), ".");
    assert!(r.comps.is_empty());
}

#[test]
fn join_then_relative_round_trip() {
    let base = abs("/srv/base");
    let rel = RelPath::new("x/y.conf").unwrap();
    let joined = base.join(&rel);
    assert_eq!(joined.to_string(), "/srv/base/x/y.conf");
    let back = base.relative_of(&joined).unwrap();
    assert_eq!(back, rel);
    assert_eq!(abs("/srv/other").relative_of(&joined), None);
    assert_eq!(abs("/srv/base/x/y.conf/z").relative_of(&joined), None);
}

#[test]
fn prefix_must_match_whole_components() {
    let base = abs("/home/u");
    assert_eq!(RelPath::with_virtual_working_dir("/home/uu/a", &base), Err(PathError::PathDiff));
}

#[test]
fn unicode_components_survive() {
    let p = abs("/home/ü/設定");
    assert_eq!(p.to_string(), "/home/ü/設定");
    assert_eq!(p.comps.len(), 3);
}

#[test]
fn path_errors_convert() {
    assert_eq!(PathError::NoWorkingDirectory.into_ioerr(), ErrorKind::NoWorkingDirectory);
    assert_eq!(PathError::PathDiff.into_ioerr(), ErrorKind::PathDiff);
    assert_eq!(PathError::Absolutize.into_ioerr(), ErrorKind::Absolutize);
}

#[test]
fn copies_are_equal() {
    let p = abs("/a/b");
    assert_eq!(p.copy_path(), p);
    let r = RelPath::new("c/d").unwrap();
    assert_eq!(r.copy_path(), r);
}
