use dotfiles::install::{decide_install, plan_install, EntryKind, InstallAction};
use dotfiles::pick::{classify_pick, finish_pick, op_failure, pick_next, plan_pick, PickNext, PickOp, PickStart};
use dotfiles::repo::RepoInfo;
use dotfiles::{AbsPath, ErrorKind, RelPath};

fn abs(s: &str) -> AbsPath {
    AbsPath::new(s).unwrap()
}

fn texts(op: &PickOp) -> Vec<String> {
    match op {
        PickOp::MakeParents(p) => vec!["parents".to_string(), p.to_string()],
        PickOp::Copy(_, a, b) => vec!["copy".to_string(), a.to_string(), b.to_string()],
        PickOp::Remove(_, a) => vec!["remove".to_string(), a.to_string()],
        PickOp::Link(a, b) => vec!["link".to_string(), a.to_string(), b.to_string()],
    }
}

#[test]
fn pick_plan_orders_copy_remove_link() {
    let repo = abs("/home/u/repos/dotfiles");
    let base = abs("/home/u");
    let info = RepoInfo::new();
    let plan = plan_pick(&repo, &base, "/home/u/.config/git/config", EntryKind::File, &info).unwrap();
    assert_eq!(plan.rel.to_string(), ".config/git/config");
    let ops: Vec<Vec<String>> = plan.ops.iter().map(texts).collect();
    assert_eq!(
        ops,
        vec![
            vec!["parents".to_string(), "/home/u/repos/dotfiles/.config/git/config".to_string()],
            vec![
                "copy".to_string(),
                "/home/u/.config/git/config".to_string(),
                "/home/u/repos/dotfiles/.config/git/config".to_string()
            ],
            vec!["remove".to_string(), "/home/u/.config/git/config".to_string()],
            vec![
                "link".to_string(),
                "/home/u/.config/git/config".to_string(),
                "/home/u/repos/dotfiles/.config/git/config".to_string()
            ],
        ]
    );
}

#[test]
fn pick_relative_request_resolves_in_base() {
    let repo = abs("/r");
    let base = abs("/b");
    let plan = plan_pick(&repo, &base, "x/../.vimrc", EntryKind::File, &RepoInfo::new()).unwrap();
    assert_eq!(plan.rel.to_string(), ".vimrc");
}

#[test]
fn pick_outside_base_fails() {
    let repo = abs("/r");
    let base = abs("/b");
    let r = plan_pick(&repo, &base, "/etc/hosts", EntryKind::File, &RepoInfo::new());
    assert_eq!(r.err(), Some(ErrorKind::PathDiff));
}

#[test]
fn pick_conflicting_kind_fails() {
    let repo = abs("/r");
    let base = abs("/b");
    let mut info = RepoInfo::new();
    info.add_file(RelPath::new(".tool").unwrap());
    let r = plan_pick(&repo, &base, ".tool", EntryKind::Dir, &info);
    assert_eq!(r.err(), Some(ErrorKind::ConflictingEntry));
    assert!(plan_pick(&repo, &base, ".tool", EntryKind::File, &info).is_ok());
}

#[test]
fn pick_then_install_elsewhere_links_same_copy() {
    let repo = abs("/r");
    let base = abs("/b");
    let mut info = RepoInfo::new();
    let plan = plan_pick(&repo, &base, "/b/.profile", EntryKind::File, &info).unwrap();
    let copy_to = match &plan.ops[1] {
        PickOp::Copy(_, _, to) => to.to_string(),
        _ => panic!("second step is the copy"),
    };
    finish_pick(&mut info, plan);
    assert_eq!(info.file_texts(), vec![".profile"]);
    let fresh = abs("/fresh");
    let tasks = plan_install(&repo, &fresh, &info);
    assert_eq!(tasks.len(), 1);
    assert_eq!(tasks[0].src.to_string(), copy_to);
    assert_eq!(tasks[0].dst.to_string(), "/fresh/.profile");
    assert_eq!(decide_install(false), InstallAction::Link);
}

#[test]
fn finishing_a_directory_pick_tracks_a_dir() {
    let mut info = RepoInfo::new();
    let plan = plan_pick(&abs("/r"), &abs("/b"), ".emacs.d", EntryKind::Dir, &info).unwrap();
    finish_pick(&mut info, plan);
    assert_eq!(info.dir_texts(), vec![".emacs.d"]);
    assert!(info.file_texts().is_empty());
}

#[test]
fn classify_requested_entries() {
    assert_eq!(classify_pick(true, true, false), Ok(PickStart::Skip));
    assert_eq!(classify_pick(false, true, false), Ok(PickStart::Pick(EntryKind::File)));
    assert_eq!(classify_pick(false, false, true), Ok(PickStart::Pick(EntryKind::Dir)));
    assert_eq!(classify_pick(false, false, false), Err(ErrorKind::NotFileOrDir));
}

#[test]
fn failures_name_the_step() {
    let p = abs("/x");
    let cause = "boom".to_string();
    assert_eq!(
        op_failure(&PickOp::MakeParents(p.copy_path()), cause.clone()),
        ErrorKind::CopyFailed(cause.clone())
    );
    assert_eq!(
        op_failure(&PickOp::Copy(EntryKind::File, p.copy_path(), p.copy_path()), cause.clone()),
        ErrorKind::CopyFailed(cause.clone())
    );
    assert_eq!(
        op_failure(&PickOp::Remove(EntryKind::Dir, p.copy_path()), cause.clone()),
        ErrorKind::RemoveFailed(cause.clone())
    );
    assert_eq!(
        op_failure(&PickOp::Link(p.copy_path(), p.copy_path()), cause.clone()),
        ErrorKind::LinkFailed(cause)
    );
}

fn file_plan() -> dotfiles::pick::PickPlan {
    plan_pick(&abs("/r"), &abs("/b"), "/b/.gitconfig", EntryKind::File, &RepoInfo::new()).unwrap()
}

#[test]
fn pick_steps_advance_on_success() {
    let plan = file_plan();
    assert_eq!(pick_next(&plan, 0, Ok(())), PickNext::Run(1));
    assert_eq!(pick_next(&plan, 1, Ok(())), PickNext::Run(2));
    assert_eq!(pick_next(&plan, 2, Ok(())), PickNext::Run(3));
    assert_eq!(pick_next(&plan, 3, Ok(())), PickNext::Finished);
}

#[test]
fn pick_stops_at_failed_step() {
    let plan = file_plan();
    let c = "denied".to_string();
    assert_eq!(pick_next(&plan, 0, Err(c.clone())), PickNext::Failed(ErrorKind::CopyFailed(c.clone())));
    assert_eq!(pick_next(&plan, 1, Err(c.clone())), PickNext::Failed(ErrorKind::CopyFailed(c.clone())));
    assert_eq!(pick_next(&plan, 2, Err(c.clone())), PickNext::Failed(ErrorKind::RemoveFailed(c.clone())));
    assert_eq!(pick_next(&plan, 3, Err(c.clone())), PickNext::Failed(ErrorKind::LinkFailed(c)));
}

#[test]
fn failure_texts_name_the_state() {
    assert_eq!(
        ErrorKind::RemoveFailed("busy".to_string()).text(),
        "remove failed after the copy, the repository holds a duplicate: busy"
    );
    assert_eq!(
        ErrorKind::LinkFailed("denied".to_string()).text(),
        "link failed after the remove, the repository copy is the only copy: denied"
    );
    assert_eq!(ErrorKind::CopyFailed("full".to_string()).text(), "copy failed, nothing removed: full");
    assert_eq!(ErrorKind::Io("x".to_string()).text(), "I/O error: x");
    assert_eq!(ErrorKind::PathDiff.text(), "path does not lie under the base");
    assert_eq!(ErrorKind::ConflictingEntry.text(), "conflicting manifest entry");
}
