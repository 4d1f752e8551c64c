use dotfiles::install::decimal_text;
use dotfiles::install::InstallBatch;
use dotfiles::install::{
    decide_install, link_kind, plan_install, status_of, EntryKind, InstallAction, InstallResult,
    InstallStatus, LinkKind, SkipReason,
};
use dotfiles::repo::RepoInfo;
use dotfiles::{AbsPath, ErrorKind, RelPath};

fn manifest() -> RepoInfo {
    let mut info = RepoInfo::new();
    info.add_file(RelPath::new(".zshrc").unwrap());
    info.add_file(RelPath::new(".bashrc").unwrap());
    info.add_dir(RelPath::new(".config/nvim").unwrap());
    info
}

#[test]
fn plan_maps_repository_to_base() {
    let repo = AbsPath::new("/home/u/repos/dotfiles").unwrap();
    let base = AbsPath::new("/home/u").unwrap();
    let tasks = plan_install(&repo, &base, &manifest());
    assert_eq!(tasks.len(), 3);
    assert_eq!(tasks[0].kind, EntryKind::File);
    assert_eq!(tasks[0].src.to_string(), "/home/u/repos/dotfiles/.bashrc");
    assert_eq!(tasks[0].dst.to_string(), "/home/u/.bashrc");
    assert_eq!(tasks[1].rel.to_string(), ".zshrc");
    assert_eq!(tasks[2].kind, EntryKind::Dir);
    assert_eq!(tasks[2].src.to_string(), "/home/u/repos/dotfiles/.config/nvim");
    assert_eq!(tasks[2].dst.to_string(), "/home/u/.config/nvim");
}

#[test]
fn existing_target_is_never_touched() {
    assert_eq!(decide_install(true), InstallAction::Skip);
    assert_eq!(decide_install(false), InstallAction::Link);
    assert_eq!(
        status_of(InstallAction::Skip, Ok(())),
        InstallStatus::Skipped(SkipReason::AlreadyInstalled)
    );
    assert_eq!(
        status_of(InstallAction::Skip, Err(ErrorKind::Io("x".to_string()))),
        InstallStatus::Skipped(SkipReason::AlreadyInstalled)
    );
}

#[test]
fn link_outcome_is_reported() {
    assert_eq!(status_of(InstallAction::Link, Ok(())), InstallStatus::Installed);
    assert_eq!(
        status_of(InstallAction::Link, Err(ErrorKind::NotFileOrDir)),
        InstallStatus::Error(ErrorKind::NotFileOrDir)
    );
}

#[test]
fn link_kind_follows_source() {
    assert_eq!(link_kind(true, false), Ok(LinkKind::File));
    assert_eq!(link_kind(false, true), Ok(LinkKind::Dir));
    assert_eq!(link_kind(false, false), Err(ErrorKind::NotFileOrDir));
}

/// Runs install over a set of existing target paths, every link succeeding.
fn run(existing: &mut Vec<String>, info: &RepoInfo) -> InstallResult {
    let repo = AbsPath::new("/r").unwrap();
    let base = AbsPath::new("/b").unwrap();
    let mut result = InstallResult::new();
    for task in plan_install(&repo, &base, info) {
        let dst = task.dst.to_string();
        let action = decide_install(existing.contains(&dst));
        if action == InstallAction::Link {
            existing.push(dst);
        }
        result.record(task.kind, status_of(action, Ok(())));
    }
    result
}

#[test]
fn second_install_skips_everything() {
    let info = manifest();
    let mut existing = vec!["/b/.zshrc".to_string()];
    let first = run(&mut existing, &info);
    assert_eq!(first.files_installed, 1);
    assert_eq!(first.files_skipped, 1);
    assert_eq!(first.dirs_installed, 1);
    let after_first = existing.clone();
    let second = run(&mut existing, &info);
    assert_eq!(existing, after_first);
    assert_eq!(second.files_skipped, 2);
    assert_eq!(second.dirs_skipped, 1);
    assert_eq!(second.successes(), 0);
    assert_eq!(second.failures(), 0);
}

#[test]
fn one_failure_does_not_stop_the_batch() {
    let mut result = InstallResult::new();
    result.record(EntryKind::File, InstallStatus::Installed);
    result.record(
        EntryKind::File,
        InstallStatus::Error(ErrorKind::Io("permission denied".to_string())),
    );
    result.record(EntryKind::Dir, InstallStatus::Installed);
    assert_eq!(result.successes(), 2);
    assert_eq!(result.failures(), 1);
    assert_eq!(result.files_installed, 1);
    assert_eq!(result.files_errored, 1);
    assert_eq!(result.dirs_installed, 1);
    assert_eq!(result.errors, vec![ErrorKind::Io("permission denied".to_string())]);
}

#[test]
fn empty_tally() {
    let result = InstallResult::new();
    assert_eq!(result.successes(), 0);
    assert_eq!(result.failures(), 0);
    assert!(result.errors.is_empty());
}

#[test]
fn summary_lines() {
    let mut result = InstallResult::new();
    for _ in 0..12 {
        result.record(EntryKind::File, InstallStatus::Installed);
    }
    result.record(EntryKind::File, InstallStatus::Skipped(SkipReason::AlreadyInstalled));
    result.record(EntryKind::Dir, InstallStatus::Error(ErrorKind::NotFileOrDir));
    assert_eq!(
        result.summary(),
        "Installed 12 files, 1 skipped, 0 errored\nInstalled 0 directories, 0 skipped, 1 errored\n"
    );
}

#[test]
fn decimal_texts() {
    assert_eq!(decimal_text(0), "0");
    assert_eq!(decimal_text(7), "7");
    assert_eq!(decimal_text(10), "10");
    assert_eq!(decimal_text(1234567890), "1234567890");
    assert_eq!(decimal_text(u64::MAX), u64::MAX.to_string());
}

#[test]
fn status_texts() {
    assert_eq!(InstallStatus::Installed.text(), "Done");
    assert_eq!(
        InstallStatus::Skipped(SkipReason::AlreadyInstalled).text(),
        "Skipped. reason: AlreadyInstalled"
    );
    assert_eq!(SkipReason::AlreadyInstalled.text(), "AlreadyInstalled");
    assert_eq!(
        InstallStatus::Error(ErrorKind::NotFileOrDir).text(),
        "Error: not a file or directory"
    );
}

/// Drives a batch over existing target paths; the target named `fail` fails to link.
fn run_batch(existing: &mut Vec<String>, info: &RepoInfo, fail: &str) -> InstallResult {

    let repo = AbsPath::new("/r").unwrap();
    let base = AbsPath::new("/b").unwrap();
    let mut batch = InstallBatch::new(&repo, &base, info);
    while let Some(task) = batch.current() {
        let dst = task.dst.to_string();
        let exists = existing.contains(&dst);
        let link = if exists {
            Ok(())
        } else if dst == fail {
            Err(ErrorKind::Io("permission denied".to_string()))
        } else {
            existing.push(dst);
            Ok(())
        };
        batch.step(exists, link);
    }
    assert_eq!(batch.next, batch.tasks.len());
    batch.result
}

#[test]
fn batch_second_run_counts_all_skipped() {
    let info = manifest();
    let mut existing = Vec::new();
    let first = run_batch(&mut existing, &info, "");
    assert_eq!(first.files_installed, 2);
    assert_eq!(first.dirs_installed, 1);
    let after_first = existing.clone();
    let second = run_batch(&mut existing, &info, "");
    assert_eq!(existing, after_first);
    assert_eq!(second.files_skipped, 2);
    assert_eq!(second.dirs_skipped, 1);
    assert_eq!(second.files_installed + second.dirs_installed, 0);
    assert_eq!(second.files_errored + second.dirs_errored, 0);
}

#[test]
fn batch_goes_on_after_failed_middle_entry() {
    let mut info = RepoInfo::new();
    for f in ["f1", "f2", "f3"] {
        info.add_file(RelPath::new(f).unwrap());
    }
    let mut existing = Vec::new();
    let result = run_batch(&mut existing, &info, "/b/f2");
    assert_eq!(result.files_installed, 2);
    assert_eq!(result.files_errored, 1);
    assert_eq!(result.files_skipped, 0);
    assert_eq!(existing, vec!["/b/f1".to_string(), "/b/f3".to_string()]);
    assert_eq!(result.errors, vec![ErrorKind::Io("permission denied".to_string())]);
}
