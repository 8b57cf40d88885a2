use home_sync::config::{DotfileBehavior, DotfileEntry, DotfileType};
use home_sync::dotfiles::{
    backup_file_name, conflict_choice, contents_equal, copy_status, is_yes, merge_status,
    parse_confirmation, parse_conflict_answer, plan_copy, plan_merge_start, plan_merge_write,
    resolve_conflict, target_label, ConflictAction, ConflictStep, CopyStep, DotfileStatus,
    MergeStep,
};

fn entry(target: &str, t: DotfileType) -> DotfileEntry {
    DotfileEntry {
        source: "dotfiles/x".to_string(),
        target: target.to_string(),
        dotfile_type: t,
        behavior: DotfileBehavior::Copy,
        format: None,
    }
}

#[test]
fn labels_mark_persist_targets() {
    assert_eq!(target_label(&entry("mihomo/config.yaml", DotfileType::Persist)), "persist:mihomo/config.yaml");
    assert_eq!(target_label(&entry("~/.gitconfig", DotfileType::File)), "~/.gitconfig");
}

#[test]
fn backup_names_append_bak() {
    assert_eq!(backup_file_name(Some("file.ini")), "file.ini.bak");
    assert_eq!(backup_file_name(Some("file")), "file.bak");
    assert_eq!(backup_file_name(None), ".bak");
}

#[test]
fn contents_compare_bytes() {
    assert!(contents_equal(b"abc", b"abc"));
    assert!(!contents_equal(b"abc", b"abd"));
    assert!(!contents_equal(b"abc", b"ab"));
    assert!(contents_equal(b"", b""));
}

#[test]
fn conflict_resolution_steps() {
    assert_eq!(resolve_conflict(&ConflictAction::Prompt), ConflictStep::Ask);
    assert_eq!(resolve_conflict(&ConflictAction::Delete), ConflictStep::Apply(ConflictAction::Delete));
    assert_eq!(resolve_conflict(&ConflictAction::Backup), ConflictStep::Apply(ConflictAction::Backup));
}

#[test]
fn conflict_answers() {
    assert_eq!(conflict_choice("d"), Some(ConflictAction::Delete));
    assert_eq!(conflict_choice("delete"), Some(ConflictAction::Delete));
    assert_eq!(conflict_choice("b"), Some(ConflictAction::Backup));
    assert_eq!(conflict_choice("backup"), Some(ConflictAction::Backup));
    assert_eq!(conflict_choice("s"), None);
    assert_eq!(conflict_choice(""), None);
    assert_eq!(parse_conflict_answer("  D\r\n"), Some(ConflictAction::Delete));
    assert_eq!(parse_conflict_answer("Backup\n"), Some(ConflictAction::Backup));
    assert_eq!(parse_conflict_answer("skip\n"), None);
}

#[test]
fn confirmation_answers() {
    assert!(is_yes("y"));
    assert!(is_yes("yes"));
    assert!(!is_yes("no"));
    assert!(parse_confirmation("YES\n"));
    assert!(parse_confirmation(" y "));
    assert!(!parse_confirmation("n\n"));
    assert!(!parse_confirmation("\n"));
}

#[test]
fn copy_steps() {
    assert_eq!(plan_copy(false, false, false), CopyStep::Copy);
    assert_eq!(plan_copy(false, false, true), CopyStep::WouldCopy);
    assert_eq!(plan_copy(true, true, false), CopyStep::UpToDate);
    assert_eq!(plan_copy(true, true, true), CopyStep::UpToDate);
    assert_eq!(plan_copy(true, false, true), CopyStep::WouldOverwrite);
    assert_eq!(plan_copy(true, false, false), CopyStep::ResolveConflict);
}

#[test]
fn merge_steps() {
    assert_eq!(plan_merge_start(false, false), Some(MergeStep::CopyNew));
    assert_eq!(plan_merge_start(false, true), Some(MergeStep::WouldCopyNew));
    assert_eq!(plan_merge_start(true, false), None);
    assert_eq!(plan_merge_write("{}", "{}", false), MergeStep::UpToDate);
    assert_eq!(plan_merge_write("{}", "{\"a\":1}", true), MergeStep::WouldMerge);
    assert_eq!(plan_merge_write("{}", "{\"a\":1}", false), MergeStep::Write);
}

#[test]
fn status_reports() {
    assert_eq!(copy_status(false, None), DotfileStatus::NotSynced);
    assert_eq!(copy_status(true, Some(true)), DotfileStatus::UpToDate);
    assert_eq!(copy_status(true, Some(false)), DotfileStatus::ContentDiffers);
    assert_eq!(copy_status(true, None), DotfileStatus::Unreadable);
    assert_eq!(merge_status(true), DotfileStatus::MergeTargetExists);
    assert_eq!(merge_status(false), DotfileStatus::NotSynced);
}
