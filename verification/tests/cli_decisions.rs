use home_sync::cli::{
    base_dir_from_parent, conflict_from_flags, conflict_outcome, resolve_base_dir, sync_parts,
    FlagError,
};
use home_sync::dotfiles::{ConflictAction, ConflictStep};

#[test]
fn flags_pick_the_conflict_policy() {
    assert_eq!(conflict_from_flags(true, true), Err(FlagError::DeleteAndBackup));
    assert_eq!(conflict_from_flags(true, false), Ok(ConflictAction::Delete));
    assert_eq!(conflict_from_flags(false, true), Ok(ConflictAction::Backup));
    assert_eq!(conflict_from_flags(false, false), Ok(ConflictAction::Prompt));
}

#[test]
fn only_flags_pick_the_parts() {
    let p = sync_parts(true, false);
    assert!(p.scoop && !p.dotfiles);
    let p = sync_parts(false, true);
    assert!(!p.scoop && p.dotfiles);
    let p = sync_parts(false, false);
    assert!(p.scoop && p.dotfiles);
}

#[test]
fn conflict_outcomes() {
    assert_eq!(conflict_outcome(ConflictStep::Ask, None), None);
    assert_eq!(conflict_outcome(ConflictStep::Ask, Some(ConflictAction::Backup)), Some(ConflictAction::Backup));
    assert_eq!(conflict_outcome(ConflictStep::Apply(ConflictAction::Delete), None), Some(ConflictAction::Delete));
}

#[test]
fn base_dir_is_the_config_directory() {
    assert_eq!(base_dir_from_parent(Some("conf")), "conf");
    assert_eq!(base_dir_from_parent(None), ".");
    assert_eq!(resolve_base_dir("conf/config.toml"), "conf");
    assert_eq!(resolve_base_dir("config.toml"), "");
    assert_eq!(resolve_base_dir("/"), ".");
}

#[test]
fn base_dir_of_an_absolute_config_path() {
    assert_eq!(resolve_base_dir("/home/u/hs/config.toml"), "/home/u/hs");
    assert_eq!(resolve_base_dir(""), ".");
    assert_eq!(resolve_base_dir("home-sync.toml"), "");
    assert_eq!(resolve_base_dir("/config.toml"), "/");
}
