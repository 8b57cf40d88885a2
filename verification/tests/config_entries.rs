use home_sync::config::{BucketEntry, PackageEntry};

#[test]
fn install_spec_of_pinned_package() {
    let p = PackageEntry::WithBucket { name: "zig".to_string(), bucket: "main".to_string() };
    assert_eq!(p.install_spec(), "main/zig");
    assert_eq!(p.name(), "zig");
    assert_eq!(p.bucket(), Some("main"));
}

#[test]
fn install_spec_of_plain_package() {
    let p = PackageEntry::Name("git".to_string());
    assert_eq!(p.install_spec(), "git");
    assert_eq!(p.bucket(), None);
}

#[test]
fn bucket_entry_accessors() {
    let b = BucketEntry::WithSource {
        name: "my-bucket".to_string(),
        source: "https://github.com/user/my-bucket".to_string(),
    };
    assert_eq!(b.name(), "my-bucket");
    assert_eq!(b.source(), Some("https://github.com/user/my-bucket"));
    let plain = BucketEntry::Name("main".to_string());
    assert_eq!(plain.name(), "main");
    assert_eq!(plain.source(), None);
}

use home_sync::config::{Config, ConfigError, DotfileBehavior, DotfileEntry, DotfileType, MergeFormat};

fn entry(target: &str, t: DotfileType, b: DotfileBehavior, f: Option<MergeFormat>) -> DotfileEntry {
    DotfileEntry {
        source: "dotfiles/x".to_string(),
        target: target.to_string(),
        dotfile_type: t,
        behavior: b,
        format: f,
    }
}

#[test]
fn tilde_slash_expands_to_home() {
    let r = Config::resolve_target_with_home("~/.gitconfig", Some("/home/u".to_string()));
    assert_eq!(r, Ok(vec!["/home/u".to_string(), ".gitconfig".to_string()]));
}

#[test]
fn lone_tilde_is_home() {
    let r = Config::resolve_target_with_home("~", Some("/home/u".to_string()));
    assert_eq!(r, Ok(vec!["/home/u".to_string()]));
}

#[test]
fn other_targets_are_kept() {
    let r = Config::resolve_target_with_home("C:/tools/x.ini", None);
    assert_eq!(r, Ok(vec!["C:/tools/x.ini".to_string()]));
    let r = Config::resolve_target_with_home("~user/x", None);
    assert_eq!(r, Ok(vec!["~user/x".to_string()]));
}

#[test]
fn tilde_without_home_fails() {
    assert_eq!(Config::resolve_target_with_home("~/a", None), Err(ConfigError::NoHomeDir));
    assert_eq!(Config::resolve_target_with_home("~", None), Err(ConfigError::NoHomeDir));
}

#[test]
fn resolve_target_uses_environment_home() {
    assert_eq!(Config::resolve_target("relative/path"), Ok(vec!["relative/path".to_string()]));
}

#[test]
fn persist_entries_live_under_scoop_persist() {
    let e = entry("mihomo/config.yaml", DotfileType::Persist, DotfileBehavior::Copy, None);
    let r = e.resolve_target_with_home(Some("C:/Users/me".to_string()));
    assert_eq!(
        r,
        Ok(vec![
            "C:/Users/me".to_string(),
            "scoop".to_string(),
            "persist".to_string(),
            "mihomo/config.yaml".to_string()
        ])
    );
    assert_eq!(e.resolve_target_with_home(None), Err(ConfigError::NoHomeDir));
}

#[test]
fn file_entries_expand_tilde() {
    let e = entry("~/.gitconfig", DotfileType::File, DotfileBehavior::Copy, None);
    assert_eq!(
        e.resolve_target_with_home(Some("/h".to_string())),
        Ok(vec!["/h".to_string(), ".gitconfig".to_string()])
    );
}

#[test]
fn empty_target_is_an_error() {
    let e = entry("", DotfileType::File, DotfileBehavior::Copy, None);
    assert_eq!(e.resolve_target_with_home(Some("/h".to_string())), Err(ConfigError::MissingTarget));
    assert_eq!(e.resolve_target(), Err(ConfigError::MissingTarget));
}

#[test]
fn merge_needs_a_format() {
    let e = entry("~/a.json", DotfileType::File, DotfileBehavior::Merge, None);
    assert_eq!(e.validate(), Err(ConfigError::MissingMergeFormat));
    let e = entry("~/a.json", DotfileType::File, DotfileBehavior::Merge, Some(MergeFormat::Json));
    assert_eq!(e.validate(), Ok(()));
    let e = entry("~/a.json", DotfileType::File, DotfileBehavior::Copy, None);
    assert_eq!(e.validate(), Ok(()));
}
