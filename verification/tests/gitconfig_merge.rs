use std::str::FromStr;

use home_sync::gitconfig::{deep_merge_gitconfig, section_missing, GitMergeError};

fn value(text: &str, section: &str, sub: Option<&str>, key: &str) -> Option<String> {
    let f = gix_config::File::from_str(text).unwrap();
    let sub = sub.map(|s| bstr::BStr::new(s.as_bytes()));
    f.raw_value_by(section, sub, key).ok().map(|v| v.to_string())
}

#[test]
fn source_keys_override_and_target_keys_stay() {
    let target = "[core]\n\ta = 1\n\tb = 2\n";
    let source = "[core]\n\tb = 20\n[user]\n\tname = me\n";
    let merged = deep_merge_gitconfig(target, source).unwrap();
    assert_eq!(value(&merged, "core", None, "a"), Some("1".to_string()));
    assert_eq!(value(&merged, "core", None, "b"), Some("20".to_string()));
    assert_eq!(value(&merged, "user", None, "name"), Some("me".to_string()));
}

#[test]
fn subsections_are_kept_apart() {
    let target = "[remote \"origin\"]\n\turl = a\n";
    let source = "[remote \"upstream\"]\n\turl = b\n";
    let merged = deep_merge_gitconfig(target, source).unwrap();
    assert_eq!(value(&merged, "remote", Some("origin"), "url"), Some("a".to_string()));
    assert_eq!(value(&merged, "remote", Some("upstream"), "url"), Some("b".to_string()));
}

#[test]
fn merging_twice_keeps_the_text() {
    let target = "[core]\n\ta = 1\n";
    let source = "[core]\n\ta = 2\n";
    let once = deep_merge_gitconfig(target, source).unwrap();
    let twice = deep_merge_gitconfig(&once, source).unwrap();
    assert_eq!(once, twice);
}

#[test]
fn invalid_files_are_reported() {
    assert_eq!(deep_merge_gitconfig("[core", "[a]\n"), Err(GitMergeError::TargetParse));
    assert_eq!(deep_merge_gitconfig("[a]\n", "[core"), Err(GitMergeError::SourceParse));
}

#[test]
fn missing_sections_are_detected() {
    assert!(section_missing(&None, &None));
    assert!(!section_missing(&Some(vec![None]), &None));
    assert!(section_missing(&Some(vec![None]), &Some(b"x".to_vec())));
    assert!(!section_missing(&Some(vec![Some(b"x".to_vec())]), &Some(b"x".to_vec())));
}

fn count_sections(text: &str, name: &str) -> usize {
    let f = gix_config::File::from_str(text).unwrap();
    f.sections_by_name(name).map(|it| it.count()).unwrap_or(0)
}

#[test]
fn user_name_is_replaced_and_core_is_added() {
    let target = "[user]\n\tname = Old\n\temail = old@example.com\n";
    let source = "[user]\n\tname = New\n[core]\n\tautocrlf = true\n";
    let merged = deep_merge_gitconfig(target, source).unwrap();
    assert_eq!(value(&merged, "user", None, "name"), Some("New".to_string()));
    assert_eq!(value(&merged, "user", None, "email"), Some("old@example.com".to_string()));
    assert_eq!(value(&merged, "core", None, "autocrlf"), Some("true".to_string()));
    assert_eq!(count_sections(&merged, "user"), 1);
    assert_eq!(count_sections(&merged, "core"), 1);
}

#[test]
fn a_bare_target_key_is_overwritten() {
    let target = "[core]\n\tbare\n";
    let source = "[core]\n\tbare = false\n";
    let merged = deep_merge_gitconfig(target, source).unwrap();
    assert_eq!(value(&merged, "core", None, "bare"), Some("false".to_string()));
    assert_eq!(count_sections(&merged, "core"), 1);
}

#[test]
fn a_bare_source_key_is_written_empty() {
    let merged = deep_merge_gitconfig("[core]\n", "[core]\n\tflag\n").unwrap();
    assert_eq!(value(&merged, "core", None, "flag"), Some(String::new()));
}

#[test]
fn a_section_that_cannot_be_created_is_reported() {
    assert_eq!(
        deep_merge_gitconfig("[core]\n", "[a.b \"c\"]\n\tk = v\n"),
        Err(GitMergeError::NewSection)
    );
}
