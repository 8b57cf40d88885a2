use home_sync::config::{BucketEntry, PackageEntry};
use home_sync::scoop::{
    bucket_add_args, bucket_steps, contains_name, parse_installed_buckets,
    parse_installed_packages, plan_buckets, plan_packages, strip_ansi, sync_step, SyncStep,
};

fn s(x: &str) -> String {
    x.to_string()
}

#[test]
fn strip_ansi_removes_color_codes() {
    assert_eq!(strip_ansi("\x1b[32mmain\x1b[0m"), "main");
    assert_eq!(strip_ansi("plain text"), "plain text");
    assert_eq!(strip_ansi("a\x1b[1;31mb"), "ab");
    assert_eq!(strip_ansi("\x1b[0"), "");
}

#[test]
fn strip_ansi_twice_is_once() {
    let x = "\x1b[1mName\x1b[0m  \x1b[33mSource";
    assert_eq!(strip_ansi(&strip_ansi(x)), strip_ansi(x));
}

#[test]
fn bucket_listing_is_parsed() {
    let out = "\nName   Source                                  Updated\n----   ------                                  -------\nmain   https://github.com/ScoopInstaller/Main  2024-01-01\nextras https://github.com/ScoopInstaller/Extras 2024-01-01\n\n";
    assert_eq!(parse_installed_buckets(out), vec![s("main"), s("extras")]);
}

#[test]
fn package_listing_is_parsed() {
    let out = "Installed apps:\r\n\r\nName    Version Source\r\n----    ------- ------\r\n\x1b[32m7zip\x1b[0m    23.01   main\r\n  git   2.43.0  main\r\n";
    assert_eq!(parse_installed_packages(out), vec![s("7zip"), s("git")]);
}

#[test]
fn empty_listing_has_no_names() {
    assert!(parse_installed_buckets("").is_empty());
    assert!(parse_installed_packages("   \n\t\n").is_empty());
}

#[test]
fn listing_line_without_newline_counts() {
    assert_eq!(parse_installed_buckets("main"), vec![s("main")]);
}

#[test]
fn contains_name_compares_whole_names() {
    let names = vec![s("main"), s("extras")];
    assert!(contains_name(&names, "main"));
    assert!(!contains_name(&names, "mai"));
}

#[test]
fn bucket_plan_adds_missing_and_removes_extra() {
    let buckets = vec![
        BucketEntry::Name(s("main")),
        BucketEntry::Name(s("extras")),
        BucketEntry::WithSource { name: s("my-bucket"), source: s("https://x/y") },
    ];
    let installed = vec![s("main"), s("versions")];
    let plan = plan_buckets(&buckets, &installed);
    assert_eq!(plan.missing, vec![1, 2]);
    assert_eq!(plan.extra, vec![s("versions")]);
}

#[test]
fn bucket_plan_on_synced_state_is_empty() {
    let buckets = vec![BucketEntry::Name(s("main")), BucketEntry::Name(s("extras"))];
    let installed = vec![s("extras"), s("main")];
    let plan = plan_buckets(&buckets, &installed);
    assert!(plan.missing.is_empty());
    assert!(plan.extra.is_empty());
}

#[test]
fn package_plan_counts_installed() {
    let packages = vec![
        PackageEntry::Name(s("git")),
        PackageEntry::WithBucket { name: s("zig"), bucket: s("main") },
        PackageEntry::Name(s("bat")),
    ];
    let installed = vec![s("7zip"), s("git"), s("neovim")];
    let plan = plan_packages(&packages, &installed);
    assert_eq!(plan.already_installed, 1);
    assert_eq!(plan.to_install, vec![1, 2]);
    assert_eq!(plan.extra, vec![s("7zip"), s("neovim")]);
}

#[test]
fn bucket_add_arguments() {
    let b = BucketEntry::WithSource { name: s("my-bucket"), source: s("https://x/y") };
    assert_eq!(bucket_add_args(&b), vec![s("bucket"), s("add"), s("my-bucket"), s("https://x/y")]);
    let b = BucketEntry::Name(s("extras"));
    assert_eq!(bucket_add_args(&b), vec![s("bucket"), s("add"), s("extras")]);
}

#[test]
fn carrying_out_a_plan_reaches_the_declared_set() {
    let packages = vec![
        PackageEntry::Name(s("git")),
        PackageEntry::Name(s("bat")),
        PackageEntry::WithBucket { name: s("zig"), bucket: s("main") },
    ];
    let installed = vec![s("7zip"), s("git")];
    let plan = plan_packages(&packages, &installed);
    let mut after: Vec<String> = installed.into_iter().filter(|n| !plan.extra.contains(n)).collect();
    for &i in &plan.to_install {
        after.push(packages[i].name().to_string());
    }
    after.sort();
    let mut declared: Vec<String> = packages.iter().map(|p| p.name().to_string()).collect();
    declared.sort();
    assert_eq!(after, declared);
    let again = plan_packages(&packages, &after);
    assert!(again.to_install.is_empty() && again.extra.is_empty());
}

#[test]
fn sync_steps() {
    assert_eq!(sync_step(false, false), SyncStep::Skip);
    assert_eq!(sync_step(false, true), SyncStep::Skip);
    assert_eq!(sync_step(true, true), SyncStep::Preview);
    assert_eq!(sync_step(true, false), SyncStep::Run);
}

#[test]
fn per_bucket_steps() {
    let buckets = vec![BucketEntry::Name(s("main")), BucketEntry::Name(s("extras"))];
    let installed = vec![s("main")];
    assert_eq!(bucket_steps(&buckets, &installed, false), vec![SyncStep::Skip, SyncStep::Run]);
    assert_eq!(bucket_steps(&buckets, &installed, true), vec![SyncStep::Skip, SyncStep::Preview]);
}

#[test]
fn strip_ansi_only_deletes_characters() {
    let s = "x\x1b[1;32my\x1b[0mz";
    let r = strip_ansi(s);
    assert_eq!(r, "xyz");
    assert!(r.chars().count() <= s.chars().count());
}
