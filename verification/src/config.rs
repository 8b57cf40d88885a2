//! The configuration model: Scoop buckets and packages, and dotfile entries.

use vstd::prelude::*;
use crate::text::strings_view;

verus! {

/// A Scoop bucket entry: either a plain name or a name with a custom source URL.
pub enum BucketEntry {
    /// Simple bucket name (e.g. "main", "extras").
    Name(String),
    /// Bucket with a custom source URL.
    WithSource { name: String, source: String },
}

impl BucketEntry {
    /// The bucket's name, whichever form the entry has.
    pub open spec fn name_view(&self) -> Seq<char> {
        match self {
            BucketEntry::Name(n) => n@,
            BucketEntry::WithSource { name, .. } => name@,
        }
    }

    /// The bucket's custom source, if it has one.
    pub open spec fn source_view(&self) -> Option<Seq<char>> {
        match self {
            BucketEntry::Name(_) => None,
            BucketEntry::WithSource { source, .. } => Some(source@),
        }
    }

    /// Get the bucket name.
    pub fn name(&self) -> (r: &str)
        ensures
            r@ == self.name_view(),
    {
        match self {
            BucketEntry::Name(n) => n.as_str(),
            BucketEntry::WithSource { name, .. } => name.as_str(),
        }
    }

    /// Get the optional custom source URL.
    pub fn source(&self) -> (r: Option<&str>)
        ensures
            r.is_some() == self.source_view().is_some(),
            r.is_some() ==> r.unwrap()@ == self.source_view().unwrap(),
    {
        match self {
            BucketEntry::Name(_) => None,
            BucketEntry::WithSource { source, .. } => Some(source.as_str()),
        }
    }
}

/// A Scoop package entry: either a plain name or a name with the bucket it comes from.
pub enum PackageEntry {
    /// Simple package name (e.g. "git", "7zip").
    Name(String),
    /// Package with a specific bucket source (e.g. `{ name = "zig", bucket = "main" }`).
    WithBucket { name: String, bucket: String },
}

impl PackageEntry {
    /// The package's name, whichever form the entry has.
    pub open spec fn name_view(&self) -> Seq<char> {
        match self {
            PackageEntry::Name(n) => n@,
            PackageEntry::WithBucket { name, .. } => name@,
        }
    }

    /// The bucket the package is pinned to, if any.
    pub open spec fn bucket_view(&self) -> Option<Seq<char>> {
        match self {
            PackageEntry::Name(_) => None,
            PackageEntry::WithBucket { bucket, .. } => Some(bucket@),
        }
    }

    /// What `scoop install` is given: `bucket/name` for a pinned package, else the name.
    pub open spec fn install_spec_view(&self) -> Seq<char> {
        match self {
            PackageEntry::Name(n) => n@,
            PackageEntry::WithBucket { name, bucket } => bucket@ + seq!['/'] + name@,
        }
    }

    /// Get the package name.
    pub fn name(&self) -> (r: &str)
        ensures
            r@ == self.name_view(),
    {
        match self {
            PackageEntry::Name(n) => n.as_str(),
            PackageEntry::WithBucket { name, .. } => name.as_str(),
        }
    }

    /// Get the optional bucket source.
    pub fn bucket(&self) -> (r: Option<&str>)
        ensures
            r.is_some() == self.bucket_view().is_some(),
            r.is_some() ==> r.unwrap()@ == self.bucket_view().unwrap(),
    {
        match self {
            PackageEntry::Name(_) => None,
            PackageEntry::WithBucket { bucket, .. } => Some(bucket.as_str()),
        }
    }

    /// Get the install specifier (e.g. "bucket/package" or just "package").
    pub fn install_spec(&self) -> (r: String)
        ensures
            r@ == self.install_spec_view(),
    {
        match self {
            PackageEntry::Name(n) => n.clone(),
            PackageEntry::WithBucket { name, bucket } => {
                let mut spec = bucket.clone();
                crate::text::push_char(&mut spec, '/');
                spec.append(name.as_str());
                spec
            },
        }
    }
}

/// Scoop package manager configuration.
pub struct ScoopConfig {
    /// Declared buckets; each entry is a name or `{ name, source }`.
    pub buckets: Vec<BucketEntry>,
    /// Declared packages; each entry is a name or `{ name, bucket }`.
    pub packages: Vec<PackageEntry>,
}

/// Errors in a dotfile entry or in resolving its target.
#[derive(Debug, Clone, Copy, PartialEq, Eq, Structural)]
pub enum ConfigError {
    /// The user's home directory could not be determined.
    NoHomeDir,
    /// The entry has an empty `target`.
    MissingTarget,
    /// `behavior = "merge"` was declared without a `format`.
    MissingMergeFormat,
}

/// How a dotfile's `target` is read.
#[derive(Debug, Clone, Copy, PartialEq, Eq, Structural)]
pub enum DotfileType {
    /// `target` is a path of its own; a leading `~` stands for the home directory.
    File,
    /// `target` is relative to `~/scoop/persist/`.
    Persist,
}

/// How a dotfile reaches its target.
#[derive(Debug, Clone, Copy, PartialEq, Eq, Structural)]
pub enum DotfileBehavior {
    /// Copy the file, resolving conflicts when the target differs.
    Copy,
    /// Deep-merge the source into the target.
    Merge,
}

/// The file format used by a merge.
#[derive(Debug, Clone, Copy, PartialEq, Eq, Structural)]
pub enum MergeFormat {
    Json,
    Yaml,
    GitConfig,
}

/// A single dotfile mapping: source (in the repository) to target (on disk).
pub struct DotfileEntry {
    /// Path of the source file, relative to the configuration's directory.
    pub source: String,
    /// Target path; see `dotfile_type` for how it is read.
    pub target: String,
    /// How `target` is read (`type` in the configuration file).
    pub dotfile_type: DotfileType,
    /// Copy or merge.
    pub behavior: DotfileBehavior,
    /// The format of a merge; required when `behavior` is `Merge`.
    pub format: Option<MergeFormat>,
}

/// Top-level configuration.
pub struct Config {
    pub scoop: Option<ScoopConfig>,
    pub dotfiles: Vec<DotfileEntry>,
}

/// The path components a `~`-expanded target stands for, joined in order,
/// given the home directory (`None` when it cannot be determined).
pub open spec fn spec_target_parts(target: Seq<char>, home: Option<Seq<char>>) -> Result<
    Seq<Seq<char>>,
    ConfigError,
> {
    if target.len() >= 2 && target[0] == '~' && target[1] == '/' {
        match home {
            Some(h) => Ok(seq![h, target.subrange(2, target.len() as int)]),
            None => Err(ConfigError::NoHomeDir),
        }
    } else if target == seq!['~'] {
        match home {
            Some(h) => Ok(seq![h]),
            None => Err(ConfigError::NoHomeDir),
        }
    } else {
        Ok(seq![target])
    }
}

/// The view of a list of path components.
pub open spec fn parts_view(r: Result<Vec<String>, ConfigError>) -> Result<
    Seq<Seq<char>>,
    ConfigError,
> {
    match r {
        Ok(v) => Ok(strings_view(v@)),
        Err(e) => Err(e),
    }
}

/// The view of an optional string.
pub open spec fn opt_view(o: Option<String>) -> Option<Seq<char>> {
    match o {
        Some(s) => Some(s@),
        None => None,
    }
}

/// `dirs::home_dir`, as text. The home directory comes from the
/// environment, so nothing is claimed of the result. A home path that is
/// not valid Unicode is turned into text with `to_string_lossy`, its
/// invalid bytes replaced by U+FFFD, as paths here are held as `String`.
#[verifier::external_body]
fn home_dir() -> Option<String> {
    match dirs::home_dir() {
        Some(p) => Some(p.to_string_lossy().into_owned()),
        None => None,
    }
}

/// A one-element list of path components.
fn single_part(s: String) -> (r: Vec<String>)
    ensures
        r@ == seq![s],
        strings_view(r@) == seq![s@],
{
    let mut v: Vec<String> = Vec::new();
    v.push(s);
    proof {
        assert(strings_view(v@) =~= seq![s@]);
    }
    v
}

impl Config {
    /// Resolve a target path given the home directory: `~/rest` becomes
    /// `[home, rest]`, `~` becomes `[home]`, anything else is taken as it is.
    /// The components are to be joined in order.
    pub fn resolve_target_with_home(target: &str, home: Option<String>) -> (r: Result<
        Vec<String>,
        ConfigError,
    >)
        ensures
            parts_view(r) == spec_target_parts(
                target@,
                opt_view(home),
            ),
    {
        let cs = crate::text::chars_of(target);
        let n = cs.len();
        if n >= 2 && cs[0] == '~' && cs[1] == '/' {
            match home {
                Some(h) => {
                    let rest = crate::text::string_of(&cs, 2, n);
                    let mut v = single_part(h);
                                        v.push(rest);
                    proof {
                        assert(strings_view(v@) =~= seq![strings_view(v@)[0], rest@]);
                    }
                    Ok(v)
                },
                None => Err(ConfigError::NoHomeDir),
            }
        } else if n == 1 && cs[0] == '~' {
            proof {
                assert(target@ =~= seq!['~']);
            }
            match home {
                Some(h) => Ok(single_part(h)),
                None => Err(ConfigError::NoHomeDir),
            }
        } else {
            proof {
                if target@ == seq!['~'] {
                    assert(target@.len() == 1);
                    assert(target@[0] == '~');
                }
                assert(cs@.subrange(0, n as int) =~= target@);
            }
            Ok(single_part(crate::text::string_of(&cs, 0, n)))
        }
    }

    /// Resolve a target path, expanding `~` to the user's home directory.
    /// What comes back is the list of path components to join in order; the
    /// home directory is whatever the environment reports.
    pub fn resolve_target(target: &str) -> (r: Result<Vec<String>, ConfigError>)
        ensures
            exists|home: Option<Seq<char>>| parts_view(r) == spec_target_parts(target@, home),
    {
        let home = home_dir();
        let ghost h = opt_view(home);
        let r = Config::resolve_target_with_home(target, home);
        proof {
            assert(parts_view(r) == spec_target_parts(target@, h));
        }
        r
    }
}

impl DotfileEntry {
    /// The components of this entry's target path, given the home directory.
    pub open spec fn spec_resolved(&self, home: Option<Seq<char>>) -> Result<
        Seq<Seq<char>>,
        ConfigError,
    > {
        if self.target@.len() == 0 {
            Err(ConfigError::MissingTarget)
        } else {
            match self.dotfile_type {
                DotfileType::Persist => match home {
                    Some(h) => Ok(seq![h, "scoop"@, "persist"@, self.target@]),
                    None => Err(ConfigError::NoHomeDir),
                },
                DotfileType::File => spec_target_parts(self.target@, home),
            }
        }
    }

    /// Resolve the effective target path for this entry, given the home
    /// directory: a persist entry resolves to `home/scoop/persist/<target>`,
    /// a file entry by `~` expansion.
    pub fn resolve_target_with_home(&self, home: Option<String>) -> (r: Result<
        Vec<String>,
        ConfigError,
    >)
        ensures
            parts_view(r) == self.spec_resolved(
                opt_view(home),
            ),
    {
        if self.target.as_str().is_empty() {
            return Err(ConfigError::MissingTarget);
        }
        match self.dotfile_type {
            DotfileType::Persist => match home {
                Some(h) => {
                    let mut v = single_part(h);
                    v.push(String::from_str("scoop"));
                    v.push(String::from_str("persist"));
                    v.push(self.target.clone());
                    proof {
                        assert(strings_view(v@) =~= seq![
                            strings_view(v@)[0],
                            "scoop"@,
                            "persist"@,
                            self.target@,
                        ]);
                    }
                    Ok(v)
                },
                None => Err(ConfigError::NoHomeDir),
            },
            DotfileType::File => Config::resolve_target_with_home(self.target.as_str(), home),
        }
    }

    /// Resolve the effective target path for this entry, with the home
    /// directory that the environment reports.
    pub fn resolve_target(&self) -> (r: Result<Vec<String>, ConfigError>)
        ensures
            exists|home: Option<Seq<char>>| parts_view(r) == self.spec_resolved(home),
    {
        let home = home_dir();
        let ghost h = opt_view(home);
        let r = self.resolve_target_with_home(home);
        proof {
            assert(parts_view(r) == self.spec_resolved(h));
        }
        r
    }

    /// Check the entry: a merge needs a format.
    pub fn validate(&self) -> (r: Result<(), ConfigError>)
        ensures
            r == (if self.behavior == DotfileBehavior::Merge && self.format.is_none() {
                Err(ConfigError::MissingMergeFormat)
            } else {
                Ok(())
            }),
    {
        match self.behavior {
            DotfileBehavior::Merge => match self.format {
                None => Err(ConfigError::MissingMergeFormat),
                Some(_) => Ok(()),
            },
            DotfileBehavior::Copy => Ok(()),
        }
    }
}

} // verus!
