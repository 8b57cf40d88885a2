//! Decisions taken by the command-line front end: which conflict policy the
//! flags select, which parts of a sync run, and where dotfile sources live.

use vstd::prelude::*;
use crate::dotfiles::{ConflictAction, ConflictStep};

verus! {

/// A combination of command-line flags that cannot be honoured.
#[derive(Debug, Clone, Copy, PartialEq, Eq, Structural)]
pub enum FlagError {
    /// `--delete` and `--backup` were both given.
    DeleteAndBackup,
}

/// The conflict policy that `--delete` and `--backup` select.
pub fn conflict_from_flags(delete: bool, backup: bool) -> (r: Result<ConflictAction, FlagError>)
    ensures
        r == (if delete && backup {
            Err(FlagError::DeleteAndBackup)
        } else if delete {
            Ok(ConflictAction::Delete)
        } else if backup {
            Ok(ConflictAction::Backup)
        } else {
            Ok(ConflictAction::Prompt)
        }),
{
    if delete && backup {
        Err(FlagError::DeleteAndBackup)
    } else if delete {
        Ok(ConflictAction::Delete)
    } else if backup {
        Ok(ConflictAction::Backup)
    } else {
        Ok(ConflictAction::Prompt)
    }
}

/// Which parts a sync runs.
#[derive(Debug, Clone, Copy, PartialEq, Eq, Structural)]
pub struct SyncParts {
    pub scoop: bool,
    pub dotfiles: bool,
}

/// Which parts a sync runs: Scoop unless `--dotfiles-only`, dotfiles unless
/// `--scoop-only`.
pub fn sync_parts(scoop_only: bool, dotfiles_only: bool) -> (r: SyncParts)
    ensures
        r.scoop == !dotfiles_only,
        r.dotfiles == !scoop_only,
{
    SyncParts { scoop: !dotfiles_only, dotfiles: !scoop_only }
}

/// The action taken on a conflicting target, given the resolution step and
/// the user's choice when one was asked for; `None` means skip.
pub fn conflict_outcome(step: ConflictStep, answer: Option<ConflictAction>) -> (r: Option<
    ConflictAction,
>)
    ensures
        r == (match step {
            ConflictStep::Ask => answer,
            ConflictStep::Apply(a) => Some(a),
        }),
{
    match step {
        ConflictStep::Ask => answer,
        ConflictStep::Apply(a) => Some(a),
    }
}

/// Whether `c` separates path components or ends a prefix on some
/// platform (`/`, `\` or `:`).
pub open spec fn is_path_special(c: char) -> bool {
    c == '/' || c == '\\' || c == ':'
}

/// Whether `s` holds none of `/`, `\` and `:`.
pub open spec fn plain_path_text(s: Seq<char>) -> bool {
    forall|i: int| 0 <= i < s.len() ==> !is_path_special(#[trigger] s[i])
}

/// Whether `path` is `head/name`, split at its `/` at index `i`, where
/// `name` is a plain final component (not empty, not `.` or `..`) and
/// `head` is a plain directory path: not empty, with no `\` or `:`, not
/// ending in `/` or `.`, and not starting with `//`. Every platform then
/// reads `head` as the path's parent.
pub open spec fn parent_split_at(path: Seq<char>, i: int) -> bool {
    let head = path.subrange(0, i);
    let name = path.subrange(i + 1, path.len() as int);
    &&& 0 < i < path.len()
    &&& path[i] == '/'
    &&& name.len() > 0
    &&& plain_path_text(name)
    &&& name != seq!['.']
    &&& name != seq!['.', '.']
    &&& forall|k: int| 0 <= k < head.len() ==> #[trigger] head[k] != '\\' && head[k] != ':'
    &&& head.last() != '/'
    &&& head.last() != '.'
    &&& !(head.len() >= 2 && head[0] == '/' && head[1] == '/')
}

/// Whether `path` is `/name`: a root followed by one plain component (not
/// empty, not `.` or `..`). Every platform reads `/` as its parent.
pub open spec fn root_child(path: Seq<char>) -> bool {
    let name = path.subrange(1, path.len() as int);
    &&& path.len() >= 2
    &&& path[0] == '/'
    &&& plain_path_text(name)
    &&& name != seq!['.']
    &&& name != seq!['.', '.']
}

/// `Path::parent`, as text: the path without its final component, `None`
/// when it ends in a root or prefix or is empty. The claim holds on every
/// platform: a parent is a strictly shorter prefix of the path; an empty
/// path has none; a path of one plain component has the empty parent; and
/// `head/name`, as `parent_split_at` describes it, has the parent `head`;
/// and `/name`, as `root_child` describes it, has the parent `/`.
#[verifier::external_body]
fn path_parent(path: &str) -> (r: Option<String>)
    ensures
        r matches Some(p) ==> p@.len() < path@.len() && p@ == path@.subrange(0, p@.len() as int),
        path@.len() == 0 ==> r.is_none(),
        path@.len() > 0 && plain_path_text(path@) ==> r.is_some() && r.unwrap()@ == Seq::<char>::empty(),
        forall|i: int|
            #[trigger] parent_split_at(path@, i) ==> r.is_some() && r.unwrap()@ == path@.subrange(0, i),
        root_child(path@) ==> r.is_some() && r.unwrap()@ == seq!['/'],
{
    match std::path::Path::new(path).parent() {
        Some(p) => Some(p.to_string_lossy().into_owned()),
        None => None,
    }
}

/// The directory dotfile sources are read from, given the parent of the
/// configuration file: that parent, or `.` when there is none.
pub fn base_dir_from_parent(parent: Option<&str>) -> (r: String)
    ensures
        r@ == (match parent {
            Some(p) => p@,
            None => "."@,
        }),
{
    match parent {
        Some(p) => String::from_str(p),
        None => String::from_str("."),
    }
}

/// The directory dotfile sources are read from: the directory of the
/// configuration file, or `.` when its path has no parent.
pub fn resolve_base_dir(config_path: &str) -> (r: String)
    ensures
        r@ == "."@ || (r@.len() < config_path@.len() && r@ == config_path@.subrange(
            0,
            r@.len() as int,
        )),
        config_path@.len() == 0 ==> r@ == "."@,
        config_path@.len() > 0 && plain_path_text(config_path@) ==> r@ == Seq::<char>::empty(),
        forall|i: int|
            #[trigger] parent_split_at(config_path@, i) ==> r@ == config_path@.subrange(0, i),
        root_child(config_path@) ==> r@ == seq!['/'],
{
    match path_parent(config_path) {
        Some(p) => base_dir_from_parent(Some(p.as_str())),
        None => base_dir_from_parent(None),
    }
}

} // verus!
