//! Dotfile synchronisation: the decisions taken for each declared dotfile,
//! from how its target is labelled to what happens when it already exists.

use vstd::prelude::*;
use crate::config::{DotfileEntry, DotfileType};
use crate::text::{lowercase_of, text_is, to_lowercase, trim_seq, trim_str};

verus! {

/// How to handle existing target files during sync.
#[derive(Debug, Clone, Copy, PartialEq, Eq, Structural)]
pub enum ConflictAction {
    /// Prompt the user interactively.
    Prompt,
    /// Delete the existing file.
    Delete,
    /// Back up the existing file (rename it to `.bak`).
    Backup,
}

/// The label under which a dotfile's target is reported.
pub open spec fn target_label_view(entry: DotfileEntry) -> Seq<char> {
    match entry.dotfile_type {
        DotfileType::Persist => "persist:"@ + entry.target@,
        DotfileType::File => entry.target@,
    }
}

/// Get a display label for the target: `persist:<target>` for a persist
/// entry, the target itself otherwise.
pub fn target_label(entry: &DotfileEntry) -> (r: String)
    ensures
        r@ == target_label_view(*entry),
{
    match entry.dotfile_type {
        DotfileType::Persist => {
            let mut label = String::from_str("persist:");
            label.append(entry.target.as_str());
            label
        },
        DotfileType::File => entry.target.clone(),
    }
}

/// The file name a backup gets: the target's file name (empty when it has
/// none) followed by `.bak`.
pub open spec fn backup_name_view(file_name: Option<Seq<char>>) -> Seq<char> {
    match file_name {
        Some(n) => n + ".bak"@,
        None => ".bak"@,
    }
}

/// The file name of the backup of a target whose file name is given, e.g.
/// `file.ini` gives `file.ini.bak` and `file` gives `file.bak`.
pub fn backup_file_name(file_name: Option<&str>) -> (r: String)
    ensures
        r@ == backup_name_view(
            match file_name {
                Some(n) => Some(n@),
                None => None,
            },
        ),
{
    let mut name = match file_name {
        Some(n) => String::from_str(n),
        None => String::new(),
    };
    name.append(".bak");
    proof {
        assert(Seq::<char>::empty() + ".bak"@ =~= ".bak"@);
    }
    name
}

/// Whether two byte contents are equal.
pub fn contents_equal(a: &[u8], b: &[u8]) -> (r: bool)
    ensures
        r == (a@ == b@),
{
    if a.len() != b.len() {
        return false;
    }
    let mut i: usize = 0;
    while i < a.len()
        invariant
            a.len() == b.len(),
            i <= a.len(),
            forall|j: int| 0 <= j < i ==> a@[j] == b@[j],
        decreases a.len() - i,
    {
        if a[i] != b[i] {
            return false;
        }
        i = i + 1;
    }
    proof {
        assert(a@ =~= b@);
    }
    true
}

/// What resolving a conflict on an existing target amounts to: either the
/// user has to be asked, or the action is already known.
#[derive(Debug, Clone, Copy, PartialEq, Eq, Structural)]
pub enum ConflictStep {
    Ask,
    Apply(ConflictAction),
}

/// Resolve the conflict action: `Prompt` asks the user, the other actions
/// apply as they are.
pub fn resolve_conflict(action: &ConflictAction) -> (r: ConflictStep)
    ensures
        r == (match *action {
            ConflictAction::Prompt => ConflictStep::Ask,
            other => ConflictStep::Apply(other),
        }),
{
    match action {
        ConflictAction::Prompt => ConflictStep::Ask,
        ConflictAction::Delete => ConflictStep::Apply(ConflictAction::Delete),
        ConflictAction::Backup => ConflictStep::Apply(ConflictAction::Backup),
    }
}

/// The conflict resolution a (trimmed, lowercased) answer picks: `d` or
/// `delete` deletes, `b` or `backup` backs up, anything else skips.
pub open spec fn conflict_choice_view(answer: Seq<char>) -> Option<ConflictAction> {
    if answer == "d"@ || answer == "delete"@ {
        Some(ConflictAction::Delete)
    } else if answer == "b"@ || answer == "backup"@ {
        Some(ConflictAction::Backup)
    } else {
        None
    }
}

/// The conflict resolution an answer picks; `None` means skip.
pub fn conflict_choice(answer: &str) -> (r: Option<ConflictAction>)
    ensures
        r == conflict_choice_view(answer@),
{
    if text_is(answer, "d") || text_is(answer, "delete") {
        Some(ConflictAction::Delete)
    } else if text_is(answer, "b") || text_is(answer, "backup") {
        Some(ConflictAction::Backup)
    } else {
        None
    }
}

/// Read the user's reply to the conflict prompt: it is trimmed and
/// lowercased before it is matched.
pub fn parse_conflict_answer(input: &str) -> (r: Option<ConflictAction>)
    ensures
        r == conflict_choice_view(lowercase_of(trim_seq(input@))),
{
    let trimmed = trim_str(input);
    let lowered = to_lowercase(trimmed.as_str());
    conflict_choice(lowered.as_str())
}

/// Whether a (trimmed, lowercased) answer confirms: `y` or `yes`.
pub open spec fn is_yes_view(answer: Seq<char>) -> bool {
    answer == "y"@ || answer == "yes"@
}

/// Whether an answer confirms.
pub fn is_yes(answer: &str) -> (r: bool)
    ensures
        r == is_yes_view(answer@),
{
    text_is(answer, "y") || text_is(answer, "yes")
}

/// Read the user's reply to a yes/no prompt: it is trimmed and lowercased
/// before it is matched.
pub fn parse_confirmation(input: &str) -> (r: bool)
    ensures
        r == is_yes_view(lowercase_of(trim_seq(input@))),
{
    let trimmed = trim_str(input);
    let lowered = to_lowercase(trimmed.as_str());
    is_yes(lowered.as_str())
}

/// The step a copy takes for one dotfile.
#[derive(Debug, Clone, Copy, PartialEq, Eq, Structural)]
pub enum CopyStep {
    /// The target is missing: copy the source there.
    Copy,
    /// Dry run, target missing: report that it would be copied.
    WouldCopy,
    /// The target holds the same content: nothing to do.
    UpToDate,
    /// Dry run, target differs: report that it would be overwritten.
    WouldOverwrite,
    /// The target differs: resolve the conflict, then copy.
    ResolveConflict,
}

/// The step a copy takes, given whether the target exists, whether its
/// content equals the source's (only asked when it exists), and whether this
/// is a dry run.
pub open spec fn copy_step_view(target_exists: bool, same_content: bool, dry_run: bool) -> CopyStep {
    if !target_exists {
        if dry_run {
            CopyStep::WouldCopy
        } else {
            CopyStep::Copy
        }
    } else if same_content {
        CopyStep::UpToDate
    } else if dry_run {
        CopyStep::WouldOverwrite
    } else {
        CopyStep::ResolveConflict
    }
}

/// Decide what a copy does for one dotfile.
pub fn plan_copy(target_exists: bool, same_content: bool, dry_run: bool) -> (r: CopyStep)
    ensures
        r == copy_step_view(target_exists, same_content, dry_run),
{
    if !target_exists {
        if dry_run {
            CopyStep::WouldCopy
        } else {
            CopyStep::Copy
        }
    } else if same_content {
        CopyStep::UpToDate
    } else if dry_run {
        CopyStep::WouldOverwrite
    } else {
        CopyStep::ResolveConflict
    }
}

/// The step a merge takes for one dotfile.
#[derive(Debug, Clone, Copy, PartialEq, Eq, Structural)]
pub enum MergeStep {
    /// The target is missing: copy the source there as it is.
    CopyNew,
    /// Dry run, target missing: report that it would be copied.
    WouldCopyNew,
    /// The merged content equals the target's: nothing to do.
    UpToDate,
    /// Dry run, merged content differs: report that it would be merged.
    WouldMerge,
    /// Write the merged content to the target.
    Write,
}

/// The step a merge takes before any content is read: `None` when the
/// target exists and has to be merged.
pub open spec fn merge_start_view(target_exists: bool, dry_run: bool) -> Option<MergeStep> {
    if target_exists {
        None
    } else if dry_run {
        Some(MergeStep::WouldCopyNew)
    } else {
        Some(MergeStep::CopyNew)
    }
}

/// The step a merge takes once the merged content is known.
pub open spec fn merge_write_view(target_content: Seq<char>, merged: Seq<char>, dry_run: bool) -> MergeStep {
    if target_content == merged {
        MergeStep::UpToDate
    } else if dry_run {
        MergeStep::WouldMerge
    } else {
        MergeStep::Write
    }
}

/// Decide what a merge does when the target is missing; `None` means the
/// target exists and the contents have to be merged first.
pub fn plan_merge_start(target_exists: bool, dry_run: bool) -> (r: Option<MergeStep>)
    ensures
        r == merge_start_view(target_exists, dry_run),
{
    if target_exists {
        None
    } else if dry_run {
        Some(MergeStep::WouldCopyNew)
    } else {
        Some(MergeStep::CopyNew)
    }
}

/// Decide what a merge does once the merged content is known.
pub fn plan_merge_write(target_content: &str, merged: &str, dry_run: bool) -> (r: MergeStep)
    ensures
        r == merge_write_view(target_content@, merged@, dry_run),
{
    if text_is(target_content, merged) {
        MergeStep::UpToDate
    } else if dry_run {
        MergeStep::WouldMerge
    } else {
        MergeStep::Write
    }
}

/// A dry run only reports: no copy or merge step it takes writes to the
/// target or resolves a conflict.
pub proof fn dry_run_writes_nothing(
    target_exists: bool,
    same_content: bool,
    target_content: Seq<char>,
    merged: Seq<char>,
)
    ensures
        copy_step_view(target_exists, same_content, true) != CopyStep::Copy,
        copy_step_view(target_exists, same_content, true) != CopyStep::ResolveConflict,
        merge_start_view(target_exists, true) != Some(MergeStep::CopyNew),
        merge_write_view(target_content, merged, true) != MergeStep::Write,
{
}

/// A merge writes exactly when the merged text differs from the target's:
/// it reports the target up to date only when the two texts are equal, and
/// otherwise writes it (or, in a dry run, only says it would).
pub proof fn merge_writes_exactly_changed_text(
    target_content: Seq<char>,
    merged: Seq<char>,
    dry_run: bool,
)
    ensures
        (merge_write_view(target_content, merged, dry_run) == MergeStep::UpToDate) == (
        target_content == merged),
        target_content != merged && !dry_run ==> merge_write_view(target_content, merged, dry_run)
            == MergeStep::Write,
        target_content != merged && dry_run ==> merge_write_view(target_content, merged, dry_run)
            == MergeStep::WouldMerge,
{
}

/// A target that already matches is left alone, dry run or not.
pub proof fn matching_target_is_left_alone(content: Seq<char>, dry_run: bool)
    ensures
        copy_step_view(true, true, dry_run) == CopyStep::UpToDate,
        merge_write_view(content, content, dry_run) == MergeStep::UpToDate,
{
}

/// How `status` reports a dotfile.
#[derive(Debug, Clone, Copy, PartialEq, Eq, Structural)]
pub enum DotfileStatus {
    /// A copied target with the source's content.
    UpToDate,
    /// A copied target whose content differs.
    ContentDiffers,
    /// A copied target that could not be read.
    Unreadable,
    /// A merge target that exists.
    MergeTargetExists,
    /// No target yet.
    NotSynced,
}

/// The status of a copied dotfile, given whether its target exists and the
/// outcome of comparing the contents (`None` when they could not be read).
pub fn copy_status(target_exists: bool, same_content: Option<bool>) -> (r: DotfileStatus)
    ensures
        r == (if !target_exists {
            DotfileStatus::NotSynced
        } else {
            match same_content {
                Some(true) => DotfileStatus::UpToDate,
                Some(false) => DotfileStatus::ContentDiffers,
                None => DotfileStatus::Unreadable,
            }
        }),
{
    if !target_exists {
        DotfileStatus::NotSynced
    } else {
        match same_content {
            Some(true) => DotfileStatus::UpToDate,
            Some(false) => DotfileStatus::ContentDiffers,
            None => DotfileStatus::Unreadable,
        }
    }
}

/// The status of a merged dotfile, given whether its target exists.
pub fn merge_status(target_exists: bool) -> (r: DotfileStatus)
    ensures
        r == (if target_exists {
            DotfileStatus::MergeTargetExists
        } else {
            DotfileStatus::NotSynced
        }),
{
    if target_exists {
        DotfileStatus::MergeTargetExists
    } else {
        DotfileStatus::NotSynced
    }
}

} // verus!
