//! One-level undo per app: before each write to an app's config, the file
//! as it stood is recorded as that app's undo point, replacing any earlier
//! one, so undo always reverts exactly the last change. Undoing restores
//! the file (removing it if it didn't exist before the change) and consumes
//! the undo point, so a second undo in a row has nothing to do.
use vstd::prelude::*;

use crate::apps::TerminalApp;
use crate::config_dir::{app_file, app_file_path};
use crate::theme_store::opt_view;

verus! {

/// An app's undo point: whether its config file existed before the change
/// being backed up, and what it held.
pub struct Backup {
    pub existed: bool,
    pub content: Option<String>,
}

/// What undoing does to the config file.
pub enum Restore {
    /// Write this text to the file.
    Write(String),
    /// Remove the file, if it exists.
    Remove,
}

/// The state of a config file: its text, or `None` when there is no file.
pub type FileState = Option<Seq<char>>;

/// The file state an undo point records.
pub open spec fn backed_up(b: Backup) -> FileState {
    if b.existed {
        Some(
            match b.content {
                Some(c) => c@,
                None => Seq::empty(),
            },
        )
    } else {
        None
    }
}

/// The file state a restore leaves, whatever the file held before.
pub open spec fn restored(r: Restore) -> FileState {
    match r {
        Restore::Write(c) => Some(c@),
        Restore::Remove => None,
    }
}

/// The error when there is no undo point.
pub open spec fn nothing_to_undo() -> Seq<char> {
    "nothing to undo"@
}

/// Undoing the undo point that recording a file state gives back restores
/// exactly that state.
pub proof fn lemma_undo_restores_snapshot(current: Option<String>, b: Backup)
    requires
        b.existed == current is Some,
        b.content == current,
    ensures
        backed_up(b) == opt_view(current),
{
}

/// Where `app`'s undo point is kept under the data directory.
pub fn backup_path(data_dir: &str, app: TerminalApp) -> (r: String)
    ensures
        r@ == app_file(data_dir@, "backups"@, app),
{
    app_file_path(data_dir, "backups", app)
}

/// The undo point for a config file in state `current` (its text, or
/// `None` when it doesn't exist), recorded right before a write.
pub fn snapshot(current: Option<String>) -> (r: Backup)
    ensures
        r.existed == current is Some,
        r.content == current,
        backed_up(r) == opt_view(current),
{
    let existed = current.is_some();
    Backup { existed, content: current }
}

/// Whether an undo point is recorded.
pub fn has_backup(point: &Option<Backup>) -> (r: bool)
    ensures
        r == point is Some,
{
    point.is_some()
}

/// Undoes the last change: the restore that puts the config file back as
/// the undo point recorded it, consuming the point; an error when there is
/// none.
pub fn undo(point: &mut Option<Backup>) -> (r: Result<Restore, String>)
    ensures
        *final(point) is None,
        match r {
            Ok(a) => *old(point) matches Some(b) && restored(a) == backed_up(b),
            Err(e) => *old(point) is None && e@ == nothing_to_undo(),
        },
{
    match point.take() {
        None => Err(String::from_str("nothing to undo")),
        Some(b) => {
            if b.existed {
                let text = match b.content {
                    Some(c) => c,
                    None => String::new(),
                };
                Ok(Restore::Write(text))
            } else {
                Ok(Restore::Remove)
            }
        },
    }
}

} // verus!
