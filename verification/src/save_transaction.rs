//! The decisions of a province map save: which files it writes, where it
//! refuses to go, and the transaction that publishes the files into a
//! project directory (lock, journal, staging, backup, commit, rollback).
//!
//! The transaction is a state machine: the caller performs the action that
//! the state names, reports whether it succeeded, and advances the state.
use vstd::prelude::*;
use crate::province_save::{ProvinceSaveMode, ProvinceSaveProgress, ProvinceSaveStage, stage_cancellable};

verus! {

/// A file of the province map that a save writes.
#[derive(Debug, Clone, Copy, PartialEq, Eq, Structural)]
pub enum ProvinceSaveFile {
    ProvincesBmp,
    DefinitionCsv,
    AdjacenciesCsv,
    IdChangesTxt,
}

pub open spec fn save_file_name(f: ProvinceSaveFile) -> Seq<char> {
    match f {
        ProvinceSaveFile::ProvincesBmp => "provinces.bmp"@,
        ProvinceSaveFile::DefinitionCsv => "definition.csv"@,
        ProvinceSaveFile::AdjacenciesCsv => "adjacencies.csv"@,
        ProvinceSaveFile::IdChangesTxt => "id_changes.txt"@,
    }
}

impl ProvinceSaveFile {
    /// The file's name inside the map directory.
    pub fn file_name(self) -> (r: &'static str)
        ensures
            r@ == save_file_name(self),
    {
        match self {
            ProvinceSaveFile::ProvincesBmp => "provinces.bmp",
            ProvinceSaveFile::DefinitionCsv => "definition.csv",
            ProvinceSaveFile::AdjacenciesCsv => "adjacencies.csv",
            ProvinceSaveFile::IdChangesTxt => "id_changes.txt",
        }
    }
}

/// The files a save writes: the bitmap and the definition table always,
/// the adjacency table where there are adjacencies, and the id change list
/// where ids changed.
pub open spec fn save_files(has_adjacencies: bool, has_id_changes: bool) -> Seq<ProvinceSaveFile> {
    seq![ProvinceSaveFile::ProvincesBmp, ProvinceSaveFile::DefinitionCsv]
        + (if has_adjacencies { seq![ProvinceSaveFile::AdjacenciesCsv] } else { Seq::empty() })
        + (if has_id_changes { seq![ProvinceSaveFile::IdChangesTxt] } else { Seq::empty() })
}

pub open spec fn archive_save_refusal() -> Seq<char> {
    "Saving the current Province workspace to an archive is not supported."@
}

/// What a save writes, or why it is refused: a save (as opposed to an
/// export) cannot go into an archive.
pub fn save_plan(mode: ProvinceSaveMode, to_archive: bool, has_adjacencies: bool, has_id_changes: bool) -> (r: Result<
    Vec<ProvinceSaveFile>,
    String,
>)
    ensures
        r is Err <==> to_archive && mode == ProvinceSaveMode::Save,
        r matches Err(e) ==> e@ == archive_save_refusal(),
        r matches Ok(files) ==> files@ == save_files(has_adjacencies, has_id_changes),
{
    if to_archive && mode.clears_dirty() {
        return Err(String::from_str("Saving the current Province workspace to an archive is not supported."));
    }
    let mut files: Vec<ProvinceSaveFile> = Vec::new();
    files.push(ProvinceSaveFile::ProvincesBmp);
    files.push(ProvinceSaveFile::DefinitionCsv);
    if has_adjacencies {
        files.push(ProvinceSaveFile::AdjacenciesCsv);
    }
    if has_id_changes {
        files.push(ProvinceSaveFile::IdChangesTxt);
    }
    proof {
        assert(files@ =~= save_files(has_adjacencies, has_id_changes));
    }
    Ok(files)
}

/// What the journal of a save records about it.
#[derive(Debug, Clone, Copy, PartialEq, Eq, Structural)]
pub enum ProvinceJournalState {
    Prepared,
    Validated,
    BackupComplete,
    Committing,
    Committed,
    Reloaded,
    Verified,
    RolledBack,
    Cancelled,
    FailedBeforeCommit,
    RecoveryRequired,
}

/// The journal state of a failed save: recovery is required where a
/// rollback was incomplete, the save is rolled back where a rollback
/// restored the files, and otherwise it was cancelled or failed before the
/// commit.
pub open spec fn failure_state(critical: bool, restored: bool, cancelled: bool) -> ProvinceJournalState {
    if critical {
        ProvinceJournalState::RecoveryRequired
    } else if restored {
        ProvinceJournalState::RolledBack
    } else if cancelled {
        ProvinceJournalState::Cancelled
    } else {
        ProvinceJournalState::FailedBeforeCommit
    }
}

pub fn journal_state_after_failure(critical: bool, restored: bool, cancelled: bool) -> (r: ProvinceJournalState)
    ensures
        r == failure_state(critical, restored, cancelled),
{
    if critical {
        ProvinceJournalState::RecoveryRequired
    } else if restored {
        ProvinceJournalState::RolledBack
    } else if cancelled {
        ProvinceJournalState::Cancelled
    } else {
        ProvinceJournalState::FailedBeforeCommit
    }
}

/// How a directory save failed.
#[derive(Debug, Clone, Copy, PartialEq, Eq, Structural)]
pub enum SaveFailure {
    /// A step failed before anything was committed, or the journal could
    /// not record the commit; the step's error stands as it is.
    Step,
    /// Committing failed and the rollback restored the original files.
    CommitRolledBack,
    /// Committing failed and the rollback was incomplete.
    CommitRollbackIncomplete,
    /// Reloading or verifying the published files failed and the rollback
    /// restored the original files.
    VerificationRolledBack,
    /// Reloading or verifying the published files failed and the rollback
    /// was incomplete.
    VerificationRollbackIncomplete,
}

pub open spec fn failure_critical(f: SaveFailure) -> bool {
    f == SaveFailure::CommitRollbackIncomplete || f == SaveFailure::VerificationRollbackIncomplete
}

pub open spec fn failure_restored(f: SaveFailure) -> bool {
    f == SaveFailure::CommitRolledBack || f == SaveFailure::VerificationRolledBack
}

impl SaveFailure {
    /// The rollback was incomplete and recovery is required.
    pub fn critical(self) -> (r: bool)
        ensures
            r == failure_critical(self),
    {
        match self {
            SaveFailure::CommitRollbackIncomplete | SaveFailure::VerificationRollbackIncomplete => true,
            _ => false,
        }
    }

    /// A rollback restored and verified the original files.
    pub fn restored(self) -> (r: bool)
        ensures
            r == failure_restored(self),
    {
        match self {
            SaveFailure::CommitRolledBack | SaveFailure::VerificationRolledBack => true,
            _ => false,
        }
    }
}

/// The error message of a failed save, from the error of the step that
/// failed and, where a rollback was incomplete, the rollback's error.
pub open spec fn failure_message(f: SaveFailure, error: Seq<char>, rollback: Seq<char>) -> Seq<char> {
    match f {
        SaveFailure::Step => error,
        SaveFailure::CommitRolledBack => error + ". Original files were restored and verified."@,
        SaveFailure::CommitRollbackIncomplete => error + ". CRITICAL: rollback was incomplete: "@ + rollback
            + ". Recovery is required."@,
        SaveFailure::VerificationRolledBack => error
            + ". Final verification failed; original files were restored and verified."@,
        SaveFailure::VerificationRollbackIncomplete => error
            + ". CRITICAL: final verification failed and rollback was incomplete: "@ + rollback
            + ". Recovery is required."@,
    }
}

pub fn save_failure_message(f: SaveFailure, error: &str, rollback: &str) -> (r: String)
    ensures
        r@ == failure_message(f, error@, rollback@),
{
    let mut out = String::from_str(error);
    match f {
        SaveFailure::Step => {},
        SaveFailure::CommitRolledBack => {
            out.append(". Original files were restored and verified.");
        },
        SaveFailure::CommitRollbackIncomplete => {
            out.append(". CRITICAL: rollback was incomplete: ");
            out.append(rollback);
            out.append(". Recovery is required.");
        },
        SaveFailure::VerificationRolledBack => {
            out.append(". Final verification failed; original files were restored and verified.");
        },
        SaveFailure::VerificationRollbackIncomplete => {
            out.append(". CRITICAL: final verification failed and rollback was incomplete: ");
            out.append(rollback);
            out.append(". Recovery is required.");
        },
    }
    out
}

/// Where a rollback was started from.
#[derive(Debug, Clone, Copy, PartialEq, Eq, Structural)]
pub enum RollbackCause {
    Commit,
    Verification,
}

/// The position of a directory save; each names the action the caller
/// performs next.
#[derive(Debug, Clone, Copy, PartialEq, Eq, Structural)]
pub enum DirectoryStep {
    /// Create the destination directory.
    CreateDirectory,
    /// Take the save lock.
    CreateLock,
    /// Record `Prepared` in the journal.
    JournalPrepared,
    /// Work out the staged, rollback and destination paths of each file.
    PrepareFiles,
    /// Write the staged copy of file `i`.
    Stage(usize),
    /// Check for cancellation after staging file `i`.
    CancelAfterStage(usize),
    /// Validate the staged files.
    Validate,
    /// Record `Validated` in the journal.
    JournalValidated,
    /// Check for cancellation after validation.
    CancelAfterValidation,
    /// Back up and verify the files about to be replaced.
    Backup,
    /// Record `BackupComplete` in the journal.
    JournalBackup,
    /// Check for cancellation before the commit.
    CancelBeforeCommit,
    /// Check that the destination files did not change meanwhile.
    VerifyDestinations,
    /// Publish the staged files.
    Commit,
    /// Record `Committed` in the journal.
    JournalCommitted,
    /// Reload and validate the published files.
    Reload,
    /// Record `Reloaded` in the journal.
    JournalReloaded,
    /// Verify the published files against the candidate.
    VerifyPublished,
    /// Record `Verified` in the journal.
    JournalVerified,
    /// Restore the original files.
    RollBack(RollbackCause),
    /// Record the failure in the journal, where it exists.
    RecordFailure(SaveFailure),
    /// Release the save lock; the save ends with the failure, if any.
    Unlock(Option<SaveFailure>),
    /// The save is over: saved, or failed.
    Finished(Option<SaveFailure>),
}

/// A directory save in progress. A save (as opposed to an export) takes the
/// lock, keeps a journal and makes a backup.
#[derive(Debug, Clone, Copy, PartialEq, Eq, Structural)]
pub struct DirectorySave {
    pub journaled: bool,
    pub files: usize,
    pub step: DirectoryStep,
}

/// Where a failed step leads: a save records the failure; an export ends.
pub open spec fn failed_at(s: DirectorySave, f: SaveFailure) -> DirectoryStep {
    if s.journaled {
        DirectoryStep::RecordFailure(f)
    } else {
        DirectoryStep::Finished(Some(f))
    }
}

/// The step after a cancellation check or an optional journal entry.
pub open spec fn after_validation(s: DirectorySave) -> DirectoryStep {
    if s.journaled {
        DirectoryStep::Backup
    } else {
        DirectoryStep::CancelBeforeCommit
    }
}

/// The step after the files were staged from position `i` on.
pub open spec fn stage_from(s: DirectorySave, i: usize) -> DirectoryStep {
    if i < s.files {
        DirectoryStep::Stage(i)
    } else {
        DirectoryStep::Validate
    }
}

/// The transaction: each step that succeeds leads to the next; a step that
/// fails before the commit ends the save; a failed commit or a failed check
/// of the published files leads to a rollback, whose outcome decides the
/// failure. A failure is recorded in the journal of a save, whose lock is
/// then released unless the rollback was incomplete.
pub open spec fn directory_next(s: DirectorySave, ok: bool) -> DirectoryStep {
    let j = s.journaled;
    match s.step {
        DirectoryStep::CreateDirectory => if !ok {
            DirectoryStep::Finished(Some(SaveFailure::Step))
        } else if j {
            DirectoryStep::CreateLock
        } else {
            DirectoryStep::PrepareFiles
        },
        DirectoryStep::CreateLock => if ok {
            DirectoryStep::JournalPrepared
        } else {
            DirectoryStep::Finished(Some(SaveFailure::Step))
        },
        DirectoryStep::JournalPrepared => if ok {
            DirectoryStep::PrepareFiles
        } else {
            failed_at(s, SaveFailure::Step)
        },
        DirectoryStep::PrepareFiles => if ok {
            stage_from(s, 0)
        } else {
            failed_at(s, SaveFailure::Step)
        },
        DirectoryStep::Stage(i) => if ok {
            DirectoryStep::CancelAfterStage(i)
        } else {
            failed_at(s, SaveFailure::Step)
        },
        DirectoryStep::CancelAfterStage(i) => if !ok {
            failed_at(s, SaveFailure::Step)
        } else if i < s.files {
            stage_from(s, (i + 1) as usize)
        } else {
            DirectoryStep::Validate
        },
        DirectoryStep::Validate => if !ok {
            failed_at(s, SaveFailure::Step)
        } else if j {
            DirectoryStep::JournalValidated
        } else {
            DirectoryStep::CancelAfterValidation
        },
        DirectoryStep::JournalValidated => if ok {
            DirectoryStep::CancelAfterValidation
        } else {
            failed_at(s, SaveFailure::Step)
        },
        DirectoryStep::CancelAfterValidation => if ok {
            after_validation(s)
        } else {
            failed_at(s, SaveFailure::Step)
        },
        DirectoryStep::Backup => if ok {
            DirectoryStep::JournalBackup
        } else {
            failed_at(s, SaveFailure::Step)
        },
        DirectoryStep::JournalBackup => if ok {
            DirectoryStep::CancelBeforeCommit
        } else {
            failed_at(s, SaveFailure::Step)
        },
        DirectoryStep::CancelBeforeCommit => if ok {
            DirectoryStep::VerifyDestinations
        } else {
            failed_at(s, SaveFailure::Step)
        },
        DirectoryStep::VerifyDestinations => if ok {
            DirectoryStep::Commit
        } else {
            failed_at(s, SaveFailure::Step)
        },
        DirectoryStep::Commit => if !ok {
            DirectoryStep::RollBack(RollbackCause::Commit)
        } else if j {
            DirectoryStep::JournalCommitted
        } else {
            DirectoryStep::Reload
        },
        DirectoryStep::JournalCommitted => if ok {
            DirectoryStep::Reload
        } else {
            failed_at(s, SaveFailure::Step)
        },
        DirectoryStep::Reload => if !ok {
            DirectoryStep::RollBack(RollbackCause::Verification)
        } else if j {
            DirectoryStep::JournalReloaded
        } else {
            DirectoryStep::VerifyPublished
        },
        DirectoryStep::JournalReloaded => if ok {
            DirectoryStep::VerifyPublished
        } else {
            DirectoryStep::RollBack(RollbackCause::Verification)
        },
        DirectoryStep::VerifyPublished => if !ok {
            DirectoryStep::RollBack(RollbackCause::Verification)
        } else if j {
            DirectoryStep::JournalVerified
        } else {
            DirectoryStep::Finished(None)
        },
        DirectoryStep::JournalVerified => if ok {
            DirectoryStep::Unlock(None)
        } else {
            DirectoryStep::RollBack(RollbackCause::Verification)
        },
        DirectoryStep::RollBack(cause) => failed_at(
            s,
            match cause {
                RollbackCause::Commit => if ok {
                    SaveFailure::CommitRolledBack
                } else {
                    SaveFailure::CommitRollbackIncomplete
                },
                RollbackCause::Verification => if ok {
                    SaveFailure::VerificationRolledBack
                } else {
                    SaveFailure::VerificationRollbackIncomplete
                },
            },
        ),
        DirectoryStep::RecordFailure(f) => if failure_critical(f) {
            DirectoryStep::Finished(Some(f))
        } else {
            DirectoryStep::Unlock(Some(f))
        },
        DirectoryStep::Unlock(outcome) => DirectoryStep::Finished(outcome),
        DirectoryStep::Finished(outcome) => DirectoryStep::Finished(outcome),
    }
}

/// How many steps a save has left at most: the stage positions count two
/// steps per file still to stage.
pub open spec fn steps_left(s: DirectorySave) -> nat {
    let tail: nat = 19;
    match s.step {
        DirectoryStep::CreateDirectory => tail + 2 * (s.files as nat) + 6,
        DirectoryStep::CreateLock => tail + 2 * (s.files as nat) + 5,
        DirectoryStep::JournalPrepared => tail + 2 * (s.files as nat) + 4,
        DirectoryStep::PrepareFiles => tail + 2 * (s.files as nat) + 3,
        DirectoryStep::Stage(i) => tail + 2 * (if i < s.files { (s.files - i) as nat } else { 0 }) + 2,
        DirectoryStep::CancelAfterStage(i) => tail + 2 * (if i < s.files { (s.files - i) as nat } else { 0 }) + 1,
        DirectoryStep::Validate => tail,
        DirectoryStep::JournalValidated => 18,
        DirectoryStep::CancelAfterValidation => 17,
        DirectoryStep::Backup => 16,
        DirectoryStep::JournalBackup => 15,
        DirectoryStep::CancelBeforeCommit => 14,
        DirectoryStep::VerifyDestinations => 13,
        DirectoryStep::Commit => 12,
        DirectoryStep::JournalCommitted => 11,
        DirectoryStep::Reload => 10,
        DirectoryStep::JournalReloaded => 9,
        DirectoryStep::VerifyPublished => 8,
        DirectoryStep::JournalVerified => 7,
        DirectoryStep::RollBack(_) => 4,
        DirectoryStep::RecordFailure(_) => 2,
        DirectoryStep::Unlock(_) => 1,
        DirectoryStep::Finished(_) => 0,
    }
}

impl DirectorySave {
    /// A save or an export of `files` files into a project directory,
    /// about to create the directory.
    pub fn new(mode: ProvinceSaveMode, files: usize) -> (r: Self)
        ensures
            r.journaled == (mode == ProvinceSaveMode::Save),
            r.files == files,
            r.step == DirectoryStep::CreateDirectory,
    {
        DirectorySave { journaled: mode.clears_dirty(), files, step: DirectoryStep::CreateDirectory }
    }

    /// The save after its current step succeeded (`ok`) or failed. For a
    /// cancellation check, success means that nothing was cancelled; for a
    /// rollback, that the original files were restored and verified. The
    /// outcome of recording a failure or releasing the lock does not
    /// matter.
    pub fn advance(self, ok: bool) -> (r: Self)
        ensures
            r.journaled == self.journaled,
            r.files == self.files,
            r.step == directory_next(self, ok),
    {
        let j = self.journaled;
        let fail = if j {
            DirectoryStep::RecordFailure(SaveFailure::Step)
        } else {
            DirectoryStep::Finished(Some(SaveFailure::Step))
        };
        let next = match self.step {
            DirectoryStep::CreateDirectory => if !ok {
                DirectoryStep::Finished(Some(SaveFailure::Step))
            } else if j {
                DirectoryStep::CreateLock
            } else {
                DirectoryStep::PrepareFiles
            },
            DirectoryStep::CreateLock => if ok {
                DirectoryStep::JournalPrepared
            } else {
                DirectoryStep::Finished(Some(SaveFailure::Step))
            },
            DirectoryStep::JournalPrepared => if ok { DirectoryStep::PrepareFiles } else { fail },
            DirectoryStep::PrepareFiles => if !ok {
                fail
            } else if 0 < self.files {
                DirectoryStep::Stage(0)
            } else {
                DirectoryStep::Validate
            },
            DirectoryStep::Stage(i) => if ok { DirectoryStep::CancelAfterStage(i) } else { fail },
            DirectoryStep::CancelAfterStage(i) => if !ok {
                fail
            } else if i < self.files && i + 1 < self.files {
                DirectoryStep::Stage(i + 1)
            } else {
                DirectoryStep::Validate
            },
            DirectoryStep::Validate => if !ok {
                fail
            } else if j {
                DirectoryStep::JournalValidated
            } else {
                DirectoryStep::CancelAfterValidation
            },
            DirectoryStep::JournalValidated => if ok { DirectoryStep::CancelAfterValidation } else { fail },
            DirectoryStep::CancelAfterValidation => if !ok {
                fail
            } else if j {
                DirectoryStep::Backup
            } else {
                DirectoryStep::CancelBeforeCommit
            },
            DirectoryStep::Backup => if ok { DirectoryStep::JournalBackup } else { fail },
            DirectoryStep::JournalBackup => if ok { DirectoryStep::CancelBeforeCommit } else { fail },
            DirectoryStep::CancelBeforeCommit => if ok { DirectoryStep::VerifyDestinations } else { fail },
            DirectoryStep::VerifyDestinations => if ok { DirectoryStep::Commit } else { fail },
            DirectoryStep::Commit => if !ok {
                DirectoryStep::RollBack(RollbackCause::Commit)
            } else if j {
                DirectoryStep::JournalCommitted
            } else {
                DirectoryStep::Reload
            },
            DirectoryStep::JournalCommitted => if ok { DirectoryStep::Reload } else { fail },
            DirectoryStep::Reload => if !ok {
                DirectoryStep::RollBack(RollbackCause::Verification)
            } else if j {
                DirectoryStep::JournalReloaded
            } else {
                DirectoryStep::VerifyPublished
            },
            DirectoryStep::JournalReloaded => if ok {
                DirectoryStep::VerifyPublished
            } else {
                DirectoryStep::RollBack(RollbackCause::Verification)
            },
            DirectoryStep::VerifyPublished => if !ok {
                DirectoryStep::RollBack(RollbackCause::Verification)
            } else if j {
                DirectoryStep::JournalVerified
            } else {
                DirectoryStep::Finished(None)
            },
            DirectoryStep::JournalVerified => if ok {
                DirectoryStep::Unlock(None)
            } else {
                DirectoryStep::RollBack(RollbackCause::Verification)
            },
            DirectoryStep::RollBack(cause) => {
                let f = match cause {
                    RollbackCause::Commit => if ok {
                        SaveFailure::CommitRolledBack
                    } else {
                        SaveFailure::CommitRollbackIncomplete
                    },
                    RollbackCause::Verification => if ok {
                        SaveFailure::VerificationRolledBack
                    } else {
                        SaveFailure::VerificationRollbackIncomplete
                    },
                };
                if j {
                    DirectoryStep::RecordFailure(f)
                } else {
                    DirectoryStep::Finished(Some(f))
                }
            },
            DirectoryStep::RecordFailure(f) => if f.critical() {
                DirectoryStep::Finished(Some(f))
            } else {
                DirectoryStep::Unlock(Some(f))
            },
            DirectoryStep::Unlock(outcome) => DirectoryStep::Finished(outcome),
            DirectoryStep::Finished(outcome) => DirectoryStep::Finished(outcome),
        };
        DirectorySave { journaled: self.journaled, files: self.files, step: next }
    }

    /// The save is over.
    pub fn is_finished(self) -> (r: bool)
        ensures
            r == (self.step is Finished),
    {
        match self.step {
            DirectoryStep::Finished(_) => true,
            _ => false,
        }
    }
}

/// Every step brings a save closer to its end: the transaction always
/// finishes.
pub proof fn lemma_directory_save_finishes(s: DirectorySave, ok: bool)
    requires
        !(s.step is Finished),
    ensures
        steps_left(DirectorySave { step: directory_next(s, ok), ..s }) < steps_left(s),
{
}

/// Files are committed only right after the destination files were found
/// unchanged, and that check comes only after the cancellation check that
/// follows validation (and, for a save, the backup).
pub proof fn lemma_commit_only_after_checks(s: DirectorySave, ok: bool)
    ensures
        directory_next(s, ok) == DirectoryStep::Commit ==> s.step == DirectoryStep::VerifyDestinations && ok,
        directory_next(s, ok) == DirectoryStep::VerifyDestinations ==> s.step == DirectoryStep::CancelBeforeCommit && ok,
        directory_next(s, ok) == DirectoryStep::CancelBeforeCommit ==> ok && (s.step == DirectoryStep::JournalBackup
            || (s.step == DirectoryStep::CancelAfterValidation && !s.journaled)),
{
}

/// A failure after files were committed always leads to a rollback, and a
/// failure before the commit never does.
pub proof fn lemma_rollback_exactly_after_commit(s: DirectorySave)
    ensures
        (s.step == DirectoryStep::Commit || s.step == DirectoryStep::Reload || s.step == DirectoryStep::JournalReloaded
            || s.step == DirectoryStep::VerifyPublished || s.step == DirectoryStep::JournalVerified)
            ==> directory_next(s, false) is RollBack,
        directory_next(s, false) is RollBack ==> (s.step == DirectoryStep::Commit || s.step == DirectoryStep::Reload
            || s.step == DirectoryStep::JournalReloaded || s.step == DirectoryStep::VerifyPublished
            || s.step == DirectoryStep::JournalVerified),
{
}

/// A save keeps its lock after a failure exactly when a rollback was
/// incomplete; an export never takes one.
pub proof fn lemma_lock_kept_only_for_recovery(s: DirectorySave, ok: bool, f: SaveFailure)
    requires
        s.step == DirectoryStep::RecordFailure(f),
    ensures
        directory_next(s, ok) is Unlock <==> !failure_critical(f),
{
}

/// An export (no journal) never takes the lock, writes the journal or
/// makes a backup.
pub proof fn lemma_export_skips_journal(s: DirectorySave, ok: bool)
    requires
        !s.journaled,
        !(s.step is CreateLock || s.step is JournalPrepared || s.step is JournalValidated || s.step is Backup
            || s.step is JournalBackup || s.step is JournalCommitted || s.step is JournalReloaded
            || s.step is JournalVerified || s.step is RecordFailure || s.step is Unlock),
    ensures
        !({
            let n = directory_next(s, ok);
            n is CreateLock || n is JournalPrepared || n is JournalValidated || n is Backup || n is JournalBackup
                || n is JournalCommitted || n is JournalReloaded || n is JournalVerified || n is RecordFailure
                || n is Unlock
        }),
{
}

/// The position of an archive export; each names the action the caller
/// performs next.
#[derive(Debug, Clone, Copy, PartialEq, Eq, Structural)]
pub enum ArchiveStep {
    /// Create the directory that holds the archive.
    CreateParent,
    /// Remove staged and rollback copies left by an earlier export.
    ClearStaging,
    /// Encode the archive and write its staged copy.
    StageArchive,
    /// Check for cancellation after staging.
    CancelAfterStage,
    /// Reopen the staged archive and validate its files.
    ValidateStaged,
    /// Check for cancellation after validation.
    CancelAfterValidation,
    /// Check that the archive did not change outside the editor.
    VerifyUnchanged,
    /// Publish the staged archive, keeping a rollback copy.
    Publish,
    /// Reopen the published archive and validate its files.
    VerifyFinal,
    /// Remove the rollback copy.
    RemoveRollback,
    /// Remove the staged copy; `failed` says whether the export failed.
    RemoveStage(bool),
    /// Restore the archive from its rollback copy, where both exist.
    RestoreArchive,
    /// The export is over: `true` where it succeeded.
    Finished(bool),
}

/// The archive export: each step that succeeds leads to the next; a failure
/// before staging ends the export; a later failure removes the staged copy
/// and restores the archive from its rollback copy. The outcome of removing
/// the staged copy or of the restore does not matter.
pub open spec fn archive_next(step: ArchiveStep, ok: bool) -> ArchiveStep {
    match step {
        ArchiveStep::CreateParent => if ok { ArchiveStep::ClearStaging } else { ArchiveStep::Finished(false) },
        ArchiveStep::ClearStaging => if ok { ArchiveStep::StageArchive } else { ArchiveStep::Finished(false) },
        ArchiveStep::StageArchive => if ok { ArchiveStep::CancelAfterStage } else { ArchiveStep::RemoveStage(true) },
        ArchiveStep::CancelAfterStage => if ok { ArchiveStep::ValidateStaged } else { ArchiveStep::RemoveStage(true) },
        ArchiveStep::ValidateStaged => if ok {
            ArchiveStep::CancelAfterValidation
        } else {
            ArchiveStep::RemoveStage(true)
        },
        ArchiveStep::CancelAfterValidation => if ok {
            ArchiveStep::VerifyUnchanged
        } else {
            ArchiveStep::RemoveStage(true)
        },
        ArchiveStep::VerifyUnchanged => if ok { ArchiveStep::Publish } else { ArchiveStep::RemoveStage(true) },
        ArchiveStep::Publish => if ok { ArchiveStep::VerifyFinal } else { ArchiveStep::RemoveStage(true) },
        ArchiveStep::VerifyFinal => if ok { ArchiveStep::RemoveRollback } else { ArchiveStep::RemoveStage(true) },
        ArchiveStep::RemoveRollback => if ok { ArchiveStep::RemoveStage(false) } else { ArchiveStep::RemoveStage(true) },
        ArchiveStep::RemoveStage(failed) => if failed { ArchiveStep::RestoreArchive } else { ArchiveStep::Finished(true) },
        ArchiveStep::RestoreArchive => ArchiveStep::Finished(false),
        ArchiveStep::Finished(done) => ArchiveStep::Finished(done),
    }
}

impl ArchiveStep {
    /// The step after this one succeeded (`ok`) or failed; for a
    /// cancellation check, success means that nothing was cancelled.
    pub fn advance(self, ok: bool) -> (r: Self)
        ensures
            r == archive_next(self, ok),
    {
        let failed = ArchiveStep::RemoveStage(true);
        match self {
            ArchiveStep::CreateParent => if ok { ArchiveStep::ClearStaging } else { ArchiveStep::Finished(false) },
            ArchiveStep::ClearStaging => if ok { ArchiveStep::StageArchive } else { ArchiveStep::Finished(false) },
            ArchiveStep::StageArchive => if ok { ArchiveStep::CancelAfterStage } else { failed },
            ArchiveStep::CancelAfterStage => if ok { ArchiveStep::ValidateStaged } else { failed },
            ArchiveStep::ValidateStaged => if ok { ArchiveStep::CancelAfterValidation } else { failed },
            ArchiveStep::CancelAfterValidation => if ok { ArchiveStep::VerifyUnchanged } else { failed },
            ArchiveStep::VerifyUnchanged => if ok { ArchiveStep::Publish } else { failed },
            ArchiveStep::Publish => if ok { ArchiveStep::VerifyFinal } else { failed },
            ArchiveStep::VerifyFinal => if ok { ArchiveStep::RemoveRollback } else { failed },
            ArchiveStep::RemoveRollback => if ok { ArchiveStep::RemoveStage(false) } else { failed },
            ArchiveStep::RemoveStage(f) => if f { ArchiveStep::RestoreArchive } else { ArchiveStep::Finished(true) },
            ArchiveStep::RestoreArchive => ArchiveStep::Finished(false),
            ArchiveStep::Finished(done) => ArchiveStep::Finished(done),
        }
    }
}

pub open spec fn archive_steps_left(step: ArchiveStep) -> nat {
    match step {
        ArchiveStep::CreateParent => 13,
        ArchiveStep::ClearStaging => 12,
        ArchiveStep::StageArchive => 11,
        ArchiveStep::CancelAfterStage => 10,
        ArchiveStep::ValidateStaged => 9,
        ArchiveStep::CancelAfterValidation => 8,
        ArchiveStep::VerifyUnchanged => 7,
        ArchiveStep::Publish => 6,
        ArchiveStep::VerifyFinal => 5,
        ArchiveStep::RemoveRollback => 4,
        ArchiveStep::RemoveStage(_) => 2,
        ArchiveStep::RestoreArchive => 1,
        ArchiveStep::Finished(_) => 0,
    }
}

/// Every step brings an export closer to its end; once the staged copy was
/// attempted, the export removes it before it ends; the archive is published
/// only after it was found unchanged, and a failure never ends in success.
pub proof fn lemma_archive_export(step: ArchiveStep, ok: bool)
    ensures
        !(step is Finished) ==> archive_steps_left(archive_next(step, ok)) < archive_steps_left(step),
        archive_next(step, ok) is Finished && !(step is Finished) ==> step is CreateParent || step is ClearStaging
            || step is RemoveStage || step is RestoreArchive,
        archive_next(step, ok) == ArchiveStep::Publish ==> step == ArchiveStep::VerifyUnchanged && ok,
        archive_next(step, ok) == ArchiveStep::Finished(true) ==> step == ArchiveStep::RemoveStage(false)
            || step == ArchiveStep::Finished(true),
{
}

/// The progress stage a directory save reports while it performs its
/// current step, if the step reports one: staging covers the directory,
/// lock and staged copies, the checks before the commit stay in the stage
/// before them, a rollback stays in the stage that failed, a recorded
/// restore reports the rollback, and a finished save reports completion.
pub open spec fn step_stage(s: DirectorySave) -> Option<ProvinceSaveStage> {
    match s.step {
        DirectoryStep::CreateDirectory | DirectoryStep::CreateLock | DirectoryStep::JournalPrepared
        | DirectoryStep::PrepareFiles | DirectoryStep::Stage(_) | DirectoryStep::CancelAfterStage(_) => Some(
            ProvinceSaveStage::Staging,
        ),
        DirectoryStep::Validate | DirectoryStep::JournalValidated | DirectoryStep::CancelAfterValidation => Some(
            ProvinceSaveStage::Validating,
        ),
        DirectoryStep::Backup | DirectoryStep::JournalBackup => Some(ProvinceSaveStage::BackingUp),
        DirectoryStep::CancelBeforeCommit | DirectoryStep::VerifyDestinations => Some(
            if s.journaled {
                ProvinceSaveStage::BackingUp
            } else {
                ProvinceSaveStage::Validating
            },
        ),
        DirectoryStep::Commit | DirectoryStep::JournalCommitted => Some(ProvinceSaveStage::Committing),
        DirectoryStep::RollBack(RollbackCause::Commit) => Some(ProvinceSaveStage::Committing),
        DirectoryStep::Reload | DirectoryStep::JournalReloaded => Some(ProvinceSaveStage::Reloading),
        DirectoryStep::VerifyPublished | DirectoryStep::JournalVerified => Some(ProvinceSaveStage::Verifying),
        DirectoryStep::RollBack(RollbackCause::Verification) => Some(ProvinceSaveStage::Verifying),
        DirectoryStep::RecordFailure(f) => if failure_restored(f) {
            Some(ProvinceSaveStage::RolledBack)
        } else {
            None
        },
        DirectoryStep::Unlock(None) | DirectoryStep::Finished(None) => Some(ProvinceSaveStage::Completed),
        DirectoryStep::Unlock(Some(_)) | DirectoryStep::Finished(Some(_)) => None,
    }
}

/// A step that changes the destination files: the commit, and a rollback.
pub open spec fn touches_destination(step: DirectoryStep) -> bool {
    step is Commit || step is RollBack
}

/// The place of a stage in the order a successful save reports them.
pub open spec fn stage_rank(stage: ProvinceSaveStage) -> nat {
    match stage {
        ProvinceSaveStage::Preparing => 0,
        ProvinceSaveStage::EncodingBmp => 1,
        ProvinceSaveStage::WritingDefinition => 2,
        ProvinceSaveStage::Staging => 3,
        ProvinceSaveStage::Validating => 4,
        ProvinceSaveStage::BackingUp => 5,
        ProvinceSaveStage::Committing => 6,
        ProvinceSaveStage::Reloading => 7,
        ProvinceSaveStage::Verifying => 8,
        ProvinceSaveStage::Completed => 9,
        ProvinceSaveStage::RolledBack => 10,
    }
}

impl DirectorySave {
    /// The progress stage of the current step, if it reports one.
    pub fn stage(self) -> (r: Option<ProvinceSaveStage>)
        ensures
            r == step_stage(self),
    {
        match self.step {
            DirectoryStep::CreateDirectory | DirectoryStep::CreateLock | DirectoryStep::JournalPrepared
            | DirectoryStep::PrepareFiles | DirectoryStep::Stage(_) | DirectoryStep::CancelAfterStage(_) => Some(
                ProvinceSaveStage::Staging,
            ),
            DirectoryStep::Validate | DirectoryStep::JournalValidated | DirectoryStep::CancelAfterValidation => Some(
                ProvinceSaveStage::Validating,
            ),
            DirectoryStep::Backup | DirectoryStep::JournalBackup => Some(ProvinceSaveStage::BackingUp),
            DirectoryStep::CancelBeforeCommit | DirectoryStep::VerifyDestinations => Some(
                if self.journaled {
                    ProvinceSaveStage::BackingUp
                } else {
                    ProvinceSaveStage::Validating
                },
            ),
            DirectoryStep::Commit | DirectoryStep::JournalCommitted => Some(ProvinceSaveStage::Committing),
            DirectoryStep::RollBack(RollbackCause::Commit) => Some(ProvinceSaveStage::Committing),
            DirectoryStep::Reload | DirectoryStep::JournalReloaded => Some(ProvinceSaveStage::Reloading),
            DirectoryStep::VerifyPublished | DirectoryStep::JournalVerified => Some(ProvinceSaveStage::Verifying),
            DirectoryStep::RollBack(RollbackCause::Verification) => Some(ProvinceSaveStage::Verifying),
            DirectoryStep::RecordFailure(f) => if f.restored() {
                Some(ProvinceSaveStage::RolledBack)
            } else {
                None
            },
            DirectoryStep::Unlock(None) | DirectoryStep::Finished(None) => Some(ProvinceSaveStage::Completed),
            DirectoryStep::Unlock(Some(_)) | DirectoryStep::Finished(Some(_)) => None,
        }
    }
}

/// The destination files change only in stages that cannot be cancelled:
/// every cancellable stage leaves them as they were.
pub proof fn lemma_cancellable_stages_leave_destinations(s: DirectorySave)
    requires
        touches_destination(s.step),
    ensures
        step_stage(s) matches Some(stage) && !stage_cancellable(stage),
{
}

/// While a save succeeds its stages never go back: each step that succeeds
/// reports the same stage as the step before it or a later one, and a
/// finished save reports completion last.
pub proof fn lemma_stages_in_order(s: DirectorySave)
    requires
        !(s.step is Finished),
        !(s.step is RollBack),
        !(s.step is RecordFailure),
        !(s.step is Unlock),
        !s.journaled ==> !(s.step is Backup || s.step is JournalBackup),
    ensures
        ({
            let n = DirectorySave { step: directory_next(s, true), ..s };
            step_stage(s) matches Some(a) && step_stage(n) matches Some(b) && stage_rank(a) <= stage_rank(b)
        }),
{
}

/// A successful save reports, in order, staging, validating, backing up
/// (only where it is a save rather than an export), committing, reloading,
/// verifying and completion.
pub open spec fn directory_stage_order(journaled: bool) -> Seq<ProvinceSaveStage> {
    if journaled {
        seq![
            ProvinceSaveStage::Staging,
            ProvinceSaveStage::Validating,
            ProvinceSaveStage::BackingUp,
            ProvinceSaveStage::Committing,
            ProvinceSaveStage::Reloading,
            ProvinceSaveStage::Verifying,
            ProvinceSaveStage::Completed,
        ]
    } else {
        seq![
            ProvinceSaveStage::Staging,
            ProvinceSaveStage::Validating,
            ProvinceSaveStage::Committing,
            ProvinceSaveStage::Reloading,
            ProvinceSaveStage::Verifying,
            ProvinceSaveStage::Completed,
        ]
    }
}

/// Every stage a successful step reports is one of the stages of the save's
/// order.
pub proof fn lemma_stages_belong_to_order(s: DirectorySave)
    requires
        !(s.step is RollBack),
        !(s.step is RecordFailure),
        s.step != DirectoryStep::Unlock(None) ==> !(s.step is Unlock),
        s.step != DirectoryStep::Finished(None) ==> !(s.step is Finished),
        !s.journaled ==> !(s.step is Backup || s.step is JournalBackup),
    ensures
        step_stage(s) matches Some(stage) && directory_stage_order(s.journaled).contains(stage),
{
    let order = directory_stage_order(s.journaled);
    let stage = step_stage(s).unwrap();
    if s.journaled {
        assert(order[0] == ProvinceSaveStage::Staging);
        assert(order[1] == ProvinceSaveStage::Validating);
        assert(order[2] == ProvinceSaveStage::BackingUp);
        assert(order[3] == ProvinceSaveStage::Committing);
        assert(order[4] == ProvinceSaveStage::Reloading);
        assert(order[5] == ProvinceSaveStage::Verifying);
        assert(order[6] == ProvinceSaveStage::Completed);
    } else {
        assert(order[0] == ProvinceSaveStage::Staging);
        assert(order[1] == ProvinceSaveStage::Validating);
        assert(order[2] == ProvinceSaveStage::Committing);
        assert(order[3] == ProvinceSaveStage::Reloading);
        assert(order[4] == ProvinceSaveStage::Verifying);
        assert(order[5] == ProvinceSaveStage::Completed);
    }
}

/// How far the current stage has come when the save reaches a step: the
/// staged files, the backed-up, committed and verified files count one by
/// one against all of them; validating and reloading count as one unit;
/// completion and a restoring rollback are whole.
pub open spec fn step_progress(s: DirectorySave) -> Option<ProvinceSaveProgress> {
    let n = s.files as u64;
    match step_stage(s) {
        None => None,
        Some(stage) => {
            let (current, total): (u64, u64) = match s.step {
                DirectoryStep::Stage(i) => (if i < s.files { i as u64 } else { n }, n),
                DirectoryStep::CancelAfterStage(i) => (if i < s.files { (i + 1) as u64 } else { n }, n),
                DirectoryStep::Validate | DirectoryStep::Reload => (0, 1),
                DirectoryStep::JournalValidated | DirectoryStep::CancelAfterValidation
                | DirectoryStep::JournalReloaded => (1, 1),
                DirectoryStep::Backup | DirectoryStep::Commit | DirectoryStep::VerifyPublished => (0, n),
                DirectoryStep::JournalBackup | DirectoryStep::JournalCommitted | DirectoryStep::JournalVerified => (n, n),
                DirectoryStep::CancelBeforeCommit | DirectoryStep::VerifyDestinations => if s.journaled {
                    (n, n)
                } else {
                    (1, 1)
                },
                DirectoryStep::RollBack(_) => (0, n),
                DirectoryStep::RecordFailure(_) | DirectoryStep::Unlock(_) | DirectoryStep::Finished(_) => (1, 1),
                _ => (0, n),
            };
            Some(ProvinceSaveProgress { stage, current, total })
        },
    }
}

impl DirectorySave {
    /// The progress to report when the save reaches its current step.
    pub fn progress(self) -> (r: Option<ProvinceSaveProgress>)
        ensures
            r == step_progress(self),
    {
        let n = self.files as u64;
        match self.stage() {
            None => None,
            Some(stage) => {
                let (current, total): (u64, u64) = match self.step {
                    DirectoryStep::Stage(i) => (if i < self.files { i as u64 } else { n }, n),
                    DirectoryStep::CancelAfterStage(i) => (if i < self.files { (i + 1) as u64 } else { n }, n),
                    DirectoryStep::Validate | DirectoryStep::Reload => (0, 1),
                    DirectoryStep::JournalValidated | DirectoryStep::CancelAfterValidation
                    | DirectoryStep::JournalReloaded => (1, 1),
                    DirectoryStep::Backup | DirectoryStep::Commit | DirectoryStep::VerifyPublished => (0, n),
                    DirectoryStep::JournalBackup | DirectoryStep::JournalCommitted | DirectoryStep::JournalVerified => (n, n),
                    DirectoryStep::CancelBeforeCommit | DirectoryStep::VerifyDestinations => if self.journaled {
                        (n, n)
                    } else {
                        (1, 1)
                    },
                    DirectoryStep::RollBack(_) => (0, n),
                    DirectoryStep::RecordFailure(_) | DirectoryStep::Unlock(_) | DirectoryStep::Finished(_) => (1, 1),
                    _ => (0, n),
                };
                Some(ProvinceSaveProgress { stage, current, total })
            },
        }
    }
}

/// Reported progress never passes its total.
pub proof fn lemma_progress_within_total(s: DirectorySave)
    ensures
        step_progress(s) matches Some(p) ==> p.current <= p.total && p.stage == step_stage(s).unwrap(),
{
}

} // verus!
