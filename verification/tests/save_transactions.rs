use hoi4_editor::province_save::{ProvinceSaveMode, ProvinceSaveStage};
use hoi4_editor::save_transaction::{
    journal_state_after_failure, save_failure_message, save_plan, ArchiveStep, DirectorySave, DirectoryStep,
    ProvinceJournalState, ProvinceSaveFile, RollbackCause, SaveFailure,
};

fn run(mut save: DirectorySave, outcomes: &[bool]) -> Vec<DirectoryStep> {
    let mut steps = vec![save.step];
    for &ok in outcomes {
        save = save.advance(ok);
        steps.push(save.step);
    }
    steps
}

#[test]
fn save_plan_lists_optional_tables() {
    assert_eq!(
        save_plan(ProvinceSaveMode::Save, false, false, false).unwrap(),
        vec![ProvinceSaveFile::ProvincesBmp, ProvinceSaveFile::DefinitionCsv]
    );
    assert_eq!(
        save_plan(ProvinceSaveMode::Export, true, true, true).unwrap(),
        vec![
            ProvinceSaveFile::ProvincesBmp,
            ProvinceSaveFile::DefinitionCsv,
            ProvinceSaveFile::AdjacenciesCsv,
            ProvinceSaveFile::IdChangesTxt
        ]
    );
    assert_eq!(ProvinceSaveFile::IdChangesTxt.file_name(), "id_changes.txt");
}

#[test]
fn saving_into_an_archive_is_refused() {
    assert_eq!(
        save_plan(ProvinceSaveMode::Save, true, false, false),
        Err("Saving the current Province workspace to an archive is not supported.".to_owned())
    );
}

#[test]
fn failure_journal_states() {
    assert_eq!(journal_state_after_failure(true, true, true), ProvinceJournalState::RecoveryRequired);
    assert_eq!(journal_state_after_failure(false, true, true), ProvinceJournalState::RolledBack);
    assert_eq!(journal_state_after_failure(false, false, true), ProvinceJournalState::Cancelled);
    assert_eq!(journal_state_after_failure(false, false, false), ProvinceJournalState::FailedBeforeCommit);
}

#[test]
fn failure_messages_name_the_rollback() {
    assert_eq!(save_failure_message(SaveFailure::Step, "disk full", ""), "disk full");
    assert_eq!(
        save_failure_message(SaveFailure::CommitRolledBack, "disk full", ""),
        "disk full. Original files were restored and verified."
    );
    assert_eq!(
        save_failure_message(SaveFailure::CommitRollbackIncomplete, "disk full", "locked"),
        "disk full. CRITICAL: rollback was incomplete: locked. Recovery is required."
    );
    assert_eq!(
        save_failure_message(SaveFailure::VerificationRolledBack, "bad hash", ""),
        "bad hash. Final verification failed; original files were restored and verified."
    );
    assert_eq!(
        save_failure_message(SaveFailure::VerificationRollbackIncomplete, "bad hash", "locked"),
        "bad hash. CRITICAL: final verification failed and rollback was incomplete: locked. Recovery is required."
    );
    assert!(SaveFailure::CommitRollbackIncomplete.critical());
    assert!(SaveFailure::VerificationRolledBack.restored());
    assert!(!SaveFailure::Step.restored());
}

#[test]
fn successful_save_walks_every_step() {
    let steps = run(DirectorySave::new(ProvinceSaveMode::Save, 2), &[true; 20]);
    assert_eq!(
        steps,
        vec![
            DirectoryStep::CreateDirectory,
            DirectoryStep::CreateLock,
            DirectoryStep::JournalPrepared,
            DirectoryStep::PrepareFiles,
            DirectoryStep::Stage(0),
            DirectoryStep::CancelAfterStage(0),
            DirectoryStep::Stage(1),
            DirectoryStep::CancelAfterStage(1),
            DirectoryStep::Validate,
            DirectoryStep::JournalValidated,
            DirectoryStep::CancelAfterValidation,
            DirectoryStep::Backup,
            DirectoryStep::JournalBackup,
            DirectoryStep::CancelBeforeCommit,
            DirectoryStep::VerifyDestinations,
            DirectoryStep::Commit,
            DirectoryStep::JournalCommitted,
            DirectoryStep::Reload,
            DirectoryStep::JournalReloaded,
            DirectoryStep::VerifyPublished,
            DirectoryStep::JournalVerified,
        ]
    );
    let done = run(DirectorySave::new(ProvinceSaveMode::Save, 2), &[true; 22]);
    assert_eq!(done[21], DirectoryStep::Unlock(None));
    assert_eq!(done[22], DirectoryStep::Finished(None));
}

#[test]
fn export_skips_lock_journal_and_backup() {
    let steps = run(DirectorySave::new(ProvinceSaveMode::Export, 1), &[true; 12]);
    assert_eq!(
        steps,
        vec![
            DirectoryStep::CreateDirectory,
            DirectoryStep::PrepareFiles,
            DirectoryStep::Stage(0),
            DirectoryStep::CancelAfterStage(0),
            DirectoryStep::Validate,
            DirectoryStep::CancelAfterValidation,
            DirectoryStep::CancelBeforeCommit,
            DirectoryStep::VerifyDestinations,
            DirectoryStep::Commit,
            DirectoryStep::Reload,
            DirectoryStep::VerifyPublished,
            DirectoryStep::Finished(None),
            DirectoryStep::Finished(None),
        ]
    );
}

#[test]
fn failed_commit_rolls_back_and_keeps_lock_when_incomplete() {
    let mut save = DirectorySave::new(ProvinceSaveMode::Save, 0);
    save.step = DirectoryStep::Commit;
    let rollback = save.advance(false);
    assert_eq!(rollback.step, DirectoryStep::RollBack(RollbackCause::Commit));
    let restored = rollback.advance(true);
    assert_eq!(restored.step, DirectoryStep::RecordFailure(SaveFailure::CommitRolledBack));
    assert_eq!(restored.advance(true).step, DirectoryStep::Unlock(Some(SaveFailure::CommitRolledBack)));
    let incomplete = rollback.advance(false);
    assert_eq!(incomplete.step, DirectoryStep::RecordFailure(SaveFailure::CommitRollbackIncomplete));
    assert_eq!(
        incomplete.advance(true).step,
        DirectoryStep::Finished(Some(SaveFailure::CommitRollbackIncomplete))
    );
}

#[test]
fn cancellation_before_commit_fails_without_rollback() {
    let mut save = DirectorySave::new(ProvinceSaveMode::Save, 1);
    save.step = DirectoryStep::CancelBeforeCommit;
    assert_eq!(save.advance(false).step, DirectoryStep::RecordFailure(SaveFailure::Step));
    let mut export = DirectorySave::new(ProvinceSaveMode::Export, 1);
    export.step = DirectoryStep::Stage(0);
    assert_eq!(export.advance(false).step, DirectoryStep::Finished(Some(SaveFailure::Step)));
    let start = DirectorySave::new(ProvinceSaveMode::Save, 1);
    assert_eq!(start.advance(false).step, DirectoryStep::Finished(Some(SaveFailure::Step)));
    assert!(start.advance(false).is_finished());
}

#[test]
fn archive_export_steps() {
    let mut step = ArchiveStep::CreateParent;
    let mut seen = vec![step];
    for _ in 0..11 {
        step = step.advance(true);
        seen.push(step);
    }
    assert_eq!(seen[7], ArchiveStep::Publish);
    assert_eq!(seen[10], ArchiveStep::RemoveStage(false));
    assert_eq!(seen[11], ArchiveStep::Finished(true));
    assert_eq!(ArchiveStep::Publish.advance(false), ArchiveStep::RemoveStage(true));
    assert_eq!(ArchiveStep::RemoveStage(true).advance(true), ArchiveStep::RestoreArchive);
    assert_eq!(ArchiveStep::RestoreArchive.advance(true), ArchiveStep::Finished(false));
    assert_eq!(ArchiveStep::CreateParent.advance(false), ArchiveStep::Finished(false));
}

fn reported_stages(mode: ProvinceSaveMode) -> Vec<ProvinceSaveStage> {
    let mut save = DirectorySave::new(mode, 2);
    let mut stages: Vec<ProvinceSaveStage> = Vec::new();
    while !save.is_finished() {
        if let Some(stage) = save.stage() {
            if stages.last() != Some(&stage) {
                stages.push(stage);
            }
        }
        save = save.advance(true);
    }
    if let Some(stage) = save.stage() {
        if stages.last() != Some(&stage) {
            stages.push(stage);
        }
    }
    stages
}

#[test]
fn save_reports_stages_in_order() {
    assert_eq!(
        reported_stages(ProvinceSaveMode::Save),
        vec![
            ProvinceSaveStage::Staging,
            ProvinceSaveStage::Validating,
            ProvinceSaveStage::BackingUp,
            ProvinceSaveStage::Committing,
            ProvinceSaveStage::Reloading,
            ProvinceSaveStage::Verifying,
            ProvinceSaveStage::Completed,
        ]
    );
    assert_eq!(
        reported_stages(ProvinceSaveMode::Export),
        vec![
            ProvinceSaveStage::Staging,
            ProvinceSaveStage::Validating,
            ProvinceSaveStage::Committing,
            ProvinceSaveStage::Reloading,
            ProvinceSaveStage::Verifying,
            ProvinceSaveStage::Completed,
        ]
    );
}

#[test]
fn destination_changes_only_in_stages_that_cannot_be_cancelled() {
    let mut save = DirectorySave::new(ProvinceSaveMode::Save, 1);
    for step in [DirectoryStep::Commit, DirectoryStep::RollBack(RollbackCause::Commit), DirectoryStep::RollBack(RollbackCause::Verification)] {
        save.step = step;
        assert!(!save.stage().unwrap().cancellable());
    }
    save.step = DirectoryStep::RecordFailure(SaveFailure::CommitRolledBack);
    assert_eq!(save.stage(), Some(ProvinceSaveStage::RolledBack));
}
