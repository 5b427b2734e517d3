//! What the revision walker does with each commit it reaches.
use vstd::prelude::*;

verus! {

/// The step taken for one commit.
#[derive(Debug, Clone, Copy, PartialEq, Eq, Structural)]
pub enum CommitAction {
    /// No build entry point in the tree: the commit is left unrecorded.
    SkipNoEntryPoint,
    /// A ledger row with this hash exists: the commit was fully ingested.
    SkipIngested,
    /// Record the ledger, parse the tree and build the snapshot, in one
    /// transaction.
    Ingest,
}

/// The step for a commit, from whether its tree has an entry point and
/// whether its hash is already in the ledger.
pub open spec fn commit_action(entry_point_found: bool, already_ingested: bool) -> CommitAction {
    if !entry_point_found {
        CommitAction::SkipNoEntryPoint
    } else if already_ingested {
        CommitAction::SkipIngested
    } else {
        CommitAction::Ingest
    }
}

/// A commit whose hash is in the ledger is never ingested again, whatever
/// its tree holds: no ledger row, snapshot, link or parse comes of it.
pub proof fn lemma_ingested_commit_skipped(entry_point_found: bool)
    ensures
        commit_action(entry_point_found, true) != CommitAction::Ingest,
{
}

/// Computes the step for a commit, from whether its tree has an entry point and
/// whether its hash is already in the ledger.
pub fn decide_commit(entry_point_found: bool, already_ingested: bool) -> (r: CommitAction)
    ensures
        r == commit_action(entry_point_found, already_ingested),
        !entry_point_found ==> r == CommitAction::SkipNoEntryPoint,
        entry_point_found && already_ingested ==> r == CommitAction::SkipIngested,
        entry_point_found && !already_ingested ==> r == CommitAction::Ingest,
{
    if !entry_point_found {
        CommitAction::SkipNoEntryPoint
    } else if already_ingested {
        CommitAction::SkipIngested
    } else {
        CommitAction::Ingest
    }
}

} // verus!
