//! Following the relay chain's best parachain heads and the node's own imports.
use vstd::prelude::*;
use crate::hash::BlockHash;
use crate::header::Header;
use crate::finalized::FinalizeError;
use crate::recovery::{CandidateRecovery, PendingView, RecoveryEvent, RecoveryRequest, next_state, schedules};

verus! {

/// What the client knows of a block.
#[derive(Clone, Copy, Debug, PartialEq, Eq, Structural)]
pub enum BlockStatus {
    Queued,
    InChainWithState,
    InChainPruned,
    KnownBad,
    Unknown,
}

/// Where an imported block came from.
#[derive(Clone, Copy, Debug, PartialEq, Eq, Structural)]
pub enum BlockOrigin {
    Genesis,
    NetworkInitialSync,
    NetworkBroadcast,
    ConsensusBroadcast,
    Own,
    File,
}

/// How the client picks its best block on import.
#[derive(Clone, Copy, Debug, PartialEq, Eq, Structural)]
pub enum ForkChoiceStrategy {
    LongestChain,
    Custom(bool),
}

/// An import request for the client.
#[derive(Clone, Debug)]
pub struct BlockImportParams {
    pub origin: BlockOrigin,
    pub header: Header,
    pub fork_choice: Option<ForkChoiceStrategy>,
    pub import_existing: bool,
}

/// The request that makes the known block `header` the new best block.
pub open spec fn new_best_params(header: Header) -> BlockImportParams {
    BlockImportParams {
        origin: BlockOrigin::ConsensusBroadcast,
        header,
        fork_choice: Some(ForkChoiceStrategy::Custom(true)),
        import_existing: true,
    }
}

/// Builds the request that re-imports the known block `header` as the new best block.
pub fn import_block_as_new_best(header: Header) -> (r: BlockImportParams)
    ensures
        r == new_best_params(header),
{
    BlockImportParams {
        origin: BlockOrigin::ConsensusBroadcast,
        header,
        fork_choice: Some(ForkChoiceStrategy::Custom(true)),
        import_existing: true,
    }
}

/// A block the client imported.
#[derive(Clone, Debug)]
pub struct ImportNotification {
    pub hash: BlockHash,
    pub header: Header,
    pub origin: BlockOrigin,
    pub is_new_best: bool,
}

/// What to do with a new best head of the relay chain.
#[derive(Clone, Debug)]
pub enum NewBestOutcome {
    /// The head is already the best block.
    AlreadyBest,
    /// Make the block the best one with this request.
    Import(BlockImportParams),
    /// The block was pruned: the relay chain points at a block this node dropped.
    Pruned,
    /// The block is not known yet: it waits for its import.
    Deferred,
    /// The client could not tell the block's status.
    StatusUnavailable,
    /// Nothing to do for a block in any other status.
    Ignored,
}

/// What to do after an import notification.
#[derive(Clone, Copy, Debug)]
pub struct ImportedStep {
    /// The block to announce to peers, with no data attached.
    pub announce: Option<BlockHash>,
    /// The deferred best block whose status to look up, before `promote_unset_best`.
    pub recheck: Option<BlockHash>,
}

/// The block to announce after the import `n`: every block this node did not author.
pub open spec fn announced(n: ImportNotification) -> Option<BlockHash> {
    if n.origin != BlockOrigin::Own {
        Some(n.hash)
    } else {
        None
    }
}

/// The deferred best block to look up again after the import `n`, when `unset` is
/// the deferred best header.
pub open spec fn recheck_of(unset: Option<Header>, n: ImportNotification) -> Option<BlockHash> {
    if n.is_new_best {
        None
    } else {
        match unset {
            None => None,
            Some(u) => {
                if n.header.number < u.number {
                    None
                } else if n.header.number == u.number {
                    if u.hash@ == n.hash@ {
                        Some(u.hash)
                    } else {
                        None
                    }
                } else {
                    Some(u.hash)
                }
            },
        }
    }
}

/// The deferred best header and the outcome, for the new best head `head`.
pub open spec fn new_best_step(
    unset: Option<Header>,
    head: Header,
    best: BlockHash,
    status: Option<BlockStatus>,
) -> (Option<Header>, NewBestOutcome) {
    if head.hash@ == best@ {
        (unset, NewBestOutcome::AlreadyBest)
    } else {
        match status {
            Some(BlockStatus::InChainWithState) => (None, NewBestOutcome::Import(new_best_params(head))),
            Some(BlockStatus::InChainPruned) => (unset, NewBestOutcome::Pruned),
            Some(BlockStatus::Unknown) => (Some(head), NewBestOutcome::Deferred),
            None => (unset, NewBestOutcome::StatusUnavailable),
            Some(_) => (unset, NewBestOutcome::Ignored),
        }
    }
}

/// A new best head as the follower handles it: the decoded head, the client's best
/// block at the time, and what the client knew of the head.
pub struct NewBestEvent {
    pub head: Header,
    pub best: BlockHash,
    pub status: Option<BlockStatus>,
}

/// The deferred best header after the new best heads of `es`, in order.
pub open spec fn run_new_best(unset: Option<Header>, es: Seq<NewBestEvent>) -> Option<Header>
    decreases es.len(),
{
    if es.len() == 0 {
        unset
    } else {
        let e = es.last();
        new_best_step(run_new_best(unset, es.drop_last()), e.head, e.best, e.status).0
    }
}

/// Through any run of new best heads the follower holds at most one deferred
/// header: none, the one it held before, or one of the run's heads whose block was
/// unknown.
pub proof fn lemma_single_deferred_header(unset: Option<Header>, es: Seq<NewBestEvent>)
    ensures
        run_new_best(unset, es) is None || run_new_best(unset, es) == unset || exists|i: int|
            0 <= i < es.len() && run_new_best(unset, es) == Some(#[trigger] es[i].head) && es[i].status
                == Some(BlockStatus::Unknown),
    decreases es.len(),
{
    if es.len() > 0 {
        let prev = es.drop_last();
        lemma_single_deferred_header(unset, prev);
        let r = run_new_best(unset, es);
        if r != run_new_best(unset, prev) && r is Some {
            assert(es[es.len() - 1].head == es.last().head);
        } else if r is Some && r != unset {
            let i = choose|i: int| 0 <= i < prev.len() && run_new_best(unset, prev) == Some(#[trigger] prev[i].head) && prev[i].status == Some(BlockStatus::Unknown);
            assert(es[i] == prev[i]);
        }
    }
}

/// How a finalization attempt ended.
#[derive(Clone, Copy, Debug, PartialEq, Eq, Structural)]
pub enum FinalizeReport {
    /// The block is final.
    Finalized,
    /// The block is not imported yet; a later finalized head will cover it.
    NotYetImported,
    /// The client failed.
    Failed,
}

/// The follower's task-local state: the deferred best header and the candidate
/// recovery bookkeeping.
pub struct ParachainFollower {
    unset_best_header: Option<Header>,
    recovery: CandidateRecovery,
}

impl ParachainFollower {
    /// The follower's internal consistency.
    pub open spec fn wf(&self) -> bool {
        self.recovery().wf()
    }

    /// The deferred best header: a new best block that is not imported yet.
    pub closed spec fn unset_best(&self) -> Option<Header> {
        self.unset_best_header
    }

    /// The candidate recovery bookkeeping.
    pub closed spec fn recovery(&self) -> CandidateRecovery {
        self.recovery
    }

    /// A follower with no deferred header and nothing to recover, whose recovery
    /// delays stay below `relay_chain_slot_duration_ms`.
    pub fn new(relay_chain_slot_duration_ms: u64) -> (r: ParachainFollower)
        ensures
            r.wf(),
            r.unset_best() is None,
            r.recovery()@.pending == Map::<Seq<u8>, PendingView>::empty(),
            r.recovery()@.in_flight == Set::<Seq<u8>>::empty(),
            r.recovery().slot_duration_ms() == relay_chain_slot_duration_ms,
    {
        ParachainFollower { unset_best_header: None, recovery: CandidateRecovery::new(relay_chain_slot_duration_ms) }
    }

    /// The hash of the deferred best header.
    pub fn unset_best_hash(&self) -> (r: Option<BlockHash>)
        ensures
            r == (match self.unset_best() {
                Some(h) => Some(h.hash),
                None => None,
            }),
    {
        match &self.unset_best_header {
            Some(h) => Some(h.hash),
            None => None,
        }
    }

    /// The number of the deferred best header.
    pub fn unset_best_number(&self) -> (r: Option<u32>)
        ensures
            r == (match self.unset_best() {
                Some(h) => Some(h.number),
                None => None,
            }),
    {
        match &self.unset_best_header {
            Some(h) => Some(h.number),
            None => None,
        }
    }

    /// The candidate recovery bookkeeping.
    pub fn candidate_recovery(&self) -> (r: &CandidateRecovery)
        ensures
            *r == self.recovery(),
    {
        &self.recovery
    }

    /// Handles a new best head of the relay chain, decoded as `head`, when the
    /// client's best block is `best_hash` and `status` is what the client knows of
    /// `head` (`None` where it could not tell).
    ///
    /// A known block becomes the best one and clears the deferred header; an unknown
    /// one becomes the deferred header, in place of any earlier one.
    pub fn handle_new_best_parachain_head(
        &mut self,
        head: Header,
        best_hash: &BlockHash,
        status: Option<BlockStatus>,
    ) -> (r: NewBestOutcome)
        requires
            old(self).wf(),
        ensures
            final(self).wf(),
            final(self).recovery() == old(self).recovery(),
            (final(self).unset_best(), r) == new_best_step(old(self).unset_best(), head, *best_hash, status),
    {
        if head.hash.same_as(best_hash) {
            return NewBestOutcome::AlreadyBest;
        }
        match status {
            Some(BlockStatus::InChainWithState) => {
                self.unset_best_header = None;
                NewBestOutcome::Import(import_block_as_new_best(head))
            },
            Some(BlockStatus::InChainPruned) => NewBestOutcome::Pruned,
            Some(BlockStatus::Unknown) => {
                self.unset_best_header = Some(head);
                NewBestOutcome::Deferred
            },
            None => NewBestOutcome::StatusUnavailable,
            Some(_) => NewBestOutcome::Ignored,
        }
    }

    /// Handles an import notification: names the block to announce, drops the
    /// block's candidate from recovery, and names the deferred best block to look up
    /// again, where the import may have made it available.
    pub fn handle_new_block_imported(&mut self, notification: &ImportNotification) -> (r: ImportedStep)
        requires
            old(self).wf(),
        ensures
            final(self).wf(),
            final(self).unset_best() == old(self).unset_best(),
            final(self).recovery()@ == next_state(old(self).recovery()@, RecoveryEvent::Imported(notification.hash@)),
            final(self).recovery().slot_duration_ms() == old(self).recovery().slot_duration_ms(),
            r.announce == announced(*notification),
            r.recheck == recheck_of(old(self).unset_best(), *notification),
    {
        let announce = if notification.origin != BlockOrigin::Own {
            Some(notification.hash)
        } else {
            None
        };
        self.recovery.block_imported(&notification.hash);
        if notification.is_new_best {
            return ImportedStep { announce, recheck: None };
        }
        let recheck = match &self.unset_best_header {
            None => None,
            Some(unset) => {
                if notification.header.number < unset.number {
                    None
                } else if notification.header.number == unset.number {
                    if unset.hash.same_as(&notification.hash) {
                        Some(unset.hash)
                    } else {
                        None
                    }
                } else {
                    Some(unset.hash)
                }
            },
        };
        ImportedStep { announce, recheck }
    }

    /// Makes the deferred best header the best block, where `status`, looked up
    /// again, shows it known with its state; it then stops waiting.
    pub fn promote_unset_best(&mut self, status: Option<BlockStatus>) -> (r: Option<BlockImportParams>)
        requires
            old(self).wf(),
        ensures
            final(self).wf(),
            final(self).recovery() == old(self).recovery(),
            (old(self).unset_best() is Some && status == Some(BlockStatus::InChainWithState)) ==> (
                final(self).unset_best() is None && r == Some(new_best_params(old(self).unset_best()->Some_0))),
            !(old(self).unset_best() is Some && status == Some(BlockStatus::InChainWithState)) ==> (
                final(self).unset_best() == old(self).unset_best() && r is None),
    {
        match status {
            Some(BlockStatus::InChainWithState) => match self.unset_best_header.take() {
                Some(unset) => Some(import_block_as_new_best(unset)),
                None => None,
            },
            _ => None,
        }
    }

    /// Handles a pending candidate of the relay chain, whose head data decode to
    /// `header`, when `status` is what the client knows of it: an unknown block is
    /// handed to recovery. Returns the delay to wait before `start_recovery`, where a
    /// new wait starts.
    pub fn handle_pending_candidate(
        &mut self,
        header: &Header,
        receipt: Vec<u8>,
        session_index: u32,
        status: Option<BlockStatus>,
    ) -> (r: Option<u64>)
        requires
            old(self).wf(),
        ensures
            final(self).wf(),
            final(self).unset_best() == old(self).unset_best(),
            final(self).recovery().slot_duration_ms() == old(self).recovery().slot_duration_ms(),
            status == Some(BlockStatus::Unknown) ==> final(self).recovery()@ == next_state(
                old(self).recovery()@,
                RecoveryEvent::Announced(
                    header.hash@,
                    PendingView { receipt: receipt@, session_index, block_number: header.number },
                ),
            ),
            status != Some(BlockStatus::Unknown) ==> final(self).recovery() == old(self).recovery() && r is None,
            r is Some <==> (status == Some(BlockStatus::Unknown) && schedules(old(self).recovery()@, header.hash@)),
            r matches Some(d) ==> (if old(self).recovery().slot_duration_ms() == 0 {
                d == 0
            } else {
                d < old(self).recovery().slot_duration_ms()
            }),
    {
        match status {
            Some(BlockStatus::Unknown) => self.recovery.insert_pending_candidate(
                header.hash,
                header.number,
                receipt,
                session_index,
            ),
            _ => None,
        }
    }

    /// Starts the recovery of `hash`, whose delay ran out, where it still waits.
    pub fn start_recovery(&mut self, hash: &BlockHash) -> (r: Option<RecoveryRequest>)
        requires
            old(self).wf(),
        ensures
            final(self).wf(),
            final(self).unset_best() == old(self).unset_best(),
            final(self).recovery().slot_duration_ms() == old(self).recovery().slot_duration_ms(),
            final(self).recovery()@ == next_state(old(self).recovery()@, RecoveryEvent::TimerFired(hash@)),
            r is Some <==> old(self).recovery()@.pending.contains_key(hash@),
            r matches Some(req) ==> req.receipt@ == old(self).recovery()@.pending[hash@].receipt
                && req.session_index == old(self).recovery()@.pending[hash@].session_index,
    {
        self.recovery.start_recovery(hash)
    }

    /// Forgets the recovery of `hash`: it ended, or its request could not be sent.
    pub fn recovery_finished(&mut self, hash: &BlockHash)
        requires
            old(self).wf(),
        ensures
            final(self).wf(),
            final(self).unset_best() == old(self).unset_best(),
            final(self).recovery().slot_duration_ms() == old(self).recovery().slot_duration_ms(),
            final(self).recovery()@ == next_state(old(self).recovery()@, RecoveryEvent::Finished(hash@)),
    {
        self.recovery.recovery_finished(hash)
    }

    /// Takes the outcome of finalizing the block at height `block_number`: a
    /// success drops the candidates at or below that height.
    pub fn handle_finalize_result(&mut self, block_number: u32, result: Result<(), FinalizeError>) -> (r: FinalizeReport)
        requires
            old(self).wf(),
        ensures
            final(self).wf(),
            final(self).unset_best() == old(self).unset_best(),
            final(self).recovery().slot_duration_ms() == old(self).recovery().slot_duration_ms(),
            result is Ok ==> r == FinalizeReport::Finalized && final(self).recovery()@ == next_state(
                old(self).recovery()@,
                RecoveryEvent::Finalized(block_number),
            ),
            result is Err ==> final(self).recovery() == old(self).recovery(),
            result == Err::<(), FinalizeError>(FinalizeError::UnknownBlock) ==> r == FinalizeReport::NotYetImported,
            result == Err::<(), FinalizeError>(FinalizeError::Other) ==> r == FinalizeReport::Failed,
    {
        match result {
            Ok(()) => {
                self.recovery.block_finalized(block_number);
                FinalizeReport::Finalized
            },
            Err(FinalizeError::UnknownBlock) => FinalizeReport::NotYetImported,
            Err(FinalizeError::Other) => FinalizeReport::Failed,
        }
    }

} // impl ParachainFollower

} // verus!
