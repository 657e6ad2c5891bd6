//! Candidate recovery: which pending candidates to recover from the availability
//! layer, and when.
//!
//! A candidate that the relay chain announces, and that is not known locally, waits
//! a random delay below the relay chain's slot duration before its recovery starts,
//! so that the collators that all saw it at once do not ask for it at once. Its
//! import or the finality of its height drops it while it waits.
use vstd::prelude::*;
use crate::hash::BlockHash;

verus! {

/// A candidate waiting for its recovery to start.
#[derive(Clone, Debug)]
pub struct PendingCandidate {
    /// The encoded candidate receipt, handed to the recovery subsystem as it is.
    pub receipt: Vec<u8>,
    /// The relay-chain session in which the candidate was announced.
    pub session_index: u32,
    /// The number of the parachain block that the candidate holds.
    pub block_number: u32,
}

/// What the bookkeeping keeps of a pending candidate.
pub struct PendingView {
    pub receipt: Seq<u8>,
    pub session_index: u32,
    pub block_number: u32,
}

impl View for PendingCandidate {
    type V = PendingView;

    open spec fn view(&self) -> PendingView {
        PendingView {
            receipt: self.receipt@,
            session_index: self.session_index,
            block_number: self.block_number,
        }
    }
}

/// A request for the availability layer: recover the data of this candidate, from
/// the whole validator set.
#[derive(Clone, Debug)]
pub struct RecoveryRequest {
    pub receipt: Vec<u8>,
    pub session_index: u32,
}

/// The state of the recovery bookkeeping: candidates waiting for their delay, by
/// block hash, and the hashes whose recovery is under way.
pub struct RecoveryState {
    pub pending: Map<Seq<u8>, PendingView>,
    pub in_flight: Set<Seq<u8>>,
}

/// What can happen to the recovery bookkeeping.
pub enum RecoveryEvent {
    /// A candidate for a block that is not known locally was announced.
    Announced(Seq<u8>, PendingView),
    /// The block with this hash was imported locally.
    Imported(Seq<u8>),
    /// The parachain was finalized at this height.
    Finalized(u32),
    /// The delay of the candidate with this hash ran out.
    TimerFired(Seq<u8>),
    /// The recovery of the candidate with this hash ended, or could not start.
    Finished(Seq<u8>),
}

/// The candidates of `pending` above height `n`.
pub open spec fn above(pending: Map<Seq<u8>, PendingView>, n: u32) -> Map<Seq<u8>, PendingView> {
    Map::new(|k: Seq<u8>| pending.contains_key(k) && pending[k].block_number > n, |k: Seq<u8>| pending[k])
}

/// Whether an announcement of `h` starts a new delay: `h` is neither waiting nor
/// being recovered.
pub open spec fn schedules(s: RecoveryState, h: Seq<u8>) -> bool {
    !s.pending.contains_key(h) && !s.in_flight.contains(h)
}

/// Whether event `e`, in state `s`, sends a recovery request for `h`.
pub open spec fn requests_recovery(s: RecoveryState, e: RecoveryEvent, h: Seq<u8>) -> bool {
    e == RecoveryEvent::TimerFired(h) && s.pending.contains_key(h)
}

/// The state after event `e`.
pub open spec fn next_state(s: RecoveryState, e: RecoveryEvent) -> RecoveryState {
    match e {
        RecoveryEvent::Announced(h, c) => {
            if s.in_flight.contains(h) {
                s
            } else {
                RecoveryState { pending: s.pending.insert(h, c), in_flight: s.in_flight }
            }
        },
        RecoveryEvent::Imported(h) => RecoveryState {
            pending: s.pending.remove(h),
            in_flight: s.in_flight,
        },
        RecoveryEvent::Finalized(n) => RecoveryState {
            pending: above(s.pending, n),
            in_flight: s.in_flight,
        },
        RecoveryEvent::TimerFired(h) => {
            if s.pending.contains_key(h) {
                RecoveryState { pending: s.pending.remove(h), in_flight: s.in_flight.insert(h) }
            } else {
                s
            }
        },
        RecoveryEvent::Finished(h) => RecoveryState {
            pending: s.pending,
            in_flight: s.in_flight.remove(h),
        },
    }
}

/// The state after the events of `es`, in order.
pub open spec fn run(s: RecoveryState, es: Seq<RecoveryEvent>) -> RecoveryState
    decreases es.len(),
{
    if es.len() == 0 {
        s
    } else {
        next_state(run(s, es.drop_last()), es.last())
    }
}

/// No hash waits and is recovered at once.
pub open spec fn disjoint(s: RecoveryState) -> bool {
    forall|k: Seq<u8>| !(#[trigger] s.pending.contains_key(k) && s.in_flight.contains(k))
}

/// A hash that does not wait stays out of the waiting candidates through any run of
/// events that does not announce it.
proof fn lemma_stays_out_of_pending(s: RecoveryState, h: Seq<u8>, es: Seq<RecoveryEvent>, i: int)
    requires
        !s.pending.contains_key(h),
        0 <= i <= es.len(),
        forall|j: int| 0 <= j < es.len() ==> !(#[trigger] es[j] is Announced && es[j]->Announced_0 == h),
    ensures
        !run(s, es.take(i)).pending.contains_key(h),
    decreases i,
{
    if i > 0 {
        lemma_stays_out_of_pending(s, h, es, i - 1);
        assert(es.take(i).drop_last() =~= es.take(i - 1));
        assert(es.take(i).last() == es[i - 1]);
    } else {
        assert(es.take(0) =~= Seq::<RecoveryEvent>::empty());
    }
}

/// Once the import of a block is reported, no later event sends a recovery request
/// for it, whatever evictions, expiries and completions come after, as long as the
/// block is not announced again.
pub proof fn lemma_no_recovery_after_import(s: RecoveryState, h: Seq<u8>, later: Seq<RecoveryEvent>)
    requires
        forall|j: int| 0 <= j < later.len() ==> !(#[trigger] later[j] is Announced && later[j]->Announced_0 == h),
    ensures
        forall|i: int|
            0 <= i < later.len() ==> !requests_recovery(
                run(next_state(s, RecoveryEvent::Imported(h)), later.take(i)),
                #[trigger] later[i],
                h,
            ),
{
    let s1 = next_state(s, RecoveryEvent::Imported(h));
    assert forall|i: int| 0 <= i < later.len() implies !requests_recovery(run(s1, later.take(i)), #[trigger] later[i], h) by {
        lemma_stays_out_of_pending(s1, h, later, i);
    }
}

/// After the parachain is finalized at height `n`, no waiting candidate is at or
/// below `n`.
pub proof fn lemma_finalized_evicts(s: RecoveryState, n: u32)
    ensures
        forall|k: Seq<u8>| #[trigger] next_state(s, RecoveryEvent::Finalized(n)).pending.contains_key(k)
            ==> next_state(s, RecoveryEvent::Finalized(n)).pending[k].block_number > n,
{
}

/// Every event keeps a hash out of either the waiting candidates or the recoveries
/// under way.
pub proof fn lemma_next_state_disjoint(s: RecoveryState, e: RecoveryEvent)
    requires
        disjoint(s),
    ensures
        disjoint(next_state(s, e)),
{
    let t = next_state(s, e);
    assert forall|k: Seq<u8>| !(#[trigger] t.pending.contains_key(k) && t.in_flight.contains(k)) by {
        if t.pending.contains_key(k) && t.in_flight.contains(k) {
            assert(s.pending.contains_key(k) || e is Announced);
        }
    }
}

/// Relies on `rand::Rng::gen_range` over `rand::thread_rng()`: a value drawn
/// uniformly from `0..bound`, which panics on an empty range.
#[verifier::external_body]
fn random_below(bound: u64) -> (r: u64)
    requires
        bound > 0,
    ensures
        r < bound,
{
    rand::Rng::gen_range(&mut rand::thread_rng(), 0..bound)
}

/// The bookkeeping of candidate recovery.
pub struct CandidateRecovery {
    pending_candidates: Vec<(BlockHash, PendingCandidate)>,
    recovering_candidates: Vec<BlockHash>,
    relay_chain_slot_duration_ms: u64,
    state: Ghost<RecoveryState>,
}

impl View for CandidateRecovery {
    type V = RecoveryState;

    closed spec fn view(&self) -> RecoveryState {
        self.state@
    }
}

impl CandidateRecovery {
    /// The bookkeeping's internal consistency.
    pub closed spec fn wf(&self) -> bool {
        let e = self.pending_candidates@;
        let r = self.recovering_candidates@;
        let s = self.state@;
        &&& forall|i: int|
            0 <= i < e.len() ==> #[trigger] s.pending.contains_key(e[i].0@) && s.pending[e[i].0@]
                == e[i].1@
        &&& forall|i: int, j: int| 0 <= i < e.len() && 0 <= j < e.len() && i != j ==> #[trigger] e[i].0@ != #[trigger] e[j].0@
        &&& forall|k: Seq<u8>| #[trigger] s.pending.contains_key(k) ==> exists|i: int| 0 <= i < e.len() && e[i].0@ == k
        &&& forall|i: int| 0 <= i < r.len() ==> #[trigger] s.in_flight.contains(r[i]@)
        &&& forall|k: Seq<u8>| #[trigger] s.in_flight.contains(k) ==> exists|i: int| 0 <= i < r.len() && r[i]@ == k
        &&& disjoint(s)
    }

    /// The upper bound of the delays, in milliseconds.
    pub closed spec fn slot_duration_ms(&self) -> u64 {
        self.relay_chain_slot_duration_ms
    }

    /// The bookkeeping's consistency keeps every hash out of one of the two sets.
    pub proof fn lemma_disjoint(&self)
        requires
            self.wf(),
        ensures
            disjoint(self@),
    {
    }

    /// Empty bookkeeping, with delays below `relay_chain_slot_duration_ms`.
    pub fn new(relay_chain_slot_duration_ms: u64) -> (r: CandidateRecovery)
        ensures
            r.wf(),
            r@.pending == Map::<Seq<u8>, PendingView>::empty(),
            r@.in_flight == Set::<Seq<u8>>::empty(),
            r.slot_duration_ms() == relay_chain_slot_duration_ms,
    {
        CandidateRecovery {
            pending_candidates: Vec::new(),
            recovering_candidates: Vec::new(),
            relay_chain_slot_duration_ms,
            state: Ghost(RecoveryState { pending: Map::empty(), in_flight: Set::empty() }),
        }
    }

    /// Where `hash` stands among the pending candidates.
    fn find_pending(&self, hash: &BlockHash) -> (r: Option<usize>)
        requires
            self.wf(),
        ensures
            r is None <==> !self@.pending.contains_key(hash@),
            r matches Some(i) ==> i < self.pending_candidates@.len() && self.pending_candidates@[i as int].0@ == hash@,
    {
        let mut i: usize = 0;
        while i < self.pending_candidates.len()
            invariant
                self.wf(),
                i <= self.pending_candidates@.len(),
                forall|j: int| 0 <= j < i ==> self.pending_candidates@[j].0@ != hash@,
            decreases self.pending_candidates@.len() - i,
        {
            if self.pending_candidates[i].0.same_as(hash) {
                return Some(i);
            }
            i += 1;
        }
        None
    }

    /// Whether the recovery of `hash` is under way.
    pub fn is_recovering(&self, hash: &BlockHash) -> (r: bool)
        requires
            self.wf(),
        ensures
            r == self@.in_flight.contains(hash@),
    {
        let mut i: usize = 0;
        while i < self.recovering_candidates.len()
            invariant
                self.wf(),
                i <= self.recovering_candidates@.len(),
                forall|j: int| 0 <= j < i ==> self.recovering_candidates@[j]@ != hash@,
            decreases self.recovering_candidates@.len() - i,
        {
            if self.recovering_candidates[i].same_as(hash) {
                return true;
            }
            i += 1;
        }
        false
    }

    /// Whether `hash` waits for its recovery to start.
    pub fn is_pending(&self, hash: &BlockHash) -> (r: bool)
        requires
            self.wf(),
        ensures
            r == self@.pending.contains_key(hash@),
    {
        self.find_pending(hash).is_some()
    }


    /// Takes the pending candidate at position `i` out of the list.
    fn take_pending(&mut self, i: usize) -> (r: (BlockHash, PendingCandidate))
        requires
            old(self).wf(),
            i < old(self).pending_candidates@.len(),
        ensures
            r == old(self).pending_candidates@[i as int],
            final(self).recovering_candidates == old(self).recovering_candidates,
            final(self).pending_candidates@ == old(self).pending_candidates@.remove(i as int),
            final(self).relay_chain_slot_duration_ms == old(self).relay_chain_slot_duration_ms,
            final(self)@.in_flight == old(self)@.in_flight,
            final(self)@.pending == old(self)@.pending.remove(r.0@),
            final(self).slot_duration_ms() == old(self).slot_duration_ms(),
            final(self).wf(),
    {
        let ghost e = self.pending_candidates@;
        let r = self.pending_candidates.remove(i);
        let ghost k = r.0@;
        self.state = Ghost(RecoveryState { pending: self.state@.pending.remove(k), in_flight: self.state@.in_flight });
        proof {
            e.remove_ensures(i as int);
            let e2 = self.pending_candidates@;
            assert forall|j: int| 0 <= j < e2.len() implies #[trigger] self.state@.pending.contains_key(e2[j].0@) && self.state@.pending[e2[j].0@] == e2[j].1@ by {
                let j1 = if j < i { j } else { j + 1 };
                assert(e2[j] == e[j1]);
                assert(e[j1].0@ != e[i as int].0@);
                assert(old(self).state@.pending.contains_key(e[j1].0@));
                assert(old(self).state@.pending[e[j1].0@] == e[j1].1@);
            }
            assert forall|a: int, b: int| 0 <= a < e2.len() && 0 <= b < e2.len() && a != b implies #[trigger] e2[a].0@ != #[trigger] e2[b].0@ by {
                let a1 = if a < i { a } else { a + 1 };
                let b1 = if b < i { b } else { b + 1 };
                assert(e2[a] == e[a1]);
                assert(e2[b] == e[b1]);
                assert(e[a1].0@ != e[b1].0@);
            }
            assert forall|q: Seq<u8>| #[trigger] self.state@.pending.contains_key(q) implies exists|j: int| 0 <= j < e2.len() && e2[j].0@ == q by {
                assert(old(self).state@.pending.contains_key(q));
                let j0 = choose|j: int| 0 <= j < e.len() && e[j].0@ == q;
                assert(j0 != i);
                if j0 < i {
                    assert(e2[j0] == e[j0]);
                } else {
                    assert(e2[j0 - 1] == e[j0]);
                }
            }
            assert forall|q: Seq<u8>| !(#[trigger] self.state@.pending.contains_key(q) && self.state@.in_flight.contains(q)) by {
                if self.state@.pending.contains_key(q) { assert(old(self).state@.pending.contains_key(q)); }
            }
            assert forall|j: int| 0 <= j < self.recovering_candidates@.len() implies #[trigger] self.state@.in_flight.contains(self.recovering_candidates@[j]@) by {
                assert(old(self).state@.in_flight.contains(self.recovering_candidates@[j]@));
            }
            assert forall|q: Seq<u8>| #[trigger] self.state@.in_flight.contains(q) implies exists|j: int| 0 <= j < self.recovering_candidates@.len() && self.recovering_candidates@[j]@ == q by {
                assert(old(self).state@.in_flight.contains(q));
                let j0 = choose|j: int| 0 <= j < old(self).recovering_candidates@.len() && old(self).recovering_candidates@[j]@ == q;
                assert(self.recovering_candidates@[j0] == old(self).recovering_candidates@[j0]);
            }
        }
        r
    }

    /// Records an announced candidate, with `delay` as the time its recovery waits
    /// when the announcement starts a new wait.
    ///
    /// A hash whose recovery is under way is left alone. A hash that already waits
    /// keeps its delay and takes the new record. Returns the delay to wait before
    /// `start_recovery`, where a new wait starts.
    pub fn insert_pending_candidate_with_delay(
        &mut self,
        hash: BlockHash,
        block_number: u32,
        receipt: Vec<u8>,
        session_index: u32,
        delay: u64,
    ) -> (r: Option<u64>)
        requires
            old(self).wf(),
        ensures
            final(self).wf(),
            final(self).slot_duration_ms() == old(self).slot_duration_ms(),
            final(self)@ == next_state(
                old(self)@,
                RecoveryEvent::Announced(
                    hash@,
                    PendingView { receipt: receipt@, session_index, block_number },
                ),
            ),
            r == (if schedules(old(self)@, hash@) { Some(delay) } else { None }),
    {
        if self.is_recovering(&hash) {
            return None;
        }
        let candidate = PendingCandidate { receipt, session_index, block_number };
        let ghost cv = candidate@;
        let ghost k = hash@;
        match self.find_pending(&hash) {
            Some(i) => {
                let _ = self.take_pending(i);
                let ghost s1 = self.state@;
                let ghost e1 = self.pending_candidates@;
                self.pending_candidates.push((hash, candidate));
                self.state = Ghost(RecoveryState { pending: s1.pending.insert(k, cv), in_flight: s1.in_flight });
                proof {
                    let e2 = self.pending_candidates@;
                    assert(e2[e1.len() as int] == (hash, candidate));
                    assert forall|j: int| 0 <= j < e2.len() implies #[trigger] self.state@.pending.contains_key(e2[j].0@) && self.state@.pending[e2[j].0@] == e2[j].1@ by {
                        if j < e1.len() {
                            assert(e2[j] == e1[j]);
                            assert(s1.pending.contains_key(e1[j].0@));
                        }
                    }
                    assert forall|a: int, b: int| 0 <= a < e2.len() && 0 <= b < e2.len() && a != b implies #[trigger] e2[a].0@ != #[trigger] e2[b].0@ by {
                        if a < e1.len() { assert(e2[a] == e1[a]); assert(s1.pending.contains_key(e1[a].0@)); }
                        if b < e1.len() { assert(e2[b] == e1[b]); assert(s1.pending.contains_key(e1[b].0@)); }
                    }
                    assert forall|q: Seq<u8>| #[trigger] self.state@.pending.contains_key(q) implies exists|j: int| 0 <= j < e2.len() && e2[j].0@ == q by {
                        if q != k {
                            let j0 = choose|j: int| 0 <= j < e1.len() && e1[j].0@ == q;
                            assert(e2[j0] == e1[j0]);
                        } else {
                            assert(e2[e1.len() as int].0@ == q);
                        }
                    }
                    assert(self.state@.pending =~= old(self).state@.pending.insert(k, cv));
                    assert(!old(self).state@.in_flight.contains(k));
                    assert forall|q: Seq<u8>| !(#[trigger] self.state@.pending.contains_key(q) && self.state@.in_flight.contains(q)) by {
                        if self.state@.pending.contains_key(q) && q != k { assert(old(self).state@.pending.contains_key(q)); }
                    }
                    assert forall|j: int| 0 <= j < self.recovering_candidates@.len() implies #[trigger] self.state@.in_flight.contains(self.recovering_candidates@[j]@) by {
                        assert(old(self).state@.in_flight.contains(self.recovering_candidates@[j]@));
                    }
                    assert forall|q: Seq<u8>| #[trigger] self.state@.in_flight.contains(q) implies exists|j: int| 0 <= j < self.recovering_candidates@.len() && self.recovering_candidates@[j]@ == q by {
                        assert(old(self).state@.in_flight.contains(q));
                        let j0 = choose|j: int| 0 <= j < old(self).recovering_candidates@.len() && old(self).recovering_candidates@[j]@ == q;
                        assert(self.recovering_candidates@[j0] == old(self).recovering_candidates@[j0]);
                    }
                }
                None
            },
            None => {
                let ghost e1 = self.pending_candidates@;
                self.pending_candidates.push((hash, candidate));
                self.state = Ghost(RecoveryState { pending: self.state@.pending.insert(k, cv), in_flight: self.state@.in_flight });
                proof {
                    let s1 = old(self).state@;
                    let e2 = self.pending_candidates@;
                    assert(e2[e1.len() as int] == (hash, candidate));
                    assert forall|j: int| 0 <= j < e2.len() implies #[trigger] self.state@.pending.contains_key(e2[j].0@) && self.state@.pending[e2[j].0@] == e2[j].1@ by {
                        if j < e1.len() {
                            assert(e2[j] == e1[j]);
                            assert(s1.pending.contains_key(e1[j].0@));
                        }
                    }
                    assert forall|a: int, b: int| 0 <= a < e2.len() && 0 <= b < e2.len() && a != b implies #[trigger] e2[a].0@ != #[trigger] e2[b].0@ by {
                        if a < e1.len() { assert(e2[a] == e1[a]); assert(s1.pending.contains_key(e1[a].0@)); }
                        if b < e1.len() { assert(e2[b] == e1[b]); assert(s1.pending.contains_key(e1[b].0@)); }
                    }
                    assert forall|q: Seq<u8>| #[trigger] self.state@.pending.contains_key(q) implies exists|j: int| 0 <= j < e2.len() && e2[j].0@ == q by {
                        if q != k {
                            let j0 = choose|j: int| 0 <= j < e1.len() && e1[j].0@ == q;
                            assert(e2[j0] == e1[j0]);
                        } else {
                            assert(e2[e1.len() as int].0@ == q);
                        }
                    }
                    assert(!old(self).state@.in_flight.contains(k));
                    assert forall|q: Seq<u8>| !(#[trigger] self.state@.pending.contains_key(q) && self.state@.in_flight.contains(q)) by {
                        if self.state@.pending.contains_key(q) && q != k { assert(old(self).state@.pending.contains_key(q)); }
                    }
                    assert forall|j: int| 0 <= j < self.recovering_candidates@.len() implies #[trigger] self.state@.in_flight.contains(self.recovering_candidates@[j]@) by {
                        assert(old(self).state@.in_flight.contains(self.recovering_candidates@[j]@));
                    }
                    assert forall|q: Seq<u8>| #[trigger] self.state@.in_flight.contains(q) implies exists|j: int| 0 <= j < self.recovering_candidates@.len() && self.recovering_candidates@[j]@ == q by {
                        assert(old(self).state@.in_flight.contains(q));
                        let j0 = choose|j: int| 0 <= j < old(self).recovering_candidates@.len() && old(self).recovering_candidates@[j]@ == q;
                        assert(self.recovering_candidates@[j0] == old(self).recovering_candidates@[j0]);
                    }
                }
                Some(delay)
            },
        }
    }

    /// Records an announced candidate, and draws the delay of a new wait uniformly
    /// below the relay chain's slot duration (zero where that duration is zero).
    pub fn insert_pending_candidate(
        &mut self,
        hash: BlockHash,
        block_number: u32,
        receipt: Vec<u8>,
        session_index: u32,
    ) -> (r: Option<u64>)
        requires
            old(self).wf(),
        ensures
            final(self).wf(),
            final(self).slot_duration_ms() == old(self).slot_duration_ms(),
            final(self)@ == next_state(
                old(self)@,
                RecoveryEvent::Announced(
                    hash@,
                    PendingView { receipt: receipt@, session_index, block_number },
                ),
            ),
            r is Some <==> schedules(old(self)@, hash@),
            r matches Some(d) ==> (if old(self).slot_duration_ms() == 0 { d == 0 } else { d < old(self).slot_duration_ms() }),
    {
        let slot = self.relay_chain_slot_duration_ms;
        let delay = if slot == 0 { 0 } else { random_below(slot) };
        self.insert_pending_candidate_with_delay(hash, block_number, receipt, session_index, delay)
    }

    /// Drops the candidate of a block that was imported locally. A recovery under
    /// way is left to end.
    pub fn block_imported(&mut self, hash: &BlockHash)
        requires
            old(self).wf(),
        ensures
            final(self).wf(),
            final(self).slot_duration_ms() == old(self).slot_duration_ms(),
            final(self)@ == next_state(old(self)@, RecoveryEvent::Imported(hash@)),
            !final(self)@.pending.contains_key(hash@),
    {
        match self.find_pending(hash) {
            Some(i) => {
                let _ = self.take_pending(i);
            },
            None => {
                assert(self.state@.pending.remove(hash@) =~= self.state@.pending);
            },
        }
    }

    /// Starts the recovery of `hash`, whose delay ran out: where it still waits, it
    /// moves to the recoveries under way, and the request to send is returned.
    pub fn start_recovery(&mut self, hash: &BlockHash) -> (r: Option<RecoveryRequest>)
        requires
            old(self).wf(),
        ensures
            final(self).wf(),
            final(self).slot_duration_ms() == old(self).slot_duration_ms(),
            final(self)@ == next_state(old(self)@, RecoveryEvent::TimerFired(hash@)),
            r is Some <==> old(self)@.pending.contains_key(hash@),
            r matches Some(req) ==> req.receipt@ == old(self)@.pending[hash@].receipt
                && req.session_index == old(self)@.pending[hash@].session_index,
    {
        match self.find_pending(hash) {
            None => None,
            Some(i) => {
                let (h, candidate) = self.take_pending(i);
                let ghost s1 = self.state@;
                let ghost r1 = self.recovering_candidates@;
                self.recovering_candidates.push(h);
                self.state = Ghost(RecoveryState { pending: s1.pending, in_flight: s1.in_flight.insert(h@) });
                proof {
                    let r2 = self.recovering_candidates@;
                    assert(r2[r1.len() as int] == h);
                    assert forall|j: int| 0 <= j < r2.len() implies #[trigger] self.state@.in_flight.contains(r2[j]@) by {
                        if j < r1.len() { assert(r2[j] == r1[j]); }
                    }
                    assert forall|q: Seq<u8>| #[trigger] self.state@.in_flight.contains(q) implies exists|j: int| 0 <= j < r2.len() && r2[j]@ == q by {
                        if q != h@ {
                            let j0 = choose|j: int| 0 <= j < r1.len() && r1[j]@ == q;
                            assert(r2[j0] == r1[j0]);
                        } else {
                            assert(r2[r1.len() as int]@ == q);
                        }
                    }
                    assert forall|q: Seq<u8>| !(#[trigger] self.state@.pending.contains_key(q) && self.state@.in_flight.contains(q)) by {
                        if self.state@.pending.contains_key(q) && q != h@ { assert(s1.pending.contains_key(q)); }
                    }
                    let e = self.pending_candidates@;
                    assert forall|j: int| 0 <= j < e.len() implies #[trigger] self.state@.pending.contains_key(e[j].0@) && self.state@.pending[e[j].0@] == e[j].1@ by {
                        assert(s1.pending.contains_key(e[j].0@));
                    }
                    assert forall|q: Seq<u8>| #[trigger] self.state@.pending.contains_key(q) implies exists|j: int| 0 <= j < e.len() && e[j].0@ == q by {
                        assert(s1.pending.contains_key(q));
                    }
                }
                Some(RecoveryRequest { receipt: candidate.receipt, session_index: candidate.session_index })
            },
        }
    }

    /// Forgets the recovery of `hash`: it ended, or its request could not be sent.
    pub fn recovery_finished(&mut self, hash: &BlockHash)
        requires
            old(self).wf(),
        ensures
            final(self).wf(),
            final(self).slot_duration_ms() == old(self).slot_duration_ms(),
            final(self)@ == next_state(old(self)@, RecoveryEvent::Finished(hash@)),
    {
        let ghost s0 = self.state@;
        let mut i: usize = 0;
        while i < self.recovering_candidates.len()
            invariant
                self.pending_candidates == old(self).pending_candidates,
                self.relay_chain_slot_duration_ms == old(self).relay_chain_slot_duration_ms,
                self.state@ == s0,
                s0 == old(self).state@,
                i <= self.recovering_candidates@.len(),
                forall|j: int| 0 <= j < i ==> self.recovering_candidates@[j]@ != hash@,
                forall|j: int| 0 <= j < self.recovering_candidates@.len() ==> #[trigger] s0.in_flight.contains(self.recovering_candidates@[j]@),
                forall|q: Seq<u8>| #[trigger] s0.in_flight.contains(q) && q != hash@ ==> exists|j: int| 0 <= j < self.recovering_candidates@.len() && self.recovering_candidates@[j]@ == q,
            decreases self.recovering_candidates@.len() - i,
        {
            if self.recovering_candidates[i].same_as(hash) {
                let ghost r1 = self.recovering_candidates@;
                self.recovering_candidates.remove(i);
                proof {
                    r1.remove_ensures(i as int);
                    let r2 = self.recovering_candidates@;
                    assert forall|j: int| 0 <= j < r2.len() implies #[trigger] s0.in_flight.contains(r2[j]@) by {
                        if j < i { assert(r2[j] == r1[j]); } else { assert(r2[j] == r1[j + 1]); }
                    }
                    assert forall|q: Seq<u8>| #[trigger] s0.in_flight.contains(q) && q != hash@ implies exists|j: int| 0 <= j < r2.len() && r2[j]@ == q by {
                        let j0 = choose|j: int| 0 <= j < r1.len() && r1[j]@ == q;
                        assert(j0 != i);
                        if j0 < i { assert(r2[j0] == r1[j0]); } else { assert(r2[j0 - 1] == r1[j0]); }
                    }
                }
            } else {
                i += 1;
            }
        }
        self.state = Ghost(RecoveryState { pending: s0.pending, in_flight: s0.in_flight.remove(hash@) });
        proof {
            let r2 = self.recovering_candidates@;
            assert forall|j: int| 0 <= j < r2.len() implies #[trigger] self.state@.in_flight.contains(r2[j]@) by {
                assert(s0.in_flight.contains(r2[j]@));
            }
        }
    }

    /// Drops every waiting candidate at or below height `block_number`, which the
    /// parachain finalized.
    pub fn block_finalized(&mut self, block_number: u32)
        requires
            old(self).wf(),
        ensures
            final(self).wf(),
            final(self).slot_duration_ms() == old(self).slot_duration_ms(),
            final(self)@ == next_state(old(self)@, RecoveryEvent::Finalized(block_number)),
            forall|k: Seq<u8>| #[trigger] final(self)@.pending.contains_key(k) ==> final(self)@.pending[k].block_number > block_number,
    {
        let ghost s0 = self.state@;
        let mut i: usize = 0;
        while i < self.pending_candidates.len()
            invariant
                self.wf(),
                self.relay_chain_slot_duration_ms == old(self).relay_chain_slot_duration_ms,
                s0 == old(self)@,
                self@.in_flight == s0.in_flight,
                i <= self.pending_candidates@.len(),
                forall|k: Seq<u8>| #[trigger] self@.pending.contains_key(k) ==> s0.pending.contains_key(k) && self@.pending[k] == s0.pending[k],
                forall|k: Seq<u8>| #[trigger] s0.pending.contains_key(k) && s0.pending[k].block_number > block_number ==> self@.pending.contains_key(k),
                forall|j: int| 0 <= j < i ==> (#[trigger] self.pending_candidates@[j]).1.block_number > block_number,
            decreases self.pending_candidates@.len() - i,
        {
            if self.pending_candidates[i].1.block_number <= block_number {
                let ghost e1 = self.pending_candidates@;
                let ghost p1 = self@.pending;
                let _ = self.take_pending(i);
                proof {
                    e1.remove_ensures(i as int);
                    assert(p1.contains_key(e1[i as int].0@));
                    assert forall|j: int| 0 <= j < i implies (#[trigger] self.pending_candidates@[j]).1.block_number > block_number by {
                        assert(self.pending_candidates@[j] == e1[j]);
                    }
                }
            } else {
                i += 1;
            }
        }
        proof {
            let e = self.pending_candidates@;
            assert forall|k: Seq<u8>| #[trigger] self@.pending.contains_key(k) implies self@.pending[k].block_number > block_number by {
                let j0 = choose|j: int| 0 <= j < e.len() && e[j].0@ == k;
                assert(self.state@.pending.contains_key(e[j0].0@));
            }
            assert(self@.pending =~= above(s0.pending, block_number));
        }
    }

} // impl CandidateRecovery

} // verus!
