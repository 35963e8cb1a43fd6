//! One proof-gathering session.
//!
//! A session is created per block execution. Batches of targets are
//! dispatched to the proof backend as independent units of work; each
//! finished unit is harvested back and its fragment merged into the
//! accumulator. The session is terminal exactly when the event stream has
//! closed and no dispatched unit remains unresolved; it then delivers its
//! result exactly once — either the merged proof, or the first backend
//! failure observed, after which nothing further is dispatched.

use vstd::prelude::*;

use crate::model::{merge_views, Targets};
use crate::multiproof::MultiProof;
use crate::targets::TargetBatch;

verus! {

/// The proof backend failed for one dispatched batch. The session aborts:
/// the error is surfaced through the same result it would use for success,
/// and the caller decides whether to retry the whole block.
pub struct ProofComputationError {
    message: String,
}

impl View for ProofComputationError {
    type V = Seq<char>;

    closed spec fn view(&self) -> Seq<char> {
        self.message@
    }
}

impl ProofComputationError {
    pub fn new(message: String) -> (r: ProofComputationError)
        ensures
            r@ == message@,
    {
        ProofComputationError { message }
    }

    pub fn message(&self) -> (r: &String)
        ensures
            r@ == self@,
    {
        &self.message
    }
}

/// What a session delivers, exactly once, when it ends: the merged proof or
/// the failure that aborted it, plus the wall-clock time the caller measured
/// for the whole session.
pub struct SessionResult {
    pub outcome: Result<MultiProof, ProofComputationError>,
    pub elapsed_micros: u64,
}

/// The state of one gathering session.
pub struct ProofSession {
    done: bool,
    pending: usize,
    accumulated: MultiProof,
    failure: Option<ProofComputationError>,
}

impl ProofSession {
    /// Internal validity of the accumulator.
    pub closed spec fn wf(&self) -> bool {
        self.accumulated.wf()
    }

    /// Whether the event stream has been seen to close.
    pub closed spec fn stream_closed(&self) -> bool {
        self.done
    }

    /// How many dispatched units of work are still unresolved.
    pub closed spec fn outstanding(&self) -> usize {
        self.pending
    }

    /// The coverage of the proof merged so far.
    pub closed spec fn proof_view(&self) -> Targets {
        self.accumulated@
    }

    /// Whether a backend failure has been observed.
    pub closed spec fn has_failed(&self) -> bool {
        self.failure is Some
    }

    /// The message of the first failure observed, if any.
    pub closed spec fn failure_view(&self) -> Option<Seq<char>> {
        match self.failure {
            Some(e) => Some(e@),
            None => None,
        }
    }

    /// A fresh session: stream open, nothing dispatched, empty proof.
    pub fn new() -> (s: ProofSession)
        ensures
            s.wf(),
            !s.stream_closed(),
            s.outstanding() == 0,
            s.proof_view() == Map::<Seq<u8>, Set<Seq<u8>>>::empty(),
            !s.has_failed(),
    {
        ProofSession { done: false, pending: 0, accumulated: MultiProof::empty(), failure: None }
    }

    /// The stream reported closure: no further events will arrive.
    pub fn note_closed(&mut self)
        ensures
            final(self).stream_closed(),
            final(self).outstanding() == old(self).outstanding(),
            final(self).proof_view() == old(self).proof_view(),
            final(self).failure_view() == old(self).failure_view(),
            final(self).has_failed() == old(self).has_failed(),
            final(self).wf() == old(self).wf(),
    {
        self.done = true;
    }

    /// Decide whether a drained batch goes out as a unit of work: it does
    /// exactly when it is non-empty and no failure has been observed. On a
    /// dispatch the unit is counted as outstanding; the caller hands the
    /// batch to the backend.
    pub fn register_dispatch(&mut self, batch: &TargetBatch) -> (r: bool)
        requires
            old(self).outstanding() < usize::MAX,
        ensures
            r == (!(batch@ =~= Map::<Seq<u8>, Set<Seq<u8>>>::empty()) && !old(self).has_failed()),
            r ==> final(self).outstanding() == old(self).outstanding() + 1,
            !r ==> final(self).outstanding() == old(self).outstanding(),
            final(self).stream_closed() == old(self).stream_closed(),
            final(self).proof_view() == old(self).proof_view(),
            final(self).failure_view() == old(self).failure_view(),
            final(self).has_failed() == old(self).has_failed(),
            final(self).wf() == old(self).wf(),
    {
        if self.failure.is_some() {
            return false;
        }
        if batch.is_empty() {
            return false;
        }
        self.pending = self.pending + 1;
        true
    }

    /// Take back one resolved unit of work. A fragment is merged into the
    /// accumulator; a failure is kept — the first one observed — and the
    /// proof gathered so far is left as it was.
    pub fn harvest(&mut self, outcome: Result<MultiProof, ProofComputationError>)
        requires
            old(self).wf(),
            old(self).outstanding() > 0,
            outcome is Ok ==> outcome->Ok_0.wf(),
        ensures
            final(self).wf(),
            final(self).outstanding() == old(self).outstanding() - 1,
            final(self).stream_closed() == old(self).stream_closed(),
            final(self).has_failed() == (old(self).has_failed() || outcome is Err),
            match outcome {
                Ok(p) => final(self).proof_view() == merge_views(old(self).proof_view(), p@)
                    && final(self).failure_view() == old(self).failure_view(),
                Err(e) => final(self).proof_view() == old(self).proof_view()
                    && final(self).failure_view() == (if old(self).has_failed() {
                    old(self).failure_view()
                } else {
                    Some(e@)
                }),
            },
    {
        self.pending = self.pending - 1;
        match outcome {
            Ok(p) => self.accumulated.merge(p),
            Err(e) => {
                if self.failure.is_none() {
                    self.failure = Some(e);
                }
            },
        }
    }

    /// The terminal condition: the stream has closed and no dispatched unit
    /// of work remains unresolved — exactly then the session may finish.
    pub fn is_terminal(&self) -> (r: bool)
        ensures
            r == (self.stream_closed() && self.outstanding() == 0),
    {
        self.done && self.pending == 0
    }

    /// Whether the event stream has been seen to close.
    pub fn is_closed(&self) -> (r: bool)
        ensures
            r == self.stream_closed(),
    {
        self.done
    }

    /// How many dispatched units of work are still unresolved.
    pub fn outstanding_count(&self) -> (n: usize)
        ensures
            n == self.outstanding(),
    {
        self.pending
    }

    /// Whether a backend failure has been observed.
    pub fn failed(&self) -> (r: bool)
        ensures
            r == self.has_failed(),
    {
        self.failure.is_some()
    }

    /// Deliver the session's result: the merged proof if every unit
    /// succeeded, else the first failure observed. Consumes the session, so
    /// the result is produced exactly once, and only in the terminal state.
    pub fn finish(self, elapsed_micros: u64) -> (r: SessionResult)
        requires
            self.wf(),
            self.stream_closed(),
            self.outstanding() == 0,
        ensures
            r.elapsed_micros == elapsed_micros,
            self.has_failed() ==> r.outcome is Err && Some(r.outcome->Err_0@)
                == self.failure_view(),
            !self.has_failed() ==> r.outcome is Ok && r.outcome->Ok_0.wf() && r.outcome->Ok_0@
                == self.proof_view(),
    {
        match self.failure {
            Some(e) => SessionResult { outcome: Err(e), elapsed_micros },
            None => SessionResult { outcome: Ok(self.accumulated), elapsed_micros },
        }
    }
}

} // verus!
