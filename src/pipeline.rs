use vstd::prelude::*;

use crate::error::PlotError;

verus! {

/// What the driver of a run does next.
#[derive(Clone, Copy, Debug, PartialEq, Eq, Structural)]
pub enum Action {
    /// Hash chunk `chunk` into buffer `buffer`, repack it, then report
    /// `hash_done`.
    Hash { chunk: u64, buffer: u64 },
    /// Write chunk `chunk` from buffer `buffer`, then report `write_done`.
    Write { chunk: u64, buffer: u64 },
    /// Wait for the work in flight to report.
    Wait,
    /// The run is over: every chunk started has been hashed and written.
    Done,
    /// The run failed with this first error.
    Abort { error: PlotError },
}

/// The scheduler's state for one run: chunks hashed and written so far, the
/// work in flight, and how the run was configured.
pub struct Pipeline {
    chunks: u64,
    buffers: u64,
    benchmark: bool,
    hashed: u64,
    written: u64,
    hashing: bool,
    writing: bool,
    cancelled: bool,
    error: Option<PlotError>,
}

impl Pipeline {
    /// Chunks in the run.
    pub closed spec fn chunks(&self) -> nat {
        self.chunks as nat
    }

    /// Buffers the run holds: 2 with overlapped writing, else 1.
    pub closed spec fn buffers(&self) -> nat {
        self.buffers as nat
    }

    /// Whether writes are left out (benchmark mode).
    pub closed spec fn benchmark(&self) -> bool {
        self.benchmark
    }

    /// Chunks fully hashed and repacked.
    pub closed spec fn hashed(&self) -> nat {
        self.hashed as nat
    }

    /// Chunks whose write has finished (in benchmark mode: hashed chunks).
    pub closed spec fn written(&self) -> nat {
        self.written as nat
    }

    /// Whether a chunk is being hashed.
    pub closed spec fn hashing(&self) -> bool {
        self.hashing
    }

    /// Whether a chunk is being written.
    pub closed spec fn writing(&self) -> bool {
        self.writing
    }

    /// Whether no new chunk is to be started.
    pub closed spec fn cancelled(&self) -> bool {
        self.cancelled
    }

    /// The first failure reported, if any.
    pub closed spec fn error(&self) -> Option<PlotError> {
        self.error
    }

    /// Chunks that hold a buffer: hashed but not yet written, or being
    /// hashed.
    pub open spec fn chunks_held(&self) -> int {
        self.hashed() - self.written() + if self.hashing() {
            1int
        } else {
            0int
        }
    }

    /// The state invariant. Every chunk holding a buffer has one of its own,
    /// so no more than two chunks are ever held; a write is only in flight
    /// for the oldest chunk not yet written; benchmark mode never writes.
    pub open spec fn wf(&self) -> bool {
        &&& self.buffers() == 1 || self.buffers() == 2
        &&& self.written() <= self.hashed() <= self.chunks()
        &&& self.hashing() ==> self.hashed() < self.chunks()
        &&& 0 <= self.chunks_held() <= self.buffers()
        &&& self.writing() ==> self.written() < self.hashed()
        &&& self.benchmark() ==> !self.writing() && self.written() == self.hashed()
    }

    /// A run of `chunks` chunks, nothing started.
    pub fn new(chunks: u64, overlapped: bool, benchmark: bool) -> (p: Pipeline)
        ensures
            p.wf(),
            p.chunks() == chunks,
            p.buffers() == if overlapped { 2nat } else { 1nat },
            p.benchmark() == benchmark,
            p.hashed() == 0,
            p.written() == 0,
            !p.hashing(),
            !p.writing(),
            !p.cancelled(),
            p.error() is None,
    {
        Pipeline {
            chunks,
            buffers: if overlapped { 2 } else { 1 },
            benchmark,
            hashed: 0,
            written: 0,
            hashing: false,
            writing: false,
            cancelled: false,
            error: None,
        }
    }

    /// Decides the next step, and marks the work it starts as in flight.
    /// A failure aborts; a finished chunk is written before anything else, in
    /// chunk order; a new chunk is hashed only while a buffer is free and no
    /// cancellation was asked for; the run is done when nothing is left in
    /// flight and every started chunk is written. It waits only while a hash
    /// or a write is in flight, so a driver that reports back never stalls.
    pub fn next_action(&mut self) -> (a: Action)
        requires
            old(self).wf(),
        ensures
            final(self).wf(),
            final(self).chunks() == old(self).chunks(),
            final(self).buffers() == old(self).buffers(),
            final(self).benchmark() == old(self).benchmark(),
            final(self).hashed() == old(self).hashed(),
            final(self).written() == old(self).written(),
            final(self).cancelled() == old(self).cancelled(),
            final(self).error() == old(self).error(),
            old(self).error() matches Some(e) ==> a == (Action::Abort { error: e }) && *final(self)
                == *old(self),
            old(self).error() is None && !old(self).writing() && old(self).written() < old(
                self,
            ).hashed() ==> a == (Action::Write {
                chunk: old(self).written() as u64,
                buffer: (old(self).written() % old(self).buffers()) as u64,
            }) && final(self).writing() && final(self).hashing() == old(self).hashing(),
            old(self).error() is None && !(!old(self).writing() && old(self).written() < old(
                self,
            ).hashed()) && !old(self).hashing() && !old(self).cancelled() && old(self).hashed()
                < old(self).chunks() && old(self).hashed() - old(self).written() < old(
                self,
            ).buffers() ==> a == (Action::Hash {
                chunk: old(self).hashed() as u64,
                buffer: (old(self).hashed() % old(self).buffers()) as u64,
            }) && final(self).hashing() && final(self).writing() == old(self).writing(),
            a is Done <==> old(self).error() is None && !old(self).hashing() && !old(
                self,
            ).writing() && old(self).written() == old(self).hashed() && (old(self).hashed() == old(
                self,
            ).chunks() || old(self).cancelled()),
            a is Abort <==> old(self).error() is Some,
            a is Write <==> old(self).error() is None && !old(self).writing() && old(self).written()
                < old(self).hashed(),
            a is Hash <==> old(self).error() is None && !(!old(self).writing() && old(self).written()
                < old(self).hashed()) && !old(self).hashing() && !old(self).cancelled() && old(
                self,
            ).hashed() < old(self).chunks() && old(self).hashed() - old(self).written() < old(
                self,
            ).buffers(),
            a is Wait || a is Done ==> *final(self) == *old(self),
            a is Wait ==> old(self).hashing() || old(self).writing(),
            old(self).benchmark() ==> !(a is Write),
    {
        if let Some(e) = self.error {
            return Action::Abort { error: e };
        }
        if !self.writing && self.written < self.hashed {
            self.writing = true;
            return Action::Write { chunk: self.written, buffer: self.written % self.buffers };
        }
        if !self.hashing && !self.cancelled && self.hashed < self.chunks && self.hashed
            - self.written < self.buffers {
            self.hashing = true;
            return Action::Hash { chunk: self.hashed, buffer: self.hashed % self.buffers };
        }
        if !self.hashing && !self.writing && self.written == self.hashed && (self.hashed
            == self.chunks || self.cancelled) {
            return Action::Done;
        }
        Action::Wait
    }

    /// The chunk in hashing is complete and repacked. In benchmark mode it
    /// counts as written at once. Returns false, and changes nothing, when no
    /// chunk was being hashed.
    pub fn hash_done(&mut self) -> (ok: bool)
        requires
            old(self).wf(),
        ensures
            final(self).wf(),
            ok == old(self).hashing(),
            ok ==> !final(self).hashing() && final(self).hashed() == old(self).hashed() + 1
                && final(self).written() == old(self).written() + if old(self).benchmark() {
                1nat
            } else {
                0nat
            } && final(self).writing() == old(self).writing() && final(self).cancelled() == old(
                self,
            ).cancelled() && final(self).error() == old(self).error() && final(self).chunks()
                == old(self).chunks() && final(self).buffers() == old(self).buffers()
                && final(self).benchmark() == old(self).benchmark(),
            !ok ==> *final(self) == *old(self),
    {
        if !self.hashing {
            return false;
        }
        self.hashing = false;
        self.hashed = self.hashed + 1;
        if self.benchmark {
            self.written = self.written + 1;
        }
        true
    }

    /// The chunk in writing is on storage. Returns false, and changes
    /// nothing, when no write was in flight.
    pub fn write_done(&mut self) -> (ok: bool)
        requires
            old(self).wf(),
        ensures
            final(self).wf(),
            ok == old(self).writing(),
            ok ==> !final(self).writing() && final(self).written() == old(self).written() + 1
                && final(self).hashed() == old(self).hashed() && final(self).hashing() == old(
                self,
            ).hashing() && final(self).cancelled() == old(self).cancelled() && final(self).error()
                == old(self).error() && final(self).chunks() == old(self).chunks()
                && final(self).buffers() == old(self).buffers() && final(self).benchmark() == old(
                self,
            ).benchmark(),
            !ok ==> *final(self) == *old(self),
    {
        if !self.writing {
            return false;
        }
        self.writing = false;
        self.written = self.written + 1;
        true
    }

    /// A backend or the writer failed: the first failure is kept and the run
    /// aborts from then on.
    pub fn fail(&mut self, error: PlotError)
        requires
            old(self).wf(),
        ensures
            final(self).wf(),
            final(self).error() == if old(self).error() is None {
                Some(error)
            } else {
                old(self).error()
            },
            final(self).hashed() == old(self).hashed(),
            final(self).written() == old(self).written(),
            final(self).hashing() == old(self).hashing(),
            final(self).writing() == old(self).writing(),
            final(self).cancelled() == old(self).cancelled(),
            final(self).chunks() == old(self).chunks(),
            final(self).buffers() == old(self).buffers(),
            final(self).benchmark() == old(self).benchmark(),
    {
        if self.error.is_none() {
            self.error = Some(error);
        }
    }

    /// Asks the run to stop between chunks: work in flight finishes and is
    /// written, no new chunk starts.
    pub fn cancel(&mut self)
        requires
            old(self).wf(),
        ensures
            final(self).wf(),
            final(self).cancelled(),
            final(self).error() == old(self).error(),
            final(self).hashed() == old(self).hashed(),
            final(self).written() == old(self).written(),
            final(self).hashing() == old(self).hashing(),
            final(self).writing() == old(self).writing(),
            final(self).chunks() == old(self).chunks(),
            final(self).buffers() == old(self).buffers(),
            final(self).benchmark() == old(self).benchmark(),
    {
        self.cancelled = true;
    }

    /// Chunks whose write has finished.
    pub fn written_chunks(&self) -> (r: u64)
        ensures
            r == self.written(),
    {
        self.written
    }

    /// Chunks fully hashed.
    pub fn hashed_chunks(&self) -> (r: u64)
        ensures
            r == self.hashed(),
    {
        self.hashed
    }
}

/// Backpressure: in every well-formed state at most one write is in flight,
/// and the chunks that hold memory (hashed and not yet written, or being
/// hashed) never exceed the buffers, which are at most two.
pub proof fn lemma_backpressure(p: Pipeline)
    requires
        p.wf(),
    ensures
        p.chunks_held() <= 2,
        p.hashed() - p.written() <= 2,
        p.writing() && p.hashing() ==> p.hashed() - p.written() == 1 && p.buffers() == 2,
{
}

} // verus!
