//! How a router runs, and what it does with the chunks that reach it.
use vstd::prelude::*;

use crate::chunk_queue::{Chunk, Stamped};
use crate::config::Duration;
use crate::error::Error;
use crate::router::Router;
use crate::routing::Hop;

verus! {

/// What became of a chunk that was pushed.
#[derive(Clone, Copy, Debug, PartialEq, Eq, Structural)]
pub enum PushOutcome {
    /// The router does not run: the chunk is gone.
    NotRunning,
    /// The chunk is in the queue. The running router is to be told of it where `wake` holds.
    Queued { wake: bool },
    /// The queue was full: the chunk is gone.
    QueueFull,
}

/// What became of a chunk that came in from the parent router.
#[derive(Debug)]
pub enum InboundOutcome<E> {
    /// The translation let nothing through.
    Dropped,
    /// The translation failed.
    NatFailed(E),
    /// The translated chunk was pushed.
    Pushed(PushOutcome),
}

/// What became of the chunk that has waited longest.
#[derive(Debug)]
pub enum Processed<P> {
    /// There is none, or it is not due yet: look again after this time, or, if the time is zero, when a
    /// chunk is pushed.
    Rest(Duration),
    /// A filter dropped it.
    Filtered(Chunk<P>),
    /// It passed the filters, and goes on.
    Forward { chunk: Chunk<P>, hop: Hop },
}

/// The first `n` filters let the chunk pass.
pub open spec fn passed<P, F: Fn(&Chunk<P>) -> bool>(
    filters: Seq<F>,
    n: int,
    chunk: &Chunk<P>,
) -> bool {
    forall|i: int| 0 <= i < n ==> call_ensures(#[trigger] filters[i], (chunk,), true)
}

/// Each filter is ready for the chunk where all those before it let it pass.
pub open spec fn ready<P, F: Fn(&Chunk<P>) -> bool>(filters: Seq<F>, chunk: &Chunk<P>) -> bool {
    forall|n: int|
        0 <= n < filters.len() && passed(filters, n, chunk) ==> call_requires(
            #[trigger] filters[n],
            (chunk,),
        )
}

/// Some filter drops the chunk, and all those before it let it pass.
pub open spec fn refused<P, F: Fn(&Chunk<P>) -> bool>(filters: Seq<F>, chunk: &Chunk<P>) -> bool {
    exists|n: int|
        0 <= n < filters.len() && passed(filters, n, chunk) && call_ensures(
            #[trigger] filters[n],
            (chunk,),
            false,
        )
}

impl<P, F> Router<P, F> {
    /// The router, running.
    pub open spec fn started(self) -> Self {
        Router { done: true, push_ch: true, ..self }
    }

    /// The router, at rest.
    pub open spec fn stopped(self) -> Self {
        Router { done: false, push_ch: false, ..self }
    }

    /// Starts the router. The children are left as they are.
    pub fn start(&mut self) -> (res: Result<(), Error>)
        requires
            old(self).wf(),
        ensures
            final(self).wf(),
            if old(self).done {
                &&& res == Err::<(), Error>(Error::RouterAlreadyStarted)
                &&& *final(self) == *old(self)
            } else {
                &&& res == Ok::<(), Error>(())
                &&& *final(self) == old(self).started()
            },
    {
        if self.done {
            return Err(Error::RouterAlreadyStarted);
        }
        self.done = true;
        self.push_ch = true;
        Ok(())
    }

    /// Stops the router. The children are left as they are.
    pub fn stop(&mut self) -> (res: Result<(), Error>)
        requires
            old(self).wf(),
        ensures
            final(self).wf(),
            if old(self).done {
                &&& res == Ok::<(), Error>(())
                &&& *final(self) == old(self).stopped()
            } else {
                &&& res == Err::<(), Error>(Error::RouterAlreadyStopped)
                &&& *final(self) == *old(self)
            },
    {
        if !self.done {
            return Err(Error::RouterAlreadyStopped);
        }
        self.push_ch = false;
        self.done = false;
        Ok(())
    }

    /// What comes of pushing a chunk at the time `now`.
    pub open spec fn chunk_pushed(
        self,
        after: Self,
        chunk: Chunk<P>,
        now: Duration,
        res: PushOutcome,
    ) -> bool {
        if !self.done {
            after == self && res == PushOutcome::NotRunning
        } else if self.queue.full() {
            &&& after.queue@ == self.queue@
            &&& after.queue.max_size == self.queue.max_size
            &&& after == (Router { queue: after.queue, ..self })
            &&& res == PushOutcome::QueueFull
        } else {
            &&& after.queue@ == self.queue@.push(Stamped { timestamp: now, chunk })
            &&& after.queue.max_size == self.queue.max_size
            &&& after == (Router { queue: after.queue, ..self })
            &&& res == PushOutcome::Queued { wake: self.push_ch }
        }
    }

    /// Stamps a chunk with the time `now` and puts it in the queue.
    pub fn push(&mut self, chunk: Chunk<P>, now: Duration) -> (res: PushOutcome)
        requires
            old(self).wf(),
        ensures
            final(self).wf(),
            old(self).chunk_pushed(*final(self), chunk, now, res),
    {
        if self.done {
            if self.queue.push(Stamped { timestamp: now, chunk }) {
                PushOutcome::Queued { wake: self.push_ch }
            } else {
                PushOutcome::QueueFull
            }
        } else {
            PushOutcome::NotRunning
        }
    }

    /// Takes in what the network address translator has made of a chunk from the parent router.
    pub fn on_inbound_chunk<E>(
        &mut self,
        translated: Result<Option<Chunk<P>>, E>,
        now: Duration,
    ) -> (res: InboundOutcome<E>)
        requires
            old(self).wf(),
        ensures
            final(self).wf(),
            match translated {
                Ok(Some(chunk)) => res matches InboundOutcome::Pushed(outcome) && old(
                    self,
                ).chunk_pushed(*final(self), chunk, now, outcome),
                Ok(None) => res is Dropped && *final(self) == *old(self),
                Err(err) => res == InboundOutcome::<E>::NatFailed(err) && *final(self) == *old(self),
            },
    {
        match translated {
            Ok(Some(chunk)) => InboundOutcome::Pushed(self.push(chunk, now)),
            Ok(None) => InboundOutcome::Dropped,
            Err(err) => InboundOutcome::NatFailed(err),
        }
    }

    /// Takes in what the network address translator of a child router has made of a chunk that the
    /// child sends up. Nothing comes of it where the translation let nothing through.
    pub fn on_outbound_chunk<E>(
        &mut self,
        translated: Result<Option<Chunk<P>>, E>,
        now: Duration,
    ) -> (res: Result<Option<PushOutcome>, E>)
        requires
            old(self).wf(),
        ensures
            final(self).wf(),
            match translated {
                Ok(Some(chunk)) => res matches Ok(Some(outcome)) && old(self).chunk_pushed(
                    *final(self),
                    chunk,
                    now,
                    outcome,
                ),
                Ok(None) => res == Ok::<Option<PushOutcome>, E>(None) && *final(self) == *old(self),
                Err(err) => res == Err::<Option<PushOutcome>, E>(err) && *final(self) == *old(
                    self,
                ),
            },
    {
        match translated {
            Ok(Some(chunk)) => Ok(Some(self.push(chunk, now))),
            Ok(None) => Ok(None),
            Err(err) => Err(err),
        }
    }

    /// The router has one filter more.
    pub open spec fn filter_added(self, after: Self, filter: F) -> bool {
        &&& after.chunk_filters@ == self.chunk_filters@.push(filter)
        &&& after == (Router { chunk_filters: after.chunk_filters, ..self })
    }

    /// Adds a filter for chunks that traverse the router.
    pub fn add_chunk_filter(&mut self, filter: F)
        requires
            old(self).wf(),
        ensures
            final(self).wf(),
            old(self).filter_added(*final(self), filter),
    {
        self.chunk_filters.push(filter);
    }

    /// How long the router waits before it processes chunks: a time below the greatest jitter, which
    /// a random number picks.
    pub fn jitter(&self, random: u64) -> (res: Duration)
        ensures
            res.is_nanos(
                if self.max_jitter.nanos() == 0 {
                    0
                } else {
                    random as int % self.max_jitter.nanos()
                },
            ),
    {
        let max: u128 = self.max_jitter.as_nanos();
        Duration::from_nanos(if max == 0 { 0 } else { random as u128 % max })
    }

    /// How long a chunk has to wait yet at the time `now`, in nanoseconds. It is due when there is
    /// nothing to wait for.
    pub open spec fn wait_of(self, queued: Stamped<P>, now: Duration) -> int {
        queued.timestamp.nanos() + self.min_delay.nanos() - now.nanos()
    }

    /// The chunk that has waited longest is due at the time `now`.
    pub open spec fn first_is_due(self, now: Duration) -> bool {
        self.queue@.len() > 0 && self.wait_of(self.queue@[0], now) <= 0
    }
}

impl<P, F: Fn(&Chunk<P>) -> bool> Router<P, F> {
    /// Whether the filters let a chunk pass. They are asked in the order in which they were added.
    /// A filter must be ready for a chunk only where all those before it have let it pass: the first
    /// that drops the chunk is the last that receives it.
    pub fn passes_filters(&self, chunk: &Chunk<P>) -> (res: bool)
        requires
            ready(self.chunk_filters@, chunk),
        ensures
            if res {
                passed(self.chunk_filters@, self.chunk_filters@.len() as int, chunk)
            } else {
                refused(self.chunk_filters@, chunk)
            },
    {
        let mut i: usize = 0;
        while i < self.chunk_filters.len()
            invariant
                i <= self.chunk_filters@.len(),
                passed(self.chunk_filters@, i as int, chunk),
                ready(self.chunk_filters@, chunk),
            decreases self.chunk_filters@.len() - i,
        {
            let filter = &self.chunk_filters[i];
            if !filter(chunk) {
                return false;
            }
            i = i + 1;
        }
        true
    }

    /// What comes of processing the chunk that has waited longest. It leaves the queue if it is due.
    /// Where it then passes the filters, its destination decides where it goes.
    pub open spec fn chunk_processed(self, after: Self, now: Duration, res: Processed<P>) -> bool {
        if self.first_is_due(now) {
            let chunk = self.queue@[0].chunk;
            &&& after.queue@ == self.queue@.drop_first()
            &&& after.queue.max_size == self.queue.max_size
            &&& after == (Router { queue: after.queue, ..self })
            &&& match res {
                Processed::Rest(_) => false,
                Processed::Filtered(dropped) => dropped == chunk && refused(
                    self.chunk_filters@,
                    &chunk,
                ),
                Processed::Forward { chunk: sent, hop } => {
                    &&& sent == chunk
                    &&& hop == self.hop_for(chunk.destination)
                    &&& passed(self.chunk_filters@, self.chunk_filters@.len() as int, &chunk)
                },
            }
        } else {
            &&& after == self
            &&& res matches Processed::Rest(d) && d.is_nanos(
                if self.queue@.len() == 0 {
                    0
                } else {
                    self.wait_of(self.queue@[0], now)
                },
            )
        }
    }

    /// Processes the chunk that has waited longest, if it is due at the time `now`. To be called until
    /// there is none that is due.
    pub fn process_chunks(&mut self, now: Duration) -> (res: Processed<P>)
        requires
            old(self).wf(),
            old(self).first_is_due(now) ==> ready(
                old(self).chunk_filters@,
                &old(self).queue@[0].chunk,
            ),
        ensures
            final(self).wf(),
            old(self).chunk_processed(*final(self), now, res),
    {
        let due: u128 = match self.queue.peek() {
            Some(first) => first.timestamp.as_nanos() + self.min_delay.as_nanos(),
            None => {
                return Processed::Rest(Duration::from_nanos(0));
            },
        };
        let now: u128 = now.as_nanos();
        if due > now {
            return Processed::Rest(Duration::from_nanos(due - now));
        }
        match self.queue.pop() {
            Some(first) => {
                let chunk = first.chunk;
                if self.passes_filters(&chunk) {
                    let hop = self.hop(chunk.destination);
                    Processed::Forward { chunk, hop }
                } else {
                    Processed::Filtered(chunk)
                }
            },
            None => Processed::Rest(Duration::from_nanos(0)),
        }
    }
}

} // verus!
