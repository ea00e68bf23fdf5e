//! Chunks, and the queue in which they wait in a router.
use std::collections::VecDeque;
use vstd::prelude::*;

use crate::addr::IpAddr;
use crate::config::Duration;

verus! {

/// What travels through routers: a payload on its way to an address.
#[derive(Debug)]
pub struct Chunk<P> {
    pub destination: IpAddr,
    pub payload: P,
}

/// A chunk with the time at which the router took it in.
#[derive(Debug)]
pub struct Stamped<P> {
    pub timestamp: Duration,
    pub chunk: Chunk<P>,
}

/// A first-in, first-out queue of chunks.
#[derive(Debug)]
pub struct ChunkQueue<P> {
    pub chunks: VecDeque<Stamped<P>>,
    /// How many chunks the queue holds. Zero stands for any number.
    pub max_size: usize,
}

impl<P> View for ChunkQueue<P> {
    type V = Seq<Stamped<P>>;

    open spec fn view(&self) -> Seq<Stamped<P>> {
        self.chunks@
    }
}

impl<P> ChunkQueue<P> {
    /// The queue keeps its bound.
    pub open spec fn wf(self) -> bool {
        self.max_size > 0 ==> self@.len() <= self.max_size
    }

    /// The queue takes no more chunks.
    pub open spec fn full(self) -> bool {
        self.max_size > 0 && self@.len() >= self.max_size
    }

    /// Makes an empty queue.
    pub fn new(max_size: usize) -> (res: Self)
        ensures
            res.wf(),
            res@ == Seq::<Stamped<P>>::empty(),
            res.max_size == max_size,
    {
        ChunkQueue { chunks: VecDeque::new(), max_size }
    }

    /// Puts a chunk behind the others, unless the queue is full. Says whether it did.
    pub fn push(&mut self, chunk: Stamped<P>) -> (res: bool)
        requires
            old(self).wf(),
        ensures
            final(self).wf(),
            final(self).max_size == old(self).max_size,
            res == !old(self).full(),
            final(self)@ == if res { old(self)@.push(chunk) } else { old(self)@ },
    {
        if self.max_size > 0 && self.chunks.len() >= self.max_size {
            false
        } else {
            self.chunks.push_back(chunk);
            true
        }
    }

    /// The chunk that has waited longest, if there is one.
    pub fn peek(&self) -> (res: Option<&Stamped<P>>)
        ensures
            match res {
                Some(first) => self@.len() > 0 && *first == self@[0],
                None => self@.len() == 0,
            },
    {
        if self.chunks.len() == 0 {
            None
        } else {
            Some(&self.chunks[0])
        }
    }

    /// Takes out the chunk that has waited longest, if there is one.
    pub fn pop(&mut self) -> (res: Option<Stamped<P>>)
        requires
            old(self).wf(),
        ensures
            final(self).wf(),
            final(self).max_size == old(self).max_size,
            match res {
                Some(first) => {
                    &&& old(self)@.len() > 0
                    &&& first == old(self)@[0]
                    &&& final(self)@ == old(self)@.drop_first()
                },
                None => old(self)@.len() == 0 && final(self)@ == old(self)@,
            },
    {
        self.chunks.pop_front()
    }
}

} // verus!
