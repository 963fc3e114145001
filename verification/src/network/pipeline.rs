//! The ingestion pipeline: a bounded queue of received datagrams and a bound
//! on how many of them are processed at once.
//!
//! The pipeline decides; it does no input or output. The receive loop offers
//! each datagram it has read and learns whether it was queued or dropped. The
//! worker asks for the next datagram to process and gets one where a permit
//! is free; whoever finishes processing a datagram releases the permit.

use std::collections::VecDeque;
use vstd::prelude::*;
use crate::network::endpoint::Endpoint;

verus! {

/// How many datagrams may wait between the receive loop and the worker.
pub const CHANNEL_CAPACITY: usize = 1000;

/// How many datagrams may be in processing at the same time.
pub const MAX_IN_FLIGHT: usize = 1000;

/// How many bytes of one datagram are read. A longer datagram is cut to this
/// length by the receive buffer, not refused.
pub const MAX_DATAGRAM: usize = 1024;

/// One received datagram: its length, its sender and its bytes.
#[derive(Debug)]
pub struct Packet {
    pub len: usize,
    pub addr: Endpoint,
    pub bytes: Vec<u8>,
}

impl Packet {
    /// Whether the packet is what a read of `len` bytes from `addr` into a
    /// buffer holding `buf` gives: the length, the sender, and exactly the
    /// bytes received.
    pub open spec fn captures(self, buf: Seq<u8>, len: usize, addr: Endpoint) -> bool {
        &&& self.len == len
        &&& self.addr == addr
        &&& self.bytes@ == buf.subrange(0, len as int)
    }

    /// The packet for a read of `len` bytes from `addr` into `buf`: an owned
    /// copy of exactly the bytes received.
    pub fn capture(buf: &[u8], len: usize, addr: Endpoint) -> (packet: Packet)
        requires
            len <= buf@.len(),
        ensures
            packet.captures(buf@, len, addr),
    {
        let mut bytes: Vec<u8> = Vec::new();
        let mut i: usize = 0;
        while i < len
            invariant
                i <= len,
                len <= buf@.len(),
                bytes@ == buf@.subrange(0, i as int),
            decreases len - i,
        {
            bytes.push(buf[i]);
            assert(bytes@ =~= buf@.subrange(0, i + 1));
            i += 1;
        }
        Packet { len, addr, bytes }
    }
}

/// The pipeline as plain mathematics.
pub ghost struct PipelineState {
    /// The datagrams that wait, oldest first.
    pub pending: Seq<Packet>,
    /// How many datagrams may wait.
    pub capacity: nat,
    /// How many datagrams may be in processing at once.
    pub permits: nat,
    /// How many datagrams are in processing now.
    pub in_flight: nat,
}

impl PipelineState {
    /// The admission bound: no more datagrams wait than the capacity, and no
    /// more are in processing than there are permits.
    pub open spec fn bounded(self) -> bool {
        self.pending.len() <= self.capacity && self.in_flight <= self.permits
    }

    /// Whether a datagram offered now is queued rather than dropped.
    pub open spec fn has_room(self) -> bool {
        self.pending.len() < self.capacity
    }

    /// Whether the worker can start a datagram now: one waits and a permit is
    /// free.
    pub open spec fn can_start(self) -> bool {
        self.pending.len() > 0 && self.in_flight < self.permits
    }

    /// The state after `packet` was offered: queued behind the others where
    /// there is room, dropped otherwise.
    pub open spec fn offered(self, packet: Packet) -> PipelineState {
        if self.has_room() {
            PipelineState { pending: self.pending.push(packet), ..self }
        } else {
            self
        }
    }

    /// The state after the worker asked for a datagram: where one can
    /// start, the oldest leaves the queue and takes a permit.
    pub open spec fn started(self) -> PipelineState {
        if self.can_start() {
            PipelineState {
                pending: self.pending.skip(1),
                in_flight: self.in_flight + 1,
                ..self
            }
        } else {
            self
        }
    }

    /// The state after one datagram finished processing: its permit is free
    /// again.
    pub open spec fn released(self) -> PipelineState {
        if self.in_flight > 0 {
            PipelineState { in_flight: (self.in_flight - 1) as nat, ..self }
        } else {
            self
        }
    }

    /// Every step keeps the admission bound, and none changes the limits.
    pub proof fn lemma_steps_keep_bound(self, packet: Packet)
        requires
            self.bounded(),
        ensures
            self.offered(packet).bounded(),
            self.started().bounded(),
            self.released().bounded(),
            self.offered(packet).capacity == self.capacity && self.offered(packet).permits
                == self.permits,
            self.started().capacity == self.capacity && self.started().permits == self.permits,
            self.released().capacity == self.capacity && self.released().permits == self.permits,
    {
    }
}

/// One step of the pipeline.
pub ghost enum PipelineStep {
    /// The receive loop offers a datagram.
    Offer(Packet),
    /// The worker asks for the next datagram.
    Start,
    /// A unit of work ends.
    Release,
}

impl PipelineState {
    /// The pipeline of the server before the first datagram.
    pub open spec fn initial() -> PipelineState {
        PipelineState {
            pending: Seq::empty(),
            capacity: CHANNEL_CAPACITY as nat,
            permits: MAX_IN_FLIGHT as nat,
            in_flight: 0,
        }
    }

    /// The state after one step.
    pub open spec fn stepped(self, step: PipelineStep) -> PipelineState {
        match step {
            PipelineStep::Offer(packet) => self.offered(packet),
            PipelineStep::Start => self.started(),
            PipelineStep::Release => self.released(),
        }
    }

    /// The state after the steps of `steps`, in order.
    pub open spec fn run(self, steps: Seq<PipelineStep>) -> PipelineState
        decreases steps.len(),
    {
        if steps.len() == 0 {
            self
        } else {
            self.run(steps.drop_last()).stepped(steps.last())
        }
    }

    /// The admission bound. However datagrams arrive and however long their
    /// processing takes, at no instant are more than `MAX_IN_FLIGHT` of them
    /// in processing, and at no instant do more than `CHANNEL_CAPACITY` wait:
    /// what does not fit is dropped.
    pub proof fn lemma_admission_bound(steps: Seq<PipelineStep>)
        ensures
            Self::initial().run(steps).in_flight <= MAX_IN_FLIGHT,
            Self::initial().run(steps).pending.len() <= CHANNEL_CAPACITY,
            Self::initial().run(steps).capacity == CHANNEL_CAPACITY,
            Self::initial().run(steps).permits == MAX_IN_FLIGHT,
        decreases steps.len(),
    {
        if steps.len() > 0 {
            Self::lemma_admission_bound(steps.drop_last());
        }
    }
}

/// The bounded queue between the receive loop and the worker, with the count
/// of datagrams in processing.
pub struct Pipeline {
    pending: VecDeque<Packet>,
    capacity: usize,
    permits: usize,
    in_flight: usize,
}

impl View for Pipeline {
    type V = PipelineState;

    closed spec fn view(&self) -> PipelineState {
        PipelineState {
            pending: self.pending@,
            capacity: self.capacity as nat,
            permits: self.permits as nat,
            in_flight: self.in_flight as nat,
        }
    }
}

impl Pipeline {
    /// Well-formedness: the admission bound holds.
    pub closed spec fn wf(&self) -> bool {
        self@.bounded()
    }

    /// A well-formed pipeline is within its bounds.
    pub proof fn lemma_bounded(&self)
        requires
            self.wf(),
        ensures
            self@.bounded(),
            self@.capacity <= usize::MAX,
            self@.permits <= usize::MAX,
    {
    }

    /// An empty pipeline with the limits of the server: room for
    /// `CHANNEL_CAPACITY` waiting datagrams and `MAX_IN_FLIGHT` permits.
    pub fn new() -> (pipeline: Pipeline)
        ensures
            pipeline.wf(),
            pipeline@ == PipelineState::initial(),
    {
        Pipeline::with_limits(CHANNEL_CAPACITY, MAX_IN_FLIGHT)
    }

    /// An empty pipeline with room for `capacity` waiting datagrams and with
    /// `permits` permits.
    pub fn with_limits(capacity: usize, permits: usize) -> (pipeline: Pipeline)
        ensures
            pipeline.wf(),
            pipeline@ == (PipelineState {
                pending: Seq::empty(),
                capacity: capacity as nat,
                permits: permits as nat,
                in_flight: 0,
            }),
    {
        Pipeline { pending: VecDeque::new(), capacity, permits, in_flight: 0 }
    }

    /// How many datagrams wait.
    pub fn pending(&self) -> (n: usize)
        ensures
            n == self@.pending.len(),
    {
        self.pending.len()
    }

    /// How many datagrams are in processing.
    pub fn in_flight(&self) -> (n: usize)
        ensures
            n == self@.in_flight,
    {
        self.in_flight
    }

    /// How many permits are free.
    pub fn available_permits(&self) -> (n: usize)
        requires
            self.wf(),
        ensures
            n == self@.permits - self@.in_flight,
    {
        self.permits - self.in_flight
    }

    /// Offers a received datagram. Returns whether it was queued; where the
    /// queue is full the datagram is dropped and nothing changes.
    pub fn offer(&mut self, packet: Packet) -> (queued: bool)
        requires
            old(self).wf(),
        ensures
            final(self).wf(),
            queued == old(self)@.has_room(),
            final(self)@ == old(self)@.offered(packet),
    {
        if self.pending.len() < self.capacity {
            self.pending.push_back(packet);
            true
        } else {
            false
        }
    }

    /// Offers the datagram of a read of `len` bytes from `addr` into `buf`.
    /// Returns whether it was queued.
    pub fn receive(&mut self, buf: &[u8], len: usize, addr: Endpoint) -> (queued: bool)
        requires
            old(self).wf(),
            len <= buf@.len(),
        ensures
            final(self).wf(),
            queued == old(self)@.has_room(),
            exists|packet: Packet|
                packet.captures(buf@, len, addr) && final(self)@ == #[trigger] old(self)@.offered(
                    packet,
                ),
    {
        let packet = Packet::capture(buf, len, addr);
        let ghost offered = packet;
        let queued = self.offer(packet);
        assert(self@ == old(self)@.offered(offered));
        queued
    }

    /// Hands the worker the oldest waiting datagram and takes a permit for
    /// it, where a datagram waits and a permit is free; else hands out nothing
    /// and changes nothing.
    pub fn start_next(&mut self) -> (next: Option<Packet>)
        requires
            old(self).wf(),
        ensures
            final(self).wf(),
            next is Some <==> old(self)@.can_start(),
            next matches Some(packet) ==> packet == old(self)@.pending[0],
            final(self)@ == old(self)@.started(),
    {
        if self.in_flight < self.permits {
            let next = self.pending.pop_front();
            if next.is_some() {
                self.in_flight = self.in_flight + 1;
                assert(self.pending@ =~= old(self).pending@.skip(1));
            }
            next
        } else {
            None
        }
    }

    /// Gives back the permit of a datagram whose processing has ended,
    /// whether it succeeded or not. With nothing in processing nothing
    /// changes.
    pub fn release(&mut self)
        requires
            old(self).wf(),
        ensures
            final(self).wf(),
            final(self)@ == old(self)@.released(),
    {
        if self.in_flight > 0 {
            self.in_flight = self.in_flight - 1;
        }
    }
}

} // verus!
