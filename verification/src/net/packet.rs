//! Pre-allocated packet buffers in two rings, one per direction.
//!
//! The interrupt handler fills the receive ring and drains the transmit
//! ring; the network task does the opposite. Each ring is a FIFO with one
//! producer and one consumer: the producer alone moves the head, the
//! consumer alone moves the tail, and a buffer is visible to the consumer
//! only after the producer has published it.

use vstd::prelude::*;
use vstd::slice::slice_subrange;

verus! {

/// Bytes per buffer: a maximal Ethernet frame with some slack.
pub const PACKET_SIZE: usize = 1536;

/// Buffers in the receive ring.
pub const RX_BUFFER_COUNT: usize = 16;

/// Buffers in the transmit ring.
pub const TX_BUFFER_COUNT: usize = 8;

/// Flag of a buffer that holds nothing.
pub const BUFFER_EMPTY: u8 = 0;

/// Flag of a buffer that holds a published frame.
pub const BUFFER_FULL: u8 = 1;

/// Flag of a buffer that is being worked on.
pub const BUFFER_IN_USE: u8 = 2;

/// One packet buffer.
pub struct PacketBuffer {
    /// Storage; always `PACKET_SIZE` bytes.
    pub data: Vec<u8>,
    /// Bytes of `data` that belong to the frame.
    pub len: u16,
    /// One of the `BUFFER_` flags.
    pub flags: u8,
}

/// A ring of packet buffers used as a FIFO.
pub struct Ring {
    /// The buffers.
    pub buffers: Vec<PacketBuffer>,
    /// Next buffer to fill; moved by the producer only.
    pub head: usize,
    /// Next buffer to take; moved by the consumer only.
    pub tail: usize,
}

/// Both rings and the traffic counters.
pub struct PacketPool {
    /// Receive ring: the interrupt handler produces, the network task
    /// consumes.
    pub rx: Ring,
    /// Transmit ring: the network task produces, the driver consumes.
    pub tx: Ring,
    /// Frames received.
    pub rx_count: usize,
    /// Frames queued for transmission.
    pub tx_count: usize,
    /// Frames dropped because the receive ring was full.
    pub rx_dropped: usize,
}

/// The ring position `k` places after `at` in a ring of `cap` slots.
pub open spec fn ring_slot(at: int, k: int, cap: int) -> int {
    if at + k < cap {
        at + k
    } else {
        at + k - cap
    }
}

/// The frame held by a buffer.
pub open spec fn frame_of(b: PacketBuffer) -> Seq<u8> {
    b.data@.subrange(0, b.len as int)
}

impl PacketBuffer {
    /// An empty buffer.
    pub fn new() -> (b: PacketBuffer)
        ensures
            b.data@.len() == PACKET_SIZE,
            forall|k: int| 0 <= k < PACKET_SIZE ==> b.data@[k] == 0,
            b.len == 0,
            b.flags == BUFFER_EMPTY,
    {
        let mut data: Vec<u8> = Vec::new();
        let mut i: usize = 0;
        while i < PACKET_SIZE
            invariant
                i <= PACKET_SIZE,
                data@.len() == i,
                forall|k: int| 0 <= k < i ==> data@[k] == 0,
            decreases PACKET_SIZE - i,
        {
            data.push(0u8);
            i += 1;
        }
        PacketBuffer { data, len: 0, flags: BUFFER_EMPTY }
    }
}

impl Ring {
    /// Number of slots.
    pub open spec fn cap(&self) -> int {
        self.buffers@.len() as int
    }

    /// Number of published frames not yet released.
    pub open spec fn count(&self) -> int {
        if self.head >= self.tail {
            self.head - self.tail
        } else {
            self.head + self.cap() - self.tail
        }
    }

    /// The published frames, oldest first.
    pub open spec fn queue(&self) -> Seq<Seq<u8>> {
        Seq::new(
            self.count() as nat,
            |k: int| frame_of(self.buffers@[ring_slot(self.tail as int, k, self.cap())]),
        )
    }

    /// Whether no further frame can be published: one slot always stays
    /// unused to tell a full ring from an empty one.
    pub open spec fn full(&self) -> bool {
        self.count() == self.cap() - 1
    }

    /// Indices are in range, every buffer has full-size storage and a
    /// length within it, and every published buffer is flagged full.
    pub open spec fn wf(&self) -> bool {
        &&& self.cap() >= 2
        &&& self.head < self.cap()
        &&& self.tail < self.cap()
        &&& forall|i: int|
            0 <= i < self.cap() ==> (#[trigger] self.buffers@[i]).data@.len() == PACKET_SIZE
                && self.buffers@[i].len <= PACKET_SIZE
        &&& forall|k: int|
            0 <= k < self.count() ==> (#[trigger] self.buffers@[ring_slot(
                self.tail as int,
                k,
                self.cap(),
            )]).flags == BUFFER_FULL
    }

    /// An empty ring of `cap` buffers.
    pub fn new(cap: usize) -> (r: Ring)
        requires
            cap >= 2,
        ensures
            r.wf(),
            r.cap() == cap,
            r.head == 0,
            r.tail == 0,
            r.queue() == Seq::<Seq<u8>>::empty(),
    {
        let mut buffers: Vec<PacketBuffer> = Vec::new();
        let mut i: usize = 0;
        while i < cap
            invariant
                i <= cap,
                buffers@.len() == i,
                forall|k: int|
                    0 <= k < i ==> (#[trigger] buffers@[k]).data@.len() == PACKET_SIZE
                        && buffers@[k].len <= PACKET_SIZE,
            decreases cap - i,
        {
            buffers.push(PacketBuffer::new());
            i += 1;
        }
        let r = Ring { buffers, head: 0, tail: 0 };
        proof {
            assert(r.queue() =~= Seq::<Seq<u8>>::empty());
        }
        r
    }

    /// Forgets every published frame.
    pub fn reset(&mut self)
        requires
            old(self).wf(),
        ensures
            final(self).wf(),
            final(self).cap() == old(self).cap(),
            final(self).head == 0,
            final(self).tail == 0,
            final(self).queue() == Seq::<Seq<u8>>::empty(),
    {
        self.head = 0;
        self.tail = 0;
        proof {
            assert(self.queue() =~= Seq::<Seq<u8>>::empty());
        }
    }

    /// The slot that the producer may fill next, unless the ring is full.
    pub fn reserve(&self) -> (r: Option<usize>)
        requires
            self.wf(),
        ensures
            r == (if self.full() {
                None
            } else {
                Some(self.head)
            }),
    {
        let cap: usize = self.buffers.len();
        let next: usize = if self.head + 1 == cap {
            0
        } else {
            self.head + 1
        };
        if next == self.tail {
            None
        } else {
            Some(self.head)
        }
    }

    /// Publishes `frame`: it is copied into the head buffer, which is then
    /// flagged full and handed to the consumer by advancing the head. The
    /// result is the slot used.
    pub fn publish(&mut self, frame: &[u8]) -> (slot: usize)
        requires
            old(self).wf(),
            !old(self).full(),
            frame@.len() <= PACKET_SIZE,
        ensures
            final(self).wf(),
            final(self).cap() == old(self).cap(),
            final(self).tail == old(self).tail,
            final(self).head == ring_slot(old(self).head as int, 1, old(self).cap()),
            final(self).queue() == old(self).queue().push(frame@),
            slot == old(self).head,
    {
        let head: usize = self.head;
        let cap: usize = self.buffers.len();
        let n: usize = frame.len();
        let mut buf: PacketBuffer = PacketBuffer::new();
        let mut i: usize = 0;
        while i < n
            invariant
                n == frame@.len(),
                n <= PACKET_SIZE,
                i <= n,
                buf.data@.len() == PACKET_SIZE,
                forall|k: int| 0 <= k < i ==> buf.data@[k] == frame@[k],
            decreases n - i,
        {
            buf.data.set(i, frame[i]);
            i += 1;
        }
        buf.len = n as u16;
        buf.flags = BUFFER_FULL;
        proof {
            assert(frame_of(buf) =~= frame@);
        }
        self.buffers.set(head, buf);
        self.head = if head + 1 == cap {
            0
        } else {
            head + 1
        };
        proof {
            assert(self.queue() =~= old(self).queue().push(frame@));
        }
        head
    }

    /// The oldest published frame with its length and slot, if there is
    /// one.
    pub fn front(&self) -> (r: Option<(&[u8], usize, usize)>)
        requires
            self.wf(),
        ensures
            match r {
                None => self.queue().len() == 0,
                Some((data, len, slot)) => {
                    &&& self.queue().len() > 0
                    &&& data@ == self.queue()[0]
                    &&& len == data@.len()
                    &&& slot == self.tail
                },
            },
    {
        if self.head == self.tail {
            return None;
        }
        assert(self.buffers@[ring_slot(self.tail as int, 0, self.cap())].flags == BUFFER_FULL);
        let buf: &PacketBuffer = &self.buffers[self.tail];
        if buf.flags != BUFFER_FULL {
            return None;
        }
        let len: usize = buf.len as usize;
        Some((slice_subrange(buf.data.as_slice(), 0, len), len, self.tail))
    }

    /// Releases the oldest published frame: its buffer is flagged empty
    /// and handed back to the producer by advancing the tail.
    pub fn release(&mut self)
        requires
            old(self).wf(),
            old(self).queue().len() > 0,
        ensures
            final(self).wf(),
            final(self).cap() == old(self).cap(),
            final(self).head == old(self).head,
            final(self).tail == ring_slot(old(self).tail as int, 1, old(self).cap()),
            final(self).queue() == old(self).queue().drop_first(),
    {
        let tail: usize = self.tail;
        let cap: usize = self.buffers.len();
        let mut buf: PacketBuffer = PacketBuffer::new();
        buf.flags = BUFFER_EMPTY;
        self.buffers.set(tail, buf);
        self.tail = if tail + 1 == cap {
            0
        } else {
            tail + 1
        };
        proof {
            assert forall|k: int| 0 <= k < self.count() implies (#[trigger] self.buffers@[ring_slot(
                self.tail as int,
                k,
                self.cap(),
            )]).flags == BUFFER_FULL by {
                assert(ring_slot(self.tail as int, k, self.cap()) == ring_slot(
                    tail as int,
                    k + 1,
                    self.cap(),
                ));
                assert(old(self).buffers@[ring_slot(tail as int, k + 1, self.cap())].flags
                    == BUFFER_FULL);
            }
            assert(self.queue() =~= old(self).queue().drop_first()) by {
                assert forall|k: int| 0 <= k < self.count() implies self.queue()[k] == old(self).queue()[k + 1] by {
                    assert(ring_slot(self.tail as int, k, self.cap()) == ring_slot(
                        tail as int,
                        k + 1,
                        self.cap(),
                    ));
                }
            }
        }
    }
}

/// A counter advanced by one, wrapping to zero past the largest value.
pub open spec fn spec_bump(c: usize) -> usize {
    if c == usize::MAX {
        0
    } else {
        (c + 1) as usize
    }
}

/// Advances a traffic counter by one.
pub fn bump(c: usize) -> (r: usize)
    ensures
        r == spec_bump(c),
{
    if c == usize::MAX {
        0
    } else {
        c + 1
    }
}

impl PacketPool {
    /// Both rings are well formed and have their fixed sizes.
    pub open spec fn wf(&self) -> bool {
        &&& self.rx.wf()
        &&& self.tx.wf()
        &&& self.rx.cap() == RX_BUFFER_COUNT
        &&& self.tx.cap() == TX_BUFFER_COUNT
    }

    /// Received frames waiting for the network task, oldest first.
    pub open spec fn rx_queue(&self) -> Seq<Seq<u8>> {
        self.rx.queue()
    }

    /// Frames waiting for the driver, oldest first.
    pub open spec fn tx_queue(&self) -> Seq<Seq<u8>> {
        self.tx.queue()
    }

    /// A pool with empty rings and zeroed counters.
    pub fn new() -> (p: PacketPool)
        ensures
            p.wf(),
            p.rx_queue().len() == 0,
            p.tx_queue().len() == 0,
            p.rx_count == 0,
            p.tx_count == 0,
            p.rx_dropped == 0,
    {
        PacketPool {
            rx: Ring::new(RX_BUFFER_COUNT),
            tx: Ring::new(TX_BUFFER_COUNT),
            rx_count: 0,
            tx_count: 0,
            rx_dropped: 0,
        }
    }
}

/// Empties both rings and zeroes the counters.
pub fn init(pool: &mut PacketPool)
    requires
        old(pool).wf(),
    ensures
        final(pool).wf(),
        final(pool).rx_queue().len() == 0,
        final(pool).tx_queue().len() == 0,
        final(pool).rx_count == 0,
        final(pool).tx_count == 0,
        final(pool).rx_dropped == 0,
{
    pool.rx.reset();
    pool.tx.reset();
    pool.rx_count = 0;
    pool.tx_count = 0;
    pool.rx_dropped = 0;
}

/// Interrupt side: the slot to receive the next frame into. When the
/// receive ring is full there is none, and the frame counts as dropped.
pub fn get_rx_buffer_for_write(pool: &mut PacketPool) -> (r: Option<usize>)
    requires
        old(pool).wf(),
    ensures
        final(pool).wf(),
        final(pool).rx == old(pool).rx,
        final(pool).tx == old(pool).tx,
        final(pool).rx_count == old(pool).rx_count,
        final(pool).tx_count == old(pool).tx_count,
        old(pool).rx.full() ==> r.is_none() && final(pool).rx_dropped == spec_bump(
            old(pool).rx_dropped,
        ),
        !old(pool).rx.full()
            ==> r == Some(old(pool).rx.head) && final(pool).rx_dropped == old(pool).rx_dropped,
{
    match pool.rx.reserve() {
        None => {
            pool.rx_dropped = bump(pool.rx_dropped);
            None
        },
        Some(slot) => Some(slot),
    }
}

/// Interrupt side: publishes a received frame to the network task.
pub fn rx_buffer_ready(pool: &mut PacketPool, frame: &[u8])
    requires
        old(pool).wf(),
        !old(pool).rx.full(),
        frame@.len() <= PACKET_SIZE,
    ensures
        final(pool).wf(),
        final(pool).rx_queue() == old(pool).rx_queue().push(frame@),
        final(pool).tx == old(pool).tx,
        final(pool).rx_count == spec_bump(old(pool).rx_count),
        final(pool).tx_count == old(pool).tx_count,
        final(pool).rx_dropped == old(pool).rx_dropped,
{
    pool.rx.publish(frame);
    pool.rx_count = bump(pool.rx_count);
}

/// Task side: the oldest received frame, with its length.
pub fn get_rx_packet(pool: &PacketPool) -> (r: Option<(&[u8], usize)>)
    requires
        pool.wf(),
    ensures
        match r {
            None => pool.rx_queue().len() == 0,
            Some((data, len)) => pool.rx_queue().len() > 0 && data@ == pool.rx_queue()[0] && len
                == data@.len(),
        },
{
    match pool.rx.front() {
        None => None,
        Some((data, len, _)) => Some((data, len)),
    }
}

/// Task side: hands the oldest received frame's buffer back.
pub fn release_rx_buffer(pool: &mut PacketPool)
    requires
        old(pool).wf(),
        old(pool).rx_queue().len() > 0,
    ensures
        final(pool).wf(),
        final(pool).rx_queue() == old(pool).rx_queue().drop_first(),
        final(pool).tx == old(pool).tx,
        final(pool).rx_count == old(pool).rx_count,
        final(pool).tx_count == old(pool).tx_count,
        final(pool).rx_dropped == old(pool).rx_dropped,
{
    pool.rx.release();
}

/// Task side: the slot to build the next outgoing frame in, unless the
/// transmit ring is full.
pub fn get_tx_buffer(pool: &PacketPool) -> (r: Option<usize>)
    requires
        pool.wf(),
    ensures
        r == (if pool.tx.full() {
            None
        } else {
            Some(pool.tx.head)
        }),
{
    pool.tx.reserve()
}

/// Task side: queues an outgoing frame for the driver. The result is the
/// slot used.
pub fn tx_buffer_ready(pool: &mut PacketPool, frame: &[u8]) -> (slot: usize)
    requires
        old(pool).wf(),
        !old(pool).tx.full(),
        frame@.len() <= PACKET_SIZE,
    ensures
        final(pool).wf(),
        final(pool).tx_queue() == old(pool).tx_queue().push(frame@),
        final(pool).rx == old(pool).rx,
        final(pool).tx_count == spec_bump(old(pool).tx_count),
        final(pool).rx_count == old(pool).rx_count,
        final(pool).rx_dropped == old(pool).rx_dropped,
        slot == old(pool).tx.head,
{
    let slot: usize = pool.tx.publish(frame);
    pool.tx_count = bump(pool.tx_count);
    slot
}

/// Driver side: the oldest queued frame, with its length and slot.
pub fn get_tx_packet(pool: &PacketPool) -> (r: Option<(&[u8], usize, usize)>)
    requires
        pool.wf(),
    ensures
        match r {
            None => pool.tx_queue().len() == 0,
            Some((data, len, slot)) => pool.tx_queue().len() > 0 && data@ == pool.tx_queue()[0]
                && len == data@.len() && slot == pool.tx.tail,
        },
{
    pool.tx.front()
}

/// Driver side: the oldest queued frame has been transmitted.
pub fn tx_complete(pool: &mut PacketPool)
    requires
        old(pool).wf(),
        old(pool).tx_queue().len() > 0,
    ensures
        final(pool).wf(),
        final(pool).tx_queue() == old(pool).tx_queue().drop_first(),
        final(pool).rx == old(pool).rx,
        final(pool).rx_count == old(pool).rx_count,
        final(pool).tx_count == old(pool).tx_count,
        final(pool).rx_dropped == old(pool).rx_dropped,
{
    pool.tx.release();
}

/// Frames received, frames queued for transmission, frames dropped.
pub fn stats(pool: &PacketPool) -> (r: (usize, usize, usize))
    ensures
        r == (pool.rx_count, pool.tx_count, pool.rx_dropped),
{
    (pool.rx_count, pool.tx_count, pool.rx_dropped)
}

/// Whether a received frame waits for the network task.
pub fn has_rx_pending(pool: &PacketPool) -> (r: bool)
    requires
        pool.wf(),
    ensures
        r == (pool.rx_queue().len() > 0),
{
    pool.rx.head != pool.rx.tail
}

/// Whether a frame waits for the driver.
pub fn has_tx_pending(pool: &PacketPool) -> (r: bool)
    requires
        pool.wf(),
    ensures
        r == (pool.tx_queue().len() > 0),
{
    pool.tx.head != pool.tx.tail
}

/// One step of a ring's life, seen from outside.
pub enum RingOp {
    /// The producer offers a frame; a full ring refuses it.
    Offer(Seq<u8>),
    /// The consumer takes the oldest frame; an empty ring has none.
    Take,
}

/// The queue after the first `n` steps of `ops` on a ring of `cap` slots.
pub open spec fn queue_after(queue: Seq<Seq<u8>>, cap: int, ops: Seq<RingOp>, n: int) -> Seq<Seq<u8>>
    decreases n,
{
    if n <= 0 {
        queue
    } else {
        let q = queue_after(queue, cap, ops, n - 1);
        match ops[n - 1] {
            RingOp::Offer(frame) => if q.len() == cap - 1 {
                q
            } else {
                q.push(frame)
            },
            RingOp::Take => if q.len() == 0 {
                q
            } else {
                q.drop_first()
            },
        }
    }
}

/// The frames that the producer got accepted in the first `n` steps.
pub open spec fn accepted_after(queue: Seq<Seq<u8>>, cap: int, ops: Seq<RingOp>, n: int) -> Seq<
    Seq<u8>,
>
    decreases n,
{
    if n <= 0 {
        Seq::empty()
    } else {
        let q = queue_after(queue, cap, ops, n - 1);
        let a = accepted_after(queue, cap, ops, n - 1);
        match ops[n - 1] {
            RingOp::Offer(frame) => if q.len() == cap - 1 {
                a
            } else {
                a.push(frame)
            },
            RingOp::Take => a,
        }
    }
}

/// The frames that the consumer took in the first `n` steps.
pub open spec fn taken_after(queue: Seq<Seq<u8>>, cap: int, ops: Seq<RingOp>, n: int) -> Seq<Seq<u8>>
    decreases n,
{
    if n <= 0 {
        Seq::empty()
    } else {
        let q = queue_after(queue, cap, ops, n - 1);
        let t = taken_after(queue, cap, ops, n - 1);
        match ops[n - 1] {
            RingOp::Offer(_) => t,
            RingOp::Take => if q.len() == 0 {
                t
            } else {
                t.push(q[0])
            },
        }
    }
}

/// Whatever way offers and takes interleave, the consumer sees exactly the
/// frames in the ring at the start followed by the accepted frames, in
/// that order and without gaps: what it has taken, followed by what still
/// waits, is what was there followed by what the producer published.
pub proof fn lemma_ring_fifo(queue: Seq<Seq<u8>>, cap: int, ops: Seq<RingOp>, n: int)
    requires
        0 <= n <= ops.len(),
    ensures
        taken_after(queue, cap, ops, n) + queue_after(queue, cap, ops, n) == queue + accepted_after(
            queue,
            cap,
            ops,
            n,
        ),
    decreases n,
{
    if n > 0 {
        lemma_ring_fifo(queue, cap, ops, n - 1);
        let q = queue_after(queue, cap, ops, n - 1);
        let a = accepted_after(queue, cap, ops, n - 1);
        let t = taken_after(queue, cap, ops, n - 1);
        assert(t + q == queue + a);
        match ops[n - 1] {
            RingOp::Offer(frame) => {
                if q.len() != cap - 1 {
                    assert(t + q.push(frame) =~= (t + q).push(frame));
                    assert(queue + a.push(frame) =~= (queue + a).push(frame));
                }
            },
            RingOp::Take => {
                if q.len() != 0 {
                    assert(t.push(q[0]) + q.drop_first() =~= t + q);
                }
            },
        }
    } else {
        assert(Seq::<Seq<u8>>::empty() + queue =~= queue + Seq::<Seq<u8>>::empty());
    }
}

} // verus!
