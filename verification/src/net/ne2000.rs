//! NE2000 network controller: the decisions of the driver.
//!
//! The driver's port traffic is done by its caller. What is decided here
//! is what an interrupt status asks for, what to do with a packet header
//! read from the controller's receive ring, how the words of a remote
//! DMA transfer map to the bytes of a frame, and how a frame is laid out
//! for transmission.

use vstd::prelude::*;
use crate::net::packet::{rx_buffer_ready, spec_bump, PacketPool, PACKET_SIZE};

verus! {

/// First page of the transmit buffer in the controller's memory.
pub const TX_START: u8 = 0x40;

/// Pages of the transmit buffer.
pub const TX_PAGES: u8 = 6;

/// First page of the receive ring.
pub const RX_START: u8 = 0x46;

/// One past the last page of the receive ring.
pub const RX_STOP: u8 = 0x80;

/// Page into which a freshly started controller writes its first packet:
/// the one behind the boundary page, which starts at `RX_START`.
pub const RX_FIRST: u8 = 0x47;

/// Interrupt status: packet received.
pub const ISR_PRX: u8 = 0x01;

/// Interrupt status: packet transmitted.
pub const ISR_PTX: u8 = 0x02;

/// Interrupt status: receive error.
pub const ISR_RXE: u8 = 0x04;

/// Interrupt status: transmit error.
pub const ISR_TXE: u8 = 0x08;

/// Interrupt status: receive ring overwritten.
pub const ISR_OVW: u8 = 0x10;

/// The interrupts that the driver enables and acknowledges: packet
/// received, packet transmitted, both errors and the overwrite warning.
pub const INTERRUPT_MASK: u8 = 0x1F;

/// Bytes of the header that the controller puts in front of each packet.
pub const RX_HEADER_SIZE: usize = 4;

/// Longest frame accepted for transmission: a maximal Ethernet frame,
/// which fits the six pages of the transmit buffer.
pub const MAX_TX_SIZE: usize = 1514;

/// Shortest frame on the wire; shorter frames are padded with zeros.
pub const MIN_TX_SIZE: usize = 60;

/// State of the driver.
pub struct Ne2000 {
    /// I/O base address.
    pub iobase: u16,
    /// Hardware address read from the controller.
    pub mac: [u8; 6],
    /// Page at which the next packet is expected.
    pub next_pkt: u8,
    /// Whether the controller has been started.
    pub initialized: bool,
}

/// What an interrupt status asks for.
#[derive(Debug, Clone, Copy, PartialEq, Eq, Structural)]
pub struct InterruptActions {
    /// Read the packets that wait in the controller's receive ring.
    pub receive: bool,
    /// Tell the packet pool that a transmission has completed.
    pub tx_complete: bool,
    /// Start the receive ring afresh: the controller has overwritten
    /// packets that were not read.
    pub reset_ring: bool,
    /// The status bits to acknowledge.
    pub acknowledge: u8,
}

/// What to do with a packet in the controller's receive ring.
#[derive(Debug, Clone, Copy, PartialEq, Eq, Structural)]
pub enum RxDecision {
    /// Pass over it.
    Skip,
    /// Read `data_len` bytes behind its header into a packet buffer.
    Accept { data_len: usize },
}

/// The boundary page that belongs to a next-packet page: the page in
/// front of it, going round the receive ring.
pub open spec fn spec_boundary(next: u8) -> u8 {
    if next == RX_START {
        (RX_STOP - 1) as u8
    } else if next == 0 {
        255
    } else {
        (next - 1) as u8
    }
}

/// The decision on a packet whose header announces `len` bytes: a length
/// that cannot be a packet is passed over, and so is a packet for which
/// no buffer is free.
pub open spec fn spec_rx_decision(len: usize, buffer_free: bool) -> RxDecision {
    if len < RX_HEADER_SIZE || len > PACKET_SIZE || !buffer_free {
        RxDecision::Skip
    } else {
        RxDecision::Accept { data_len: (len - RX_HEADER_SIZE) as usize }
    }
}

/// The first `n` bytes carried by 16-bit words, low byte first.
pub open spec fn spec_unpack(words: Seq<u16>, n: int) -> Seq<u8> {
    Seq::new(
        n as nat,
        |i: int|
            if i % 2 == 0 {
                (words[i / 2] % 256) as u8
            } else {
                (words[i / 2] / 256) as u8
            },
    )
}

/// Bytes that go out for a frame of `len` bytes.
pub open spec fn spec_tx_len(len: int) -> int {
    if len < MIN_TX_SIZE {
        MIN_TX_SIZE as int
    } else {
        len
    }
}

/// Byte `i` of a frame padded with zeros.
pub open spec fn padded(data: Seq<u8>, i: int) -> u8 {
    if i < data.len() {
        data[i]
    } else {
        0
    }
}

/// The words written to the controller for a frame: its bytes in pairs,
/// low byte first, padded with zeros to the minimum length.
pub open spec fn spec_tx_words(data: Seq<u8>) -> Seq<u16> {
    Seq::new(
        ((spec_tx_len(data.len() as int) + 1) / 2) as nat,
        |k: int| (padded(data, 2 * k) + padded(data, 2 * k + 1) * 256) as u16,
    )
}

impl Ne2000 {
    /// A driver for the controller at `iobase` that has not been started.
    pub fn new(iobase: u16) -> (nic: Ne2000)
        ensures
            nic.iobase == iobase,
            nic.mac@ == seq![0u8, 0u8, 0u8, 0u8, 0u8, 0u8],
            nic.next_pkt == RX_START,
            !nic.initialized,
    {
        Ne2000 { iobase, mac: [0u8, 0u8, 0u8, 0u8, 0u8, 0u8], next_pkt: RX_START, initialized: false }
    }
}

/// The hardware address in the first six words read from the
/// controller's PROM, which holds each byte of it in a word of its own.
pub fn mac_from_prom(words: &[u16; 6]) -> (mac: [u8; 6])
    ensures
        forall|i: int| 0 <= i < 6 ==> (#[trigger] mac@[i]) == words@[i] % 256,
{
    [
        (words[0] % 256) as u8,
        (words[1] % 256) as u8,
        (words[2] % 256) as u8,
        (words[3] % 256) as u8,
        (words[4] % 256) as u8,
        (words[5] % 256) as u8,
    ]
}

/// Records that the controller has been started with an empty receive
/// ring and reports `mac` as its hardware address.
pub fn init(nic: &mut Ne2000, mac: [u8; 6])
    ensures
        final(nic).initialized,
        final(nic).mac == mac,
        final(nic).next_pkt == RX_FIRST,
        final(nic).iobase == old(nic).iobase,
{
    nic.mac = mac;
    nic.next_pkt = RX_FIRST;
    nic.initialized = true;
}

/// Starts the receive ring afresh after an overwrite; the packets in it
/// are given up. The result is the boundary page and the current page to
/// program into the controller.
pub fn reset_ring(nic: &mut Ne2000) -> (pages: (u8, u8))
    ensures
        pages == (RX_START, RX_FIRST),
        final(nic).next_pkt == RX_FIRST,
        final(nic).iobase == old(nic).iobase,
        final(nic).mac == old(nic).mac,
        final(nic).initialized == old(nic).initialized,
{
    nic.next_pkt = RX_FIRST;
    (RX_START, RX_FIRST)
}

/// The hardware address of the controller.
pub fn mac_address(nic: &Ne2000) -> (mac: [u8; 6])
    ensures
        mac == nic.mac,
{
    nic.mac
}

/// Whether the controller has been started.
pub fn is_initialized(nic: &Ne2000) -> (r: bool)
    ensures
        r == nic.initialized,
{
    nic.initialized
}

/// What the interrupt status `isr` asks for. The caller acts on it, reads
/// the status again and goes on until there is nothing left to
/// acknowledge.
pub fn handle_interrupt(isr: u8) -> (a: InterruptActions)
    ensures
        a.receive == ((isr & ISR_PRX) != 0),
        a.tx_complete == ((isr & ISR_PTX) != 0),
        a.reset_ring == ((isr & ISR_OVW) != 0),
        a.acknowledge == isr & INTERRUPT_MASK,
        (a.acknowledge == 0) == (isr % 32 == 0),
{
    proof {
        assert((isr & 0x1Fu8 == 0) == (isr % 32 == 0)) by (bit_vector);
    }
    InterruptActions {
        receive: (isr & ISR_PRX) != 0,
        tx_complete: (isr & ISR_PTX) != 0,
        reset_ring: (isr & ISR_OVW) != 0,
        acknowledge: isr & INTERRUPT_MASK,
    }
}

/// Whether the controller holds a packet that has not been read, given
/// the page it will write next.
pub fn has_packet(nic: &Ne2000, curr: u8) -> (r: bool)
    ensures
        r == (curr != nic.next_pkt),
{
    curr != nic.next_pkt
}

/// Decides on the packet at the next-packet page from its header: the
/// page of the packet behind it and its length. The driver moves on to
/// that page either way; the second result is the boundary page to
/// program once the packet has been dealt with.
pub fn receive_packets(nic: &mut Ne2000, pool: &mut PacketPool, next: u8, len: usize) -> (r: (
    RxDecision,
    u8,
))
    requires
        old(pool).wf(),
    ensures
        final(pool).wf(),
        final(nic).next_pkt == next,
        final(nic).iobase == old(nic).iobase,
        final(nic).mac == old(nic).mac,
        final(nic).initialized == old(nic).initialized,
        r.1 == spec_boundary(next),
        r.0 == spec_rx_decision(len, !old(pool).rx.full()),
        final(pool).rx == old(pool).rx,
        final(pool).tx == old(pool).tx,
        final(pool).rx_count == old(pool).rx_count,
        final(pool).tx_count == old(pool).tx_count,
        final(pool).rx_dropped == (if len < RX_HEADER_SIZE || len > PACKET_SIZE || !old(pool).rx.full() {
            old(pool).rx_dropped
        } else {
            spec_bump(old(pool).rx_dropped)
        }),
{
    nic.next_pkt = next;
    let boundary: u8 = if next == RX_START {
        RX_STOP - 1
    } else if next == 0 {
        255
    } else {
        next - 1
    };
    if len < RX_HEADER_SIZE || len > PACKET_SIZE {
        return (RxDecision::Skip, boundary);
    }
    match crate::net::packet::get_rx_buffer_for_write(pool) {
        None => (RxDecision::Skip, boundary),
        Some(_) => (RxDecision::Accept { data_len: len - RX_HEADER_SIZE }, boundary),
    }
}

/// The bytes of a packet from the words of the transfer that read it.
pub fn unpack(words: &[u16], data_len: usize) -> (out: Vec<u8>)
    requires
        data_len <= 2 * words@.len(),
    ensures
        out@ == spec_unpack(words@, data_len as int),
{
    let mut out: Vec<u8> = Vec::new();
    let mut i: usize = 0;
    while i < data_len
        invariant
            i <= data_len,
            data_len <= 2 * words@.len(),
            out@.len() == i,
            forall|k: int| 0 <= k < i ==> out@[k] == spec_unpack(words@, data_len as int)[k],
        decreases data_len - i,
    {
        let w: u16 = words[i / 2];
        let b: u8 = if i % 2 == 0 {
            (w % 256) as u8
        } else {
            (w / 256) as u8
        };
        out.push(b);
        i += 1;
    }
    proof {
        assert(out@ =~= spec_unpack(words@, data_len as int));
    }
    out
}

/// Publishes a packet that was read from the controller to the network
/// task.
pub fn store_received(pool: &mut PacketPool, words: &[u16], data_len: usize)
    requires
        old(pool).wf(),
        !old(pool).rx.full(),
        data_len <= PACKET_SIZE,
        data_len <= 2 * words@.len(),
    ensures
        final(pool).wf(),
        final(pool).rx_queue() == old(pool).rx_queue().push(spec_unpack(words@, data_len as int)),
        final(pool).tx == old(pool).tx,
        final(pool).rx_count == spec_bump(old(pool).rx_count),
        final(pool).tx_count == old(pool).tx_count,
        final(pool).rx_dropped == old(pool).rx_dropped,
{
    let bytes: Vec<u8> = unpack(words, data_len);
    rx_buffer_ready(pool, bytes.as_slice());
}

/// Lays a frame out for transmission: the words to write to the
/// controller's transmit buffer, padded to the minimum frame length.
/// `None` for a frame longer than the controller accepts.
pub fn send(data: &[u8]) -> (r: Option<Vec<u16>>)
    ensures
        match r {
            None => data@.len() > MAX_TX_SIZE,
            Some(words) => data@.len() <= MAX_TX_SIZE && words@ == spec_tx_words(data@),
        },
{
    let n: usize = data.len();
    if n > MAX_TX_SIZE {
        return None;
    }
    let len: usize = if n < MIN_TX_SIZE {
        MIN_TX_SIZE
    } else {
        n
    };
    let mut words: Vec<u16> = Vec::new();
    let mut i: usize = 0;
    while i < len
        invariant
            n == data@.len(),
            n <= MAX_TX_SIZE,
            len == spec_tx_len(n as int),
            i % 2 == 0,
            i <= len + 1,
            words@.len() == i / 2,
            forall|k: int| 0 <= k < words@.len() ==> words@[k] == spec_tx_words(data@)[k],
        decreases len + 1 - i,
    {
        let lo: u8 = if i < n {
            data[i]
        } else {
            0
        };
        let hi: u8 = if i + 1 < n {
            data[i + 1]
        } else {
            0
        };
        words.push((lo as u16) + (hi as u16) * 256);
        i += 2;
    }
    proof {
        assert(words@ =~= spec_tx_words(data@));
    }
    Some(words)
}

} // verus!
