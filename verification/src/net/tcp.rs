//! TCP: segment format, per-connection state, and the engine that moves
//! connections through the state machine, retransmits and paces sending.

use vstd::prelude::*;
use vstd::slice::slice_subrange;
use crate::bytes::{
    be16_at, be32_at, push_all, push_be16, push_be32, spec_be16_bytes, spec_be32_bytes,
    spec_u16_be, spec_u32_be,
};
use crate::net::checksum::{spec_tcp_udp_checksum, tcp_udp_checksum, MAX_CHECKSUM_LEN};
use crate::net::interface::{ip_eq, ip_of, lemma_ip_of, IfaceState, NetInterface};
use crate::net::ipv4::{send_packet, spec_send_packet, Ipv4Header, MAX_PACKET_SIZE, PROTO_TCP};
use crate::net::packet::ring_slot;

verus! {

/// Bytes of a header without options.
pub const HEADER_SIZE: usize = 20;

/// Maximum segment size over Ethernet.
pub const MSS: u16 = 1460;

/// Connections that can exist at once.
pub const MAX_CONNECTIONS: usize = 4;

/// Bytes of the receive buffer of a connection.
pub const RX_BUFFER_SIZE: usize = 2048;

/// Bytes of the send buffer of a connection.
pub const TX_BUFFER_SIZE: usize = 2048;

/// Segments that can be staged out of order per connection.
pub const OOO_BUFFER_SIZE: usize = 4;

/// Bytes kept of a segment staged out of order.
pub const OOO_DATA_SIZE: usize = 512;

/// Retransmission timeout of a new connection: 200 ms in ticks.
pub const INITIAL_RTO: u64 = 20;

/// Smallest retransmission timeout: 200 ms.
pub const MIN_RTO: u64 = 20;

/// Largest retransmission timeout: 60 s.
pub const MAX_RTO: u64 = 6000;

/// Time spent in Time-Wait: 30 s.
pub const TIME_WAIT_TIMEOUT: u64 = 3000;

/// Retransmissions after which a connection is given up.
pub const MAX_RETRANSMITS: u8 = 5;

/// First ephemeral port.
pub const FIRST_EPHEMERAL_PORT: u16 = 49152;

pub const FLAG_FIN: u8 = 0x01;

pub const FLAG_SYN: u8 = 0x02;

pub const FLAG_RST: u8 = 0x04;

pub const FLAG_PSH: u8 = 0x08;

pub const FLAG_ACK: u8 = 0x10;

/// State of a connection.
#[derive(Debug, Clone, Copy, PartialEq, Eq, Structural)]
pub enum TcpState {
    Closed,
    Listen,
    SynSent,
    SynReceived,
    Established,
    FinWait1,
    FinWait2,
    CloseWait,
    Closing,
    LastAck,
    TimeWait,
}

/// A decoded segment header.
#[derive(Debug, Clone, Copy, PartialEq, Eq, Structural)]
pub struct TcpHeader {
    pub src_port: u16,
    pub dst_port: u16,
    pub seq_num: u32,
    pub ack_num: u32,
    /// Header length in 32-bit words.
    pub data_offset: u8,
    pub flags: u8,
    pub window: u16,
    pub checksum: u16,
    pub urgent_ptr: u16,
}

/// Whether a flag byte has the SYN bit.
pub open spec fn has_syn(flags: u8) -> bool {
    (flags & FLAG_SYN) != 0
}

/// Whether a flag byte has the ACK bit.
pub open spec fn has_ack(flags: u8) -> bool {
    (flags & FLAG_ACK) != 0
}

/// Whether a flag byte has the FIN bit.
pub open spec fn has_fin(flags: u8) -> bool {
    (flags & FLAG_FIN) != 0
}

/// Whether a flag byte has the RST bit.
pub open spec fn has_rst(flags: u8) -> bool {
    (flags & FLAG_RST) != 0
}

/// The header decoded from the first 20 bytes of `data`.
pub open spec fn spec_header(data: Seq<u8>) -> TcpHeader {
    TcpHeader {
        src_port: spec_u16_be(data, 0),
        dst_port: spec_u16_be(data, 2),
        seq_num: spec_u32_be(data, 4),
        ack_num: spec_u32_be(data, 8),
        data_offset: data[12] / 16,
        flags: data[13] & 0x3F,
        window: spec_u16_be(data, 14),
        checksum: spec_u16_be(data, 16),
        urgent_ptr: spec_u16_be(data, 18),
    }
}

/// Whether `data` starts with a segment header of at least five words.
pub open spec fn spec_header_valid(data: Seq<u8>) -> bool {
    data.len() >= HEADER_SIZE && data[12] / 16 >= 5
}

/// The payload of the segment `data` whose header is `header_len` bytes
/// long.
pub open spec fn spec_payload(header_len: int, data: Seq<u8>) -> Seq<u8> {
    if data.len() > header_len {
        data.subrange(header_len, data.len() as int)
    } else {
        Seq::empty()
    }
}

/// A sequence number advanced by `n`, modulo 2^32.
pub open spec fn seq_add(x: u32, n: int) -> u32 {
    ((x + n) % 0x1_0000_0000) as u32
}

/// The distance from `b` forward to `a` in sequence space, modulo 2^32.
pub open spec fn seq_diff(a: u32, b: u32) -> int {
    if a >= b {
        a - b
    } else {
        a - b + 0x1_0000_0000
    }
}

/// Whether `a` comes after `b` in sequence space: the distance from `b`
/// forward to `a` is positive as a signed 32-bit number.
pub open spec fn spec_seq_after(a: u32, b: u32) -> bool {
    0 < seq_diff(a, b) < 0x8000_0000
}

impl TcpHeader {
    /// Decodes a segment header; `None` unless `data` holds 20 bytes and
    /// announces a header of at least five words.
    pub fn parse(data: &[u8]) -> (r: Option<TcpHeader>)
        ensures
            r == (if spec_header_valid(data@) {
                Some(spec_header(data@))
            } else {
                None
            }),
    {
        if data.len() < HEADER_SIZE {
            return None;
        }
        let data_offset: u8 = data[12] / 16;
        if data_offset < 5 {
            return None;
        }
        Some(
            TcpHeader {
                src_port: be16_at(data, 0),
                dst_port: be16_at(data, 2),
                seq_num: be32_at(data, 4),
                ack_num: be32_at(data, 8),
                data_offset,
                flags: data[13] & 0x3F,
                window: be16_at(data, 14),
                checksum: be16_at(data, 16),
                urgent_ptr: be16_at(data, 18),
            },
        )
    }

    /// Header length in bytes.
    pub fn header_length(&self) -> (n: usize)
        ensures
            n == self.data_offset * 4,
    {
        (self.data_offset as usize) * 4
    }

    /// The payload of the segment `data`.
    pub fn payload<'a>(&self, data: &'a [u8]) -> (r: &'a [u8])
        ensures
            r@ == spec_payload(self.data_offset * 4, data@),
    {
        let header_len: usize = self.header_length();
        let n: usize = data.len();
        if n > header_len {
            slice_subrange(data, header_len, n)
        } else {
            let r = slice_subrange(data, 0, 0);
            proof {
                assert(r@ =~= Seq::<u8>::empty());
            }
            r
        }
    }

    /// Whether the SYN flag is set.
    pub fn is_syn(&self) -> (r: bool)
        ensures
            r == has_syn(self.flags),
    {
        (self.flags & FLAG_SYN) != 0
    }

    /// Whether the ACK flag is set.
    pub fn is_ack(&self) -> (r: bool)
        ensures
            r == has_ack(self.flags),
    {
        (self.flags & FLAG_ACK) != 0
    }

    /// Whether the FIN flag is set.
    pub fn is_fin(&self) -> (r: bool)
        ensures
            r == has_fin(self.flags),
    {
        (self.flags & FLAG_FIN) != 0
    }

    /// Whether the RST flag is set.
    pub fn is_rst(&self) -> (r: bool)
        ensures
            r == has_rst(self.flags),
    {
        (self.flags & FLAG_RST) != 0
    }
}

/// A sequence number advanced by `n`, wrapping.
pub fn seq_plus(x: u32, n: u32) -> (r: u32)
    ensures
        r == seq_add(x, n as int),
{
    (((x as u64) + (n as u64)) % 0x1_0000_0000) as u32
}

/// The distance from `b` forward to `a` in sequence space.
pub fn seq_minus(a: u32, b: u32) -> (r: u32)
    ensures
        r == seq_diff(a, b),
{
    if a >= b {
        a - b
    } else {
        (((a as u64) + 0x1_0000_0000) - (b as u64)) as u32
    }
}

/// Whether `a` comes after `b` in sequence space, wrap-around included.
pub fn seq_after(a: u32, b: u32) -> (r: bool)
    ensures
        r == spec_seq_after(a, b),
{
    let d: u32 = seq_minus(a, b);
    0 < d && d < 0x8000_0000
}

/// A byte FIFO of fixed capacity.
pub struct RingBuffer {
    /// Storage; always `RX_BUFFER_SIZE` bytes.
    pub data: Vec<u8>,
    /// Where the next byte is written.
    pub head: usize,
    /// Where the next byte is read.
    pub tail: usize,
    /// Bytes held.
    pub len: usize,
}

impl View for RingBuffer {
    type V = Seq<u8>;

    /// The bytes held, oldest first.
    open spec fn view(&self) -> Seq<u8> {
        Seq::new(
            self.len as nat,
            |k: int| self.data@[ring_slot(self.tail as int, k, RX_BUFFER_SIZE as int)],
        )
    }
}

impl RingBuffer {
    /// Storage has its fixed size, and the head lies `len` bytes past the
    /// tail.
    pub open spec fn wf(&self) -> bool {
        &&& self.data@.len() == RX_BUFFER_SIZE
        &&& self.tail < RX_BUFFER_SIZE
        &&& self.len <= RX_BUFFER_SIZE
        &&& self.head == (if self.len == RX_BUFFER_SIZE {
            self.tail as int
        } else {
            ring_slot(self.tail as int, self.len as int, RX_BUFFER_SIZE as int)
        })
    }

    /// An empty buffer.
    pub fn new() -> (r: RingBuffer)
        ensures
            r.wf(),
            r@ == Seq::<u8>::empty(),
    {
        let mut data: Vec<u8> = Vec::new();
        let mut i: usize = 0;
        while i < RX_BUFFER_SIZE
            invariant
                i <= RX_BUFFER_SIZE,
                data@.len() == i,
            decreases RX_BUFFER_SIZE - i,
        {
            data.push(0u8);
            i += 1;
        }
        let r = RingBuffer { data, head: 0, tail: 0, len: 0 };
        proof {
            assert(r@ =~= Seq::<u8>::empty());
        }
        r
    }

    /// Bytes held.
    pub fn available(&self) -> (n: usize)
        ensures
            n == self@.len(),
    {
        self.len
    }

    /// Bytes that can still be written.
    pub fn free_space(&self) -> (n: usize)
        requires
            self.wf(),
        ensures
            n == RX_BUFFER_SIZE - self@.len(),
    {
        RX_BUFFER_SIZE - self.len
    }

    /// Appends as much of `data` as there is room for and returns the
    /// number of bytes taken.
    pub fn write(&mut self, data: &[u8]) -> (n: usize)
        requires
            old(self).wf(),
        ensures
            final(self).wf(),
            n == (if data@.len() <= RX_BUFFER_SIZE - old(self)@.len() {
                data@.len() as int
            } else {
                RX_BUFFER_SIZE - old(self)@.len()
            }),
            final(self)@ == old(self)@ + data@.subrange(0, n as int),
    {
        let free: usize = self.free_space();
        let to_write: usize = if data.len() <= free {
            data.len()
        } else {
            free
        };
        let mut i: usize = 0;
        while i < to_write
            invariant
                self.wf(),
                i <= to_write,
                to_write <= data@.len(),
                to_write - i <= RX_BUFFER_SIZE - self.len,
                self@ == old(self)@ + data@.subrange(0, i as int),
            decreases to_write - i,
        {
            let ghost before = self@;
            self.data.set(self.head, data[i]);
            self.head = if self.head + 1 == RX_BUFFER_SIZE {
                0
            } else {
                self.head + 1
            };
            self.len = self.len + 1;
            i += 1;
            proof {
                assert(self@ =~= before.push(data@[i as int - 1]));
                assert(data@.subrange(0, i as int) =~= data@.subrange(0, i as int - 1).push(
                    data@[i as int - 1],
                ));
                assert(self@ =~= old(self)@ + data@.subrange(0, i as int));
            }
        }
        to_write
    }

    /// Copies the oldest bytes into the front of `buf`, as many as `buf`
    /// holds or as are available, without removing them. Returns the
    /// number of bytes copied.
    pub fn peek(&self, buf: &mut Vec<u8>) -> (n: usize)
        requires
            self.wf(),
        ensures
            n == (if old(buf)@.len() <= self@.len() {
                old(buf)@.len()
            } else {
                self@.len()
            }),
            final(buf)@ == self@.subrange(0, n as int) + old(buf)@.subrange(
                n as int,
                old(buf)@.len() as int,
            ),
    {
        let to_read: usize = if buf.len() <= self.len {
            buf.len()
        } else {
            self.len
        };
        let mut pos: usize = self.tail;
        let mut i: usize = 0;
        while i < to_read
            invariant
                self.wf(),
                i <= to_read,
                to_read <= self.len,
                buf@.len() == old(buf)@.len(),
                to_read <= buf@.len(),
                pos < RX_BUFFER_SIZE,
                i < RX_BUFFER_SIZE ==> pos == ring_slot(
                    self.tail as int,
                    i as int,
                    RX_BUFFER_SIZE as int,
                ),
                forall|k: int| 0 <= k < i ==> buf@[k] == self@[k],
                forall|k: int| i <= k < buf@.len() ==> buf@[k] == old(buf)@[k],
            decreases to_read - i,
        {
            buf.set(i, self.data[pos]);
            pos = if pos + 1 == RX_BUFFER_SIZE {
                0
            } else {
                pos + 1
            };
            i += 1;
        }
        proof {
            assert(buf@ =~= self@.subrange(0, to_read as int) + old(buf)@.subrange(
                to_read as int,
                old(buf)@.len() as int,
            ));
        }
        to_read
    }

    /// Removes the oldest `count` bytes, or all if fewer are held.
    pub fn consume(&mut self, count: usize)
        requires
            old(self).wf(),
        ensures
            final(self).wf(),
            final(self)@ == old(self)@.subrange(
                if count <= old(self)@.len() {
                    count as int
                } else {
                    old(self)@.len() as int
                },
                old(self)@.len() as int,
            ),
    {
        let n: usize = if count <= self.len {
            count
        } else {
            self.len
        };
        self.tail = if n >= RX_BUFFER_SIZE - self.tail {
            n - (RX_BUFFER_SIZE - self.tail)
        } else {
            self.tail + n
        };
        self.len = self.len - n;
        proof {
            assert(self@ =~= old(self)@.subrange(n as int, old(self)@.len() as int));
        }
    }

    /// Moves the oldest bytes into the front of `buf`, as many as `buf`
    /// holds or as are available. Returns the number of bytes moved.
    pub fn read(&mut self, buf: &mut Vec<u8>) -> (n: usize)
        requires
            old(self).wf(),
        ensures
            final(self).wf(),
            n == (if old(buf)@.len() <= old(self)@.len() {
                old(buf)@.len()
            } else {
                old(self)@.len()
            }),
            final(buf)@ == old(self)@.subrange(0, n as int) + old(buf)@.subrange(
                n as int,
                old(buf)@.len() as int,
            ),
            final(self)@ == old(self)@.subrange(n as int, old(self)@.len() as int),
    {
        let n: usize = self.peek(buf);
        self.consume(n);
        n
    }

    /// Forgets every byte held.
    pub fn clear(&mut self)
        requires
            old(self).data@.len() == RX_BUFFER_SIZE,
        ensures
            final(self).wf(),
            final(self)@ == Seq::<u8>::empty(),
    {
        self.head = 0;
        self.tail = 0;
        self.len = 0;
        proof {
            assert(self@ =~= Seq::<u8>::empty());
        }
    }
}

/// A segment that arrived ahead of its turn.
pub struct OooSegment {
    /// Sequence number of its first byte.
    pub seq: u32,
    /// Bytes kept.
    pub len: u16,
    /// Storage; always `OOO_DATA_SIZE` bytes.
    pub data: Vec<u8>,
    /// Whether the slot is in use.
    pub valid: bool,
}

/// A staged segment as plain values.
pub struct OooView {
    pub seq: u32,
    pub data: Seq<u8>,
    pub valid: bool,
}

impl View for OooSegment {
    type V = OooView;

    open spec fn view(&self) -> OooView {
        OooView { seq: self.seq, data: self.data@.subrange(0, self.len as int), valid: self.valid }
    }
}

impl OooSegment {
    /// Storage has its fixed size and the length lies within it.
    pub open spec fn wf(&self) -> bool {
        self.data@.len() == OOO_DATA_SIZE && self.len <= OOO_DATA_SIZE
    }

    /// An unused slot.
    pub fn empty() -> (s: OooSegment)
        ensures
            s.wf(),
            s@ == spec_empty_slot(),
    {
        let mut data: Vec<u8> = Vec::new();
        let mut i: usize = 0;
        while i < OOO_DATA_SIZE
            invariant
                i <= OOO_DATA_SIZE,
                data@.len() == i,
            decreases OOO_DATA_SIZE - i,
        {
            data.push(0u8);
            i += 1;
        }
        let s = OooSegment { seq: 0, len: 0, data, valid: false };
        proof {
            assert(s@.data =~= Seq::<u8>::empty());
        }
        s
    }
}

/// An unused staging slot.
pub open spec fn spec_empty_slot() -> OooView {
    OooView { seq: 0, data: Seq::empty(), valid: false }
}

/// State of one connection.
pub struct TcpControlBlock {
    pub state: TcpState,
    pub local_ip: [u8; 4],
    pub local_port: u16,
    pub remote_ip: [u8; 4],
    pub remote_port: u16,
    /// Oldest sequence number sent and not yet acknowledged.
    pub snd_una: u32,
    /// Next sequence number to send.
    pub snd_nxt: u32,
    /// Window that the peer advertises.
    pub snd_wnd: u16,
    /// Initial send sequence number.
    pub iss: u32,
    /// Next sequence number expected.
    pub rcv_nxt: u32,
    /// Window that we advertise.
    pub rcv_wnd: u16,
    /// Initial receive sequence number.
    pub irs: u32,
    /// Retransmission timeout in ticks.
    pub rto: u64,
    /// Smoothed round-trip time.
    pub srtt: u64,
    /// Round-trip time variance.
    pub rttvar: u64,
    /// Tick of the last send that is timed.
    pub last_send_time: u64,
    /// Tick at which the retransmission timer fires; 0 while stopped.
    pub retransmit_timer: u64,
    /// Retransmissions made.
    pub retransmit_count: u8,
    /// Congestion window.
    pub cwnd: u32,
    /// Slow-start threshold.
    pub ssthresh: u32,
    /// Duplicate acknowledgements seen in a row.
    pub dup_ack_count: u8,
    /// Acknowledgement number that last advanced the window.
    pub last_ack: u32,
    /// Segments staged out of order.
    pub ooo_segments: Vec<OooSegment>,
    /// Received bytes not yet read by the application.
    pub rx_buffer: RingBuffer,
    /// Bytes written by the application and not yet acknowledged.
    pub tx_buffer: RingBuffer,
    /// Tick at which Time-Wait ends.
    pub time_wait_timer: u64,
    /// Whether the slot is taken.
    pub in_use: bool,
    /// Whether data has ever been received.
    pub has_data: bool,
    /// Whether the peer has closed its direction.
    pub remote_closed: bool,
}

/// A connection as plain values.
pub struct Tcb {
    pub state: TcpState,
    pub local_ip: [u8; 4],
    pub local_port: u16,
    pub remote_ip: [u8; 4],
    pub remote_port: u16,
    pub snd_una: u32,
    pub snd_nxt: u32,
    pub snd_wnd: u16,
    pub iss: u32,
    pub rcv_nxt: u32,
    pub rcv_wnd: u16,
    pub irs: u32,
    pub rto: u64,
    pub srtt: u64,
    pub rttvar: u64,
    pub last_send_time: u64,
    pub retransmit_timer: u64,
    pub retransmit_count: u8,
    pub cwnd: u32,
    pub ssthresh: u32,
    pub dup_ack_count: u8,
    pub last_ack: u32,
    pub ooo: Seq<OooView>,
    pub rx: Seq<u8>,
    pub tx: Seq<u8>,
    pub time_wait_timer: u64,
    pub in_use: bool,
    pub has_data: bool,
    pub remote_closed: bool,
}

impl View for TcpControlBlock {
    type V = Tcb;

    open spec fn view(&self) -> Tcb {
        Tcb {
            state: self.state,
            local_ip: self.local_ip,
            local_port: self.local_port,
            remote_ip: self.remote_ip,
            remote_port: self.remote_port,
            snd_una: self.snd_una,
            snd_nxt: self.snd_nxt,
            snd_wnd: self.snd_wnd,
            iss: self.iss,
            rcv_nxt: self.rcv_nxt,
            rcv_wnd: self.rcv_wnd,
            irs: self.irs,
            rto: self.rto,
            srtt: self.srtt,
            rttvar: self.rttvar,
            last_send_time: self.last_send_time,
            retransmit_timer: self.retransmit_timer,
            retransmit_count: self.retransmit_count,
            cwnd: self.cwnd,
            ssthresh: self.ssthresh,
            dup_ack_count: self.dup_ack_count,
            last_ack: self.last_ack,
            ooo: self.ooo_segments@.map_values(|s: OooSegment| s@),
            rx: self.rx_buffer@,
            tx: self.tx_buffer@,
            time_wait_timer: self.time_wait_timer,
            in_use: self.in_use,
            has_data: self.has_data,
            remote_closed: self.remote_closed,
        }
    }
}

/// The all-zero IPv4 address.
pub open spec fn spec_zero_ip() -> [u8; 4] {
    ip_of(seq![0u8, 0u8, 0u8, 0u8])
}

/// Four unused staging slots.
pub open spec fn spec_empty_ooo() -> Seq<OooView> {
    Seq::new(OOO_BUFFER_SIZE as nat, |i: int| spec_empty_slot())
}

/// A connection slot that has never been used.
pub open spec fn spec_new_tcb() -> Tcb {
    Tcb {
        state: TcpState::Closed,
        local_ip: spec_zero_ip(),
        local_port: 0,
        remote_ip: spec_zero_ip(),
        remote_port: 0,
        snd_una: 0,
        snd_nxt: 0,
        snd_wnd: 0,
        iss: 0,
        rcv_nxt: 0,
        rcv_wnd: 2048,
        irs: 0,
        rto: INITIAL_RTO,
        srtt: 0,
        rttvar: 0,
        last_send_time: 0,
        retransmit_timer: 0,
        retransmit_count: 0,
        cwnd: 1460,
        ssthresh: 65535,
        dup_ack_count: 0,
        last_ack: 0,
        ooo: spec_empty_ooo(),
        rx: Seq::empty(),
        tx: Seq::empty(),
        time_wait_timer: 0,
        in_use: false,
        has_data: false,
        remote_closed: false,
    }
}

/// What holds of every connection the engine has touched: buffer
/// contents fit their buffers, there are four staging slots of at most
/// 512 bytes each, and the congestion window is not zero.
pub open spec fn tcb_ok(c: Tcb) -> bool {
    &&& c.rx.len() <= RX_BUFFER_SIZE
    &&& c.tx.len() <= TX_BUFFER_SIZE
    &&& c.ooo.len() == OOO_BUFFER_SIZE
    &&& forall|i: int| 0 <= i < c.ooo.len() ==> (#[trigger] c.ooo[i]).data.len() <= OOO_DATA_SIZE
    &&& c.cwnd > 0
}

impl TcpControlBlock {
    /// The buffers and staging slots are well formed and the congestion
    /// window is not zero.
    pub open spec fn wf(&self) -> bool {
        &&& self.rx_buffer.wf()
        &&& self.tx_buffer.wf()
        &&& self.ooo_segments@.len() == OOO_BUFFER_SIZE
        &&& forall|i: int| 0 <= i < OOO_BUFFER_SIZE ==> (#[trigger] self.ooo_segments@[i]).wf()
        &&& self.cwnd > 0
    }

    /// A connection slot that has never been used.
    pub fn new() -> (c: TcpControlBlock)
        ensures
            c.wf(),
            c@ == spec_new_tcb(),
    {
        let mut ooo: Vec<OooSegment> = Vec::new();
        let mut i: usize = 0;
        while i < OOO_BUFFER_SIZE
            invariant
                i <= OOO_BUFFER_SIZE,
                ooo@.len() == i,
                forall|k: int| 0 <= k < i
                    ==> (#[trigger] ooo@[k]).wf() && ooo@[k]@ == spec_empty_slot(),
            decreases OOO_BUFFER_SIZE - i,
        {
            ooo.push(OooSegment::empty());
            i += 1;
        }
        let zero: [u8; 4] = [0u8, 0u8, 0u8, 0u8];
        proof {
            assert(zero@ =~= seq![0u8, 0u8, 0u8, 0u8]);
            lemma_ip_of(zero);
        }
        let c = TcpControlBlock {
            state: TcpState::Closed,
            local_ip: zero,
            local_port: 0,
            remote_ip: zero,
            remote_port: 0,
            snd_una: 0,
            snd_nxt: 0,
            snd_wnd: 0,
            iss: 0,
            rcv_nxt: 0,
            rcv_wnd: RX_BUFFER_SIZE as u16,
            irs: 0,
            rto: INITIAL_RTO,
            srtt: 0,
            rttvar: 0,
            last_send_time: 0,
            retransmit_timer: 0,
            retransmit_count: 0,
            cwnd: MSS as u32,
            ssthresh: 65535,
            dup_ack_count: 0,
            last_ack: 0,
            ooo_segments: ooo,
            rx_buffer: RingBuffer::new(),
            tx_buffer: RingBuffer::new(),
            time_wait_timer: 0,
            in_use: false,
            has_data: false,
            remote_closed: false,
        };
        proof {
            assert(c@.ooo =~= spec_empty_ooo());
        }
        c
    }

    /// Returns the slot to its never-used state.
    pub fn reset(&mut self)
        ensures
            final(self).wf(),
            final(self)@ == spec_new_tcb(),
    {
        *self = TcpControlBlock::new();
    }

    /// Received bytes waiting to be read.
    pub fn bytes_available(&self) -> (n: usize)
        ensures
            n == self@.rx.len(),
    {
        self.rx_buffer.available()
    }

    /// Moves received bytes into the front of `buf`, as many as `buf`
    /// holds or as are waiting, and returns their number.
    pub fn read(&mut self, buf: &mut Vec<u8>) -> (n: usize)
        requires
            old(self).wf(),
        ensures
            final(self).wf(),
            n == (if old(buf)@.len() <= old(self)@.rx.len() {
                old(buf)@.len()
            } else {
                old(self)@.rx.len()
            }),
            final(buf)@ == old(self)@.rx.subrange(0, n as int) + old(buf)@.subrange(
                n as int,
                old(buf)@.len() as int,
            ),
            final(self)@ == (Tcb {
                rx: old(self)@.rx.subrange(n as int, old(self)@.rx.len() as int),
                ..old(self)@
            }),
    {
        self.rx_buffer.read(buf)
    }

    /// Appends as much of `data` to the send buffer as there is room for
    /// and returns the number of bytes taken.
    pub fn write(&mut self, data: &[u8]) -> (n: usize)
        requires
            old(self).wf(),
        ensures
            final(self).wf(),
            n == (if data@.len() <= TX_BUFFER_SIZE - old(self)@.tx.len() {
                data@.len() as int
            } else {
                TX_BUFFER_SIZE - old(self)@.tx.len()
            }),
            final(self)@ == (Tcb { tx: old(self)@.tx + data@.subrange(0, n as int), ..old(self)@ }),
    {
        self.tx_buffer.write(data)
    }

    /// Bytes written and not yet acknowledged.
    pub fn bytes_pending(&self) -> (n: usize)
        ensures
            n == self@.tx.len(),
    {
        self.tx_buffer.available()
    }

    /// Sets the advertised window to the free space of the receive
    /// buffer.
    pub fn update_rcv_wnd(&mut self)
        requires
            old(self).wf(),
        ensures
            final(self).wf(),
            final(self)@ == (Tcb {
                rcv_wnd: (RX_BUFFER_SIZE - old(self)@.rx.len()) as u16,
                ..old(self)@
            }),
    {
        self.rcv_wnd = self.rx_buffer.free_space() as u16;
    }
}

/// A well-formed connection has a view that is in order.
pub proof fn lemma_wf_tcb_ok(c: &TcpControlBlock)
    requires
        c.wf(),
    ensures
        tcb_ok(c@),
{
    assert forall|i: int| 0 <= i < c@.ooo.len() implies (#[trigger] c@.ooo[i]).data.len()
        <= OOO_DATA_SIZE by {
        assert(c.ooo_segments@[i].wf());
    }
}

/// The bytes of a segment with the checksum field still zero: a header
/// of five words followed by the payload.
pub open spec fn spec_segment_unsummed(
    src_port: u16,
    dst_port: u16,
    seq: u32,
    ack: u32,
    flags: u8,
    window: u16,
    payload: Seq<u8>,
) -> Seq<u8> {
    spec_be16_bytes(src_port) + spec_be16_bytes(dst_port) + spec_be32_bytes(seq) + spec_be32_bytes(
        ack,
    ) + seq![0x50u8, flags] + spec_be16_bytes(window) + seq![0u8, 0u8, 0u8, 0u8] + payload
}

/// The bytes of a segment as sent from `src_ip` to `dst_ip`, checksum
/// included.
pub open spec fn spec_segment(
    src_ip: Seq<u8>,
    dst_ip: Seq<u8>,
    src_port: u16,
    dst_port: u16,
    seq: u32,
    ack: u32,
    flags: u8,
    window: u16,
    payload: Seq<u8>,
) -> Seq<u8> {
    let raw = spec_segment_unsummed(src_port, dst_port, seq, ack, flags, window, payload);
    raw.subrange(0, 16) + spec_be16_bytes(
        spec_tcp_udp_checksum(src_ip, dst_ip, PROTO_TCP, raw) as u16,
    ) + raw.subrange(18, raw.len() as int)
}

/// The interface after connection `c` sends a segment with `flags` and
/// `payload` at tick `now`, and whether it was sent. The segment carries
/// the connection's next send sequence number, acknowledges up to its
/// next expected sequence number and advertises its window.
pub open spec fn spec_send_segment(c: Tcb, s: IfaceState, now: u64, flags: u8, payload: Seq<u8>) -> (
    IfaceState,
    bool,
) {
    if HEADER_SIZE + payload.len() > MAX_PACKET_SIZE {
        (s, false)
    } else {
        spec_send_packet(
            s,
            now,
            c.remote_ip,
            PROTO_TCP,
            spec_segment(
                c.local_ip@,
                c.remote_ip@,
                c.local_port,
                c.remote_port,
                c.snd_nxt,
                c.rcv_nxt,
                flags,
                c.rcv_wnd,
                payload,
            ),
        )
    }
}

/// The sequence number, acknowledgement number and flags of the reset
/// that answers a segment with header `h`.
pub open spec fn spec_rst_fields(h: TcpHeader) -> (u32, u32, u8) {
    (
        if has_ack(h.flags) {
            h.ack_num
        } else {
            0
        },
        seq_add(h.seq_num, 1),
        if has_ack(h.flags) {
            FLAG_RST
        } else {
            FLAG_RST | FLAG_ACK
        },
    )
}

/// The interface after a reset is sent from `src_ip` to `dst_ip` in
/// answer to a segment with header `h`.
pub open spec fn spec_send_rst(
    s: IfaceState,
    now: u64,
    src_ip: [u8; 4],
    dst_ip: [u8; 4],
    h: TcpHeader,
) -> IfaceState {
    spec_send_packet(
        s,
        now,
        dst_ip,
        PROTO_TCP,
        spec_segment(
            src_ip@,
            dst_ip@,
            h.dst_port,
            h.src_port,
            spec_rst_fields(h).0,
            spec_rst_fields(h).1,
            spec_rst_fields(h).2,
            0,
            Seq::empty(),
        ),
    ).0
}

/// The bytes of a segment with the checksum field still zero.
pub fn segment_bytes(
    src_port: u16,
    dst_port: u16,
    seq: u32,
    ack: u32,
    flags: u8,
    window: u16,
    payload: &[u8],
) -> (out: Vec<u8>)
    ensures
        out@ == spec_segment_unsummed(src_port, dst_port, seq, ack, flags, window, payload@),
        out@.len() == HEADER_SIZE + payload@.len(),
{
    let mut out: Vec<u8> = Vec::new();
    push_be16(&mut out, src_port);
    push_be16(&mut out, dst_port);
    push_be32(&mut out, seq);
    push_be32(&mut out, ack);
    let ghost a = out@;
    out.push(0x50u8);
    out.push(flags);
    proof {
        assert(out@ =~= a + seq![0x50u8, flags]);
    }
    push_be16(&mut out, window);
    let ghost b = out@;
    out.push(0u8);
    out.push(0u8);
    out.push(0u8);
    out.push(0u8);
    proof {
        assert(out@ =~= b + seq![0u8, 0u8, 0u8, 0u8]);
    }
    push_all(&mut out, payload);
    out
}

/// Writes a segment with a zero checksum field at the start of `buffer`
/// and returns its length; a buffer too short for it is left alone and
/// the result is 0.
pub fn build_segment(
    buffer: &mut Vec<u8>,
    src_port: u16,
    dst_port: u16,
    seq: u32,
    ack: u32,
    flags: u8,
    window: u16,
    payload: &[u8],
) -> (n: usize)
    ensures
        old(buffer)@.len() < HEADER_SIZE + payload@.len()
            ==> n == 0 && final(buffer)@ == old(buffer)@,
        old(buffer)@.len() >= HEADER_SIZE + payload@.len() ==> n == HEADER_SIZE + payload@.len()
            && final(buffer)@ == spec_segment_unsummed(
            src_port,
            dst_port,
            seq,
            ack,
            flags,
            window,
            payload@,
        ) + old(buffer)@.subrange(n as int, old(buffer)@.len() as int),
{
    let blen: usize = buffer.len();
    if blen < HEADER_SIZE || payload.len() > blen - HEADER_SIZE {
        return 0;
    }
    let segment: Vec<u8> = segment_bytes(src_port, dst_port, seq, ack, flags, window, payload);
    let total: usize = segment.len();
    let mut i: usize = 0;
    while i < total
        invariant
            i <= total,
            segment@.len() == total,
            buffer@.len() == old(buffer)@.len(),
            buffer@.len() >= total,
            forall|k: int| 0 <= k < i ==> buffer@[k] == segment@[k],
            forall|k: int| i <= k < buffer@.len() ==> buffer@[k] == old(buffer)@[k],
        decreases total - i,
    {
        buffer.set(i, segment[i]);
        i += 1;
    }
    proof {
        assert(buffer@ =~= segment@ + old(buffer)@.subrange(
            total as int,
            old(buffer)@.len() as int,
        ));
    }
    total
}

/// The bytes of a segment as sent from `src_ip` to `dst_ip`, checksum
/// included.
pub fn summed_segment(
    src_ip: &[u8; 4],
    dst_ip: &[u8; 4],
    src_port: u16,
    dst_port: u16,
    seq: u32,
    ack: u32,
    flags: u8,
    window: u16,
    payload: &[u8],
) -> (out: Vec<u8>)
    requires
        HEADER_SIZE + payload@.len() <= MAX_PACKET_SIZE,
    ensures
        out@ == spec_segment(
            src_ip@,
            dst_ip@,
            src_port,
            dst_port,
            seq,
            ack,
            flags,
            window,
            payload@,
        ),
        out@.len() == HEADER_SIZE + payload@.len(),
{
    let raw: Vec<u8> = segment_bytes(src_port, dst_port, seq, ack, flags, window, payload);
    let n: usize = raw.len();
    let cksum: u16 = tcp_udp_checksum(src_ip, dst_ip, PROTO_TCP, raw.as_slice());
    let mut out: Vec<u8> = Vec::new();
    push_all(&mut out, slice_subrange(raw.as_slice(), 0, 16));
    push_be16(&mut out, cksum);
    push_all(&mut out, slice_subrange(raw.as_slice(), 18, n));
    out
}

/// Sends a segment of connection `conn` with `flags` and `payload`.
pub fn send_segment(
    conn: &TcpControlBlock,
    iface: &mut NetInterface,
    now: u64,
    flags: u8,
    payload: &[u8],
) -> (sent: bool)
    requires
        old(iface).wf(),
    ensures
        final(iface).wf(),
        (final(iface)@, sent) == spec_send_segment(conn@, old(iface)@, now, flags, payload@),
{
    if payload.len() > MAX_PACKET_SIZE - HEADER_SIZE {
        return false;
    }
    let segment: Vec<u8> = summed_segment(
        &conn.local_ip,
        &conn.remote_ip,
        conn.local_port,
        conn.remote_port,
        conn.snd_nxt,
        conn.rcv_nxt,
        flags,
        conn.rcv_wnd,
        payload,
    );
    send_packet(iface, now, &conn.remote_ip, PROTO_TCP, segment.as_slice())
}

/// Answers a segment that belongs to no connection with a reset.
pub fn send_rst(
    iface: &mut NetInterface,
    now: u64,
    src_ip: &[u8; 4],
    dst_ip: &[u8; 4],
    header: &TcpHeader,
)
    requires
        old(iface).wf(),
    ensures
        final(iface).wf(),
        final(iface)@ == spec_send_rst(old(iface)@, now, *src_ip, *dst_ip, *header),
{
    let seq: u32 = if header.is_ack() {
        header.ack_num
    } else {
        0
    };
    let ack: u32 = seq_plus(header.seq_num, 1);
    let flags: u8 = if header.is_ack() {
        FLAG_RST
    } else {
        FLAG_RST | FLAG_ACK
    };
    let empty: Vec<u8> = Vec::new();
    let segment: Vec<u8> = summed_segment(
        src_ip,
        dst_ip,
        header.dst_port,
        header.src_port,
        seq,
        ack,
        flags,
        0,
        empty.as_slice(),
    );
    send_packet(iface, now, dst_ip, PROTO_TCP, segment.as_slice());
}

impl RingBuffer {
    /// A copy of `count` held bytes starting `offset` bytes behind the
    /// oldest.
    pub fn copy_range(&self, offset: usize, count: usize) -> (out: Vec<u8>)
        requires
            self.wf(),
            offset + count <= self@.len(),
        ensures
            out@ == self@.subrange(offset as int, offset + count),
    {
        let mut out: Vec<u8> = Vec::new();
        let mut i: usize = 0;
        while i < count
            invariant
                self.wf(),
                offset + count <= self.len,
                i <= count,
                out@ == self@.subrange(offset as int, offset + i),
            decreases count - i,
        {
            let k: usize = offset + i;
            let pos: usize = if k >= RX_BUFFER_SIZE - self.tail {
                k - (RX_BUFFER_SIZE - self.tail)
            } else {
                self.tail + k
            };
            out.push(self.data[pos]);
            i += 1;
            proof {
                assert(out@ =~= self@.subrange(offset as int, offset + i));
            }
        }
        out
    }
}

/// The tick `d` ticks after `now`, pinned at the last tick.
pub open spec fn spec_deadline(now: u64, d: u64) -> u64 {
    if now + d > u64::MAX {
        u64::MAX
    } else {
        (now + d) as u64
    }
}

/// `x + n`, pinned at the largest 32-bit value.
pub open spec fn sat_add32(x: u32, n: int) -> u32 {
    if x + n > u32::MAX {
        u32::MAX
    } else {
        (x + n) as u32
    }
}

/// A counter advanced by one, pinned at 255.
pub open spec fn sat_inc8(x: u8) -> u8 {
    if x == 255 {
        255
    } else {
        (x + 1) as u8
    }
}

/// The smaller of two numbers.
pub open spec fn min2(a: int, b: int) -> int {
    if a <= b {
        a
    } else {
        b
    }
}

/// The round-trip time measured at tick `now`.
pub open spec fn spec_measured(c: Tcb, now: u64) -> int {
    if now >= c.last_send_time {
        now - c.last_send_time
    } else {
        0
    }
}

/// The smoothed round-trip time after a measurement `r`: the measurement
/// itself the first time, then seven eighths of the old value plus one
/// eighth of the measurement.
pub open spec fn spec_srtt(c: Tcb, r: int) -> int {
    if c.srtt == 0 {
        r
    } else {
        (7 * c.srtt + r) / 8
    }
}

/// The round-trip time variance after a measurement `r`: half the
/// measurement the first time, then three quarters of the old value plus
/// one quarter of the distance between measurement and smoothed time.
pub open spec fn spec_rttvar(c: Tcb, r: int) -> int {
    if c.srtt == 0 {
        r / 2
    } else {
        (3 * c.rttvar + (if r > c.srtt {
            r - c.srtt
        } else {
            c.srtt - r
        })) / 4
    }
}

/// A timeout clamped to the allowed range.
pub open spec fn spec_clamp_rto(rto: int) -> int {
    if rto < MIN_RTO {
        MIN_RTO as int
    } else if rto > MAX_RTO {
        MAX_RTO as int
    } else {
        rto
    }
}

/// The connection after its round-trip estimate is updated at tick `now`:
/// the retransmission timeout becomes the smoothed time plus four times
/// the variance, clamped to between 200 ms and 60 s.
pub open spec fn spec_update_rtt(c: Tcb, now: u64) -> Tcb {
    let r = spec_measured(c, now);
    Tcb {
        srtt: spec_srtt(c, r) as u64,
        rttvar: spec_rttvar(c, r) as u64,
        rto: spec_clamp_rto(spec_srtt(c, r) + 4 * spec_rttvar(c, r)) as u64,
        ..c
    }
}

/// Bytes sent and not yet acknowledged.
pub open spec fn spec_flight(c: Tcb) -> int {
    seq_diff(c.snd_nxt, c.snd_una)
}

/// Bytes of the send buffer that are in flight: the first bytes of the
/// buffer, as many as have been sent and not yet acknowledged.
pub open spec fn spec_unacked(c: Tcb) -> int {
    min2(spec_flight(c), c.tx.len() as int)
}

/// The bytes that a retransmission sends: the earliest unacknowledged
/// bytes, at most one segment's worth.
pub open spec fn spec_resent(c: Tcb) -> Seq<u8> {
    c.tx.subrange(0, min2(spec_unacked(c), MSS as int))
}

/// The connection after a retransmission at tick `now`: the timer is
/// restarted and the retransmission counted. Without bytes in flight
/// nothing happens.
pub open spec fn spec_retransmitted(c: Tcb, now: u64) -> Tcb {
    if spec_resent(c).len() == 0 {
        c
    } else {
        Tcb {
            retransmit_timer: spec_deadline(now, c.rto),
            retransmit_count: sat_inc8(c.retransmit_count),
            ..c
        }
    }
}

/// The connection and interface after a retransmission at tick `now`:
/// the earliest unacknowledged bytes go out again under the sequence
/// number they were first sent with.
pub open spec fn spec_retransmit(c: Tcb, s: IfaceState, now: u64) -> (Tcb, IfaceState) {
    (
        spec_retransmitted(c, now),
        if spec_resent(c).len() == 0 {
            s
        } else {
            spec_send_segment(
                Tcb { snd_nxt: c.snd_una, ..c },
                s,
                now,
                FLAG_ACK | FLAG_PSH,
                spec_resent(c),
            ).0
        },
    )
}

/// The congestion window after `bytes_acked` new bytes are acknowledged:
/// it grows by that many bytes in slow start, and by MSS squared over the
/// window in congestion avoidance.
pub open spec fn spec_grow_cwnd(c: Tcb, bytes_acked: int) -> u32 {
    if c.cwnd < c.ssthresh {
        sat_add32(c.cwnd, bytes_acked)
    } else {
        sat_add32(c.cwnd, (MSS * MSS) / (c.cwnd as int))
    }
}

/// The slow-start threshold after a loss: half the congestion window, but
/// at least two segments.
pub open spec fn spec_halved(cwnd: u32) -> u32 {
    if cwnd / 2 > 2 * MSS {
        cwnd / 2
    } else {
        (2 * MSS) as u32
    }
}

/// Whether an acknowledgement of `ack` advances the window of `c`: it
/// acknowledges something new and nothing that was not sent.
pub open spec fn spec_advances(c: Tcb, ack: u32) -> bool {
    spec_seq_after(ack, c.snd_una) && !spec_seq_after(ack, c.snd_nxt)
}

/// The connection as a third duplicate acknowledgement leaves it before
/// the fast retransmission: the threshold is half the window, and the
/// window the threshold plus three segments.
pub open spec fn spec_fast_recovery(c: Tcb) -> Tcb {
    Tcb {
        dup_ack_count: sat_inc8(c.dup_ack_count),
        ssthresh: spec_halved(c.cwnd),
        cwnd: (spec_halved(c.cwnd) + 3 * MSS) as u32,
        ..c
    }
}

/// The connection after an acknowledgement of `ack` at tick `now`.
///
/// An acknowledgement that advances the window releases the acknowledged
/// bytes from the send buffer, updates the round-trip estimate, grows the
/// congestion window, clears the count of failed retransmissions, and
/// restarts the timer while bytes remain in flight. A repetition of the
/// last acknowledgement counts as a duplicate: the third triggers a fast
/// retransmission with the window cut to the halved threshold plus three
/// segments, and each further one inflates the window by a segment.
/// Anything else is ignored.
pub open spec fn spec_acked(c: Tcb, now: u64, ack: u32) -> Tcb {
    if spec_advances(c, ack) {
        let bytes_acked = seq_diff(ack, c.snd_una);
        let released = Tcb {
            snd_una: ack,
            tx: c.tx.subrange(min2(bytes_acked, c.tx.len() as int), c.tx.len() as int),
            ..c
        };
        let timed = spec_update_rtt(released, now);
        Tcb {
            cwnd: spec_grow_cwnd(c, bytes_acked),
            dup_ack_count: 0,
            retransmit_count: 0,
            last_ack: ack,
            retransmit_timer: if ack != c.snd_nxt {
                spec_deadline(now, timed.rto)
            } else {
                c.retransmit_timer
            },
            ..timed
        }
    } else if ack == c.last_ack {
        let dups = sat_inc8(c.dup_ack_count);
        if dups == 3 {
            spec_retransmitted(spec_fast_recovery(c), now)
        } else if dups > 3 {
            Tcb { dup_ack_count: dups, cwnd: sat_add32(c.cwnd, MSS as int), ..c }
        } else {
            Tcb { dup_ack_count: dups, ..c }
        }
    } else {
        c
    }
}

/// The connection and interface after an acknowledgement of `ack` at tick
/// `now`: only the fast retransmission on the third duplicate sends
/// anything.
pub open spec fn spec_process_ack(c: Tcb, s: IfaceState, now: u64, ack: u32) -> (Tcb, IfaceState) {
    (
        spec_acked(c, now, ack),
        if !spec_advances(c, ack) && ack == c.last_ack && sat_inc8(c.dup_ack_count) == 3 {
            spec_retransmit(spec_fast_recovery(c), s, now).1
        } else {
            s
        },
    )
}

/// Index of the first unused staging slot at or after `from`, or the
/// number of slots.
pub open spec fn free_slot(ooo: Seq<OooView>, from: int) -> int
    decreases ooo.len() - from,
{
    if from >= ooo.len() {
        ooo.len() as int
    } else if !ooo[from].valid {
        from
    } else {
        free_slot(ooo, from + 1)
    }
}

/// The connection after a segment that starts at `seq` is staged: its
/// first 512 bytes go into the first unused slot; without an unused slot
/// the segment is dropped.
pub open spec fn spec_buffer_ooo(c: Tcb, seq: u32, data: Seq<u8>) -> Tcb {
    let i = free_slot(c.ooo, 0);
    if i < c.ooo.len() {
        Tcb {
            ooo: c.ooo.update(
                i,
                OooView {
                    seq,
                    data: data.subrange(0, min2(data.len() as int, OOO_DATA_SIZE as int)),
                    valid: true,
                },
            ),
            ..c
        }
    } else {
        c
    }
}

/// Index of the first staged segment at or after `from` that starts at
/// `seq`, or the number of slots.
pub open spec fn due_slot(ooo: Seq<OooView>, seq: u32, from: int) -> int
    decreases ooo.len() - from,
{
    if from >= ooo.len() {
        ooo.len() as int
    } else if ooo[from].valid && ooo[from].seq == seq {
        from
    } else {
        due_slot(ooo, seq, from + 1)
    }
}

/// The connection after `data` is delivered in order: as much as the
/// receive buffer has room for is appended, and the next expected
/// sequence number advances by that much.
pub open spec fn spec_accept(c: Tcb, data: Seq<u8>) -> Tcb {
    let n = min2(data.len() as int, RX_BUFFER_SIZE - c.rx.len());
    Tcb { rx: c.rx + data.subrange(0, n), rcv_nxt: seq_add(c.rcv_nxt, n), ..c }
}

/// The connection after staged segments that have become due are
/// delivered, the first due slot first, for at most `rounds` deliveries.
/// Each delivery frees its slot, so four rounds exhaust the staging area.
pub open spec fn spec_deliver_ooo(c: Tcb, rounds: int) -> Tcb
    decreases rounds,
{
    if rounds <= 0 {
        c
    } else {
        let i = due_slot(c.ooo, c.rcv_nxt, 0);
        if i >= c.ooo.len() {
            c
        } else {
            let accepted = spec_accept(c, c.ooo[i].data);
            spec_deliver_ooo(
                Tcb {
                    ooo: c.ooo.update(i, OooView { valid: false, ..c.ooo[i] }),
                    ..accepted
                },
                rounds - 1,
            )
        }
    }
}

/// The connection after the payload of a segment that starts at
/// `seg_seq` is processed.
///
/// A payload at the next expected sequence number is delivered, and
/// staged segments that have become due follow it. A payload ahead of it
/// is staged. A payload behind it is dropped. A segment without payload
/// does nothing.
pub open spec fn spec_fed(c: Tcb, seg_seq: u32, payload: Seq<u8>) -> Tcb {
    if payload.len() == 0 {
        c
    } else if seg_seq == c.rcv_nxt {
        let accepted = spec_accept(c, payload);
        spec_deliver_ooo(
            Tcb {
                has_data: true,
                rcv_wnd: (RX_BUFFER_SIZE - accepted.rx.len()) as u16,
                ..accepted
            },
            OOO_BUFFER_SIZE as int,
        )
    } else if spec_seq_after(seg_seq, c.rcv_nxt) {
        spec_buffer_ooo(c, seg_seq, payload)
    } else {
        c
    }
}

/// The connection and interface after the payload of a segment that
/// starts at `seg_seq` is processed at tick `now`: whatever became of the
/// payload, the position that the connection then expects is
/// acknowledged. A segment without payload is not answered.
pub open spec fn spec_process_data(c: Tcb, s: IfaceState, now: u64, seg_seq: u32, payload: Seq<u8>) -> (
    Tcb,
    IfaceState,
) {
    (
        spec_fed(c, seg_seq, payload),
        if payload.len() == 0 {
            s
        } else {
            spec_send_segment(spec_fed(c, seg_seq, payload), s, now, FLAG_ACK, Seq::empty()).0
        },
    )
}

/// Bytes that the send policy allows to go out now: what the smaller of
/// the peer's window and the congestion window leaves beyond the bytes in
/// flight, at most one segment, and no more than is waiting unsent.
pub open spec fn spec_sendable(c: Tcb) -> int {
    let window = min2(c.snd_wnd as int, c.cwnd as int);
    let room = if window > spec_flight(c) {
        window - spec_flight(c)
    } else {
        0
    };
    min2(min2(c.tx.len() - spec_unacked(c), room), MSS as int)
}

/// The bytes that the send policy sends now: the next unsent bytes of the
/// send buffer.
pub open spec fn spec_next_bytes(c: Tcb) -> Seq<u8> {
    c.tx.subrange(spec_unacked(c), spec_unacked(c) + spec_sendable(c))
}

/// The connection after the bytes chosen by the send policy have gone out
/// at tick `now`: the send position advances, and the retransmission
/// timer is started unless it is running.
pub open spec fn spec_sent(c: Tcb, now: u64) -> Tcb {
    Tcb {
        snd_nxt: seq_add(c.snd_nxt, spec_sendable(c)),
        last_send_time: now,
        retransmit_timer: if c.retransmit_timer == 0 {
            spec_deadline(now, c.rto)
        } else {
            c.retransmit_timer
        },
        ..c
    }
}

/// The connection and interface after the send policy runs at tick
/// `now`: the next unsent bytes of the send buffer, as many as the
/// windows allow, go out in one segment with PSH and ACK.
pub open spec fn spec_send_pending(c: Tcb, s: IfaceState, now: u64) -> (Tcb, IfaceState) {
    if spec_sendable(c) <= 0 {
        (c, s)
    } else {
        let sent = spec_send_segment(c, s, now, FLAG_ACK | FLAG_PSH, spec_next_bytes(c));
        (
            if sent.1 {
                spec_sent(c, now)
            } else {
                c
            },
            sent.0,
        )
    }
}

/// The staging slots as plain values.
pub open spec fn ooo_view(ooo: Seq<OooSegment>) -> Seq<OooView> {
    ooo.map_values(|s: OooSegment| s@)
}

/// The tick `d` ticks after `now`, pinned at the last tick.
pub fn deadline(now: u64, d: u64) -> (t: u64)
    ensures
        t == spec_deadline(now, d),
{
    now.saturating_add(d)
}

/// Updates the round-trip estimate and the retransmission timeout from
/// the time since the last timed send.
pub fn update_rtt(conn: &mut TcpControlBlock, now: u64)
    requires
        old(conn).wf(),
    ensures
        final(conn).wf(),
        final(conn)@ == spec_update_rtt(old(conn)@, now),
{
    let measured: u128 = if now >= conn.last_send_time {
        (now - conn.last_send_time) as u128
    } else {
        0
    };
    let srtt: u128 = conn.srtt as u128;
    let rttvar: u128 = conn.rttvar as u128;
    let new_srtt: u128;
    let new_rttvar: u128;
    if conn.srtt == 0 {
        new_srtt = measured;
        new_rttvar = measured / 2;
    } else {
        let diff: u128 = if measured > srtt {
            measured - srtt
        } else {
            srtt - measured
        };
        new_rttvar = (3 * rttvar + diff) / 4;
        new_srtt = (7 * srtt + measured) / 8;
    }
    let raw: u128 = new_srtt + 4 * new_rttvar;
    let rto: u128 = if raw < MIN_RTO as u128 {
        MIN_RTO as u128
    } else if raw > MAX_RTO as u128 {
        MAX_RTO as u128
    } else {
        raw
    };
    conn.srtt = new_srtt as u64;
    conn.rttvar = new_rttvar as u64;
    conn.rto = rto as u64;
}

/// Bytes sent and not yet acknowledged.
pub fn flight_size(conn: &TcpControlBlock) -> (n: u32)
    ensures
        n == spec_flight(conn@),
{
    seq_minus(conn.snd_nxt, conn.snd_una)
}

/// Bytes of the send buffer that are in flight.
pub fn unacked(conn: &TcpControlBlock) -> (n: usize)
    ensures
        n == spec_unacked(conn@),
{
    let flight: u32 = flight_size(conn);
    let pending: usize = conn.tx_buffer.available();
    if (flight as u64) <= pending as u64 {
        flight as usize
    } else {
        pending
    }
}

/// Retransmits the earliest unacknowledged bytes.
pub fn retransmit(conn: &mut TcpControlBlock, iface: &mut NetInterface, now: u64)
    requires
        old(conn).wf(),
        old(iface).wf(),
    ensures
        final(conn).wf(),
        final(iface).wf(),
        (final(conn)@, final(iface)@) == spec_retransmit(old(conn)@, old(iface)@, now),
{
    let in_flight: usize = unacked(conn);
    let to_send: usize = if in_flight <= MSS as usize {
        in_flight
    } else {
        MSS as usize
    };
    if to_send == 0 {
        return ;
    }
    let data: Vec<u8> = conn.tx_buffer.copy_range(0, to_send);
    let next: u32 = conn.snd_nxt;
    conn.snd_nxt = conn.snd_una;
    assert(conn@ == Tcb { snd_nxt: old(conn)@.snd_una, ..old(conn)@ });
    send_segment(conn, iface, now, FLAG_ACK | FLAG_PSH, data.as_slice());
    conn.snd_nxt = next;
    conn.retransmit_timer = deadline(now, conn.rto);
    conn.retransmit_count = if conn.retransmit_count == 255 {
        255
    } else {
        conn.retransmit_count + 1
    };
}

/// Processes an acknowledgement of `ack`.
pub fn process_ack(conn: &mut TcpControlBlock, iface: &mut NetInterface, now: u64, ack: u32)
    requires
        old(conn).wf(),
        old(iface).wf(),
    ensures
        final(conn).wf(),
        final(iface).wf(),
        (final(conn)@, final(iface)@) == spec_process_ack(old(conn)@, old(iface)@, now, ack),
{
    if seq_after(ack, conn.snd_una) && !seq_after(ack, conn.snd_nxt) {
        let bytes_acked: u32 = seq_minus(ack, conn.snd_una);
        let cwnd: u32 = conn.cwnd;
        let grown: u32 = if cwnd < conn.ssthresh {
            cwnd.saturating_add(bytes_acked)
        } else {
            cwnd.saturating_add(((MSS as u32) * (MSS as u32)) / cwnd)
        };
        conn.snd_una = ack;
        conn.tx_buffer.consume(bytes_acked as usize);
        let ghost released = conn@;
        update_rtt(conn, now);
        conn.cwnd = grown;
        conn.dup_ack_count = 0;
        conn.retransmit_count = 0;
        conn.last_ack = ack;
        if conn.snd_una != conn.snd_nxt {
            conn.retransmit_timer = deadline(now, conn.rto);
        }
    } else if ack == conn.last_ack {
        conn.dup_ack_count = if conn.dup_ack_count == 255 {
            255
        } else {
            conn.dup_ack_count + 1
        };
        if conn.dup_ack_count == 3 {
            let half: u32 = conn.cwnd / 2;
            conn.ssthresh = if half > 2 * (MSS as u32) {
                half
            } else {
                2 * (MSS as u32)
            };
            conn.cwnd = conn.ssthresh + 3 * (MSS as u32);
            retransmit(conn, iface, now);
        } else if conn.dup_ack_count > 3 {
            conn.cwnd = conn.cwnd.saturating_add(MSS as u32);
        }
    }
}

/// Index of the first unused staging slot, or the number of slots.
pub fn find_free_slot(ooo: &Vec<OooSegment>) -> (i: usize)
    ensures
        i == free_slot(ooo_view(ooo@), 0),
        i <= ooo@.len(),
{
    let n: usize = ooo.len();
    let mut i: usize = 0;
    while i < n
        invariant
            n == ooo@.len(),
            i <= n,
            free_slot(ooo_view(ooo@), 0) == free_slot(ooo_view(ooo@), i as int),
        decreases n - i,
    {
        if !ooo[i].valid {
            return i;
        }
        i += 1;
    }
    i
}

/// Index of the first staged segment that starts at `seq`, or the number
/// of slots.
pub fn find_due_slot(ooo: &Vec<OooSegment>, seq: u32) -> (i: usize)
    ensures
        i == due_slot(ooo_view(ooo@), seq, 0),
        i <= ooo@.len(),
{
    let n: usize = ooo.len();
    let mut i: usize = 0;
    while i < n
        invariant
            n == ooo@.len(),
            i <= n,
            due_slot(ooo_view(ooo@), seq, 0) == due_slot(ooo_view(ooo@), seq, i as int),
        decreases n - i,
    {
        if ooo[i].valid && ooo[i].seq == seq {
            return i;
        }
        i += 1;
    }
    i
}

/// Stages a segment that arrived ahead of its turn.
pub fn buffer_ooo_segment(conn: &mut TcpControlBlock, seq: u32, data: &[u8])
    requires
        old(conn).wf(),
    ensures
        final(conn).wf(),
        final(conn)@ == spec_buffer_ooo(old(conn)@, seq, data@),
{
    let i: usize = find_free_slot(&conn.ooo_segments);
    if i >= conn.ooo_segments.len() {
        return ;
    }
    let len: usize = if data.len() <= OOO_DATA_SIZE {
        data.len()
    } else {
        OOO_DATA_SIZE
    };
    let mut slot: OooSegment = conn.ooo_segments.remove(i);
    let mut k: usize = 0;
    while k < len
        invariant
            k <= len,
            len <= OOO_DATA_SIZE,
            len <= data@.len(),
            slot.data@.len() == OOO_DATA_SIZE,
            forall|j: int| 0 <= j < k ==> slot.data@[j] == data@[j],
        decreases len - k,
    {
        slot.data.set(k, data[k]);
        k += 1;
    }
    slot.seq = seq;
    slot.len = len as u16;
    slot.valid = true;
    proof {
        assert(slot@.data =~= data@.subrange(0, len as int));
    }
    conn.ooo_segments.insert(i, slot);
    proof {
        assert(conn@.ooo =~= old(conn)@.ooo.update(
            i as int,
            OooView { seq, data: data@.subrange(0, len as int), valid: true },
        ));
        assert forall|j: int| 0 <= j < OOO_BUFFER_SIZE implies (#[trigger] conn.ooo_segments@[j]).wf() by {
            if j != i {
                assert(old(conn).ooo_segments@[j].wf());
            }
        }
    }
}

/// Delivers staged segments that have become due.
pub fn deliver_ooo_segments(conn: &mut TcpControlBlock)
    requires
        old(conn).wf(),
    ensures
        final(conn).wf(),
        final(conn)@ == spec_deliver_ooo(old(conn)@, OOO_BUFFER_SIZE as int),
{
    let mut round: usize = 0;
    while round < OOO_BUFFER_SIZE
        invariant
            conn.wf(),
            round <= OOO_BUFFER_SIZE,
            spec_deliver_ooo(old(conn)@, OOO_BUFFER_SIZE as int) == spec_deliver_ooo(
                conn@,
                OOO_BUFFER_SIZE - round,
            ),
        decreases OOO_BUFFER_SIZE - round,
    {
        let i: usize = find_due_slot(&conn.ooo_segments, conn.rcv_nxt);
        if i >= conn.ooo_segments.len() {
            return ;
        }
        let ghost before = conn@;
        let ghost slots = conn.ooo_segments@;
        let mut slot: OooSegment = conn.ooo_segments.remove(i);
        assert(slot.wf());
        let written: usize = conn.rx_buffer.write(
            slice_subrange(slot.data.as_slice(), 0, slot.len as usize),
        );
        conn.rcv_nxt = seq_plus(conn.rcv_nxt, written as u32);
        slot.valid = false;
        conn.ooo_segments.insert(i, slot);
        proof {
            let accepted = spec_accept(before, before.ooo[i as int].data);
            assert(conn@.ooo =~= before.ooo.update(
                i as int,
                OooView { valid: false, ..before.ooo[i as int] },
            ));
            assert(conn@ == Tcb { ooo: conn@.ooo, ..accepted });
            assert forall|j: int| 0 <= j < OOO_BUFFER_SIZE implies (
            #[trigger] conn.ooo_segments@[j]).wf() by {
                if j != i {
                    assert(slots[j].wf());
                }
            }
        }
        round += 1;
    }
}

/// Processes the payload of a received segment.
pub fn process_data(
    conn: &mut TcpControlBlock,
    iface: &mut NetInterface,
    now: u64,
    tcp: &TcpHeader,
    data: &[u8],
)
    requires
        old(conn).wf(),
        old(iface).wf(),
    ensures
        final(conn).wf(),
        final(iface).wf(),
        (final(conn)@, final(iface)@) == spec_process_data(
            old(conn)@,
            old(iface)@,
            now,
            tcp.seq_num,
            spec_payload(tcp.data_offset * 4, data@),
        ),
{
    let payload: &[u8] = tcp.payload(data);
    if payload.len() == 0 {
        return ;
    }
    let empty: Vec<u8> = Vec::new();
    let seg_seq: u32 = tcp.seq_num;
    if seg_seq == conn.rcv_nxt {
        let written: usize = conn.rx_buffer.write(payload);
        conn.rcv_nxt = seq_plus(conn.rcv_nxt, written as u32);
        conn.has_data = true;
        conn.update_rcv_wnd();
        deliver_ooo_segments(conn);
        send_segment(conn, iface, now, FLAG_ACK, empty.as_slice());
    } else if seq_after(seg_seq, conn.rcv_nxt) {
        buffer_ooo_segment(conn, seg_seq, payload);
        send_segment(conn, iface, now, FLAG_ACK, empty.as_slice());
    } else {
        send_segment(conn, iface, now, FLAG_ACK, empty.as_slice());
    }
}

/// Runs the send policy: sends the next unsent bytes of the send buffer,
/// as far as the windows allow, in one segment.
pub fn send_pending_data(conn: &mut TcpControlBlock, iface: &mut NetInterface, now: u64)
    requires
        old(conn).wf(),
        old(iface).wf(),
    ensures
        final(conn).wf(),
        final(iface).wf(),
        (final(conn)@, final(iface)@) == spec_send_pending(old(conn)@, old(iface)@, now),
{
    let pending: usize = conn.tx_buffer.available();
    let flight: u32 = flight_size(conn);
    let sent_bytes: usize = unacked(conn);
    let window: u32 = if (conn.snd_wnd as u32) <= conn.cwnd {
        conn.snd_wnd as u32
    } else {
        conn.cwnd
    };
    let room: u32 = if window > flight {
        window - flight
    } else {
        0
    };
    let unsent: usize = pending - sent_bytes;
    let limited: usize = if (unsent as u64) <= room as u64 {
        unsent
    } else {
        room as usize
    };
    let to_send: usize = if limited <= MSS as usize {
        limited
    } else {
        MSS as usize
    };
    if to_send == 0 {
        return ;
    }
    let data: Vec<u8> = conn.tx_buffer.copy_range(sent_bytes, to_send);
    if send_segment(conn, iface, now, FLAG_ACK | FLAG_PSH, data.as_slice()) {
        conn.snd_nxt = seq_plus(conn.snd_nxt, to_send as u32);
        conn.last_send_time = now;
        if conn.retransmit_timer == 0 {
            conn.retransmit_timer = deadline(now, conn.rto);
        }
    }
}

/// The initial sequence number chosen at tick `now`.
pub open spec fn spec_iss(now: u64) -> u32 {
    (((now % 0x1_0000_0000) * 0x41C6_4E6D + 0x3039) % 0x1_0000_0000) as u32
}

/// Chooses an initial sequence number from the tick count.
pub fn generate_iss(now: u64) -> (iss: u32)
    ensures
        iss == spec_iss(now),
{
    let low: u64 = now % 0x1_0000_0000;
    assert(low * 0x41C6_4E6D <= 0xFFFF_FFFF * 0x41C6_4E6D) by (nonlinear_arith)
        requires
            low <= 0xFFFF_FFFF,
    ;
    ((low * 0x41C6_4E6D + 0x3039) % 0x1_0000_0000) as u32
}

/// The connection after the peer's closing of its direction is noted:
/// the FIN takes one sequence number.
pub open spec fn spec_fin_seen(c: Tcb) -> Tcb {
    Tcb { rcv_nxt: seq_add(c.rcv_nxt, 1), ..c }
}

/// The connection in Time-Wait from tick `now`.
pub open spec fn spec_time_wait(c: Tcb, now: u64) -> Tcb {
    Tcb { state: TcpState::TimeWait, time_wait_timer: spec_deadline(now, TIME_WAIT_TIMEOUT), ..c }
}

/// A listening connection that has taken note of the SYN with header `h`
/// from `src_ip` at tick `now`: it knows the peer's initial sequence
/// number and window, and has chosen its own initial sequence number.
pub open spec fn spec_syn_noted(c: Tcb, now: u64, h: TcpHeader, src_ip: [u8; 4]) -> Tcb {
    Tcb {
        irs: h.seq_num,
        rcv_nxt: seq_add(h.seq_num, 1),
        iss: spec_iss(now),
        snd_nxt: spec_iss(now),
        snd_una: spec_iss(now),
        snd_wnd: h.window,
        remote_ip: src_ip,
        remote_port: h.src_port,
        ..c
    }
}

/// The connection after its answer to a SYN, or its own SYN, was handed
/// to the network at tick `now`: if it went out, it is in flight, the
/// connection is in `state`, and the retransmission timer runs.
pub open spec fn spec_syn_out(c: Tcb, now: u64, state: TcpState, sent: bool) -> Tcb {
    if sent {
        Tcb {
            snd_nxt: seq_add(c.iss, 1),
            state,
            last_send_time: now,
            retransmit_timer: spec_deadline(now, c.rto),
            ..c
        }
    } else {
        c
    }
}

/// A listening connection meets a segment: a SYN without ACK is answered
/// with SYN and ACK, and once that answer is out the connection is in
/// SynReceived.
pub open spec fn spec_on_listen(c: Tcb, s: IfaceState, now: u64, h: TcpHeader, src_ip: [u8; 4]) -> (
    Tcb,
    IfaceState,
) {
    if has_syn(h.flags) && !has_ack(h.flags) {
        let noted = spec_syn_noted(c, now, h, src_ip);
        let sent = spec_send_segment(noted, s, now, FLAG_SYN | FLAG_ACK, Seq::empty());
        (spec_syn_out(noted, now, TcpState::SynReceived, sent.1), sent.0)
    } else {
        (c, s)
    }
}

/// A connection in SynSent that has taken note of the SYN and ACK with
/// header `h`: its own SYN is acknowledged, and it knows the peer's
/// initial sequence number and window.
pub open spec fn spec_syn_ack_noted(c: Tcb, h: TcpHeader) -> Tcb {
    Tcb {
        irs: h.seq_num,
        rcv_nxt: seq_add(h.seq_num, 1),
        snd_una: h.ack_num,
        snd_wnd: h.window,
        ..c
    }
}

/// The connection after its acknowledgement of the peer's SYN was handed
/// to the network at tick `now`: if it went out, the connection is
/// established and has its first round-trip sample.
pub open spec fn spec_opened(c: Tcb, now: u64, sent: bool) -> Tcb {
    if sent {
        spec_update_rtt(Tcb { state: TcpState::Established, ..c }, now)
    } else {
        c
    }
}

/// A connection in SynSent meets a segment: a SYN with an ACK of our SYN
/// is acknowledged, and once that acknowledgement is out the connection
/// is established; a SYN alone is a simultaneous open and is answered
/// with SYN and ACK.
pub open spec fn spec_on_syn_sent(c: Tcb, s: IfaceState, now: u64, h: TcpHeader) -> (Tcb, IfaceState) {
    if has_syn(h.flags) && has_ack(h.flags) {
        if h.ack_num == c.snd_nxt {
            let noted = spec_syn_ack_noted(c, h);
            let sent = spec_send_segment(noted, s, now, FLAG_ACK, Seq::empty());
            (spec_opened(noted, now, sent.1), sent.0)
        } else {
            (c, s)
        }
    } else if has_syn(h.flags) {
        let noted = Tcb { irs: h.seq_num, rcv_nxt: seq_add(h.seq_num, 1), ..c };
        let sent = spec_send_segment(noted, s, now, FLAG_SYN | FLAG_ACK, Seq::empty());
        if sent.1 {
            (Tcb { state: TcpState::SynReceived, ..noted }, sent.0)
        } else {
            (noted, sent.0)
        }
    } else {
        (c, s)
    }
}

/// A connection in SynReceived after the ACK of its SYN with header `h`
/// at tick `now`: it is established and has its first round-trip sample.
pub open spec fn spec_syn_confirmed(c: Tcb, now: u64, h: TcpHeader) -> Tcb {
    spec_update_rtt(
        Tcb { snd_una: h.ack_num, snd_wnd: h.window, state: TcpState::Established, ..c },
        now,
    )
}

/// A connection in SynReceived meets a segment: an ACK of our SYN
/// establishes the connection, and any payload that comes with it is
/// processed.
pub open spec fn spec_on_syn_received(
    c: Tcb,
    s: IfaceState,
    now: u64,
    h: TcpHeader,
    payload: Seq<u8>,
) -> (Tcb, IfaceState) {
    if has_ack(h.flags) && h.ack_num == c.snd_nxt {
        spec_process_data(spec_syn_confirmed(c, now, h), s, now, h.seq_num, payload)
    } else {
        (c, s)
    }
}

/// An established connection meets a segment: its acknowledgement and
/// its payload are processed, and a FIN is acknowledged and moves the
/// connection to CloseWait.
pub open spec fn spec_on_established(
    c: Tcb,
    s: IfaceState,
    now: u64,
    h: TcpHeader,
    payload: Seq<u8>,
) -> (Tcb, IfaceState) {
    let acked = if has_ack(h.flags) {
        spec_process_ack(c, s, now, h.ack_num)
    } else {
        (c, s)
    };
    let fed = spec_process_data(acked.0, acked.1, now, h.seq_num, payload);
    if has_fin(h.flags) {
        let closed = Tcb { remote_closed: true, ..spec_fin_seen(fed.0) };
        (
            Tcb { state: TcpState::CloseWait, ..closed },
            spec_send_segment(closed, fed.1, now, FLAG_ACK, Seq::empty()).0,
        )
    } else {
        fed
    }
}

/// A connection in FinWait1 meets a segment: an ACK of our FIN leads to
/// FinWait2, or with the peer's FIN straight to Time-Wait; the peer's FIN
/// alone leads to Closing.
pub open spec fn spec_on_fin_wait_1(c: Tcb, s: IfaceState, now: u64, h: TcpHeader) -> (Tcb, IfaceState) {
    if has_ack(h.flags) && h.ack_num == c.snd_nxt {
        let acked = Tcb { snd_una: h.ack_num, ..c };
        if has_fin(h.flags) {
            let seen = spec_fin_seen(acked);
            (
                spec_time_wait(seen, now),
                spec_send_segment(seen, s, now, FLAG_ACK, Seq::empty()).0,
            )
        } else {
            (Tcb { state: TcpState::FinWait2, ..acked }, s)
        }
    } else if has_fin(h.flags) {
        let seen = spec_fin_seen(c);
        (
            Tcb { state: TcpState::Closing, ..seen },
            spec_send_segment(seen, s, now, FLAG_ACK, Seq::empty()).0,
        )
    } else {
        (c, s)
    }
}

/// A connection in FinWait2 meets a segment: the peer's FIN is
/// acknowledged and leads to Time-Wait.
pub open spec fn spec_on_fin_wait_2(c: Tcb, s: IfaceState, now: u64, h: TcpHeader) -> (Tcb, IfaceState) {
    if has_fin(h.flags) {
        let seen = spec_fin_seen(c);
        (spec_time_wait(seen, now), spec_send_segment(seen, s, now, FLAG_ACK, Seq::empty()).0)
    } else {
        (c, s)
    }
}

/// The connection and interface after a segment with header `h` and
/// payload `payload` from `src_ip` is processed at tick `now`.
///
/// A reset closes the connection whatever its state. Otherwise the
/// segment is handled by the rule of the state the connection is in;
/// Closed and Time-Wait ignore every segment.
pub open spec fn spec_process_segment(
    c: Tcb,
    s: IfaceState,
    now: u64,
    h: TcpHeader,
    payload: Seq<u8>,
    src_ip: [u8; 4],
) -> (Tcb, IfaceState) {
    if has_rst(h.flags) {
        (spec_new_tcb(), s)
    } else {
        match c.state {
            TcpState::Closed => (c, s),
            TcpState::Listen => spec_on_listen(c, s, now, h, src_ip),
            TcpState::SynSent => spec_on_syn_sent(c, s, now, h),
            TcpState::SynReceived => spec_on_syn_received(c, s, now, h, payload),
            TcpState::Established => spec_on_established(c, s, now, h, payload),
            TcpState::FinWait1 => spec_on_fin_wait_1(c, s, now, h),
            TcpState::FinWait2 => spec_on_fin_wait_2(c, s, now, h),
            TcpState::CloseWait => if has_ack(h.flags) {
                spec_process_ack(c, s, now, h.ack_num)
            } else {
                (c, s)
            },
            TcpState::Closing => if has_ack(h.flags) && h.ack_num == c.snd_nxt {
                (spec_time_wait(c, now), s)
            } else {
                (c, s)
            },
            TcpState::LastAck => if has_ack(h.flags) && h.ack_num == c.snd_nxt {
                (spec_new_tcb(), s)
            } else {
                (c, s)
            },
            TcpState::TimeWait => (c, s),
        }
    }
}

/// Handles a segment for a listening connection.
fn on_listen(
    conn: &mut TcpControlBlock,
    iface: &mut NetInterface,
    now: u64,
    tcp: &TcpHeader,
    src_ip: &[u8; 4],
)
    requires
        old(conn).wf(),
        old(iface).wf(),
    ensures
        final(conn).wf(),
        final(iface).wf(),
        (final(conn)@, final(iface)@) == spec_on_listen(
            old(conn)@,
            old(iface)@,
            now,
            *tcp,
            *src_ip,
        ),
{
    if tcp.is_syn() && !tcp.is_ack() {
        let empty: Vec<u8> = Vec::new();
        conn.irs = tcp.seq_num;
        conn.rcv_nxt = seq_plus(tcp.seq_num, 1);
        conn.iss = generate_iss(now);
        conn.snd_nxt = conn.iss;
        conn.snd_una = conn.iss;
        conn.snd_wnd = tcp.window;
        conn.remote_ip = *src_ip;
        conn.remote_port = tcp.src_port;
        if send_segment(conn, iface, now, FLAG_SYN | FLAG_ACK, empty.as_slice()) {
            conn.snd_nxt = seq_plus(conn.snd_nxt, 1);
            conn.state = TcpState::SynReceived;
            conn.last_send_time = now;
            conn.retransmit_timer = deadline(now, conn.rto);
        }
    }
}

/// Handles a segment for a connection in SynSent.
fn on_syn_sent(conn: &mut TcpControlBlock, iface: &mut NetInterface, now: u64, tcp: &TcpHeader)
    requires
        old(conn).wf(),
        old(iface).wf(),
    ensures
        final(conn).wf(),
        final(iface).wf(),
        (final(conn)@, final(iface)@) == spec_on_syn_sent(old(conn)@, old(iface)@, now, *tcp),
{
    let empty: Vec<u8> = Vec::new();
    if tcp.is_syn() && tcp.is_ack() {
        if tcp.ack_num == conn.snd_nxt {
            conn.irs = tcp.seq_num;
            conn.rcv_nxt = seq_plus(tcp.seq_num, 1);
            conn.snd_una = tcp.ack_num;
            conn.snd_wnd = tcp.window;
            if send_segment(conn, iface, now, FLAG_ACK, empty.as_slice()) {
                conn.state = TcpState::Established;
                update_rtt(conn, now);
            }
        }
    } else if tcp.is_syn() {
        conn.irs = tcp.seq_num;
        conn.rcv_nxt = seq_plus(tcp.seq_num, 1);
        if send_segment(conn, iface, now, FLAG_SYN | FLAG_ACK, empty.as_slice()) {
            conn.state = TcpState::SynReceived;
        }
    }
}

/// Handles a segment for an established connection.
fn on_established(
    conn: &mut TcpControlBlock,
    iface: &mut NetInterface,
    now: u64,
    tcp: &TcpHeader,
    data: &[u8],
)
    requires
        old(conn).wf(),
        old(iface).wf(),
    ensures
        final(conn).wf(),
        final(iface).wf(),
        (final(conn)@, final(iface)@) == spec_on_established(
            old(conn)@,
            old(iface)@,
            now,
            *tcp,
            spec_payload(tcp.data_offset * 4, data@),
        ),
{
    if tcp.is_ack() {
        process_ack(conn, iface, now, tcp.ack_num);
    }
    process_data(conn, iface, now, tcp, data);
    if tcp.is_fin() {
        let empty: Vec<u8> = Vec::new();
        conn.rcv_nxt = seq_plus(conn.rcv_nxt, 1);
        conn.remote_closed = true;
        send_segment(conn, iface, now, FLAG_ACK, empty.as_slice());
        conn.state = TcpState::CloseWait;
    }
}

/// Handles a segment for a connection in FinWait1.
fn on_fin_wait_1(conn: &mut TcpControlBlock, iface: &mut NetInterface, now: u64, tcp: &TcpHeader)
    requires
        old(conn).wf(),
        old(iface).wf(),
    ensures
        final(conn).wf(),
        final(iface).wf(),
        (final(conn)@, final(iface)@) == spec_on_fin_wait_1(old(conn)@, old(iface)@, now, *tcp),
{
    let empty: Vec<u8> = Vec::new();
    if tcp.is_ack() && tcp.ack_num == conn.snd_nxt {
        conn.snd_una = tcp.ack_num;
        if tcp.is_fin() {
            conn.rcv_nxt = seq_plus(conn.rcv_nxt, 1);
            send_segment(conn, iface, now, FLAG_ACK, empty.as_slice());
            conn.state = TcpState::TimeWait;
            conn.time_wait_timer = deadline(now, TIME_WAIT_TIMEOUT);
        } else {
            conn.state = TcpState::FinWait2;
        }
    } else if tcp.is_fin() {
        conn.rcv_nxt = seq_plus(conn.rcv_nxt, 1);
        send_segment(conn, iface, now, FLAG_ACK, empty.as_slice());
        conn.state = TcpState::Closing;
    }
}

/// Processes a segment for the connection it belongs to.
pub fn process_segment(
    conn: &mut TcpControlBlock,
    iface: &mut NetInterface,
    now: u64,
    tcp: &TcpHeader,
    data: &[u8],
    ip_header: &Ipv4Header,
)
    requires
        old(conn).wf(),
        old(iface).wf(),
    ensures
        final(conn).wf(),
        final(iface).wf(),
        (final(conn)@, final(iface)@) == spec_process_segment(
            old(conn)@,
            old(iface)@,
            now,
            *tcp,
            spec_payload(tcp.data_offset * 4, data@),
            ip_header.src_ip,
        ),
{
    if tcp.is_rst() {
        conn.reset();
        return ;
    }
    match conn.state {
        TcpState::Closed => {},
        TcpState::Listen => {
            on_listen(conn, iface, now, tcp, &ip_header.src_ip);
        },
        TcpState::SynSent => {
            on_syn_sent(conn, iface, now, tcp);
        },
        TcpState::SynReceived => {
            if tcp.is_ack() && tcp.ack_num == conn.snd_nxt {
                conn.snd_una = tcp.ack_num;
                conn.snd_wnd = tcp.window;
                conn.state = TcpState::Established;
                update_rtt(conn, now);
                process_data(conn, iface, now, tcp, data);
            }
        },
        TcpState::Established => {
            on_established(conn, iface, now, tcp, data);
        },
        TcpState::FinWait1 => {
            on_fin_wait_1(conn, iface, now, tcp);
        },
        TcpState::FinWait2 => {
            if tcp.is_fin() {
                let empty: Vec<u8> = Vec::new();
                conn.rcv_nxt = seq_plus(conn.rcv_nxt, 1);
                send_segment(conn, iface, now, FLAG_ACK, empty.as_slice());
                conn.state = TcpState::TimeWait;
                conn.time_wait_timer = deadline(now, TIME_WAIT_TIMEOUT);
            }
        },
        TcpState::CloseWait => {
            if tcp.is_ack() {
                process_ack(conn, iface, now, tcp.ack_num);
            }
        },
        TcpState::Closing => {
            if tcp.is_ack() && tcp.ack_num == conn.snd_nxt {
                conn.state = TcpState::TimeWait;
                conn.time_wait_timer = deadline(now, TIME_WAIT_TIMEOUT);
            }
        },
        TcpState::LastAck => {
            if tcp.is_ack() && tcp.ack_num == conn.snd_nxt {
                conn.reset();
            }
        },
        TcpState::TimeWait => {},
    }
}

/// The connection table and the ephemeral port counter.
pub struct TcpStack {
    /// The connection slots; always `MAX_CONNECTIONS` of them.
    pub connections: Vec<TcpControlBlock>,
    /// Ephemeral port to hand out next.
    pub next_port: u16,
}

/// Whether a connection is the one for segments to `local_port` from
/// `remote_ip`, `remote_port`.
pub open spec fn matches(c: Tcb, local_port: u16, remote_ip: Seq<u8>, remote_port: u16) -> bool {
    c.in_use && c.local_port == local_port && c.remote_ip@ == remote_ip && c.remote_port
        == remote_port
}

/// Index of the first connection at or after `from` that matches, or the
/// table size.
pub open spec fn conn_index(
    conns: Seq<Tcb>,
    local_port: u16,
    remote_ip: Seq<u8>,
    remote_port: u16,
    from: int,
) -> int
    decreases conns.len() - from,
{
    if from >= conns.len() {
        conns.len() as int
    } else if matches(conns[from], local_port, remote_ip, remote_port) {
        from
    } else {
        conn_index(conns, local_port, remote_ip, remote_port, from + 1)
    }
}

/// Index of the first connection at or after `from` that listens on
/// `local_port`, or the table size.
pub open spec fn listener_index(conns: Seq<Tcb>, local_port: u16, from: int) -> int
    decreases conns.len() - from,
{
    if from >= conns.len() {
        conns.len() as int
    } else if conns[from].in_use && conns[from].state == TcpState::Listen && conns[from].local_port
        == local_port {
        from
    } else {
        listener_index(conns, local_port, from + 1)
    }
}

/// Index of the first free slot at or after `from`, or the table size.
pub open spec fn unused_index(conns: Seq<Tcb>, from: int) -> int
    decreases conns.len() - from,
{
    if from >= conns.len() {
        conns.len() as int
    } else if !conns[from].in_use {
        from
    } else {
        unused_index(conns, from + 1)
    }
}

/// A fresh connection that has been taken.
pub open spec fn spec_taken_tcb() -> Tcb {
    Tcb { in_use: true, ..spec_new_tcb() }
}

/// The port counter after a port is handed out: ephemeral ports go round
/// from 49152 to 65535.
pub open spec fn spec_next_port(port: u16) -> u16 {
    if port >= 65535 {
        FIRST_EPHEMERAL_PORT
    } else {
        (port + 1) as u16
    }
}

impl TcpStack {
    /// The connections as plain values.
    pub open spec fn conns(&self) -> Seq<Tcb> {
        self.connections@.map_values(|c: TcpControlBlock| c@)
    }

    /// The table has its fixed size and every connection is well formed.
    pub open spec fn wf(&self) -> bool {
        &&& self.connections@.len() == MAX_CONNECTIONS
        &&& forall|i: int| 0 <= i < MAX_CONNECTIONS ==> (#[trigger] self.connections@[i]).wf()
    }

    /// A table of free slots.
    pub fn new() -> (t: TcpStack)
        ensures
            t.wf(),
            t.next_port == FIRST_EPHEMERAL_PORT,
            forall|i: int| 0 <= i < MAX_CONNECTIONS ==> (#[trigger] t.conns()[i]) == spec_new_tcb(),
    {
        let mut connections: Vec<TcpControlBlock> = Vec::new();
        let mut i: usize = 0;
        while i < MAX_CONNECTIONS
            invariant
                i <= MAX_CONNECTIONS,
                connections@.len() == i,
                forall|k: int|
                    0 <= k < i ==> (#[trigger] connections@[k]).wf() && connections@[k]@
                        == spec_new_tcb(),
            decreases MAX_CONNECTIONS - i,
        {
            connections.push(TcpControlBlock::new());
            i += 1;
        }
        TcpStack { connections, next_port: FIRST_EPHEMERAL_PORT }
    }
}

/// Hands out the next ephemeral port.
pub fn alloc_port(stack: &mut TcpStack) -> (port: u16)
    ensures
        port == old(stack).next_port,
        final(stack).next_port == spec_next_port(old(stack).next_port),
        final(stack).connections == old(stack).connections,
{
    let port: u16 = stack.next_port;
    stack.next_port = if port >= 65535 {
        FIRST_EPHEMERAL_PORT
    } else {
        port + 1
    };
    port
}

/// The connection for segments to `local_port` from `remote_ip`,
/// `remote_port`.
pub fn find_connection(stack: &TcpStack, local_port: u16, remote_ip: &[u8; 4], remote_port: u16) -> (r:
    Option<usize>)
    ensures
        match r {
            Some(i) => i < stack.conns().len() && i == conn_index(
                stack.conns(),
                local_port,
                remote_ip@,
                remote_port,
                0,
            ),
            None => conn_index(stack.conns(), local_port, remote_ip@, remote_port, 0)
                == stack.conns().len(),
        },
{
    let n: usize = stack.connections.len();
    let mut i: usize = 0;
    while i < n
        invariant
            n == stack.connections@.len(),
            n == stack.conns().len(),
            i <= n,
            conn_index(stack.conns(), local_port, remote_ip@, remote_port, 0) == conn_index(
                stack.conns(),
                local_port,
                remote_ip@,
                remote_port,
                i as int,
            ),
        decreases n - i,
    {
        let c: &TcpControlBlock = &stack.connections[i];
        if c.in_use && c.local_port == local_port && ip_eq(&c.remote_ip, remote_ip)
            && c.remote_port == remote_port {
            return Some(i);
        }
        i += 1;
    }
    None
}

/// The connection that listens on `local_port`.
pub fn find_listener(stack: &TcpStack, local_port: u16) -> (r: Option<usize>)
    ensures
        match r {
            Some(i) => i < stack.conns().len() && i == listener_index(
                stack.conns(),
                local_port,
                0,
            ),
            None => listener_index(stack.conns(), local_port, 0) == stack.conns().len(),
        },
{
    let n: usize = stack.connections.len();
    let mut i: usize = 0;
    while i < n
        invariant
            n == stack.connections@.len(),
            n == stack.conns().len(),
            i <= n,
            listener_index(stack.conns(), local_port, 0) == listener_index(
                stack.conns(),
                local_port,
                i as int,
            ),
        decreases n - i,
    {
        let c: &TcpControlBlock = &stack.connections[i];
        if c.in_use && c.state == TcpState::Listen && c.local_port == local_port {
            return Some(i);
        }
        i += 1;
    }
    None
}

/// Takes the first free slot: it is reset and marked in use. `None` if
/// every slot is taken.
pub fn alloc_connection(stack: &mut TcpStack) -> (r: Option<usize>)
    requires
        old(stack).wf(),
    ensures
        final(stack).wf(),
        final(stack).next_port == old(stack).next_port,
        match r {
            Some(i) => i < MAX_CONNECTIONS
                && i == unused_index(old(stack).conns(), 0)
                && final(stack).conns() == old(stack).conns().update(i as int, spec_taken_tcb()),
            None => unused_index(old(stack).conns(), 0) == MAX_CONNECTIONS && final(stack).conns()
                == old(stack).conns(),
        },
{
    let n: usize = stack.connections.len();
    let mut i: usize = 0;
    while i < n
        invariant
            n == stack.connections@.len(),
            n == MAX_CONNECTIONS,
            *stack == *old(stack),
            stack.wf(),
            i <= n,
            unused_index(stack.conns(), 0) == unused_index(stack.conns(), i as int),
        decreases n - i,
    {
        if !stack.connections[i].in_use {
            let mut fresh: TcpControlBlock = TcpControlBlock::new();
            fresh.in_use = true;
            stack.connections.set(i, fresh);
            proof {
                assert(stack.conns() =~= old(stack).conns().update(i as int, spec_taken_tcb()));
            }
            return Some(i);
        }
        i += 1;
    }
    None
}

/// The connection table and interface after the TCP segment `data`, which
/// came from `src_ip` addressed to `dst_ip`, is processed at tick `now`.
///
/// A segment whose header does not decode or whose checksum is wrong is
/// dropped. A segment for an existing connection is processed by it. A
/// SYN for a port that is listened on takes a free slot, which starts in
/// Listen with the addresses of the segment and processes it. Any other
/// segment that is not itself a reset is answered with a reset.
pub open spec fn spec_process_packet(
    conns: Seq<Tcb>,
    s: IfaceState,
    now: u64,
    src_ip: [u8; 4],
    dst_ip: [u8; 4],
    data: Seq<u8>,
) -> (Seq<Tcb>, IfaceState) {
    let h = spec_header(data);
    let payload = spec_payload(h.data_offset * 4, data);
    let i = conn_index(conns, h.dst_port, src_ip@, h.src_port, 0);
    let j = unused_index(conns, 0);
    if !spec_header_valid(data) || spec_tcp_udp_checksum(src_ip@, dst_ip@, PROTO_TCP, data) != 0 {
        (conns, s)
    } else if i < conns.len() {
        let after = spec_process_segment(conns[i], s, now, h, payload, src_ip);
        (conns.update(i, after.0), after.1)
    } else if has_syn(h.flags) && !has_ack(h.flags) && listener_index(conns, h.dst_port, 0)
        < conns.len() && j < conns.len() {
        let after = spec_process_segment(
            spec_child(h, src_ip, dst_ip),
            s,
            now,
            h,
            payload,
            src_ip,
        );
        (conns.update(j, after.0), after.1)
    } else if !has_rst(h.flags) {
        (conns, spec_send_rst(s, now, dst_ip, src_ip, h))
    } else {
        (conns, s)
    }
}

/// Processes a received TCP segment.
pub fn process_packet(
    stack: &mut TcpStack,
    iface: &mut NetInterface,
    now: u64,
    ip_header: &Ipv4Header,
    data: &[u8],
)
    requires
        old(stack).wf(),
        old(iface).wf(),
        data@.len() <= MAX_CHECKSUM_LEN,
    ensures
        final(stack).wf(),
        final(iface).wf(),
        final(stack).next_port == old(stack).next_port,
        (final(stack).conns(), final(iface)@) == spec_process_packet(
            old(stack).conns(),
            old(iface)@,
            now,
            ip_header.src_ip,
            ip_header.dst_ip,
            data@,
        ),
{
    let tcp: TcpHeader = match TcpHeader::parse(data) {
        Some(h) => h,
        None => {
            return ;
        },
    };
    let cksum: u16 = tcp_udp_checksum(&ip_header.src_ip, &ip_header.dst_ip, PROTO_TCP, data);
    if cksum != 0 {
        return ;
    }
    match find_connection(stack, tcp.dst_port, &ip_header.src_ip, tcp.src_port) {
        Some(idx) => {
            with_connection(stack, iface, now, idx, &tcp, data, ip_header);
            return ;
        },
        None => {},
    }
    if tcp.is_syn() && !tcp.is_ack() {
        if open_passive(stack, iface, now, &tcp, data, ip_header) {
            return ;
        }
    }
    if !tcp.is_rst() {
        send_rst(iface, now, &ip_header.dst_ip, &ip_header.src_ip, &tcp);
    }
}

/// The connection that a listener spawns for a SYN from `src_ip`, before
/// it has processed that SYN.
pub open spec fn spec_child(h: TcpHeader, src_ip: [u8; 4], dst_ip: [u8; 4]) -> Tcb {
    Tcb {
        local_ip: dst_ip,
        local_port: h.dst_port,
        remote_ip: src_ip,
        remote_port: h.src_port,
        state: TcpState::Listen,
        ..spec_taken_tcb()
    }
}

/// Turns the freshly taken slot `idx` into the child of a listener.
fn prepare_child(stack: &mut TcpStack, idx: usize, tcp: &TcpHeader, ip_header: &Ipv4Header)
    requires
        old(stack).wf(),
        idx < MAX_CONNECTIONS,
        old(stack).conns()[idx as int] == spec_taken_tcb(),
    ensures
        final(stack).wf(),
        final(stack).next_port == old(stack).next_port,
        final(stack).conns() == old(stack).conns().update(
            idx as int,
            spec_child(*tcp, ip_header.src_ip, ip_header.dst_ip),
        ),
{
    let mut conn: TcpControlBlock = stack.connections.remove(idx);
    assert(conn.wf());
    conn.local_ip = ip_header.dst_ip;
    conn.local_port = tcp.dst_port;
    conn.remote_ip = ip_header.src_ip;
    conn.remote_port = tcp.src_port;
    conn.state = TcpState::Listen;
    let ghost after = conn@;
    stack.connections.insert(idx, conn);
    proof {
        assert(stack.conns() =~= old(stack).conns().update(idx as int, after));
        assert forall|i: int| 0 <= i < MAX_CONNECTIONS implies (#[trigger] stack.connections@[i]).wf() by {
            if i != idx {
                assert(old(stack).connections@[i].wf());
            }
        }
    }
}

/// Passive open: if the port of a SYN is listened on and a slot is free,
/// the slot becomes the listener's child and processes the SYN. The
/// result tells whether that happened.
fn open_passive(
    stack: &mut TcpStack,
    iface: &mut NetInterface,
    now: u64,
    tcp: &TcpHeader,
    data: &[u8],
    ip_header: &Ipv4Header,
) -> (opened: bool)
    requires
        old(stack).wf(),
        old(iface).wf(),
    ensures
        final(stack).wf(),
        final(iface).wf(),
        final(stack).next_port == old(stack).next_port,
        opened == (listener_index(old(stack).conns(), tcp.dst_port, 0) < MAX_CONNECTIONS
            && unused_index(old(stack).conns(), 0) < MAX_CONNECTIONS),
        !opened ==> final(stack).conns() == old(stack).conns() && final(iface)@ == old(iface)@,
        opened ==> ({
            let after = spec_process_segment(
                spec_child(*tcp, ip_header.src_ip, ip_header.dst_ip),
                old(iface)@,
                now,
                *tcp,
                spec_payload(tcp.data_offset * 4, data@),
                ip_header.src_ip,
            );
            &&& final(stack).conns() == old(stack).conns().update(
                unused_index(old(stack).conns(), 0),
                after.0,
            )
            &&& final(iface)@ == after.1
        }),
{
    if find_listener(stack, tcp.dst_port).is_none() {
        return false;
    }
    let idx: usize = match alloc_connection(stack) {
        Some(idx) => idx,
        None => {
            return false;
        },
    };
    prepare_child(stack, idx, tcp, ip_header);
    with_connection(stack, iface, now, idx, tcp, data, ip_header);
    proof {
        let after = spec_process_segment(
            spec_child(*tcp, ip_header.src_ip, ip_header.dst_ip),
            old(iface)@,
            now,
            *tcp,
            spec_payload(tcp.data_offset * 4, data@),
            ip_header.src_ip,
        );
        assert(stack.conns() =~= old(stack).conns().update(idx as int, after.0));
    }
    true
}

/// Lets connection `idx` process a segment.
fn with_connection(
    stack: &mut TcpStack,
    iface: &mut NetInterface,
    now: u64,
    idx: usize,
    tcp: &TcpHeader,
    data: &[u8],
    ip_header: &Ipv4Header,
)
    requires
        old(stack).wf(),
        old(iface).wf(),
        idx < MAX_CONNECTIONS,
    ensures
        final(stack).wf(),
        final(iface).wf(),
        final(stack).next_port == old(stack).next_port,
        final(stack).conns() == old(stack).conns().update(
            idx as int,
            spec_process_segment(
                old(stack).conns()[idx as int],
                old(iface)@,
                now,
                *tcp,
                spec_payload(tcp.data_offset * 4, data@),
                ip_header.src_ip,
            ).0,
        ),
        final(iface)@ == spec_process_segment(
            old(stack).conns()[idx as int],
            old(iface)@,
            now,
            *tcp,
            spec_payload(tcp.data_offset * 4, data@),
            ip_header.src_ip,
        ).1,
{
    let mut conn: TcpControlBlock = stack.connections.remove(idx);
    assert(conn.wf());
    process_segment(&mut conn, iface, now, tcp, data, ip_header);
    let ghost after = conn@;
    stack.connections.insert(idx, conn);
    proof {
        assert(stack.conns() =~= old(stack).conns().update(idx as int, after));
        assert forall|i: int| 0 <= i < MAX_CONNECTIONS implies (#[trigger] stack.connections@[i]).wf() by {
            if i != idx {
                assert(old(stack).connections@[i].wf());
            }
        }
    }
}

/// A timeout doubled, capped at the largest timeout.
pub open spec fn spec_backoff(rto: u64) -> u64 {
    if rto * 2 > MAX_RTO {
        MAX_RTO
    } else {
        (rto * 2) as u64
    }
}

/// One connection and the interface after the timers are looked at, at
/// tick `now`.
///
/// A connection in Time-Wait is closed when its time is up. For any other
/// connection in use, an expired retransmission timer closes it after
/// five retransmissions; before that the timeout doubles, the threshold
/// drops to half the congestion window, the window to one segment, and
/// the earliest unacknowledged bytes go out again. An established
/// connection then runs the send policy.
pub open spec fn spec_timer_step(c: Tcb, s: IfaceState, now: u64) -> (Tcb, IfaceState) {
    if !c.in_use {
        (c, s)
    } else if c.state == TcpState::TimeWait {
        if now >= c.time_wait_timer {
            (spec_new_tcb(), s)
        } else {
            (c, s)
        }
    } else {
        let timed = if c.retransmit_timer > 0 && now >= c.retransmit_timer {
            if c.retransmit_count >= MAX_RETRANSMITS {
                (spec_new_tcb(), s)
            } else {
                spec_retransmit(
                    Tcb {
                        rto: spec_backoff(c.rto),
                        ssthresh: spec_halved(c.cwnd),
                        cwnd: MSS as u32,
                        ..c
                    },
                    s,
                    now,
                )
            }
        } else {
            (c, s)
        };
        if timed.0.state == TcpState::Established {
            spec_send_pending(timed.0, timed.1, now)
        } else {
            timed
        }
    }
}

/// The connection table and interface after the timers of the first `n`
/// connections are looked at in order.
pub open spec fn spec_process_timers(conns: Seq<Tcb>, s: IfaceState, now: u64, n: int) -> (
    Seq<Tcb>,
    IfaceState,
)
    decreases n,
{
    if n <= 0 {
        (conns, s)
    } else {
        let before = spec_process_timers(conns, s, now, n - 1);
        let after = spec_timer_step(before.0[n - 1], before.1, now);
        (before.0.update(n - 1, after.0), after.1)
    }
}

/// Looks at the timers of one connection.
pub fn timer_step(conn: &mut TcpControlBlock, iface: &mut NetInterface, now: u64)
    requires
        old(conn).wf(),
        old(iface).wf(),
    ensures
        final(conn).wf(),
        final(iface).wf(),
        (final(conn)@, final(iface)@) == spec_timer_step(old(conn)@, old(iface)@, now),
{
    if !conn.in_use {
        return ;
    }
    if conn.state == TcpState::TimeWait {
        if now >= conn.time_wait_timer {
            conn.reset();
        }
        return ;
    }
    if conn.retransmit_timer > 0 && now >= conn.retransmit_timer {
        if conn.retransmit_count >= MAX_RETRANSMITS {
            conn.reset();
        } else {
            conn.rto = if conn.rto > MAX_RTO / 2 {
                MAX_RTO
            } else {
                conn.rto * 2
            };
            let half: u32 = conn.cwnd / 2;
            conn.ssthresh = if half > 2 * (MSS as u32) {
                half
            } else {
                2 * (MSS as u32)
            };
            conn.cwnd = MSS as u32;
            retransmit(conn, iface, now);
        }
    }
    if conn.state == TcpState::Established {
        send_pending_data(conn, iface, now);
    }
}

/// Looks at the timers of every connection, in table order.
pub fn process_timers(stack: &mut TcpStack, iface: &mut NetInterface, now: u64)
    requires
        old(stack).wf(),
        old(iface).wf(),
    ensures
        final(stack).wf(),
        final(iface).wf(),
        final(stack).next_port == old(stack).next_port,
        (final(stack).conns(), final(iface)@) == spec_process_timers(
            old(stack).conns(),
            old(iface)@,
            now,
            MAX_CONNECTIONS as int,
        ),
{
    let mut i: usize = 0;
    while i < MAX_CONNECTIONS
        invariant
            stack.wf(),
            iface.wf(),
            i <= MAX_CONNECTIONS,
            stack.next_port == old(stack).next_port,
            (stack.conns(), iface@) == spec_process_timers(
                old(stack).conns(),
                old(iface)@,
                now,
                i as int,
            ),
        decreases MAX_CONNECTIONS - i,
    {
        let ghost before = stack.conns();
        let ghost slots = stack.connections@;
        let mut conn: TcpControlBlock = stack.connections.remove(i);
        assert(conn.wf());
        timer_step(&mut conn, iface, now);
        let ghost after = conn@;
        stack.connections.insert(i, conn);
        proof {
            assert(stack.conns() =~= before.update(i as int, after));
            assert forall|k: int| 0 <= k < MAX_CONNECTIONS implies (
            #[trigger] stack.connections@[k]).wf() by {
                if k != i {
                    assert(slots[k].wf());
                }
            }
        }
        i += 1;
    }
}

/// Takes a free connection slot as a socket; `None` if all are taken.
pub fn socket(stack: &mut TcpStack) -> (r: Option<usize>)
    requires
        old(stack).wf(),
    ensures
        final(stack).wf(),
        final(stack).next_port == old(stack).next_port,
        match r {
            Some(i) => i < MAX_CONNECTIONS
                && i == unused_index(old(stack).conns(), 0)
                && final(stack).conns() == old(stack).conns().update(i as int, spec_taken_tcb()),
            None => unused_index(old(stack).conns(), 0) == MAX_CONNECTIONS && final(stack).conns()
                == old(stack).conns(),
        },
{
    alloc_connection(stack)
}

/// Whether `sock` names a connection that is in use.
pub open spec fn spec_valid_sock(conns: Seq<Tcb>, sock: usize) -> bool {
    sock < conns.len() && conns[sock as int].in_use
}

/// A closed connection with the addresses of an active open and the
/// initial sequence number chosen at tick `now`.
pub open spec fn spec_addressed(
    c: Tcb,
    now: u64,
    local_ip: [u8; 4],
    local_port: u16,
    remote_ip: [u8; 4],
    remote_port: u16,
) -> Tcb {
    Tcb {
        local_ip,
        local_port,
        remote_ip,
        remote_port,
        iss: spec_iss(now),
        snd_nxt: spec_iss(now),
        snd_una: spec_iss(now),
        ..c
    }
}

/// The connection and interface after an active open from `local_ip`,
/// `local_port` to `remote_ip`, `remote_port` at tick `now`, and whether
/// the SYN went out. Once it is out the connection is in SynSent with the
/// SYN in flight.
pub open spec fn spec_connect(
    c: Tcb,
    s: IfaceState,
    now: u64,
    local_ip: [u8; 4],
    local_port: u16,
    remote_ip: [u8; 4],
    remote_port: u16,
) -> (Tcb, IfaceState, bool) {
    let addressed = spec_addressed(c, now, local_ip, local_port, remote_ip, remote_port);
    let sent = spec_send_segment(addressed, s, now, FLAG_SYN, Seq::empty());
    (spec_syn_out(addressed, now, TcpState::SynSent, sent.1), sent.0, sent.1)
}

/// Active open: connects socket `sock` to `remote_ip`, `remote_port` from
/// an ephemeral port. False, with nothing changed, unless the socket is
/// in use and closed; false also when the SYN could not be sent.
pub fn connect(
    stack: &mut TcpStack,
    iface: &mut NetInterface,
    now: u64,
    sock: usize,
    remote_ip: &[u8; 4],
    remote_port: u16,
) -> (r: bool)
    requires
        old(stack).wf(),
        old(iface).wf(),
    ensures
        final(stack).wf(),
        final(iface).wf(),
        !spec_valid_sock(old(stack).conns(), sock) || old(stack).conns()[sock as int].state
            != TcpState::Closed
                ==> !r
                    && final(stack).conns() == old(stack).conns()
                    && final(iface)@ == old(iface)@
                    && final(stack).next_port == old(stack).next_port,
        spec_valid_sock(old(stack).conns(), sock) && old(stack).conns()[sock as int].state
            == TcpState::Closed ==> ({
            let after = spec_connect(
                old(stack).conns()[sock as int],
                old(iface)@,
                now,
                old(iface).config.ip,
                old(stack).next_port,
                *remote_ip,
                remote_port,
            );
            &&& final(stack).conns() == old(stack).conns().update(sock as int, after.0)
            &&& final(iface)@ == after.1
            &&& r == after.2
            &&& final(stack).next_port == spec_next_port(old(stack).next_port)
        }),
{
    if sock >= MAX_CONNECTIONS || !stack.connections[sock].in_use {
        return false;
    }
    if stack.connections[sock].state != TcpState::Closed {
        return false;
    }
    let port: u16 = alloc_port(stack);
    let ghost slots = stack.connections@;
    let mut conn: TcpControlBlock = stack.connections.remove(sock);
    assert(conn.wf());
    let empty: Vec<u8> = Vec::new();
    conn.local_ip = iface.config.ip;
    conn.local_port = port;
    conn.remote_ip = *remote_ip;
    conn.remote_port = remote_port;
    conn.iss = generate_iss(now);
    conn.snd_nxt = conn.iss;
    conn.snd_una = conn.iss;
    let sent: bool = send_segment(&conn, iface, now, FLAG_SYN, empty.as_slice());
    if sent {
        conn.snd_nxt = seq_plus(conn.snd_nxt, 1);
        conn.state = TcpState::SynSent;
        conn.last_send_time = now;
        conn.retransmit_timer = deadline(now, conn.rto);
    }
    let ghost after = conn@;
    stack.connections.insert(sock, conn);
    proof {
        assert(stack.conns() =~= old(stack).conns().update(sock as int, after));
        assert forall|k: int| 0 <= k < MAX_CONNECTIONS implies (#[trigger] stack.connections@[k]).wf() by {
            if k != sock {
                assert(slots[k].wf());
            }
        }
    }
    sent
}

/// Passive open: socket `sock` listens on `port`. False, with nothing
/// changed, unless the socket is in use and closed.
pub fn listen(stack: &mut TcpStack, iface: &NetInterface, sock: usize, port: u16) -> (r: bool)
    requires
        old(stack).wf(),
    ensures
        final(stack).wf(),
        final(stack).next_port == old(stack).next_port,
        r == (spec_valid_sock(old(stack).conns(), sock) && old(stack).conns()[sock as int].state
            == TcpState::Closed),
        !r ==> final(stack).conns() == old(stack).conns(),
        r ==> final(stack).conns() == old(stack).conns().update(
            sock as int,
            Tcb {
                local_ip: iface.config.ip,
                local_port: port,
                state: TcpState::Listen,
                ..old(stack).conns()[sock as int]
            },
        ),
{
    if sock >= MAX_CONNECTIONS || !stack.connections[sock].in_use {
        return false;
    }
    if stack.connections[sock].state != TcpState::Closed {
        return false;
    }
    let ghost slots = stack.connections@;
    let mut conn: TcpControlBlock = stack.connections.remove(sock);
    assert(conn.wf());
    conn.local_ip = iface.config.ip;
    conn.local_port = port;
    conn.state = TcpState::Listen;
    let ghost after = conn@;
    stack.connections.insert(sock, conn);
    proof {
        assert(stack.conns() =~= old(stack).conns().update(sock as int, after));
        assert forall|k: int| 0 <= k < MAX_CONNECTIONS implies (#[trigger] stack.connections@[k]).wf() by {
            if k != sock {
                assert(slots[k].wf());
            }
        }
    }
    true
}

/// The state of socket `sock`; `Closed` for a socket that is not in use.
pub fn get_state(stack: &TcpStack, sock: usize) -> (r: TcpState)
    requires
        stack.wf(),
    ensures
        r == (if spec_valid_sock(stack.conns(), sock) {
            stack.conns()[sock as int].state
        } else {
            TcpState::Closed
        }),
{
    if sock >= MAX_CONNECTIONS || !stack.connections[sock].in_use {
        return TcpState::Closed;
    }
    stack.connections[sock].state
}

/// Whether socket `sock` is established.
pub fn is_connected(stack: &TcpStack, sock: usize) -> (r: bool)
    requires
        stack.wf(),
    ensures
        r == (spec_valid_sock(stack.conns(), sock) && stack.conns()[sock as int].state
            == TcpState::Established),
{
    get_state(stack, sock) == TcpState::Established
}

/// Received bytes that wait on socket `sock`; 0 for a socket that is not
/// in use.
pub fn available(stack: &TcpStack, sock: usize) -> (n: usize)
    requires
        stack.wf(),
    ensures
        n == (if spec_valid_sock(stack.conns(), sock) {
            stack.conns()[sock as int].rx.len()
        } else {
            0
        }),
{
    if sock >= MAX_CONNECTIONS || !stack.connections[sock].in_use {
        return 0;
    }
    stack.connections[sock].bytes_available()
}

/// Reads from socket `sock` into the front of `buf` without blocking.
/// The result is the number of bytes read; 0 if none wait; -1 if the
/// socket is not in use or closed, or if none wait and the peer has
/// closed. The advertised window follows the space freed.
pub fn recv(stack: &mut TcpStack, sock: usize, buf: &mut Vec<u8>) -> (r: isize)
    requires
        old(stack).wf(),
    ensures
        final(stack).wf(),
        final(stack).next_port == old(stack).next_port,
        !spec_valid_sock(old(stack).conns(), sock) || old(stack).conns()[sock as int].state
            == TcpState::Closed
                ==> r == -1
                    && final(stack).conns() == old(stack).conns()
                    && final(buf)@ == old(buf)@,
        spec_valid_sock(old(stack).conns(), sock) && old(stack).conns()[sock as int].state
            != TcpState::Closed ==> ({
            let c = old(stack).conns()[sock as int];
            let n = min2(old(buf)@.len() as int, c.rx.len() as int);
            &&& final(buf)@ == c.rx.subrange(0, n) + old(buf)@.subrange(n, old(buf)@.len() as int)
            &&& final(stack).conns() == old(stack).conns().update(
                sock as int,
                Tcb {
                    rx: c.rx.subrange(n, c.rx.len() as int),
                    rcv_wnd: (RX_BUFFER_SIZE - (c.rx.len() - n)) as u16,
                    ..c
                },
            )
            &&& r == (if n > 0 {
                n
            } else if c.remote_closed {
                -1
            } else {
                0
            })
        }),
{
    if sock >= MAX_CONNECTIONS || !stack.connections[sock].in_use {
        return -1;
    }
    if stack.connections[sock].state == TcpState::Closed {
        return -1;
    }
    let ghost slots = stack.connections@;
    let mut conn: TcpControlBlock = stack.connections.remove(sock);
    assert(conn.wf());
    let n: usize = conn.read(buf);
    conn.update_rcv_wnd();
    let remote_closed: bool = conn.remote_closed;
    let ghost after = conn@;
    stack.connections.insert(sock, conn);
    proof {
        assert(stack.conns() =~= old(stack).conns().update(sock as int, after));
        assert forall|k: int| 0 <= k < MAX_CONNECTIONS implies (#[trigger] stack.connections@[k]).wf() by {
            if k != sock {
                assert(slots[k].wf());
            }
        }
    }
    if n > 0 {
        n as isize
    } else if remote_closed {
        -1
    } else {
        0
    }
}

/// Writes to socket `sock` without blocking. The result is the number
/// of bytes taken into the send buffer, 0 if it is full; -1 unless the
/// socket is in use and established or in CloseWait.
pub fn send(stack: &mut TcpStack, sock: usize, data: &[u8]) -> (r: isize)
    requires
        old(stack).wf(),
    ensures
        final(stack).wf(),
        final(stack).next_port == old(stack).next_port,
        !spec_can_send(old(stack).conns(), sock)
            ==> r == -1 && final(stack).conns() == old(stack).conns(),
        spec_can_send(old(stack).conns(), sock) ==> ({
            let c = old(stack).conns()[sock as int];
            let n = min2(data@.len() as int, TX_BUFFER_SIZE - c.tx.len());
            &&& r == n
            &&& final(stack).conns() == old(stack).conns().update(
                sock as int,
                Tcb { tx: c.tx + data@.subrange(0, n), ..c },
            )
        }),
{
    if sock >= MAX_CONNECTIONS || !stack.connections[sock].in_use {
        return -1;
    }
    let state: TcpState = stack.connections[sock].state;
    if state != TcpState::Established && state != TcpState::CloseWait {
        return -1;
    }
    let ghost slots = stack.connections@;
    let mut conn: TcpControlBlock = stack.connections.remove(sock);
    assert(conn.wf());
    let n: usize = conn.write(data);
    let ghost after = conn@;
    stack.connections.insert(sock, conn);
    proof {
        assert(stack.conns() =~= old(stack).conns().update(sock as int, after));
        assert forall|k: int| 0 <= k < MAX_CONNECTIONS implies (#[trigger] stack.connections@[k]).wf() by {
            if k != sock {
                assert(slots[k].wf());
            }
        }
    }
    n as isize
}

/// Whether data can be written to socket `sock`.
pub open spec fn spec_can_send(conns: Seq<Tcb>, sock: usize) -> bool {
    spec_valid_sock(conns, sock) && (conns[sock as int].state == TcpState::Established
        || conns[sock as int].state == TcpState::CloseWait)
}

/// The connection and interface after the application closes at tick
/// `now`: an established connection sends FIN and enters FinWait1, one in
/// CloseWait sends FIN and enters LastAck, each once the FIN is out; one
/// in SynSent or Listen is dropped; any other is left as it is.
pub open spec fn spec_close(c: Tcb, s: IfaceState, now: u64) -> (Tcb, IfaceState) {
    if c.state == TcpState::Established || c.state == TcpState::CloseWait {
        let sent = spec_send_segment(c, s, now, FLAG_FIN | FLAG_ACK, Seq::empty());
        if sent.1 {
            (
                Tcb {
                    snd_nxt: seq_add(c.snd_nxt, 1),
                    state: if c.state == TcpState::Established {
                        TcpState::FinWait1
                    } else {
                        TcpState::LastAck
                    },
                    retransmit_timer: spec_deadline(now, c.rto),
                    ..c
                },
                sent.0,
            )
        } else {
            (c, sent.0)
        }
    } else if c.state == TcpState::SynSent || c.state == TcpState::Listen {
        (spec_new_tcb(), s)
    } else {
        (c, s)
    }
}

/// Starts the graceful close of socket `sock`. A socket that is not in
/// use is left alone.
pub fn close(stack: &mut TcpStack, iface: &mut NetInterface, now: u64, sock: usize)
    requires
        old(stack).wf(),
        old(iface).wf(),
    ensures
        final(stack).wf(),
        final(iface).wf(),
        final(stack).next_port == old(stack).next_port,
        !spec_valid_sock(old(stack).conns(), sock) ==> final(stack).conns() == old(stack).conns()
            && final(iface)@ == old(iface)@,
        spec_valid_sock(old(stack).conns(), sock)
            ==> final(stack).conns() == old(stack).conns().update(
            sock as int,
            spec_close(old(stack).conns()[sock as int], old(iface)@, now).0,
        ) && final(iface)@ == spec_close(old(stack).conns()[sock as int], old(iface)@, now).1,
{
    if sock >= MAX_CONNECTIONS || !stack.connections[sock].in_use {
        return ;
    }
    let ghost slots = stack.connections@;
    let mut conn: TcpControlBlock = stack.connections.remove(sock);
    assert(conn.wf());
    let empty: Vec<u8> = Vec::new();
    match conn.state {
        TcpState::Established => {
            if send_segment(&conn, iface, now, FLAG_FIN | FLAG_ACK, empty.as_slice()) {
                conn.snd_nxt = seq_plus(conn.snd_nxt, 1);
                conn.state = TcpState::FinWait1;
                conn.retransmit_timer = deadline(now, conn.rto);
            }
        },
        TcpState::CloseWait => {
            if send_segment(&conn, iface, now, FLAG_FIN | FLAG_ACK, empty.as_slice()) {
                conn.snd_nxt = seq_plus(conn.snd_nxt, 1);
                conn.state = TcpState::LastAck;
                conn.retransmit_timer = deadline(now, conn.rto);
            }
        },
        TcpState::SynSent => {
            conn.reset();
        },
        TcpState::Listen => {
            conn.reset();
        },
        _ => {},
    }
    let ghost after = conn@;
    stack.connections.insert(sock, conn);
    proof {
        assert(stack.conns() =~= old(stack).conns().update(sock as int, after));
        assert forall|k: int| 0 <= k < MAX_CONNECTIONS implies (#[trigger] stack.connections@[k]).wf() by {
            if k != sock {
                assert(slots[k].wf());
            }
        }
    }
}

/// Index of the first connection at or after `from`, other than `sock`,
/// that is established on `port`, or the table size.
pub open spec fn accept_index(conns: Seq<Tcb>, sock: usize, port: u16, from: int) -> int
    decreases conns.len() - from,
{
    if from >= conns.len() {
        conns.len() as int
    } else if from != sock && conns[from].in_use && conns[from].local_port == port
        && conns[from].state == TcpState::Established {
        from
    } else {
        accept_index(conns, sock, port, from + 1)
    }
}

/// Accepts on listening socket `sock` without blocking: the first
/// established connection on the listener's port, which stays in the
/// table and is returned again by later calls until it is closed. `None`
/// if there is none or `sock` does not listen.
pub fn accept(stack: &TcpStack, sock: usize) -> (r: Option<usize>)
    requires
        stack.wf(),
    ensures
        r.is_some() ==> r.unwrap() < MAX_CONNECTIONS,
        !spec_valid_sock(stack.conns(), sock) || stack.conns()[sock as int].state
            != TcpState::Listen ==> r.is_none(),
        spec_valid_sock(stack.conns(), sock) && stack.conns()[sock as int].state
            == TcpState::Listen ==> ({
            let i = accept_index(stack.conns(), sock, stack.conns()[sock as int].local_port, 0);
            if i < MAX_CONNECTIONS {
                r == Some(i as usize)
            } else {
                r.is_none()
            }
        }),
{
    if sock >= MAX_CONNECTIONS || !stack.connections[sock].in_use {
        return None;
    }
    if stack.connections[sock].state != TcpState::Listen {
        return None;
    }
    let port: u16 = stack.connections[sock].local_port;
    let mut i: usize = 0;
    while i < MAX_CONNECTIONS
        invariant
            stack.wf(),
            stack.conns().len() == MAX_CONNECTIONS,
            sock < MAX_CONNECTIONS,
            stack.conns()[sock as int].in_use,
            stack.conns()[sock as int].state == TcpState::Listen,
            port == stack.conns()[sock as int].local_port,
            i <= MAX_CONNECTIONS,
            accept_index(stack.conns(), sock, port, 0) == accept_index(
                stack.conns(),
                sock,
                port,
                i as int,
            ),
        decreases MAX_CONNECTIONS - i,
    {
        let c: &TcpControlBlock = &stack.connections[i];
        if i != sock && c.in_use && c.local_port == port && c.state == TcpState::Established {
            return Some(i);
        }
        i += 1;
    }
    None
}

/// Handshake, active side: a connection whose SYN is in flight and that
/// becomes established on a SYN with an ACK of that SYN has its SYN
/// acknowledged and expects the byte after the peer's SYN.
pub proof fn lemma_handshake_client(
    c: Tcb,
    s: IfaceState,
    now: u64,
    h: TcpHeader,
    payload: Seq<u8>,
    src_ip: [u8; 4],
)
    requires
        c.state == TcpState::SynSent,
        c.snd_nxt == seq_add(c.iss, 1),
        spec_process_segment(c, s, now, h, payload, src_ip).0.state == TcpState::Established,
    ensures
        ({
            let after = spec_process_segment(c, s, now, h, payload, src_ip).0;
            &&& after.iss == c.iss
            &&& after.snd_una == seq_add(after.iss, 1)
            &&& after.irs == h.seq_num
            &&& after.rcv_nxt == seq_add(after.irs, 1)
        }),
{
    assert(spec_new_tcb().state == TcpState::Closed);
}

/// Handshake, passive side: a listening connection that answers a SYN and
/// then becomes established on a bare ACK of its own SYN has its SYN
/// acknowledged and expects the byte after the peer's SYN.
pub proof fn lemma_handshake_server(
    c: Tcb,
    s: IfaceState,
    now1: u64,
    syn: TcpHeader,
    now2: u64,
    ack: TcpHeader,
    src_ip: [u8; 4],
)
    requires
        c.state == TcpState::Listen,
        spec_process_segment(c, s, now1, syn, Seq::empty(), src_ip).0.state
            == TcpState::SynReceived,
        ({
            let half = spec_process_segment(c, s, now1, syn, Seq::empty(), src_ip);
            spec_process_segment(half.0, half.1, now2, ack, Seq::empty(), src_ip).0.state
                == TcpState::Established
        }),
    ensures
        ({
            let half = spec_process_segment(c, s, now1, syn, Seq::empty(), src_ip);
            let after = spec_process_segment(half.0, half.1, now2, ack, Seq::empty(), src_ip).0;
            &&& after.snd_una == seq_add(after.iss, 1)
            &&& after.irs == syn.seq_num
            &&& after.rcv_nxt == seq_add(after.irs, 1)
        }),
{
    assert(spec_new_tcb().state == TcpState::Closed);
}

/// An active open that gets its SYN out leaves the connection in SynSent
/// with exactly the SYN in flight, as the active side of the handshake
/// assumes.
pub proof fn lemma_connect_sends_syn(
    c: Tcb,
    s: IfaceState,
    now: u64,
    local_ip: [u8; 4],
    local_port: u16,
    remote_ip: [u8; 4],
    remote_port: u16,
)
    requires
        spec_connect(c, s, now, local_ip, local_port, remote_ip, remote_port).2,
    ensures
        ({
            let after = spec_connect(c, s, now, local_ip, local_port, remote_ip, remote_port).0;
            &&& after.state == TcpState::SynSent
            &&& after.snd_una == after.iss
            &&& after.snd_nxt == seq_add(after.iss, 1)
        }),
{
}

/// Whether no segment is staged out of order.
pub open spec fn nothing_staged(c: Tcb) -> bool {
    forall|i: int| 0 <= i < c.ooo.len() ==> !(#[trigger] c.ooo[i]).valid
}

/// Without staged segments nothing is delivered from the staging area.
pub proof fn lemma_deliver_nothing(c: Tcb, rounds: int)
    requires
        nothing_staged(c),
    ensures
        spec_deliver_ooo(c, rounds) == c,
{
    lemma_due_slot_none(c.ooo, c.rcv_nxt, 0);
}

proof fn lemma_due_slot_none(ooo: Seq<OooView>, seq: u32, from: int)
    requires
        0 <= from <= ooo.len(),
        forall|i: int| 0 <= i < ooo.len() ==> !(#[trigger] ooo[i]).valid,
    ensures
        due_slot(ooo, seq, from) == ooo.len(),
    decreases ooo.len() - from,
{
    if from < ooo.len() {
        assert(!ooo[from].valid);
        lemma_due_slot_none(ooo, seq, from + 1);
    }
}

/// In-order delivery: a payload at the position that the receiver
/// expects, for which the receiver has room while nothing is staged, is
/// appended to the receive buffer whole, and the expected position moves
/// past it.
pub proof fn lemma_in_order_delivery(receiver: Tcb, payload: Seq<u8>)
    requires
        payload.len() > 0,
        receiver.rx.len() + payload.len() <= RX_BUFFER_SIZE,
        nothing_staged(receiver),
    ensures
        spec_fed(receiver, receiver.rcv_nxt, payload).rx == receiver.rx + payload,
        spec_fed(receiver, receiver.rcv_nxt, payload).rcv_nxt == seq_add(
            receiver.rcv_nxt,
            payload.len() as int,
        ),
        nothing_staged(spec_fed(receiver, receiver.rcv_nxt, payload)),
{
    let accepted = spec_accept(receiver, payload);
    assert(payload.subrange(0, payload.len() as int) =~= payload);
    lemma_deliver_nothing(
        Tcb { has_data: true, rcv_wnd: (RX_BUFFER_SIZE - accepted.rx.len()) as u16, ..accepted },
        OOO_BUFFER_SIZE as int,
    );
}

/// Acknowledged bytes leave the send buffer from the front, so the bytes
/// that remain are still in the order in which they were written.
pub proof fn lemma_ack_keeps_order(c: Tcb, now: u64, ack: u32)
    requires
        spec_advances(c, ack),
    ensures
        spec_acked(c, now, ack).tx == c.tx.subrange(
            min2(seq_diff(ack, c.snd_una), c.tx.len() as int),
            c.tx.len() as int,
        ),
        spec_acked(c, now, ack).snd_una == ack,
        spec_acked(c, now, ack).snd_nxt == c.snd_nxt,
{
}

/// The index found by `accept_index` lies between the start of the
/// search and the table size.
pub proof fn lemma_accept_index(conns: Seq<Tcb>, sock: usize, port: u16, from: int)
    requires
        0 <= from <= conns.len(),
    ensures
        from <= accept_index(conns, sock, port, from) <= conns.len(),
    decreases conns.len() - from,
{
    if from < conns.len() && !(from != sock && conns[from].in_use && conns[from].local_port == port
        && conns[from].state == TcpState::Established) {
        lemma_accept_index(conns, sock, port, from + 1);
    }
}

/// Whether a receiver is in step with a sender: nothing is in flight,
/// nothing is staged, and the receiver expects exactly the byte that the
/// sender sends next.
pub open spec fn in_step(sender: Tcb, receiver: Tcb) -> bool {
    &&& sender.snd_una == sender.snd_nxt
    &&& receiver.rcv_nxt == sender.snd_nxt
    &&& nothing_staged(receiver)
}

/// Going forward by `n` and measuring the distance gives `n` back.
pub proof fn lemma_seq_add_diff(x: u32, n: int)
    requires
        0 <= n < 0x1_0000_0000,
    ensures
        seq_diff(seq_add(x, n), x) == n,
{
}

/// One round over a wire that loses nothing: the sender's policy sends
/// its next bytes, the receiver takes them in and acknowledges its new
/// position, and the sender takes that acknowledgement in. If the two
/// were in step and the receiver has room, they are in step again
/// afterwards, and the bytes moved from the front of the sender's buffer
/// to the end of the receiver's: what the receiver holds, followed by
/// what the sender holds, is the same stream as before.
///
/// Applied round after round, with writes that append to the sender's
/// buffer and reads that take from the front of the receiver's, this is
/// why the reader sees exactly the writer's bytes, in order.
pub proof fn lemma_lossless_round(sender: Tcb, now: u64, receiver: Tcb, then: u64)
    requires
        in_step(sender, receiver),
        spec_sendable(sender) > 0,
        receiver.rx.len() + spec_sendable(sender) <= RX_BUFFER_SIZE,
    ensures
        ({
            let bytes = spec_next_bytes(sender);
            let sent = spec_sent(sender, now);
            let got = spec_fed(receiver, sender.snd_nxt, bytes);
            let acked = spec_acked(sent, then, got.rcv_nxt);
            &&& bytes == sender.tx.subrange(0, bytes.len() as int)
            &&& got.rx == receiver.rx + bytes
            &&& acked.tx == sender.tx.subrange(bytes.len() as int, sender.tx.len() as int)
            &&& got.rx + acked.tx == receiver.rx + sender.tx
            &&& in_step(acked, got)
        }),
{
    let n = spec_sendable(sender);
    let bytes = spec_next_bytes(sender);
    let sent = spec_sent(sender, now);
    lemma_in_order_delivery(receiver, bytes);
    let got = spec_fed(receiver, sender.snd_nxt, bytes);
    lemma_seq_add_diff(sender.snd_nxt, n);
    lemma_ack_keeps_order(sent, then, got.rcv_nxt);
    let acked = spec_acked(sent, then, got.rcv_nxt);
    assert(got.rx + acked.tx =~= receiver.rx + sender.tx);
}

/// A sender and a receiver joined by a wire that loses nothing, together
/// with the bytes that the writer has got accepted so far and the bytes
/// that the reader has read so far.
pub struct Pipe {
    pub sender: Tcb,
    pub receiver: Tcb,
    pub written: Seq<u8>,
    pub read: Seq<u8>,
}

/// One round of the pipe: the writer offers `write`, of which the send
/// buffer takes what it has room for; the send policy sends its next
/// bytes at tick `now`; the receiver takes them in and acknowledges; the
/// sender takes the acknowledgement in at tick `then`; and the reader
/// reads everything that has arrived.
pub open spec fn spec_round(p: Pipe, write: Seq<u8>, now: u64, then: u64) -> Pipe {
    let taken = write.subrange(0, min2(write.len() as int, TX_BUFFER_SIZE - p.sender.tx.len()));
    let loaded = Tcb { tx: p.sender.tx + taken, ..p.sender };
    if spec_sendable(loaded) > 0 {
        let got = spec_fed(p.receiver, loaded.snd_nxt, spec_next_bytes(loaded));
        Pipe {
            sender: spec_acked(spec_sent(loaded, now), then, got.rcv_nxt),
            receiver: Tcb { rx: Seq::empty(), rcv_wnd: RX_BUFFER_SIZE as u16, ..got },
            written: p.written + taken,
            read: p.read + got.rx,
        }
    } else {
        Pipe { sender: loaded, written: p.written + taken, ..p }
    }
}

/// The pipe after the first `k` rounds, round `i` with the write
/// `writes[i]` at the ticks `ticks[i]`.
pub open spec fn spec_rounds(p: Pipe, writes: Seq<Seq<u8>>, ticks: Seq<(u64, u64)>, k: int) -> Pipe
    decreases k,
{
    if k <= 0 {
        p
    } else {
        spec_round(
            spec_rounds(p, writes, ticks, k - 1),
            writes[k - 1],
            ticks[k - 1].0,
            ticks[k - 1].1,
        )
    }
}

/// The state of a pipe between rounds: the two ends are in step, the
/// reader has read everything that arrived, and what was read, followed
/// by what still waits in the send buffer, is what was written.
pub open spec fn pipe_ok(p: Pipe) -> bool {
    &&& in_step(p.sender, p.receiver)
    &&& p.receiver.rx.len() == 0
    &&& p.sender.tx.len() <= TX_BUFFER_SIZE
    &&& p.read + p.sender.tx == p.written
}

/// A round keeps the pipe in order.
pub proof fn lemma_pipe_round(p: Pipe, write: Seq<u8>, now: u64, then: u64)
    requires
        pipe_ok(p),
    ensures
        pipe_ok(spec_round(p, write, now, then)),
{
    let taken = write.subrange(0, min2(write.len() as int, TX_BUFFER_SIZE - p.sender.tx.len()));
    let loaded = Tcb { tx: p.sender.tx + taken, ..p.sender };
    assert(p.read + loaded.tx =~= p.written + taken);
    if spec_sendable(loaded) > 0 {
        assert(p.receiver.rx =~= Seq::<u8>::empty());
        lemma_lossless_round(loaded, now, p.receiver, then);
        let bytes = spec_next_bytes(loaded);
        let got = spec_fed(p.receiver, loaded.snd_nxt, bytes);
        let acked = spec_acked(spec_sent(loaded, now), then, got.rcv_nxt);
        assert(got.rx =~= bytes);
        assert((p.read + got.rx) + acked.tx =~= p.read + (got.rx + acked.tx));
        assert(got.rx + acked.tx == p.receiver.rx + loaded.tx);
        assert(p.receiver.rx + loaded.tx =~= loaded.tx);
    }
}

/// Reliability and ordering over a wire that loses nothing: however the
/// writer's writes are spread over the rounds, at every moment the bytes
/// read are exactly the first bytes written, in order, and the bytes not
/// yet read are exactly those that wait in the send buffer. Once the
/// send buffer is empty, the reader has read exactly what was written.
pub proof fn lemma_pipe_delivers_in_order(
    p: Pipe,
    writes: Seq<Seq<u8>>,
    ticks: Seq<(u64, u64)>,
    k: int,
)
    requires
        pipe_ok(p),
        0 <= k <= writes.len(),
        k <= ticks.len(),
    ensures
        pipe_ok(spec_rounds(p, writes, ticks, k)),
        spec_rounds(p, writes, ticks, k).read == spec_rounds(p, writes, ticks, k).written.subrange(
            0,
            spec_rounds(p, writes, ticks, k).read.len() as int,
        ),
        spec_rounds(p, writes, ticks, k).sender.tx.len() == 0 ==> spec_rounds(
            p,
            writes,
            ticks,
            k,
        ).read == spec_rounds(p, writes, ticks, k).written,
    decreases k,
{
    if k > 0 {
        lemma_pipe_delivers_in_order(p, writes, ticks, k - 1);
        lemma_pipe_round(
            spec_rounds(p, writes, ticks, k - 1),
            writes[k - 1],
            ticks[k - 1].0,
            ticks[k - 1].1,
        );
    }
    let q = spec_rounds(p, writes, ticks, k);
    assert(q.read =~= (q.read + q.sender.tx).subrange(0, q.read.len() as int));
    if q.sender.tx.len() == 0 {
        assert(q.read + q.sender.tx =~= q.read);
    }
}

/// Progress: while the windows are open, every round in which bytes wait
/// in the send buffer moves at least one of them to the reader, and
/// leaves the windows open.
pub proof fn lemma_pipe_progress(p: Pipe, write: Seq<u8>, now: u64, then: u64)
    requires
        pipe_ok(p),
        p.sender.snd_wnd > 0,
        p.sender.cwnd > 0,
        p.sender.tx.len() + write.len() > 0,
    ensures
        spec_round(p, write, now, then).read.len() > p.read.len(),
        spec_round(p, write, now, then).sender.snd_wnd == p.sender.snd_wnd,
        spec_round(p, write, now, then).sender.cwnd > 0,
{
    let taken = write.subrange(0, min2(write.len() as int, TX_BUFFER_SIZE - p.sender.tx.len()));
    let loaded = Tcb { tx: p.sender.tx + taken, ..p.sender };
    assert(loaded.tx.len() > 0);
    assert(spec_flight(loaded) == 0);
    assert(spec_sendable(loaded) > 0);
    assert(p.receiver.rx =~= Seq::<u8>::empty());
    lemma_lossless_round(loaded, now, p.receiver, then);
}

/// The layout of a segment before its checksum is filled in.
proof fn lemma_unsummed_layout(
    src_port: u16,
    dst_port: u16,
    seq: u32,
    ack: u32,
    flags: u8,
    window: u16,
    payload: Seq<u8>,
)
    ensures
        ({
            let raw = spec_segment_unsummed(src_port, dst_port, seq, ack, flags, window, payload);
            &&& raw.len() == HEADER_SIZE + payload.len()
            &&& raw.subrange(0, 2) == spec_be16_bytes(src_port)
            &&& raw.subrange(2, 4) == spec_be16_bytes(dst_port)
            &&& raw.subrange(4, 8) == spec_be32_bytes(seq)
            &&& raw.subrange(8, 12) == spec_be32_bytes(ack)
            &&& raw[12] == 0x50
            &&& raw[13] == flags
            &&& raw.subrange(14, 16) == spec_be16_bytes(window)
            &&& raw[16] == 0 && raw[17] == 0 && raw[18] == 0 && raw[19] == 0
            &&& raw.subrange(20, raw.len() as int) == payload
        }),
{
    let raw = spec_segment_unsummed(src_port, dst_port, seq, ack, flags, window, payload);
    let a = spec_be16_bytes(src_port) + spec_be16_bytes(dst_port);
    let b = a + spec_be32_bytes(seq) + spec_be32_bytes(ack);
    let c = b + seq![0x50u8, flags] + spec_be16_bytes(window);
    let d = c + seq![0u8, 0u8, 0u8, 0u8];
    assert(a.len() == 4 && b.len() == 12 && c.len() == 16 && d.len() == 20);
    assert(raw == d + payload);
    assert(raw.subrange(0, 20) =~= d);
    assert(d.subrange(0, 16) =~= c);
    assert(c.subrange(0, 12) =~= b);
    assert(b.subrange(0, 4) =~= a);
    assert(raw.subrange(0, 2) =~= a.subrange(0, 2));
    assert(a.subrange(0, 2) =~= spec_be16_bytes(src_port));
    assert(raw.subrange(2, 4) =~= a.subrange(2, 4));
    assert(a.subrange(2, 4) =~= spec_be16_bytes(dst_port));
    assert(raw.subrange(4, 8) =~= b.subrange(4, 8));
    assert(b.subrange(4, 8) =~= spec_be32_bytes(seq));
    assert(raw.subrange(8, 12) =~= b.subrange(8, 12));
    assert(b.subrange(8, 12) =~= spec_be32_bytes(ack));
    assert(raw[12] == c[12] && raw[13] == c[13]);
    assert(raw.subrange(14, 16) =~= c.subrange(14, 16));
    assert(c.subrange(14, 16) =~= spec_be16_bytes(window));
    assert(raw[16] == d[16] && raw[17] == d[17] && raw[18] == d[18] && raw[19] == d[19]);
    assert(raw.subrange(20, raw.len() as int) =~= payload);
}

/// Reading a 16-bit field back from where its bytes lie gives the field.
proof fn lemma_read_be16(data: Seq<u8>, at: int, v: u16)
    requires
        0 <= at,
        at + 2 <= data.len(),
        data.subrange(at, at + 2) == spec_be16_bytes(v),
    ensures
        spec_u16_be(data, at) == v,
{
    assert(data[at] == data.subrange(at, at + 2)[0]);
    assert(data[at + 1] == data.subrange(at, at + 2)[1]);
}

/// Reading a 32-bit field back from where its bytes lie gives the field.
proof fn lemma_read_be32(data: Seq<u8>, at: int, v: u32)
    requires
        0 <= at,
        at + 4 <= data.len(),
        data.subrange(at, at + 4) == spec_be32_bytes(v),
    ensures
        spec_u32_be(data, at) == v,
{
    assert(data[at] == data.subrange(at, at + 4)[0]);
    assert(data[at + 1] == data.subrange(at, at + 4)[1]);
    assert(data[at + 2] == data.subrange(at, at + 4)[2]);
    assert(data[at + 3] == data.subrange(at, at + 4)[3]);
}

/// A segment as sent decodes to what it was built from and carries a
/// correct checksum: its header names the ports, sequence numbers, flags
/// and window it was built with, its payload is the payload given, and
/// its checksum under the pseudo-header of its addresses is zero.
pub proof fn lemma_segment_round_trip(
    src_ip: Seq<u8>,
    dst_ip: Seq<u8>,
    src_port: u16,
    dst_port: u16,
    seq: u32,
    ack: u32,
    flags: u8,
    window: u16,
    payload: Seq<u8>,
)
    ensures
        ({
            let segment = spec_segment(
                src_ip,
                dst_ip,
                src_port,
                dst_port,
                seq,
                ack,
                flags,
                window,
                payload,
            );
            &&& segment.len() == HEADER_SIZE + payload.len()
            &&& spec_header_valid(segment)
            &&& spec_header(segment).src_port == src_port
            &&& spec_header(segment).dst_port == dst_port
            &&& spec_header(segment).seq_num == seq
            &&& spec_header(segment).ack_num == ack
            &&& spec_header(segment).data_offset == 5
            &&& spec_header(segment).flags == flags & 0x3F
            &&& spec_header(segment).window == window
            &&& spec_header(segment).urgent_ptr == 0
            &&& spec_payload(20, segment) == payload
            &&& spec_tcp_udp_checksum(src_ip, dst_ip, PROTO_TCP, segment) == 0
        }),
{
    let raw = spec_segment_unsummed(src_port, dst_port, seq, ack, flags, window, payload);
    lemma_unsummed_layout(src_port, dst_port, seq, ack, flags, window, payload);
    let cksum = spec_tcp_udp_checksum(src_ip, dst_ip, PROTO_TCP, raw) as u16;
    let segment = spec_segment(
        src_ip,
        dst_ip,
        src_port,
        dst_port,
        seq,
        ack,
        flags,
        window,
        payload,
    );
    assert(segment =~= crate::net::checksum::spec_patch(raw, 16, cksum));
    crate::net::checksum::lemma_filled_segment_checksum(src_ip, dst_ip, PROTO_TCP, raw, 16);
    crate::net::checksum::lemma_patch_keeps(raw, 16, cksum);
    assert(segment.subrange(0, 2) =~= raw.subrange(0, 2));
    assert(segment.subrange(2, 4) =~= raw.subrange(2, 4));
    assert(segment.subrange(4, 8) =~= raw.subrange(4, 8));
    assert(segment.subrange(8, 12) =~= raw.subrange(8, 12));
    assert(segment.subrange(14, 16) =~= raw.subrange(14, 16));
    assert(segment.subrange(20, segment.len() as int) =~= raw.subrange(20, raw.len() as int));
    lemma_read_be16(segment, 0, src_port);
    lemma_read_be16(segment, 2, dst_port);
    lemma_read_be32(segment, 4, seq);
    lemma_read_be32(segment, 8, ack);
    lemma_read_be16(segment, 14, window);
    assert(segment[12] == 0x50u8 && segment[13] == flags);
    assert(segment[18] == 0u8 && segment[19] == 0u8);
}

/// What one engine sends, another accepts: a segment as sent from
/// `src_ip` to `dst_ip` is not dropped when it arrives, and the
/// connection that it belongs to processes exactly the ports, sequence
/// numbers, flags, window and payload that it was built with.
pub proof fn lemma_sent_segment_is_processed(
    conns: Seq<Tcb>,
    s: IfaceState,
    now: u64,
    src_ip: [u8; 4],
    dst_ip: [u8; 4],
    src_port: u16,
    dst_port: u16,
    seq: u32,
    ack: u32,
    flags: u8,
    window: u16,
    payload: Seq<u8>,
)
    requires
        conn_index(conns, dst_port, src_ip@, src_port, 0) < conns.len(),
    ensures
        ({
            let segment = spec_segment(
                src_ip@,
                dst_ip@,
                src_port,
                dst_port,
                seq,
                ack,
                flags,
                window,
                payload,
            );
            let i = conn_index(conns, dst_port, src_ip@, src_port, 0);
            let h = spec_header(segment);
            let after = spec_process_segment(conns[i], s, now, h, payload, src_ip);
            &&& h.src_port == src_port
            &&& h.dst_port == dst_port
            &&& h.seq_num == seq
            &&& h.ack_num == ack
            &&& h.flags == flags & 0x3F
            &&& h.window == window
            &&& spec_process_packet(conns, s, now, src_ip, dst_ip, segment) == (
                conns.update(i, after.0),
                after.1,
            )
        }),
{
    lemma_segment_round_trip(
        src_ip@,
        dst_ip@,
        src_port,
        dst_port,
        seq,
        ack,
        flags,
        window,
        payload,
    );
}

/// The header that a segment of connection `c` with `flags` carries on
/// the wire, given the checksum that it came to have.
pub open spec fn spec_wire_header(c: Tcb, flags: u8, checksum: u16) -> TcpHeader {
    TcpHeader {
        src_port: c.local_port,
        dst_port: c.remote_port,
        seq_num: c.snd_nxt,
        ack_num: c.rcv_nxt,
        data_offset: 5,
        flags: flags & 0x3F,
        window: c.rcv_wnd,
        checksum,
        urgent_ptr: 0,
    }
}

/// The segment that connection `c` sends decodes, at the other end of
/// the wire, to the wire header of `c`.
pub proof fn lemma_wire_header(c: Tcb, flags: u8, payload: Seq<u8>)
    ensures
        ({
            let segment = spec_segment(
                c.local_ip@,
                c.remote_ip@,
                c.local_port,
                c.remote_port,
                c.snd_nxt,
                c.rcv_nxt,
                flags,
                c.rcv_wnd,
                payload,
            );
            &&& spec_header(segment) == spec_wire_header(c, flags, spec_header(segment).checksum)
            &&& spec_payload(20, segment) == payload
            &&& spec_tcp_udp_checksum(c.local_ip@, c.remote_ip@, PROTO_TCP, segment) == 0
        }),
{
    lemma_segment_round_trip(
        c.local_ip@,
        c.remote_ip@,
        c.local_port,
        c.remote_port,
        c.snd_nxt,
        c.rcv_nxt,
        flags,
        c.rcv_wnd,
        payload,
    );
}

/// The flags of the three segments of a handshake, as they arrive.
proof fn lemma_handshake_flags()
    ensures
        has_syn(FLAG_SYN & 0x3F) && !has_ack(FLAG_SYN & 0x3F) && !has_rst(FLAG_SYN & 0x3F),
        has_syn((FLAG_SYN | FLAG_ACK) & 0x3F) && has_ack((FLAG_SYN | FLAG_ACK) & 0x3F) && !has_rst(
            (FLAG_SYN | FLAG_ACK) & 0x3F,
        ),
        has_ack(FLAG_ACK & 0x3F) && !has_rst(FLAG_ACK & 0x3F) && !has_syn(FLAG_ACK & 0x3F),
{
    assert(0x02u8 & 0x3F == 0x02 && 0x12u8 & 0x3F == 0x12 && 0x10u8 & 0x3F == 0x10) by (bit_vector);
    assert(0x02u8 & 0x02 != 0 && 0x02u8 & 0x10 == 0 && 0x02u8 & 0x04 == 0) by (bit_vector);
    assert(0x12u8 & 0x02 != 0 && 0x12u8 & 0x10 != 0 && 0x12u8 & 0x04 == 0) by (bit_vector);
    assert(0x10u8 & 0x02 == 0 && 0x10u8 & 0x10 != 0 && 0x10u8 & 0x04 == 0) by (bit_vector);
    assert(0x02u8 | 0x10 == 0x12) by (bit_vector);
}

/// The two ends of a three-way handshake.
pub struct Handshake {
    /// The side that opened actively, established.
    pub client: Tcb,
    /// The side that listened, established.
    pub server: Tcb,
}

/// The three-way handshake between a closed connection `client` that
/// opens actively at tick `t0` and a listening connection `server`, when
/// each of the three segments goes out and arrives: the SYN, sent at
/// `t0` and heard at `t1`; the SYN with ACK, sent at `t1` and heard at
/// `t2`; and the ACK, sent at `t2` and heard at `t3`.
pub open spec fn spec_handshake(
    client: Tcb,
    local_ip: [u8; 4],
    local_port: u16,
    remote_ip: [u8; 4],
    remote_port: u16,
    server: Tcb,
    t0: u64,
    t1: u64,
    t2: u64,
    t3: u64,
    sums: (u16, u16, u16),
) -> Handshake {
    let addressed = spec_addressed(client, t0, local_ip, local_port, remote_ip, remote_port);
    let syn = spec_wire_header(addressed, FLAG_SYN, sums.0);
    let calling = spec_syn_out(addressed, t0, TcpState::SynSent, true);
    let noted = spec_syn_noted(server, t1, syn, local_ip);
    let syn_ack = spec_wire_header(noted, FLAG_SYN | FLAG_ACK, sums.1);
    let answering = spec_syn_out(noted, t1, TcpState::SynReceived, true);
    let heard = spec_syn_ack_noted(calling, syn_ack);
    let ack = spec_wire_header(heard, FLAG_ACK, sums.2);
    Handshake {
        client: spec_opened(heard, t2, true),
        server: spec_syn_confirmed(answering, t3, ack),
    }
}

/// After a three-way handshake both ends are established, each has its
/// own SYN acknowledged and expects the byte after the other's SYN, and
/// each knows the other's initial sequence number.
pub proof fn lemma_three_way_handshake(
    client: Tcb,
    local_ip: [u8; 4],
    local_port: u16,
    remote_ip: [u8; 4],
    remote_port: u16,
    server: Tcb,
    t0: u64,
    t1: u64,
    t2: u64,
    t3: u64,
    sums: (u16, u16, u16),
)
    ensures
        ({
            let done = spec_handshake(
                client,
                local_ip,
                local_port,
                remote_ip,
                remote_port,
                server,
                t0,
                t1,
                t2,
                t3,
                sums,
            );
            &&& done.client.state == TcpState::Established
            &&& done.server.state == TcpState::Established
            &&& done.client.snd_una == seq_add(done.client.iss, 1)
            &&& done.client.rcv_nxt == seq_add(done.client.irs, 1)
            &&& done.server.snd_una == seq_add(done.server.iss, 1)
            &&& done.server.rcv_nxt == seq_add(done.server.irs, 1)
            &&& done.client.irs == done.server.iss
            &&& done.server.irs == done.client.iss
            &&& done.client.snd_nxt == done.client.snd_una
            &&& done.server.snd_nxt == done.server.snd_una
            &&& done.server.remote_port == local_port
            &&& done.server.remote_ip == local_ip
        }),
{
}

/// The handshake is what the engine does: with the segments of
/// `spec_handshake` arriving, and each answer going out, the state
/// machine takes a listening connection to SynReceived and on to
/// Established, and a connection in SynSent to Established, exactly as
/// `spec_handshake` says.
pub proof fn lemma_engine_shakes_hands(
    client: Tcb,
    local_ip: [u8; 4],
    local_port: u16,
    remote_ip: [u8; 4],
    remote_port: u16,
    server: Tcb,
    t0: u64,
    t1: u64,
    t2: u64,
    t3: u64,
    sums: (u16, u16, u16),
    at_server: IfaceState,
    at_client: IfaceState,
    at_server_again: IfaceState,
)
    requires
        server.state == TcpState::Listen,
        ({
            let addressed = spec_addressed(
                client,
                t0,
                local_ip,
                local_port,
                remote_ip,
                remote_port,
            );
            let syn = spec_wire_header(addressed, FLAG_SYN, sums.0);
            let noted = spec_syn_noted(server, t1, syn, local_ip);
            let syn_ack = spec_wire_header(noted, FLAG_SYN | FLAG_ACK, sums.1);
            let calling = spec_syn_out(addressed, t0, TcpState::SynSent, true);
            let heard = spec_syn_ack_noted(calling, syn_ack);
            &&& spec_send_segment(noted, at_server, t1, FLAG_SYN | FLAG_ACK, Seq::empty()).1
            &&& spec_send_segment(heard, at_client, t2, FLAG_ACK, Seq::empty()).1
        }),
    ensures
        ({
            let addressed = spec_addressed(
                client,
                t0,
                local_ip,
                local_port,
                remote_ip,
                remote_port,
            );
            let calling = spec_syn_out(addressed, t0, TcpState::SynSent, true);
            let syn = spec_wire_header(addressed, FLAG_SYN, sums.0);
            let noted = spec_syn_noted(server, t1, syn, local_ip);
            let answering = spec_syn_out(noted, t1, TcpState::SynReceived, true);
            let syn_ack = spec_wire_header(noted, FLAG_SYN | FLAG_ACK, sums.1);
            let heard = spec_syn_ack_noted(calling, syn_ack);
            let ack = spec_wire_header(heard, FLAG_ACK, sums.2);
            let done = spec_handshake(
                client,
                local_ip,
                local_port,
                remote_ip,
                remote_port,
                server,
                t0,
                t1,
                t2,
                t3,
                sums,
            );
            &&& spec_process_segment(server, at_server, t1, syn, Seq::empty(), local_ip).0
                == answering
            &&& spec_process_segment(calling, at_client, t2, syn_ack, Seq::empty(), remote_ip).0
                == done.client
            &&& spec_process_segment(
                answering,
                at_server_again,
                t3,
                ack,
                Seq::empty(),
                local_ip,
            ).0 == done.server
        }),
{
    lemma_handshake_flags();
}

} // verus!
