use ralph_os::net::arp::update_cache;
use ralph_os::net::dispatch::{network_task, process_rx_packet};
use ralph_os::net::ethernet::{build_frame, ETHERTYPE_IPV4};
use ralph_os::net::interface::{NetConfig, NetInterface};
use ralph_os::net::ipv4::{header_bytes, Ipv4Header};
use ralph_os::net::ne2000;
use ralph_os::net::packet::{
    get_rx_buffer_for_write, get_tx_packet, rx_buffer_ready, tx_complete,
};
use ralph_os::net::tcp::{
    accept, alloc_port, available, build_segment, close, connect, generate_iss, get_state,
    is_connected, listen, process_timers, recv, send, seq_after, socket, summed_segment,
    RingBuffer, TcpControlBlock, TcpHeader, TcpStack, TcpState, FLAG_ACK, FLAG_FIN, FLAG_PSH,
    FLAG_RST, FLAG_SYN, MSS,
};

const OUR_IP: [u8; 4] = [10, 0, 2, 15];
const OUR_MAC: [u8; 6] = [0x52, 0x54, 0x00, 0x12, 0x34, 0x56];
const GW_IP: [u8; 4] = [10, 0, 2, 2];
const GW_MAC: [u8; 6] = [0x52, 0x55, 0x0a, 0x00, 0x02, 0x02];
const REMOTE: [u8; 4] = [1, 2, 3, 4];

fn config(ip: [u8; 4]) -> NetConfig {
    NetConfig { ip, netmask: [255, 255, 255, 0], gateway: GW_IP }
}

fn client() -> (TcpStack, NetInterface) {
    let mut iface = NetInterface::new(config(OUR_IP), OUR_MAC);
    update_cache(&mut iface.arp, &GW_IP, &GW_MAC, 0);
    (TcpStack::new(), iface)
}

struct Seen {
    ip: Ipv4Header,
    tcp: TcpHeader,
    segment: Vec<u8>,
    payload: Vec<u8>,
}

fn pop_segment(iface: &mut NetInterface) -> Option<Seen> {
    let frame = get_tx_packet(&iface.pool).map(|(d, _, _)| d.to_vec())?;
    tx_complete(&mut iface.pool);
    let ip = Ipv4Header::parse(&frame[14..]).unwrap();
    let segment = ip.payload(&frame[14..]).to_vec();
    let tcp = TcpHeader::parse(&segment).unwrap();
    let payload = tcp.payload(&segment).to_vec();
    Some(Seen { ip, tcp, segment, payload })
}

/// A frame from the gateway that carries a segment from `REMOTE`.
fn inject(
    stack: &mut TcpStack,
    iface: &mut NetInterface,
    now: u64,
    src_port: u16,
    dst_port: u16,
    seq: u32,
    ack: u32,
    flags: u8,
    payload: &[u8],
) {
    let seg = summed_segment(&REMOTE, &OUR_IP, src_port, dst_port, seq, ack, flags, 4096, payload);
    let mut packet = header_bytes(6, &REMOTE, &OUR_IP, seg.len(), 77);
    packet.extend_from_slice(&seg);
    let mut frame = vec![0u8; 14];
    build_frame(&mut frame, &OUR_MAC, &GW_MAC, ETHERTYPE_IPV4);
    frame.extend_from_slice(&packet);
    process_rx_packet(stack, iface, now, &frame);
}

fn established(now: u64) -> (TcpStack, NetInterface, usize, u16, u32, u32) {
    let (mut t, mut i) = client();
    let s = socket(&mut t).unwrap();
    assert!(connect(&mut t, &mut i, now, s, &REMOTE, 80));
    let syn = pop_segment(&mut i).unwrap();
    let port = syn.tcp.src_port;
    let iss = syn.tcp.seq_num;
    let x = 0x1000_0000u32;
    inject(&mut t, &mut i, now + 1, 80, port, x, iss.wrapping_add(1), FLAG_SYN | FLAG_ACK, &[]);
    pop_segment(&mut i).unwrap();
    (t, i, s, port, iss, x)
}

#[test]
fn handshake_as_client() {
    let (mut t, mut i) = client();
    let s = socket(&mut t).unwrap();
    assert_eq!(s, 0);
    assert_eq!(get_state(&t, s), TcpState::Closed);
    assert!(connect(&mut t, &mut i, 100, s, &REMOTE, 80));
    assert_eq!(get_state(&t, s), TcpState::SynSent);
    let syn = pop_segment(&mut i).unwrap();
    assert_eq!(syn.ip.dst_ip, REMOTE);
    assert_eq!((syn.tcp.src_port, syn.tcp.dst_port), (49152, 80));
    assert_eq!(syn.tcp.flags, FLAG_SYN);
    assert_eq!(syn.tcp.window, 2048);
    let iss = syn.tcp.seq_num;
    assert_eq!(iss, generate_iss(100));
    assert_eq!(t.connections[s].iss, iss);
    assert_eq!(t.connections[s].snd_una, iss);
    assert_eq!(t.connections[s].snd_nxt, iss.wrapping_add(1));
    assert_eq!(t.connections[s].retransmit_timer, 120);

    let x = 0xFFFF_FFFFu32;
    inject(&mut t, &mut i, 103, 80, 49152, x, iss.wrapping_add(1), FLAG_SYN | FLAG_ACK, &[]);
    let ack = pop_segment(&mut i).unwrap();
    assert_eq!(ack.tcp.flags, FLAG_ACK);
    assert_eq!(ack.tcp.seq_num, iss.wrapping_add(1));
    assert_eq!(ack.tcp.ack_num, x.wrapping_add(1));
    assert_eq!(ack.tcp.ack_num, 0);
    assert!(pop_segment(&mut i).is_none());
    assert!(is_connected(&t, s));
    let c = &t.connections[s];
    assert_eq!((c.snd_una, c.rcv_nxt, c.irs), (iss.wrapping_add(1), 0, x));
    assert_eq!(c.snd_wnd, 4096);
    // first round-trip sample of 3 ticks: srtt 3, rttvar 1, rto clamped up to 20
    assert_eq!((c.srtt, c.rttvar, c.rto), (3, 1, 20));
}

#[test]
fn syn_ack_with_wrong_ack_is_ignored() {
    let (mut t, mut i) = client();
    let s = socket(&mut t).unwrap();
    assert!(connect(&mut t, &mut i, 0, s, &REMOTE, 80));
    let syn = pop_segment(&mut i).unwrap();
    inject(&mut t, &mut i, 1, 80, 49152, 5, syn.tcp.seq_num, FLAG_SYN | FLAG_ACK, &[]);
    assert_eq!(get_state(&t, s), TcpState::SynSent);
    assert!(pop_segment(&mut i).is_none());
}

#[test]
fn connect_fails_until_the_gateway_is_resolved() {
    let mut iface = NetInterface::new(config(OUR_IP), OUR_MAC);
    let mut t = TcpStack::new();
    let s = socket(&mut t).unwrap();
    assert!(!connect(&mut t, &mut iface, 0, s, &REMOTE, 80));
    assert_eq!(get_state(&t, s), TcpState::Closed);
    assert!(!connect(&mut t, &mut iface, 0, 7, &REMOTE, 80));
    assert!(!connect(&mut t, &mut iface, 0, 1, &REMOTE, 80));
    update_cache(&mut iface.arp, &GW_IP, &GW_MAC, 0);
    assert!(connect(&mut t, &mut iface, 0, s, &REMOTE, 80));
    assert!(!connect(&mut t, &mut iface, 0, s, &REMOTE, 80));
    // each attempt that reaches the network takes a port
    assert_eq!(t.connections[s].local_port, 49153);
}

#[test]
fn retransmission_after_timeout() {
    let (mut t, mut i, s, port, iss, x) = established(0);
    t.connections[s].retransmit_timer = 0;
    let data: Vec<u8> = (0..64u8).collect();
    assert_eq!(send(&mut t, s, &data), 64);
    process_timers(&mut t, &mut i, 10);
    let first = pop_segment(&mut i).unwrap();
    assert_eq!(first.tcp.flags, FLAG_PSH | FLAG_ACK);
    assert_eq!(first.tcp.seq_num, iss.wrapping_add(1));
    assert_eq!(first.tcp.ack_num, x.wrapping_add(1));
    assert_eq!((first.tcp.src_port, first.tcp.dst_port), (port, 80));
    assert_eq!(first.payload, data);
    assert!(pop_segment(&mut i).is_none());
    let rto = t.connections[s].rto;
    assert_eq!(rto, 20);
    assert_eq!(t.connections[s].retransmit_timer, 30);
    assert_eq!(t.connections[s].snd_nxt, iss.wrapping_add(65));

    // nothing more goes out while the data is in flight and the timer runs
    process_timers(&mut t, &mut i, 29);
    assert!(pop_segment(&mut i).is_none());
    assert_eq!(t.connections[s].retransmit_count, 0);

    process_timers(&mut t, &mut i, 30);
    let again = pop_segment(&mut i).unwrap();
    assert_eq!(again.segment, first.segment);
    assert!(pop_segment(&mut i).is_none());
    let c = &t.connections[s];
    assert_eq!(c.retransmit_count, 1);
    assert_eq!(c.rto, 2 * rto);
    assert_eq!(c.retransmit_timer, 30 + 40);
    assert_eq!(c.cwnd, MSS as u32);
    assert_eq!(c.ssthresh, 2 * MSS as u32);
}

#[test]
fn connection_is_reset_after_five_retransmissions() {
    let (mut t, mut i, s, _port, _iss, _x) = established(0);
    t.connections[s].retransmit_timer = 0;
    assert_eq!(send(&mut t, s, &[1, 2, 3]), 3);
    let mut now = 10;
    process_timers(&mut t, &mut i, now);
    pop_segment(&mut i).unwrap();
    for n in 1..=5u8 {
        now = t.connections[s].retransmit_timer;
        process_timers(&mut t, &mut i, now);
        assert_eq!(t.connections[s].retransmit_count, n);
        assert_eq!(pop_segment(&mut i).unwrap().payload, vec![1, 2, 3]);
    }
    assert_eq!(t.connections[s].rto, 640);
    now = t.connections[s].retransmit_timer;
    process_timers(&mut t, &mut i, now);
    assert!(!t.connections[s].in_use);
    assert_eq!(get_state(&t, s), TcpState::Closed);
    assert_eq!(send(&mut t, s, &[1]), -1);
}

#[test]
fn acknowledgement_releases_data_and_opens_the_window() {
    let (mut t, mut i, s, port, iss, x) = established(0);
    t.connections[s].retransmit_timer = 0;
    assert_eq!(send(&mut t, s, &[7u8; 100]), 100);
    process_timers(&mut t, &mut i, 5);
    pop_segment(&mut i).unwrap();
    assert_eq!(t.connections[s].bytes_pending(), 100);
    inject(&mut t, &mut i, 9, 80, port, x.wrapping_add(1), iss.wrapping_add(101), FLAG_ACK, &[]);
    let c = &t.connections[s];
    assert_eq!(c.bytes_pending(), 0);
    assert_eq!(c.snd_una, iss.wrapping_add(101));
    assert_eq!(c.last_ack, iss.wrapping_add(101));
    // slow start: the window grows by the bytes acknowledged
    assert_eq!(c.cwnd, MSS as u32 + 100);
    // second round-trip sample of 4 ticks after a first of 1
    assert_eq!((c.srtt, c.rttvar), ((7 * 1 + 4) / 8, (3 * 0 + 3) / 4));
    assert_eq!(c.rto, 20);
}

#[test]
fn third_duplicate_ack_triggers_fast_retransmit() {
    let (mut t, mut i, s, port, iss, x) = established(0);
    t.connections[s].retransmit_timer = 0;
    assert_eq!(send(&mut t, s, &[7u8; 100]), 100);
    process_timers(&mut t, &mut i, 5);
    pop_segment(&mut i).unwrap();
    inject(&mut t, &mut i, 6, 80, port, x.wrapping_add(1), iss.wrapping_add(51), FLAG_ACK, &[]);
    assert_eq!(t.connections[s].bytes_pending(), 50);
    let cwnd = t.connections[s].cwnd;
    for n in 1..=2u8 {
        inject(&mut t, &mut i, 7, 80, port, x.wrapping_add(1), iss.wrapping_add(51), FLAG_ACK, &[]);
        assert_eq!(t.connections[s].dup_ack_count, n);
        assert!(pop_segment(&mut i).is_none());
    }
    inject(&mut t, &mut i, 7, 80, port, x.wrapping_add(1), iss.wrapping_add(51), FLAG_ACK, &[]);
    let re = pop_segment(&mut i).unwrap();
    assert_eq!(re.tcp.seq_num, iss.wrapping_add(51));
    assert_eq!(re.payload, vec![7u8; 50]);
    let c = &t.connections[s];
    assert_eq!(c.ssthresh, 2 * MSS as u32);
    assert!(cwnd / 2 < 2 * MSS as u32);
    assert_eq!(c.cwnd, 2 * MSS as u32 + 3 * MSS as u32);
    inject(&mut t, &mut i, 7, 80, port, x.wrapping_add(1), iss.wrapping_add(51), FLAG_ACK, &[]);
    assert_eq!(t.connections[s].cwnd, 6 * MSS as u32);
}

#[test]
fn in_order_out_of_order_and_old_data() {
    let (mut t, mut i, s, port, iss, x) = established(0);
    let next = x.wrapping_add(1);
    let ack = iss.wrapping_add(1);
    // ahead of its turn: staged, the old position is acknowledged again
    inject(&mut t, &mut i, 2, 80, port, next.wrapping_add(3), ack, FLAG_ACK, b"def");
    assert_eq!(available(&t, s), 0);
    assert_eq!(pop_segment(&mut i).unwrap().tcp.ack_num, next);
    // in order: delivered together with what was staged
    inject(&mut t, &mut i, 2, 80, port, next, ack, FLAG_ACK, b"abc");
    assert_eq!(available(&t, s), 6);
    let a = pop_segment(&mut i).unwrap();
    assert_eq!(a.tcp.ack_num, next.wrapping_add(6));
    assert_eq!(a.tcp.flags, FLAG_ACK);
    // the window was advertised before the staged bytes were delivered
    assert_eq!(a.tcp.window, 2048 - 3);
    // old data: dropped, but acknowledged
    inject(&mut t, &mut i, 2, 80, port, next, ack, FLAG_ACK, b"abc");
    assert_eq!(available(&t, s), 6);
    assert_eq!(pop_segment(&mut i).unwrap().tcp.ack_num, next.wrapping_add(6));
    let mut buf = vec![0u8; 4];
    assert_eq!(recv(&mut t, s, &mut buf), 4);
    assert_eq!(buf, b"abcd".to_vec());
    let mut buf = vec![0u8; 10];
    assert_eq!(recv(&mut t, s, &mut buf), 2);
    assert_eq!(&buf[..2], b"ef");
    assert_eq!(recv(&mut t, s, &mut buf), 0);
    assert_eq!(t.connections[s].rcv_wnd, 2048);
}

#[test]
fn staging_area_holds_four_segments_of_512_bytes() {
    let (mut t, mut i, s, port, iss, x) = established(0);
    let next = x.wrapping_add(1);
    let ack = iss.wrapping_add(1);
    for k in 1..=5u32 {
        inject(&mut t, &mut i, 2, 80, port, next.wrapping_add(k * 600), ack, FLAG_ACK, &vec![k as u8; 600]);
    }
    let valid: Vec<u32> = t.connections[s].ooo_segments.iter().filter(|o| o.valid).map(|o| o.seq).collect();
    assert_eq!(valid, (1..=4u32).map(|k| next.wrapping_add(k * 600)).collect::<Vec<_>>());
    assert!(t.connections[s].ooo_segments.iter().all(|o| o.len == 512));
}

#[test]
fn peer_close_then_our_close() {
    let (mut t, mut i, s, port, iss, x) = established(0);
    let next = x.wrapping_add(1);
    inject(&mut t, &mut i, 2, 80, port, next, iss.wrapping_add(1), FLAG_FIN | FLAG_ACK, &[]);
    assert_eq!(get_state(&t, s), TcpState::CloseWait);
    assert_eq!(pop_segment(&mut i).unwrap().tcp.ack_num, next.wrapping_add(1));
    let mut buf = vec![0u8; 4];
    assert_eq!(recv(&mut t, s, &mut buf), -1);
    assert_eq!(send(&mut t, s, b"bye"), 3);
    close(&mut t, &mut i, 3, s);
    assert_eq!(get_state(&t, s), TcpState::LastAck);
    let fin = pop_segment(&mut i).unwrap();
    assert_eq!(fin.tcp.flags, FLAG_FIN | FLAG_ACK);
    inject(&mut t, &mut i, 4, 80, port, next.wrapping_add(1), iss.wrapping_add(2), FLAG_ACK, &[]);
    assert_eq!(get_state(&t, s), TcpState::Closed);
    assert!(!t.connections[s].in_use);
}

#[test]
fn our_close_goes_through_time_wait() {
    let (mut t, mut i, s, port, iss, x) = established(0);
    close(&mut t, &mut i, 2, s);
    assert_eq!(get_state(&t, s), TcpState::FinWait1);
    assert_eq!(pop_segment(&mut i).unwrap().tcp.flags, FLAG_FIN | FLAG_ACK);
    inject(&mut t, &mut i, 3, 80, port, x.wrapping_add(1), iss.wrapping_add(2), FLAG_ACK, &[]);
    assert_eq!(get_state(&t, s), TcpState::FinWait2);
    inject(&mut t, &mut i, 4, 80, port, x.wrapping_add(1), iss.wrapping_add(2), FLAG_FIN | FLAG_ACK, &[]);
    assert_eq!(get_state(&t, s), TcpState::TimeWait);
    assert_eq!(pop_segment(&mut i).unwrap().tcp.ack_num, x.wrapping_add(2));
    assert_eq!(t.connections[s].time_wait_timer, 3004);
    process_timers(&mut t, &mut i, 3003);
    assert_eq!(get_state(&t, s), TcpState::TimeWait);
    process_timers(&mut t, &mut i, 3004);
    assert_eq!(get_state(&t, s), TcpState::Closed);
}

#[test]
fn simultaneous_close() {
    let (mut t, mut i, s, port, iss, x) = established(0);
    close(&mut t, &mut i, 2, s);
    pop_segment(&mut i).unwrap();
    inject(&mut t, &mut i, 3, 80, port, x.wrapping_add(1), iss.wrapping_add(1), FLAG_FIN, &[]);
    assert_eq!(get_state(&t, s), TcpState::Closing);
    pop_segment(&mut i).unwrap();
    inject(&mut t, &mut i, 4, 80, port, x.wrapping_add(2), iss.wrapping_add(2), FLAG_ACK, &[]);
    assert_eq!(get_state(&t, s), TcpState::TimeWait);
}

#[test]
fn reset_closes_and_unknown_segments_are_reset() {
    let (mut t, mut i, s, port, iss, x) = established(0);
    inject(&mut t, &mut i, 2, 80, port, x, iss, FLAG_RST, &[]);
    assert!(!t.connections[s].in_use);
    // no connection: an ACK is answered with a reset that takes its number
    inject(&mut t, &mut i, 2, 80, port, 500, 900, FLAG_ACK, &[]);
    let rst = pop_segment(&mut i).unwrap();
    assert_eq!((rst.tcp.flags, rst.tcp.seq_num, rst.tcp.ack_num), (FLAG_RST, 900, 501));
    assert_eq!((rst.tcp.src_port, rst.tcp.dst_port, rst.tcp.window), (port, 80, 0));
    inject(&mut t, &mut i, 2, 80, 9999, 500, 0, FLAG_SYN, &[]);
    let rst = pop_segment(&mut i).unwrap();
    assert_eq!((rst.tcp.flags, rst.tcp.seq_num, rst.tcp.ack_num), (FLAG_RST | FLAG_ACK, 0, 501));
    // a reset is never answered
    inject(&mut t, &mut i, 2, 80, 9999, 500, 0, FLAG_RST, &[]);
    assert!(pop_segment(&mut i).is_none());
}

#[test]
fn segment_with_bad_checksum_is_dropped() {
    let (mut t, mut i, s, port, iss, x) = established(0);
    let mut seg = summed_segment(&REMOTE, &OUR_IP, 80, port, x.wrapping_add(1), iss.wrapping_add(1), FLAG_ACK, 100, b"abc");
    seg[20] ^= 0xFF;
    let mut packet = header_bytes(6, &REMOTE, &OUR_IP, seg.len(), 77);
    packet.extend_from_slice(&seg);
    let mut frame = vec![0u8; 14];
    build_frame(&mut frame, &OUR_MAC, &GW_MAC, ETHERTYPE_IPV4);
    frame.extend_from_slice(&packet);
    process_rx_packet(&mut t, &mut i, 5, &frame);
    assert_eq!(available(&t, s), 0);
    assert!(pop_segment(&mut i).is_none());
}

#[test]
fn header_parse_and_flags() {
    let mut buf = vec![0xEE; 30];
    assert_eq!(build_segment(&mut buf, 1, 2, 0x01020304, 0x05060708, 0x12, 0x0900, b"hi"), 22);
    assert_eq!(
        &buf[..22],
        &[0, 1, 0, 2, 1, 2, 3, 4, 5, 6, 7, 8, 0x50, 0x12, 9, 0, 0, 0, 0, 0, b'h', b'i']
    );
    assert_eq!(&buf[22..], &[0xEE; 8]);
    assert_eq!(build_segment(&mut vec![0u8; 21], 1, 2, 3, 4, 0, 0, b"hi"), 0);
    let h = TcpHeader::parse(&buf[..22]).unwrap();
    assert_eq!((h.src_port, h.dst_port, h.seq_num, h.ack_num), (1, 2, 0x01020304, 0x05060708));
    assert_eq!((h.data_offset, h.flags, h.window, h.checksum, h.urgent_ptr), (5, 0x12, 0x0900, 0, 0));
    assert_eq!(h.header_length(), 20);
    assert_eq!(h.payload(&buf[..22]), b"hi");
    assert!(h.is_syn() && h.is_ack() && !h.is_fin() && !h.is_rst());
    assert!(TcpHeader::parse(&buf[..19]).is_none());
    let mut small = buf.clone();
    small[12] = 0x40;
    assert!(TcpHeader::parse(&small).is_none());
    let mut flags = buf.clone();
    flags[13] = 0xC5;
    let h = TcpHeader::parse(&flags).unwrap();
    assert_eq!(h.flags, 0x05);
    assert!(h.is_fin() && h.is_rst() && !h.is_syn());
    let mut opts = buf.clone();
    opts[12] = 0x60;
    assert_eq!(TcpHeader::parse(&opts).unwrap().payload(&opts[..22]), &[] as &[u8]);
}

#[test]
fn sequence_comparison_wraps() {
    assert!(seq_after(1, 0));
    assert!(!seq_after(0, 0));
    assert!(!seq_after(0, 1));
    assert!(seq_after(0, 0xFFFF_FFFF));
    assert!(seq_after(5, 0xFFFF_FFF0));
    assert!(!seq_after(0xFFFF_FFF0, 5));
    assert!(seq_after(0x7FFF_FFFF, 0));
    assert!(!seq_after(0x8000_0000, 0));
    assert_eq!(generate_iss(0), 0x3039);
    assert_eq!(generate_iss(1), 0x41C6_4E6D + 0x3039);
    assert_eq!(generate_iss(0x1_0000_0002), 0x41C6_4E6Du32.wrapping_mul(2).wrapping_add(0x3039));
}

#[test]
fn ring_buffer_is_fifo_across_the_wrap() {
    let mut r = RingBuffer::new();
    assert_eq!(r.free_space(), 2048);
    assert_eq!(r.write(&vec![1u8; 2000]), 2000);
    let mut buf = vec![0u8; 1990];
    assert_eq!(r.read(&mut buf), 1990);
    let data: Vec<u8> = (0..200u8).collect();
    assert_eq!(r.write(&data), 200);
    assert_eq!(r.available(), 210);
    let mut peeked = vec![0u8; 15];
    assert_eq!(r.peek(&mut peeked), 15);
    assert_eq!(&peeked[..10], &[1u8; 10]);
    assert_eq!(&peeked[10..], &[0, 1, 2, 3, 4]);
    assert_eq!(r.copy_range(10, 200), data);
    r.consume(10);
    let mut out = vec![0u8; 300];
    assert_eq!(r.read(&mut out), 200);
    assert_eq!(&out[..200], &data[..]);
    assert_eq!(r.write(&vec![9u8; 3000]), 2048);
    assert_eq!(r.write(&[1]), 0);
    r.consume(5000);
    assert_eq!(r.available(), 0);
    r.write(&[1, 2]);
    r.clear();
    assert_eq!(r.available(), 0);
}

#[test]
fn sockets_are_limited_to_four() {
    let mut t = TcpStack::new();
    let i = NetInterface::new(config(OUR_IP), OUR_MAC);
    for k in 0..4 {
        assert_eq!(socket(&mut t), Some(k));
    }
    assert_eq!(socket(&mut t), None);
    assert!(listen(&mut t, &i, 2, 23));
    assert!(!listen(&mut t, &i, 2, 24));
    assert!(!listen(&mut t, &i, 4, 24));
    assert_eq!(get_state(&t, 2), TcpState::Listen);
    assert_eq!(accept(&t, 2), None);
    assert_eq!(accept(&t, 1), None);
    let mut i = i;
    close(&mut t, &mut i, 0, 2);
    assert_eq!(socket(&mut t), Some(2));
    assert_eq!(available(&t, 9), 0);
    let mut buf = vec![0u8; 1];
    assert_eq!(recv(&mut t, 9, &mut buf), -1);
    assert_eq!(recv(&mut t, 0, &mut buf), -1);
    assert_eq!(send(&mut t, 0, &[1]), -1);
    assert_eq!(get_state(&t, 9), TcpState::Closed);
    t.next_port = 65535;
    assert_eq!(alloc_port(&mut t), 65535);
    assert_eq!(alloc_port(&mut t), 49152);
    let fresh = TcpControlBlock::new();
    assert_eq!((fresh.rto, fresh.cwnd, fresh.ssthresh, fresh.rcv_wnd), (20, 1460, 65535, 2048));
}

struct Host {
    tcp: TcpStack,
    iface: NetInterface,
}

fn host(ip: [u8; 4], mac: [u8; 6]) -> Host {
    Host { tcp: TcpStack::new(), iface: NetInterface::new(config(ip), mac) }
}

/// Carries every frame that `from` has queued to the receive ring of
/// `to`, through the driver's transmit layout and receive unpacking.
fn carry(from: &mut Host, to: &mut Host) -> usize {
    let mut n = 0;
    loop {
        let frame = match get_tx_packet(&from.iface.pool) {
            Some((d, _, _)) => d.to_vec(),
            None => break,
        };
        tx_complete(&mut from.iface.pool);
        let words = ne2000::send(&frame).unwrap();
        if get_rx_buffer_for_write(&mut to.iface.pool).is_some() {
            rx_buffer_ready(&mut to.iface.pool, &ne2000::unpack(&words, frame.len()));
            n += 1;
        }
    }
    n
}

fn round(a: &mut Host, b: &mut Host, now: u64) {
    network_task(&mut a.tcp, &mut a.iface, now);
    carry(a, b);
    network_task(&mut b.tcp, &mut b.iface, now);
    carry(b, a);
}

#[test]
fn handshake_and_stream_between_two_hosts() {
    let mut a = host([10, 0, 2, 15], [2, 0, 0, 0, 0, 1]);
    let mut b = host([10, 0, 2, 16], [2, 0, 0, 0, 0, 2]);
    let listener = socket(&mut b.tcp).unwrap();
    assert!(listen(&mut b.tcp, &b.iface, listener, 7));
    let s = socket(&mut a.tcp).unwrap();
    let mut now = 0u64;
    // the first attempt only resolves the address
    assert!(!connect(&mut a.tcp, &mut a.iface, now, s, &[10, 0, 2, 16], 7));
    round(&mut a, &mut b, now);
    round(&mut a, &mut b, now);
    now += 1;
    assert!(connect(&mut a.tcp, &mut a.iface, now, s, &[10, 0, 2, 16], 7));
    for _ in 0..3 {
        round(&mut a, &mut b, now);
        now += 1;
    }
    assert!(is_connected(&a.tcp, s));
    let peer = accept(&b.tcp, listener).unwrap();
    assert!(is_connected(&b.tcp, peer));
    assert_eq!(get_state(&b.tcp, listener), TcpState::Listen);
    {
        let ca = &a.tcp.connections[s];
        let cb = &b.tcp.connections[peer];
        assert_eq!(ca.snd_una, ca.iss.wrapping_add(1));
        assert_eq!(ca.rcv_nxt, ca.irs.wrapping_add(1));
        assert_eq!(cb.snd_una, cb.iss.wrapping_add(1));
        assert_eq!(cb.rcv_nxt, cb.irs.wrapping_add(1));
        assert_eq!((ca.irs, cb.irs), (cb.iss, ca.iss));
        assert_eq!((cb.remote_port, cb.local_port), (ca.local_port, 7));
    }

    let stream: Vec<u8> = (0..20_000u32).map(|k| (k * 7 + k / 256) as u8).collect();
    let mut written = 0usize;
    let mut read: Vec<u8> = Vec::new();
    let mut rounds = 0;
    while read.len() < stream.len() {
        if written < stream.len() {
            let end = (written + 3000).min(stream.len());
            let n = send(&mut a.tcp, s, &stream[written..end]);
            assert!(n >= 0);
            written += n as usize;
        }
        round(&mut a, &mut b, now);
        now += 1;
        let mut buf = vec![0u8; 2048];
        let n = recv(&mut b.tcp, peer, &mut buf);
        assert!(n >= 0);
        read.extend_from_slice(&buf[..n as usize]);
        rounds += 1;
        assert!(rounds < 2000, "no progress: {} of {} bytes read", read.len(), stream.len());
    }
    assert_eq!(read, stream);

    close(&mut a.tcp, &mut a.iface, now, s);
    for _ in 0..3 {
        round(&mut a, &mut b, now);
        now += 1;
    }
    assert_eq!(get_state(&b.tcp, peer), TcpState::CloseWait);
    let mut buf = vec![0u8; 8];
    assert_eq!(recv(&mut b.tcp, peer, &mut buf), -1);
    close(&mut b.tcp, &mut b.iface, now, peer);
    for _ in 0..3 {
        round(&mut a, &mut b, now);
        now += 1;
    }
    assert_eq!(get_state(&b.tcp, peer), TcpState::Closed);
    assert_eq!(get_state(&a.tcp, s), TcpState::TimeWait);
}

#[test]
fn stream_survives_lost_segments() {
    let mut a = host([10, 0, 2, 15], [2, 0, 0, 0, 0, 1]);
    let mut b = host([10, 0, 2, 16], [2, 0, 0, 0, 0, 2]);
    let listener = socket(&mut b.tcp).unwrap();
    listen(&mut b.tcp, &b.iface, listener, 7);
    let s = socket(&mut a.tcp).unwrap();
    connect(&mut a.tcp, &mut a.iface, 0, s, &[10, 0, 2, 16], 7);
    round(&mut a, &mut b, 0);
    round(&mut a, &mut b, 0);
    assert!(connect(&mut a.tcp, &mut a.iface, 1, s, &[10, 0, 2, 16], 7));
    let mut now = 1;
    for _ in 0..3 {
        round(&mut a, &mut b, now);
        now += 1;
    }
    let peer = accept(&b.tcp, listener).unwrap();
    let stream: Vec<u8> = (0..6000u32).map(|k| (k % 253) as u8).collect();
    let mut written = 0usize;
    let mut read: Vec<u8> = Vec::new();
    let mut rounds = 0u32;
    while read.len() < stream.len() {
        if written < stream.len() {
            let end = (written + 500).min(stream.len());
            written += send(&mut a.tcp, s, &stream[written..end]) as usize;
        }
        network_task(&mut a.tcp, &mut a.iface, now);
        if rounds % 5 == 2 {
            // the wire loses everything sent in this round
            while get_tx_packet(&a.iface.pool).is_some() {
                tx_complete(&mut a.iface.pool);
            }
        } else {
            carry(&mut a, &mut b);
        }
        network_task(&mut b.tcp, &mut b.iface, now);
        carry(&mut b, &mut a);
        now += 1;
        let mut buf = vec![0u8; 2048];
        let n = recv(&mut b.tcp, peer, &mut buf);
        read.extend_from_slice(&buf[..n.max(0) as usize]);
        rounds += 1;
        assert!(rounds < 20_000, "no progress: {} of {} bytes read", read.len(), stream.len());
    }
    assert_eq!(read, stream);
    assert!(a.tcp.connections[s].in_use);
}

#[test]
fn round_trip_estimate_and_timeout_bounds() {
    let mut c = TcpControlBlock::new();
    c.last_send_time = 100;
    ralph_os::net::tcp::update_rtt(&mut c, 140);
    // first sample of 40 ticks
    assert_eq!((c.srtt, c.rttvar, c.rto), (40, 20, 40 + 4 * 20));
    ralph_os::net::tcp::update_rtt(&mut c, 180);
    // sample of 80: rttvar = (3*20 + 40) / 4, srtt = (7*40 + 80) / 8
    assert_eq!((c.srtt, c.rttvar, c.rto), (45, 25, 145));
    c.last_send_time = 0;
    ralph_os::net::tcp::update_rtt(&mut c, 100_000);
    assert_eq!(c.srtt, (7 * 45 + 100_000) / 8);
    assert_eq!(c.rto, 6000);
    let mut fast = TcpControlBlock::new();
    fast.last_send_time = 7;
    ralph_os::net::tcp::update_rtt(&mut fast, 7);
    assert_eq!((fast.srtt, fast.rttvar, fast.rto), (0, 0, 20));
    // a clock that went backwards measures nothing
    ralph_os::net::tcp::update_rtt(&mut fast, 3);
    assert_eq!(fast.rto, 20);
}

#[test]
fn congestion_avoidance_grows_by_mss_squared_over_window() {
    let (mut t, mut i, s, port, iss, x) = established(0);
    t.connections[s].retransmit_timer = 0;
    t.connections[s].cwnd = 4000;
    t.connections[s].ssthresh = 3000;
    assert_eq!(send(&mut t, s, &[1u8; 10]), 10);
    process_timers(&mut t, &mut i, 5);
    pop_segment(&mut i).unwrap();
    inject(&mut t, &mut i, 6, 80, port, x.wrapping_add(1), iss.wrapping_add(11), FLAG_ACK, &[]);
    assert_eq!(t.connections[s].cwnd, 4000 + (1460 * 1460) / 4000);
    // the send policy is bounded by the smaller window less what is in flight
    t.connections[s].snd_wnd = 100;
    assert_eq!(send(&mut t, s, &[2u8; 500]), 500);
    process_timers(&mut t, &mut i, 7);
    assert_eq!(pop_segment(&mut i).unwrap().payload.len(), 100);
    process_timers(&mut t, &mut i, 8);
    assert!(pop_segment(&mut i).is_none());
    t.connections[s].snd_wnd = 4096;
    t.connections[s].cwnd = 150;
    process_timers(&mut t, &mut i, 9);
    let next = pop_segment(&mut i).unwrap();
    assert_eq!(next.payload.len(), 50);
    assert_eq!(next.tcp.seq_num, iss.wrapping_add(11 + 100));
    assert_eq!(next.payload, vec![2u8; 50]);
}

#[test]
fn full_sized_segments_are_sent() {
    let (mut t, mut i, s, _port, iss, _x) = established(0);
    t.connections[s].retransmit_timer = 0;
    t.connections[s].cwnd = 10_000;
    assert_eq!(send(&mut t, s, &vec![5u8; 2048]), 2048);
    process_timers(&mut t, &mut i, 5);
    let first = pop_segment(&mut i).unwrap();
    assert_eq!(first.payload.len(), MSS as usize);
    assert_eq!(first.ip.total_length, 1500);
    process_timers(&mut t, &mut i, 6);
    let second = pop_segment(&mut i).unwrap();
    assert_eq!(second.payload.len(), 2048 - MSS as usize);
    assert_eq!(second.tcp.seq_num, iss.wrapping_add(1 + MSS as u32));
}
