use ralph_os::net::arp::{
    arp_bytes, build_packet, expire_old_entries, lookup, on_local_network, resolve,
    update_cache, ArpPacket, ARP_REPLY, ARP_REQUEST, ARP_TIMEOUT_TICKS,
};
use ralph_os::net::checksum::{internet_checksum, verify_checksum};
use ralph_os::net::dispatch::{network_task, process_rx_packet};
use ralph_os::net::ethernet::{
    build_frame, send_frame, EthernetHeader, BROADCAST_MAC, ETHERTYPE_ARP, ETHERTYPE_IPV4,
};
use ralph_os::net::icmp::{build_echo_reply, echo_reply_bytes, IcmpHeader};
use ralph_os::net::interface::{default_config, ip_eq, mac_eq, ArpEntry, NetInterface};
use ralph_os::net::ipv4::{build_header, header_bytes, identification, send_packet, Ipv4Header};
use ralph_os::net::packet::{get_tx_packet, rx_buffer_ready, stats, tx_complete};
use ralph_os::net::tcp::TcpStack;

const OUR_MAC: [u8; 6] = [0x52, 0x54, 0x00, 0x12, 0x34, 0x56];
const GW_MAC: [u8; 6] = [0x52, 0x55, 0x0a, 0x00, 0x02, 0x02];
const PEER_MAC: [u8; 6] = [2, 0, 0, 0, 0, 9];

fn iface() -> NetInterface {
    NetInterface::new(default_config(), OUR_MAC)
}

fn pop_frame(iface: &mut NetInterface) -> Option<Vec<u8>> {
    let frame = get_tx_packet(&iface.pool).map(|(d, _, _)| d.to_vec());
    if frame.is_some() {
        tx_complete(&mut iface.pool);
    }
    frame
}

#[test]
fn default_addresses() {
    let c = default_config();
    assert_eq!(c.ip, [10, 0, 2, 15]);
    assert_eq!(c.netmask, [255, 255, 255, 0]);
    assert_eq!(c.gateway, [10, 0, 2, 2]);
    assert!(ip_eq(&c.ip, &[10, 0, 2, 15]));
    assert!(!ip_eq(&c.ip, &c.gateway));
    assert!(mac_eq(&OUR_MAC, &OUR_MAC));
    assert!(!mac_eq(&OUR_MAC, &GW_MAC));
    assert!(!ArpEntry::empty().valid);
}

#[test]
fn ethernet_header_parse_and_build() {
    let mut buf = vec![0xEEu8; 20];
    assert_eq!(build_frame(&mut buf, &PEER_MAC, &OUR_MAC, ETHERTYPE_IPV4), 14);
    assert_eq!(&buf[0..6], &PEER_MAC);
    assert_eq!(&buf[6..12], &OUR_MAC);
    assert_eq!(&buf[12..14], &[0x08, 0x00]);
    assert_eq!(&buf[14..], &[0xEE; 6]);
    let h = EthernetHeader::parse(&buf).unwrap();
    assert_eq!((h.dst_mac, h.src_mac, h.ethertype), (PEER_MAC, OUR_MAC, 0x0800));
    assert_eq!(EthernetHeader::payload(&buf), &[0xEE; 6]);
    assert!(h.is_for_us(&PEER_MAC));
    assert!(!h.is_for_us(&OUR_MAC));
    assert!(!h.is_broadcast());
    assert!(EthernetHeader::parse(&buf[..13]).is_none());
    assert_eq!(EthernetHeader::payload(&buf[..14]), &[] as &[u8]);
    let mut short = vec![1u8; 13];
    assert_eq!(build_frame(&mut short, &PEER_MAC, &OUR_MAC, 1), 0);
    assert_eq!(short, vec![1u8; 13]);
    let mut bc = vec![0u8; 14];
    build_frame(&mut bc, &BROADCAST_MAC, &OUR_MAC, ETHERTYPE_ARP);
    let h = EthernetHeader::parse(&bc).unwrap();
    assert!(h.is_broadcast() && h.is_for_us(&OUR_MAC));
}

#[test]
fn send_frame_pads_and_queues() {
    let mut i = iface();
    assert!(send_frame(&mut i, &PEER_MAC, 0x1234, &[1, 2, 3]));
    let f = pop_frame(&mut i).unwrap();
    assert_eq!(f.len(), 60);
    assert_eq!(&f[..17], &[2, 0, 0, 0, 0, 9, 0x52, 0x54, 0, 0x12, 0x34, 0x56, 0x12, 0x34, 1, 2, 3]);
    assert!(f[17..].iter().all(|&b| b == 0));
    // a maximal frame is sent unpadded, a longer one refused
    assert!(send_frame(&mut i, &PEER_MAC, 0x1234, &vec![7u8; 1500]));
    assert_eq!(pop_frame(&mut i).unwrap().len(), 1514);
    assert!(!send_frame(&mut i, &PEER_MAC, 0x1234, &vec![7u8; 1501]));
    assert_eq!(pop_frame(&mut i), None);
    // a full ring refuses
    for _ in 0..7 {
        assert!(send_frame(&mut i, &PEER_MAC, 1, &[0]));
    }
    assert!(!send_frame(&mut i, &PEER_MAC, 1, &[0]));
    assert_eq!(stats(&i.pool).1, 9);
}

#[test]
fn arp_packet_parse_and_build() {
    let bytes = arp_bytes(ARP_REQUEST, &PEER_MAC, &[10, 0, 2, 9], &[0; 6], &[10, 0, 2, 15]);
    assert_eq!(
        bytes,
        vec![
            0, 1, 8, 0, 6, 4, 0, 1, 2, 0, 0, 0, 0, 9, 10, 0, 2, 9, 0, 0, 0, 0, 0, 0, 10, 0, 2, 15
        ]
    );
    let p = ArpPacket::parse(&bytes).unwrap();
    assert_eq!((p.htype, p.ptype, p.hlen, p.plen, p.operation), (1, 0x0800, 6, 4, 1));
    assert_eq!((p.sha, p.spa, p.tha, p.tpa), (PEER_MAC, [10, 0, 2, 9], [0; 6], [10, 0, 2, 15]));
    assert!(p.is_for_our_ip(&[10, 0, 2, 15]));
    assert!(!p.is_for_our_ip(&[10, 0, 2, 16]));
    assert!(ArpPacket::parse(&bytes[..27]).is_none());
    for (at, v) in [(1usize, 2u8), (2, 0x86), (4, 8), (5, 16)] {
        let mut bad = bytes.clone();
        bad[at] = v;
        assert!(ArpPacket::parse(&bad).is_none());
    }
    let mut buf = vec![0xAA; 30];
    assert_eq!(build_packet(&mut buf, ARP_REPLY, &OUR_MAC, &[10, 0, 2, 15], &PEER_MAC, &[10, 0, 2, 9]), 28);
    assert_eq!(&buf[6..8], &[0, 2]);
    assert_eq!(&buf[8..14], &OUR_MAC);
    assert_eq!(&buf[28..], &[0xAA, 0xAA]);
    let mut short = vec![0u8; 27];
    assert_eq!(build_packet(&mut short, ARP_REPLY, &OUR_MAC, &[0; 4], &PEER_MAC, &[0; 4]), 0);
}

#[test]
fn arp_cache_learns_refreshes_and_expires() {
    let mut i = iface();
    assert_eq!(lookup(&i.arp, &[10, 0, 2, 9], 0), None);
    update_cache(&mut i.arp, &[10, 0, 2, 9], &PEER_MAC, 100);
    assert_eq!(lookup(&i.arp, &[10, 0, 2, 9], 100), Some(PEER_MAC));
    assert_eq!(lookup(&i.arp, &[10, 0, 2, 9], 100 + ARP_TIMEOUT_TICKS - 1), Some(PEER_MAC));
    assert_eq!(lookup(&i.arp, &[10, 0, 2, 9], 100 + ARP_TIMEOUT_TICKS), None);
    // a refresh reuses the entry
    update_cache(&mut i.arp, &[10, 0, 2, 9], &GW_MAC, 200);
    assert_eq!(i.arp.iter().filter(|e| e.valid).count(), 1);
    assert_eq!(lookup(&i.arp, &[10, 0, 2, 9], 200), Some(GW_MAC));
    expire_old_entries(&mut i.arp, 200 + ARP_TIMEOUT_TICKS - 1);
    assert!(i.arp[0].valid);
    expire_old_entries(&mut i.arp, 200 + ARP_TIMEOUT_TICKS);
    assert!(!i.arp[0].valid);
}

#[test]
fn arp_cache_replaces_the_oldest_when_full() {
    let mut i = iface();
    for k in 0..16u8 {
        update_cache(&mut i.arp, &[10, 0, 2, 100 + k], &PEER_MAC, 50 - k as u64);
    }
    // entry 15 has the smallest timestamp
    update_cache(&mut i.arp, &[10, 0, 3, 1], &GW_MAC, 99);
    assert_eq!(i.arp[15].ip, [10, 0, 3, 1]);
    assert_eq!(lookup(&i.arp, &[10, 0, 2, 115], 99), None);
    assert_eq!(lookup(&i.arp, &[10, 0, 2, 100], 99), Some(PEER_MAC));
    // a freed entry is taken first
    i.arp[3].valid = false;
    update_cache(&mut i.arp, &[10, 0, 3, 2], &GW_MAC, 99);
    assert_eq!(i.arp[3].ip, [10, 0, 3, 2]);
}

#[test]
fn resolve_goes_through_the_gateway_off_subnet() {
    let mut i = iface();
    assert!(on_local_network(&[10, 0, 2, 200], &i.config));
    assert!(!on_local_network(&[1, 2, 3, 4], &i.config));
    assert_eq!(resolve(&mut i, &[1, 2, 3, 4], 0), None);
    let req = pop_frame(&mut i).unwrap();
    assert_eq!(&req[0..6], &BROADCAST_MAC);
    assert_eq!(&req[12..14], &[0x08, 0x06]);
    let p = ArpPacket::parse(&req[14..]).unwrap();
    assert_eq!((p.operation, p.sha, p.spa, p.tha, p.tpa), (1, OUR_MAC, [10, 0, 2, 15], [0; 6], [10, 0, 2, 2]));
    update_cache(&mut i.arp, &[10, 0, 2, 2], &GW_MAC, 0);
    assert_eq!(resolve(&mut i, &[1, 2, 3, 4], 1), Some(GW_MAC));
    assert_eq!(resolve(&mut i, &[10, 0, 2, 9], 1), None);
    assert_eq!(ArpPacket::parse(&pop_frame(&mut i).unwrap()[14..]).unwrap().tpa, [10, 0, 2, 9]);
}

fn frame_for_us(src_mac: &[u8; 6], ethertype: u16, payload: &[u8]) -> Vec<u8> {
    let mut f = vec![0u8; 14];
    build_frame(&mut f, &OUR_MAC, src_mac, ethertype);
    f.extend_from_slice(payload);
    f
}

#[test]
fn arp_request_for_us_is_answered() {
    let mut i = iface();
    let mut t = TcpStack::new();
    let req = arp_bytes(ARP_REQUEST, &PEER_MAC, &[10, 0, 2, 9], &[0; 6], &[10, 0, 2, 15]);
    process_rx_packet(&mut t, &mut i, 5, &frame_for_us(&PEER_MAC, ETHERTYPE_ARP, &req));
    assert_eq!(lookup(&i.arp, &[10, 0, 2, 9], 5), Some(PEER_MAC));
    let reply = pop_frame(&mut i).unwrap();
    assert_eq!(&reply[0..6], &PEER_MAC);
    let p = ArpPacket::parse(&reply[14..]).unwrap();
    assert_eq!((p.operation, p.sha, p.spa, p.tha, p.tpa), (2, OUR_MAC, [10, 0, 2, 15], PEER_MAC, [10, 0, 2, 9]));
    // a request for somebody else is learned from but not answered
    let other = arp_bytes(ARP_REQUEST, &GW_MAC, &[10, 0, 2, 2], &[0; 6], &[10, 0, 2, 99]);
    process_rx_packet(&mut t, &mut i, 5, &frame_for_us(&GW_MAC, ETHERTYPE_ARP, &other));
    assert_eq!(lookup(&i.arp, &[10, 0, 2, 2], 5), Some(GW_MAC));
    assert_eq!(pop_frame(&mut i), None);
}

#[test]
fn frames_for_others_are_ignored() {
    let mut i = iface();
    let mut t = TcpStack::new();
    let req = arp_bytes(ARP_REQUEST, &PEER_MAC, &[10, 0, 2, 9], &[0; 6], &[10, 0, 2, 15]);
    let mut f = vec![0u8; 14];
    build_frame(&mut f, &GW_MAC, &PEER_MAC, ETHERTYPE_ARP);
    f.extend_from_slice(&req);
    process_rx_packet(&mut t, &mut i, 5, &f);
    assert_eq!(lookup(&i.arp, &[10, 0, 2, 9], 5), None);
    process_rx_packet(&mut t, &mut i, 5, &frame_for_us(&PEER_MAC, 0x86DD, &req));
    process_rx_packet(&mut t, &mut i, 5, &[1, 2, 3]);
    assert_eq!(pop_frame(&mut i), None);
}

#[test]
fn ipv4_header_build_and_parse() {
    let h = header_bytes(6, &[10, 0, 2, 15], &[1, 2, 3, 4], 100, 0x1234);
    assert_eq!(h.len(), 20);
    assert_eq!(&h[..10], &[0x45, 0, 0, 120, 0x12, 0x34, 0x40, 0, 64, 6]);
    assert_eq!(&h[12..], &[10, 0, 2, 15, 1, 2, 3, 4]);
    assert!(verify_checksum(&h));
    let p = Ipv4Header::parse(&h).unwrap();
    assert_eq!((p.version, p.ihl, p.tos, p.total_length), (4, 5, 0, 120));
    assert_eq!((p.identification, p.flags_fragment, p.ttl, p.protocol), (0x1234, 0x4000, 64, 6));
    assert_eq!((p.src_ip, p.dst_ip), ([10, 0, 2, 15], [1, 2, 3, 4]));
    assert_eq!(p.header_length(), 20);
    assert!(p.verify_checksum(&h));
    assert!(!p.is_fragmented());
    assert!(p.is_for_us(&[1, 2, 3, 4]));
    assert!(!p.is_for_us(&[1, 2, 3, 5]));
    let mut bad = h.clone();
    bad[8] = 63;
    assert!(!Ipv4Header::parse(&bad).unwrap().verify_checksum(&bad));
    let mut buf = vec![9u8; 22];
    assert_eq!(build_header(&mut buf, 1, &[1, 1, 1, 1], &[2, 2, 2, 2], 2, 7), 20);
    assert_eq!(&buf[20..], &[9, 9]);
    assert_eq!(&buf[2..4], &[0, 22]);
    assert_eq!(build_header(&mut vec![0u8; 19], 1, &[1; 4], &[2; 4], 2, 7), 0);
}

#[test]
fn ipv4_parse_rejects_and_payload() {
    let h = header_bytes(17, &[1; 4], &[2; 4], 4, 1);
    assert!(Ipv4Header::parse(&h[..19]).is_none());
    let mut v6 = h.clone();
    v6[0] = 0x65;
    assert!(Ipv4Header::parse(&v6).is_none());
    let mut short_ihl = h.clone();
    short_ihl[0] = 0x44;
    assert!(Ipv4Header::parse(&short_ihl).is_none());
    let mut options = h.clone();
    options[0] = 0x46;
    assert!(Ipv4Header::parse(&options).is_none());
    options.extend_from_slice(&[0; 4]);
    assert_eq!(Ipv4Header::parse(&options).unwrap().header_length(), 24);

    let mut packet = h.clone();
    packet.extend_from_slice(&[1, 2, 3, 4, 0, 0]);
    let p = Ipv4Header::parse(&packet).unwrap();
    // the total length cuts off trailing padding
    assert_eq!(p.payload(&packet), &[1, 2, 3, 4]);
    // a total length beyond the data is not trusted
    assert_eq!(p.payload(&packet[..22]), &[1, 2]);
    assert_eq!(p.payload(&packet[..20]), &[] as &[u8]);
    let mut frag = h.clone();
    frag[6] = 0x20;
    assert!(Ipv4Header::parse(&frag).unwrap().is_fragmented());
    frag[6] = 0;
    frag[7] = 1;
    assert!(Ipv4Header::parse(&frag).unwrap().is_fragmented());
}

#[test]
fn send_packet_needs_a_resolved_next_hop() {
    let mut i = iface();
    assert!(!send_packet(&mut i, 0, &[10, 0, 2, 9], 17, &[1, 2, 3]));
    assert_eq!(i.ip_id, 0);
    assert_eq!(&pop_frame(&mut i).unwrap()[12..14], &[0x08, 0x06]);
    update_cache(&mut i.arp, &[10, 0, 2, 9], &PEER_MAC, 0);
    assert!(send_packet(&mut i, 1, &[10, 0, 2, 9], 17, &[1, 2, 3]));
    assert_eq!(i.ip_id, 1);
    let f = pop_frame(&mut i).unwrap();
    assert_eq!(&f[0..6], &PEER_MAC);
    assert_eq!(&f[12..14], &[0x08, 0x00]);
    let p = Ipv4Header::parse(&f[14..]).unwrap();
    assert_eq!((p.total_length, p.identification, p.protocol), (23, 1, 17));
    assert_eq!(p.payload(&f[14..]), &[1, 2, 3]);
    // too long for one packet: the identification is spent, nothing is sent
    assert!(!send_packet(&mut i, 1, &[10, 0, 2, 9], 17, &vec![0u8; 1481]));
    assert_eq!(i.ip_id, 2);
    assert_eq!(pop_frame(&mut i), None);
    assert!(send_packet(&mut i, 1, &[10, 0, 2, 9], 17, &vec![0u8; 1480]));
    i.ip_id = u16::MAX;
    assert_eq!(identification(&mut i), 0);
}

/// An echo request: an echo reply with type 8 and the checksum to match.
fn echo_request(identifier: u16, sequence: u16, payload: &[u8]) -> Vec<u8> {
    let mut req = echo_reply_bytes(identifier, sequence, payload);
    req[0] = 8;
    req[2] = 0;
    req[3] = 0;
    let c = internet_checksum(&req);
    req[2] = (c >> 8) as u8;
    req[3] = (c & 0xFF) as u8;
    req
}

#[test]
fn ping_is_answered() {
    let mut i = iface();
    let mut t = TcpStack::new();
    update_cache(&mut i.arp, &[10, 0, 2, 2], &GW_MAC, 0);
    let req = echo_request(0x1234, 7, b"abcdefgh");
    assert!(IcmpHeader::verify_checksum(&req));
    let mut packet = header_bytes(1, &[10, 0, 2, 2], &[10, 0, 2, 15], req.len(), 9);
    packet.extend_from_slice(&req);
    rx_buffer_ready(&mut i.pool, &frame_for_us(&GW_MAC, ETHERTYPE_IPV4, &packet));
    network_task(&mut t, &mut i, 1);
    let f = pop_frame(&mut i).unwrap();
    assert_eq!(&f[0..6], &GW_MAC);
    let ip = Ipv4Header::parse(&f[14..]).unwrap();
    assert_eq!((ip.protocol, ip.dst_ip, ip.src_ip), (1, [10, 0, 2, 2], [10, 0, 2, 15]));
    let reply = ip.payload(&f[14..]);
    assert_eq!(reply, &echo_reply_bytes(0x1234, 7, b"abcdefgh")[..]);
    let h = IcmpHeader::parse(reply).unwrap();
    assert_eq!((h.icmp_type, h.code, h.identifier, h.sequence), (0, 0, 0x1234, 7));
    assert!(IcmpHeader::verify_checksum(reply));
    assert_eq!(IcmpHeader::payload(reply), b"abcdefgh");

    // a request with a wrong checksum is dropped, and so is an echo reply
    let mut bad = packet.clone();
    *bad.last_mut().unwrap() ^= 1;
    rx_buffer_ready(&mut i.pool, &frame_for_us(&GW_MAC, ETHERTYPE_IPV4, &bad));
    let mut rep = header_bytes(1, &[10, 0, 2, 2], &[10, 0, 2, 15], 16, 9);
    rep.extend_from_slice(&echo_reply_bytes(1, 1, b"abcdefgh"));
    rx_buffer_ready(&mut i.pool, &frame_for_us(&GW_MAC, ETHERTYPE_IPV4, &rep));
    network_task(&mut t, &mut i, 2);
    assert_eq!(pop_frame(&mut i), None);
    assert_eq!(stats(&i.pool).0, 3);
}

#[test]
fn icmp_build_and_parse_edges() {
    assert!(IcmpHeader::parse(&[0; 7]).is_none());
    assert_eq!(IcmpHeader::payload(&[0; 8]), &[] as &[u8]);
    let mut buf = vec![0x55u8; 12];
    assert_eq!(build_echo_reply(&mut buf, 1, 2, &[9, 9]), 10);
    assert_eq!(&buf[4..12], &[0, 1, 0, 2, 9, 9, 0x55, 0x55]);
    assert_eq!(build_echo_reply(&mut vec![0u8; 9], 1, 2, &[9, 9]), 0);
    assert_eq!(build_echo_reply(&mut vec![0u8; 2000], 1, 2, &vec![0u8; 1493]), 0);
}

#[test]
fn packets_not_for_us_or_fragmented_are_dropped() {
    let mut i = iface();
    let mut t = TcpStack::new();
    update_cache(&mut i.arp, &[10, 0, 2, 2], &GW_MAC, 0);
    let req = echo_request(1, 1, b"");
    assert!(IcmpHeader::verify_checksum(&req));
    let mut other = header_bytes(1, &[10, 0, 2, 2], &[10, 0, 2, 16], req.len(), 9);
    other.extend_from_slice(&req);
    process_rx_packet(&mut t, &mut i, 1, &frame_for_us(&GW_MAC, ETHERTYPE_IPV4, &other));
    assert_eq!(pop_frame(&mut i), None);
    let mut ok = header_bytes(1, &[10, 0, 2, 2], &[10, 0, 2, 15], req.len(), 9);
    ok.extend_from_slice(&req);
    process_rx_packet(&mut t, &mut i, 1, &frame_for_us(&GW_MAC, ETHERTYPE_IPV4, &ok));
    assert!(pop_frame(&mut i).is_some());
}
