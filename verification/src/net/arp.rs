//! Address resolution for IPv4 over Ethernet: packets and the cache.

use vstd::prelude::*;
use crate::bytes::{be16_at, push_be16, spec_be16_at, spec_be16_bytes};
use crate::net::ethernet::{push_ip, push_mac, send_frame, spec_send_frame, ETHERTYPE_ARP};
use crate::net::interface::{
    ip_eq, ip_of, lemma_ip_of, lemma_mac_of, mac_of, ArpEntry, IfaceState, NetConfig,
    NetInterface,
};

verus! {

/// Bytes of an ARP packet for IPv4 over Ethernet.
pub const HEADER_SIZE: usize = 28;

/// Operation code of a request.
pub const ARP_REQUEST: u16 = 1;

/// Operation code of a reply.
pub const ARP_REPLY: u16 = 2;

/// Hardware type of Ethernet.
pub const HTYPE_ETHERNET: u16 = 1;

/// Protocol type of IPv4.
pub const PTYPE_IPV4: u16 = 0x0800;

/// Length of an Ethernet address.
pub const HLEN_ETHERNET: u8 = 6;

/// Length of an IPv4 address.
pub const PLEN_IPV4: u8 = 4;

/// Ticks after which a cache entry is stale: five minutes.
pub const ARP_TIMEOUT_TICKS: u64 = 30000;

/// A decoded ARP packet.
#[derive(Debug, Clone, Copy)]
pub struct ArpPacket {
    pub htype: u16,
    pub ptype: u16,
    pub hlen: u8,
    pub plen: u8,
    pub operation: u16,
    /// Sender hardware address.
    pub sha: [u8; 6],
    /// Sender protocol address.
    pub spa: [u8; 4],
    /// Target hardware address.
    pub tha: [u8; 6],
    /// Target protocol address.
    pub tpa: [u8; 4],
}

/// Whether `data` starts with an ARP packet for IPv4 over Ethernet.
pub open spec fn spec_arp_valid(data: Seq<u8>) -> bool {
    &&& data.len() >= HEADER_SIZE
    &&& spec_be16_at(data, 0) == HTYPE_ETHERNET
    &&& spec_be16_at(data, 2) == PTYPE_IPV4
    &&& data[4] == HLEN_ETHERNET
    &&& data[5] == PLEN_IPV4
}

/// The 28 bytes of an ARP packet.
pub open spec fn spec_arp_bytes(
    operation: u16,
    sha: Seq<u8>,
    spa: Seq<u8>,
    tha: Seq<u8>,
    tpa: Seq<u8>,
) -> Seq<u8> {
    spec_be16_bytes(HTYPE_ETHERNET) + spec_be16_bytes(PTYPE_IPV4) + seq![
        HLEN_ETHERNET,
        PLEN_IPV4,
    ] + spec_be16_bytes(operation) + sha + spa + tha + tpa
}

/// The broadcast hardware address.
pub open spec fn spec_broadcast() -> Seq<u8> {
    seq![0xFFu8, 0xFFu8, 0xFFu8, 0xFFu8, 0xFFu8, 0xFFu8]
}

/// The all-zero hardware address, which stands for "unknown" in requests.
pub open spec fn spec_zero_mac() -> Seq<u8> {
    seq![0u8, 0u8, 0u8, 0u8, 0u8, 0u8]
}

/// Ticks since `timestamp`, on a tick counter that wraps.
pub open spec fn spec_age(now: u64, timestamp: u64) -> int {
    if now >= timestamp {
        now - timestamp
    } else {
        now - timestamp + 0x1_0000_0000_0000_0000
    }
}

/// Whether a cache entry answers a lookup of `ip` at tick `now`.
pub open spec fn hit(e: ArpEntry, ip: Seq<u8>, now: u64) -> bool {
    e.valid && e.ip@ == ip && spec_age(now, e.timestamp) < ARP_TIMEOUT_TICKS
}

/// Index of the first entry at or after `from` that answers a lookup of
/// `ip`, or the cache length.
pub open spec fn lookup_index(cache: Seq<ArpEntry>, ip: Seq<u8>, now: u64, from: int) -> int
    decreases cache.len() - from,
{
    if from >= cache.len() {
        cache.len() as int
    } else if hit(cache[from], ip, now) {
        from
    } else {
        lookup_index(cache, ip, now, from + 1)
    }
}

/// Index of the first valid entry for `ip` at or after `from`, stale or
/// not, or the cache length.
pub open spec fn known_index(cache: Seq<ArpEntry>, ip: Seq<u8>, from: int) -> int
    decreases cache.len() - from,
{
    if from >= cache.len() {
        cache.len() as int
    } else if cache[from].valid && cache[from].ip@ == ip {
        from
    } else {
        known_index(cache, ip, from + 1)
    }
}

/// Index of the first unused entry at or after `from`, or the cache
/// length.
pub open spec fn first_unused(cache: Seq<ArpEntry>, from: int) -> int
    decreases cache.len() - from,
{
    if from >= cache.len() {
        cache.len() as int
    } else if !cache[from].valid {
        from
    } else {
        first_unused(cache, from + 1)
    }
}

/// Index and timestamp of the oldest entry among the first `n`: the one
/// with the smallest timestamp, the first of several; entry 0 if none is
/// older than the largest timestamp.
pub open spec fn oldest(cache: Seq<ArpEntry>, n: int) -> (int, u64)
    decreases n,
{
    if n <= 0 {
        (0, u64::MAX)
    } else {
        let prev = oldest(cache, n - 1);
        if cache[n - 1].timestamp < prev.1 {
            (n - 1, cache[n - 1].timestamp)
        } else {
            prev
        }
    }
}

/// The entry that a new mapping replaces: the first unused one, or the
/// oldest if all are in use.
pub open spec fn victim(cache: Seq<ArpEntry>) -> int {
    if first_unused(cache, 0) < cache.len() {
        first_unused(cache, 0)
    } else {
        oldest(cache, cache.len() as int).0
    }
}

/// The cache after the mapping `ip` to `mac` is learned at tick `now`: a
/// valid entry for `ip` is refreshed; otherwise the mapping replaces the
/// victim.
pub open spec fn spec_update_cache(cache: Seq<ArpEntry>, ip: [u8; 4], mac: [u8; 6], now: u64) -> Seq<
    ArpEntry,
> {
    let k = known_index(cache, ip@, 0);
    if k < cache.len() {
        cache.update(k, ArpEntry { mac, timestamp: now, ..cache[k] })
    } else {
        cache.update(victim(cache), ArpEntry { ip, mac, timestamp: now, valid: true })
    }
}

/// The cache after stale entries are dropped at tick `now`.
pub open spec fn spec_expire(cache: Seq<ArpEntry>, now: u64) -> Seq<ArpEntry> {
    Seq::new(
        cache.len(),
        |i: int|
            if cache[i].valid && spec_age(now, cache[i].timestamp) >= ARP_TIMEOUT_TICKS {
                ArpEntry { valid: false, ..cache[i] }
            } else {
                cache[i]
            },
    )
}

/// Whether `ip` is on the subnet of the interface.
pub open spec fn spec_on_local_network(ip: [u8; 4], config: NetConfig) -> bool {
    &&& (ip[0] & config.netmask[0]) == (config.ip[0] & config.netmask[0])
    &&& (ip[1] & config.netmask[1]) == (config.ip[1] & config.netmask[1])
    &&& (ip[2] & config.netmask[2]) == (config.ip[2] & config.netmask[2])
    &&& (ip[3] & config.netmask[3]) == (config.ip[3] & config.netmask[3])
}

/// The address whose hardware address is needed to reach `ip`: `ip`
/// itself on the subnet, the gateway otherwise.
pub open spec fn spec_next_hop(ip: [u8; 4], config: NetConfig) -> [u8; 4] {
    if spec_on_local_network(ip, config) {
        ip
    } else {
        config.gateway
    }
}

/// The interface after a request for `target_ip` is broadcast.
pub open spec fn spec_send_request(s: IfaceState, target_ip: Seq<u8>) -> IfaceState {
    spec_send_frame(
        s,
        spec_broadcast(),
        ETHERTYPE_ARP,
        spec_arp_bytes(ARP_REQUEST, s.mac@, s.config.ip@, spec_zero_mac(), target_ip),
    ).0
}

/// The interface after a reply is sent to `dst_mac`, `dst_ip`.
pub open spec fn spec_send_reply(s: IfaceState, dst_mac: Seq<u8>, dst_ip: Seq<u8>) -> IfaceState {
    spec_send_frame(
        s,
        dst_mac,
        ETHERTYPE_ARP,
        spec_arp_bytes(ARP_REPLY, s.mac@, s.config.ip@, dst_mac, dst_ip),
    ).0
}

/// Resolution of `ip` at tick `now`: the cached hardware address of the
/// next hop; without one, a request goes out and the result is `None`.
pub open spec fn spec_resolve(s: IfaceState, ip: [u8; 4], now: u64) -> (IfaceState, Option<[u8; 6]>) {
    let hop = spec_next_hop(ip, s.config);
    let k = lookup_index(s.arp, hop@, now, 0);
    if k < s.arp.len() {
        (s, Some(s.arp[k].mac))
    } else {
        (spec_send_request(s, hop@), None)
    }
}

/// Indices of the operation and address fields in a valid packet.
pub open spec fn spec_arp_operation(data: Seq<u8>) -> int {
    spec_be16_at(data, 6)
}

impl ArpPacket {
    /// Decodes an ARP packet; `None` unless it is long enough and is for
    /// IPv4 over Ethernet.
    pub fn parse(data: &[u8]) -> (r: Option<ArpPacket>)
        ensures
            r.is_some() == spec_arp_valid(data@),
            r.is_some() ==> {
                let p = r.unwrap();
                &&& p.htype == HTYPE_ETHERNET
                &&& p.ptype == PTYPE_IPV4
                &&& p.hlen == HLEN_ETHERNET
                &&& p.plen == PLEN_IPV4
                &&& p.operation == spec_arp_operation(data@)
                &&& p.sha@ == data@.subrange(8, 14)
                &&& p.spa@ == data@.subrange(14, 18)
                &&& p.tha@ == data@.subrange(18, 24)
                &&& p.tpa@ == data@.subrange(24, 28)
            },
    {
        if data.len() < HEADER_SIZE {
            return None;
        }
        let htype: u16 = be16_at(data, 0);
        let ptype: u16 = be16_at(data, 2);
        let hlen: u8 = data[4];
        let plen: u8 = data[5];
        let operation: u16 = be16_at(data, 6);
        if htype != HTYPE_ETHERNET || ptype != PTYPE_IPV4 {
            return None;
        }
        if hlen != HLEN_ETHERNET || plen != PLEN_IPV4 {
            return None;
        }
        let sha: [u8; 6] = [data[8], data[9], data[10], data[11], data[12], data[13]];
        let spa: [u8; 4] = [data[14], data[15], data[16], data[17]];
        let tha: [u8; 6] = [data[18], data[19], data[20], data[21], data[22], data[23]];
        let tpa: [u8; 4] = [data[24], data[25], data[26], data[27]];
        proof {
            assert(sha@ =~= data@.subrange(8, 14));
            assert(spa@ =~= data@.subrange(14, 18));
            assert(tha@ =~= data@.subrange(18, 24));
            assert(tpa@ =~= data@.subrange(24, 28));
        }
        Some(ArpPacket { htype, ptype, hlen, plen, operation, sha, spa, tha, tpa })
    }

    /// Whether the packet asks about `our_ip`.
    pub fn is_for_our_ip(&self, our_ip: &[u8; 4]) -> (r: bool)
        ensures
            r == (self.tpa@ == our_ip@),
    {
        ip_eq(&self.tpa, our_ip)
    }
}

/// Writes an ARP packet from us to the given target at the start of
/// `buffer` and returns its size; a buffer too short for it is left alone
/// and the result is 0.
pub fn build_packet(
    buffer: &mut Vec<u8>,
    operation: u16,
    our_mac: &[u8; 6],
    our_ip: &[u8; 4],
    target_mac: &[u8; 6],
    target_ip: &[u8; 4],
) -> (n: usize)
    ensures
        old(buffer)@.len() < HEADER_SIZE ==> n == 0 && final(buffer)@ == old(buffer)@,
        old(buffer)@.len() >= HEADER_SIZE ==> n == HEADER_SIZE && final(buffer)@ == spec_arp_bytes(
            operation,
            our_mac@,
            our_ip@,
            target_mac@,
            target_ip@,
        ) + old(buffer)@.subrange(HEADER_SIZE as int, old(buffer)@.len() as int),
{
    if buffer.len() < HEADER_SIZE {
        return 0;
    }
    let packet: Vec<u8> = arp_bytes(operation, our_mac, our_ip, target_mac, target_ip);
    let mut i: usize = 0;
    while i < HEADER_SIZE
        invariant
            i <= HEADER_SIZE,
            packet@.len() == HEADER_SIZE,
            buffer@.len() == old(buffer)@.len(),
            buffer@.len() >= HEADER_SIZE,
            forall|k: int| 0 <= k < i ==> buffer@[k] == packet@[k],
            forall|k: int| i <= k < buffer@.len() ==> buffer@[k] == old(buffer)@[k],
        decreases HEADER_SIZE - i,
    {
        buffer.set(i, packet[i]);
        i += 1;
    }
    proof {
        assert(buffer@ =~= packet@ + old(buffer)@.subrange(
            HEADER_SIZE as int,
            old(buffer)@.len() as int,
        ));
    }
    HEADER_SIZE
}

/// The bytes of an ARP packet.
pub fn arp_bytes(
    operation: u16,
    sha: &[u8; 6],
    spa: &[u8; 4],
    tha: &[u8; 6],
    tpa: &[u8; 4],
) -> (out: Vec<u8>)
    ensures
        out@ == spec_arp_bytes(operation, sha@, spa@, tha@, tpa@),
        out@.len() == HEADER_SIZE,
{
    let mut out: Vec<u8> = Vec::new();
    push_be16(&mut out, HTYPE_ETHERNET);
    push_be16(&mut out, PTYPE_IPV4);
    out.push(HLEN_ETHERNET);
    out.push(PLEN_IPV4);
    proof {
        assert(out@ =~= spec_be16_bytes(HTYPE_ETHERNET) + spec_be16_bytes(PTYPE_IPV4) + seq![
            HLEN_ETHERNET,
            PLEN_IPV4,
        ]);
    }
    push_be16(&mut out, operation);
    push_mac(&mut out, sha);
    push_ip(&mut out, spa);
    push_mac(&mut out, tha);
    push_ip(&mut out, tpa);
    out
}

/// Ticks since `timestamp`, on a tick counter that wraps.
pub fn age(now: u64, timestamp: u64) -> (a: u64)
    ensures
        a == spec_age(now, timestamp),
{
    if now >= timestamp {
        now - timestamp
    } else {
        (u64::MAX - timestamp) + now + 1
    }
}

/// The cached hardware address of `ip`, if an entry for it is valid and
/// not stale at tick `now`.
pub fn lookup(cache: &Vec<ArpEntry>, ip: &[u8; 4], now: u64) -> (r: Option<[u8; 6]>)
    ensures
        r == (if lookup_index(cache@, ip@, now, 0) < cache@.len() {
            Some(cache@[lookup_index(cache@, ip@, now, 0)].mac)
        } else {
            None
        }),
{
    let n: usize = cache.len();
    let mut i: usize = 0;
    while i < n
        invariant
            n == cache@.len(),
            i <= n,
            lookup_index(cache@, ip@, now, 0) == lookup_index(cache@, ip@, now, i as int),
        decreases n - i,
    {
        let e: ArpEntry = cache[i];
        if e.valid && ip_eq(&e.ip, ip) && age(now, e.timestamp) < ARP_TIMEOUT_TICKS {
            return Some(e.mac);
        }
        i += 1;
    }
    None
}

/// Learns the mapping `ip` to `mac` at tick `now`.
pub fn update_cache(cache: &mut Vec<ArpEntry>, ip: &[u8; 4], mac: &[u8; 6], now: u64)
    requires
        old(cache)@.len() > 0,
    ensures
        final(cache)@ == spec_update_cache(old(cache)@, *ip, *mac, now),
        final(cache)@.len() == old(cache)@.len(),
{
    let n: usize = cache.len();
    let mut i: usize = 0;
    while i < n
        invariant
            n == cache@.len(),
            *cache == *old(cache),
            i <= n,
            known_index(cache@, ip@, 0) == known_index(cache@, ip@, i as int),
        decreases n - i,
    {
        let e: ArpEntry = cache[i];
        if e.valid && ip_eq(&e.ip, ip) {
            cache.set(i, ArpEntry { mac: *mac, timestamp: now, ..e });
            return ;
        }
        i += 1;
    }
    let mut oldest_idx: usize = 0;
    let mut oldest_time: u64 = u64::MAX;
    let mut unused: Option<usize> = None;
    let mut j: usize = 0;
    while j < n && unused.is_none()
        invariant
            n == cache@.len(),
            n > 0,
            *cache == *old(cache),
            j <= n,
            oldest_idx < n,
            match unused {
                None => first_unused(cache@, 0) == first_unused(cache@, j as int) && (
                oldest_idx as int, oldest_time) == oldest(cache@, j as int),
                Some(u) => u < n && first_unused(cache@, 0) == u,
            },
        decreases n - j + (if unused.is_none() {
            1int
        } else {
            0int
        }),
    {
        let e: ArpEntry = cache[j];
        if !e.valid {
            unused = Some(j);
        } else {
            if e.timestamp < oldest_time {
                oldest_time = e.timestamp;
                oldest_idx = j;
            }
            j += 1;
        }
    }
    let slot: usize = match unused {
        Some(u) => u,
        None => oldest_idx,
    };
    cache.set(slot, ArpEntry { ip: *ip, mac: *mac, timestamp: now, valid: true });
}

/// Drops every entry that is stale at tick `now`.
pub fn expire_old_entries(cache: &mut Vec<ArpEntry>, now: u64)
    ensures
        final(cache)@ == spec_expire(old(cache)@, now),
{
    let n: usize = cache.len();
    let mut i: usize = 0;
    while i < n
        invariant
            n == cache@.len(),
            n == old(cache)@.len(),
            i <= n,
            forall|k: int| 0 <= k < i ==> cache@[k] == spec_expire(old(cache)@, now)[k],
            forall|k: int| i <= k < n ==> cache@[k] == old(cache)@[k],
        decreases n - i,
    {
        let e: ArpEntry = cache[i];
        if e.valid && age(now, e.timestamp) >= ARP_TIMEOUT_TICKS {
            cache.set(i, ArpEntry { valid: false, ..e });
        }
        i += 1;
    }
    proof {
        assert(cache@ =~= spec_expire(old(cache)@, now));
    }
}

/// Broadcasts a request for the hardware address of `target_ip`.
pub fn send_request(iface: &mut NetInterface, target_ip: &[u8; 4])
    requires
        old(iface).wf(),
    ensures
        final(iface).wf(),
        final(iface)@ == spec_send_request(old(iface)@, target_ip@),
{
    let zero_mac: [u8; 6] = [0u8, 0u8, 0u8, 0u8, 0u8, 0u8];
    let broadcast: [u8; 6] = [0xFFu8, 0xFFu8, 0xFFu8, 0xFFu8, 0xFFu8, 0xFFu8];
    proof {
        assert(zero_mac@ =~= spec_zero_mac());
        assert(broadcast@ =~= spec_broadcast());
    }
    let packet: Vec<u8> = arp_bytes(
        ARP_REQUEST,
        &iface.mac,
        &iface.config.ip,
        &zero_mac,
        target_ip,
    );
    send_frame(iface, &broadcast, ETHERTYPE_ARP, packet.as_slice());
}

/// Sends a reply that tells `dst_ip` at `dst_mac` our hardware address.
pub fn send_reply(iface: &mut NetInterface, dst_mac: &[u8; 6], dst_ip: &[u8; 4])
    requires
        old(iface).wf(),
    ensures
        final(iface).wf(),
        final(iface)@ == spec_send_reply(old(iface)@, dst_mac@, dst_ip@),
{
    let packet: Vec<u8> = arp_bytes(ARP_REPLY, &iface.mac, &iface.config.ip, dst_mac, dst_ip);
    send_frame(iface, dst_mac, ETHERTYPE_ARP, packet.as_slice());
}

/// Whether `ip` is on the subnet of the interface.
pub fn on_local_network(ip: &[u8; 4], config: &NetConfig) -> (r: bool)
    ensures
        r == spec_on_local_network(*ip, *config),
{
    (ip[0] & config.netmask[0]) == (config.ip[0] & config.netmask[0]) && (ip[1]
        & config.netmask[1]) == (config.ip[1] & config.netmask[1]) && (ip[2] & config.netmask[2])
        == (config.ip[2] & config.netmask[2]) && (ip[3] & config.netmask[3]) == (config.ip[3]
        & config.netmask[3])
}

/// Resolves `ip` to the hardware address that frames for it must carry:
/// that of `ip` itself on the subnet, that of the gateway otherwise.
/// Without a fresh cache entry a request is broadcast and the result is
/// `None`; the caller tries again later.
pub fn resolve(iface: &mut NetInterface, ip: &[u8; 4], now: u64) -> (r: Option<[u8; 6]>)
    requires
        old(iface).wf(),
    ensures
        final(iface).wf(),
        (final(iface)@, r) == spec_resolve(old(iface)@, *ip, now),
{
    let hop: [u8; 4] = if on_local_network(ip, &iface.config) {
        *ip
    } else {
        iface.config.gateway
    };
    match lookup(&iface.arp, &hop, now) {
        Some(mac) => Some(mac),
        None => {
            send_request(iface, &hop);
            None
        },
    }
}

/// The interface after an ARP packet is processed at tick `now`: a
/// packet that does not decode is ignored; otherwise the sender's mapping
/// is learned, and a request for our address is answered.
pub open spec fn spec_process_packet(s: IfaceState, data: Seq<u8>, now: u64) -> IfaceState {
    if !spec_arp_valid(data) {
        s
    } else {
        let sha = data.subrange(8, 14);
        let spa = data.subrange(14, 18);
        let tpa = data.subrange(24, 28);
        let learned = IfaceState {
            arp: spec_update_cache(s.arp, ip_of(spa), mac_of(sha), now),
            ..s
        };
        if spec_arp_operation(data) == ARP_REQUEST && tpa == s.config.ip@ {
            spec_send_reply(learned, sha, spa)
        } else {
            learned
        }
    }
}

/// Processes a received ARP packet at tick `now`.
pub fn process_packet(iface: &mut NetInterface, data: &[u8], now: u64)
    requires
        old(iface).wf(),
    ensures
        final(iface).wf(),
        final(iface)@ == spec_process_packet(old(iface)@, data@, now),
{
    let p: ArpPacket = match ArpPacket::parse(data) {
        Some(p) => p,
        None => {
            return ;
        },
    };
    proof {
        lemma_ip_of(p.spa);
        lemma_mac_of(p.sha);
    }
    update_cache(&mut iface.arp, &p.spa, &p.sha, now);
    let ghost learned = IfaceState {
        arp: spec_update_cache(old(iface)@.arp, p.spa, p.sha, now),
        ..old(iface)@
    };
    assert(iface@ == learned);
    if p.operation == ARP_REQUEST && p.is_for_our_ip(&iface.config.ip) {
        send_reply(iface, &p.sha, &p.spa);
    }
}

} // verus!
