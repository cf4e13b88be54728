//! The network interface: addresses, the address-resolution cache, the
//! packet rings and the IPv4 identification counter.

use vstd::prelude::*;
use crate::net::packet::{PacketPool, TX_BUFFER_COUNT};

verus! {

/// Addresses of the interface.
#[derive(Clone, Copy)]
pub struct NetConfig {
    /// Our IPv4 address.
    pub ip: [u8; 4],
    /// Subnet mask.
    pub netmask: [u8; 4],
    /// Gateway for destinations outside the subnet.
    pub gateway: [u8; 4],
}

/// One entry of the address-resolution cache.
#[derive(Clone, Copy)]
pub struct ArpEntry {
    /// IPv4 address.
    pub ip: [u8; 4],
    /// Hardware address it resolves to.
    pub mac: [u8; 6],
    /// Tick at which the entry was learned or refreshed.
    pub timestamp: u64,
    /// Whether the entry is in use.
    pub valid: bool,
}

/// Entries in the address-resolution cache.
pub const ARP_CACHE_SIZE: usize = 16;

/// The network interface.
pub struct NetInterface {
    /// Addresses.
    pub config: NetConfig,
    /// Our hardware address.
    pub mac: [u8; 6],
    /// Address-resolution cache; always `ARP_CACHE_SIZE` entries.
    pub arp: Vec<ArpEntry>,
    /// Packet rings shared with the driver.
    pub pool: PacketPool,
    /// Identification of the IPv4 header sent last.
    pub ip_id: u16,
}

/// The interface as plain values.
pub struct IfaceState {
    pub config: NetConfig,
    pub mac: [u8; 6],
    pub arp: Seq<ArpEntry>,
    pub rx: Seq<Seq<u8>>,
    pub tx: Seq<Seq<u8>>,
    pub rx_count: usize,
    pub tx_count: usize,
    pub rx_dropped: usize,
    pub ip_id: u16,
}

impl View for NetInterface {
    type V = IfaceState;

    open spec fn view(&self) -> IfaceState {
        IfaceState {
            config: self.config,
            mac: self.mac,
            arp: self.arp@,
            rx: self.pool.rx_queue(),
            tx: self.pool.tx_queue(),
            rx_count: self.pool.rx_count,
            tx_count: self.pool.tx_count,
            rx_dropped: self.pool.rx_dropped,
            ip_id: self.ip_id,
        }
    }
}

/// Whether the transmit ring of an interface has no room.
pub open spec fn tx_full(s: IfaceState) -> bool {
    s.tx.len() == TX_BUFFER_COUNT - 1
}

impl ArpEntry {
    /// An unused cache entry.
    pub fn empty() -> (e: ArpEntry)
        ensures
            !e.valid,
            e.timestamp == 0,
            e.ip@ == seq![0u8, 0u8, 0u8, 0u8],
            e.mac@ == seq![0u8, 0u8, 0u8, 0u8, 0u8, 0u8],
    {
        let e = ArpEntry {
            ip: [0u8, 0u8, 0u8, 0u8],
            mac: [0u8, 0u8, 0u8, 0u8, 0u8, 0u8],
            timestamp: 0,
            valid: false,
        };
        proof {
            assert(e.ip@ =~= seq![0u8, 0u8, 0u8, 0u8]);
            assert(e.mac@ =~= seq![0u8, 0u8, 0u8, 0u8, 0u8, 0u8]);
        }
        e
    }
}

/// The addresses used on an emulated user network: 10.0.2.15/24 behind
/// the gateway 10.0.2.2.
pub fn default_config() -> (c: NetConfig)
    ensures
        c.ip@ == seq![10u8, 0u8, 2u8, 15u8],
        c.netmask@ == seq![255u8, 255u8, 255u8, 0u8],
        c.gateway@ == seq![10u8, 0u8, 2u8, 2u8],
{
    let c = NetConfig {
        ip: [10u8, 0u8, 2u8, 15u8],
        netmask: [255u8, 255u8, 255u8, 0u8],
        gateway: [10u8, 0u8, 2u8, 2u8],
    };
    proof {
        assert(c.ip@ =~= seq![10u8, 0u8, 2u8, 15u8]);
        assert(c.netmask@ =~= seq![255u8, 255u8, 255u8, 0u8]);
        assert(c.gateway@ =~= seq![10u8, 0u8, 2u8, 2u8]);
    }
    c
}

impl NetInterface {
    /// The rings are well formed and the cache has its fixed size.
    pub open spec fn wf(&self) -> bool {
        self.pool.wf() && self.arp@.len() == ARP_CACHE_SIZE
    }

    /// An interface with the given addresses, an empty cache and empty
    /// rings.
    pub fn new(config: NetConfig, mac: [u8; 6]) -> (iface: NetInterface)
        ensures
            iface.wf(),
            iface.config == config,
            iface.mac == mac,
            iface.ip_id == 0,
            iface@.tx.len() == 0,
            iface@.rx.len() == 0,
            iface@.tx_count == 0,
            iface@.rx_count == 0,
            iface@.rx_dropped == 0,
            forall|i: int|
                0 <= i < ARP_CACHE_SIZE
                    ==> !(#[trigger] iface.arp@[i]).valid && iface.arp@[i].timestamp
                    == 0 && iface.arp@[i].ip@ == seq![0u8, 0u8, 0u8, 0u8] && iface.arp@[i].mac@
                    == seq![0u8, 0u8, 0u8, 0u8, 0u8, 0u8],
    {
        let mut arp: Vec<ArpEntry> = Vec::new();
        let mut i: usize = 0;
        while i < ARP_CACHE_SIZE
            invariant
                i <= ARP_CACHE_SIZE,
                arp@.len() == i,
                forall|k: int|
                    0 <= k < i ==> !(#[trigger] arp@[k]).valid && arp@[k].timestamp == 0
                        && arp@[k].ip@ == seq![0u8, 0u8, 0u8, 0u8] && arp@[k].mac@ == seq![
                        0u8,
                        0u8,
                        0u8,
                        0u8,
                        0u8,
                        0u8,
                    ],
            decreases ARP_CACHE_SIZE - i,
        {
            arp.push(ArpEntry::empty());
            i += 1;
        }
        NetInterface { config, mac, arp, pool: PacketPool::new(), ip_id: 0 }
    }
}

/// Whether two IPv4 addresses are equal.
pub fn ip_eq(a: &[u8; 4], b: &[u8; 4]) -> (r: bool)
    ensures
        r == (a@ == b@),
        r == (*a == *b),
{
    let r: bool = a[0] == b[0] && a[1] == b[1] && a[2] == b[2] && a[3] == b[3];
    proof {
        if r {
            assert(a@ =~= b@);
            assert(*a =~= *b);
        }
    }
    r
}

/// Whether two hardware addresses are equal.
pub fn mac_eq(a: &[u8; 6], b: &[u8; 6]) -> (r: bool)
    ensures
        r == (a@ == b@),
        r == (*a == *b),
{
    let r: bool = a[0] == b[0] && a[1] == b[1] && a[2] == b[2] && a[3] == b[3] && a[4] == b[4]
        && a[5] == b[5];
    proof {
        if r {
            assert(a@ =~= b@);
            assert(*a =~= *b);
        }
    }
    r
}

/// The IPv4 address whose bytes are `s`.
pub open spec fn ip_of(s: Seq<u8>) -> [u8; 4] {
    choose|a: [u8; 4]| a@ == s
}

/// The hardware address whose bytes are `s`.
pub open spec fn mac_of(s: Seq<u8>) -> [u8; 6] {
    choose|a: [u8; 6]| a@ == s
}

/// An address is determined by its bytes.
pub proof fn lemma_ip_of(a: [u8; 4])
    ensures
        ip_of(a@) == a,
{
    let b = ip_of(a@);
    assert(b@ == a@);
    assert(b =~= a);
}

/// A hardware address is determined by its bytes.
pub proof fn lemma_mac_of(a: [u8; 6])
    ensures
        mac_of(a@) == a,
{
    let b = mac_of(a@);
    assert(b@ == a@);
    assert(b =~= a);
}

} // verus!
