use ralph_os::net::ne2000::{
    handle_interrupt, has_packet, init, is_initialized, mac_address, mac_from_prom,
    receive_packets, reset_ring, send, store_received, unpack, InterruptActions, Ne2000,
    RxDecision, INTERRUPT_MASK, RX_FIRST, RX_START,
};
use ralph_os::net::packet::{get_rx_packet, rx_buffer_ready, stats, PacketPool};
use ralph_os::timer::{self, Timer, DIVISOR};

#[test]
fn interrupt_status_decoding() {
    assert_eq!(
        handle_interrupt(0x01),
        InterruptActions { receive: true, tx_complete: false, reset_ring: false, acknowledge: 0x01 }
    );
    assert_eq!(
        handle_interrupt(0x1A),
        InterruptActions { receive: false, tx_complete: true, reset_ring: true, acknowledge: 0x1A }
    );
    // remote-DMA-complete and reset status are left to whoever waits for them
    assert_eq!(
        handle_interrupt(0xC0),
        InterruptActions { receive: false, tx_complete: false, reset_ring: false, acknowledge: 0 }
    );
    assert_eq!(handle_interrupt(0xFF).acknowledge, 0x1F);
    assert_eq!(INTERRUPT_MASK, 0x01 | 0x02 | 0x04 | 0x08 | 0x10);
}

#[test]
fn overwritten_ring_starts_afresh() {
    let mut nic = Ne2000::new(0x300);
    let mut pool = PacketPool::new();
    init(&mut nic, [1, 2, 3, 4, 5, 6]);
    receive_packets(&mut nic, &mut pool, 0x60, 64);
    assert_eq!(nic.next_pkt, 0x60);
    assert!(handle_interrupt(0x10).reset_ring);
    assert_eq!(reset_ring(&mut nic), (0x46, 0x47));
    assert_eq!(nic.next_pkt, RX_FIRST);
    assert!(is_initialized(&nic));
    assert_eq!(mac_address(&nic), [1, 2, 3, 4, 5, 6]);
}

#[test]
fn hardware_address_from_prom_words() {
    assert_eq!(
        mac_from_prom(&[0x5252, 0x5454, 0x0000, 0x1212, 0x3434, 0xAB56]),
        [0x52, 0x54, 0x00, 0x12, 0x34, 0x56]
    );
}

#[test]
fn driver_state() {
    let mut nic = Ne2000::new(0x300);
    assert!(!is_initialized(&nic));
    assert_eq!(nic.next_pkt, RX_START);
    init(&mut nic, [1, 2, 3, 4, 5, 6]);
    assert!(is_initialized(&nic));
    assert_eq!(mac_address(&nic), [1, 2, 3, 4, 5, 6]);
    assert_eq!(nic.next_pkt, RX_START + 1);
    assert!(!has_packet(&nic, RX_FIRST));
    assert!(has_packet(&nic, RX_FIRST + 1));
}

#[test]
fn receive_decisions() {
    let mut nic = Ne2000::new(0x300);
    let mut pool = PacketPool::new();
    assert_eq!(
        receive_packets(&mut nic, &mut pool, 0x50, 64),
        (RxDecision::Accept { data_len: 60 }, 0x4F)
    );
    assert_eq!(nic.next_pkt, 0x50);
    // going round: the page in front of the first ring page is the last one
    assert_eq!(receive_packets(&mut nic, &mut pool, 0x46, 4), (RxDecision::Accept { data_len: 0 }, 0x7F));
    assert_eq!(receive_packets(&mut nic, &mut pool, 0x47, 3), (RxDecision::Skip, 0x46));
    assert_eq!(receive_packets(&mut nic, &mut pool, 0x48, 1537), (RxDecision::Skip, 0x47));
    assert_eq!(
        receive_packets(&mut nic, &mut pool, 0x49, 1536),
        (RxDecision::Accept { data_len: 1532 }, 0x48)
    );
    assert_eq!(receive_packets(&mut nic, &mut pool, 0, 64).1, 255);
    assert_eq!(stats(&pool).2, 0);
    for _ in 0..15 {
        rx_buffer_ready(&mut pool, &[1]);
    }
    assert_eq!(receive_packets(&mut nic, &mut pool, 0x50, 64).0, RxDecision::Skip);
    assert_eq!(stats(&pool).2, 1);
    // a length that cannot be a packet is not counted as a drop
    assert_eq!(receive_packets(&mut nic, &mut pool, 0x50, 2).0, RxDecision::Skip);
    assert_eq!(stats(&pool).2, 1);
}

#[test]
fn words_to_bytes_and_back() {
    assert_eq!(unpack(&[0x0201, 0x0403, 0x0605], 5), vec![1, 2, 3, 4, 5]);
    assert_eq!(unpack(&[0x0201], 0), vec![]);
    let mut pool = PacketPool::new();
    store_received(&mut pool, &[0xBBAA, 0x00CC], 3);
    assert_eq!(get_rx_packet(&pool).unwrap().0, &[0xAA, 0xBB, 0xCC]);

    let words = send(&[1, 2, 3]).unwrap();
    assert_eq!(words.len(), 30);
    assert_eq!(&words[..3], &[0x0201, 0x0003, 0]);
    assert!(words[2..].iter().all(|&w| w == 0));
    let frame: Vec<u8> = (0..61u8).collect();
    let words = send(&frame).unwrap();
    assert_eq!(words.len(), 31);
    assert_eq!(words[30], 60);
    assert_eq!(unpack(&words, 61), frame);
    assert_eq!(send(&vec![0u8; 1514]).unwrap().len(), 757);
    assert_eq!(send(&vec![0u8; 1515]), None);
}

#[test]
fn polled_timer_accumulates_counts() {
    let mut t = Timer::new();
    timer::init(&mut t, 11000);
    // the counter runs down: 1000 counts elapsed
    timer::poll(&mut t, 10000);
    assert_eq!((timer::ticks(&t), t.accumulated), (0, 1000));
    // wrap-around: 10000 down to 0, then from the reload value down to
    // 11000; with the 1000 counts carried over that is exactly one tick
    timer::poll(&mut t, 11000);
    assert_eq!(1000 + 10000 + (DIVISOR as u64 - 11000), DIVISOR as u64);
    assert_eq!((timer::ticks(&t), t.accumulated), (1, 0));
    timer::poll(&mut t, 10000);
    assert_eq!((timer::ticks(&t), t.accumulated), (1, 1000));
    timer::poll(&mut t, 10000);
    assert_eq!((timer::ticks(&t), t.accumulated), (1, 1000));
    timer::poll(&mut t, 9999);
    assert_eq!((timer::ticks(&t), t.accumulated), (1, 1001));
    assert_eq!(DIVISOR as u32, 1_193_182 / 100);
}

#[test]
fn one_second_of_polls_is_one_hundred_ticks() {
    let mut t = Timer::new();
    timer::init(&mut t, DIVISOR);
    let mut counter = DIVISOR as u32;
    let mut before = 0;
    // 1193182 counts in steps of 7001
    let mut left = 1_193_182u32;
    while left > 0 {
        let step = left.min(7001);
        left -= step;
        counter = if counter > step { counter - step } else { counter + DIVISOR as u32 - step };
        timer::poll(&mut t, counter as u16);
        assert!(timer::ticks(&t) >= before);
        before = timer::ticks(&t);
    }
    assert_eq!(timer::ticks(&t), 100);
    t.tick_count = u64::MAX;
    timer::tick(&mut t);
    assert_eq!(timer::ticks(&t), u64::MAX);
}
