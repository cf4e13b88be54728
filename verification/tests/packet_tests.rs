use ralph_os::net::packet::{
    get_rx_buffer_for_write, get_rx_packet, get_tx_buffer, get_tx_packet, has_rx_pending,
    has_tx_pending, init, release_rx_buffer, rx_buffer_ready, stats, tx_buffer_ready,
    tx_complete, PacketBuffer, PacketPool, BUFFER_EMPTY, PACKET_SIZE, RX_BUFFER_COUNT,
    TX_BUFFER_COUNT,
};

#[test]
fn receive_ring_is_fifo() {
    let mut pool = PacketPool::new();
    assert!(!has_rx_pending(&pool));
    assert_eq!(get_rx_packet(&pool), None);
    for i in 0..5u8 {
        assert_eq!(get_rx_buffer_for_write(&mut pool), Some(i as usize));
        rx_buffer_ready(&mut pool, &vec![i; (i as usize + 1) * 10]);
    }
    assert!(has_rx_pending(&pool));
    for i in 0..5u8 {
        let (data, len) = get_rx_packet(&pool).unwrap();
        assert_eq!(len, (i as usize + 1) * 10);
        assert_eq!(data, &vec![i; len][..]);
        release_rx_buffer(&mut pool);
    }
    assert!(!has_rx_pending(&pool));
    assert_eq!(stats(&pool), (5, 0, 0));
}

#[test]
fn full_receive_ring_drops() {
    let mut pool = PacketPool::new();
    for _ in 0..RX_BUFFER_COUNT - 1 {
        assert!(get_rx_buffer_for_write(&mut pool).is_some());
        rx_buffer_ready(&mut pool, &[1, 2, 3]);
    }
    assert_eq!(get_rx_buffer_for_write(&mut pool), None);
    assert_eq!(get_rx_buffer_for_write(&mut pool), None);
    assert_eq!(stats(&pool), (RX_BUFFER_COUNT - 1, 0, 2));
    release_rx_buffer(&mut pool);
    assert_eq!(get_rx_buffer_for_write(&mut pool), Some(RX_BUFFER_COUNT - 1));
}

#[test]
fn transmit_ring_wraps_around() {
    let mut pool = PacketPool::new();
    for round in 0..3 * TX_BUFFER_COUNT {
        assert_eq!(get_tx_buffer(&pool), Some(round % TX_BUFFER_COUNT));
        assert_eq!(tx_buffer_ready(&mut pool, &[round as u8; 60]), round % TX_BUFFER_COUNT);
        let (data, len, slot) = get_tx_packet(&pool).unwrap();
        assert_eq!((len, slot), (60, round % TX_BUFFER_COUNT));
        assert_eq!(data, &[round as u8; 60][..]);
        tx_complete(&mut pool);
        assert!(!has_tx_pending(&pool));
    }
    for _ in 0..TX_BUFFER_COUNT - 1 {
        tx_buffer_ready(&mut pool, &[0; 60]);
    }
    assert_eq!(get_tx_buffer(&pool), None);
    assert_eq!(stats(&pool).1, 3 * TX_BUFFER_COUNT + TX_BUFFER_COUNT - 1);
}

#[test]
fn init_resets_the_pool() {
    let mut pool = PacketPool::new();
    rx_buffer_ready(&mut pool, &[1]);
    tx_buffer_ready(&mut pool, &[2]);
    init(&mut pool);
    assert_eq!(stats(&pool), (0, 0, 0));
    assert!(!has_rx_pending(&pool));
    assert!(!has_tx_pending(&pool));
}

#[test]
fn buffers_have_full_size_storage() {
    let b = PacketBuffer::new();
    assert_eq!(b.data.len(), PACKET_SIZE);
    assert_eq!((b.len, b.flags), (0, BUFFER_EMPTY));
    let mut pool = PacketPool::new();
    rx_buffer_ready(&mut pool, &vec![0xAB; PACKET_SIZE]);
    assert_eq!(get_rx_packet(&pool).unwrap().1, PACKET_SIZE);
    rx_buffer_ready(&mut pool, &[]);
    release_rx_buffer(&mut pool);
    assert_eq!(get_rx_packet(&pool).unwrap().1, 0);
}

#[test]
fn interleaved_offers_and_takes_keep_order() {
    let mut pool = PacketPool::new();
    let mut offered: Vec<Vec<u8>> = Vec::new();
    let mut taken: Vec<Vec<u8>> = Vec::new();
    let mut seed = 12345u32;
    for step in 0..2000u32 {
        seed = seed.wrapping_mul(1103515245).wrapping_add(12345);
        if (seed >> 16) % 3 != 0 {
            if get_rx_buffer_for_write(&mut pool).is_some() {
                let frame = vec![(step % 256) as u8; 1 + (step % 40) as usize];
                rx_buffer_ready(&mut pool, &frame);
                offered.push(frame);
            }
        } else if let Some((data, _)) = get_rx_packet(&pool) {
            taken.push(data.to_vec());
            release_rx_buffer(&mut pool);
        }
    }
    assert!(taken.len() > 100);
    assert_eq!(&offered[..taken.len()], &taken[..]);
}
