use shijim_core::ring::{RingBufferHeader, RingError, RingWriter, HEADER_SIZE, SLOT_SIZE};

#[test]
fn publish_wraps_and_updates_cursor() {
    let cap = 1024;
    let mut header = RingBufferHeader::new();
    header.store(1023);
    let mut writer = RingWriter::new(header, cap).unwrap();
    let pkt = [0xAAu8; SLOT_SIZE];
    writer.publish(&pkt).unwrap(); // writes slot 1023 -> cursor 1024
    writer.publish(&pkt).unwrap(); // wraps to 0 -> cursor 1025
    assert_eq!(writer.load_cursor(), 1025);
    assert_eq!(writer.slots()[0], 0xAA); // first byte of slot 0
}

#[test]
fn batch_commit_updates_cursor_once() {
    let cap = 1024;
    let header = RingBufferHeader::new();
    let mut writer = RingWriter::new(header, cap).unwrap();
    let start = writer.reserve(5).unwrap();
    assert_eq!(start, 0);
    let pkts: Vec<Vec<u8>> = (0..5).map(|i| vec![i as u8; SLOT_SIZE]).collect();
    let end = writer.write_batch(start, &pkts).unwrap();
    assert_eq!(end, 5);
    assert_eq!(writer.load_cursor(), 5);
    assert_eq!(writer.slots()[0], 0); // slot 0 first byte
    let slot4_offset = 4 * SLOT_SIZE;
    assert_eq!(writer.slots()[slot4_offset], 4); // slot 4 first byte
}

#[test]
fn layout_padding_cacheline() {
    assert_eq!(64, HEADER_SIZE);
    assert_eq!(0, HEADER_SIZE % 64);
}

#[test]
fn slow_consumer_alert_when_lag_exceeds_capacity() {
    let cap = 1024;
    let mut header = RingBufferHeader::new();
    header.store(2000);
    let writer = RingWriter::new(header, cap).unwrap();
    assert!(writer.slow_consumer_alert(500));
    assert!(!writer.slow_consumer_alert(1200));
}

#[test]
fn rejects_packet_too_large() {
    let cap = 1024;
    let header = RingBufferHeader::new();
    let mut writer = RingWriter::new(header, cap).unwrap();
    let pkt = vec![0u8; SLOT_SIZE + 1];
    let err = writer.publish(&pkt).unwrap_err();
    assert!(matches!(err, RingError::PacketTooLarge { .. }));
}

#[test]
fn rejects_capacity_not_power_of_two() {
    let header = RingBufferHeader::new();
    match RingWriter::new(header, 1000) {
        Ok(_) => panic!("capacity 1000 must be rejected"),
        Err(err) => assert!(matches!(err, RingError::CapacityNotPowerOfTwo)),
    }
}

#[test]
fn rejects_oversized_batch() {
    let cap = 1024;
    let header = RingBufferHeader::new();
    let mut writer = RingWriter::new(header, cap).unwrap();
    let err = writer.reserve(2000).unwrap_err();
    assert!(matches!(err, RingError::BatchOverflow { batch: 2000 }));
    let err = writer.commit(0, 2000).unwrap_err();
    assert!(matches!(err, RingError::BatchOverflow { batch: 2000 }));
}

#[test]
fn publish_zero_pads_short_packets() {
    let header = RingBufferHeader::new();
    let mut writer = RingWriter::new(header, 8).unwrap();
    writer.publish(&[0x11, 0x22]).unwrap();
    assert_eq!(writer.slots()[0], 0x11);
    assert_eq!(writer.slots()[1], 0x22);
    for i in 2..SLOT_SIZE {
        assert_eq!(writer.slots()[i], 0);
    }
}
