use shijim_core::framed::{
    publish_quote_v1, publish_snapshot_v1, publish_system_event, publish_tick_v1, Decimal64,
    RingBufferWriter, FRAMED_HEADER_SIZE, FRAMED_SLOT_SIZE, SLOT_PAYLOAD_SIZE,
};
use shijim_core::ingest::{process_datagram, IngestOutcome};
use shijim_core::sbe::SbeError;

fn slot_data(writer: &RingBufferWriter, idx: usize) -> &[u8] {
    let base = idx * FRAMED_SLOT_SIZE;
    &writer.slots()[base + 8..base + FRAMED_SLOT_SIZE]
}

fn slot_seq(writer: &RingBufferWriter, idx: usize) -> u64 {
    let base = idx * FRAMED_SLOT_SIZE;
    let mut bytes = [0u8; 8];
    bytes.copy_from_slice(&writer.slots()[base..base + 8]);
    u64::from_le_bytes(bytes)
}

#[test]
fn framed_layout_is_two_cache_lines() {
    assert_eq!(128, FRAMED_HEADER_SIZE);
    assert_eq!(0, FRAMED_HEADER_SIZE % 64);
    assert_eq!(256, FRAMED_SLOT_SIZE);
    assert_eq!(248, SLOT_PAYLOAD_SIZE);
}

#[test]
fn raw_publish_stamps_seq_and_advances_cursor() {
    let mut writer = RingBufferWriter::new();
    assert_eq!(writer.current_cursor(), 0);
    writer.publish_raw_bytes(&[0xAB, 0xCD]);
    assert_eq!(writer.current_cursor(), 1);
    assert_eq!(slot_seq(&writer, 0), 1);
    assert_eq!(slot_data(&writer, 0)[0], 0xAB);
    assert_eq!(slot_data(&writer, 0)[1], 0xCD);
    writer.publish_raw_bytes(&[0x11]);
    assert_eq!(writer.current_cursor(), 2);
    assert_eq!(slot_seq(&writer, 1), 2);
    assert_eq!(slot_data(&writer, 1)[0], 0x11);
}

#[test]
fn heartbeat_datagram_is_dropped_but_counts_as_work() {
    // Bytes 2..4 are 00 00: template id 0, a heartbeat.
    let mut writer = RingBufferWriter::new();
    let datagram = [0x10u8, 0x00, 0x00, 0x00, 0x42];
    let outcome = process_datagram(&mut writer, &datagram);
    assert_eq!(outcome, IngestOutcome::DroppedHeartbeat);
    assert_eq!(writer.current_cursor(), 0);
}

#[test]
fn short_datagram_is_dropped() {
    let mut writer = RingBufferWriter::new();
    let outcome = process_datagram(&mut writer, &[0x01, 0x02, 0x03]);
    assert_eq!(outcome, IngestOutcome::DroppedMalformed);
    assert_eq!(writer.current_cursor(), 0);
}

#[test]
fn oversize_datagram_is_truncated_to_slot_payload() {
    // A 400-byte datagram with template id != 0: exactly 248 bytes land.
    let mut writer = RingBufferWriter::new();
    let mut datagram = vec![0u8; 400];
    datagram[2] = 0x01; // template id 1
    for (i, b) in datagram.iter_mut().enumerate() {
        if i >= 4 {
            *b = (i % 251) as u8;
        }
    }
    datagram[2] = 0x01;
    datagram[3] = 0x00;
    let outcome = process_datagram(&mut writer, &datagram);
    assert_eq!(outcome, IngestOutcome::Published);
    assert_eq!(writer.current_cursor(), 1);
    assert_eq!(slot_seq(&writer, 0), 1);
    let data = slot_data(&writer, 0);
    for i in 0..SLOT_PAYLOAD_SIZE {
        assert_eq!(data[i], datagram[i]);
    }
    // Exactly the 248-byte prefix landed: the last payload byte is the
    // datagram's byte 247, and the next slot was never touched.
    assert_eq!(data[SLOT_PAYLOAD_SIZE - 1], datagram[SLOT_PAYLOAD_SIZE - 1]);
    assert_eq!(slot_seq(&writer, 1), 0);
    assert_eq!(slot_data(&writer, 1)[0], 0);
}

#[test]
fn raw_publish_zero_pads_overwritten_slots() {
    // Fill slot 0 with a full payload, wrap the ring once, and overwrite
    // slot 0 with a one-byte payload: no stale byte survives in the
    // payload region.
    let mut writer = RingBufferWriter::new();
    let full = [0xAAu8; 248];
    writer.publish_raw_bytes(&full);
    for _ in 0..1024 {
        writer.publish_raw_bytes(&[0x01]);
    }
    assert_eq!(writer.current_cursor(), 1025);
    assert_eq!(slot_seq(&writer, 0), 1025);
    let data = slot_data(&writer, 0);
    assert_eq!(data[0], 0x01);
    for i in 1..SLOT_PAYLOAD_SIZE {
        assert_eq!(data[i], 0, "stale byte at payload offset {}", i);
    }
}

#[test]
fn publish_sbe_encodes_legacy_tick() {
    let mut writer = RingBufferWriter::new();
    writer
        .publish(Decimal64 { mantissa: 23305, exponent: -1 })
        .unwrap();
    assert_eq!(writer.current_cursor(), 1);
    assert_eq!(slot_seq(&writer, 0), 1);
    let data = slot_data(&writer, 0);
    // SBE header: block 16, template 2, schema 1, version 0.
    assert_eq!(&data[0..8], &[0x10, 0x00, 0x02, 0x00, 0x01, 0x00, 0x00, 0x00]);
    // transact_time: fixed 123456789.
    assert_eq!(&data[8..16], &123456789u64.to_le_bytes());
    // price: mantissa 23305, exponent -1.
    assert_eq!(&data[16..24], &23305i64.to_le_bytes());
    assert_eq!(data[24] as i8, -1);
}

#[test]
fn publish_tick_v1_encodes_block() {
    let mut writer = RingBufferWriter::new();
    publish_tick_v1(
        &mut writer,
        7,
        Decimal64 { mantissa: 23305, exponent: -1 },
        10,
        1_000_000_000,
    )
    .unwrap();
    assert_eq!(writer.current_cursor(), 1);
    let data = slot_data(&writer, 0);
    // SBE header: block 24, template 1001 (0x03E9), schema 1, version 0.
    assert_eq!(&data[0..8], &[0x18, 0x00, 0xE9, 0x03, 0x01, 0x00, 0x00, 0x00]);
    assert_eq!(&data[8..16], &7u64.to_le_bytes());
    assert_eq!(&data[16..24], &1_000_000_000u64.to_le_bytes());
    assert_eq!(&data[24..32], &23305i64.to_le_bytes());
    assert_eq!(data[32] as i8, -1);
    assert_eq!(&data[33..37], &10u32.to_le_bytes());
}

#[test]
fn publish_quote_v1_encodes_groups() {
    let mut writer = RingBufferWriter::new();
    let bids = vec![(Decimal64 { mantissa: 23305, exponent: -1 }, 40u32)];
    let asks = vec![(Decimal64 { mantissa: 23315, exponent: -1 }, 12u32)];
    publish_quote_v1(&mut writer, 7, &bids, &asks, 5).unwrap();
    assert_eq!(writer.current_cursor(), 1);
    let data = slot_data(&writer, 0);
    // SBE header: block 16, template 1002 (0x03EA), schema 1, version 0.
    assert_eq!(&data[0..8], &[0x10, 0x00, 0xEA, 0x03, 0x01, 0x00, 0x00, 0x00]);
    assert_eq!(&data[8..16], &7u64.to_le_bytes());
    assert_eq!(&data[16..24], &5u64.to_le_bytes());
    // Bid group header: block size 13, one entry.
    assert_eq!(&data[24..28], &[0x0D, 0x00, 0x01, 0x00]);
    assert_eq!(&data[28..36], &23305i64.to_le_bytes());
    assert_eq!(data[36] as i8, -1);
    assert_eq!(&data[37..41], &40u32.to_le_bytes());
    // Ask group header: block size 13, one entry.
    assert_eq!(&data[41..45], &[0x0D, 0x00, 0x01, 0x00]);
    assert_eq!(&data[45..53], &23315i64.to_le_bytes());
    assert_eq!(data[53] as i8, -1);
    assert_eq!(&data[54..58], &12u32.to_le_bytes());
}

#[test]
fn publish_quote_v1_rejects_overfull_book() {
    // 17 levels on one side: 32 + 13 * 17 = 253 > 248.
    let mut writer = RingBufferWriter::new();
    let bids: Vec<(Decimal64, u32)> = (0..17)
        .map(|i| (Decimal64 { mantissa: 100 + i, exponent: 0 }, 1u32))
        .collect();
    let asks: Vec<(Decimal64, u32)> = Vec::new();
    let err = publish_quote_v1(&mut writer, 7, &bids, &asks, 5).unwrap_err();
    assert!(matches!(err, SbeError::BufferOverflow));
    // The sequence stamp went in but the cursor did not move.
    assert_eq!(writer.current_cursor(), 0);
    assert_eq!(slot_seq(&writer, 0), 1);
}

#[test]
fn publish_snapshot_v1_encodes_block() {
    let mut writer = RingBufferWriter::new();
    publish_snapshot_v1(
        &mut writer,
        9,
        Decimal64 { mantissa: 100, exponent: 0 },
        Decimal64 { mantissa: 110, exponent: 0 },
        Decimal64 { mantissa: 90, exponent: 0 },
        77,
    )
    .unwrap();
    let data = slot_data(&writer, 0);
    // SBE header: block 32, template 1003 (0x03EB), schema 1, version 0.
    assert_eq!(&data[0..8], &[0x20, 0x00, 0xEB, 0x03, 0x01, 0x00, 0x00, 0x00]);
    assert_eq!(&data[8..16], &9u64.to_le_bytes());
    assert_eq!(&data[16..24], &77u64.to_le_bytes());
    assert_eq!(&data[24..32], &100i64.to_le_bytes());
    assert_eq!(data[32] as i8, 0);
    assert_eq!(&data[33..41], &110i64.to_le_bytes());
    assert_eq!(&data[42..50], &90i64.to_le_bytes());
}

#[test]
fn publish_system_event_encodes_code() {
    let mut writer = RingBufferWriter::new();
    publish_system_event(&mut writer, 3).unwrap();
    let data = slot_data(&writer, 0);
    // SBE header: block 4, template 1100 (0x044C), schema 1, version 0.
    assert_eq!(&data[0..8], &[0x04, 0x00, 0x4C, 0x04, 0x01, 0x00, 0x00, 0x00]);
    assert_eq!(&data[8..10], &3u16.to_le_bytes());
}
