//! Framed-variant ring writer: 1024 slots of 256 bytes, each slot an
//! 8-byte little-endian sequence number followed by 248 payload bytes,
//! behind a 128-byte header carrying a metadata version, the slot count
//! and the publication cursor. The sequence number equals the 1-based
//! publication count; the payload is either raw datagram bytes or an
//! SBE-encoded message.

use vstd::prelude::*;
use crate::sbe::{
    lemma_encoder_bounds,
    lemma_splice_adjacent, lemma_splice_subrange, spec_decimal64_to_le_bytes, spec_group_header_bytes,
    spec_header_bytes, splice, SbeEncoder, SbeError,
};
use vstd::assert_seqs_equal;
use vstd::bytes::{
    lemma_auto_spec_u16_to_from_le_bytes, lemma_auto_spec_u32_to_from_le_bytes,
    lemma_auto_spec_u64_to_from_le_bytes, spec_u16_to_le_bytes, spec_u32_to_le_bytes,
    spec_u64_to_le_bytes, u64_to_le_bytes,
};

verus! {

/// Slots in the framed ring.
pub const SLOT_COUNT: usize = 1024;

/// Bytes per framed slot: sequence number plus payload.
pub const FRAMED_SLOT_SIZE: usize = 256;

/// Payload bytes per framed slot, after the 8-byte sequence number.
pub const SLOT_PAYLOAD_SIZE: usize = 248;

/// Bytes in the framed header: metadata, capacity and cursor, padded to
/// two cache lines.
pub const FRAMED_HEADER_SIZE: usize = 128;

/// Total bytes of the framed slot array.
pub const FRAMED_REGION_SIZE: usize = SLOT_COUNT * FRAMED_SLOT_SIZE;

/// An exact decimal: `mantissa * 10^exponent`.
#[derive(Clone, Copy, Debug, PartialEq, Eq, Structural)]
pub struct Decimal64 {
    pub mantissa: i64,
    pub exponent: i8,
}

/// The byte offset of the slot that cursor value `c` selects.
pub open spec fn spec_slot_base(c: u64) -> int {
    (c % (SLOT_COUNT as u64)) * FRAMED_SLOT_SIZE
}

/// A payload padded with zero bytes to the full slot payload size, so
/// that readers never observe stale bytes from an overwritten slot.
pub open spec fn spec_padded_payload(p: Seq<u8>) -> Seq<u8>
    recommends
        p.len() <= SLOT_PAYLOAD_SIZE,
{
    p + Seq::new((SLOT_PAYLOAD_SIZE - p.len()) as nat, |i: int| 0u8)
}

/// A well-formed framed writer's slot array spans exactly the fixed
/// region size, so callers reading the region can index any slot byte.
pub proof fn lemma_framed_region_size(w: &RingBufferWriter)
    requires
        w.wf(),
    ensures
        w.slots_bytes().len() == FRAMED_REGION_SIZE,
{
}

/// The framed header layout stands as the wire contract requires: 128
/// bytes, a whole number of cache lines.
pub proof fn lemma_framed_header_layout()
    ensures
        FRAMED_HEADER_SIZE == 128,
        FRAMED_HEADER_SIZE % 64 == 0,
{
}

/// Single-writer view of the framed ring.
pub struct RingBufferWriter {
    metadata_version: u16,
    buffer_capacity: u16,
    write_cursor: u64,
    slots: Vec<u8>,
}

impl RingBufferWriter {
    /// The publication cursor: slots published since genesis.
    pub closed spec fn cursor(&self) -> u64 {
        self.write_cursor
    }

    /// The flat bytes of the slot array.
    pub closed spec fn slots_bytes(&self) -> Seq<u8> {
        self.slots@
    }

    pub closed spec fn metadata_version(&self) -> u16 {
        self.metadata_version
    }

    pub closed spec fn buffer_capacity(&self) -> u16 {
        self.buffer_capacity
    }

    pub closed spec fn wf(&self) -> bool {
        self.slots.len() == FRAMED_REGION_SIZE
    }

    /// A fresh framed ring: version 1, the fixed slot count, cursor zero,
    /// zeroed slots.
    pub fn new() -> (w: RingBufferWriter)
        ensures
            w.wf(),
            w.metadata_version() == 1,
            w.buffer_capacity() == SLOT_COUNT as u16,
            w.cursor() == 0,
            w.slots_bytes() == Seq::new(FRAMED_REGION_SIZE as nat, |i: int| 0u8),
    {
        let slots: Vec<u8> = vec![0u8; FRAMED_REGION_SIZE];
        proof {
            assert_seqs_equal!(slots@ == Seq::new(FRAMED_REGION_SIZE as nat, |i: int| 0u8));
        }
        RingBufferWriter {
            metadata_version: 1,
            buffer_capacity: SLOT_COUNT as u16,
            write_cursor: 0,
            slots,
        }
    }

    pub fn current_cursor(&self) -> (c: u64)
        ensures
            c == self.cursor(),
    {
        self.write_cursor
    }

    /// The flat slot-array bytes, as a reader mapping the region sees
    /// them.
    pub fn slots(&self) -> (s: &Vec<u8>)
        ensures
            s@ == self.slots_bytes(),
    {
        &self.slots
    }

    /// Copies the first `n` bytes of `data` to byte offset `at` of the
    /// slot array.
    fn put_at(&mut self, at: usize, data: &[u8], n: usize)
        requires
            old(self).wf(),
            at + n <= FRAMED_REGION_SIZE,
            n <= data@.len(),
        ensures
            final(self).wf(),
            final(self).cursor() == old(self).cursor(),
            final(self).metadata_version() == old(self).metadata_version(),
            final(self).buffer_capacity() == old(self).buffer_capacity(),
            final(self).slots_bytes() == splice(
                old(self).slots_bytes(),
                at as int,
                data@.subrange(0, n as int),
            ),
    {
        let mut i: usize = 0;
        while i < n
            invariant
                i <= n,
                n <= data@.len(),
                at + n <= self.slots.len(),
                self.slots.len() == old(self).slots.len(),
                self.write_cursor == old(self).write_cursor,
                self.metadata_version == old(self).metadata_version,
                self.buffer_capacity == old(self).buffer_capacity,
                forall|j: int|
                    0 <= j < self.slots@.len() && !(at <= j < at + i) ==> self.slots@[j]
                        == old(self).slots@[j],
                forall|j: int| 0 <= j < i ==> self.slots@[at + j] == data@[j],
            decreases n - i,
        {
            self.slots[at + i] = data[i];
            i += 1;
        }
        proof {
            assert_seqs_equal!(self.slots@
                == splice(old(self).slots@, at as int, data@.subrange(0, n as int)), j => {
                if at <= j < at + n {
                    assert(self.slots@[j] == data@[j - at]);
                }
            });
        }
    }

    /// Stamps the sequence number of the next publication into the slot
    /// the cursor selects, without advancing the cursor. On a codec
    /// failure the stamp stays behind and the half-written slot is simply
    /// overwritten by the next publication.
    fn stamp_seq(&mut self)
        requires
            old(self).wf(),
        ensures
            final(self).wf(),
            final(self).cursor() == old(self).cursor(),
            final(self).metadata_version() == old(self).metadata_version(),
            final(self).buffer_capacity() == old(self).buffer_capacity(),
            final(self).slots_bytes() == splice(
                old(self).slots_bytes(),
                spec_slot_base(old(self).cursor()),
                spec_u64_to_le_bytes(old(self).cursor().wrapping_add(1)),
            ),
    {
        proof {
            lemma_auto_spec_u64_to_from_le_bytes();
        }
        let next = self.write_cursor.wrapping_add(1);
        let idx: usize = (self.write_cursor % (SLOT_COUNT as u64)) as usize;
        let base: usize = idx * FRAMED_SLOT_SIZE;
        let seq_bytes = u64_to_le_bytes(next);
        self.put_at(base, seq_bytes.as_slice(), 8);
        proof {
            assert_seqs_equal!(seq_bytes@.subrange(0, 8) == seq_bytes@);
        }
    }

    /// Copies the first `n` payload bytes into the slot the cursor
    /// selects, right after the sequence number, zero-pads the remaining
    /// payload bytes, and publishes by advancing the cursor once.
    fn publish_payload_prefix(&mut self, data: &[u8], n: usize)
        requires
            old(self).wf(),
            n <= SLOT_PAYLOAD_SIZE,
            n <= data@.len(),
        ensures
            final(self).wf(),
            final(self).cursor() == old(self).cursor().wrapping_add(1),
            final(self).metadata_version() == old(self).metadata_version(),
            final(self).buffer_capacity() == old(self).buffer_capacity(),
            final(self).slots_bytes() == splice(
                old(self).slots_bytes(),
                spec_slot_base(old(self).cursor()) + 8,
                spec_padded_payload(data@.subrange(0, n as int)),
            ),
    {
        let idx: usize = (self.write_cursor % (SLOT_COUNT as u64)) as usize;
        let base: usize = idx * FRAMED_SLOT_SIZE;
        self.put_at(base + 8, data, n);
        let pad_len: usize = SLOT_PAYLOAD_SIZE - n;
        let pad: Vec<u8> = vec![0u8; pad_len];
        self.put_at(base + 8 + n, pad.as_slice(), pad_len);
        proof {
            let prefix = data@.subrange(0, n as int);
            assert(pad@.subrange(0, pad_len as int) =~= pad@);
            lemma_splice_adjacent(
                old(self).slots_bytes(),
                spec_slot_base(old(self).cursor()) + 8,
                prefix,
                pad@,
            );
            assert(prefix + pad@ =~= spec_padded_payload(prefix));
        }
        let next = self.write_cursor.wrapping_add(1);
        self.write_cursor = next;
    }

    /// Publishes raw datagram bytes: stamps the next sequence number,
    /// copies the bytes (truncated to the slot payload size), zero-pads
    /// the rest of the payload, and advances the cursor.
    pub fn publish_raw_bytes(&mut self, data: &[u8])
        requires
            old(self).wf(),
        ensures
            final(self).wf(),
            final(self).cursor() == old(self).cursor().wrapping_add(1),
            final(self).metadata_version() == old(self).metadata_version(),
            final(self).buffer_capacity() == old(self).buffer_capacity(),
            final(self).slots_bytes() == splice(
                old(self).slots_bytes(),
                spec_slot_base(old(self).cursor()),
                spec_u64_to_le_bytes(old(self).cursor().wrapping_add(1)) + spec_padded_payload(
                    data@.subrange(
                        0,
                        if data@.len() > SLOT_PAYLOAD_SIZE {
                            SLOT_PAYLOAD_SIZE as int
                        } else {
                            data@.len() as int
                        },
                    ),
                ),
            ),
    {
        proof {
            lemma_auto_spec_u64_to_from_le_bytes();
        }
        self.stamp_seq();
        let n: usize = if data.len() > SLOT_PAYLOAD_SIZE {
            SLOT_PAYLOAD_SIZE
        } else {
            data.len()
        };
        self.publish_payload_prefix(data, n);
        proof {
            lemma_splice_adjacent(
                old(self).slots_bytes(),
                spec_slot_base(old(self).cursor()),
                spec_u64_to_le_bytes(old(self).cursor().wrapping_add(1)),
                spec_padded_payload(data@.subrange(0, n as int)),
            );
        }
    }
}

/// After a raw publication the slot that the old cursor selected reads
/// back in full as the new sequence number followed by the payload,
/// zero-padded on the right to the slot payload size.
pub proof fn lemma_published_frame(region: Seq<u8>, c: u64, payload: Seq<u8>)
    requires
        region.len() == FRAMED_REGION_SIZE,
        payload.len() <= SLOT_PAYLOAD_SIZE,
    ensures
        ({
            let base = spec_slot_base(c);
            let stamped = spec_u64_to_le_bytes(c.wrapping_add(1)) + spec_padded_payload(payload);
            splice(region, base, stamped).subrange(base, base + FRAMED_SLOT_SIZE) == stamped
        }),
{
    lemma_auto_spec_u64_to_from_le_bytes();
    let base = spec_slot_base(c);
    let stamped = spec_u64_to_le_bytes(c.wrapping_add(1)) + spec_padded_payload(payload);
    assert(0 <= base && base + FRAMED_SLOT_SIZE <= region.len());
    lemma_splice_subrange(region, base, stamped);
}

/// The 13 bytes of one quote level: a decimal64 price and a `u32`
/// quantity.
pub open spec fn spec_level_bytes(level: (Decimal64, u32)) -> Seq<u8> {
    spec_decimal64_to_le_bytes(level.0.mantissa, level.0.exponent) + spec_u32_to_le_bytes(level.1)
}

/// The concatenated entry bytes of a quote-side group, in declaration
/// order.
pub open spec fn spec_levels_bytes(ls: Seq<(Decimal64, u32)>) -> Seq<u8>
    decreases ls.len(),
{
    if ls.len() == 0 {
        Seq::<u8>::empty()
    } else {
        spec_levels_bytes(ls.drop_last()) + spec_level_bytes(ls.last())
    }
}

pub proof fn lemma_levels_bytes_len(ls: Seq<(Decimal64, u32)>)
    ensures
        spec_levels_bytes(ls).len() == 13 * ls.len(),
    decreases ls.len(),
{
    lemma_auto_spec_u64_to_from_le_bytes();
    lemma_auto_spec_u32_to_from_le_bytes();
    if ls.len() > 0 {
        lemma_levels_bytes_len(ls.drop_last());
    }
}

/// The legacy tick message: template 2, a fixed transact time and a
/// decimal64 price.
pub open spec fn spec_legacy_tick_bytes(price: Decimal64) -> Seq<u8> {
    spec_header_bytes(16, 2, 1, 0) + spec_u64_to_le_bytes(123456789) + spec_decimal64_to_le_bytes(
        price.mantissa,
        price.exponent,
    )
}

/// The tick v1 message: template 1001.
pub open spec fn spec_tick_v1_bytes(
    sec_id: u64,
    timestamp_ns: u64,
    price: Decimal64,
    size: u32,
) -> Seq<u8> {
    spec_header_bytes(24, 1001, 1, 0) + spec_u64_to_le_bytes(sec_id) + spec_u64_to_le_bytes(
        timestamp_ns,
    ) + spec_decimal64_to_le_bytes(price.mantissa, price.exponent) + spec_u32_to_le_bytes(size)
}

/// The quote v1 message: template 1002, a bid group then an ask group.
pub open spec fn spec_quote_v1_bytes(
    sec_id: u64,
    timestamp_ns: u64,
    bids: Seq<(Decimal64, u32)>,
    asks: Seq<(Decimal64, u32)>,
) -> Seq<u8> {
    spec_header_bytes(16, 1002, 1, 0) + spec_u64_to_le_bytes(sec_id) + spec_u64_to_le_bytes(
        timestamp_ns,
    ) + spec_group_header_bytes(13, bids.len() as u16) + spec_levels_bytes(bids)
        + spec_group_header_bytes(13, asks.len() as u16) + spec_levels_bytes(asks)
}

/// The snapshot v1 message: template 1003.
pub open spec fn spec_snapshot_v1_bytes(
    sec_id: u64,
    timestamp_ns: u64,
    close: Decimal64,
    high: Decimal64,
    open_px: Decimal64,
) -> Seq<u8> {
    spec_header_bytes(32, 1003, 1, 0) + spec_u64_to_le_bytes(sec_id) + spec_u64_to_le_bytes(
        timestamp_ns,
    ) + spec_decimal64_to_le_bytes(close.mantissa, close.exponent) + spec_decimal64_to_le_bytes(
        high.mantissa,
        high.exponent,
    ) + spec_decimal64_to_le_bytes(open_px.mantissa, open_px.exponent)
}

/// The system event message: template 1100.
pub open spec fn spec_system_event_bytes(event_code: u16) -> Seq<u8> {
    spec_header_bytes(4, 1100, 1, 0) + spec_u16_to_le_bytes(event_code)
}

/// Writes one quote-side repeating group: the group header, then 13 bytes
/// per level.
fn encode_levels(enc: &mut SbeEncoder, levels: &Vec<(Decimal64, u32)>) -> (r: Result<
    (),
    SbeError,
>)
    requires
        old(enc).wf(),
        levels@.len() <= 0xFFFF,
    ensures
        final(enc).wf(),
        final(enc).bytes().len() == old(enc).bytes().len(),
        match r {
            Ok(_) => {
                &&& old(enc).pos() + 4 + 13 * levels@.len() <= old(enc).bytes().len()
                &&& final(enc).pos() == old(enc).pos() + 4 + 13 * levels@.len()
                &&& final(enc).bytes() == splice(
                    old(enc).bytes(),
                    old(enc).pos(),
                    spec_group_header_bytes(13, levels@.len() as u16) + spec_levels_bytes(
                        levels@,
                    ),
                )
            },
            Err(e) => {
                &&& e == SbeError::BufferOverflow
                &&& old(enc).pos() + 4 + 13 * levels@.len() > old(enc).bytes().len()
                &&& *final(enc) == *old(enc)
            },
        },
{
    proof {
        lemma_auto_spec_u16_to_from_le_bytes();
        lemma_auto_spec_u32_to_from_le_bytes();
        lemma_auto_spec_u64_to_from_le_bytes();
        lemma_levels_bytes_len(levels@);
        lemma_encoder_bounds(enc);
    }
    let count: u16 = levels.len() as u16;
    enc.write_group_header(13, count)?;
    let ghost b0 = old(enc).bytes();
    let ghost p0 = old(enc).pos();
    let ghost gh = spec_group_header_bytes(13, count);
    let mut i: usize = 0;
    while i < levels.len()
        invariant
            i <= levels@.len(),
            levels@.len() <= 0xFFFF,
            count == levels@.len() as u16,
            enc.wf(),
            gh == spec_group_header_bytes(13, count),
            gh.len() == 4,
            0 <= p0,
            p0 + 4 + 13 * levels@.len() <= b0.len(),
            enc.bytes().len() == b0.len(),
            enc.pos() == p0 + 4 + 13 * i,
            enc.bytes() == splice(b0, p0, gh + spec_levels_bytes(levels@.subrange(0, i as int))),
        decreases levels@.len() - i,
    {
        proof {
            lemma_auto_spec_u32_to_from_le_bytes();
            lemma_auto_spec_u64_to_from_le_bytes();
            lemma_levels_bytes_len(levels@.subrange(0, i as int));
        }
        let ghost pre_bytes = enc.bytes();
        let ghost pre_entries = spec_levels_bytes(levels@.subrange(0, i as int));
        let lv = levels[i];
        let r1 = enc.write_decimal64_raw(lv.0.mantissa, lv.0.exponent);
        assert(r1 is Ok);
        let ghost dec = spec_decimal64_to_le_bytes(lv.0.mantissa, lv.0.exponent);
        let r2 = enc.write_u32(lv.1);
        assert(r2 is Ok);
        proof {
            let qty = spec_u32_to_le_bytes(lv.1);
            lemma_splice_adjacent(b0, p0, gh + pre_entries, dec);
            lemma_splice_adjacent(b0, p0, (gh + pre_entries) + dec, qty);
            assert(levels@.subrange(0, i + 1).drop_last() =~= levels@.subrange(0, i as int));
            assert(levels@.subrange(0, i + 1).last() == levels@[i as int]);
            assert(spec_levels_bytes(levels@.subrange(0, i + 1)) == pre_entries
                + spec_level_bytes(levels@[i as int]));
            assert(((gh + pre_entries) + dec) + qty =~= gh + spec_levels_bytes(
                levels@.subrange(0, i + 1),
            ));
        }
        i += 1;
    }
    proof {
        assert(levels@.subrange(0, levels@.len() as int) =~= levels@);
    }
    Ok(())
}

impl RingBufferWriter {
    /// Encodes the legacy tick message (template 2) into the next slot
    /// and publishes it. The message always fits, so this always
    /// succeeds.
    pub fn publish_sbe(&mut self, price: Decimal64) -> (r: Result<(), SbeError>)
        requires
            old(self).wf(),
        ensures
            final(self).wf(),
            final(self).metadata_version() == old(self).metadata_version(),
            final(self).buffer_capacity() == old(self).buffer_capacity(),
            r is Ok,
            final(self).cursor() == old(self).cursor().wrapping_add(1),
            final(self).slots_bytes() == splice(
                old(self).slots_bytes(),
                spec_slot_base(old(self).cursor()),
                spec_u64_to_le_bytes(old(self).cursor().wrapping_add(1)) + spec_padded_payload(
                    spec_legacy_tick_bytes(price),
                ),
            ),
    {
        proof {
            lemma_auto_spec_u16_to_from_le_bytes();
            lemma_auto_spec_u64_to_from_le_bytes();
        }
        self.stamp_seq();
        let buf: Vec<u8> = vec![0u8; SLOT_PAYLOAD_SIZE];
        let ghost z = buf@;
        let mut enc = SbeEncoder::new(buf);
        let r1 = enc.write_header(16, 2, 1, 0);
        assert(r1 is Ok);
        let r2 = enc.write_u64(123456789);
        assert(r2 is Ok);
        let r3 = enc.write_decimal64_raw(price.mantissa, price.exponent);
        assert(r3 is Ok);
        proof {
            let h = spec_header_bytes(16, 2, 1, 0);
            let u = spec_u64_to_le_bytes(123456789);
            let d = spec_decimal64_to_le_bytes(price.mantissa, price.exponent);
            lemma_splice_adjacent(z, 0, h, u);
            lemma_splice_adjacent(z, 0, h + u, d);
            lemma_splice_subrange(z, 0, (h + u) + d);
            assert((h + u) + d =~= spec_legacy_tick_bytes(price));
        }
        let n = enc.cursor();
        let payload = enc.into_inner();
        self.publish_payload_prefix(payload.as_slice(), n);
        proof {
            lemma_splice_adjacent(
                old(self).slots_bytes(),
                spec_slot_base(old(self).cursor()),
                spec_u64_to_le_bytes(old(self).cursor().wrapping_add(1)),
                spec_padded_payload(spec_legacy_tick_bytes(price)),
            );
        }
        Ok(())
    }

    /// Publishes one legacy tick.
    pub fn publish(&mut self, price: Decimal64) -> (r: Result<(), SbeError>)
        requires
            old(self).wf(),
        ensures
            final(self).wf(),
            final(self).metadata_version() == old(self).metadata_version(),
            final(self).buffer_capacity() == old(self).buffer_capacity(),
            r is Ok,
            final(self).cursor() == old(self).cursor().wrapping_add(1),
            final(self).slots_bytes() == splice(
                old(self).slots_bytes(),
                spec_slot_base(old(self).cursor()),
                spec_u64_to_le_bytes(old(self).cursor().wrapping_add(1)) + spec_padded_payload(
                    spec_legacy_tick_bytes(price),
                ),
            ),
    {
        self.publish_sbe(price)
    }
}

/// Encodes and publishes a tick v1 message (template 1001). The message
/// always fits, so this always succeeds.
pub fn publish_tick_v1(
    writer: &mut RingBufferWriter,
    sec_id: u64,
    price: Decimal64,
    size: u32,
    timestamp_ns: u64,
) -> (r: Result<(), SbeError>)
    requires
        old(writer).wf(),
    ensures
        final(writer).wf(),
        final(writer).metadata_version() == old(writer).metadata_version(),
        final(writer).buffer_capacity() == old(writer).buffer_capacity(),
        r is Ok,
        final(writer).cursor() == old(writer).cursor().wrapping_add(1),
        final(writer).slots_bytes() == splice(
            old(writer).slots_bytes(),
            spec_slot_base(old(writer).cursor()),
            spec_u64_to_le_bytes(old(writer).cursor().wrapping_add(1)) + spec_padded_payload(
                spec_tick_v1_bytes(sec_id, timestamp_ns, price, size),
            ),
        ),
{
    proof {
        lemma_auto_spec_u16_to_from_le_bytes();
        lemma_auto_spec_u32_to_from_le_bytes();
        lemma_auto_spec_u64_to_from_le_bytes();
    }
    writer.stamp_seq();
    let buf: Vec<u8> = vec![0u8; SLOT_PAYLOAD_SIZE];
    let ghost z = buf@;
    let mut enc = SbeEncoder::new(buf);
    let r1 = enc.write_header(24, 1001, 1, 0);
    assert(r1 is Ok);
    let r2 = enc.write_u64(sec_id);
    assert(r2 is Ok);
    let r3 = enc.write_u64(timestamp_ns);
    assert(r3 is Ok);
    let r4 = enc.write_decimal64_raw(price.mantissa, price.exponent);
    assert(r4 is Ok);
    let r5 = enc.write_u32(size);
    assert(r5 is Ok);
    proof {
        let h = spec_header_bytes(24, 1001, 1, 0);
        let s = spec_u64_to_le_bytes(sec_id);
        let t = spec_u64_to_le_bytes(timestamp_ns);
        let d = spec_decimal64_to_le_bytes(price.mantissa, price.exponent);
        let q = spec_u32_to_le_bytes(size);
        lemma_splice_adjacent(z, 0, h, s);
        lemma_splice_adjacent(z, 0, h + s, t);
        lemma_splice_adjacent(z, 0, (h + s) + t, d);
        lemma_splice_adjacent(z, 0, ((h + s) + t) + d, q);
        lemma_splice_subrange(z, 0, (((h + s) + t) + d) + q);
        assert((((h + s) + t) + d) + q =~= spec_tick_v1_bytes(sec_id, timestamp_ns, price, size));
    }
    let n = enc.cursor();
    let payload = enc.into_inner();
    writer.publish_payload_prefix(payload.as_slice(), n);
    proof {
        lemma_splice_adjacent(
            old(writer).slots_bytes(),
            spec_slot_base(old(writer).cursor()),
            spec_u64_to_le_bytes(old(writer).cursor().wrapping_add(1)),
            spec_padded_payload(spec_tick_v1_bytes(sec_id, timestamp_ns, price, size)),
        );
    }
    Ok(())
}

/// Encodes and publishes a quote v1 message (template 1002): a fixed
/// block, the bid group and the ask group. Succeeds exactly when the
/// whole message fits the slot payload; on overflow the sequence stamp
/// stays behind but the cursor does not move, so the slot is dropped.
pub fn publish_quote_v1(
    writer: &mut RingBufferWriter,
    sec_id: u64,
    bids: &Vec<(Decimal64, u32)>,
    asks: &Vec<(Decimal64, u32)>,
    timestamp_ns: u64,
) -> (r: Result<(), SbeError>)
    requires
        old(writer).wf(),
        bids@.len() <= 0xFFFF,
        asks@.len() <= 0xFFFF,
    ensures
        final(writer).wf(),
        final(writer).metadata_version() == old(writer).metadata_version(),
        final(writer).buffer_capacity() == old(writer).buffer_capacity(),
        r is Ok <==> 32 + 13 * (bids@.len() + asks@.len()) <= SLOT_PAYLOAD_SIZE,
        r is Ok ==> {
            &&& final(writer).cursor() == old(writer).cursor().wrapping_add(1)
            &&& final(writer).slots_bytes() == splice(
                old(writer).slots_bytes(),
                spec_slot_base(old(writer).cursor()),
                spec_u64_to_le_bytes(old(writer).cursor().wrapping_add(1)) + spec_padded_payload(
                    spec_quote_v1_bytes(sec_id, timestamp_ns, bids@, asks@),
                ),
            )
        },
        r is Err ==> {
            &&& r == Err::<(), SbeError>(SbeError::BufferOverflow)
            &&& final(writer).cursor() == old(writer).cursor()
            &&& final(writer).slots_bytes() == splice(
                old(writer).slots_bytes(),
                spec_slot_base(old(writer).cursor()),
                spec_u64_to_le_bytes(old(writer).cursor().wrapping_add(1)),
            )
        },
{
    proof {
        lemma_auto_spec_u16_to_from_le_bytes();
        lemma_auto_spec_u64_to_from_le_bytes();
        lemma_levels_bytes_len(bids@);
        lemma_levels_bytes_len(asks@);
    }
    writer.stamp_seq();
    let buf: Vec<u8> = vec![0u8; SLOT_PAYLOAD_SIZE];
    let ghost z = buf@;
    let mut enc = SbeEncoder::new(buf);
    let r1 = enc.write_header(16, 1002, 1, 0);
    assert(r1 is Ok);
    let r2 = enc.write_u64(sec_id);
    assert(r2 is Ok);
    let r3 = enc.write_u64(timestamp_ns);
    assert(r3 is Ok);
    let ghost h = spec_header_bytes(16, 1002, 1, 0);
    let ghost s = spec_u64_to_le_bytes(sec_id);
    let ghost t = spec_u64_to_le_bytes(timestamp_ns);
    proof {
        lemma_splice_adjacent(z, 0, h, s);
        lemma_splice_adjacent(z, 0, h + s, t);
    }
    let ghost pre = (h + s) + t;
    match encode_levels(&mut enc, bids) {
        Ok(_) => {},
        Err(e) => {
            return Err(e);
        },
    }
    let ghost gb = spec_group_header_bytes(13, bids@.len() as u16) + spec_levels_bytes(bids@);
    proof {
        lemma_splice_adjacent(z, 0, pre, gb);
    }
    match encode_levels(&mut enc, asks) {
        Ok(_) => {},
        Err(e) => {
            return Err(e);
        },
    }
    let ghost ga = spec_group_header_bytes(13, asks@.len() as u16) + spec_levels_bytes(asks@);
    proof {
        lemma_splice_adjacent(z, 0, pre + gb, ga);
        lemma_encoder_bounds(&enc);
        lemma_splice_subrange(z, 0, (pre + gb) + ga);
        assert((pre + gb) + ga =~= spec_quote_v1_bytes(sec_id, timestamp_ns, bids@, asks@));
    }
    let n = enc.cursor();
    let payload = enc.into_inner();
    writer.publish_payload_prefix(payload.as_slice(), n);
    proof {
        lemma_splice_adjacent(
            old(writer).slots_bytes(),
            spec_slot_base(old(writer).cursor()),
            spec_u64_to_le_bytes(old(writer).cursor().wrapping_add(1)),
            spec_padded_payload(spec_quote_v1_bytes(sec_id, timestamp_ns, bids@, asks@)),
        );
    }
    Ok(())
}

/// Encodes and publishes a snapshot v1 message (template 1003). The
/// message always fits, so this always succeeds.
pub fn publish_snapshot_v1(
    writer: &mut RingBufferWriter,
    sec_id: u64,
    close: Decimal64,
    high: Decimal64,
    open_px: Decimal64,
    timestamp_ns: u64,
) -> (r: Result<(), SbeError>)
    requires
        old(writer).wf(),
    ensures
        final(writer).wf(),
        final(writer).metadata_version() == old(writer).metadata_version(),
        final(writer).buffer_capacity() == old(writer).buffer_capacity(),
        r is Ok,
        final(writer).cursor() == old(writer).cursor().wrapping_add(1),
        final(writer).slots_bytes() == splice(
            old(writer).slots_bytes(),
            spec_slot_base(old(writer).cursor()),
            spec_u64_to_le_bytes(old(writer).cursor().wrapping_add(1)) + spec_padded_payload(
                spec_snapshot_v1_bytes(sec_id, timestamp_ns, close, high, open_px),
            ),
        ),
{
    proof {
        lemma_auto_spec_u16_to_from_le_bytes();
        lemma_auto_spec_u64_to_from_le_bytes();
    }
    writer.stamp_seq();
    let buf: Vec<u8> = vec![0u8; SLOT_PAYLOAD_SIZE];
    let ghost z = buf@;
    let mut enc = SbeEncoder::new(buf);
    let r1 = enc.write_header(32, 1003, 1, 0);
    assert(r1 is Ok);
    let r2 = enc.write_u64(sec_id);
    assert(r2 is Ok);
    let r3 = enc.write_u64(timestamp_ns);
    assert(r3 is Ok);
    let r4 = enc.write_decimal64_raw(close.mantissa, close.exponent);
    assert(r4 is Ok);
    let r5 = enc.write_decimal64_raw(high.mantissa, high.exponent);
    assert(r5 is Ok);
    let r6 = enc.write_decimal64_raw(open_px.mantissa, open_px.exponent);
    assert(r6 is Ok);
    proof {
        let h = spec_header_bytes(32, 1003, 1, 0);
        let s = spec_u64_to_le_bytes(sec_id);
        let t = spec_u64_to_le_bytes(timestamp_ns);
        let dc = spec_decimal64_to_le_bytes(close.mantissa, close.exponent);
        let dh = spec_decimal64_to_le_bytes(high.mantissa, high.exponent);
        let dop = spec_decimal64_to_le_bytes(open_px.mantissa, open_px.exponent);
        lemma_splice_adjacent(z, 0, h, s);
        lemma_splice_adjacent(z, 0, h + s, t);
        lemma_splice_adjacent(z, 0, (h + s) + t, dc);
        lemma_splice_adjacent(z, 0, ((h + s) + t) + dc, dh);
        lemma_splice_adjacent(z, 0, (((h + s) + t) + dc) + dh, dop);
        lemma_splice_subrange(z, 0, ((((h + s) + t) + dc) + dh) + dop);
        assert(((((h + s) + t) + dc) + dh) + dop =~= spec_snapshot_v1_bytes(
            sec_id,
            timestamp_ns,
            close,
            high,
            open_px,
        ));
    }
    let n = enc.cursor();
    let payload = enc.into_inner();
    writer.publish_payload_prefix(payload.as_slice(), n);
    proof {
        lemma_splice_adjacent(
            old(writer).slots_bytes(),
            spec_slot_base(old(writer).cursor()),
            spec_u64_to_le_bytes(old(writer).cursor().wrapping_add(1)),
            spec_padded_payload(spec_snapshot_v1_bytes(sec_id, timestamp_ns, close, high, open_px)),
        );
    }
    Ok(())
}

/// Encodes and publishes a system event message (template 1100). The
/// message always fits, so this always succeeds.
pub fn publish_system_event(writer: &mut RingBufferWriter, event_code: u16) -> (r: Result<
    (),
    SbeError,
>)
    requires
        old(writer).wf(),
    ensures
        final(writer).wf(),
        final(writer).metadata_version() == old(writer).metadata_version(),
        final(writer).buffer_capacity() == old(writer).buffer_capacity(),
        r is Ok,
        final(writer).cursor() == old(writer).cursor().wrapping_add(1),
        final(writer).slots_bytes() == splice(
            old(writer).slots_bytes(),
            spec_slot_base(old(writer).cursor()),
            spec_u64_to_le_bytes(old(writer).cursor().wrapping_add(1)) + spec_padded_payload(
                spec_system_event_bytes(event_code),
            ),
        ),
{
    proof {
        lemma_auto_spec_u16_to_from_le_bytes();
        lemma_auto_spec_u64_to_from_le_bytes();
    }
    writer.stamp_seq();
    let buf: Vec<u8> = vec![0u8; SLOT_PAYLOAD_SIZE];
    let ghost z = buf@;
    let mut enc = SbeEncoder::new(buf);
    let r1 = enc.write_header(4, 1100, 1, 0);
    assert(r1 is Ok);
    let r2 = enc.write_u16(event_code);
    assert(r2 is Ok);
    proof {
        let h = spec_header_bytes(4, 1100, 1, 0);
        let c = spec_u16_to_le_bytes(event_code);
        lemma_splice_adjacent(z, 0, h, c);
        lemma_splice_subrange(z, 0, h + c);
        assert(h + c =~= spec_system_event_bytes(event_code));
    }
    let n = enc.cursor();
    let payload = enc.into_inner();
    writer.publish_payload_prefix(payload.as_slice(), n);
    proof {
        lemma_splice_adjacent(
            old(writer).slots_bytes(),
            spec_slot_base(old(writer).cursor()),
            spec_u64_to_le_bytes(old(writer).cursor().wrapping_add(1)),
            spec_padded_payload(spec_system_event_bytes(event_code)),
        );
    }
    Ok(())
}

} // verus!
