//! Datagram admission for the framed ring: one received datagram is
//! either dropped (malformed header or heartbeat) or published into the
//! next slot, truncated to the slot payload size so that readers still
//! observe the prefix. Receiving itself is I/O and happens outside this
//! crate; this module is handed the datagram bytes.

use vstd::prelude::*;
use crate::framed::{spec_padded_payload, spec_slot_base, RingBufferWriter, SLOT_PAYLOAD_SIZE};
use crate::sbe::splice;
use vstd::bytes::{spec_u16_from_le_bytes, spec_u64_to_le_bytes, u16_from_le_bytes};
use vstd::slice::slice_subrange;

verus! {

/// What one poll cycle did with a datagram.
#[derive(Debug, PartialEq, Eq, Structural)]
pub enum IngestOutcome {
    /// Shorter than an SBE message header: dropped.
    DroppedMalformed,
    /// Template id zero: dropped as a heartbeat.
    DroppedHeartbeat,
    /// Published into the next slot, truncated to the slot payload size.
    Published,
}

/// The template id carried in bytes 2..4 of a datagram.
pub open spec fn spec_template_id(packet: Seq<u8>) -> u16
    recommends
        packet.len() >= 4,
{
    spec_u16_from_le_bytes(packet.subrange(2, 4))
}

/// Admits one datagram: drops it when it is shorter than a message
/// header or carries the heartbeat template id, otherwise publishes its
/// bytes (truncated to the slot payload size) through the raw path.
pub fn process_datagram(writer: &mut RingBufferWriter, packet: &[u8]) -> (out: IngestOutcome)
    requires
        old(writer).wf(),
    ensures
        final(writer).wf(),
        final(writer).metadata_version() == old(writer).metadata_version(),
        final(writer).buffer_capacity() == old(writer).buffer_capacity(),
        packet@.len() < 4 ==> out == IngestOutcome::DroppedMalformed && *final(writer) == *old(
            writer,
        ),
        packet@.len() >= 4 && spec_template_id(packet@) == 0 ==> out
            == IngestOutcome::DroppedHeartbeat && *final(writer) == *old(writer),
        packet@.len() >= 4 && spec_template_id(packet@) != 0 ==> {
            &&& out == IngestOutcome::Published
            &&& final(writer).cursor() == old(writer).cursor().wrapping_add(1)
            &&& final(writer).slots_bytes() == splice(
                old(writer).slots_bytes(),
                spec_slot_base(old(writer).cursor()),
                spec_u64_to_le_bytes(old(writer).cursor().wrapping_add(1)) + spec_padded_payload(
                    packet@.subrange(
                        0,
                        if packet@.len() > SLOT_PAYLOAD_SIZE {
                            SLOT_PAYLOAD_SIZE as int
                        } else {
                            packet@.len() as int
                        },
                    ),
                ),
            )
        },
{
    if packet.len() < 4 {
        return IngestOutcome::DroppedMalformed;
    }
    let template_id = u16_from_le_bytes(slice_subrange(packet, 2, 4));
    if template_id == 0 {
        return IngestOutcome::DroppedHeartbeat;
    }
    writer.publish_raw_bytes(packet);
    IngestOutcome::Published
}

} // verus!
