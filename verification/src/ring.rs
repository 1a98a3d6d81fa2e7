//! Single-producer ring buffer writer: a power-of-two number of fixed-size
//! slots behind a cursor-only header. The cursor counts publications since
//! genesis (wrapping only by `u64` overflow); `cursor mod capacity` is the
//! next slot to write. The writer never blocks and never checks readers:
//! slots are overwritten freely, and slow consumers are only reported.

use vstd::prelude::*;
use vstd::assert_seqs_equal;
use vstd::arithmetic::div_mod::{
    lemma_add_mod_noop, lemma_mod_division_less_than_divisor,
    lemma_mod_multiples_vanish, lemma_small_mod,
};
use vstd::arithmetic::power2::{
    lemma2_to64, lemma2_to64_rest, lemma_pow2_adds, lemma_pow2_strictly_increases,
    lemma_pow2_unfold, pow2,
};
use vstd::bits::lemma_u64_low_bits_mask_is_mod;

verus! {

/// Payload bytes in one slot.
pub const SLOT_SIZE: usize = 48;

/// Bytes in the header: the cursor alone on one cache line.
pub const HEADER_SIZE: usize = 64;

#[derive(Debug, PartialEq, Eq, Structural)]
pub enum RingError {
    PacketTooLarge { got: usize, max: usize },
    CapacityNotPowerOfTwo,
    BatchOverflow { batch: u64 },
}

/// A valid slot count: nonzero and a power of two.
pub open spec fn pow2_capacity(c: u64) -> bool {
    c > 0 && (c & ((c - 1) as u64)) == 0
}

/// A payload padded with zero bytes to the full slot size.
pub open spec fn spec_padded_slot(p: Seq<u8>) -> Seq<u8>
    recommends
        p.len() <= SLOT_SIZE,
{
    p + Seq::new((SLOT_SIZE - p.len()) as nat, |i: int| 0u8)
}

/// Extracts the exponent of a power-of-two capacity.
proof fn lemma_pow2_cap_log(cap: u64) -> (n: nat)
    requires
        pow2_capacity(cap),
    ensures
        n < 64,
        cap == pow2(n),
    decreases cap,
{
    if cap == 1 {
        assert(pow2(0) == 1) by {
            lemma2_to64();
        }
        0
    } else {
        assert(cap % 2 == 0 && cap / 2 > 0 && ((cap / 2) & ((cap / 2 - 1) as u64)) == 0 && cap / 2
            < cap) by (bit_vector)
            requires
                cap != 0,
                cap != 1,
                (cap & ((cap - 1) as u64)) == 0,
        ;
        let m = lemma_pow2_cap_log(cap / 2);
        lemma_pow2_unfold(m + 1);
        assert(pow2(m + 1) == 2 * pow2(m));
        if m >= 63 {
            if m > 63 {
                lemma_pow2_strictly_increases(63, m);
            }
            assert(pow2(63) == 0x8000000000000000) by {
                lemma2_to64_rest();
            }
            assert(false);
        }
        m + 1
    }
}

/// For a power-of-two capacity, masking with `capacity - 1` is reduction
/// modulo the capacity.
pub proof fn lemma_mask_is_mod(x: u64, cap: u64, mask: u64)
    requires
        pow2_capacity(cap),
        mask == cap - 1,
    ensures
        x & mask == x % cap,
{
    let n = lemma_pow2_cap_log(cap);
    lemma_u64_low_bits_mask_is_mod(x, n);
}

/// `2^64` is a multiple of every power-of-two capacity, so cursor
/// arithmetic that wraps by `u64` overflow is transparent to the slot
/// index.
pub proof fn lemma_wrap_add_mod(start: u64, k: u64, cap: u64)
    requires
        pow2_capacity(cap),
    ensures
        start.wrapping_add(k) % cap == (start + k) % (cap as int),
{
    let m: int = 0x1_0000_0000_0000_0000;
    let n = lemma_pow2_cap_log(cap);
    lemma_pow2_adds(n, (64 - n) as nat);
    assert(pow2(64) == 0x1_0000_0000_0000_0000) by {
        lemma2_to64_rest();
    }
    let t: int = pow2((64 - n) as nat) as int;
    assert(m == (cap as int) * t);
    if start + k > u64::MAX {
        lemma_mod_multiples_vanish(-t, start + k, cap as int);
        assert(cap * (-t) + (start + k) == start + k - m) by (nonlinear_arith)
            requires
                m == (cap as int) * t,
        ;
    }
}

/// Within one batch of at most `capacity` packets, distinct packets land
/// in distinct slots.
pub proof fn lemma_batch_slots_distinct(start: u64, i: u64, j: u64, cap: u64)
    requires
        pow2_capacity(cap),
        i < j,
        j < cap,
    ensures
        start.wrapping_add(i) % cap != start.wrapping_add(j) % cap,
{
    lemma_wrap_add_mod(start, i, cap);
    lemma_wrap_add_mod(start, j, cap);
    let r = (start + i) % (cap as int);
    let d = j - i;
    lemma_mod_division_less_than_divisor(start + i, cap as int);
    lemma_small_mod(d as nat, cap as nat);
    lemma_add_mod_noop(start + i, d, cap as int);
    assert((start + j) % (cap as int) == (r + d) % (cap as int));
    if r + d < cap {
        lemma_small_mod((r + d) as nat, cap as nat);
    } else {
        lemma_mod_multiples_vanish(-1, r + d, cap as int);
        assert(cap * (-1) + (r + d) == r + d - cap);
        lemma_small_mod((r + d - cap) as nat, cap as nat);
    }
}

/// The framing header: a monotone publication cursor, alone on its cache
/// line in the shared region. The release/acquire pairing that readers
/// rely on belongs to the process boundary outside this crate; here the
/// header is the plain value those stores publish.
pub struct RingBufferHeader {
    write_cursor: u64,
}

impl RingBufferHeader {
    pub closed spec fn cursor(&self) -> u64 {
        self.write_cursor
    }

    /// A fresh header, as a zeroed shared region presents it.
    pub fn new() -> (h: RingBufferHeader)
        ensures
            h.cursor() == 0,
    {
        RingBufferHeader { write_cursor: 0 }
    }

    pub fn load(&self) -> (c: u64)
        ensures
            c == self.cursor(),
    {
        self.write_cursor
    }

    pub fn store(&mut self, val: u64)
        ensures
            final(self).cursor() == val,
    {
        self.write_cursor = val;
    }
}

/// Single-writer view of a ring buffer.
pub struct RingWriter {
    header: RingBufferHeader,
    slots: Vec<u8>,
    capacity: usize,
    mask: usize,
}

impl RingWriter {
    /// The slot count.
    pub closed spec fn capacity(&self) -> u64 {
        self.capacity as u64
    }

    /// The publication cursor.
    pub closed spec fn cursor(&self) -> u64 {
        self.header.cursor()
    }

    /// The flat bytes of the slot array.
    pub closed spec fn slots_bytes(&self) -> Seq<u8> {
        self.slots@
    }

    /// The bytes of slot `k`.
    pub open spec fn slot_bytes(&self, k: int) -> Seq<u8> {
        self.slots_bytes().subrange(k * SLOT_SIZE, k * SLOT_SIZE + SLOT_SIZE)
    }

    /// The slot that a cursor value selects.
    pub open spec fn slot_of(&self, c: u64) -> int {
        (c % self.capacity()) as int
    }

    pub closed spec fn wf(&self) -> bool {
        &&& pow2_capacity(self.capacity as u64)
        &&& self.mask == self.capacity - 1
        &&& self.slots.len() == self.capacity * SLOT_SIZE
    }

    /// Builds a writer over a fresh, zeroed slot array, adopting the
    /// cursor that the header already carries.
    pub fn new(header: RingBufferHeader, capacity: usize) -> (r: Result<RingWriter, RingError>)
        requires
            capacity * SLOT_SIZE <= usize::MAX,
        ensures
            match r {
                Ok(w) => {
                    &&& pow2_capacity(capacity as u64)
                    &&& w.wf()
                    &&& w.capacity() == capacity as u64
                    &&& w.cursor() == header.cursor()
                    &&& w.slots_bytes() == Seq::new((capacity * SLOT_SIZE) as nat, |i: int| 0u8)
                },
                Err(e) => {
                    &&& e == RingError::CapacityNotPowerOfTwo
                    &&& !pow2_capacity(capacity as u64)
                },
            },
    {
        let cap64: u64 = capacity as u64;
        if !(cap64 != 0 && (cap64 & (cap64 - 1)) == 0) {
            return Err(RingError::CapacityNotPowerOfTwo);
        }
        let total: usize = capacity * SLOT_SIZE;
        let slots: Vec<u8> = vec![0u8; total];
        proof {
            assert_seqs_equal!(slots@ == Seq::new((capacity * SLOT_SIZE) as nat, |i: int| 0u8));
        }
        Ok(RingWriter { header, slots, capacity, mask: capacity - 1 })
    }

    fn check_packet_size(&self, len: usize) -> (r: Result<(), RingError>)
        ensures
            r is Ok <==> len <= SLOT_SIZE,
            r is Err ==> r == Err::<(), RingError>(
                RingError::PacketTooLarge { got: len, max: SLOT_SIZE },
            ),
    {
        if len > SLOT_SIZE {
            Err(RingError::PacketTooLarge { got: len, max: SLOT_SIZE })
        } else {
            Ok(())
        }
    }

    /// Copies `packet` into the slot that `cursor` selects and zero-pads
    /// the remainder. Does not touch the header.
    fn write_slot(&mut self, cursor: u64, packet: &[u8])
        requires
            old(self).wf(),
            packet@.len() <= SLOT_SIZE,
        ensures
            final(self).wf(),
            final(self).capacity() == old(self).capacity(),
            final(self).cursor() == old(self).cursor(),
            final(self).slot_bytes(old(self).slot_of(cursor)) == spec_padded_slot(packet@),
            forall|k: int|
                0 <= k < old(self).capacity() && k != old(self).slot_of(cursor)
                    ==> final(self).slot_bytes(k) == old(self).slot_bytes(k),
    {
        let cap64: u64 = self.capacity as u64;
        let mask64: u64 = self.mask as u64;
        proof {
            lemma_mask_is_mod(cursor, cap64, mask64);
            lemma_mod_division_less_than_divisor(cursor as int, cap64 as int);
        }
        let idx: usize = (cursor & mask64) as usize;
        assert(idx == self.slot_of(cursor));
        proof {
            assert(idx * SLOT_SIZE + SLOT_SIZE <= self.capacity * SLOT_SIZE) by (nonlinear_arith)
                requires
                    idx < self.capacity,
                    SLOT_SIZE > 0,
            ;
        }
        let base: usize = idx * SLOT_SIZE;
        let ghost pre = *self;
        let mut i: usize = 0;
        while i < packet.len()
            invariant
                i <= packet@.len(),
                packet@.len() <= SLOT_SIZE,
                base + SLOT_SIZE <= self.slots.len(),
                self.slots.len() == pre.slots.len(),
                self.capacity == pre.capacity,
                self.mask == pre.mask,
                self.header == pre.header,
                forall|j: int|
                    0 <= j < self.slots@.len() && !(base <= j < base + i) ==> self.slots@[j]
                        == pre.slots@[j],
                forall|j: int| 0 <= j < i ==> self.slots@[base + j] == packet@[j],
            decreases packet@.len() - i,
        {
            self.slots[base + i] = packet[i];
            i += 1;
        }
        let plen: usize = packet.len();
        let mut z: usize = plen;
        while z < SLOT_SIZE
            invariant
                plen == packet@.len(),
                plen <= z <= SLOT_SIZE,
                base + SLOT_SIZE <= self.slots.len(),
                self.slots.len() == pre.slots.len(),
                self.capacity == pre.capacity,
                self.mask == pre.mask,
                self.header == pre.header,
                forall|j: int|
                    0 <= j < self.slots@.len() && !(base <= j < base + z) ==> self.slots@[j]
                        == pre.slots@[j],
                forall|j: int| 0 <= j < plen ==> self.slots@[base + j] == packet@[j],
                forall|j: int| plen <= j < z ==> #[trigger] self.slots@[base + j] == 0u8,
            decreases SLOT_SIZE - z,
        {
            self.slots[base + z] = 0u8;
            z += 1;
        }
        proof {
            let k0 = pre.slot_of(cursor);
            assert(base == k0 * SLOT_SIZE);
            assert_seqs_equal!(self.slot_bytes(k0) == spec_padded_slot(packet@), j => {
                assert(self.slot_bytes(k0)[j] == self.slots@[base + j]);
                if j < packet@.len() {
                    assert(self.slots@[base + j] == packet@[j]);
                } else {
                    assert(self.slots@[base + j] == 0u8);
                }
            });
            assert forall|k: int| 0 <= k < pre.capacity() && k != k0 implies self.slot_bytes(k)
                == pre.slot_bytes(k) by {
                assert(k * SLOT_SIZE + SLOT_SIZE <= base || base + SLOT_SIZE <= k * SLOT_SIZE)
                    by (nonlinear_arith)
                    requires
                        0 <= k,
                        k != k0,
                        0 <= k0,
                        base == k0 * SLOT_SIZE,
                        SLOT_SIZE > 0,
                ;
                assert(k * SLOT_SIZE + SLOT_SIZE <= self.slots@.len()) by (nonlinear_arith)
                    requires
                        0 <= k < pre.capacity as int,
                        self.slots@.len() == pre.capacity * SLOT_SIZE,
                        SLOT_SIZE > 0,
                ;
                assert_seqs_equal!(self.slot_bytes(k) == pre.slot_bytes(k), j => {
                    assert(self.slot_bytes(k)[j] == self.slots@[k * SLOT_SIZE + j]);
                    assert(self.slots@[k * SLOT_SIZE + j] == pre.slots@[k * SLOT_SIZE + j]);
                });
            }
        }
    }

    /// Publishes one packet into the slot the cursor selects, zero-padded,
    /// then advances the cursor (wrapping only by `u64` overflow). After
    /// each publish the cursor counts one more publication, and the slot
    /// at `(new cursor - 1) mod capacity` holds exactly the padded packet.
    pub fn publish(&mut self, packet: &[u8]) -> (r: Result<u64, RingError>)
        requires
            old(self).wf(),
        ensures
            final(self).wf(),
            final(self).capacity() == old(self).capacity(),
            match r {
                Ok(c) => {
                    &&& packet@.len() <= SLOT_SIZE
                    &&& c == old(self).cursor().wrapping_add(1)
                    &&& final(self).cursor() == c
                    &&& final(self).slot_bytes(old(self).slot_of(old(self).cursor()))
                        == spec_padded_slot(packet@)
                    &&& forall|k: int|
                        0 <= k < old(self).capacity() && k != old(self).slot_of(
                            old(self).cursor(),
                        ) ==> final(self).slot_bytes(k) == old(self).slot_bytes(k)
                },
                Err(e) => {
                    &&& packet@.len() > SLOT_SIZE
                    &&& e == (RingError::PacketTooLarge { got: packet@.len() as usize, max: SLOT_SIZE })
                    &&& *final(self) == *old(self)
                },
            },
    {
        self.check_packet_size(packet.len())?;
        let cursor = self.header.load();
        self.write_slot(cursor, packet);
        let next = cursor.wrapping_add(1);
        self.header.store(next);
        Ok(next)
    }

    /// Returns the cursor as the start of a batch reservation of `batch`
    /// slots. Never mutates.
    pub fn reserve(&self, batch: u64) -> (r: Result<u64, RingError>)
        requires
            self.wf(),
        ensures
            match r {
                Ok(c) => {
                    &&& batch <= self.capacity()
                    &&& c == self.cursor()
                },
                Err(e) => {
                    &&& batch > self.capacity()
                    &&& e == (RingError::BatchOverflow { batch })
                },
            },
    {
        if batch > self.capacity as u64 {
            return Err(RingError::BatchOverflow { batch });
        }
        Ok(self.header.load())
    }

    /// Publishes `start + count` in one cursor store.
    pub fn commit(&mut self, start: u64, count: u64) -> (r: Result<u64, RingError>)
        requires
            old(self).wf(),
        ensures
            final(self).wf(),
            final(self).capacity() == old(self).capacity(),
            final(self).slots_bytes() == old(self).slots_bytes(),
            match r {
                Ok(c) => {
                    &&& count <= old(self).capacity()
                    &&& c == start.wrapping_add(count)
                    &&& final(self).cursor() == c
                },
                Err(e) => {
                    &&& count > old(self).capacity()
                    &&& e == (RingError::BatchOverflow { batch: count })
                    &&& *final(self) == *old(self)
                },
            },
    {
        if count > self.capacity as u64 {
            return Err(RingError::BatchOverflow { batch: count });
        }
        let next = start.wrapping_add(count);
        self.header.store(next);
        Ok(next)
    }

    /// Fills consecutive slots from `start`, then commits once. Succeeds
    /// exactly when the batch is within capacity and every packet fits a
    /// slot. An oversized packet fails the whole call before the commit:
    /// the cursor is untouched, though earlier packets already sit in
    /// their slots.
    pub fn write_batch(&mut self, start: u64, packets: &Vec<Vec<u8>>) -> (r: Result<
        u64,
        RingError,
    >)
        requires
            old(self).wf(),
        ensures
            final(self).wf(),
            final(self).capacity() == old(self).capacity(),
            r is Ok <==> (packets@.len() <= old(self).capacity() && forall|i: int|
                0 <= i < packets@.len() ==> #[trigger] packets@[i]@.len() <= SLOT_SIZE),
            match r {
                Ok(c) => {
                    &&& packets@.len() <= old(self).capacity()
                    &&& forall|i: int| 0 <= i < packets@.len() ==> #[trigger] packets@[i]@.len() <= SLOT_SIZE
                    &&& c == start.wrapping_add(packets@.len() as u64)
                    &&& final(self).cursor() == c
                    &&& forall|i: int|
                        0 <= i < packets@.len() ==> final(self).slot_bytes(
                            old(self).slot_of(start.wrapping_add(i as u64)),
                        ) == spec_padded_slot(#[trigger] packets@[i]@)
                    &&& forall|k: int|
                        0 <= k < old(self).capacity() && (forall|t: int|
                            0 <= t < packets@.len() ==> k != #[trigger] old(self).slot_of(
                                start.wrapping_add(t as u64),
                            )) ==> #[trigger] final(self).slot_bytes(k) == old(self).slot_bytes(k)
                },
                Err(e) => {
                    &&& final(self).cursor() == old(self).cursor()
                    &&& if packets@.len() > old(self).capacity() {
                        &&& e == (RingError::BatchOverflow { batch: packets@.len() as u64 })
                        &&& *final(self) == *old(self)
                    } else {
                        exists|j: int|
                            {
                                &&& 0 <= j < packets@.len()
                                &&& #[trigger] packets@[j]@.len() > SLOT_SIZE
                                &&& (forall|t: int|
                                    0 <= t < j ==> #[trigger] packets@[t]@.len() <= SLOT_SIZE)
                                &&& e == (RingError::PacketTooLarge {
                                    got: packets@[j]@.len() as usize,
                                    max: SLOT_SIZE,
                                })
                                &&& forall|t: int|
                                    0 <= t < j ==> final(self).slot_bytes(
                                        old(self).slot_of(start.wrapping_add(t as u64)),
                                    ) == spec_padded_slot(#[trigger] packets@[t]@)
                            }
                    }
                },
            },
    {
        let count: u64 = packets.len() as u64;
        if count > self.capacity as u64 {
            return Err(RingError::BatchOverflow { batch: count });
        }
        let mut i: usize = 0;
        while i < packets.len()
            invariant
                i <= packets@.len(),
                packets@.len() <= self.capacity(),
                self.wf(),
                self.capacity == old(self).capacity,
                self.mask == old(self).mask,
                self.header == old(self).header,
                self.slots.len() == old(self).slots.len(),
                forall|t: int| 0 <= t < i ==> #[trigger] packets@[t]@.len() <= SLOT_SIZE,
                forall|t: int|
                    0 <= t < i ==> self.slot_bytes(
                        old(self).slot_of(start.wrapping_add(t as u64)),
                    ) == spec_padded_slot(#[trigger] packets@[t]@),
                forall|k: int|
                    0 <= k < old(self).capacity() && (forall|t: int|
                        0 <= t < i ==> k != #[trigger] old(self).slot_of(
                            start.wrapping_add(t as u64),
                        )) ==> #[trigger] self.slot_bytes(k) == old(self).slot_bytes(k),
            decreases packets@.len() - i,
        {
            let pkt: &Vec<u8> = &packets[i];
            match self.check_packet_size(pkt.len()) {
                Ok(_) => {},
                Err(e) => {
                    assert(packets@[i as int]@.len() > SLOT_SIZE);
                    return Err(e);
                },
            }
            let cursor_i = start.wrapping_add(i as u64);
            self.write_slot(cursor_i, pkt.as_slice());
            proof {
                assert forall|t: int|
                    0 <= t < i + 1 implies self.slot_bytes(
                    old(self).slot_of(start.wrapping_add(t as u64)),
                ) == spec_padded_slot(#[trigger] packets@[t]@) by {
                    if t < i {
                        lemma_batch_slots_distinct(
                            start,
                            t as u64,
                            i as u64,
                            old(self).capacity as u64,
                        );
                        lemma_mod_division_less_than_divisor(
                            start.wrapping_add(t as u64) as int,
                            old(self).capacity as int,
                        );
                    }
                }
            }
            i += 1;
        }
        let ghost filled = *self;
        let r = self.commit(start, count);
        proof {
            assert forall|k: int|
                0 <= k < old(self).capacity() && (forall|t: int|
                    0 <= t < packets@.len() ==> k != #[trigger] old(self).slot_of(
                        start.wrapping_add(t as u64),
                    )) implies #[trigger] self.slot_bytes(k) == old(self).slot_bytes(k) by {
                assert(filled.slot_bytes(k) == old(self).slot_bytes(k));
                assert(self.slots_bytes() == filled.slots_bytes());
            }
        }
        r
    }

    /// True iff the slowest reader lags the writer by more than the
    /// capacity, meaning unread slots have been overwritten.
    pub fn slow_consumer_alert(&self, slowest_cursor: u64) -> (alert: bool)
        requires
            self.wf(),
        ensures
            alert <==> (self.cursor() > slowest_cursor && self.cursor() - slowest_cursor
                > self.capacity()),
    {
        let write_cursor = self.header.load();
        let lag = write_cursor.saturating_sub(slowest_cursor);
        lag > self.capacity as u64
    }

    /// The flat slot-array bytes, as a reader mapping the region sees them.
    pub fn slots(&self) -> (s: &Vec<u8>)
        ensures
            s@ == self.slots_bytes(),
    {
        &self.slots
    }

    /// The current cursor value, as a telemetry read.
    pub fn load_cursor(&self) -> (c: u64)
        ensures
            c == self.cursor(),
    {
        self.header.load()
    }
}

/// A well-formed writer's slot array spans exactly `capacity` slots, so
/// callers reading the region can index any slot byte.
pub proof fn lemma_region_size(w: &RingWriter)
    requires
        w.wf(),
    ensures
        w.slots_bytes().len() == w.capacity() * SLOT_SIZE,
        w.capacity() > 0,
{
}

/// The slot that a publish fills is the one at `(new cursor - 1) mod
/// capacity`: stepping the advanced cursor back by one, wrapping only by
/// `u64` overflow, lands on the slot index that held the payload.
pub proof fn lemma_published_slot_is_cursor_pred(c: u64, cap: u64)
    requires
        pow2_capacity(cap),
    ensures
        c.wrapping_add(1).wrapping_sub(1) == c,
        c.wrapping_add(1).wrapping_sub(1) % cap == c % cap,
{
}

/// The header layout constants stand as the wire contract requires: the
/// raw-variant header is exactly 64 bytes and a whole number of cache
/// lines.
pub proof fn lemma_header_layout()
    ensures
        HEADER_SIZE == 64,
        HEADER_SIZE % 64 == 0,
{
}

} // verus!
