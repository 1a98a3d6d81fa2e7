//! SBE-style binary encoder: little-endian fixed-width fields written into a
//! caller-supplied byte buffer through an advancing cursor, with a bounds
//! check before every write.

use vstd::prelude::*;
use vstd::bytes::*;
use vstd::assert_seqs_equal;

verus! {

/// Error returned when a write would run past the end of the buffer.
#[derive(Debug, PartialEq, Eq, Structural)]
pub enum SbeError {
    BufferOverflow,
}

/// `s` with the `sub.len()` bytes starting at `at` replaced by `sub`.
pub open spec fn splice(s: Seq<u8>, at: int, sub: Seq<u8>) -> Seq<u8>
    recommends
        0 <= at,
        at + sub.len() <= s.len(),
{
    s.subrange(0, at) + sub + s.subrange(at + sub.len(), s.len() as int)
}

/// Two back-to-back splices amount to one splice of the concatenation.
pub proof fn lemma_splice_adjacent(s: Seq<u8>, at: int, a: Seq<u8>, b: Seq<u8>)
    requires
        0 <= at,
        at + a.len() + b.len() <= s.len(),
    ensures
        splice(splice(s, at, a), at + a.len(), b) == splice(s, at, a + b),
{
    assert_seqs_equal!(splice(splice(s, at, a), at + a.len(), b) == splice(s, at, a + b));
}

/// The spliced-in bytes read back unchanged.
pub proof fn lemma_splice_subrange(s: Seq<u8>, at: int, sub: Seq<u8>)
    requires
        0 <= at,
        at + sub.len() <= s.len(),
    ensures
        splice(s, at, sub).subrange(at, at + sub.len()) == sub,
{
    assert_seqs_equal!(splice(s, at, sub).subrange(at, at + sub.len()) == sub);
}

/// Little-endian bytes of an `i32`, as its two's-complement `u32` image.
pub open spec fn spec_i32_to_le_bytes(x: i32) -> Seq<u8> {
    spec_u32_to_le_bytes(x as u32)
}

/// Little-endian bytes of a decimal64 field: 8 mantissa bytes then the
/// exponent byte.
pub open spec fn spec_decimal64_to_le_bytes(mantissa: i64, exponent: i8) -> Seq<u8> {
    spec_u64_to_le_bytes(mantissa as u64).push(exponent as u8)
}

/// Little-endian bytes of the 8-byte SBE message header.
pub open spec fn spec_header_bytes(
    block_length: u16,
    template_id: u16,
    schema_id: u16,
    version: u16,
) -> Seq<u8> {
    spec_u16_to_le_bytes(block_length) + spec_u16_to_le_bytes(template_id)
        + spec_u16_to_le_bytes(schema_id) + spec_u16_to_le_bytes(version)
}

/// Little-endian bytes of the 4-byte repeating-group header.
pub open spec fn spec_group_header_bytes(block_size: u16, num_in_group: u16) -> Seq<u8> {
    spec_u16_to_le_bytes(block_size) + spec_u16_to_le_bytes(num_in_group)
}

/// Writes little-endian fields into an owned byte buffer, advancing a cursor.
pub struct SbeEncoder {
    buf: Vec<u8>,
    cursor: usize,
}

impl SbeEncoder {
    /// The buffer contents.
    pub closed spec fn bytes(&self) -> Seq<u8> {
        self.buf@
    }

    /// The write position.
    pub closed spec fn pos(&self) -> int {
        self.cursor as int
    }

    /// The cursor never runs past the end of the buffer.
    pub closed spec fn wf(&self) -> bool {
        self.cursor <= self.buf.len()
    }

    pub fn new(buf: Vec<u8>) -> (enc: SbeEncoder)
        ensures
            enc.bytes() == buf@,
            enc.pos() == 0,
            enc.wf(),
    {
        SbeEncoder { buf, cursor: 0 }
    }

    pub fn cursor(&self) -> (c: usize)
        ensures
            c == self.pos(),
    {
        self.cursor
    }

    /// Hands the buffer back, ending the encoding session.
    pub fn into_inner(self) -> (buf: Vec<u8>)
        ensures
            buf@ == self.bytes(),
    {
        self.buf
    }

    fn check_bounds(&self, size: usize) -> (r: Result<(), SbeError>)
        requires
            self.wf(),
        ensures
            r is Ok <==> self.pos() + size <= self.bytes().len(),
            r is Err ==> r == Err::<(), SbeError>(SbeError::BufferOverflow),
    {
        if size > self.buf.len() - self.cursor {
            Err(SbeError::BufferOverflow)
        } else {
            Ok(())
        }
    }

    /// Copies `data` to the cursor and advances it, or fails leaving the
    /// encoder unchanged.
    fn put_bytes(&mut self, data: &Vec<u8>) -> (r: Result<(), SbeError>)
        requires
            old(self).wf(),
        ensures
            final(self).wf(),
            match r {
                Ok(_) => {
                    &&& old(self).pos() + data@.len() <= old(self).bytes().len()
                    &&& final(self).pos() == old(self).pos() + data@.len()
                    &&& final(self).bytes() == splice(old(self).bytes(), old(self).pos(), data@)
                },
                Err(e) => {
                    &&& e == SbeError::BufferOverflow
                    &&& old(self).pos() + data@.len() > old(self).bytes().len()
                    &&& *final(self) == *old(self)
                },
            },
    {
        if data.len() > self.buf.len() - self.cursor {
            return Err(SbeError::BufferOverflow);
        }
        let mut i: usize = 0;
        while i < data.len()
            invariant
                i <= data.len(),
                self.cursor == old(self).cursor,
                self.cursor + data.len() <= self.buf.len(),
                self.buf.len() == old(self).buf.len(),
                forall|j: int|
                    0 <= j < self.buf@.len() && !(self.cursor <= j < self.cursor + i)
                        ==> self.buf@[j] == old(self).buf@[j],
                forall|j: int| 0 <= j < i ==> self.buf@[self.cursor + j] == data@[j],
            decreases data.len() - i,
        {
            self.buf[self.cursor + i] = data[i];
            i += 1;
        }
        let ghost pre = *old(self);
        self.cursor = self.cursor + data.len();
        proof {
            assert_seqs_equal!(self.buf@ == splice(pre.buf@, pre.cursor as int, data@));
        }
        Ok(())
    }

    /// Writes the 8-byte SBE message header.
    pub fn write_header(
        &mut self,
        block_length: u16,
        template_id: u16,
        schema_id: u16,
        version: u16,
    ) -> (r: Result<(), SbeError>)
        requires
            old(self).wf(),
        ensures
            final(self).wf(),
            match r {
                Ok(_) => {
                    &&& old(self).pos() + 8 <= old(self).bytes().len()
                    &&& final(self).pos() == old(self).pos() + 8
                    &&& final(self).bytes() == splice(
                        old(self).bytes(),
                        old(self).pos(),
                        spec_header_bytes(block_length, template_id, schema_id, version),
                    )
                },
                Err(e) => {
                    &&& e == SbeError::BufferOverflow
                    &&& old(self).pos() + 8 > old(self).bytes().len()
                    &&& *final(self) == *old(self)
                },
            },
    {
        proof {
            lemma_auto_spec_u16_to_from_le_bytes();
        }
        self.check_bounds(8)?;
        let ghost s0 = *self;
        let r1 = self.write_u16(block_length);
        assert(r1 is Ok);
        let r2 = self.write_u16(template_id);
        assert(r2 is Ok);
        let r3 = self.write_u16(schema_id);
        assert(r3 is Ok);
        let r4 = self.write_u16(version);
        assert(r4 is Ok);
        proof {
            let b = s0.bytes();
            let p = s0.pos();
            let bl = spec_u16_to_le_bytes(block_length);
            let ti = spec_u16_to_le_bytes(template_id);
            let si = spec_u16_to_le_bytes(schema_id);
            let ve = spec_u16_to_le_bytes(version);
            lemma_splice_adjacent(b, p, bl, ti);
            lemma_splice_adjacent(b, p, bl + ti, si);
            lemma_splice_adjacent(b, p, bl + ti + si, ve);
            assert(self.bytes() == splice(b, p, bl + ti + si + ve));
        }
        Ok(())
    }

    pub fn write_u8(&mut self, value: u8) -> (r: Result<(), SbeError>)
        requires
            old(self).wf(),
        ensures
            final(self).wf(),
            match r {
                Ok(_) => {
                    &&& old(self).pos() + 1 <= old(self).bytes().len()
                    &&& final(self).pos() == old(self).pos() + 1
                    &&& final(self).bytes() == splice(old(self).bytes(), old(self).pos(), seq![value])
                },
                Err(e) => {
                    &&& e == SbeError::BufferOverflow
                    &&& old(self).pos() + 1 > old(self).bytes().len()
                    &&& *final(self) == *old(self)
                },
            },
    {
        let mut data: Vec<u8> = Vec::new();
        data.push(value);
        assert(data@ == seq![value]);
        self.put_bytes(&data)
    }

    pub fn write_u16(&mut self, value: u16) -> (r: Result<(), SbeError>)
        requires
            old(self).wf(),
        ensures
            final(self).wf(),
            match r {
                Ok(_) => {
                    &&& old(self).pos() + 2 <= old(self).bytes().len()
                    &&& final(self).pos() == old(self).pos() + 2
                    &&& final(self).bytes() == splice(
                        old(self).bytes(),
                        old(self).pos(),
                        spec_u16_to_le_bytes(value),
                    )
                },
                Err(e) => {
                    &&& e == SbeError::BufferOverflow
                    &&& old(self).pos() + 2 > old(self).bytes().len()
                    &&& *final(self) == *old(self)
                },
            },
    {
        proof {
            lemma_auto_spec_u16_to_from_le_bytes();
        }
        let data = u16_to_le_bytes(value);
        self.put_bytes(&data)
    }

    pub fn write_u32(&mut self, value: u32) -> (r: Result<(), SbeError>)
        requires
            old(self).wf(),
        ensures
            final(self).wf(),
            match r {
                Ok(_) => {
                    &&& old(self).pos() + 4 <= old(self).bytes().len()
                    &&& final(self).pos() == old(self).pos() + 4
                    &&& final(self).bytes() == splice(
                        old(self).bytes(),
                        old(self).pos(),
                        spec_u32_to_le_bytes(value),
                    )
                },
                Err(e) => {
                    &&& e == SbeError::BufferOverflow
                    &&& old(self).pos() + 4 > old(self).bytes().len()
                    &&& *final(self) == *old(self)
                },
            },
    {
        proof {
            lemma_auto_spec_u32_to_from_le_bytes();
        }
        let data = u32_to_le_bytes(value);
        self.put_bytes(&data)
    }

    pub fn write_u64(&mut self, value: u64) -> (r: Result<(), SbeError>)
        requires
            old(self).wf(),
        ensures
            final(self).wf(),
            match r {
                Ok(_) => {
                    &&& old(self).pos() + 8 <= old(self).bytes().len()
                    &&& final(self).pos() == old(self).pos() + 8
                    &&& final(self).bytes() == splice(
                        old(self).bytes(),
                        old(self).pos(),
                        spec_u64_to_le_bytes(value),
                    )
                },
                Err(e) => {
                    &&& e == SbeError::BufferOverflow
                    &&& old(self).pos() + 8 > old(self).bytes().len()
                    &&& *final(self) == *old(self)
                },
            },
    {
        proof {
            lemma_auto_spec_u64_to_from_le_bytes();
        }
        let data = u64_to_le_bytes(value);
        self.put_bytes(&data)
    }

    pub fn write_i32(&mut self, value: i32) -> (r: Result<(), SbeError>)
        requires
            old(self).wf(),
        ensures
            final(self).wf(),
            match r {
                Ok(_) => {
                    &&& old(self).pos() + 4 <= old(self).bytes().len()
                    &&& final(self).pos() == old(self).pos() + 4
                    &&& final(self).bytes() == splice(
                        old(self).bytes(),
                        old(self).pos(),
                        spec_i32_to_le_bytes(value),
                    )
                },
                Err(e) => {
                    &&& e == SbeError::BufferOverflow
                    &&& old(self).pos() + 4 > old(self).bytes().len()
                    &&& *final(self) == *old(self)
                },
            },
    {
        proof {
            lemma_auto_spec_u32_to_from_le_bytes();
        }
        let data = u32_to_le_bytes(value as u32);
        self.put_bytes(&data)
    }

    /// Writes a decimal64 field from an exact mantissa and exponent.
    pub fn write_decimal64_raw(&mut self, mantissa: i64, exponent: i8) -> (r: Result<
        (),
        SbeError,
    >)
        requires
            old(self).wf(),
        ensures
            final(self).wf(),
            match r {
                Ok(_) => {
                    &&& old(self).pos() + 9 <= old(self).bytes().len()
                    &&& final(self).pos() == old(self).pos() + 9
                    &&& final(self).bytes() == splice(
                        old(self).bytes(),
                        old(self).pos(),
                        spec_decimal64_to_le_bytes(mantissa, exponent),
                    )
                },
                Err(e) => {
                    &&& e == SbeError::BufferOverflow
                    &&& old(self).pos() + 9 > old(self).bytes().len()
                    &&& *final(self) == *old(self)
                },
            },
    {
        proof {
            lemma_auto_spec_u64_to_from_le_bytes();
        }
        let mut data = u64_to_le_bytes(mantissa as u64);
        data.push(exponent as u8);
        self.put_bytes(&data)
    }

    /// Writes the 4-byte group header after checking that the whole group
    /// (`4 + block_size * num_in_group` bytes) fits.
    pub fn write_group_header(&mut self, block_size: u16, num_in_group: u16) -> (r: Result<
        (),
        SbeError,
    >)
        requires
            old(self).wf(),
        ensures
            final(self).wf(),
            match r {
                Ok(_) => {
                    &&& old(self).pos() + 4 + block_size * num_in_group
                        <= old(self).bytes().len()
                    &&& final(self).pos() == old(self).pos() + 4
                    &&& final(self).bytes() == splice(
                        old(self).bytes(),
                        old(self).pos(),
                        spec_group_header_bytes(block_size, num_in_group),
                    )
                },
                Err(e) => {
                    &&& e == SbeError::BufferOverflow
                    &&& old(self).pos() + 4 + block_size * num_in_group
                        > old(self).bytes().len()
                    &&& *final(self) == *old(self)
                },
            },
    {
        proof {
            lemma_auto_spec_u16_to_from_le_bytes();
        }
        let bs: u64 = block_size as u64;
        let n: u64 = num_in_group as u64;
        proof {
            assert(bs * n <= 0xFFFF * 0xFFFF) by (nonlinear_arith)
                requires
                    bs <= 0xFFFF,
                    n <= 0xFFFF,
            ;
        }
        let total: u64 = 4 + bs * n;
        let remaining: u64 = (self.buf.len() as u64) - (self.cursor as u64);
        if total > remaining {
            return Err(SbeError::BufferOverflow);
        }
        let ghost s0 = *self;
        let r1 = self.write_u16(block_size);
        assert(r1 is Ok);
        let r2 = self.write_u16(num_in_group);
        assert(r2 is Ok);
        proof {
            lemma_splice_adjacent(
                s0.bytes(),
                s0.pos(),
                spec_u16_to_le_bytes(block_size),
                spec_u16_to_le_bytes(num_in_group),
            );
        }
        Ok(())
    }

    /// Runs the entry writer for indices `i..num_in_group`, threading the
    /// encoder through one call per index, in increasing order.
    /// Runs the entry writer for indices `i..num_in_group`, threading the
    /// encoder through one call per index, in increasing order.
    fn write_group_entries<F: Fn(usize, &mut SbeEncoder) -> Result<(), SbeError>>(
        &mut self,
        i: u16,
        num_in_group: u16,
        f: &F,
    ) -> (r: Result<(), SbeError>)
        requires
            old(self).wf(),
            i <= num_in_group,
            forall|k: usize, e: &mut SbeEncoder|
                k < num_in_group && (*e).wf() ==> call_requires(*f, (k, e)),
            forall|k: usize, e: &mut SbeEncoder, rr: Result<(), SbeError>|
                call_ensures(*f, (k, e), rr) && (*e).wf() ==> {
                    &&& (*final(e)).wf()
                    &&& (*final(e)).bytes().len() == (*e).bytes().len()
                    &&& (*final(e)).pos() >= (*e).pos()
                    &&& (*final(e)).bytes().subrange(0, (*e).pos()) == (*e).bytes().subrange(
                        0,
                        (*e).pos(),
                    )
                },
        ensures
            final(self).wf(),
            final(self).bytes().len() == old(self).bytes().len(),
            final(self).pos() >= old(self).pos(),
            final(self).bytes().subrange(0, old(self).pos()) == old(self).bytes().subrange(
                0,
                old(self).pos(),
            ),
            i == num_in_group ==> r is Ok && *final(self) == *old(self),
            r is Err ==> r == Err::<(), SbeError>(SbeError::BufferOverflow),
        decreases num_in_group - i,
    {
        if i == num_in_group {
            return Ok(());
        }
        let ghost pre = *self;
        let res = (*f)(i as usize, self);
        proof {
            assert(self.bytes().len() == pre.bytes().len());
            assert(self.bytes().subrange(0, pre.pos()) == pre.bytes().subrange(0, pre.pos()));
        }
        match res {
            Ok(_) => {},
            Err(e) => {
                proof {
                    assert(e == SbeError::BufferOverflow);
                }
                return Err(e);
            },
        }
        let ghost mid = *self;
        let r_rest = self.write_group_entries(i + 1, num_in_group, f);
        proof {
            assert_seqs_equal!(self.bytes().subrange(0, pre.pos())
                == pre.bytes().subrange(0, pre.pos()), j => {
                assert(self.bytes().subrange(0, mid.pos())[j]
                    == mid.bytes().subrange(0, mid.pos())[j]);
            });
        }
        r_rest
    }

    /// Writes the group header, then hands the encoder to `f` once per
    /// entry, for indices `0..num_in_group` in increasing order. Each
    /// entry writer is expected to emit exactly `block_size` bytes; that
    /// bound is the caller's obligation and is not enforced here. The
    /// caller warrants that `f` acts like a run of encoder writes: it
    /// keeps the encoder well formed, neither grows nor shrinks the
    /// buffer, never moves the cursor backwards, and leaves the bytes
    /// before its starting cursor alone. When the pre-check fails no
    /// entry writer runs and the encoder is untouched; an error after
    /// the pre-check can only come from an entry writer, so an empty
    /// group that fits always succeeds.
    pub fn write_group<F: Fn(usize, &mut SbeEncoder) -> Result<(), SbeError>>(
        &mut self,
        block_size: u16,
        num_in_group: u16,
        f: F,
    ) -> (r: Result<(), SbeError>)
        requires
            old(self).wf(),
            forall|i: usize, e: &mut SbeEncoder|
                i < num_in_group && (*e).wf() ==> call_requires(f, (i, e)),
            forall|i: usize, e: &mut SbeEncoder, rr: Result<(), SbeError>|
                call_ensures(f, (i, e), rr) && (*e).wf() ==> {
                    &&& (*final(e)).wf()
                    &&& (*final(e)).bytes().len() == (*e).bytes().len()
                    &&& (*final(e)).pos() >= (*e).pos()
                    &&& (*final(e)).bytes().subrange(0, (*e).pos()) == (*e).bytes().subrange(
                        0,
                        (*e).pos(),
                    )
                },
        ensures
            final(self).wf(),
            final(self).bytes().len() == old(self).bytes().len(),
            r is Err ==> r == Err::<(), SbeError>(SbeError::BufferOverflow),
            old(self).pos() + 4 + block_size * num_in_group > old(self).bytes().len() ==> r is Err
                && *final(self) == *old(self),
            num_in_group == 0 && old(self).pos() + 4 <= old(self).bytes().len() ==> r is Ok,
            r is Err && old(self).pos() + 4 + block_size * num_in_group <= old(
                self,
            ).bytes().len() ==> num_in_group > 0,
            r is Ok ==> {
                &&& old(self).pos() + 4 + block_size * num_in_group <= old(self).bytes().len()
                &&& final(self).pos() >= old(self).pos() + 4
                &&& final(self).bytes().subrange(old(self).pos(), old(self).pos() + 4)
                    == spec_group_header_bytes(block_size, num_in_group)
                &&& final(self).bytes().subrange(0, old(self).pos()) == old(self).bytes().subrange(
                    0,
                    old(self).pos(),
                )
            },
    {
        proof {
            lemma_auto_spec_u16_to_from_le_bytes();
        }
        self.write_group_header(block_size, num_in_group)?;
        let ghost s1 = *self;
        let r = self.write_group_entries(0, num_in_group, &f);
        proof {
            lemma_splice_subrange(
                old(self).bytes(),
                old(self).pos(),
                spec_group_header_bytes(block_size, num_in_group),
            );
            assert_seqs_equal!(self.bytes().subrange(old(self).pos(), old(self).pos() + 4)
                == s1.bytes().subrange(old(self).pos(), old(self).pos() + 4), j => {
                assert(self.bytes().subrange(0, s1.pos())[j + old(self).pos()]
                    == s1.bytes().subrange(0, s1.pos())[j + old(self).pos()]);
            });
            assert_seqs_equal!(self.bytes().subrange(0, old(self).pos())
                == old(self).bytes().subrange(0, old(self).pos()), j => {
                assert(self.bytes().subrange(0, s1.pos())[j]
                    == s1.bytes().subrange(0, s1.pos())[j]);
            });
        }
        r
    }
}

/// A well-formed encoder's cursor sits within its buffer.
pub proof fn lemma_encoder_bounds(enc: &SbeEncoder)
    requires
        enc.wf(),
    ensures
        0 <= enc.pos() <= enc.bytes().len(),
{
}

/// Reading a `u16` back from where it was written yields the value.
pub proof fn lemma_u16_round_trip(s: Seq<u8>, at: int, v: u16)
    requires
        0 <= at,
        at + 2 <= s.len(),
    ensures
        spec_u16_from_le_bytes(
            splice(s, at, spec_u16_to_le_bytes(v)).subrange(at, at + 2),
        ) == v,
{
    lemma_auto_spec_u16_to_from_le_bytes();
    lemma_splice_subrange(s, at, spec_u16_to_le_bytes(v));
}

/// Reading a `u32` back from where it was written yields the value.
pub proof fn lemma_u32_round_trip(s: Seq<u8>, at: int, v: u32)
    requires
        0 <= at,
        at + 4 <= s.len(),
    ensures
        spec_u32_from_le_bytes(
            splice(s, at, spec_u32_to_le_bytes(v)).subrange(at, at + 4),
        ) == v,
{
    lemma_auto_spec_u32_to_from_le_bytes();
    lemma_splice_subrange(s, at, spec_u32_to_le_bytes(v));
}

/// Reading a `u64` back from where it was written yields the value.
pub proof fn lemma_u64_round_trip(s: Seq<u8>, at: int, v: u64)
    requires
        0 <= at,
        at + 8 <= s.len(),
    ensures
        spec_u64_from_le_bytes(
            splice(s, at, spec_u64_to_le_bytes(v)).subrange(at, at + 8),
        ) == v,
{
    lemma_auto_spec_u64_to_from_le_bytes();
    lemma_splice_subrange(s, at, spec_u64_to_le_bytes(v));
}

/// Reading an `i32` back through its unsigned image yields the value.
pub proof fn lemma_i32_round_trip(s: Seq<u8>, at: int, v: i32)
    requires
        0 <= at,
        at + 4 <= s.len(),
    ensures
        spec_u32_from_le_bytes(
            splice(s, at, spec_i32_to_le_bytes(v)).subrange(at, at + 4),
        ) as i32 == v,
{
    lemma_auto_spec_u32_to_from_le_bytes();
    lemma_splice_subrange(s, at, spec_i32_to_le_bytes(v));
    assert((v as u32) as i32 == v) by (bit_vector);
}

/// Reading a decimal64 back from where it was written yields the exact
/// mantissa and exponent.
pub proof fn lemma_decimal64_round_trip(s: Seq<u8>, at: int, m: i64, e: i8)
    requires
        0 <= at,
        at + 9 <= s.len(),
    ensures
        spec_u64_from_le_bytes(
            splice(s, at, spec_decimal64_to_le_bytes(m, e)).subrange(at, at + 8),
        ) as i64 == m,
        splice(s, at, spec_decimal64_to_le_bytes(m, e))[at + 8] as i8 == e,
{
    lemma_auto_spec_u64_to_from_le_bytes();
    lemma_splice_subrange(s, at, spec_decimal64_to_le_bytes(m, e));
    let full = splice(s, at, spec_decimal64_to_le_bytes(m, e));
    assert_seqs_equal!(full.subrange(at, at + 8) == spec_u64_to_le_bytes(m as u64));
    assert((m as u64) as i64 == m) by (bit_vector);
    assert(((e as u8) as i8) == e) by (bit_vector);
}

} // verus!
