//! The wire buffer: a growable byte buffer with a read/write cursor and a
//! side-list of byte offsets where transferable object records sit.
//!
//! All scalar traffic is placed at 4-byte-aligned offsets with zero padding,
//! so a well-formed buffer produced by the typed layer always has a length
//! that is a multiple of four. The cursor never exceeds the buffer length,
//! and every recorded object offset leaves room for a whole object record.

use vstd::prelude::*;
use vstd::bytes::*;
use vstd::slice::*;

use crate::error::StatusCode;
use crate::PARCEL_MAX;

verus! {

/// Byte length of an encoded transferable-object record (type tag, flags,
/// 64-bit payload, 64-bit cookie).
pub const OBJECT_RECORD_SIZE: usize = 24;

/// `n` rounded up to the next multiple of 4.
pub open spec fn pad4(n: int) -> int {
    if n % 4 == 0 {
        n
    } else {
        n + (4 - n % 4)
    }
}

/// A sequence of `n` zero bytes.
pub open spec fn zero_bytes(n: int) -> Seq<u8> {
    Seq::new(n as nat, |i: int| 0u8)
}

/// `data` with `b` written over it starting at `pos`: bytes before `pos`
/// keep their value, the written range holds `b`, and any bytes of `data`
/// past the written range keep their value.
pub open spec fn splice_bytes(data: Seq<u8>, pos: int, b: Seq<u8>) -> Seq<u8>
    recommends
        0 <= pos <= data.len(),
{
    data.take(pos) + b + (if pos + b.len() < data.len() {
        data.skip(pos + b.len())
    } else {
        Seq::empty()
    })
}

/// The little-endian bytes of a 32-bit signed value (two's complement).
pub open spec fn spec_i32_to_le(v: i32) -> Seq<u8> {
    spec_u32_to_le_bytes(v as u32)
}

/// The 32-bit signed value read from four little-endian bytes.
pub open spec fn spec_i32_from_le(s: Seq<u8>) -> i32
    recommends
        s.len() == 4,
{
    spec_u32_from_le_bytes(s) as i32
}

/// A 32-bit signed value survives the trip through its unsigned
/// two's-complement wire form.
pub proof fn lemma_i32_round_trip(v: i32)
    ensures
        (v as u32) as i32 == v,
{
    assert((v as u32) as i32 == v) by (bit_vector);
}

/// Reading back four little-endian bytes written from a 32-bit signed value
/// yields that value.
pub proof fn lemma_i32_le_round_trip(v: i32)
    ensures
        spec_i32_to_le(v).len() == 4,
        spec_i32_from_le(spec_i32_to_le(v)) == v,
{
    lemma_auto_spec_u32_to_from_le_bytes();
    let u = v as u32;
    assert(spec_u32_to_le_bytes(u).len() == 4 && spec_u32_from_le_bytes(spec_u32_to_le_bytes(u))
        == u);
    lemma_i32_round_trip(v);
}

/// A growable byte buffer with a cursor and the offsets of the transferable
/// object records embedded in it.
#[derive(Debug)]
pub struct Parcel {
    /// The payload bytes.
    pub data: Vec<u8>,
    /// The read/write cursor ("data position").
    pub pos: usize,
    /// Byte offsets into `data` where transferable object records start.
    pub objects: Vec<u64>,
}

impl Parcel {
    /// Well-formedness: the cursor stays within the buffer, the buffer stays
    /// within the wire-format size bound, and each recorded object offset
    /// leaves room for a whole object record.
    pub open spec fn wf(&self) -> bool {
        &&& self.pos <= self.data@.len()
        &&& self.data@.len() <= PARCEL_MAX
        &&& forall|i: int|
            0 <= i < self.objects@.len() ==> self.objects@[i] + OBJECT_RECORD_SIZE
                <= self.data@.len()
    }

    /// Whether the cursor stands at the end of the buffer, where writes append.
    pub open spec fn at_end(&self) -> bool {
        self.pos == self.data@.len()
    }

    /// A new, empty buffer.
    pub fn new() -> (p: Parcel)
        ensures
            p.wf(),
            p.data@ == Seq::<u8>::empty(),
            p.pos == 0,
            p.objects@ == Seq::<u64>::empty(),
    {
        Parcel { data: Vec::new(), pos: 0, objects: Vec::new() }
    }

    /// A buffer wrapped around existing payload bytes and object offsets,
    /// with the cursor at the start; rejected unless the offsets are in
    /// bounds and the payload is within the size bound.
    pub fn from_parts(data: Vec<u8>, objects: Vec<u64>) -> (r: Result<Parcel, StatusCode>)
        ensures
            r is Ok <==> (data@.len() <= PARCEL_MAX && (forall|i: int|
                0 <= i < objects@.len() ==> objects@[i] + OBJECT_RECORD_SIZE <= data@.len())),
            r is Ok ==> {
                &&& r->Ok_0.wf()
                &&& r->Ok_0.data@ == data@
                &&& r->Ok_0.pos == 0
                &&& r->Ok_0.objects@ == objects@
            },
            r is Err ==> r->Err_0 == StatusCode::BadValue,
    {
        if data.len() > PARCEL_MAX {
            return Err(StatusCode::BadValue);
        }
        let mut i: usize = 0;
        while i < objects.len()
            invariant
                i <= objects@.len(),
                data@.len() <= PARCEL_MAX,
                forall|j: int|
                    0 <= j < i ==> objects@[j] + OBJECT_RECORD_SIZE <= data@.len(),
            decreases objects@.len() - i,
        {
            let o = objects[i];
            if o > (data.len() as u64) || (data.len() as u64) - o < OBJECT_RECORD_SIZE as u64 {
                proof {
                    assert(objects@[i as int] + OBJECT_RECORD_SIZE > data@.len());
                }
                return Err(StatusCode::BadValue);
            }
            i += 1;
        }
        Ok(Parcel { data, pos: 0, objects })
    }

    /// The number of payload bytes in the buffer.
    pub fn len(&self) -> (n: usize)
        ensures
            n == self.data@.len(),
    {
        self.data.len()
    }

    /// Whether no unread data remains past the cursor.
    pub fn is_empty(&self) -> (b: bool)
        ensures
            b == (self.pos >= self.data@.len()),
    {
        self.pos >= self.data.len()
    }

    /// The cursor position.
    pub fn data_position(&self) -> (n: usize)
        ensures
            n == self.pos,
    {
        self.pos
    }

    /// Repositions the cursor, for random-access patches such as
    /// backpatching a length field after variable-length content.
    pub fn set_data_position(&mut self, new_pos: usize)
        requires
            old(self).wf(),
            new_pos <= old(self).data@.len(),
        ensures
            final(self).wf(),
            final(self).data@ == old(self).data@,
            final(self).objects@ == old(self).objects@,
            final(self).pos == new_pos,
    {
        self.pos = new_pos;
    }

    /// Empties the buffer: no payload, no object offsets, cursor at zero.
    pub fn clear(&mut self)
        ensures
            final(self).wf(),
            final(self).data@ == Seq::<u8>::empty(),
            final(self).pos == 0,
            final(self).objects@ == Seq::<u64>::empty(),
    {
        self.data.clear();
        self.objects.clear();
        self.pos = 0;
    }

    /// Writes raw bytes at the cursor, overwriting what is there and growing
    /// the buffer as needed; fails only when the result would exceed the
    /// wire-format size bound, leaving the buffer untouched.
    pub fn write_data(&mut self, b: &[u8]) -> (r: Result<(), StatusCode>)
        requires
            old(self).wf(),
        ensures
            final(self).wf(),
            final(self).objects@ == old(self).objects@,
            r is Ok <==> old(self).pos + b@.len() <= PARCEL_MAX,
            r is Ok ==> {
                &&& final(self).data@ == splice_bytes(old(self).data@, old(self).pos as int, b@)
                &&& final(self).pos == old(self).pos + b@.len()
            },
            r is Err ==> *final(self) == *old(self),
    {
        if b.len() > PARCEL_MAX - self.pos {
            return Err(StatusCode::NoMemory);
        }
        let end = self.pos + b.len();
        let ghost full = if end > old(self).data@.len() {
            end as int
        } else {
            old(self).data@.len() as int
        };
        while self.data.len() < end
            invariant
                old(self).data@.len() <= self.data@.len() <= full,
                end <= full <= PARCEL_MAX,
                end == old(self).pos + b@.len(),
                full == (if end > old(self).data@.len() {
                    end as int
                } else {
                    old(self).data@.len() as int
                }),
                self.pos == old(self).pos,
                self.objects == old(self).objects,
                forall|k: int|
                    0 <= k < old(self).data@.len() ==> self.data@[k] == old(self).data@[k],
                forall|k: int|
                    old(self).data@.len() <= k < self.data@.len() ==> self.data@[k] == 0u8,
            decreases end - self.data@.len(),
        {
            self.data.push(0u8);
        }
        let mut i: usize = 0;
        while i < b.len()
            invariant
                i <= b@.len(),
                self.data@.len() == full,
                end <= full <= PARCEL_MAX,
                end == old(self).pos + b@.len(),
                full == (if end > old(self).data@.len() {
                    end as int
                } else {
                    old(self).data@.len() as int
                }),
                self.pos == old(self).pos,
                self.pos <= old(self).data@.len(),
                self.objects == old(self).objects,
                forall|k: int| 0 <= k < self.pos ==> self.data@[k] == old(self).data@[k],
                forall|k: int|
                    self.pos <= k < self.pos + i ==> self.data@[k] == b@[k - self.pos],
                forall|k: int|
                    self.pos + i <= k < self.data@.len() ==> self.data@[k] == (if k < old(
                        self,
                    ).data@.len() {
                        old(self).data@[k]
                    } else {
                        0u8
                    }),
            decreases b@.len() - i,
        {
            let idx = self.pos + i;
            self.data[idx] = b[i];
            i += 1;
        }
        proof {
            assert(self.data@ =~= splice_bytes(old(self).data@, old(self).pos as int, b@));
        }
        self.pos = end;
        Ok(())
    }

    /// Writes a 32-bit unsigned value as four little-endian bytes at the
    /// cursor, which must be 4-byte aligned.
    pub fn write_u32_aligned(&mut self, v: u32) -> (r: Result<(), StatusCode>)
        requires
            old(self).wf(),
            old(self).pos % 4 == 0,
        ensures
            final(self).wf(),
            final(self).objects@ == old(self).objects@,
            r is Ok <==> old(self).pos + 4 <= PARCEL_MAX,
            r is Ok ==> {
                &&& final(self).data@ == splice_bytes(
                    old(self).data@,
                    old(self).pos as int,
                    spec_u32_to_le_bytes(v),
                )
                &&& final(self).pos == old(self).pos + 4
                &&& final(self).pos % 4 == 0
            },
            r is Err ==> *final(self) == *old(self),
    {
        proof {
            lemma_auto_spec_u32_to_from_le_bytes();
        }
        let bytes = u32_to_le_bytes(v);
        self.write_data(bytes.as_slice())
    }

    /// Writes a 32-bit signed value as four little-endian two's-complement
    /// bytes at the cursor, which must be 4-byte aligned.
    pub fn write_i32_aligned(&mut self, v: i32) -> (r: Result<(), StatusCode>)
        requires
            old(self).wf(),
            old(self).pos % 4 == 0,
        ensures
            final(self).wf(),
            final(self).objects@ == old(self).objects@,
            r is Ok <==> old(self).pos + 4 <= PARCEL_MAX,
            r is Ok ==> {
                &&& final(self).data@ == splice_bytes(
                    old(self).data@,
                    old(self).pos as int,
                    spec_i32_to_le(v),
                )
                &&& final(self).pos == old(self).pos + 4
                &&& final(self).pos % 4 == 0
            },
            r is Err ==> *final(self) == *old(self),
    {
        self.write_u32_aligned(v as u32)
    }

    /// Writes a 64-bit unsigned value as eight little-endian bytes at the
    /// cursor, which must be 4-byte aligned.
    pub fn write_u64_aligned(&mut self, v: u64) -> (r: Result<(), StatusCode>)
        requires
            old(self).wf(),
            old(self).pos % 4 == 0,
        ensures
            final(self).wf(),
            final(self).objects@ == old(self).objects@,
            r is Ok <==> old(self).pos + 8 <= PARCEL_MAX,
            r is Ok ==> {
                &&& final(self).data@ == splice_bytes(
                    old(self).data@,
                    old(self).pos as int,
                    spec_u64_to_le_bytes(v),
                )
                &&& final(self).pos == old(self).pos + 8
                &&& final(self).pos % 4 == 0
            },
            r is Err ==> *final(self) == *old(self),
    {
        proof {
            lemma_auto_spec_u64_to_from_le_bytes();
        }
        let bytes = u64_to_le_bytes(v);
        self.write_data(bytes.as_slice())
    }

    /// Appends raw bytes followed by zero padding up to the next 4-byte
    /// boundary; the cursor must stand aligned at the end of the buffer.
    #[verifier::rlimit(40)]
    pub fn write_aligned_data(&mut self, b: &[u8]) -> (r: Result<(), StatusCode>)
        requires
            old(self).wf(),
            old(self).at_end(),
            old(self).pos % 4 == 0,
        ensures
            final(self).wf(),
            final(self).objects@ == old(self).objects@,
            r is Ok <==> old(self).pos + pad4(b@.len() as int) <= PARCEL_MAX,
            r is Ok ==> {
                &&& final(self).data@ == old(self).data@ + b@ + zero_bytes(
                    pad4(b@.len() as int) - b@.len(),
                )
                &&& final(self).at_end()
                &&& final(self).pos % 4 == 0
                &&& final(self).pos == old(self).pos + pad4(b@.len() as int)
            },
            r is Err ==> *final(self) == *old(self),
    {
        if b.len() > PARCEL_MAX {
            return Err(StatusCode::NoMemory);
        }
        let rem = b.len() % 4;
        let padded = if rem == 0 {
            b.len()
        } else {
            b.len() + (4 - rem)
        };
        if padded > PARCEL_MAX - self.pos {
            return Err(StatusCode::NoMemory);
        }
        let ghost base = self.data@;
        let res = self.write_data(b);
        proof {
            assert(res is Ok);
            assert(self.data@ =~= base + b@);
        }
        let ghost filled = self.data@;
        while self.data.len() % 4 != 0
            invariant
                self.wf(),
                filled.len() <= self.data@.len() <= base.len() + pad4(b@.len() as int),
                filled == base + b@,
                forall|k: int| 0 <= k < filled.len() ==> self.data@[k] == filled[k],
                forall|k: int| filled.len() <= k < self.data@.len() ==> self.data@[k] == 0u8,
                self.pos == self.data@.len(),
                self.objects@ == old(self).objects@,
                base.len() % 4 == 0,
                base.len() + pad4(b@.len() as int) <= PARCEL_MAX,
            decreases base.len() + pad4(b@.len() as int) - self.data@.len(),
        {
            self.data.push(0u8);
            self.pos = self.data.len();
        }
        proof {
            assert(self.data@.len() == base.len() + pad4(b@.len() as int));
            assert(self.data@ =~= base + b@ + zero_bytes(
                pad4(b@.len() as int) - b@.len(),
            ));
        }
        Ok(())
    }

    /// Reads a 32-bit unsigned value from four little-endian bytes at the
    /// cursor; fails when fewer than four unread bytes remain.
    pub fn read_u32_aligned(&mut self) -> (r: Result<u32, StatusCode>)
        requires
            old(self).wf(),
        ensures
            final(self).wf(),
            final(self).data@ == old(self).data@,
            final(self).objects@ == old(self).objects@,
            r is Ok <==> old(self).pos + 4 <= old(self).data@.len(),
            r is Ok ==> {
                &&& r->Ok_0 == spec_u32_from_le_bytes(
                    old(self).data@.subrange(old(self).pos as int, old(self).pos + 4),
                )
                &&& final(self).pos == old(self).pos + 4
            },
            r is Err ==> r->Err_0 == StatusCode::NotEnoughData && *final(self) == *old(self),
    {
        if self.data.len() - self.pos < 4 {
            return Err(StatusCode::NotEnoughData);
        }
        let s = slice_subrange(self.data.as_slice(), self.pos, self.pos + 4);
        let v = u32_from_le_bytes(s);
        self.pos = self.pos + 4;
        Ok(v)
    }

    /// Reads a 32-bit signed value from four little-endian two's-complement
    /// bytes at the cursor; fails when fewer than four unread bytes remain.
    pub fn read_i32_aligned(&mut self) -> (r: Result<i32, StatusCode>)
        requires
            old(self).wf(),
        ensures
            final(self).wf(),
            final(self).data@ == old(self).data@,
            final(self).objects@ == old(self).objects@,
            r is Ok <==> old(self).pos + 4 <= old(self).data@.len(),
            r is Ok ==> {
                &&& r->Ok_0 == spec_i32_from_le(
                    old(self).data@.subrange(old(self).pos as int, old(self).pos + 4),
                )
                &&& final(self).pos == old(self).pos + 4
            },
            r is Err ==> r->Err_0 == StatusCode::NotEnoughData && *final(self) == *old(self),
    {
        match self.read_u32_aligned() {
            Ok(v) => Ok(v as i32),
            Err(e) => Err(e),
        }
    }

    /// Reads a 64-bit unsigned value from eight little-endian bytes at the
    /// cursor; fails when fewer than eight unread bytes remain.
    pub fn read_u64_aligned(&mut self) -> (r: Result<u64, StatusCode>)
        requires
            old(self).wf(),
        ensures
            final(self).wf(),
            final(self).data@ == old(self).data@,
            final(self).objects@ == old(self).objects@,
            r is Ok <==> old(self).pos + 8 <= old(self).data@.len(),
            r is Ok ==> {
                &&& r->Ok_0 == spec_u64_from_le_bytes(
                    old(self).data@.subrange(old(self).pos as int, old(self).pos + 8),
                )
                &&& final(self).pos == old(self).pos + 8
            },
            r is Err ==> r->Err_0 == StatusCode::NotEnoughData && *final(self) == *old(self),
    {
        if self.data.len() - self.pos < 8 {
            return Err(StatusCode::NotEnoughData);
        }
        let s = slice_subrange(self.data.as_slice(), self.pos, self.pos + 8);
        let v = u64_from_le_bytes(s);
        self.pos = self.pos + 8;
        Ok(v)
    }

    /// Reads `len` raw bytes at the cursor and advances past them and their
    /// zero padding to the next 4-byte boundary; fails when the padded range
    /// runs past the end of the buffer.
    pub fn read_aligned_data(&mut self, len: usize) -> (r: Result<Vec<u8>, StatusCode>)
        requires
            old(self).wf(),
        ensures
            final(self).wf(),
            final(self).data@ == old(self).data@,
            final(self).objects@ == old(self).objects@,
            r is Ok <==> old(self).pos + pad4(len as int) <= old(self).data@.len(),
            r is Ok ==> {
                &&& r->Ok_0@ == old(self).data@.subrange(old(self).pos as int, old(self).pos + len)
                &&& final(self).pos == old(self).pos + pad4(len as int)
            },
            r is Err ==> r->Err_0 == StatusCode::NotEnoughData && *final(self) == *old(self),
    {
        if len > self.data.len() - self.pos {
            return Err(StatusCode::NotEnoughData);
        }
        let rem = len % 4;
        let padded = if rem == 0 {
            len
        } else {
            len + (4 - rem)
        };
        if padded > self.data.len() - self.pos {
            return Err(StatusCode::NotEnoughData);
        }
        let s = slice_subrange(self.data.as_slice(), self.pos, self.pos + len);
        let out = slice_to_vec(s);
        self.pos = self.pos + padded;
        Ok(out)
    }

    /// The object offsets of `objs` that fall entirely inside `[start, end)`,
    /// each shifted by `delta`.
    pub open spec fn shifted_objects(objs: Seq<u64>, start: int, end: int, delta: int) -> Seq<u64>
        decreases objs.len(),
    {
        if objs.len() == 0 {
            Seq::empty()
        } else {
            let rest = Self::shifted_objects(objs.drop_last(), start, end, delta);
            let o = objs.last();
            if start <= o && o + OBJECT_RECORD_SIZE <= end {
                rest.push((o + delta) as u64)
            } else {
                rest
            }
        }
    }

    /// Copies `len` bytes starting at `start` from a foreign buffer to the
    /// cursor, bringing along the object offsets of records that lie wholly
    /// inside the copied range; the range must lie within the source, or the
    /// copy is rejected.
    pub fn append_from(&mut self, other: &Parcel, start: usize, len: usize) -> (r: Result<
        (),
        StatusCode,
    >)
        requires
            old(self).wf(),
            other.wf(),
        ensures
            final(self).wf(),
            r is Ok ==> {
                &&& start + len <= other.data@.len()
                &&& final(self).data@ == splice_bytes(
                    old(self).data@,
                    old(self).pos as int,
                    other.data@.subrange(start as int, start + len),
                )
                &&& final(self).pos == old(self).pos + len
                &&& final(self).objects@ == old(self).objects@ + Self::shifted_objects(
                    other.objects@,
                    start as int,
                    start + len,
                    old(self).pos - start,
                )
            },
            r is Err ==> {
                &&& *final(self) == *old(self)
                &&& (start + len > other.data@.len() ==> r->Err_0 == StatusCode::BadValue)
            },
            r is Ok <==> (start + len <= other.data@.len() && old(self).pos + len <= PARCEL_MAX),
    {
        if len > other.data.len() || start > other.data.len() - len {
            return Err(StatusCode::BadValue);
        }
        if len > PARCEL_MAX - self.pos {
            return Err(StatusCode::NoMemory);
        }
        let saved_pos = self.pos;
        let src = slice_subrange(other.data.as_slice(), start, start + len);
        let res = self.write_data(src);
        proof {
            assert(res is Ok);
        }
        let end = start + len;
        let ghost delta = saved_pos - start;
        let mut i: usize = 0;
        while i < other.objects.len()
            invariant
                self.wf(),
                i <= other.objects@.len(),
                other.wf(),
                start + len <= other.data@.len(),
                saved_pos == old(self).pos,
                saved_pos + len <= self.data@.len() <= PARCEL_MAX,
                end == start + len,
                delta == saved_pos - start,
                self.data@ == splice_bytes(
                    old(self).data@,
                    old(self).pos as int,
                    other.data@.subrange(start as int, start + len),
                ),
                self.pos == old(self).pos + len,
                self.objects@ == old(self).objects@ + Self::shifted_objects(
                    other.objects@.take(i as int),
                    start as int,
                    start + len,
                    delta,
                ),
            decreases other.objects@.len() - i,
        {
            let o = other.objects[i];
            proof {
                assert(other.objects@.take(i + 1).drop_last() =~= other.objects@.take(i as int));
                assert(other.objects@.take(i + 1).last() == other.objects@[i as int]);
            }
            if (start as u64) <= o && o + (OBJECT_RECORD_SIZE as u64) <= (end as u64) {
                let shifted = o - (start as u64) + (saved_pos as u64);
                self.objects.push(shifted);
            }
            i += 1;
        }
        proof {
            assert(other.objects@.take(other.objects@.len() as int) =~= other.objects@);
        }
        Ok(())
    }
}

} // verus!
