//! The typed serialization layer: a closed capability set of "can be
//! written", "can be read", "can be written/read as an element of a
//! sequence", and "can be written/read as nullable", applied uniformly to
//! primitives, strings, sequences and remote-object references.
//!
//! Every implementation carries its exact wire encoding as a specification:
//! `enc` gives the bytes a value appends, `dec` gives the value (and new
//! cursor) any byte sequence decodes to, and each implementation proves that
//! encodings are a multiple of four bytes long and that decoding inverts
//! encoding.
//!
//! Two independent null conventions coexist by design, for wire
//! compatibility: strings and sequences mark absence with a `-1` length
//! sentinel, everything else with a 0/1 presence flag before the value.

use vstd::prelude::*;
use vstd::bytes::*;

use crate::error::{StatusCode, status_to_i32, status_from_i32};
use crate::parcel::{Parcel, pad4, zero_bytes, spec_i32_to_le, spec_i32_from_le};
use crate::utf16::{encode_utf16, decode_utf16, utf16_encode, utf16_decode};
use crate::binder::{ObjectRef, Stability, BINDER_TYPE_BINDER, BINDER_TYPE_HANDLE};
use crate::parcel::OBJECT_RECORD_SIZE;
use crate::PARCEL_MAX;

verus! {

/// What a byte sequence decodes to at a cursor: a value and the new cursor,
/// or the exact error.
pub enum DecOutcome<V> {
    /// Decoding succeeds with this (abstract) value, leaving the cursor here.
    Found(V, int),
    /// Decoding fails with this status.
    Fail(StatusCode),
}

/// A value whose instances can be written to a wire buffer.
pub trait Serialize {
    /// The bytes this value appends when written at an aligned cursor at the
    /// end of a buffer.
    spec fn enc(&self) -> Seq<u8>;

    /// Whether the value fits the wire format at all (length fields must fit
    /// a 32-bit signed count).
    spec fn enc_ok(&self) -> bool;

    /// The object offsets this value records, given that its encoding starts
    /// at byte `base`.
    spec fn enc_objects(&self, base: int) -> Seq<u64>;

    /// Every encoding is a whole number of 4-byte words: writing keeps the
    /// cursor 4-byte aligned.
    proof fn lemma_enc_aligned(&self)
        ensures
            self.enc_ok() ==> self.enc().len() % 4 == 0,
    ;

    /// Writes this value at the buffer's aligned end cursor; succeeds
    /// exactly when the value is encodable and the result stays within the
    /// wire-format size bound.
    fn serialize(&self, parcel: &mut Parcel) -> (r: Result<(), StatusCode>)
        requires
            old(parcel).wf(),
            old(parcel).at_end(),
            old(parcel).pos % 4 == 0,
        ensures
            final(parcel).wf(),
            final(parcel).at_end(),
            final(parcel).pos % 4 == 0,
            r is Ok <==> (self.enc_ok() && old(parcel).data@.len() + self.enc().len()
                <= PARCEL_MAX),
            r is Ok ==> {
                &&& final(parcel).data@ == old(parcel).data@ + self.enc()
                &&& final(parcel).objects@ == old(parcel).objects@ + self.enc_objects(
                    old(parcel).data@.len() as int,
                )
            },
    ;
}

/// A value whose instances can be restored from a wire buffer.
pub trait Deserialize: Sized + DeepView {
    /// The outcome of decoding this type from `data` at cursor `pos`:
    /// the abstract value and new cursor, or the exact error.
    spec fn dec(data: Seq<u8>, pos: int) -> DecOutcome<Self::V>;

    /// Reads a value of this type at the buffer's cursor; the result and
    /// the new cursor are exactly what `dec` says of the bytes.
    fn deserialize(parcel: &mut Parcel) -> (r: Result<Self, StatusCode>)
        requires
            old(parcel).wf(),
        ensures
            final(parcel).wf(),
            final(parcel).data@ == old(parcel).data@,
            final(parcel).objects@ == old(parcel).objects@,
            match Self::dec(old(parcel).data@, old(parcel).pos as int) {
                DecOutcome::Found(v, p) => {
                    &&& r is Ok
                    &&& r->Ok_0.deep_view() == v
                    &&& final(parcel).pos == p
                },
                DecOutcome::Fail(e) => r is Err && r->Err_0 == e,
            },
    ;

    /// Reads a value of this type onto the current one, overwriting it.
    fn deserialize_from(&mut self, parcel: &mut Parcel) -> (r: Result<(), StatusCode>)
        requires
            old(parcel).wf(),
        ensures
            final(parcel).wf(),
            final(parcel).data@ == old(parcel).data@,
            final(parcel).objects@ == old(parcel).objects@,
            match Self::dec(old(parcel).data@, old(parcel).pos as int) {
                DecOutcome::Found(v, p) => {
                    &&& r is Ok
                    &&& final(self).deep_view() == v
                    &&& final(parcel).pos == p
                },
                DecOutcome::Fail(e) => r is Err && r->Err_0 == e,
            },
    {
        match Self::deserialize(parcel) {
            Ok(v) => {
                *self = v;
                Ok(())
            },
            Err(e) => Err(e),
        }
    }

    /// Round trip: wherever a buffer holds a value's encoding, decoding
    /// yields that value back and stops right after it.
    proof fn lemma_round_trip(v: Self, data: Seq<u8>, pos: int) where Self: Serialize
        requires
            v.enc_ok(),
            0 <= pos,
            pos % 4 == 0,
            pos + v.enc().len() <= data.len(),
            data.subrange(pos, pos + v.enc().len()) == v.enc(),
        ensures
            Self::dec(data, pos) == DecOutcome::Found(v.deep_view(), pos + v.enc().len()),
    ;
}

impl Serialize for u32 {
    open spec fn enc(&self) -> Seq<u8> {
        spec_u32_to_le_bytes(*self)
    }

    open spec fn enc_ok(&self) -> bool {
        true
    }

    open spec fn enc_objects(&self, base: int) -> Seq<u64> {
        Seq::empty()
    }

    proof fn lemma_enc_aligned(&self) {
        lemma_auto_spec_u32_to_from_le_bytes();
    }

    fn serialize(&self, parcel: &mut Parcel) -> (r: Result<(), StatusCode>) {
        proof {
            lemma_auto_spec_u32_to_from_le_bytes();
        }
        let res = parcel.write_u32_aligned(*self);
        proof {
            if res is Ok {
                assert(parcel.data@ =~= old(parcel).data@ + self.enc());
                assert(parcel.objects@ =~= old(parcel).objects@ + self.enc_objects(
                    old(parcel).data@.len() as int,
                ));
            }
        }
        res
    }
}

impl Deserialize for u32 {
    open spec fn dec(data: Seq<u8>, pos: int) -> DecOutcome<u32> {
        if 0 <= pos && pos + 4 <= data.len() {
            DecOutcome::Found(spec_u32_from_le_bytes(data.subrange(pos, pos + 4)), pos + 4)
        } else {
            DecOutcome::Fail(StatusCode::NotEnoughData)
        }
    }

    fn deserialize(parcel: &mut Parcel) -> (r: Result<u32, StatusCode>) {
        parcel.read_u32_aligned()
    }

    proof fn lemma_round_trip(v: u32, data: Seq<u8>, pos: int) {
        lemma_auto_spec_u32_to_from_le_bytes();
        assert(data.subrange(pos, pos + 4) == v.enc());
    }
}

impl Serialize for i32 {
    open spec fn enc(&self) -> Seq<u8> {
        spec_i32_to_le(*self)
    }

    open spec fn enc_ok(&self) -> bool {
        true
    }

    open spec fn enc_objects(&self, base: int) -> Seq<u64> {
        Seq::empty()
    }

    proof fn lemma_enc_aligned(&self) {
        lemma_auto_spec_u32_to_from_le_bytes();
    }

    fn serialize(&self, parcel: &mut Parcel) -> (r: Result<(), StatusCode>) {
        proof {
            lemma_auto_spec_u32_to_from_le_bytes();
        }
        let res = parcel.write_i32_aligned(*self);
        proof {
            if res is Ok {
                assert(parcel.data@ =~= old(parcel).data@ + self.enc());
                assert(parcel.objects@ =~= old(parcel).objects@ + self.enc_objects(
                    old(parcel).data@.len() as int,
                ));
            }
        }
        res
    }
}

impl Deserialize for i32 {
    open spec fn dec(data: Seq<u8>, pos: int) -> DecOutcome<i32> {
        if 0 <= pos && pos + 4 <= data.len() {
            DecOutcome::Found(spec_i32_from_le(data.subrange(pos, pos + 4)), pos + 4)
        } else {
            DecOutcome::Fail(StatusCode::NotEnoughData)
        }
    }

    fn deserialize(parcel: &mut Parcel) -> (r: Result<i32, StatusCode>) {
        parcel.read_i32_aligned()
    }

    proof fn lemma_round_trip(v: i32, data: Seq<u8>, pos: int) {
        crate::parcel::lemma_i32_le_round_trip(v);
        assert(data.subrange(pos, pos + 4) == v.enc());
    }
}

impl Serialize for u64 {
    open spec fn enc(&self) -> Seq<u8> {
        spec_u64_to_le_bytes(*self)
    }

    open spec fn enc_ok(&self) -> bool {
        true
    }

    open spec fn enc_objects(&self, base: int) -> Seq<u64> {
        Seq::empty()
    }

    proof fn lemma_enc_aligned(&self) {
        lemma_auto_spec_u64_to_from_le_bytes();
    }

    fn serialize(&self, parcel: &mut Parcel) -> (r: Result<(), StatusCode>) {
        proof {
            lemma_auto_spec_u64_to_from_le_bytes();
        }
        let res = parcel.write_u64_aligned(*self);
        proof {
            if res is Ok {
                assert(parcel.data@ =~= old(parcel).data@ + self.enc());
                assert(parcel.objects@ =~= old(parcel).objects@ + self.enc_objects(
                    old(parcel).data@.len() as int,
                ));
            }
        }
        res
    }
}

impl Deserialize for u64 {
    open spec fn dec(data: Seq<u8>, pos: int) -> DecOutcome<u64> {
        if 0 <= pos && pos + 8 <= data.len() {
            DecOutcome::Found(spec_u64_from_le_bytes(data.subrange(pos, pos + 8)), pos + 8)
        } else {
            DecOutcome::Fail(StatusCode::NotEnoughData)
        }
    }

    fn deserialize(parcel: &mut Parcel) -> (r: Result<u64, StatusCode>) {
        parcel.read_u64_aligned()
    }

    proof fn lemma_round_trip(v: u64, data: Seq<u8>, pos: int) {
        lemma_auto_spec_u64_to_from_le_bytes();
        assert(data.subrange(pos, pos + 8) == v.enc());
    }
}

/// The little-endian bytes of a 64-bit signed value (two's complement).
pub open spec fn spec_i64_to_le(v: i64) -> Seq<u8> {
    spec_u64_to_le_bytes(v as u64)
}

/// The 64-bit signed value read from eight little-endian bytes.
pub open spec fn spec_i64_from_le(s: Seq<u8>) -> i64
    recommends
        s.len() == 8,
{
    spec_u64_from_le_bytes(s) as i64
}

/// A 64-bit signed value survives the trip through its unsigned
/// two's-complement wire form.
pub proof fn lemma_i64_round_trip(v: i64)
    ensures
        (v as u64) as i64 == v,
{
    assert((v as u64) as i64 == v) by (bit_vector);
}

impl Serialize for i64 {
    open spec fn enc(&self) -> Seq<u8> {
        spec_i64_to_le(*self)
    }

    open spec fn enc_ok(&self) -> bool {
        true
    }

    open spec fn enc_objects(&self, base: int) -> Seq<u64> {
        Seq::empty()
    }

    proof fn lemma_enc_aligned(&self) {
        lemma_auto_spec_u64_to_from_le_bytes();
    }

    fn serialize(&self, parcel: &mut Parcel) -> (r: Result<(), StatusCode>) {
        proof {
            lemma_auto_spec_u64_to_from_le_bytes();
        }
        let res = parcel.write_u64_aligned(*self as u64);
        proof {
            if res is Ok {
                assert(parcel.data@ =~= old(parcel).data@ + self.enc());
                assert(parcel.objects@ =~= old(parcel).objects@ + self.enc_objects(
                    old(parcel).data@.len() as int,
                ));
            }
        }
        res
    }
}

impl Deserialize for i64 {
    open spec fn dec(data: Seq<u8>, pos: int) -> DecOutcome<i64> {
        if 0 <= pos && pos + 8 <= data.len() {
            DecOutcome::Found(spec_i64_from_le(data.subrange(pos, pos + 8)), pos + 8)
        } else {
            DecOutcome::Fail(StatusCode::NotEnoughData)
        }
    }

    fn deserialize(parcel: &mut Parcel) -> (r: Result<i64, StatusCode>) {
        match parcel.read_u64_aligned() {
            Ok(v) => Ok(v as i64),
            Err(e) => Err(e),
        }
    }

    proof fn lemma_round_trip(v: i64, data: Seq<u8>, pos: int) {
        lemma_auto_spec_u64_to_from_le_bytes();
        lemma_i64_round_trip(v);
        assert(data.subrange(pos, pos + 8) == v.enc());
    }
}

impl Serialize for bool {
    open spec fn enc(&self) -> Seq<u8> {
        spec_i32_to_le(
            if *self {
                1i32
            } else {
                0i32
            },
        )
    }

    open spec fn enc_ok(&self) -> bool {
        true
    }

    open spec fn enc_objects(&self, base: int) -> Seq<u64> {
        Seq::empty()
    }

    proof fn lemma_enc_aligned(&self) {
        lemma_auto_spec_u32_to_from_le_bytes();
    }

    fn serialize(&self, parcel: &mut Parcel) -> (r: Result<(), StatusCode>) {
        proof {
            lemma_auto_spec_u32_to_from_le_bytes();
        }
        let v: i32 = if *self {
            1
        } else {
            0
        };
        let res = parcel.write_i32_aligned(v);
        proof {
            if res is Ok {
                assert(parcel.data@ =~= old(parcel).data@ + self.enc());
                assert(parcel.objects@ =~= old(parcel).objects@ + self.enc_objects(
                    old(parcel).data@.len() as int,
                ));
            }
        }
        res
    }
}

impl Deserialize for bool {
    open spec fn dec(data: Seq<u8>, pos: int) -> DecOutcome<bool> {
        if 0 <= pos && pos + 4 <= data.len() {
            DecOutcome::Found(spec_i32_from_le(data.subrange(pos, pos + 4)) != 0, pos + 4)
        } else {
            DecOutcome::Fail(StatusCode::NotEnoughData)
        }
    }

    fn deserialize(parcel: &mut Parcel) -> (r: Result<bool, StatusCode>) {
        match parcel.read_i32_aligned() {
            Ok(v) => Ok(v != 0),
            Err(e) => Err(e),
        }
    }

    proof fn lemma_round_trip(v: bool, data: Seq<u8>, pos: int) {
        crate::parcel::lemma_i32_le_round_trip(
            if v {
                1i32
            } else {
                0i32
            },
        );
        assert(data.subrange(pos, pos + 4) == v.enc());
    }
}

impl Serialize for i8 {
    open spec fn enc(&self) -> Seq<u8> {
        spec_i32_to_le(*self as i32)
    }

    open spec fn enc_ok(&self) -> bool {
        true
    }

    open spec fn enc_objects(&self, base: int) -> Seq<u64> {
        Seq::empty()
    }

    proof fn lemma_enc_aligned(&self) {
        lemma_auto_spec_u32_to_from_le_bytes();
    }

    fn serialize(&self, parcel: &mut Parcel) -> (r: Result<(), StatusCode>) {
        proof {
            lemma_auto_spec_u32_to_from_le_bytes();
        }
        let res = parcel.write_i32_aligned(*self as i32);
        proof {
            if res is Ok {
                assert(parcel.data@ =~= old(parcel).data@ + self.enc());
                assert(parcel.objects@ =~= old(parcel).objects@ + self.enc_objects(
                    old(parcel).data@.len() as int,
                ));
            }
        }
        res
    }
}

impl Deserialize for i8 {
    open spec fn dec(data: Seq<u8>, pos: int) -> DecOutcome<i8> {
        if 0 <= pos && pos + 4 <= data.len() {
            DecOutcome::Found(spec_i32_from_le(data.subrange(pos, pos + 4)) as i8, pos + 4)
        } else {
            DecOutcome::Fail(StatusCode::NotEnoughData)
        }
    }

    fn deserialize(parcel: &mut Parcel) -> (r: Result<i8, StatusCode>) {
        match parcel.read_i32_aligned() {
            Ok(v) => {
                #[verifier::truncate]
                let b = v as i8;
                Ok(b)
            },
            Err(e) => Err(e),
        }
    }

    proof fn lemma_round_trip(v: i8, data: Seq<u8>, pos: int) {
        crate::parcel::lemma_i32_le_round_trip(v as i32);
        assert(data.subrange(pos, pos + 4) == v.enc());
        assert((v as i32) as i8 == v) by (bit_vector);
    }
}

impl Serialize for u8 {
    open spec fn enc(&self) -> Seq<u8> {
        spec_i32_to_le(*self as i32)
    }

    open spec fn enc_ok(&self) -> bool {
        true
    }

    open spec fn enc_objects(&self, base: int) -> Seq<u64> {
        Seq::empty()
    }

    proof fn lemma_enc_aligned(&self) {
        lemma_auto_spec_u32_to_from_le_bytes();
    }

    fn serialize(&self, parcel: &mut Parcel) -> (r: Result<(), StatusCode>) {
        proof {
            lemma_auto_spec_u32_to_from_le_bytes();
        }
        let res = parcel.write_i32_aligned(*self as i32);
        proof {
            if res is Ok {
                assert(parcel.data@ =~= old(parcel).data@ + self.enc());
                assert(parcel.objects@ =~= old(parcel).objects@ + self.enc_objects(
                    old(parcel).data@.len() as int,
                ));
            }
        }
        res
    }
}

impl Deserialize for u8 {
    open spec fn dec(data: Seq<u8>, pos: int) -> DecOutcome<u8> {
        if 0 <= pos && pos + 4 <= data.len() {
            DecOutcome::Found(spec_i32_from_le(data.subrange(pos, pos + 4)) as u8, pos + 4)
        } else {
            DecOutcome::Fail(StatusCode::NotEnoughData)
        }
    }

    fn deserialize(parcel: &mut Parcel) -> (r: Result<u8, StatusCode>) {
        match parcel.read_i32_aligned() {
            Ok(v) => {
                #[verifier::truncate]
                let b = v as u8;
                Ok(b)
            },
            Err(e) => Err(e),
        }
    }

    proof fn lemma_round_trip(v: u8, data: Seq<u8>, pos: int) {
        crate::parcel::lemma_i32_le_round_trip(v as i32);
        assert(data.subrange(pos, pos + 4) == v.enc());
        assert((v as i32) as u8 == v) by (bit_vector);
    }
}

impl Serialize for i16 {
    open spec fn enc(&self) -> Seq<u8> {
        spec_i32_to_le(*self as i32)
    }

    open spec fn enc_ok(&self) -> bool {
        true
    }

    open spec fn enc_objects(&self, base: int) -> Seq<u64> {
        Seq::empty()
    }

    proof fn lemma_enc_aligned(&self) {
        lemma_auto_spec_u32_to_from_le_bytes();
    }

    fn serialize(&self, parcel: &mut Parcel) -> (r: Result<(), StatusCode>) {
        proof {
            lemma_auto_spec_u32_to_from_le_bytes();
        }
        let res = parcel.write_i32_aligned(*self as i32);
        proof {
            if res is Ok {
                assert(parcel.data@ =~= old(parcel).data@ + self.enc());
                assert(parcel.objects@ =~= old(parcel).objects@ + self.enc_objects(
                    old(parcel).data@.len() as int,
                ));
            }
        }
        res
    }
}

impl Deserialize for i16 {
    open spec fn dec(data: Seq<u8>, pos: int) -> DecOutcome<i16> {
        if 0 <= pos && pos + 4 <= data.len() {
            DecOutcome::Found(spec_i32_from_le(data.subrange(pos, pos + 4)) as i16, pos + 4)
        } else {
            DecOutcome::Fail(StatusCode::NotEnoughData)
        }
    }

    fn deserialize(parcel: &mut Parcel) -> (r: Result<i16, StatusCode>) {
        match parcel.read_i32_aligned() {
            Ok(v) => {
                #[verifier::truncate]
                let b = v as i16;
                Ok(b)
            },
            Err(e) => Err(e),
        }
    }

    proof fn lemma_round_trip(v: i16, data: Seq<u8>, pos: int) {
        crate::parcel::lemma_i32_le_round_trip(v as i32);
        assert(data.subrange(pos, pos + 4) == v.enc());
        assert((v as i32) as i16 == v) by (bit_vector);
    }
}

impl Serialize for u16 {
    open spec fn enc(&self) -> Seq<u8> {
        spec_u32_to_le_bytes(*self as u32)
    }

    open spec fn enc_ok(&self) -> bool {
        true
    }

    open spec fn enc_objects(&self, base: int) -> Seq<u64> {
        Seq::empty()
    }

    proof fn lemma_enc_aligned(&self) {
        lemma_auto_spec_u32_to_from_le_bytes();
    }

    fn serialize(&self, parcel: &mut Parcel) -> (r: Result<(), StatusCode>) {
        proof {
            lemma_auto_spec_u32_to_from_le_bytes();
        }
        let res = parcel.write_u32_aligned(*self as u32);
        proof {
            if res is Ok {
                assert(parcel.data@ =~= old(parcel).data@ + self.enc());
                assert(parcel.objects@ =~= old(parcel).objects@ + self.enc_objects(
                    old(parcel).data@.len() as int,
                ));
            }
        }
        res
    }
}

impl Deserialize for u16 {
    open spec fn dec(data: Seq<u8>, pos: int) -> DecOutcome<u16> {
        if 0 <= pos && pos + 4 <= data.len() {
            DecOutcome::Found(spec_u32_from_le_bytes(data.subrange(pos, pos + 4)) as u16, pos + 4)
        } else {
            DecOutcome::Fail(StatusCode::NotEnoughData)
        }
    }

    fn deserialize(parcel: &mut Parcel) -> (r: Result<u16, StatusCode>) {
        match parcel.read_u32_aligned() {
            Ok(v) => {
                #[verifier::truncate]
                let b = v as u16;
                Ok(b)
            },
            Err(e) => Err(e),
        }
    }

    proof fn lemma_round_trip(v: u16, data: Seq<u8>, pos: int) {
        lemma_auto_spec_u32_to_from_le_bytes();
        assert(data.subrange(pos, pos + 4) == v.enc());
        assert((v as u32) as u16 == v) by (bit_vector);
    }
}

impl DeepView for StatusCode {
    type V = StatusCode;

    open spec fn deep_view(&self) -> StatusCode {
        *self
    }
}

impl Serialize for StatusCode {
    open spec fn enc(&self) -> Seq<u8> {
        spec_i32_to_le(status_to_i32(*self))
    }

    open spec fn enc_ok(&self) -> bool {
        true
    }

    open spec fn enc_objects(&self, base: int) -> Seq<u64> {
        Seq::empty()
    }

    proof fn lemma_enc_aligned(&self) {
        lemma_auto_spec_u32_to_from_le_bytes();
    }

    fn serialize(&self, parcel: &mut Parcel) -> (r: Result<(), StatusCode>) {
        proof {
            lemma_auto_spec_u32_to_from_le_bytes();
        }
        let res = parcel.write_i32_aligned(self.to_i32());
        proof {
            if res is Ok {
                assert(parcel.data@ =~= old(parcel).data@ + self.enc());
                assert(parcel.objects@ =~= old(parcel).objects@ + self.enc_objects(
                    old(parcel).data@.len() as int,
                ));
            }
        }
        res
    }
}

impl Deserialize for StatusCode {
    open spec fn dec(data: Seq<u8>, pos: int) -> DecOutcome<StatusCode> {
        if 0 <= pos && pos + 4 <= data.len() {
            DecOutcome::Found(status_from_i32(spec_i32_from_le(data.subrange(pos, pos + 4))), pos + 4)
        } else {
            DecOutcome::Fail(StatusCode::NotEnoughData)
        }
    }

    fn deserialize(parcel: &mut Parcel) -> (r: Result<StatusCode, StatusCode>) {
        match parcel.read_i32_aligned() {
            Ok(v) => Ok(StatusCode::from_i32(v)),
            Err(e) => Err(e),
        }
    }

    proof fn lemma_round_trip(v: StatusCode, data: Seq<u8>, pos: int) {
        crate::parcel::lemma_i32_le_round_trip(status_to_i32(v));
        assert(data.subrange(pos, pos + 4) == v.enc());
        crate::error::lemma_status_round_trip(v);
    }
}

} // verus!

verus! {

/// The values behind an optional reference.
pub open spec fn opt_val<T>(o: Option<&T>) -> Option<T> {
    match o {
        Option::Some(r) => Option::Some(*r),
        Option::None => Option::None,
    }
}

/// A value that can be written as nullable. Everything except strings and
/// sequences marks absence with a 0/1 presence flag before the value.
pub trait SerializeOption: Serialize + Sized {
    /// The bytes an optional value appends.
    spec fn enc_opt(v: Option<Self>) -> Seq<u8>;

    /// Whether the optional value is encodable.
    spec fn enc_opt_ok(v: Option<Self>) -> bool;

    /// The object offsets an optional value records, its encoding starting
    /// at byte `base`.
    spec fn enc_opt_objects(v: Option<Self>, base: int) -> Seq<u64>;

    /// Optional encodings keep the cursor 4-byte aligned too.
    proof fn lemma_enc_opt_aligned(v: Option<Self>)
        ensures
            Self::enc_opt_ok(v) ==> Self::enc_opt(v).len() % 4 == 0,
    ;

    /// Writes an optional value at the buffer's aligned end cursor.
    fn serialize_option(this: Option<&Self>, parcel: &mut Parcel) -> (r: Result<(), StatusCode>)
        requires
            old(parcel).wf(),
            old(parcel).at_end(),
            old(parcel).pos % 4 == 0,
        ensures
            final(parcel).wf(),
            final(parcel).at_end(),
            final(parcel).pos % 4 == 0,
            r is Ok <==> (Self::enc_opt_ok(opt_val(this)) && old(parcel).data@.len()
                + Self::enc_opt(opt_val(this)).len() <= PARCEL_MAX),
            r is Ok ==> {
                &&& final(parcel).data@ == old(parcel).data@ + Self::enc_opt(opt_val(this))
                &&& final(parcel).objects@ == old(parcel).objects@ + Self::enc_opt_objects(
                    opt_val(this),
                    old(parcel).data@.len() as int,
                )
            },
    ;
}

/// A value that can be read as nullable. Every such value can also be
/// written as nullable, which lets the round-trip law be stated here.
pub trait DeserializeOption: Deserialize + SerializeOption {
    /// The outcome of decoding an optional value of this type.
    spec fn dec_opt(data: Seq<u8>, pos: int) -> DecOutcome<Option<Self::V>>;

    /// Reads an optional value of this type at the buffer's cursor.
    fn deserialize_option(parcel: &mut Parcel) -> (r: Result<Option<Self>, StatusCode>)
        requires
            old(parcel).wf(),
        ensures
            final(parcel).wf(),
            final(parcel).data@ == old(parcel).data@,
            final(parcel).objects@ == old(parcel).objects@,
            match Self::dec_opt(old(parcel).data@, old(parcel).pos as int) {
                DecOutcome::Found(v, p) => {
                    &&& r is Ok
                    &&& r->Ok_0.deep_view() == v
                    &&& final(parcel).pos == p
                },
                DecOutcome::Fail(e) => r is Err && r->Err_0 == e,
            },
    ;

    /// Reads an optional value of this type onto the current option,
    /// overwriting it.
    fn deserialize_option_from(this: &mut Option<Self>, parcel: &mut Parcel) -> (r: Result<
        (),
        StatusCode,
    >)
        requires
            old(parcel).wf(),
        ensures
            final(parcel).wf(),
            final(parcel).data@ == old(parcel).data@,
            final(parcel).objects@ == old(parcel).objects@,
            match Self::dec_opt(old(parcel).data@, old(parcel).pos as int) {
                DecOutcome::Found(v, p) => {
                    &&& r is Ok
                    &&& final(this).deep_view() == v
                    &&& final(parcel).pos == p
                },
                DecOutcome::Fail(e) => r is Err && r->Err_0 == e,
            },
    {
        match Self::deserialize_option(parcel) {
            Ok(v) => {
                *this = v;
                Ok(())
            },
            Err(e) => Err(e),
        }
    }

    /// Round trip for nullable values: wherever a buffer holds an optional
    /// value's encoding, decoding yields that optional value back.
    proof fn lemma_opt_round_trip(v: Option<Self>, data: Seq<u8>, pos: int)
        requires
            Self::enc_opt_ok(v),
            0 <= pos,
            pos % 4 == 0,
            pos + Self::enc_opt(v).len() <= data.len(),
            data.subrange(pos, pos + Self::enc_opt(v).len()) == Self::enc_opt(v),
        ensures
            Self::dec_opt(data, pos) == DecOutcome::Found(
                v.deep_view(),
                pos + Self::enc_opt(v).len(),
            ),
    ;
}

/// The flag-based nullable encoding: a 0 marker for absence, a 1 marker and
/// then the value for presence.
pub open spec fn enc_opt_flagged<T: Serialize>(v: Option<T>) -> Seq<u8> {
    match v {
        Option::None => spec_i32_to_le(0),
        Option::Some(x) => spec_i32_to_le(1) + x.enc(),
    }
}

/// Whether a flag-encoded optional value is encodable.
pub open spec fn enc_opt_flagged_ok<T: Serialize>(v: Option<T>) -> bool {
    match v {
        Option::None => true,
        Option::Some(x) => x.enc_ok(),
    }
}

/// The object offsets a flag-encoded optional value records.
pub open spec fn enc_opt_flagged_objects<T: Serialize>(v: Option<T>, base: int) -> Seq<u64> {
    match v {
        Option::None => Seq::empty(),
        Option::Some(x) => x.enc_objects(base + 4),
    }
}

/// A flag-encoded optional value keeps the cursor aligned.
pub proof fn lemma_enc_opt_flagged_aligned<T: Serialize>(v: Option<T>)
    ensures
        enc_opt_flagged_ok(v) ==> enc_opt_flagged(v).len() % 4 == 0,
{
    lemma_auto_spec_u32_to_from_le_bytes();
    match v {
        Option::None => {
        },
        Option::Some(x) => {
            x.lemma_enc_aligned();
        },
    }
}

/// Writes a flag-encoded optional value at the buffer's aligned end cursor.
pub fn write_opt_flagged<T: Serialize>(this: Option<&T>, parcel: &mut Parcel) -> (r: Result<
    (),
    StatusCode,
>)
    requires
        old(parcel).wf(),
        old(parcel).at_end(),
        old(parcel).pos % 4 == 0,
    ensures
        final(parcel).wf(),
        final(parcel).at_end(),
        final(parcel).pos % 4 == 0,
        r is Ok <==> (enc_opt_flagged_ok(opt_val(this)) && old(parcel).data@.len()
            + enc_opt_flagged(opt_val(this)).len() <= PARCEL_MAX),
        r is Ok ==> {
            &&& final(parcel).data@ == old(parcel).data@ + enc_opt_flagged(opt_val(this))
            &&& final(parcel).objects@ == old(parcel).objects@ + enc_opt_flagged_objects(
                opt_val(this),
                old(parcel).data@.len() as int,
            )
        },
{
    proof {
        lemma_auto_spec_u32_to_from_le_bytes();
    }
    match this {
        None => {
            let res = parcel.write_i32_aligned(0);
            proof {
                if res is Ok {
                    assert(parcel.data@ =~= old(parcel).data@ + enc_opt_flagged(opt_val(this)));
                    assert(parcel.objects@ =~= old(parcel).objects@ + enc_opt_flagged_objects(
                        opt_val(this),
                        old(parcel).data@.len() as int,
                    ));
                }
            }
            res
        },
        Some(v) => {
            let res = parcel.write_i32_aligned(1);
            if res.is_err() {
                proof {
                    assert(enc_opt_flagged(opt_val(this)).len() >= 4);
                }
                return res;
            }
            let ghost mid = parcel.data@;
            let res2 = v.serialize(parcel);
            proof {
                assert(mid =~= old(parcel).data@ + spec_i32_to_le(1));
                if res2 is Ok {
                    assert(parcel.data@ =~= old(parcel).data@ + enc_opt_flagged(opt_val(this)));
                    assert(parcel.objects@ =~= old(parcel).objects@ + enc_opt_flagged_objects(
                        opt_val(this),
                        old(parcel).data@.len() as int,
                    ));
                }
            }
            res2
        },
    }
}

/// The flag-based nullable decoding: a 0 marker is absence, anything else
/// announces a value.
pub open spec fn dec_opt_flagged<T: Deserialize>(data: Seq<u8>, pos: int) -> DecOutcome<
    Option<T::V>,
> {
    if 0 <= pos && pos + 4 <= data.len() {
        if spec_i32_from_le(data.subrange(pos, pos + 4)) == 0 {
            DecOutcome::Found(Option::None, pos + 4)
        } else {
            match T::dec(data, pos + 4) {
                DecOutcome::Found(v, p) => DecOutcome::Found(Option::Some(v), p),
                DecOutcome::Fail(e) => DecOutcome::Fail(e),
            }
        }
    } else {
        DecOutcome::Fail(StatusCode::NotEnoughData)
    }
}

/// Reads a flag-encoded optional value at the buffer's cursor.
pub fn read_opt_flagged<T: Deserialize>(parcel: &mut Parcel) -> (r: Result<Option<T>, StatusCode>)
    requires
        old(parcel).wf(),
    ensures
        final(parcel).wf(),
        final(parcel).data@ == old(parcel).data@,
        final(parcel).objects@ == old(parcel).objects@,
        match dec_opt_flagged::<T>(old(parcel).data@, old(parcel).pos as int) {
            DecOutcome::Found(v, p) => {
                &&& r is Ok
                &&& r->Ok_0.deep_view() == v
                &&& final(parcel).pos == p
            },
            DecOutcome::Fail(e) => r is Err && r->Err_0 == e,
        },
{
    let flag = match parcel.read_i32_aligned() {
        Ok(f) => f,
        Err(e) => {
            return Err(e);
        },
    };
    if flag == 0 {
        Ok(None)
    } else {
        match T::deserialize(parcel) {
            Ok(v) => Ok(Some(v)),
            Err(e) => Err(e),
        }
    }
}

/// The generic round-trip argument for the flag-based nullable convention,
/// given that the bytes after the presence flag decode to the value.
pub proof fn lemma_opt_flagged_round_trip<T: Serialize + Deserialize>(
    v: Option<T>,
    data: Seq<u8>,
    pos: int,
)
    requires
        enc_opt_flagged_ok(v),
        0 <= pos,
        pos % 4 == 0,
        pos + enc_opt_flagged(v).len() <= data.len(),
        data.subrange(pos, pos + enc_opt_flagged(v).len()) == enc_opt_flagged(v),
        v matches Option::Some(x) ==> T::dec(data, pos + 4) == DecOutcome::Found(
            x.deep_view(),
            pos + 4 + x.enc().len(),
        ),
    ensures
        dec_opt_flagged::<T>(data, pos) == DecOutcome::Found(
            v.deep_view(),
            pos + enc_opt_flagged(v).len(),
        ),
{
    lemma_auto_spec_u32_to_from_le_bytes();
    match v {
        Option::None => {
            crate::parcel::lemma_i32_le_round_trip(0);
            assert(data.subrange(pos, pos + 4) == spec_i32_to_le(0));
        },
        Option::Some(x) => {
            crate::parcel::lemma_i32_le_round_trip(1);
            assert(data.subrange(pos, pos + 4) =~= spec_i32_to_le(1));
        },
    }
}

impl SerializeOption for i8 {
    open spec fn enc_opt(v: Option<i8>) -> Seq<u8> {
        enc_opt_flagged(v)
    }

    open spec fn enc_opt_ok(v: Option<i8>) -> bool {
        enc_opt_flagged_ok(v)
    }

    open spec fn enc_opt_objects(v: Option<i8>, base: int) -> Seq<u64> {
        enc_opt_flagged_objects(v, base)
    }

    proof fn lemma_enc_opt_aligned(v: Option<i8>) {
        lemma_enc_opt_flagged_aligned(v);
    }

    fn serialize_option(this: Option<&i8>, parcel: &mut Parcel) -> (r: Result<(), StatusCode>) {
        write_opt_flagged(this, parcel)
    }
}

impl DeserializeOption for i8 {
    open spec fn dec_opt(data: Seq<u8>, pos: int) -> DecOutcome<Option<i8>> {
        dec_opt_flagged::<i8>(data, pos)
    }

    fn deserialize_option(parcel: &mut Parcel) -> (r: Result<Option<i8>, StatusCode>) {
        read_opt_flagged(parcel)
    }

    proof fn lemma_opt_round_trip(v: Option<i8>, data: Seq<u8>, pos: int) {
        lemma_auto_spec_u32_to_from_le_bytes();
        match v {
            Option::Some(x) => {
                let e = enc_opt_flagged(v);
                assert(data.subrange(pos, pos + 4) =~= spec_i32_to_le(1));
                assert forall|k: int| 0 <= k < x.enc().len() implies data[pos + 4 + k]
                    == x.enc()[k] by {
                    assert(data.subrange(pos, pos + e.len())[4 + k] == e[4 + k]);
                }
                assert(data.subrange(pos + 4, pos + 4 + x.enc().len()) =~= x.enc());
                crate::parcel::lemma_i32_le_round_trip(x as i32);
                assert((x as i32) as i8 == x) by (bit_vector);
            },
            Option::None => {
            },
        }
        lemma_opt_flagged_round_trip::<i8>(v, data, pos);
    }
}

impl SerializeOption for u8 {
    open spec fn enc_opt(v: Option<u8>) -> Seq<u8> {
        enc_opt_flagged(v)
    }

    open spec fn enc_opt_ok(v: Option<u8>) -> bool {
        enc_opt_flagged_ok(v)
    }

    open spec fn enc_opt_objects(v: Option<u8>, base: int) -> Seq<u64> {
        enc_opt_flagged_objects(v, base)
    }

    proof fn lemma_enc_opt_aligned(v: Option<u8>) {
        lemma_enc_opt_flagged_aligned(v);
    }

    fn serialize_option(this: Option<&u8>, parcel: &mut Parcel) -> (r: Result<(), StatusCode>) {
        write_opt_flagged(this, parcel)
    }
}

impl DeserializeOption for u8 {
    open spec fn dec_opt(data: Seq<u8>, pos: int) -> DecOutcome<Option<u8>> {
        dec_opt_flagged::<u8>(data, pos)
    }

    fn deserialize_option(parcel: &mut Parcel) -> (r: Result<Option<u8>, StatusCode>) {
        read_opt_flagged(parcel)
    }

    proof fn lemma_opt_round_trip(v: Option<u8>, data: Seq<u8>, pos: int) {
        lemma_auto_spec_u32_to_from_le_bytes();
        match v {
            Option::Some(x) => {
                let e = enc_opt_flagged(v);
                assert(data.subrange(pos, pos + 4) =~= spec_i32_to_le(1));
                assert forall|k: int| 0 <= k < x.enc().len() implies data[pos + 4 + k]
                    == x.enc()[k] by {
                    assert(data.subrange(pos, pos + e.len())[4 + k] == e[4 + k]);
                }
                assert(data.subrange(pos + 4, pos + 4 + x.enc().len()) =~= x.enc());
                crate::parcel::lemma_i32_le_round_trip(x as i32);
                assert((x as i32) as u8 == x) by (bit_vector);
            },
            Option::None => {
            },
        }
        lemma_opt_flagged_round_trip::<u8>(v, data, pos);
    }
}

impl SerializeOption for i16 {
    open spec fn enc_opt(v: Option<i16>) -> Seq<u8> {
        enc_opt_flagged(v)
    }

    open spec fn enc_opt_ok(v: Option<i16>) -> bool {
        enc_opt_flagged_ok(v)
    }

    open spec fn enc_opt_objects(v: Option<i16>, base: int) -> Seq<u64> {
        enc_opt_flagged_objects(v, base)
    }

    proof fn lemma_enc_opt_aligned(v: Option<i16>) {
        lemma_enc_opt_flagged_aligned(v);
    }

    fn serialize_option(this: Option<&i16>, parcel: &mut Parcel) -> (r: Result<(), StatusCode>) {
        write_opt_flagged(this, parcel)
    }
}

impl DeserializeOption for i16 {
    open spec fn dec_opt(data: Seq<u8>, pos: int) -> DecOutcome<Option<i16>> {
        dec_opt_flagged::<i16>(data, pos)
    }

    fn deserialize_option(parcel: &mut Parcel) -> (r: Result<Option<i16>, StatusCode>) {
        read_opt_flagged(parcel)
    }

    proof fn lemma_opt_round_trip(v: Option<i16>, data: Seq<u8>, pos: int) {
        lemma_auto_spec_u32_to_from_le_bytes();
        match v {
            Option::Some(x) => {
                let e = enc_opt_flagged(v);
                assert(data.subrange(pos, pos + 4) =~= spec_i32_to_le(1));
                assert forall|k: int| 0 <= k < x.enc().len() implies data[pos + 4 + k]
                    == x.enc()[k] by {
                    assert(data.subrange(pos, pos + e.len())[4 + k] == e[4 + k]);
                }
                assert(data.subrange(pos + 4, pos + 4 + x.enc().len()) =~= x.enc());
                crate::parcel::lemma_i32_le_round_trip(x as i32);
                assert((x as i32) as i16 == x) by (bit_vector);
            },
            Option::None => {
            },
        }
        lemma_opt_flagged_round_trip::<i16>(v, data, pos);
    }
}

impl SerializeOption for u16 {
    open spec fn enc_opt(v: Option<u16>) -> Seq<u8> {
        enc_opt_flagged(v)
    }

    open spec fn enc_opt_ok(v: Option<u16>) -> bool {
        enc_opt_flagged_ok(v)
    }

    open spec fn enc_opt_objects(v: Option<u16>, base: int) -> Seq<u64> {
        enc_opt_flagged_objects(v, base)
    }

    proof fn lemma_enc_opt_aligned(v: Option<u16>) {
        lemma_enc_opt_flagged_aligned(v);
    }

    fn serialize_option(this: Option<&u16>, parcel: &mut Parcel) -> (r: Result<(), StatusCode>) {
        write_opt_flagged(this, parcel)
    }
}

impl DeserializeOption for u16 {
    open spec fn dec_opt(data: Seq<u8>, pos: int) -> DecOutcome<Option<u16>> {
        dec_opt_flagged::<u16>(data, pos)
    }

    fn deserialize_option(parcel: &mut Parcel) -> (r: Result<Option<u16>, StatusCode>) {
        read_opt_flagged(parcel)
    }

    proof fn lemma_opt_round_trip(v: Option<u16>, data: Seq<u8>, pos: int) {
        lemma_auto_spec_u32_to_from_le_bytes();
        match v {
            Option::Some(x) => {
                let e = enc_opt_flagged(v);
                assert(data.subrange(pos, pos + 4) =~= spec_i32_to_le(1));
                assert forall|k: int| 0 <= k < x.enc().len() implies data[pos + 4 + k]
                    == x.enc()[k] by {
                    assert(data.subrange(pos, pos + e.len())[4 + k] == e[4 + k]);
                }
                assert(data.subrange(pos + 4, pos + 4 + x.enc().len()) =~= x.enc());
                assert((x as u32) as u16 == x) by (bit_vector);
            },
            Option::None => {
            },
        }
        lemma_opt_flagged_round_trip::<u16>(v, data, pos);
    }
}

impl SerializeOption for i32 {
    open spec fn enc_opt(v: Option<i32>) -> Seq<u8> {
        enc_opt_flagged(v)
    }

    open spec fn enc_opt_ok(v: Option<i32>) -> bool {
        enc_opt_flagged_ok(v)
    }

    open spec fn enc_opt_objects(v: Option<i32>, base: int) -> Seq<u64> {
        enc_opt_flagged_objects(v, base)
    }

    proof fn lemma_enc_opt_aligned(v: Option<i32>) {
        lemma_enc_opt_flagged_aligned(v);
    }

    fn serialize_option(this: Option<&i32>, parcel: &mut Parcel) -> (r: Result<(), StatusCode>) {
        write_opt_flagged(this, parcel)
    }
}

impl DeserializeOption for i32 {
    open spec fn dec_opt(data: Seq<u8>, pos: int) -> DecOutcome<Option<i32>> {
        dec_opt_flagged::<i32>(data, pos)
    }

    fn deserialize_option(parcel: &mut Parcel) -> (r: Result<Option<i32>, StatusCode>) {
        read_opt_flagged(parcel)
    }

    proof fn lemma_opt_round_trip(v: Option<i32>, data: Seq<u8>, pos: int) {
        lemma_auto_spec_u32_to_from_le_bytes();
        match v {
            Option::Some(x) => {
                let e = enc_opt_flagged(v);
                assert(data.subrange(pos, pos + 4) =~= spec_i32_to_le(1));
                assert forall|k: int| 0 <= k < x.enc().len() implies data[pos + 4 + k]
                    == x.enc()[k] by {
                    assert(data.subrange(pos, pos + e.len())[4 + k] == e[4 + k]);
                }
                assert(data.subrange(pos + 4, pos + 4 + x.enc().len()) =~= x.enc());
                crate::parcel::lemma_i32_le_round_trip(x);
            },
            Option::None => {
            },
        }
        lemma_opt_flagged_round_trip::<i32>(v, data, pos);
    }
}

impl SerializeOption for u32 {
    open spec fn enc_opt(v: Option<u32>) -> Seq<u8> {
        enc_opt_flagged(v)
    }

    open spec fn enc_opt_ok(v: Option<u32>) -> bool {
        enc_opt_flagged_ok(v)
    }

    open spec fn enc_opt_objects(v: Option<u32>, base: int) -> Seq<u64> {
        enc_opt_flagged_objects(v, base)
    }

    proof fn lemma_enc_opt_aligned(v: Option<u32>) {
        lemma_enc_opt_flagged_aligned(v);
    }

    fn serialize_option(this: Option<&u32>, parcel: &mut Parcel) -> (r: Result<(), StatusCode>) {
        write_opt_flagged(this, parcel)
    }
}

impl DeserializeOption for u32 {
    open spec fn dec_opt(data: Seq<u8>, pos: int) -> DecOutcome<Option<u32>> {
        dec_opt_flagged::<u32>(data, pos)
    }

    fn deserialize_option(parcel: &mut Parcel) -> (r: Result<Option<u32>, StatusCode>) {
        read_opt_flagged(parcel)
    }

    proof fn lemma_opt_round_trip(v: Option<u32>, data: Seq<u8>, pos: int) {
        lemma_auto_spec_u32_to_from_le_bytes();
        match v {
            Option::Some(x) => {
                let e = enc_opt_flagged(v);
                assert(data.subrange(pos, pos + 4) =~= spec_i32_to_le(1));
                assert forall|k: int| 0 <= k < x.enc().len() implies data[pos + 4 + k]
                    == x.enc()[k] by {
                    assert(data.subrange(pos, pos + e.len())[4 + k] == e[4 + k]);
                }
                assert(data.subrange(pos + 4, pos + 4 + x.enc().len()) =~= x.enc());
                
            },
            Option::None => {
            },
        }
        lemma_opt_flagged_round_trip::<u32>(v, data, pos);
    }
}

impl SerializeOption for i64 {
    open spec fn enc_opt(v: Option<i64>) -> Seq<u8> {
        enc_opt_flagged(v)
    }

    open spec fn enc_opt_ok(v: Option<i64>) -> bool {
        enc_opt_flagged_ok(v)
    }

    open spec fn enc_opt_objects(v: Option<i64>, base: int) -> Seq<u64> {
        enc_opt_flagged_objects(v, base)
    }

    proof fn lemma_enc_opt_aligned(v: Option<i64>) {
        lemma_enc_opt_flagged_aligned(v);
    }

    fn serialize_option(this: Option<&i64>, parcel: &mut Parcel) -> (r: Result<(), StatusCode>) {
        write_opt_flagged(this, parcel)
    }
}

impl DeserializeOption for i64 {
    open spec fn dec_opt(data: Seq<u8>, pos: int) -> DecOutcome<Option<i64>> {
        dec_opt_flagged::<i64>(data, pos)
    }

    fn deserialize_option(parcel: &mut Parcel) -> (r: Result<Option<i64>, StatusCode>) {
        read_opt_flagged(parcel)
    }

    proof fn lemma_opt_round_trip(v: Option<i64>, data: Seq<u8>, pos: int) {
        lemma_auto_spec_u32_to_from_le_bytes();
        match v {
            Option::Some(x) => {
                let e = enc_opt_flagged(v);
                assert(data.subrange(pos, pos + 4) =~= spec_i32_to_le(1));
                assert forall|k: int| 0 <= k < x.enc().len() implies data[pos + 4 + k]
                    == x.enc()[k] by {
                    assert(data.subrange(pos, pos + e.len())[4 + k] == e[4 + k]);
                }
                assert(data.subrange(pos + 4, pos + 4 + x.enc().len()) =~= x.enc());
                lemma_auto_spec_u64_to_from_le_bytes();
                lemma_i64_round_trip(x);
            },
            Option::None => {
            },
        }
        lemma_opt_flagged_round_trip::<i64>(v, data, pos);
    }
}

impl SerializeOption for u64 {
    open spec fn enc_opt(v: Option<u64>) -> Seq<u8> {
        enc_opt_flagged(v)
    }

    open spec fn enc_opt_ok(v: Option<u64>) -> bool {
        enc_opt_flagged_ok(v)
    }

    open spec fn enc_opt_objects(v: Option<u64>, base: int) -> Seq<u64> {
        enc_opt_flagged_objects(v, base)
    }

    proof fn lemma_enc_opt_aligned(v: Option<u64>) {
        lemma_enc_opt_flagged_aligned(v);
    }

    fn serialize_option(this: Option<&u64>, parcel: &mut Parcel) -> (r: Result<(), StatusCode>) {
        write_opt_flagged(this, parcel)
    }
}

impl DeserializeOption for u64 {
    open spec fn dec_opt(data: Seq<u8>, pos: int) -> DecOutcome<Option<u64>> {
        dec_opt_flagged::<u64>(data, pos)
    }

    fn deserialize_option(parcel: &mut Parcel) -> (r: Result<Option<u64>, StatusCode>) {
        read_opt_flagged(parcel)
    }

    proof fn lemma_opt_round_trip(v: Option<u64>, data: Seq<u8>, pos: int) {
        lemma_auto_spec_u32_to_from_le_bytes();
        match v {
            Option::Some(x) => {
                let e = enc_opt_flagged(v);
                assert(data.subrange(pos, pos + 4) =~= spec_i32_to_le(1));
                assert forall|k: int| 0 <= k < x.enc().len() implies data[pos + 4 + k]
                    == x.enc()[k] by {
                    assert(data.subrange(pos, pos + e.len())[4 + k] == e[4 + k]);
                }
                assert(data.subrange(pos + 4, pos + 4 + x.enc().len()) =~= x.enc());
                lemma_auto_spec_u64_to_from_le_bytes();
            },
            Option::None => {
            },
        }
        lemma_opt_flagged_round_trip::<u64>(v, data, pos);
    }
}

impl SerializeOption for bool {
    open spec fn enc_opt(v: Option<bool>) -> Seq<u8> {
        enc_opt_flagged(v)
    }

    open spec fn enc_opt_ok(v: Option<bool>) -> bool {
        enc_opt_flagged_ok(v)
    }

    open spec fn enc_opt_objects(v: Option<bool>, base: int) -> Seq<u64> {
        enc_opt_flagged_objects(v, base)
    }

    proof fn lemma_enc_opt_aligned(v: Option<bool>) {
        lemma_enc_opt_flagged_aligned(v);
    }

    fn serialize_option(this: Option<&bool>, parcel: &mut Parcel) -> (r: Result<(), StatusCode>) {
        write_opt_flagged(this, parcel)
    }
}

impl DeserializeOption for bool {
    open spec fn dec_opt(data: Seq<u8>, pos: int) -> DecOutcome<Option<bool>> {
        dec_opt_flagged::<bool>(data, pos)
    }

    fn deserialize_option(parcel: &mut Parcel) -> (r: Result<Option<bool>, StatusCode>) {
        read_opt_flagged(parcel)
    }

    proof fn lemma_opt_round_trip(v: Option<bool>, data: Seq<u8>, pos: int) {
        lemma_auto_spec_u32_to_from_le_bytes();
        match v {
            Option::Some(x) => {
                let e = enc_opt_flagged(v);
                assert(data.subrange(pos, pos + 4) =~= spec_i32_to_le(1));
                assert forall|k: int| 0 <= k < x.enc().len() implies data[pos + 4 + k]
                    == x.enc()[k] by {
                    assert(data.subrange(pos, pos + e.len())[4 + k] == e[4 + k]);
                }
                assert(data.subrange(pos + 4, pos + 4 + x.enc().len()) =~= x.enc());
                crate::parcel::lemma_i32_le_round_trip(if x { 1i32 } else { 0i32 });
            },
            Option::None => {
            },
        }
        lemma_opt_flagged_round_trip::<bool>(v, data, pos);
    }
}

impl<T: SerializeOption> Serialize for Option<T> {
    open spec fn enc(&self) -> Seq<u8> {
        T::enc_opt(*self)
    }

    open spec fn enc_ok(&self) -> bool {
        T::enc_opt_ok(*self)
    }

    open spec fn enc_objects(&self, base: int) -> Seq<u64> {
        T::enc_opt_objects(*self, base)
    }

    proof fn lemma_enc_aligned(&self) {
        T::lemma_enc_opt_aligned(*self);
    }

    fn serialize(&self, parcel: &mut Parcel) -> (r: Result<(), StatusCode>) {
        let this: Option<&T> = match self {
            Some(v) => Some(v),
            None => None,
        };
        proof {
            assert(opt_val(this) == *self);
        }
        T::serialize_option(this, parcel)
    }
}

impl<T: DeserializeOption> Deserialize for Option<T> {
    open spec fn dec(data: Seq<u8>, pos: int) -> DecOutcome<Option<T::V>> {
        T::dec_opt(data, pos)
    }

    fn deserialize(parcel: &mut Parcel) -> (r: Result<Option<T>, StatusCode>) {
        T::deserialize_option(parcel)
    }

    proof fn lemma_round_trip(v: Option<T>, data: Seq<u8>, pos: int) {
        T::lemma_opt_round_trip(v, data, pos);
    }
}

} // verus!

verus! {

/// The little-endian bytes of a run of 16-bit code units, two per unit.
pub open spec fn utf16_le_bytes(units: Seq<u16>) -> Seq<u8>
    decreases units.len(),
{
    if units.len() == 0 {
        Seq::empty()
    } else {
        spec_u16_to_le_bytes(units[0]) + utf16_le_bytes(units.drop_first())
    }
}

/// The encoded units take two bytes each.
pub proof fn lemma_utf16_le_bytes_len(units: Seq<u16>)
    ensures
        utf16_le_bytes(units).len() == 2 * units.len(),
    decreases units.len(),
{
    lemma_auto_spec_u16_to_from_le_bytes();
    if units.len() > 0 {
        lemma_utf16_le_bytes_len(units.drop_first());
    }
}

/// Unit encoding appends unit-wise.
pub proof fn lemma_utf16_le_bytes_push(units: Seq<u16>, u: u16)
    ensures
        utf16_le_bytes(units.push(u)) == utf16_le_bytes(units) + spec_u16_to_le_bytes(u),
    decreases units.len(),
{
    lemma_auto_spec_u16_to_from_le_bytes();
    if units.len() == 0 {
        assert(units.push(u)[0] == u);
        assert(units.push(u).drop_first() =~= Seq::<u16>::empty());
        assert(utf16_le_bytes(Seq::<u16>::empty()) == Seq::<u8>::empty());
        assert(utf16_le_bytes(units.push(u)) == spec_u16_to_le_bytes(u) + Seq::<u8>::empty());
        assert(utf16_le_bytes(units) == Seq::<u8>::empty());
        assert(utf16_le_bytes(units.push(u)) =~= utf16_le_bytes(units) + spec_u16_to_le_bytes(u));
    } else {
        lemma_utf16_le_bytes_push(units.drop_first(), u);
        assert(units.push(u).drop_first() =~= units.drop_first().push(u));
        assert(units.push(u)[0] == units[0]);
        assert(utf16_le_bytes(units.push(u)) == spec_u16_to_le_bytes(units[0]) + utf16_le_bytes(
            units.drop_first().push(u),
        ));
        assert(utf16_le_bytes(units) == spec_u16_to_le_bytes(units[0]) + utf16_le_bytes(
            units.drop_first(),
        ));
        assert(utf16_le_bytes(units.push(u)) =~= utf16_le_bytes(units) + spec_u16_to_le_bytes(u));
    }
}

/// The 16-bit units read back from little-endian bytes, two per unit.
pub open spec fn u16s_from_le_bytes(s: Seq<u8>) -> Seq<u16> {
    Seq::new((s.len() / 2) as nat, |i: int| spec_u16_from_le_bytes(s.subrange(2 * i, 2 * i + 2)))
}

/// Each unit's two bytes sit at its own offset in the encoding.
pub proof fn lemma_utf16_le_bytes_slice(units: Seq<u16>, i: int)
    requires
        0 <= i < units.len(),
    ensures
        utf16_le_bytes(units).subrange(2 * i, 2 * i + 2) == spec_u16_to_le_bytes(units[i]),
    decreases i,
{
    lemma_auto_spec_u16_to_from_le_bytes();
    lemma_utf16_le_bytes_len(units);
    if i == 0 {
        assert(utf16_le_bytes(units).subrange(0, 2) =~= spec_u16_to_le_bytes(units[0]));
    } else {
        lemma_utf16_le_bytes_slice(units.drop_first(), i - 1);
        lemma_utf16_le_bytes_len(units.drop_first());
        assert(utf16_le_bytes(units).subrange(2 * i, 2 * i + 2) =~= utf16_le_bytes(
            units.drop_first(),
        ).subrange(2 * (i - 1), 2 * (i - 1) + 2));
    }
}

/// Reading the units back from their little-endian bytes yields them exactly.
pub proof fn lemma_u16s_le_round_trip(units: Seq<u16>)
    ensures
        u16s_from_le_bytes(utf16_le_bytes(units)) == units,
{
    lemma_auto_spec_u16_to_from_le_bytes();
    lemma_utf16_le_bytes_len(units);
    let got = u16s_from_le_bytes(utf16_le_bytes(units));
    assert forall|i: int| 0 <= i < units.len() implies got[i] == units[i] by {
        lemma_utf16_le_bytes_slice(units, i);
        assert(spec_u16_to_le_bytes(units[i]).len() == 2);
    }
    assert(got =~= units);
}

/// The wire bytes of a present string: a 32-bit code-unit count, the UTF-16
/// units themselves, a terminating zero unit, and zero padding to 4-byte
/// alignment.
pub open spec fn str_enc(s: Seq<char>) -> Seq<u8> {
    let units = encode_utf16(s);
    spec_i32_to_le(units.len() as i32) + utf16_le_bytes(units.push(0u16)) + zero_bytes(
        pad4(2 * (units.len() + 1) as int) - 2 * (units.len() + 1),
    )
}

/// Whether a string fits the wire format: its code-unit count stays below
/// the 32-bit maximum.
pub open spec fn str_enc_ok(s: Seq<char>) -> bool {
    encode_utf16(s).len() < 0x7fffffff
}

/// A present string's encoding is 4 bytes of count plus the padded units.
pub proof fn lemma_str_enc_len(s: Seq<char>)
    ensures
        str_enc(s).len() == 4 + pad4(2 * (encode_utf16(s).len() + 1) as int),
        str_enc(s).len() % 4 == 0,
{
    lemma_auto_spec_u32_to_from_le_bytes();
    lemma_utf16_le_bytes_len(encode_utf16(s).push(0u16));
}

/// Decoding an optional string at a cursor: `-1` is absence, a count in
/// range announces the padded units, anything else is a decode error.
pub open spec fn str_dec_opt(data: Seq<u8>, pos: int) -> DecOutcome<Option<Seq<char>>> {
    if 0 <= pos && pos + 4 <= data.len() {
        let n = spec_i32_from_le(data.subrange(pos, pos + 4));
        if n == -1 {
            DecOutcome::Found(Option::None, pos + 4)
        } else if n < 0 || n == 0x7fffffff {
            DecOutcome::Fail(StatusCode::BadValue)
        } else {
            let body = pos + 4;
            if body + pad4(2 * (n + 1)) <= data.len() {
                let units = u16s_from_le_bytes(data.subrange(body, body + 2 * (n + 1)));
                match decode_utf16(units.take(n as int)) {
                    Some(chars) => DecOutcome::Found(
                        Option::Some(chars),
                        body + pad4(2 * (n + 1)),
                    ),
                    None => DecOutcome::Fail(StatusCode::BadValue),
                }
            } else {
                DecOutcome::Fail(StatusCode::NotEnoughData)
            }
        }
    } else {
        DecOutcome::Fail(StatusCode::NotEnoughData)
    }
}

/// Reads an optional string at the buffer's cursor, exactly as
/// [`str_dec_opt`] says.
pub fn read_str_opt(parcel: &mut Parcel) -> (r: Result<Option<String>, StatusCode>)
    requires
        old(parcel).wf(),
    ensures
        final(parcel).wf(),
        final(parcel).data@ == old(parcel).data@,
        final(parcel).objects@ == old(parcel).objects@,
        match str_dec_opt(old(parcel).data@, old(parcel).pos as int) {
            DecOutcome::Found(v, p) => {
                &&& r is Ok
                &&& r->Ok_0.deep_view() == v
                &&& final(parcel).pos == p
            },
            DecOutcome::Fail(e) => r is Err && r->Err_0 == e,
        },
{
    let n = match parcel.read_i32_aligned() {
        Ok(v) => v,
        Err(e) => {
            return Err(e);
        },
    };
    if n == -1 {
        return Ok(None);
    }
    if n < 0 || n == 0x7fffffff {
        return Err(StatusCode::BadValue);
    }
    let count = n as usize;
    let bytes = match parcel.read_aligned_data(2 * (count + 1)) {
        Ok(b) => b,
        Err(e) => {
            return Err(e);
        },
    };
    let mut units: Vec<u16> = Vec::new();
    let mut i: usize = 0;
    proof {
        lemma_auto_spec_u16_to_from_le_bytes();
    }
    while i < count + 1
        invariant
            count < 0x7fffffff,
            i <= count + 1,
            bytes@.len() == 2 * (count + 1),
            units@.len() == i,
            forall|j: int|
                0 <= j < i ==> units@[j] == spec_u16_from_le_bytes(
                    bytes@.subrange(2 * j, 2 * j + 2),
                ),
        decreases count + 1 - i,
    {
        let s = vstd::slice::slice_subrange(bytes.as_slice(), 2 * i, 2 * i + 2);
        let u = u16_from_le_bytes(s);
        units.push(u);
        i += 1;
    }
    proof {
        assert(units@ =~= u16s_from_le_bytes(bytes@));
    }
    let text = vstd::slice::slice_subrange(units.as_slice(), 0, count);
    proof {
        assert(text@ =~= u16s_from_le_bytes(bytes@).take(count as int));
    }
    match utf16_decode(text) {
        Ok(s) => Ok(Some(s)),
        Err(e) => Err(e),
    }
}

/// Writes a present string's wire bytes at the buffer's aligned end cursor.
pub fn write_str(text: &str, parcel: &mut Parcel) -> (r: Result<(), StatusCode>)
    requires
        old(parcel).wf(),
        old(parcel).at_end(),
        old(parcel).pos % 4 == 0,
    ensures
        final(parcel).wf(),
        final(parcel).at_end(),
        final(parcel).pos % 4 == 0,
        r is Ok <==> (str_enc_ok(text@) && old(parcel).data@.len() + str_enc(text@).len()
            <= PARCEL_MAX),
        r is Ok ==> {
            &&& final(parcel).data@ == old(parcel).data@ + str_enc(text@)
            &&& final(parcel).objects@ == old(parcel).objects@
        },
{
    proof {
        lemma_auto_spec_u16_to_from_le_bytes();
        lemma_auto_spec_u32_to_from_le_bytes();
        lemma_str_enc_len(text@);
    }
    let units = utf16_encode(text);
    if units.len() >= 0x3ffffffd {
        proof {
            assert(str_enc(text@).len() > PARCEL_MAX);
        }
        return Err(StatusCode::NoMemory);
    }
    let n = units.len() as i32;
    let res = parcel.write_i32_aligned(n);
    if res.is_err() {
        proof {
            assert(str_enc(text@).len() >= 4);
        }
        return res;
    }
    let ghost mid = parcel.data@;
    proof {
        assert(mid =~= old(parcel).data@ + spec_i32_to_le(n));
    }
    let mut bytes: Vec<u8> = Vec::new();
    let mut i: usize = 0;
    let ghost allu = units@.push(0u16);
    while i < units.len()
        invariant
            i <= units@.len(),
            units@.len() < 0x3ffffffd,
            bytes@ == utf16_le_bytes(units@.take(i as int)),
            bytes@.len() == 2 * i,
        decreases units@.len() - i,
    {
        proof {
            lemma_utf16_le_bytes_push(units@.take(i as int), units@[i as int]);
            assert(units@.take(i + 1) =~= units@.take(i as int).push(units@[i as int]));
            lemma_utf16_le_bytes_len(units@.take(i + 1));
        }
        let two = u16_to_le_bytes(units[i]);
        bytes.push(two[0]);
        bytes.push(two[1]);
        proof {
            lemma_auto_spec_u16_to_from_le_bytes();
            assert(bytes@ =~= utf16_le_bytes(units@.take(i + 1)));
        }
        i += 1;
    }
    proof {
        assert(units@.take(units@.len() as int) =~= units@);
        lemma_utf16_le_bytes_push(units@, 0u16);
        lemma_utf16_le_bytes_len(allu);
    }
    let two = u16_to_le_bytes(0u16);
    bytes.push(two[0]);
    bytes.push(two[1]);
    proof {
        lemma_auto_spec_u16_to_from_le_bytes();
        assert(bytes@ =~= utf16_le_bytes(allu));
    }
    let res2 = parcel.write_aligned_data(bytes.as_slice());
    proof {
        if res2 is Ok {
            assert(parcel.data@ =~= old(parcel).data@ + str_enc(text@));
        }
    }
    match res2 {
        Ok(u) => Ok(u),
        Err(e) => Err(e),
    }
}

impl Serialize for String {
    open spec fn enc(&self) -> Seq<u8> {
        str_enc(self@)
    }

    open spec fn enc_ok(&self) -> bool {
        str_enc_ok(self@)
    }

    open spec fn enc_objects(&self, base: int) -> Seq<u64> {
        Seq::empty()
    }

    proof fn lemma_enc_aligned(&self) {
        lemma_str_enc_len(self@);
    }

    fn serialize(&self, parcel: &mut Parcel) -> (r: Result<(), StatusCode>) {
        let res = write_str(self.as_str(), parcel);
        proof {
            if res is Ok {
                assert(parcel.objects@ =~= old(parcel).objects@ + self.enc_objects(
                    old(parcel).data@.len() as int,
                ));
            }
        }
        res
    }
}

/// The round-trip argument for a present string's encoding.
pub proof fn lemma_str_round_trip(s: Seq<char>, data: Seq<u8>, pos: int)
    requires
        str_enc_ok(s),
        0 <= pos,
        pos % 4 == 0,
        pos + str_enc(s).len() <= data.len(),
        data.subrange(pos, pos + str_enc(s).len()) == str_enc(s),
    ensures
        str_dec_opt(data, pos) == DecOutcome::Found(
            Option::Some(s),
            pos + str_enc(s).len(),
        ),
{
    lemma_auto_spec_u32_to_from_le_bytes();
    lemma_auto_spec_u16_to_from_le_bytes();
    lemma_str_enc_len(s);
    let units = encode_utf16(s);
    let n = units.len() as i32;
    let e = str_enc(s);
    crate::parcel::lemma_i32_le_round_trip(n);
    lemma_utf16_le_bytes_len(units.push(0u16));
    let sub = data.subrange(pos, pos + e.len());
    let body = pos + 4;
    let ulen = 2 * ((units.len() + 1) as int);
    assert(data.subrange(pos, pos + 4) =~= sub.subrange(0, 4));
    assert(sub.subrange(0, 4) =~= spec_i32_to_le(n));
    assert(data.subrange(body, body + ulen) =~= sub.subrange(4, 4 + ulen));
    assert(sub.subrange(4, 4 + ulen) =~= utf16_le_bytes(units.push(0u16)));
    lemma_u16s_le_round_trip(units.push(0u16));
    assert(u16s_from_le_bytes(data.subrange(body, body + ulen)) == units.push(0u16));
    assert(units.push(0u16).take(units.len() as int) =~= units);
    crate::utf16::lemma_utf16_round_trip(s);
}

impl Deserialize for String {
    open spec fn dec(data: Seq<u8>, pos: int) -> DecOutcome<Seq<char>> {
        match str_dec_opt(data, pos) {
            DecOutcome::Found(ov, p) => match ov {
                Option::Some(chars) => DecOutcome::Found(chars, p),
                Option::None => DecOutcome::Fail(StatusCode::UnexpectedNull),
            },
            DecOutcome::Fail(e) => DecOutcome::Fail(e),
        }
    }

    fn deserialize(parcel: &mut Parcel) -> (r: Result<String, StatusCode>) {
        match read_str_opt(parcel) {
            Ok(v) => match v {
                Some(s) => Ok(s),
                None => Err(StatusCode::UnexpectedNull),
            },
            Err(e) => Err(e),
        }
    }

    proof fn lemma_round_trip(v: String, data: Seq<u8>, pos: int) {
        lemma_str_round_trip(v@, data, pos);
    }
}

impl SerializeOption for String {
    open spec fn enc_opt(v: Option<String>) -> Seq<u8> {
        match v {
            Option::None => spec_i32_to_le(-1i32),
            Option::Some(s) => str_enc(s@),
        }
    }

    open spec fn enc_opt_ok(v: Option<String>) -> bool {
        match v {
            Option::None => true,
            Option::Some(s) => str_enc_ok(s@),
        }
    }

    open spec fn enc_opt_objects(v: Option<String>, base: int) -> Seq<u64> {
        Seq::empty()
    }

    proof fn lemma_enc_opt_aligned(v: Option<String>) {
        lemma_auto_spec_u32_to_from_le_bytes();
        match v {
            Option::None => {
            },
            Option::Some(s) => {
                lemma_str_enc_len(s@);
            },
        }
    }

    fn serialize_option(this: Option<&String>, parcel: &mut Parcel) -> (r: Result<
        (),
        StatusCode,
    >) {
        match this {
            None => {
                proof {
                    lemma_auto_spec_u32_to_from_le_bytes();
                }
                let res = parcel.write_i32_aligned(-1);
                proof {
                    if res is Ok {
                        assert(parcel.data@ =~= old(parcel).data@ + Self::enc_opt(opt_val(this)));
                        assert(parcel.objects@ =~= old(parcel).objects@ + Self::enc_opt_objects(
                            opt_val(this),
                            old(parcel).data@.len() as int,
                        ));
                    }
                }
                res
            },
            Some(s) => {
                let res = write_str(s.as_str(), parcel);
                proof {
                    if res is Ok {
                        assert(parcel.objects@ =~= old(parcel).objects@ + Self::enc_opt_objects(
                            opt_val(this),
                            old(parcel).data@.len() as int,
                        ));
                    }
                }
                res
            },
        }
    }
}

impl DeserializeOption for String {
    open spec fn dec_opt(data: Seq<u8>, pos: int) -> DecOutcome<Option<Seq<char>>> {
        str_dec_opt(data, pos)
    }

    fn deserialize_option(parcel: &mut Parcel) -> (r: Result<Option<String>, StatusCode>) {
        read_str_opt(parcel)
    }

    proof fn lemma_opt_round_trip(v: Option<String>, data: Seq<u8>, pos: int) {
        match v {
            Option::None => {
                lemma_auto_spec_u32_to_from_le_bytes();
                crate::parcel::lemma_i32_le_round_trip(-1i32);
                assert(data.subrange(pos, pos + 4) == spec_i32_to_le(-1i32));
            },
            Option::Some(s) => {
                lemma_str_round_trip(s@, data, pos);
            },
        }
    }
}

} // verus!

verus! {

/// The concatenated encodings of a run of elements.
pub open spec fn enc_seq<T: Serialize>(s: Seq<T>) -> Seq<u8>
    decreases s.len(),
{
    if s.len() == 0 {
        Seq::empty()
    } else {
        s[0].enc() + enc_seq(s.drop_first())
    }
}

/// Whether every element of the run is encodable.
pub open spec fn enc_seq_ok<T: Serialize>(s: Seq<T>) -> bool {
    forall|i: int| 0 <= i < s.len() ==> (#[trigger] s[i]).enc_ok()
}

/// The object offsets a run of elements records, the first encoding
/// starting at byte `base`.
pub open spec fn enc_seq_objects<T: Serialize>(s: Seq<T>, base: int) -> Seq<u64>
    decreases s.len(),
{
    if s.len() == 0 {
        Seq::empty()
    } else {
        s[0].enc_objects(base) + enc_seq_objects(s.drop_first(), base + s[0].enc().len())
    }
}

/// Element encoding appends element-wise.
pub proof fn lemma_enc_seq_push<T: Serialize>(s: Seq<T>, x: T)
    ensures
        enc_seq(s.push(x)) == enc_seq(s) + x.enc(),
    decreases s.len(),
{
    if s.len() == 0 {
        assert(s.push(x)[0] == x);
        assert(s.push(x).drop_first() =~= Seq::<T>::empty());
        assert(enc_seq(Seq::<T>::empty()) == Seq::<u8>::empty());
        assert(enc_seq(s.push(x)) == x.enc() + Seq::<u8>::empty());
        assert(enc_seq(s) == Seq::<u8>::empty());
        assert(enc_seq(s.push(x)) =~= enc_seq(s) + x.enc());
    } else {
        lemma_enc_seq_push(s.drop_first(), x);
        assert(s.push(x).drop_first() =~= s.drop_first().push(x));
        assert(s.push(x)[0] == s[0]);
        assert(enc_seq(s.push(x)) == s[0].enc() + enc_seq(s.drop_first().push(x)));
        assert(enc_seq(s) == s[0].enc() + enc_seq(s.drop_first()));
        assert(enc_seq(s.push(x)) =~= enc_seq(s) + x.enc());
    }
}

/// Recorded offsets append element-wise, each element's base shifted past
/// the encodings before it.
pub proof fn lemma_enc_seq_objects_push<T: Serialize>(s: Seq<T>, x: T, base: int)
    ensures
        enc_seq_objects(s.push(x), base) == enc_seq_objects(s, base) + x.enc_objects(
            base + enc_seq(s).len(),
        ),
    decreases s.len(),
{
    if s.len() == 0 {
        assert(s.push(x)[0] == x);
        assert(s.push(x).drop_first() =~= Seq::<T>::empty());
        assert(enc_seq_objects(Seq::<T>::empty(), base + x.enc().len()) == Seq::<u64>::empty());
        assert(enc_seq(s) == Seq::<u8>::empty());
        assert(enc_seq_objects(s, base) == Seq::<u64>::empty());
        assert(enc_seq_objects(s.push(x), base) == x.enc_objects(base) + Seq::<u64>::empty());
        assert(enc_seq_objects(s.push(x), base) =~= enc_seq_objects(s, base) + x.enc_objects(
            base + enc_seq(s).len(),
        ));
    } else {
        lemma_enc_seq_objects_push(s.drop_first(), x, base + s[0].enc().len());
        assert(s.push(x).drop_first() =~= s.drop_first().push(x));
        assert(s.push(x)[0] == s[0]);
        assert(enc_seq_objects(s.push(x), base) == s[0].enc_objects(base) + enc_seq_objects(
            s.drop_first().push(x),
            base + s[0].enc().len(),
        ));
        assert(enc_seq_objects(s, base) == s[0].enc_objects(base) + enc_seq_objects(
            s.drop_first(),
            base + s[0].enc().len(),
        ));
        assert(enc_seq(s) == s[0].enc() + enc_seq(s.drop_first()));
        assert(enc_seq_objects(s.push(x), base) =~= enc_seq_objects(s, base) + x.enc_objects(
            base + enc_seq(s).len(),
        ));
    }
}

/// A run's encoding splits at any element boundary.
pub proof fn lemma_enc_seq_split<T: Serialize>(s: Seq<T>, i: int)
    requires
        0 <= i <= s.len(),
    ensures
        enc_seq(s) == enc_seq(s.take(i)) + enc_seq(s.skip(i)),
    decreases i,
{
    if i == 0 {
        assert(s.take(0) =~= Seq::<T>::empty());
        assert(s.skip(0) =~= s);
        assert(enc_seq(Seq::<T>::empty()) == Seq::<u8>::empty());
        assert(enc_seq(s) =~= enc_seq(s.take(0)) + enc_seq(s.skip(0)));
    } else {
        lemma_enc_seq_push(s.take(i - 1), s[i - 1]);
        lemma_enc_seq_split(s, i - 1);
        assert(s.take(i) =~= s.take(i - 1).push(s[i - 1]));
        assert(s.skip(i - 1)[0] == s[i - 1]);
        assert(s.skip(i - 1).drop_first() =~= s.skip(i));
        assert(enc_seq(s.skip(i - 1)) == s[i - 1].enc() + enc_seq(s.skip(i)));
        assert(enc_seq(s) =~= enc_seq(s.take(i)) + enc_seq(s.skip(i)));
    }
}

/// A run of encodable elements encodes to a whole number of 4-byte words.
pub proof fn lemma_enc_seq_aligned<T: Serialize>(s: Seq<T>)
    ensures
        enc_seq_ok(s) ==> enc_seq(s).len() % 4 == 0,
    decreases s.len(),
{
    if s.len() > 0 && enc_seq_ok(s) {
        assert(s[0].enc_ok());
        s[0].lemma_enc_aligned();
        assert(forall|i: int|
            0 <= i < s.drop_first().len() ==> (#[trigger] s.drop_first()[i]).enc_ok());
        lemma_enc_seq_aligned(s.drop_first());
    }
}

/// The wire bytes of a present run of elements: a 32-bit element count and
/// then each element's own encoding.
pub open spec fn enc_vec<T: Serialize>(s: Seq<T>) -> Seq<u8> {
    spec_i32_to_le(s.len() as i32) + enc_seq(s)
}

/// Whether a run fits the wire format: the count fits a 32-bit signed
/// count and every element is encodable.
pub open spec fn enc_vec_ok<T: Serialize>(s: Seq<T>) -> bool {
    s.len() <= 0x7fffffff && enc_seq_ok(s)
}

/// The outcome of decoding `n` consecutive elements.
pub open spec fn dec_elems<T: Deserialize>(data: Seq<u8>, pos: int, n: int) -> DecOutcome<
    Seq<T::V>,
>
    decreases n,
{
    if n <= 0 {
        DecOutcome::Found(Seq::empty(), pos)
    } else {
        match T::dec(data, pos) {
            DecOutcome::Found(v, p) => match dec_elems::<T>(data, p, n - 1) {
                DecOutcome::Found(s, p2) => DecOutcome::Found(seq![v] + s, p2),
                DecOutcome::Fail(e) => DecOutcome::Fail(e),
            },
            DecOutcome::Fail(e) => DecOutcome::Fail(e),
        }
    }
}

/// Decoding an optional run at a cursor: a `-1` count is absence, any other
/// negative count is a decode error, a count in range announces that many
/// elements.
pub open spec fn dec_vec_opt<T: Deserialize>(data: Seq<u8>, pos: int) -> DecOutcome<
    Option<Seq<T::V>>,
> {
    if 0 <= pos && pos + 4 <= data.len() {
        let n = spec_i32_from_le(data.subrange(pos, pos + 4));
        if n == -1 {
            DecOutcome::Found(Option::None, pos + 4)
        } else if n < 0 {
            DecOutcome::Fail(StatusCode::BadValue)
        } else {
            match dec_elems::<T>(data, pos + 4, n as int) {
                DecOutcome::Found(s, p) => DecOutcome::Found(Option::Some(s), p),
                DecOutcome::Fail(e) => DecOutcome::Fail(e),
            }
        }
    } else {
        DecOutcome::Fail(StatusCode::NotEnoughData)
    }
}

/// Writes a present run of elements at the buffer's aligned end cursor: the
/// element count, then each element in order.
pub fn write_array<T: Serialize>(slice: &[T], parcel: &mut Parcel) -> (r: Result<(), StatusCode>)
    requires
        old(parcel).wf(),
        old(parcel).at_end(),
        old(parcel).pos % 4 == 0,
    ensures
        final(parcel).wf(),
        final(parcel).at_end(),
        final(parcel).pos % 4 == 0,
        r is Ok <==> (enc_vec_ok(slice@) && old(parcel).data@.len() + enc_vec(slice@).len()
            <= PARCEL_MAX),
        r is Ok ==> {
            &&& final(parcel).data@ == old(parcel).data@ + enc_vec(slice@)
            &&& final(parcel).objects@ == old(parcel).objects@ + enc_seq_objects(
                slice@,
                old(parcel).data@.len() + 4int,
            )
        },
{
    proof {
        lemma_auto_spec_u32_to_from_le_bytes();
    }
    if slice.len() > 0x7fffffff {
        return Err(StatusCode::BadValue);
    }
    let n = slice.len() as i32;
    let res = parcel.write_i32_aligned(n);
    if res.is_err() {
        proof {
            assert(enc_vec(slice@).len() >= 4);
        }
        return res;
    }
    let ghost base = old(parcel).data@;
    proof {
        assert(parcel.data@ =~= base + spec_i32_to_le(n));
        assert(slice@.take(0) =~= Seq::<T>::empty());
        assert(parcel.data@ =~= base + spec_i32_to_le(n) + enc_seq(slice@.take(0)));
        assert(parcel.objects@ =~= old(parcel).objects@ + enc_seq_objects(
            slice@.take(0),
            base.len() + 4int,
        ));
    }
    let mut i: usize = 0;
    while i < slice.len()
        invariant
            i <= slice@.len(),
            slice@.len() <= 0x7fffffff,
            parcel.wf(),
            parcel.at_end(),
            parcel.pos % 4 == 0,
            base == old(parcel).data@,
            parcel.data@ == base + spec_i32_to_le(slice@.len() as i32) + enc_seq(
                slice@.take(i as int),
            ),
            parcel.objects@ == old(parcel).objects@ + enc_seq_objects(
                slice@.take(i as int),
                base.len() + 4int,
            ),
            enc_seq_ok(slice@.take(i as int)),
        decreases slice@.len() - i,
    {
        let ghost cur = parcel.data@;
        let elem = vstd::slice::slice_index_get(slice, i);
        let res2 = elem.serialize(parcel);
        proof {
            lemma_auto_spec_u32_to_from_le_bytes();
            lemma_enc_seq_push(slice@.take(i as int), slice@[i as int]);
            lemma_enc_seq_objects_push(slice@.take(i as int), slice@[i as int], base.len() + 4int);
            assert(slice@.take(i + 1) =~= slice@.take(i as int).push(slice@[i as int]));
        }
        if res2.is_err() {
            proof {
                if !slice@[i as int].enc_ok() {
                    assert(!enc_seq_ok(slice@));
                } else {
                    assert(cur.len() + slice@[i as int].enc().len() > PARCEL_MAX);
                    lemma_enc_seq_split(slice@, i as int);
                    assert(slice@.skip(i as int)[0] == slice@[i as int]);
                    assert(slice@.skip(i as int).drop_first() =~= slice@.skip(i + 1));
                    assert(enc_seq(slice@.skip(i as int)) == slice@[i as int].enc() + enc_seq(
                        slice@.skip(i + 1),
                    ));
                    assert(enc_seq(slice@).len() >= enc_seq(slice@.take(i as int)).len()
                        + slice@[i as int].enc().len());
                    assert(base.len() + enc_vec(slice@).len() > PARCEL_MAX);
                }
            }
            return res2;
        }
        proof {
            assert(parcel.data@ =~= base + spec_i32_to_le(slice@.len() as i32) + enc_seq(
                slice@.take(i + 1),
            ));
            assert(parcel.objects@ =~= old(parcel).objects@ + enc_seq_objects(
                slice@.take(i + 1),
                base.len() + 4int,
            ));
        }
        i += 1;
    }
    proof {
        assert(slice@.take(slice@.len() as int) =~= slice@);
        assert(parcel.data@ =~= base + enc_vec(slice@));
    }
    Ok(())
}

/// The element-wise abstraction of a run of values.
pub open spec fn deep_of_seq<T: DeepView>(s: Seq<T>) -> Seq<T::V> {
    Seq::new(s.len(), |i: int| s[i].deep_view())
}

/// Reads an optional run of elements at the buffer's cursor, exactly as
/// [`dec_vec_opt`] says.
pub fn read_vec_opt<T: Deserialize>(parcel: &mut Parcel) -> (r: Result<Option<Vec<T>>, StatusCode>)
    requires
        old(parcel).wf(),
    ensures
        final(parcel).wf(),
        final(parcel).data@ == old(parcel).data@,
        final(parcel).objects@ == old(parcel).objects@,
        match dec_vec_opt::<T>(old(parcel).data@, old(parcel).pos as int) {
            DecOutcome::Found(v, p) => {
                &&& r is Ok
                &&& r->Ok_0.deep_view() == v
                &&& final(parcel).pos == p
            },
            DecOutcome::Fail(e) => r is Err && r->Err_0 == e,
        },
{
    let ghost data = parcel.data@;
    let n = match parcel.read_i32_aligned() {
        Ok(v) => v,
        Err(e) => {
            return Err(e);
        },
    };
    if n == -1 {
        return Ok(None);
    }
    if n < 0 {
        return Err(StatusCode::BadValue);
    }
    let count = n as usize;
    let ghost start = parcel.pos as int;
    let mut acc: Vec<T> = Vec::new();
    let mut i: usize = 0;
    proof {
        assert(acc.deep_view() =~= Seq::<T::V>::empty());
        match dec_elems::<T>(data, start, count as int) {
            DecOutcome::Found(rest, p) => {
                assert(acc.deep_view() + rest =~= rest);
            },
            DecOutcome::Fail(e) => {
            },
        }
    }
    while i < count
        invariant
            i <= count,
            parcel.wf(),
            parcel.data@ == data,
            data == old(parcel).data@,
            parcel.objects@ == old(parcel).objects@,
            start == old(parcel).pos + 4,
            count <= 0x7fffffff,
            dec_vec_opt::<T>(data, old(parcel).pos as int) == (match dec_elems::<T>(
                data,
                start,
                count as int,
            ) {
                DecOutcome::Found(s, p) => DecOutcome::Found(Option::Some(s), p),
                DecOutcome::Fail(e) => DecOutcome::Fail(e),
            }),
            acc.deep_view().len() == i,
            dec_elems::<T>(data, start, count as int) == (match dec_elems::<T>(
                data,
                parcel.pos as int,
                count - i,
            ) {
                DecOutcome::Found(rest, p) => DecOutcome::Found(acc.deep_view() + rest, p),
                DecOutcome::Fail(e) => DecOutcome::Fail(e),
            }),
        decreases count - i,
    {
        let ghost cur = parcel.pos as int;
        let elem = match T::deserialize(parcel) {
            Ok(v) => v,
            Err(e) => {
                proof {
                    assert(dec_elems::<T>(data, cur, count - i) == DecOutcome::<Seq<T::V>>::Fail(e));
                }
                return Err(e);
            },
        };
        proof {
            let v = elem.deep_view();
            assert(T::dec(data, cur) == DecOutcome::Found(v, parcel.pos as int));
        }
        let ghost dv_old = acc.deep_view();
        acc.push(elem);
        proof {
            let v = elem.deep_view();
            assert(acc.deep_view() =~= dv_old.push(v));
            match dec_elems::<T>(data, parcel.pos as int, count - i - 1) {
                DecOutcome::Found(rest, p) => {
                    assert(dec_elems::<T>(data, cur, count - i) == DecOutcome::Found(
                        seq![v] + rest,
                        p,
                    ));
                    assert(dv_old + (seq![v] + rest) =~= acc.deep_view() + rest);
                },
                DecOutcome::Fail(e) => {
                    assert(dec_elems::<T>(data, cur, count - i) == DecOutcome::<Seq<
                        T::V,
                    >>::Fail(e));
                },
            }
        }
        i += 1;
    }
    proof {
        assert(dec_elems::<T>(data, parcel.pos as int, 0) == DecOutcome::Found(
            Seq::<T::V>::empty(),
            parcel.pos as int,
        ));
        assert(acc.deep_view() + Seq::<T::V>::empty() =~= acc.deep_view());
    }
    Ok(Some(acc))
}

} // verus!

verus! {

/// A value that can be written as an element of a sequence.
pub trait SerializeArray: Serialize + Sized {

}

/// A value that can be read as an element of a sequence. Every such value
/// can be written as one too, which lets the round-trip law be stated.
pub trait DeserializeArray: Deserialize + SerializeArray {

}

impl SerializeArray for i8 {

}

impl DeserializeArray for i8 {

}

impl SerializeArray for u8 {

}

impl DeserializeArray for u8 {

}

impl SerializeArray for i16 {

}

impl DeserializeArray for i16 {

}

impl SerializeArray for u16 {

}

impl DeserializeArray for u16 {

}

impl SerializeArray for i32 {

}

impl DeserializeArray for i32 {

}

impl SerializeArray for u32 {

}

impl DeserializeArray for u32 {

}

impl SerializeArray for i64 {

}

impl DeserializeArray for i64 {

}

impl SerializeArray for u64 {

}

impl DeserializeArray for u64 {

}

impl SerializeArray for bool {

}

impl DeserializeArray for bool {

}

impl SerializeArray for String {

}

impl DeserializeArray for String {

}

impl<T: SerializeOption> SerializeArray for Option<T> {

}

impl<T: DeserializeOption> DeserializeArray for Option<T> {

}

/// Consecutive encodings decode back to the elements, one after another.
pub proof fn lemma_dec_elems_of_enc_seq<T: Serialize + Deserialize>(
    s: Seq<T>,
    data: Seq<u8>,
    pos: int,
)
    requires
        enc_seq_ok(s),
        0 <= pos,
        pos % 4 == 0,
        pos + enc_seq(s).len() <= data.len(),
        data.subrange(pos, pos + enc_seq(s).len()) == enc_seq(s),
    ensures
        dec_elems::<T>(data, pos, s.len() as int) == DecOutcome::Found(
            deep_of_seq(s),
            pos + enc_seq(s).len(),
        ),
    decreases s.len(),
{
    if s.len() == 0 {
        assert(deep_of_seq(s) =~= Seq::<T::V>::empty());
    } else {
        let x = s[0];
        let e = enc_seq(s);
        let sub = data.subrange(pos, pos + e.len());
        assert(e == x.enc() + enc_seq(s.drop_first()));
        x.lemma_enc_aligned();
        lemma_enc_seq_aligned(s.drop_first());
        assert(forall|i: int|
            0 <= i < s.drop_first().len() ==> (#[trigger] s.drop_first()[i]).enc_ok());
        assert(data.subrange(pos, pos + x.enc().len()) =~= sub.subrange(0, x.enc().len() as int));
        assert(sub.subrange(0, x.enc().len() as int) =~= x.enc());
        T::lemma_round_trip(x, data, pos);
        let p2 = pos + x.enc().len();
        assert(data.subrange(p2, p2 + enc_seq(s.drop_first()).len()) =~= sub.subrange(
            x.enc().len() as int,
            e.len() as int,
        ));
        assert(sub.subrange(x.enc().len() as int, e.len() as int) =~= enc_seq(s.drop_first()));
        lemma_dec_elems_of_enc_seq::<T>(s.drop_first(), data, p2);
        assert(deep_of_seq(s) =~= seq![x.deep_view()] + deep_of_seq(s.drop_first()));
    }
}

/// The round-trip argument for a present run's encoding.
pub proof fn lemma_vec_round_trip<T: Serialize + Deserialize>(s: Seq<T>, data: Seq<u8>, pos: int)
    requires
        enc_vec_ok(s),
        0 <= pos,
        pos % 4 == 0,
        pos + enc_vec(s).len() <= data.len(),
        data.subrange(pos, pos + enc_vec(s).len()) == enc_vec(s),
    ensures
        dec_vec_opt::<T>(data, pos) == DecOutcome::Found(
            Option::Some(deep_of_seq(s)),
            pos + enc_vec(s).len(),
        ),
{
    lemma_auto_spec_u32_to_from_le_bytes();
    let n = s.len() as i32;
    crate::parcel::lemma_i32_le_round_trip(n);
    let e = enc_vec(s);
    let sub = data.subrange(pos, pos + e.len());
    assert(data.subrange(pos, pos + 4) =~= sub.subrange(0, 4));
    assert(sub.subrange(0, 4) =~= spec_i32_to_le(n));
    assert(data.subrange(pos + 4, pos + 4 + enc_seq(s).len()) =~= sub.subrange(
        4,
        4 + enc_seq(s).len() as int,
    ));
    assert(sub.subrange(4, 4 + enc_seq(s).len() as int) =~= enc_seq(s));
    lemma_dec_elems_of_enc_seq::<T>(s, data, pos + 4);
}

impl<T: SerializeArray> Serialize for Vec<T> {
    open spec fn enc(&self) -> Seq<u8> {
        enc_vec(self@)
    }

    open spec fn enc_ok(&self) -> bool {
        enc_vec_ok(self@)
    }

    open spec fn enc_objects(&self, base: int) -> Seq<u64> {
        enc_seq_objects(self@, base + 4)
    }

    proof fn lemma_enc_aligned(&self) {
        lemma_auto_spec_u32_to_from_le_bytes();
        lemma_enc_seq_aligned(self@);
    }

    fn serialize(&self, parcel: &mut Parcel) -> (r: Result<(), StatusCode>) {
        write_array(self.as_slice(), parcel)
    }
}

impl<T: DeserializeArray> Deserialize for Vec<T> {
    open spec fn dec(data: Seq<u8>, pos: int) -> DecOutcome<Seq<T::V>> {
        match dec_vec_opt::<T>(data, pos) {
            DecOutcome::Found(ov, p) => match ov {
                Option::Some(s) => DecOutcome::Found(s, p),
                Option::None => DecOutcome::Fail(StatusCode::UnexpectedNull),
            },
            DecOutcome::Fail(e) => DecOutcome::Fail(e),
        }
    }

    fn deserialize(parcel: &mut Parcel) -> (r: Result<Vec<T>, StatusCode>) {
        match read_vec_opt::<T>(parcel) {
            Ok(v) => match v {
                Some(s) => Ok(s),
                None => Err(StatusCode::UnexpectedNull),
            },
            Err(e) => Err(e),
        }
    }

    proof fn lemma_round_trip(v: Vec<T>, data: Seq<u8>, pos: int) {
        lemma_vec_round_trip::<T>(v@, data, pos);
        assert(v.deep_view() =~= deep_of_seq(v@));
    }
}

impl<T: SerializeArray> SerializeOption for Vec<T> {
    open spec fn enc_opt(v: Option<Vec<T>>) -> Seq<u8> {
        match v {
            Option::None => spec_i32_to_le(-1i32),
            Option::Some(s) => enc_vec(s@),
        }
    }

    open spec fn enc_opt_ok(v: Option<Vec<T>>) -> bool {
        match v {
            Option::None => true,
            Option::Some(s) => enc_vec_ok(s@),
        }
    }

    open spec fn enc_opt_objects(v: Option<Vec<T>>, base: int) -> Seq<u64> {
        match v {
            Option::None => Seq::empty(),
            Option::Some(s) => enc_seq_objects(s@, base + 4),
        }
    }

    proof fn lemma_enc_opt_aligned(v: Option<Vec<T>>) {
        lemma_auto_spec_u32_to_from_le_bytes();
        match v {
            Option::None => {
            },
            Option::Some(s) => {
                lemma_enc_seq_aligned(s@);
            },
        }
    }

    fn serialize_option(this: Option<&Vec<T>>, parcel: &mut Parcel) -> (r: Result<
        (),
        StatusCode,
    >) {
        match this {
            None => {
                proof {
                    lemma_auto_spec_u32_to_from_le_bytes();
                }
                let res = parcel.write_i32_aligned(-1);
                proof {
                    if res is Ok {
                        assert(parcel.data@ =~= old(parcel).data@ + Self::enc_opt(opt_val(this)));
                        assert(parcel.objects@ =~= old(parcel).objects@ + Self::enc_opt_objects(
                            opt_val(this),
                            old(parcel).data@.len() as int,
                        ));
                    }
                }
                res
            },
            Some(s) => write_array(s.as_slice(), parcel),
        }
    }
}

impl<T: DeserializeArray> DeserializeOption for Vec<T> {
    open spec fn dec_opt(data: Seq<u8>, pos: int) -> DecOutcome<Option<Seq<T::V>>> {
        dec_vec_opt::<T>(data, pos)
    }

    fn deserialize_option(parcel: &mut Parcel) -> (r: Result<Option<Vec<T>>, StatusCode>) {
        read_vec_opt::<T>(parcel)
    }

    proof fn lemma_opt_round_trip(v: Option<Vec<T>>, data: Seq<u8>, pos: int) {
        match v {
            Option::None => {
                lemma_auto_spec_u32_to_from_le_bytes();
                crate::parcel::lemma_i32_le_round_trip(-1i32);
                assert(data.subrange(pos, pos + 4) == spec_i32_to_le(-1i32));
            },
            Option::Some(s) => {
                lemma_vec_round_trip::<T>(s@, data, pos);
                assert(s.deep_view() =~= deep_of_seq(s@));
            },
        }
    }
}

} // verus!

verus! {

impl DeepView for ObjectRef {
    type V = ObjectRef;

    open spec fn deep_view(&self) -> ObjectRef {
        *self
    }
}

/// The wire bytes of a strong object reference: the fixed-layout object
/// record (type tag, flags, 64-bit payload, 64-bit cookie) and the trailing
/// stability tag.
pub open spec fn object_ref_enc(o: ObjectRef) -> Seq<u8> {
    match o {
        ObjectRef::Local { id } => spec_u32_to_le_bytes(BINDER_TYPE_BINDER) + spec_u32_to_le_bytes(
            0u32,
        ) + spec_u64_to_le_bytes(id) + spec_u64_to_le_bytes(id) + spec_i32_to_le(
            crate::binder::stability_rank(Stability::System) as i32,
        ),
        ObjectRef::Handle { handle } => spec_u32_to_le_bytes(BINDER_TYPE_HANDLE)
            + spec_u32_to_le_bytes(0u32) + spec_u64_to_le_bytes(handle as u64)
            + spec_u64_to_le_bytes(0u64) + spec_i32_to_le(
            crate::binder::stability_rank(Stability::System) as i32,
        ),
    }
}

/// Byte length of an encoded strong object reference: the object record and
/// its stability tag.
pub const OBJECT_REF_ENC_SIZE: usize = 28;

/// An encoded reference is the object record plus a 4-byte stability tag.
pub proof fn lemma_object_ref_enc_len(o: ObjectRef)
    ensures
        object_ref_enc(o).len() == OBJECT_REF_ENC_SIZE,
{
    lemma_auto_spec_u32_to_from_le_bytes();
    lemma_auto_spec_u64_to_from_le_bytes();
}

/// What a strong object reference decodes to: dispatch on the wire type
/// tag, a locally-hosted tag giving the arena id and a handle tag giving
/// the driver handle; any other tag is a type error.
pub open spec fn object_ref_dec(data: Seq<u8>, pos: int) -> DecOutcome<ObjectRef> {
    if 0 <= pos && pos + OBJECT_REF_ENC_SIZE <= data.len() {
        let t = spec_u32_from_le_bytes(data.subrange(pos, pos + 4));
        let payload = spec_u64_from_le_bytes(data.subrange(pos + 8, pos + 16));
        if t == BINDER_TYPE_BINDER {
            DecOutcome::Found(ObjectRef::Local { id: payload }, pos + OBJECT_REF_ENC_SIZE)
        } else if t == BINDER_TYPE_HANDLE {
            DecOutcome::Found(
                ObjectRef::Handle { handle: payload as u32 },
                pos + OBJECT_REF_ENC_SIZE,
            )
        } else {
            DecOutcome::Fail(StatusCode::BadType)
        }
    } else {
        DecOutcome::Fail(StatusCode::NotEnoughData)
    }
}

/// The round-trip argument for a strong object reference's encoding.
pub proof fn lemma_object_ref_round_trip(o: ObjectRef, data: Seq<u8>, pos: int)
    requires
        0 <= pos,
        pos + object_ref_enc(o).len() <= data.len(),
        data.subrange(pos, pos + object_ref_enc(o).len()) == object_ref_enc(o),
    ensures
        object_ref_dec(data, pos) == DecOutcome::Found(o, pos + object_ref_enc(o).len()),
{
    lemma_auto_spec_u32_to_from_le_bytes();
    lemma_auto_spec_u64_to_from_le_bytes();
    lemma_object_ref_enc_len(o);
    let e = object_ref_enc(o);
    let sub = data.subrange(pos, pos + e.len());
    assert(data.subrange(pos, pos + 4) =~= sub.subrange(0, 4));
    assert(data.subrange(pos + 8, pos + 16) =~= sub.subrange(8, 16));
    match o {
        ObjectRef::Local { id } => {
            assert(sub.subrange(0, 4) =~= spec_u32_to_le_bytes(BINDER_TYPE_BINDER));
            assert(sub.subrange(8, 16) =~= spec_u64_to_le_bytes(id));
        },
        ObjectRef::Handle { handle } => {
            assert(sub.subrange(0, 4) =~= spec_u32_to_le_bytes(BINDER_TYPE_HANDLE));
            assert(sub.subrange(8, 16) =~= spec_u64_to_le_bytes(handle as u64));
            assert((handle as u64) as u32 == handle) by (bit_vector);
        },
    }
}

impl Serialize for ObjectRef {
    open spec fn enc(&self) -> Seq<u8> {
        object_ref_enc(*self)
    }

    open spec fn enc_ok(&self) -> bool {
        true
    }

    open spec fn enc_objects(&self, base: int) -> Seq<u64> {
        seq![base as u64]
    }

    proof fn lemma_enc_aligned(&self) {
        lemma_object_ref_enc_len(*self);
    }

    fn serialize(&self, parcel: &mut Parcel) -> (r: Result<(), StatusCode>) {
        proof {
            lemma_auto_spec_u32_to_from_le_bytes();
            lemma_auto_spec_u64_to_from_le_bytes();
            lemma_object_ref_enc_len(*self);
        }
        if parcel.len() > PARCEL_MAX - OBJECT_REF_ENC_SIZE {
            return Err(StatusCode::NoMemory);
        }
        let base = parcel.len();
        let (tag, payload, cookie) = match self {
            ObjectRef::Local { id } => (BINDER_TYPE_BINDER, *id, *id),
            ObjectRef::Handle { handle } => (BINDER_TYPE_HANDLE, *handle as u64, 0u64),
        };
        let r1 = parcel.write_u32_aligned(tag);
        proof {
            assert(parcel.data@ =~= old(parcel).data@ + spec_u32_to_le_bytes(tag));
        }
        let ghost s1 = parcel.data@;
        let r2 = parcel.write_u32_aligned(0);
        proof {
            assert(parcel.data@ =~= s1 + spec_u32_to_le_bytes(0u32));
        }
        let ghost s2 = parcel.data@;
        let r3 = parcel.write_u64_aligned(payload);
        proof {
            assert(parcel.data@ =~= s2 + spec_u64_to_le_bytes(payload));
        }
        let ghost s3 = parcel.data@;
        let r4 = parcel.write_u64_aligned(cookie);
        proof {
            assert(parcel.data@ =~= s3 + spec_u64_to_le_bytes(cookie));
            assert(parcel.data@.len() == base + OBJECT_RECORD_SIZE);
        }
        self.note_object_offset(parcel, base);
        let ghost s4 = parcel.data@;
        let r5 = parcel.write_i32_aligned(Stability::System.to_i32());
        proof {
            assert(parcel.data@ =~= s4 + spec_i32_to_le(
                crate::binder::stability_rank(Stability::System) as i32,
            ));
            assert(parcel.data@ =~= old(parcel).data@ + self.enc());
            assert(parcel.objects@ =~= old(parcel).objects@ + self.enc_objects(
                old(parcel).data@.len() as int,
            ));
        }
        Ok(())
    }
}

impl ObjectRef {
    /// Records in the buffer's side-list that an object record starts at
    /// `base`, so the driver can walk embedded objects without re-parsing
    /// the payload.
    fn note_object_offset(&self, parcel: &mut Parcel, base: usize)
        requires
            old(parcel).wf(),
            base + OBJECT_RECORD_SIZE <= old(parcel).data@.len(),
        ensures
            final(parcel).wf(),
            final(parcel).data@ == old(parcel).data@,
            final(parcel).pos == old(parcel).pos,
            final(parcel).objects@ == old(parcel).objects@.push(base as u64),
    {
        parcel.objects.push(base as u64);
    }
}

impl Deserialize for ObjectRef {
    open spec fn dec(data: Seq<u8>, pos: int) -> DecOutcome<ObjectRef> {
        object_ref_dec(data, pos)
    }

    fn deserialize(parcel: &mut Parcel) -> (r: Result<ObjectRef, StatusCode>) {
        let ghost start = parcel.pos as int;
        if parcel.len() - parcel.data_position() < OBJECT_REF_ENC_SIZE || parcel.data_position()
            > parcel.len() {
            return Err(StatusCode::NotEnoughData);
        }
        let tag = match parcel.read_u32_aligned() {
            Ok(v) => v,
            Err(e) => {
                return Err(e);
            },
        };
        let _flags = match parcel.read_u32_aligned() {
            Ok(v) => v,
            Err(e) => {
                return Err(e);
            },
        };
        let payload = match parcel.read_u64_aligned() {
            Ok(v) => v,
            Err(e) => {
                return Err(e);
            },
        };
        let _cookie = match parcel.read_u64_aligned() {
            Ok(v) => v,
            Err(e) => {
                return Err(e);
            },
        };
        let _stability = match parcel.read_i32_aligned() {
            Ok(v) => v,
            Err(e) => {
                return Err(e);
            },
        };
        if tag == BINDER_TYPE_BINDER {
            Ok(ObjectRef::Local { id: payload })
        } else if tag == BINDER_TYPE_HANDLE {
            #[verifier::truncate]
            let handle = payload as u32;
            Ok(ObjectRef::Handle { handle })
        } else {
            Err(StatusCode::BadType)
        }
    }

    proof fn lemma_round_trip(v: ObjectRef, data: Seq<u8>, pos: int) {
        lemma_object_ref_round_trip(v, data, pos);
    }
}

impl SerializeOption for ObjectRef {
    open spec fn enc_opt(v: Option<ObjectRef>) -> Seq<u8> {
        enc_opt_flagged(v)
    }

    open spec fn enc_opt_ok(v: Option<ObjectRef>) -> bool {
        enc_opt_flagged_ok(v)
    }

    open spec fn enc_opt_objects(v: Option<ObjectRef>, base: int) -> Seq<u64> {
        enc_opt_flagged_objects(v, base)
    }

    proof fn lemma_enc_opt_aligned(v: Option<ObjectRef>) {
        lemma_enc_opt_flagged_aligned(v);
    }

    fn serialize_option(this: Option<&ObjectRef>, parcel: &mut Parcel) -> (r: Result<
        (),
        StatusCode,
    >) {
        write_opt_flagged(this, parcel)
    }
}

impl DeserializeOption for ObjectRef {
    open spec fn dec_opt(data: Seq<u8>, pos: int) -> DecOutcome<Option<ObjectRef>> {
        dec_opt_flagged::<ObjectRef>(data, pos)
    }

    fn deserialize_option(parcel: &mut Parcel) -> (r: Result<Option<ObjectRef>, StatusCode>) {
        read_opt_flagged(parcel)
    }

    proof fn lemma_opt_round_trip(v: Option<ObjectRef>, data: Seq<u8>, pos: int) {
        lemma_auto_spec_u32_to_from_le_bytes();
        match v {
            Option::Some(x) => {
                let e = enc_opt_flagged(v);
                assert(data.subrange(pos, pos + 4) =~= spec_i32_to_le(1i32));
                assert forall|k: int| 0 <= k < x.enc().len() implies data[pos + 4 + k]
                    == x.enc()[k] by {
                    assert(data.subrange(pos, pos + e.len())[4 + k] == e[4 + k]);
                }
                assert(data.subrange(pos + 4, pos + 4 + x.enc().len()) =~= x.enc());
                lemma_object_ref_round_trip(x, data, pos + 4);
            },
            Option::None => {
            },
        }
        lemma_opt_flagged_round_trip::<ObjectRef>(v, data, pos);
    }
}

impl SerializeArray for ObjectRef {

}

impl DeserializeArray for ObjectRef {

}

} // verus!
