//! A container that can hold any parcelable, keeping it in its serialized
//! wire form: the closed alternative to open-ended dynamic type recovery.
//!
//! Content set in this process is stored pre-serialized beside its
//! descriptor; content read from the wire is stored as the raw copied
//! range and parsed on demand. Either way the holder round-trips the exact
//! bytes.

use vstd::prelude::*;
use vstd::bytes::*;

use crate::error::StatusCode;
use crate::parcel::{Parcel, spec_i32_to_le, spec_i32_from_le};
use crate::parcelable::{
    Serialize, Deserialize, SerializeOption, DeserializeOption, SerializeArray, DeserializeArray,
    DecOutcome, str_enc, str_enc_ok, lemma_str_round_trip, opt_val,
};
use crate::binder::{Stability, stability_rank};
use crate::PARCEL_MAX;

verus! {

/// A parcelable that can be carried inside a holder: it writes itself to,
/// and restores itself from, a wire buffer. Writing only ever appends;
/// reading never changes the buffer's bytes.
pub trait Parcelable {
    /// The well-formedness a value of this type keeps; writing requires it
    /// and reading establishes it.
    spec fn inv(&self) -> bool;

    /// Serializes this value onto the end of the buffer.
    fn write_to_parcel(&self, parcel: &mut Parcel) -> (r: Result<(), StatusCode>)
        requires
            self.inv(),
            old(parcel).wf(),
            old(parcel).at_end(),
            old(parcel).pos % 4 == 0,
        ensures
            final(parcel).wf(),
            final(parcel).at_end(),
            final(parcel).pos % 4 == 0,
            r is Ok ==> old(parcel).data@.len() <= final(parcel).data@.len() && final(parcel).data@.subrange(0, old(parcel).data@.len() as int) == old(parcel).data@,
    ;

    /// Restores this value from the buffer's cursor, overwriting the old
    /// value.
    fn read_from_parcel(&mut self, parcel: &mut Parcel) -> (r: Result<(), StatusCode>)
        requires
            old(parcel).wf(),
        ensures
            r is Ok ==> final(self).inv(),
            final(parcel).wf(),
            final(parcel).data@ == old(parcel).data@,
    ;
}

/// Metadata every parcelable carries: its descriptor string and its
/// stability. Generated parcelable types implement this; the two spec
/// functions give contracts a handle on what the methods return.
pub trait ParcelableMetadata {
    /// The descriptor, as the abstract character sequence contracts speak
    /// of.
    spec fn spec_descriptor() -> Seq<char>;

    /// The stability, as the abstract value contracts speak of.
    spec fn spec_stability(&self) -> Stability;

    /// The unique descriptor string of the parcelable type.
    fn get_descriptor() -> (r: &'static str)
        ensures
            r@ == Self::spec_descriptor(),
    ;

    /// The stability the parcelable promises.
    fn get_stability(&self) -> (s: Stability)
        ensures
            s == self.spec_stability(),
    ;
}

/// What a holder holds: nothing, content set in this process (serialized,
/// with its descriptor cached), or a raw range read from the wire.
#[derive(Debug)]
pub enum HolderData {
    /// No content.
    Empty,
    /// Content set in this process: the serialized descriptor and payload,
    /// with the descriptor cached beside it.
    Value {
        /// The serialized bytes: the descriptor string, then the payload.
        parcel: Parcel,
        /// The descriptor of the content.
        name: String,
    },
    /// A raw range copied from an inbound buffer, not yet parsed.
    Wire {
        /// The copied bytes: the descriptor string, then the payload.
        parcel: Parcel,
    },
}

/// A container holding an arbitrary parcelable, validated by descriptor.
#[derive(Debug)]
pub struct ParcelableHolder {
    /// The content.
    pub data: HolderData,
    /// The stability bound content must meet.
    pub stability: Stability,
}

/// The abstraction of a holder: its stability and the serialized bytes of
/// its content, if any.
pub struct HolderView {
    /// The stability bound.
    pub stability: Stability,
    /// The serialized content bytes (descriptor, then payload).
    pub content: Option<Seq<u8>>,
}

impl DeepView for ParcelableHolder {
    type V = HolderView;

    open spec fn deep_view(&self) -> HolderView {
        HolderView {
            stability: self.stability,
            content: match self.data {
                HolderData::Empty => Option::None,
                HolderData::Value { parcel, .. } => Option::Some(parcel.data@),
                HolderData::Wire { parcel } => Option::Some(parcel.data@),
            },
        }
    }
}

impl ParcelableHolder {
    /// Well-formedness: stored buffers are well-formed and whole words
    /// long, and locally-set content starts with its cached descriptor.
    pub open spec fn wf(&self) -> bool {
        match self.data {
            HolderData::Empty => true,
            HolderData::Value { parcel, name } => {
                &&& parcel.wf()
                &&& parcel.data@.len() % 4 == 0
                &&& str_enc_ok(name@)
                &&& str_enc(name@).len() <= parcel.data@.len()
                &&& parcel.data@.subrange(0, str_enc(name@).len() as int) == str_enc(name@)
            },
            HolderData::Wire { parcel } => parcel.wf() && parcel.data@.len() % 4 == 0,
        }
    }

    /// A new, empty holder with the given stability bound.
    pub fn new(stability: Stability) -> (r: ParcelableHolder)
        ensures
            r.wf(),
            r.data is Empty,
            r.stability == stability,
    {
        ParcelableHolder { data: HolderData::Empty, stability }
    }

    /// Empties the holder; the stability bound stays.
    pub fn reset(&mut self)
        ensures
            final(self).wf(),
            final(self).data is Empty,
            final(self).stability == old(self).stability,
    {
        self.data = HolderData::Empty;
    }

    /// The stability bound of this holder.
    pub fn get_stability(&self) -> (s: Stability)
        ensures
            s == self.stability,
    {
        self.stability
    }

    /// Stores a parcelable, serialized at once beside its descriptor;
    /// content of lower stability than the holder's bound is refused.
    pub fn set_parcelable<T: Parcelable + ParcelableMetadata>(&mut self, p: &T) -> (r: Result<
        (),
        StatusCode,
    >)
        requires
            old(self).wf(),
            p.inv(),
        ensures
            final(self).wf(),
            final(self).stability == old(self).stability,
            r is Err ==> *final(self) == *old(self),
            stability_rank(old(self).stability) > stability_rank(p.spec_stability()) ==> r
                == Err::<(), StatusCode>(StatusCode::BadValue),
            r is Ok ==> {
                &&& stability_rank(old(self).stability) <= stability_rank(p.spec_stability())
                &&& match final(self).data {
                    HolderData::Value { parcel, name } => {
                        &&& name@ == T::spec_descriptor()
                        &&& str_enc(T::spec_descriptor()).len() <= parcel.data@.len()
                        &&& parcel.data@.subrange(0, str_enc(T::spec_descriptor()).len() as int)
                            == str_enc(T::spec_descriptor())
                    },
                    _ => false,
                }
            },
    {
        let own_rank = self.stability.to_i32();
        let their_rank = p.get_stability().to_i32();
        if own_rank > their_rank {
            return Err(StatusCode::BadValue);
        }
        let name = T::get_descriptor();
        let mut parcel = Parcel::new();
        match crate::parcelable::write_str(name, &mut parcel) {
            Ok(u) => u,
            Err(e) => {
                return Err(e);
            },
        };
        match p.write_to_parcel(&mut parcel) {
            Ok(u) => u,
            Err(e) => {
                return Err(e);
            },
        };
        proof {
            crate::parcelable::lemma_str_enc_len(name@);
            assert(parcel.data@.subrange(0, str_enc(name@).len() as int) =~= str_enc(name@));
        }
        self.data = HolderData::Value { parcel, name: name.to_owned() };
        Ok(())
    }

    /// Retrieves the stored parcelable as a `T`, validated by descriptor.
    /// An empty holder, or wire content naming a different type, is
    /// `None`; locally-set content naming a different type is an error;
    /// matching content is parsed as a `T`.
    pub fn get_parcelable<T: Parcelable + ParcelableMetadata + Default>(&mut self) -> (r: Result<
        Option<T>,
        StatusCode,
    >)
        requires
            old(self).wf(),
        ensures
            final(self).wf(),
            final(self).stability == old(self).stability,
            match old(self).data {
                HolderData::Empty => r == Ok::<Option<T>, StatusCode>(None) && *final(self)
                    == *old(self),
                HolderData::Value { parcel: pv, name } => {
                    &&& name@ != T::spec_descriptor() ==> r == Err::<Option<T>, StatusCode>(
                        StatusCode::BadValue,
                    ) && *final(self) == *old(self)
                    &&& name@ == T::spec_descriptor() ==> {
                        &&& match final(self).data {
                            HolderData::Value { parcel: kept, name: kept_name } => kept.data@
                                == pv.data@ && kept_name@ == name@,
                            _ => false,
                        }
                        &&& match r {
                            Ok(v) => v is Some && v->Some_0.inv(),
                            Err(_) => true,
                        }
                    }
                },
                HolderData::Wire { parcel: pw } => {
                    &&& match final(self).data {
                        HolderData::Wire { parcel: kept } => kept.data@ == pw.data@,
                        _ => false,
                    }
                    &&& match <String as Deserialize>::dec(pw.data@, 0) {
                        DecOutcome::Found(chars, q) => {
                            &&& chars != T::spec_descriptor() ==> r == Ok::<
                                Option<T>,
                                StatusCode,
                            >(None)
                            &&& chars == T::spec_descriptor() ==> match r {
                                Ok(v) => v is Some && v->Some_0.inv(),
                                Err(_) => true,
                            }
                        },
                        DecOutcome::Fail(e) => r == Err::<Option<T>, StatusCode>(e),
                    }
                },
            },
    {
        let desc = T::get_descriptor();
        match &mut self.data {
            HolderData::Empty => Ok(None),
            HolderData::Value { parcel, name } => {
                let desc_owned = desc.to_owned();
                if !(*name == desc_owned) {
                    return Err(StatusCode::BadValue);
                }
                parcel.set_data_position(0);
                let ghost nm = name@;
                proof {
                    lemma_str_round_trip(nm, parcel.data@, 0);
                }
                let _skip = match <String as Deserialize>::deserialize(parcel) {
                    Ok(v) => v,
                    Err(e) => {
                        proof {
                            assert(false);
                        }
                        return Err(e);
                    },
                };
                let mut value = T::default();
                match value.read_from_parcel(parcel) {
                    Ok(u) => Ok(Some(value)),
                    Err(e) => Err(e),
                }
            },
            HolderData::Wire { parcel } => {
                parcel.set_data_position(0);
                let name = match <String as Deserialize>::deserialize(parcel) {
                    Ok(v) => v,
                    Err(e) => {
                        return Err(e);
                    },
                };
                let desc_owned = desc.to_owned();
                if !(name == desc_owned) {
                    return Ok(None);
                }
                let mut value = T::default();
                match value.read_from_parcel(parcel) {
                    Ok(u) => Ok(Some(value)),
                    Err(e) => Err(e),
                }
            },
        }
    }

    /// The serialized content bytes of this holder, if it has content.
    pub open spec fn content_bytes(&self) -> Option<Seq<u8>> {
        match self.data {
            HolderData::Empty => Option::None,
            HolderData::Value { parcel, .. } => Option::Some(parcel.data@),
            HolderData::Wire { parcel } => Option::Some(parcel.data@),
        }
    }
}

/// The wire bytes of a holder's payload (after the presence flag): its
/// stability rank, then a sized block of content bytes (zero-sized when
/// empty).
pub open spec fn holder_body_enc(stability: Stability, content: Option<Seq<u8>>) -> Seq<u8> {
    spec_i32_to_le(stability_rank(stability) as i32) + (match content {
        Option::None => spec_i32_to_le(0),
        Option::Some(bytes) => spec_i32_to_le(bytes.len() as i32) + bytes,
    })
}

impl ParcelableHolder {
    /// The object offsets a holder body records, its encoding starting at
    /// byte `base`: the content's own offsets, shifted past the rank and
    /// size words.
    pub open spec fn body_objects(&self, base: int) -> Seq<u64> {
        match self.data {
            HolderData::Empty => Seq::empty(),
            HolderData::Value { parcel, .. } => Parcel::shifted_objects(
                parcel.objects@,
                0,
                parcel.data@.len() as int,
                base + 8,
            ),
            HolderData::Wire { parcel } => Parcel::shifted_objects(
                parcel.objects@,
                0,
                parcel.data@.len() as int,
                base + 8,
            ),
        }
    }
}

/// A holder body is its two 32-bit words plus the content bytes.
pub proof fn lemma_holder_body_enc_len(stability: Stability, content: Option<Seq<u8>>)
    ensures
        holder_body_enc(stability, content).len() == 8 + (match content {
            Option::Some(b) => b.len() as int,
            Option::None => 0int,
        }),
{
    lemma_auto_spec_u32_to_from_le_bytes();
}

/// Round trip of the holder body: what `write_to_parcel` appends,
/// `read_from_parcel` of a holder with the same stability decodes back to
/// exactly the same content bytes, stopping right after them.
pub proof fn lemma_holder_body_round_trip(
    stability: Stability,
    content: Option<Seq<u8>>,
    data: Seq<u8>,
    pos: int,
)
    requires
        match content {
            Option::Some(b) => 0 < b.len() <= PARCEL_MAX && b.len() % 4 == 0,
            Option::None => true,
        },
        0 <= pos,
        pos + holder_body_enc(stability, content).len() <= data.len(),
        data.subrange(pos, pos + holder_body_enc(stability, content).len()) == holder_body_enc(
            stability,
            content,
        ),
    ensures
        holder_body_dec(data, pos, stability_rank(stability)) == DecOutcome::Found(
            content,
            pos + holder_body_enc(stability, content).len(),
        ),
{
    lemma_auto_spec_u32_to_from_le_bytes();
    lemma_holder_body_enc_len(stability, content);
    let rank = stability_rank(stability) as i32;
    crate::parcel::lemma_i32_le_round_trip(rank);
    crate::parcel::lemma_i32_le_round_trip(0i32);
    let e = holder_body_enc(stability, content);
    let sub = data.subrange(pos, pos + e.len());
    assert(data.subrange(pos, pos + 4) =~= sub.subrange(0, 4));
    assert(sub.subrange(0, 4) =~= spec_i32_to_le(rank));
    assert(data.subrange(pos + 4, pos + 8) =~= sub.subrange(4, 8));
    match content {
        Option::None => {
            assert(sub.subrange(4, 8) =~= spec_i32_to_le(0i32));
        },
        Option::Some(bytes) => {
            crate::parcel::lemma_i32_le_round_trip(bytes.len() as i32);
            assert(sub.subrange(4, 8) =~= spec_i32_to_le(bytes.len() as i32));
            assert(data.subrange(pos + 8, pos + 8 + bytes.len()) =~= sub.subrange(
                8,
                8 + bytes.len() as int,
            ));
            assert(sub.subrange(8, 8 + bytes.len() as int) =~= bytes);
        },
    }
}

impl Parcelable for ParcelableHolder {
    /// A holder's invariant is its well-formedness.
    open spec fn inv(&self) -> bool {
        self.wf()
    }

    /// Writes the stability rank and the sized content block (a zero size
    /// for an empty holder), bringing the content's object offsets along;
    /// succeeds exactly when the body fits the size bound, and a refused
    /// write leaves the buffer untouched.
    fn write_to_parcel(&self, parcel: &mut Parcel) -> (r: Result<(), StatusCode>)
        ensures
            r is Ok <==> old(parcel).data@.len() + holder_body_enc(
                self.stability,
                self.content_bytes(),
            ).len() <= PARCEL_MAX,
            r is Ok ==> {
                &&& final(parcel).data@ == old(parcel).data@ + holder_body_enc(
                    self.stability,
                    self.content_bytes(),
                )
                &&& final(parcel).objects@ == old(parcel).objects@ + self.body_objects(
                    old(parcel).data@.len() as int,
                )
            },
            r is Err ==> *final(parcel) == *old(parcel),
    {
        proof {
            lemma_auto_spec_u32_to_from_le_bytes();
            lemma_holder_body_enc_len(self.stability, self.content_bytes());
        }
        let content_len: usize = match &self.data {
            HolderData::Empty => 0,
            HolderData::Value { parcel: p, .. } => p.len(),
            HolderData::Wire { parcel: p } => p.len(),
        };
        if parcel.len() > PARCEL_MAX - 8 || content_len > PARCEL_MAX - 8 - parcel.len() {
            return Err(StatusCode::NoMemory);
        }
        let rank = self.stability.to_i32();
        let r1 = parcel.write_i32_aligned(rank);
        proof {
            assert(r1 is Ok);
            assert(parcel.data@ =~= old(parcel).data@ + spec_i32_to_le(
                stability_rank(self.stability) as i32,
            ));
        }
        let ghost s1 = parcel.data@;
        let r2 = parcel.write_i32_aligned(content_len as i32);
        proof {
            assert(r2 is Ok);
            assert(parcel.data@ =~= s1 + spec_i32_to_le(content_len as i32));
        }
        match &self.data {
            HolderData::Empty => {
                proof {
                    assert(parcel.data@ =~= old(parcel).data@ + holder_body_enc(
                        self.stability,
                        self.content_bytes(),
                    ));
                    assert(parcel.objects@ =~= old(parcel).objects@ + self.body_objects(
                        old(parcel).data@.len() as int,
                    ));
                }
                Ok(())
            },
            HolderData::Value { parcel: p, .. } => {
                let r3 = parcel.append_from(p, 0, content_len);
                proof {
                    assert(r3 is Ok);
                    assert(parcel.data@ =~= old(parcel).data@ + holder_body_enc(
                        self.stability,
                        self.content_bytes(),
                    ));
                    assert(parcel.objects@ =~= old(parcel).objects@ + self.body_objects(
                        old(parcel).data@.len() as int,
                    ));
                }
                Ok(())
            },
            HolderData::Wire { parcel: p } => {
                let r3 = parcel.append_from(p, 0, content_len);
                proof {
                    assert(r3 is Ok);
                    assert(parcel.data@ =~= old(parcel).data@ + holder_body_enc(
                        self.stability,
                        self.content_bytes(),
                    ));
                    assert(parcel.objects@ =~= old(parcel).objects@ + self.body_objects(
                        old(parcel).data@.len() as int,
                    ));
                }
                Ok(())
            },
        }
    }

    /// Restores the holder from the stability rank and the sized content
    /// block, exactly as [`holder_body_dec`] says of this holder's own
    /// rank; a failed read leaves the holder untouched.
    fn read_from_parcel(&mut self, parcel: &mut Parcel) -> (r: Result<(), StatusCode>)
        ensures
            final(parcel).objects@ == old(parcel).objects@,
            final(self).stability == old(self).stability,
            r is Err ==> *final(self) == *old(self),
            match holder_body_dec(
                old(parcel).data@,
                old(parcel).pos as int,
                stability_rank(old(self).stability),
            ) {
                DecOutcome::Found(content, p) => {
                    &&& r is Ok
                    &&& final(parcel).pos == p
                    &&& final(self).content_bytes() == content
                    &&& (final(self).data is Empty || final(self).data is Wire)
                },
                DecOutcome::Fail(e) => r is Err && r->Err_0 == e,
            },
    {
        self.read_body(parcel)
    }
}

} // verus!

verus! {

/// Whether holder content can go back on the wire: a well-formed,
/// whole-word, non-empty buffer.
pub open spec fn content_encodable(p: Parcel) -> bool {
    &&& p.wf()
    &&& p.data@.len() % 4 == 0
    &&& p.data@.len() > 0
}

/// Decides [`content_encodable`] at run time.
fn check_content(p: &Parcel) -> (r: bool)
    ensures
        r == content_encodable(*p),
{
    if p.data_position() > p.len() || p.len() > PARCEL_MAX || p.len() % 4 != 0 || p.len() == 0 {
        return false;
    }
    let mut i: usize = 0;
    while i < p.objects.len()
        invariant
            i <= p.objects@.len(),
            p.pos <= p.data@.len() <= PARCEL_MAX,
            forall|j: int|
                0 <= j < i ==> p.objects@[j] + crate::parcel::OBJECT_RECORD_SIZE
                    <= p.data@.len(),
        decreases p.objects@.len() - i,
    {
        let o = p.objects[i];
        if o > (p.len() as u64) || (p.len() as u64) - o < crate::parcel::OBJECT_RECORD_SIZE
            as u64 {
            proof {
                assert(p.objects@[i as int] + crate::parcel::OBJECT_RECORD_SIZE > p.data@.len());
            }
            return false;
        }
        i += 1;
    }
    true
}

/// The outcome of decoding a holder body (stability rank and sized content
/// block) at a cursor, for a holder expecting the given stability rank: the
/// content bytes, or absence. A rank other than the expected one, a
/// negative or ragged size, or a size past the end of the buffer is a
/// value error.
pub open spec fn holder_body_dec(data: Seq<u8>, pos: int, expected_rank: int) -> DecOutcome<
    Option<Seq<u8>>,
> {
    if !(0 <= pos && pos + 4 <= data.len()) {
        DecOutcome::Fail(StatusCode::NotEnoughData)
    } else {
        let stab = spec_i32_from_le(data.subrange(pos, pos + 4));
        if stab != expected_rank {
            DecOutcome::Fail(StatusCode::BadValue)
        } else if !(pos + 8 <= data.len()) {
            DecOutcome::Fail(StatusCode::NotEnoughData)
        } else {
            let size = spec_i32_from_le(data.subrange(pos + 4, pos + 8));
            if size < 0 {
                DecOutcome::Fail(StatusCode::BadValue)
            } else if size == 0 {
                DecOutcome::Found(Option::None, pos + 8)
            } else if size % 4 != 0 {
                DecOutcome::Fail(StatusCode::BadValue)
            } else if pos + 8 + size > data.len() {
                DecOutcome::Fail(StatusCode::BadValue)
            } else {
                DecOutcome::Found(
                    Option::Some(data.subrange(pos + 8, pos + 8 + size)),
                    pos + 8 + size,
                )
            }
        }
    }
}

impl ParcelableHolder {
    /// Restores a holder body at the cursor, exactly as [`holder_body_dec`]
    /// says of this holder's expected stability rank.
    fn read_body(&mut self, parcel: &mut Parcel) -> (r: Result<(), StatusCode>)
        requires
            old(parcel).wf(),
        ensures
            final(parcel).wf(),
            final(parcel).data@ == old(parcel).data@,
            final(parcel).objects@ == old(parcel).objects@,
            final(self).stability == old(self).stability,
            r is Ok ==> final(self).wf(),
            r is Err ==> *final(self) == *old(self),
            match holder_body_dec(
                old(parcel).data@,
                old(parcel).pos as int,
                stability_rank(old(self).stability),
            ) {
                DecOutcome::Found(content, p) => {
                    &&& r is Ok
                    &&& final(parcel).pos == p
                    &&& final(self).content_bytes() == content
                    &&& (final(self).data is Empty || final(self).data is Wire)
                },
                DecOutcome::Fail(e) => r is Err && r->Err_0 == e,
            },
    {
        let rank = self.stability.to_i32();
        let got = match parcel.read_i32_aligned() {
            Ok(v) => v,
            Err(e) => {
                return Err(e);
            },
        };
        if got != rank {
            return Err(StatusCode::BadValue);
        }
        let size = match parcel.read_i32_aligned() {
            Ok(v) => v,
            Err(e) => {
                return Err(e);
            },
        };
        if size < 0 {
            return Err(StatusCode::BadValue);
        }
        if size == 0 {
            self.data = HolderData::Empty;
            return Ok(());
        }
        if size % 4 != 0 {
            return Err(StatusCode::BadValue);
        }
        let start = parcel.data_position();
        let len = size as usize;
        let mut copied = Parcel::new();
        match copied.append_from(parcel, start, len) {
            Ok(u) => u,
            Err(e) => {
                return Err(StatusCode::BadValue);
            },
        };
        copied.set_data_position(0);
        parcel.set_data_position(start + len);
        proof {
            assert(copied.data@ =~= old(parcel).data@.subrange(
                old(parcel).pos + 8,
                old(parcel).pos + 8 + size as int,
            ));
        }
        self.data = HolderData::Wire { parcel: copied };
        Ok(())
    }
}

impl Serialize for ParcelableHolder {
    open spec fn enc(&self) -> Seq<u8> {
        spec_i32_to_le(1i32) + holder_body_enc(self.stability, self.content_bytes())
    }

    open spec fn enc_ok(&self) -> bool {
        &&& self.stability == Stability::Local
        &&& match self.data {
            HolderData::Empty => true,
            HolderData::Value { parcel, .. } => content_encodable(parcel),
            HolderData::Wire { parcel } => content_encodable(parcel),
        }
    }

    open spec fn enc_objects(&self, base: int) -> Seq<u64> {
        match self.data {
            HolderData::Empty => Seq::empty(),
            HolderData::Value { parcel, .. } => Parcel::shifted_objects(
                parcel.objects@,
                0,
                parcel.data@.len() as int,
                base + 12,
            ),
            HolderData::Wire { parcel } => Parcel::shifted_objects(
                parcel.objects@,
                0,
                parcel.data@.len() as int,
                base + 12,
            ),
        }
    }

    proof fn lemma_enc_aligned(&self) {
        lemma_auto_spec_u32_to_from_le_bytes();
    }

    fn serialize(&self, parcel: &mut Parcel) -> (r: Result<(), StatusCode>) {
        proof {
            lemma_auto_spec_u32_to_from_le_bytes();
        }
        match self.stability {
            Stability::Local => {
            },
            _ => {
                return Err(StatusCode::BadValue);
            },
        }
        let content: Option<&Parcel> = match &self.data {
            HolderData::Empty => None,
            HolderData::Value { parcel: p, .. } => Some(p),
            HolderData::Wire { parcel: p } => Some(p),
        };
        let content_len: usize = match content {
            Some(p) => {
                if !check_content(p) {
                    return Err(StatusCode::BadValue);
                }
                p.len()
            },
            None => 0,
        };
        if parcel.len() > PARCEL_MAX - 12 || content_len > PARCEL_MAX - 12 - parcel.len() {
            return Err(StatusCode::NoMemory);
        }
        let r1 = parcel.write_i32_aligned(1);
        proof {
            assert(r1 is Ok);
            assert(parcel.data@ =~= old(parcel).data@ + spec_i32_to_le(1i32));
        }
        let ghost s1 = parcel.data@;
        let r2 = parcel.write_i32_aligned(0);
        proof {
            assert(r2 is Ok);
            assert(parcel.data@ =~= s1 + spec_i32_to_le(0i32));
        }
        match content {
            None => {
                let r3 = parcel.write_i32_aligned(0);
                proof {
                    assert(r3 is Ok);
                    assert(parcel.data@ =~= old(parcel).data@ + self.enc());
                    assert(parcel.objects@ =~= old(parcel).objects@ + self.enc_objects(
                        old(parcel).data@.len() as int,
                    ));
                }
                Ok(())
            },
            Some(p) => {
                let ghost s2 = parcel.data@;
                let r3 = parcel.write_i32_aligned(content_len as i32);
                proof {
                    assert(r3 is Ok);
                    assert(parcel.data@ =~= s2 + spec_i32_to_le(p.data@.len() as i32));
                }
                let r4 = parcel.append_from(p, 0, content_len);
                proof {
                    assert(r4 is Ok);
                    assert(parcel.data@ =~= old(parcel).data@ + self.enc());
                    assert(parcel.objects@ =~= old(parcel).objects@ + self.enc_objects(
                        old(parcel).data@.len() as int,
                    ));
                }
                Ok(())
            },
        }
    }
}

impl Deserialize for ParcelableHolder {
    open spec fn dec(data: Seq<u8>, pos: int) -> DecOutcome<HolderView> {
        if !(0 <= pos && pos + 4 <= data.len()) {
            DecOutcome::Fail(StatusCode::NotEnoughData)
        } else if spec_i32_from_le(data.subrange(pos, pos + 4)) == 0 {
            DecOutcome::Fail(StatusCode::UnexpectedNull)
        } else {
            match holder_body_dec(data, pos + 4, stability_rank(Stability::Local)) {
                DecOutcome::Found(content, p) => DecOutcome::Found(
                    HolderView { stability: Stability::Local, content },
                    p,
                ),
                DecOutcome::Fail(e) => DecOutcome::Fail(e),
            }
        }
    }

    fn deserialize(parcel: &mut Parcel) -> (r: Result<ParcelableHolder, StatusCode>) {
        let flag = match parcel.read_i32_aligned() {
            Ok(v) => v,
            Err(e) => {
                return Err(e);
            },
        };
        if flag == 0 {
            return Err(StatusCode::UnexpectedNull);
        }
        let mut holder = ParcelableHolder::new(Stability::Local);
        match holder.read_body(parcel) {
            Ok(u) => Ok(holder),
            Err(e) => Err(e),
        }
    }

    proof fn lemma_round_trip(v: ParcelableHolder, data: Seq<u8>, pos: int) {
        lemma_auto_spec_u32_to_from_le_bytes();
        crate::parcel::lemma_i32_le_round_trip(1i32);
        lemma_holder_body_enc_len(v.stability, v.content_bytes());
        let e = v.enc();
        let body = holder_body_enc(v.stability, v.content_bytes());
        let sub = data.subrange(pos, pos + e.len());
        assert(data.subrange(pos, pos + 4) =~= sub.subrange(0, 4));
        assert(sub.subrange(0, 4) =~= spec_i32_to_le(1i32));
        assert(data.subrange(pos + 4, pos + 4 + body.len()) =~= sub.subrange(
            4,
            4 + body.len() as int,
        ));
        assert(sub.subrange(4, 4 + body.len() as int) =~= body);
        lemma_holder_body_round_trip(v.stability, v.content_bytes(), data, pos + 4);
    }
}

impl SerializeOption for ParcelableHolder {
    open spec fn enc_opt(v: Option<ParcelableHolder>) -> Seq<u8> {
        match v {
            Option::None => spec_i32_to_le(0i32),
            Option::Some(h) => h.enc(),
        }
    }

    open spec fn enc_opt_ok(v: Option<ParcelableHolder>) -> bool {
        match v {
            Option::None => true,
            Option::Some(h) => h.enc_ok(),
        }
    }

    open spec fn enc_opt_objects(v: Option<ParcelableHolder>, base: int) -> Seq<u64> {
        match v {
            Option::None => Seq::empty(),
            Option::Some(h) => h.enc_objects(base),
        }
    }

    proof fn lemma_enc_opt_aligned(v: Option<ParcelableHolder>) {
        lemma_auto_spec_u32_to_from_le_bytes();
        match v {
            Option::None => {
            },
            Option::Some(h) => {
                h.lemma_enc_aligned();
            },
        }
    }

    fn serialize_option(this: Option<&ParcelableHolder>, parcel: &mut Parcel) -> (r: Result<
        (),
        StatusCode,
    >) {
        match this {
            None => {
                proof {
                    lemma_auto_spec_u32_to_from_le_bytes();
                }
                let res = parcel.write_i32_aligned(0);
                proof {
                    if res is Ok {
                        assert(parcel.data@ =~= old(parcel).data@ + Self::enc_opt(opt_val(this)));
                        assert(parcel.objects@ =~= old(parcel).objects@ + Self::enc_opt_objects(
                            opt_val(this),
                            old(parcel).data@.len() as int,
                        ));
                    }
                }
                res
            },
            Some(h) => h.serialize(parcel),
        }
    }
}

impl DeserializeOption for ParcelableHolder {
    open spec fn dec_opt(data: Seq<u8>, pos: int) -> DecOutcome<Option<HolderView>> {
        if !(0 <= pos && pos + 4 <= data.len()) {
            DecOutcome::Fail(StatusCode::NotEnoughData)
        } else if spec_i32_from_le(data.subrange(pos, pos + 4)) == 0 {
            DecOutcome::Found(Option::None, pos + 4)
        } else {
            match holder_body_dec(data, pos + 4, stability_rank(Stability::Local)) {
                DecOutcome::Found(content, p) => DecOutcome::Found(
                    Option::Some((HolderView { stability: Stability::Local, content })),
                    p,
                ),
                DecOutcome::Fail(e) => DecOutcome::Fail(e),
            }
        }
    }

    fn deserialize_option(parcel: &mut Parcel) -> (r: Result<Option<ParcelableHolder>, StatusCode>) {
        let flag = match parcel.read_i32_aligned() {
            Ok(v) => v,
            Err(e) => {
                return Err(e);
            },
        };
        if flag == 0 {
            proof {
                assert(None::<ParcelableHolder>.deep_view() == None::<HolderView>);
            }
            return Ok(None);
        }
        let mut holder = ParcelableHolder::new(Stability::Local);
        match holder.read_body(parcel) {
            Ok(u) => {
                proof {
                    assert(Some(holder).deep_view() == Some(holder.deep_view()));
                }
                Ok(Some(holder))
            },
            Err(e) => Err(e),
        }
    }

    proof fn lemma_opt_round_trip(v: Option<ParcelableHolder>, data: Seq<u8>, pos: int) {
        lemma_auto_spec_u32_to_from_le_bytes();
        match v {
            Option::None => {
                crate::parcel::lemma_i32_le_round_trip(0i32);
                assert(data.subrange(pos, pos + 4) == spec_i32_to_le(0i32));
            },
            Option::Some(h) => {
                <ParcelableHolder as Deserialize>::lemma_round_trip(h, data, pos);
            },
        }
    }
}

impl SerializeArray for ParcelableHolder {

}

impl DeserializeArray for ParcelableHolder {

}

} // verus!
