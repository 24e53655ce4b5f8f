//! Round trips and exact wire bytes of the typed serialization layer.

use rsbinder::parcel::Parcel;
use rsbinder::parcelable::{Serialize, Deserialize, SerializeOption, DeserializeOption};
use rsbinder::error::StatusCode;
use rsbinder::binder::ObjectRef;

fn fresh() -> Parcel {
    Parcel::new()
}

fn rewound(mut p: Parcel) -> Parcel {
    p.set_data_position(0);
    p
}

#[test]
fn bool_true_encodes_as_native_one_padded() {
    let mut p = fresh();
    true.serialize(&mut p).unwrap();
    assert_eq!(p.data, vec![1u8, 0, 0, 0]);
    assert_eq!(p.len() % 4, 0);
}

#[test]
fn bool_round_trip() {
    for v in [true, false] {
        let mut p = fresh();
        v.serialize(&mut p).unwrap();
        let mut p = rewound(p);
        assert_eq!(bool::deserialize(&mut p).unwrap(), v);
    }
}

#[test]
fn scalar_round_trips() {
    let mut p = fresh();
    (-7i8).serialize(&mut p).unwrap();
    200u8.serialize(&mut p).unwrap();
    (-30000i16).serialize(&mut p).unwrap();
    60000u16.serialize(&mut p).unwrap();
    i32::MIN.serialize(&mut p).unwrap();
    u32::MAX.serialize(&mut p).unwrap();
    i64::MIN.serialize(&mut p).unwrap();
    u64::MAX.serialize(&mut p).unwrap();
    assert_eq!(p.len(), 4 * 6 + 8 * 2);
    assert_eq!(p.len() % 4, 0);
    let mut p = rewound(p);
    assert_eq!(i8::deserialize(&mut p).unwrap(), -7);
    assert_eq!(u8::deserialize(&mut p).unwrap(), 200);
    assert_eq!(i16::deserialize(&mut p).unwrap(), -30000);
    assert_eq!(u16::deserialize(&mut p).unwrap(), 60000);
    assert_eq!(i32::deserialize(&mut p).unwrap(), i32::MIN);
    assert_eq!(u32::deserialize(&mut p).unwrap(), u32::MAX);
    assert_eq!(i64::deserialize(&mut p).unwrap(), i64::MIN);
    assert_eq!(u64::deserialize(&mut p).unwrap(), u64::MAX);
}

#[test]
fn narrow_integers_widen_to_four_bytes() {
    let mut p = fresh();
    200u8.serialize(&mut p).unwrap();
    assert_eq!(p.data, vec![200u8, 0, 0, 0]);
    let mut p = fresh();
    (-1i8).serialize(&mut p).unwrap();
    assert_eq!(p.data, vec![0xffu8, 0xff, 0xff, 0xff]);
}

#[test]
fn string_ab_has_exact_wire_bytes() {
    let mut p = fresh();
    String::from("AB").serialize(&mut p).unwrap();
    // 4-byte count 2, units A B and the terminator, padded to 8 bytes.
    assert_eq!(p.data, vec![2u8, 0, 0, 0, 65, 0, 66, 0, 0, 0, 0, 0]);
}

#[test]
fn string_round_trips() {
    for s in ["", "A", "AB", "hello world", "caf\u{e9}", "\u{1D11E}music\u{1F600}"] {
        let mut p = fresh();
        String::from(s).serialize(&mut p).unwrap();
        assert_eq!(p.len() % 4, 0);
        let mut p = rewound(p);
        assert_eq!(String::deserialize(&mut p).unwrap(), s);
        assert_eq!(p.data_position(), p.len());
    }
}

#[test]
fn null_string_decodes_to_absent_via_sentinel() {
    let mut p = fresh();
    String::serialize_option(None, &mut p).unwrap();
    assert_eq!(p.data, vec![0xffu8, 0xff, 0xff, 0xff]);
    let mut p = rewound(p);
    assert_eq!(String::deserialize_option(&mut p).unwrap(), None);
}

#[test]
fn non_nullable_string_over_sentinel_is_unexpected_null() {
    let mut p = fresh();
    String::serialize_option(None, &mut p).unwrap();
    let mut p = rewound(p);
    assert_eq!(String::deserialize(&mut p).unwrap_err(), StatusCode::UnexpectedNull);
}

#[test]
fn string_length_out_of_range_is_bad_value() {
    let mut p = fresh();
    (-2i32).serialize(&mut p).unwrap();
    let mut p = rewound(p);
    assert_eq!(String::deserialize(&mut p).unwrap_err(), StatusCode::BadValue);
    assert_eq!(
        String::deserialize_option(&mut rewound({
            let mut q = fresh();
            (-17i32).serialize(&mut q).unwrap();
            q
        }))
        .unwrap_err(),
        StatusCode::BadValue
    );
}

#[test]
fn present_string_option_round_trips() {
    let text = String::from("descriptor.test");
    let mut p = fresh();
    String::serialize_option(Some(&text), &mut p).unwrap();
    let mut p = rewound(p);
    assert_eq!(String::deserialize_option(&mut p).unwrap(), Some(text));
}

#[test]
fn vec_round_trips() {
    let v: Vec<i32> = vec![1, -2, 3, i32::MAX];
    let mut p = fresh();
    v.serialize(&mut p).unwrap();
    let mut p = rewound(p);
    assert_eq!(Vec::<i32>::deserialize(&mut p).unwrap(), v);

    let v: Vec<String> = vec![String::from("a"), String::from(""), String::from("xyz")];
    let mut p = fresh();
    v.serialize(&mut p).unwrap();
    let mut p = rewound(p);
    assert_eq!(Vec::<String>::deserialize(&mut p).unwrap(), v);

    let v: Vec<Option<u8>> = vec![Some(3), None, Some(255)];
    let mut p = fresh();
    v.serialize(&mut p).unwrap();
    let mut p = rewound(p);
    assert_eq!(Vec::<Option<u8>>::deserialize(&mut p).unwrap(), v);
}

#[test]
fn empty_vec_encodes_count_only() {
    let v: Vec<u32> = vec![];
    let mut p = fresh();
    v.serialize(&mut p).unwrap();
    assert_eq!(p.data, vec![0u8, 0, 0, 0]);
}

#[test]
fn null_sequence_decodes_to_absent_only_on_exact_sentinel() {
    let mut p = fresh();
    Vec::<i32>::serialize_option(None, &mut p).unwrap();
    assert_eq!(p.data, vec![0xffu8, 0xff, 0xff, 0xff]);
    let mut p = rewound(p);
    assert_eq!(Vec::<i32>::deserialize_option(&mut p).unwrap(), None);

    // A count of -2, or any other negative value, is a decode error, not
    // "absent".
    let mut q = fresh();
    (-2i32).serialize(&mut q).unwrap();
    let mut q = rewound(q);
    assert_eq!(Vec::<i32>::deserialize_option(&mut q).unwrap_err(), StatusCode::BadValue);

    let mut q = fresh();
    (i32::MIN).serialize(&mut q).unwrap();
    let mut q = rewound(q);
    assert_eq!(Vec::<i32>::deserialize_option(&mut q).unwrap_err(), StatusCode::BadValue);
}

#[test]
fn non_nullable_vec_over_sentinel_is_unexpected_null() {
    let mut p = fresh();
    Vec::<u16>::serialize_option(None, &mut p).unwrap();
    let mut p = rewound(p);
    assert_eq!(Vec::<u16>::deserialize(&mut p).unwrap_err(), StatusCode::UnexpectedNull);
}

#[test]
fn nullable_scalars_use_presence_flag() {
    let mut p = fresh();
    i32::serialize_option(Some(&5), &mut p).unwrap();
    assert_eq!(p.data, vec![1u8, 0, 0, 0, 5, 0, 0, 0]);
    let mut p = rewound(p);
    assert_eq!(i32::deserialize_option(&mut p).unwrap(), Some(5));

    let mut p = fresh();
    u64::serialize_option(None, &mut p).unwrap();
    assert_eq!(p.data, vec![0u8, 0, 0, 0]);
    let mut p = rewound(p);
    assert_eq!(u64::deserialize_option(&mut p).unwrap(), None);
}

#[test]
fn option_round_trips_through_serialize() {
    let v: Option<bool> = Some(true);
    let mut p = fresh();
    v.serialize(&mut p).unwrap();
    let mut p = rewound(p);
    assert_eq!(Option::<bool>::deserialize(&mut p).unwrap(), v);
}

#[test]
fn status_code_round_trips() {
    for s in [
        StatusCode::NoError,
        StatusCode::BadValue,
        StatusCode::BadType,
        StatusCode::UnexpectedNull,
        StatusCode::DeadObject,
        StatusCode::UnknownError,
    ] {
        let mut p = fresh();
        s.serialize(&mut p).unwrap();
        let mut p = rewound(p);
        assert_eq!(StatusCode::deserialize(&mut p).unwrap(), s);
    }
}

#[test]
fn object_ref_round_trips_and_records_offset() {
    let local = ObjectRef::Local { id: 0xdead_beef_0042 };
    let mut p = fresh();
    local.serialize(&mut p).unwrap();
    // One transferable object record, at offset 0, plus its stability tag.
    assert_eq!(p.objects, vec![0u64]);
    assert_eq!(p.len(), 28);
    let mut p = rewound(p);
    assert_eq!(ObjectRef::deserialize(&mut p).unwrap(), local);

    let handle = ObjectRef::Handle { handle: 17 };
    let mut p = fresh();
    42u32.serialize(&mut p).unwrap();
    handle.serialize(&mut p).unwrap();
    assert_eq!(p.objects, vec![4u64]);
    let mut p = rewound(p);
    assert_eq!(u32::deserialize(&mut p).unwrap(), 42);
    assert_eq!(ObjectRef::deserialize(&mut p).unwrap(), handle);
}

#[test]
fn unknown_wire_type_is_bad_type() {
    let mut p = fresh();
    0x12345678u32.serialize(&mut p).unwrap(); // not a known type tag
    0u32.serialize(&mut p).unwrap();
    0u64.serialize(&mut p).unwrap();
    0u64.serialize(&mut p).unwrap();
    0i32.serialize(&mut p).unwrap();
    let mut p = rewound(p);
    assert_eq!(ObjectRef::deserialize(&mut p).unwrap_err(), StatusCode::BadType);
}

#[test]
fn nullable_object_ref_uses_presence_flag() {
    let r = ObjectRef::Handle { handle: 3 };
    let mut p = fresh();
    ObjectRef::serialize_option(Some(&r), &mut p).unwrap();
    assert_eq!(&p.data[0..4], &[1u8, 0, 0, 0]);
    let mut p = rewound(p);
    assert_eq!(ObjectRef::deserialize_option(&mut p).unwrap(), Some(r));

    let mut p = fresh();
    ObjectRef::serialize_option(None, &mut p).unwrap();
    assert_eq!(p.data, vec![0u8, 0, 0, 0]);
    let mut p = rewound(p);
    assert_eq!(ObjectRef::deserialize_option(&mut p).unwrap(), None);
}

#[test]
fn cursor_stays_aligned_after_mixed_writes() {
    let mut p = fresh();
    true.serialize(&mut p).unwrap();
    assert_eq!(p.data_position() % 4, 0);
    String::from("A").serialize(&mut p).unwrap();
    assert_eq!(p.data_position() % 4, 0);
    7u64.serialize(&mut p).unwrap();
    assert_eq!(p.data_position() % 4, 0);
    (-2i16).serialize(&mut p).unwrap();
    assert_eq!(p.data_position() % 4, 0);
    String::from("odd").serialize(&mut p).unwrap();
    assert_eq!(p.data_position() % 4, 0);
    assert_eq!(p.len() % 4, 0);
}

#[test]
fn truncated_buffers_are_not_enough_data() {
    let mut p = Parcel::new();
    p.write_data(&[1u8, 2]).unwrap();
    p.set_data_position(0);
    assert_eq!(u32::deserialize(&mut p).unwrap_err(), StatusCode::NotEnoughData);
    assert_eq!(u64::deserialize(&mut p).unwrap_err(), StatusCode::NotEnoughData);
    assert_eq!(String::deserialize(&mut p).unwrap_err(), StatusCode::NotEnoughData);
}

#[test]
fn utf16_codec_is_exact() {
    let units = rsbinder::utf16::utf16_encode("AB");
    assert_eq!(units, vec![65u16, 66]);
    let units = rsbinder::utf16::utf16_encode("\u{1D11E}");
    assert_eq!(units, vec![0xD834u16, 0xDD1E]);
    assert_eq!(rsbinder::utf16::utf16_decode(&[65, 66]).unwrap(), "AB");
    // A lone surrogate is a decode error.
    assert_eq!(rsbinder::utf16::utf16_decode(&[0xD834]).unwrap_err(), StatusCode::BadValue);
    assert_eq!(rsbinder::utf16::utf16_decode(&[0xDD1E, 65]).unwrap_err(), StatusCode::BadValue);
}
