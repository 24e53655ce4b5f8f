//! The wire buffer's own operations: splicing writes, backpatching,
//! aligned reads, and range copies with their object offsets.

use rsbinder::parcel::Parcel;
use rsbinder::error::StatusCode;
use rsbinder::parcelable::Serialize;
use rsbinder::binder::ObjectRef;

#[test]
fn new_parcel_is_empty() {
    let p = Parcel::new();
    assert_eq!(p.len(), 0);
    assert!(p.is_empty());
    assert_eq!(p.data_position(), 0);
}

#[test]
fn write_data_overwrites_and_grows() {
    let mut p = Parcel::new();
    p.write_data(&[1, 2, 3, 4, 5, 6]).unwrap();
    assert_eq!(p.data, vec![1, 2, 3, 4, 5, 6]);
    p.set_data_position(2);
    p.write_data(&[9, 9]).unwrap();
    assert_eq!(p.data, vec![1, 2, 9, 9, 5, 6]);
    p.write_data(&[7, 7, 7]).unwrap();
    assert_eq!(p.data, vec![1, 2, 9, 9, 7, 7, 7]);
    assert_eq!(p.data_position(), 7);
}

#[test]
fn backpatching_a_length_field() {
    // Write a placeholder length, then content, then patch the length in.
    let mut p = Parcel::new();
    p.write_i32_aligned(0).unwrap();
    let start = p.data_position();
    7u64.serialize(&mut p).unwrap();
    3u32.serialize(&mut p).unwrap();
    let end = p.data_position();
    p.set_data_position(0);
    p.write_i32_aligned((end - start) as i32).unwrap();
    p.set_data_position(end);
    assert_eq!(p.data[0], 12);
    assert_eq!(p.len(), 16);
}

#[test]
fn aligned_reads_consume_padding() {
    let mut p = Parcel::new();
    p.write_aligned_data(&[1, 2, 3, 4, 5]).unwrap();
    assert_eq!(p.len(), 8);
    assert_eq!(&p.data[5..8], &[0, 0, 0]);
    p.set_data_position(0);
    let got = p.read_aligned_data(5).unwrap();
    assert_eq!(got, vec![1, 2, 3, 4, 5]);
    assert_eq!(p.data_position(), 8);
}

#[test]
fn read_past_end_is_not_enough_data() {
    let mut p = Parcel::new();
    p.write_data(&[1, 2, 3]).unwrap();
    p.set_data_position(0);
    assert_eq!(p.read_u32_aligned().unwrap_err(), StatusCode::NotEnoughData);
    assert_eq!(p.read_aligned_data(4).unwrap_err(), StatusCode::NotEnoughData);
}

#[test]
fn append_from_validates_the_source_range() {
    let mut src = Parcel::new();
    src.write_data(&[1, 2, 3, 4, 5, 6, 7, 8]).unwrap();
    let mut dst = Parcel::new();
    // start + len overflowing the source length is rejected.
    assert_eq!(dst.append_from(&src, 6, 4).unwrap_err(), StatusCode::BadValue);
    assert_eq!(dst.append_from(&src, usize::MAX, 2).unwrap_err(), StatusCode::BadValue);
    assert_eq!(dst.len(), 0);
    dst.append_from(&src, 2, 4).unwrap();
    assert_eq!(dst.data, vec![3, 4, 5, 6]);
}

#[test]
fn append_from_carries_contained_object_offsets() {
    let mut src = Parcel::new();
    1u32.serialize(&mut src).unwrap();
    ObjectRef::Local { id: 9 }.serialize(&mut src).unwrap();
    assert_eq!(src.objects, vec![4u64]);
    let total = src.len();

    // Copying the whole buffer shifts the offset to the destination.
    let mut dst = Parcel::new();
    8u64.serialize(&mut dst).unwrap();
    dst.append_from(&src, 0, total).unwrap();
    assert_eq!(dst.objects, vec![12u64]);

    // Copying a range that cuts the record off drops its offset.
    let mut dst2 = Parcel::new();
    dst2.append_from(&src, 0, 8).unwrap();
    assert_eq!(dst2.objects, vec![]);
}

#[test]
fn from_parts_checks_object_bounds() {
    let p = Parcel::from_parts(vec![0u8; 32], vec![4u64]).unwrap();
    assert_eq!(p.len(), 32);
    assert_eq!(
        Parcel::from_parts(vec![0u8; 16], vec![4u64]).unwrap_err(),
        StatusCode::BadValue
    );
}

#[test]
fn clear_empties_everything() {
    let mut p = Parcel::new();
    p.write_aligned_data(&[1, 2, 3, 4]).unwrap();
    p.clear();
    assert_eq!(p.len(), 0);
    assert_eq!(p.data_position(), 0);
    assert_eq!(p.objects, vec![]);
}
