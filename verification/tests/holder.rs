//! The parcelable holder: storing, retrieving and re-wiring arbitrary
//! parcelables validated by descriptor.

use rsbinder::parcel::Parcel;
use rsbinder::parcelable::{Serialize, Deserialize, SerializeOption, DeserializeOption};
use rsbinder::parcelable_holder::{ParcelableHolder, Parcelable, ParcelableMetadata};
use rsbinder::error::StatusCode;
use rsbinder::binder::Stability;
use vstd::prelude::Seq;

#[derive(Debug, Default, PartialEq, Clone)]
struct Point {
    x: i32,
    y: i32,
}

impl Parcelable for Point {
    fn inv(&self) -> bool {
        true
    }

    fn write_to_parcel(&self, parcel: &mut Parcel) -> Result<(), StatusCode> {
        self.x.serialize(parcel)?;
        self.y.serialize(parcel)
    }

    fn read_from_parcel(&mut self, parcel: &mut Parcel) -> Result<(), StatusCode> {
        self.x = i32::deserialize(parcel)?;
        self.y = i32::deserialize(parcel)?;
        Ok(())
    }
}

impl ParcelableMetadata for Point {
    fn spec_descriptor() -> Seq<char> {
        unreachable!() // specification-only; never called at run time
    }

    fn spec_stability(&self) -> Stability {
        Stability::Local
    }

    fn get_descriptor() -> &'static str {
        "test.Point"
    }

    fn get_stability(&self) -> Stability {
        Stability::Local
    }
}

#[derive(Debug, Default, PartialEq)]
struct Label {
    text: String,
}

impl Parcelable for Label {
    fn inv(&self) -> bool {
        true
    }

    fn write_to_parcel(&self, parcel: &mut Parcel) -> Result<(), StatusCode> {
        self.text.serialize(parcel)
    }

    fn read_from_parcel(&mut self, parcel: &mut Parcel) -> Result<(), StatusCode> {
        self.text = String::deserialize(parcel)?;
        Ok(())
    }
}

impl ParcelableMetadata for Label {
    fn spec_descriptor() -> Seq<char> {
        unreachable!() // specification-only; never called at run time
    }

    fn spec_stability(&self) -> Stability {
        Stability::Local
    }

    fn get_descriptor() -> &'static str {
        "test.Label"
    }

    fn get_stability(&self) -> Stability {
        Stability::Local
    }
}

#[test]
fn empty_holder_yields_none() {
    let mut h = ParcelableHolder::new(Stability::Local);
    assert_eq!(h.get_stability(), Stability::Local);
    assert_eq!(h.get_parcelable::<Point>().unwrap(), None);
}

#[test]
fn set_then_get_round_trips() {
    let mut h = ParcelableHolder::new(Stability::Local);
    let p = Point { x: 3, y: -4 };
    h.set_parcelable(&p).unwrap();
    assert_eq!(h.get_parcelable::<Point>().unwrap(), Some(p));
}

#[test]
fn locally_set_content_of_another_type_is_an_error() {
    let mut h = ParcelableHolder::new(Stability::Local);
    h.set_parcelable(&Point { x: 1, y: 2 }).unwrap();
    assert_eq!(h.get_parcelable::<Label>().unwrap_err(), StatusCode::BadValue);
}

#[test]
fn reset_empties_but_keeps_stability() {
    let mut h = ParcelableHolder::new(Stability::Vintf);
    assert_eq!(h.get_stability(), Stability::Vintf);
    h.reset();
    assert_eq!(h.get_stability(), Stability::Vintf);
    assert_eq!(h.get_parcelable::<Point>().unwrap(), None);
}

#[test]
fn stability_bound_refuses_weaker_content() {
    let mut h = ParcelableHolder::new(Stability::Vintf);
    assert_eq!(h.set_parcelable(&Point { x: 0, y: 0 }).unwrap_err(), StatusCode::BadValue);
}

#[test]
fn holder_round_trips_through_a_parcel() {
    let mut h = ParcelableHolder::new(Stability::Local);
    h.set_parcelable(&Point { x: 7, y: 9 }).unwrap();
    let mut wire = Parcel::new();
    h.write_to_parcel(&mut wire).unwrap();
    assert_eq!(wire.len() % 4, 0);

    wire.set_data_position(0);
    let mut h2 = ParcelableHolder::new(Stability::Local);
    h2.read_from_parcel(&mut wire).unwrap();
    assert_eq!(wire.data_position(), wire.len());
    assert_eq!(h2.get_parcelable::<Point>().unwrap(), Some(Point { x: 7, y: 9 }));
    // Wire content naming another type is absent, not an error.
    assert_eq!(h2.get_parcelable::<Label>().unwrap(), None);
}

#[test]
fn empty_holder_round_trips_through_a_parcel() {
    let h = ParcelableHolder::new(Stability::Local);
    let mut wire = Parcel::new();
    h.write_to_parcel(&mut wire).unwrap();
    wire.set_data_position(0);
    let mut h2 = ParcelableHolder::new(Stability::Local);
    h2.read_from_parcel(&mut wire).unwrap();
    assert_eq!(h2.get_parcelable::<Point>().unwrap(), None);
}

#[test]
fn wire_stability_mismatch_is_bad_value() {
    let h = ParcelableHolder::new(Stability::Vintf);
    let mut wire = Parcel::new();
    h.write_to_parcel(&mut wire).unwrap();
    wire.set_data_position(0);
    let mut h2 = ParcelableHolder::new(Stability::Local);
    assert_eq!(h2.read_from_parcel(&mut wire).unwrap_err(), StatusCode::BadValue);
}

#[test]
fn negative_wire_size_is_bad_value() {
    let mut wire = Parcel::new();
    0i32.serialize(&mut wire).unwrap(); // stability rank: local
    (-5i32).serialize(&mut wire).unwrap(); // ragged size
    wire.set_data_position(0);
    let mut h = ParcelableHolder::new(Stability::Local);
    assert_eq!(h.read_from_parcel(&mut wire).unwrap_err(), StatusCode::BadValue);
}

#[test]
fn oversized_wire_block_is_bad_value() {
    let mut wire = Parcel::new();
    0i32.serialize(&mut wire).unwrap();
    64i32.serialize(&mut wire).unwrap(); // block larger than what follows
    7u32.serialize(&mut wire).unwrap();
    wire.set_data_position(0);
    let mut h = ParcelableHolder::new(Stability::Local);
    assert_eq!(h.read_from_parcel(&mut wire).unwrap_err(), StatusCode::BadValue);
}

#[test]
fn holder_round_trips_through_the_typed_layer() {
    let mut h = ParcelableHolder::new(Stability::Local);
    h.set_parcelable(&Point { x: -1, y: 2 }).unwrap();
    let mut wire = Parcel::new();
    h.serialize(&mut wire).unwrap();
    assert_eq!(&wire.data[0..4], &[1u8, 0, 0, 0]); // present
    wire.set_data_position(0);
    let mut h2 = ParcelableHolder::deserialize(&mut wire).unwrap();
    assert_eq!(h2.get_parcelable::<Point>().unwrap(), Some(Point { x: -1, y: 2 }));
}

#[test]
fn absent_holder_uses_the_presence_flag() {
    let mut wire = Parcel::new();
    ParcelableHolder::serialize_option(None, &mut wire).unwrap();
    assert_eq!(wire.data, vec![0u8, 0, 0, 0]);
    wire.set_data_position(0);
    assert!(ParcelableHolder::deserialize_option(&mut wire).unwrap().is_none());
    wire.set_data_position(0);
    assert_eq!(
        ParcelableHolder::deserialize(&mut wire).unwrap_err(),
        StatusCode::UnexpectedNull
    );
}

#[test]
fn non_default_stability_cannot_go_back_on_the_wire_typed() {
    let h = ParcelableHolder::new(Stability::Vintf);
    let mut wire = Parcel::new();
    assert_eq!(h.serialize(&mut wire).unwrap_err(), StatusCode::BadValue);
}
