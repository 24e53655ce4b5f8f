//! Proxies, interface tokens, and the receiving side's interface check.

use rsbinder::parcel::Parcel;
use rsbinder::parcelable::Serialize;
use rsbinder::error::BinderError;
use rsbinder::binder::{CallRestriction, INTERFACE_HEADER, TF_ONE_WAY};
use rsbinder::thread_state::{ThreadState, WaitGoal, TransactionState, check_interface};
use rsbinder::proxy::ProxyHandle;

fn state() -> ThreadState {
    ThreadState::new(CallRestriction::Unrestricted)
}

#[test]
fn proxy_carries_handle_and_descriptor() {
    let p = ProxyHandle::new(12, String::from("android.os.IServiceManager"));
    assert_eq!(p.handle(), 12);
    assert_eq!(p.descriptor(), "android.os.IServiceManager");
}

#[test]
fn prepared_header_passes_the_interface_check() {
    let sender = state();
    let proxy = ProxyHandle::new(1, String::from("com.example.ICalc"));
    let mut data = proxy.prepare_transact(&sender, true).unwrap();

    let mut receiver = state();
    data.set_data_position(0);
    check_interface(&mut receiver, &mut data, "com.example.ICalc").unwrap();
    // The whole token was consumed.
    assert_eq!(data.data_position(), data.len());
}

#[test]
fn prepare_without_header_is_empty() {
    let sender = state();
    let proxy = ProxyHandle::new(1, String::from("com.example.ICalc"));
    let data = proxy.prepare_transact(&sender, false).unwrap();
    assert_eq!(data.len(), 0);
}

#[test]
fn mismatched_descriptor_reports_both_sides() {
    let sender = state();
    let proxy = ProxyHandle::new(1, String::from("com.example.ICalc"));
    let mut data = proxy.prepare_transact(&sender, true).unwrap();
    let mut receiver = state();
    data.set_data_position(0);
    match check_interface(&mut receiver, &mut data, "com.example.IOther").unwrap_err() {
        BinderError::BadDescriptor { expected, actual } => {
            assert_eq!(expected, "com.example.IOther");
            assert_eq!(actual, "com.example.ICalc");
        },
        e => panic!("unexpected error {:?}", e),
    }
}

#[test]
fn wrong_header_constant_is_reported() {
    let mut data = Parcel::new();
    0i32.serialize(&mut data).unwrap(); // strict-mode policy
    (-1i32).serialize(&mut data).unwrap(); // work source
    0xdeadbeefu32.serialize(&mut data).unwrap(); // not the header constant
    String::from("com.example.ICalc").serialize(&mut data).unwrap();
    data.set_data_position(0);
    let mut receiver = state();
    match check_interface(&mut receiver, &mut data, "com.example.ICalc").unwrap_err() {
        BinderError::BadInterfaceHeader { expected, actual } => {
            assert_eq!(expected, INTERFACE_HEADER);
            assert_eq!(actual, 0xdeadbeef);
        },
        e => panic!("unexpected error {:?}", e),
    }
}

#[test]
fn check_interface_adopts_policy_and_work_source() {
    let mut data = Parcel::new();
    7i32.serialize(&mut data).unwrap();
    77i32.serialize(&mut data).unwrap();
    INTERFACE_HEADER.serialize(&mut data).unwrap();
    String::from("x.I").serialize(&mut data).unwrap();
    data.set_data_position(0);
    let mut receiver = state();
    receiver.transaction = Some(TransactionState {
        calling_pid: 1,
        calling_sid: 0,
        calling_uid: 2,
        strict_mode_policy: 0,
        last_transaction_binder_flags: 0,
        work_source: 0,
        propagate_work_source: false,
    });
    check_interface(&mut receiver, &mut data, "x.I").unwrap();
    assert_eq!(receiver.strict_mode_policy(), 7);
    assert_eq!(receiver.calling_work_source_uid(), 77);
}

#[test]
fn one_way_calls_zero_the_strict_mode_policy() {
    let mut data = Parcel::new();
    7i32.serialize(&mut data).unwrap();
    (-1i32).serialize(&mut data).unwrap();
    INTERFACE_HEADER.serialize(&mut data).unwrap();
    String::from("x.I").serialize(&mut data).unwrap();
    data.set_data_position(0);
    let mut receiver = state();
    receiver.transaction = Some(TransactionState {
        calling_pid: 1,
        calling_sid: 0,
        calling_uid: 2,
        strict_mode_policy: 0,
        last_transaction_binder_flags: TF_ONE_WAY,
        work_source: 0,
        propagate_work_source: false,
    });
    check_interface(&mut receiver, &mut data, "x.I").unwrap();
    assert_eq!(receiver.strict_mode_policy(), 0);
}

#[test]
fn submit_transact_uses_the_proxy_handle() {
    let mut s = state();
    let proxy = ProxyHandle::new(9, String::from("x.I"));
    let data = Parcel::new();
    let goal = proxy.submit_transact(&mut s, 2, &data, TF_ONE_WAY, 0, 0).unwrap();
    assert_eq!(goal, WaitGoal::TransactionComplete);
    // The queued record names handle 9.
    assert_eq!(&s.out_parcel.data[4..8], &9u32.to_le_bytes());
}
