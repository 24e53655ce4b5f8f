//! The transaction engine: exchange planning, outbound command streams,
//! return interpretation, reentrancy, and the reference-count arena.

use rsbinder::parcel::Parcel;
use rsbinder::parcelable::Serialize;
use rsbinder::error::{StatusCode, BinderError, FatalReason};
use rsbinder::binder::{
    CallRestriction, LocalRegistry, TransactionRecord, BC_TRANSACTION, BC_ACQUIRE,
    BC_ACQUIRE_DONE, BC_INCREFS_DONE, BC_DEAD_BINDER_DONE, BR_NOOP, BR_TRANSACTION_COMPLETE,
    BR_ERROR, BR_DEAD_REPLY, BR_FAILED_REPLY, BR_REPLY, BR_TRANSACTION, BR_ACQUIRE, BR_RELEASE,
    BR_INCREFS, BR_DECREFS, BR_DEAD_BINDER, BR_CLEAR_DEATH_NOTIFICATION_DONE,
    BR_ATTEMPT_ACQUIRE, BC_ACQUIRE_RESULT, TF_ONE_WAY, TF_ACCEPT_FDS, TF_STATUS_CODE,
};
use rsbinder::thread_state::{
    ThreadState, TransactionState, WaitGoal, StepOutcome, READ_CAPACITY, reply_status_to_result,
    exchange_errno_disposition,
};

fn state() -> ThreadState {
    ThreadState::new(CallRestriction::Unrestricted)
}

/// Installs raw driver-return bytes as the state's unread inbound data.
fn feed(state: &mut ThreadState, bytes: Vec<u8>) {
    state.exchange_complete(0, bytes).unwrap();
}

fn u32_bytes(vals: &[u32]) -> Vec<u8> {
    let mut p = Parcel::new();
    for v in vals {
        v.serialize(&mut p).unwrap();
    }
    p.data
}

#[test]
fn exchange_request_says_what_to_carry() {
    let mut s = state();
    // Nothing queued, nothing unread, no receiving: nothing to do.
    assert_eq!(s.exchange_request(false), None);
    // Receiving with an empty inbound buffer offers the read capacity.
    assert_eq!(s.exchange_request(true), Some((0, READ_CAPACITY)));
    // Queued commands are written.
    s.queue_enter_looper().unwrap();
    assert_eq!(s.exchange_request(false), Some((4, 0)));
    assert_eq!(s.exchange_request(true), Some((4, READ_CAPACITY)));
    // Unread inbound data suppresses both writing and reading.
    feed(&mut s, u32_bytes(&[BR_NOOP]));
    assert_eq!(s.exchange_request(true), None);
}

#[test]
fn partial_outbound_consumption_is_fatal() {
    let mut s = state();
    s.queue_enter_looper().unwrap();
    s.queue_free_buffer(0x1000).unwrap();
    let pending = s.out_parcel.len() as u64;
    let err = s.exchange_complete(4, Vec::new()).unwrap_err();
    assert_eq!(
        err,
        BinderError::Fatal(FatalReason::PartialWriteConsumed { consumed: 4, pending })
    );
    assert!(err.is_fatal());
    // The buffer is untouched, so the host can report what was pending.
    assert_eq!(s.out_parcel.len() as u64, pending);
}

#[test]
fn full_consumption_clears_buffer_and_drains_deferred_releases_once() {
    let mut s = state();
    s.queue_handle_command(BC_ACQUIRE, 5).unwrap();
    s.defer_strong(5);
    s.defer_weak(6);
    assert_eq!(s.post_strong_derefs.len(), 1);
    let consumed = s.out_parcel.len() as u64;
    s.exchange_complete(consumed, Vec::new()).unwrap();
    assert_eq!(s.out_parcel.len(), 0);
    assert_eq!(s.post_strong_derefs.len(), 0);
    assert_eq!(s.post_weak_derefs.len(), 0);
    // A later exchange with no write consumption does not touch the queues.
    s.defer_strong(7);
    s.exchange_complete(0, Vec::new()).unwrap();
    assert_eq!(s.post_strong_derefs.len(), 1);
}

#[test]
fn one_way_calls_wait_only_for_completion() {
    let mut s = state();
    let data = Parcel::new();
    let goal = s.start_transact(3, 42, &data, TF_ONE_WAY, 0, 0).unwrap();
    assert_eq!(goal, WaitGoal::TransactionComplete);
    let goal = s.start_transact(3, 42, &data, 0, 0, 0).unwrap();
    assert_eq!(goal, WaitGoal::Reply);
}

#[test]
fn outbound_transaction_has_exact_command_stream() {
    let mut s = state();
    let mut data = Parcel::new();
    7u32.serialize(&mut data).unwrap();
    s.start_transact(3, 42, &data, TF_ONE_WAY, 0x77, 0x88).unwrap();
    // The command word, then the 64-byte record.
    assert_eq!(s.out_parcel.len(), 4 + 64);
    assert_eq!(&s.out_parcel.data[0..4], &BC_TRANSACTION.to_le_bytes());
    let mut rec = Parcel::from_parts(s.out_parcel.data[4..].to_vec(), Vec::new()).unwrap();
    let rec = TransactionRecord::read_from(&mut rec).unwrap();
    assert_eq!(rec.target, 3);
    assert_eq!(rec.code, 42);
    assert_eq!(rec.flags, TF_ONE_WAY | TF_ACCEPT_FDS);
    assert_eq!(rec.sender_pid, 0);
    assert_eq!(rec.sender_euid, 0);
    assert_eq!(rec.data_size, 4);
    assert_eq!(rec.offsets_size, 0);
    assert_eq!(rec.buffer, 0x77);
    assert_eq!(rec.offsets, 0x88);
}

#[test]
fn restricted_blocking_call_is_abort_class() {
    let mut s = ThreadState::new(CallRestriction::FatalIfNotOneway);
    let data = Parcel::new();
    let err = s.start_transact(1, 9, &data, 0, 0, 0).unwrap_err();
    assert_eq!(err, BinderError::Fatal(FatalReason::RestrictedNonOnewayCall { code: 9 }));
    // One-way calls still go through.
    assert_eq!(
        s.start_transact(1, 9, &data, TF_ONE_WAY, 0, 0).unwrap(),
        WaitGoal::TransactionComplete
    );
}

#[test]
fn completion_finishes_only_the_matching_wait() {
    let mut s = state();
    let mut reg = LocalRegistry::new();
    feed(&mut s, u32_bytes(&[BR_NOOP, BR_TRANSACTION_COMPLETE]));
    let cmd = s.next_command().unwrap().unwrap();
    assert_eq!(cmd, BR_NOOP);
    assert!(matches!(
        s.interpret_return(&mut reg, cmd, WaitGoal::TransactionComplete).unwrap(),
        StepOutcome::Continue
    ));
    let cmd = s.next_command().unwrap().unwrap();
    assert!(matches!(
        s.interpret_return(&mut reg, cmd, WaitGoal::Reply).unwrap(),
        StepOutcome::Continue
    ));
    feed(&mut s, u32_bytes(&[BR_TRANSACTION_COMPLETE]));
    let cmd = s.next_command().unwrap().unwrap();
    assert!(matches!(
        s.interpret_return(&mut reg, cmd, WaitGoal::TransactionComplete).unwrap(),
        StepOutcome::Finished
    ));
    assert_eq!(s.next_command().unwrap(), None);
}

#[test]
fn driver_error_return_carries_its_status() {
    let mut s = state();
    let mut reg = LocalRegistry::new();
    let mut bytes = Parcel::new();
    BR_ERROR.serialize(&mut bytes).unwrap();
    (-22i32).serialize(&mut bytes).unwrap();
    feed(&mut s, bytes.data);
    let cmd = s.next_command().unwrap().unwrap();
    assert_eq!(
        s.interpret_return(&mut reg, cmd, WaitGoal::Reply).unwrap_err(),
        BinderError::DriverStatus { status: -22 }
    );
}

#[test]
fn dead_and_failed_replies_fail_loudly() {
    let mut s = state();
    let mut reg = LocalRegistry::new();
    feed(&mut s, u32_bytes(&[BR_DEAD_REPLY]));
    let cmd = s.next_command().unwrap().unwrap();
    assert_eq!(
        s.interpret_return(&mut reg, cmd, WaitGoal::Reply).unwrap_err(),
        BinderError::Code(StatusCode::DeadObject)
    );
    feed(&mut s, u32_bytes(&[BR_FAILED_REPLY]));
    let cmd = s.next_command().unwrap().unwrap();
    assert_eq!(
        s.interpret_return(&mut reg, cmd, WaitGoal::Reply).unwrap_err(),
        BinderError::Code(StatusCode::FailedTransaction)
    );
}

fn reply_record_bytes(flags: u32) -> Vec<u8> {
    let mut p = Parcel::new();
    BR_REPLY.serialize(&mut p).unwrap();
    let rec = TransactionRecord {
        target: 0,
        cookie: 0,
        code: 0,
        flags,
        sender_pid: 0,
        sender_euid: 0,
        data_size: 8,
        offsets_size: 0,
        buffer: 0xabc,
        offsets: 0,
    };
    rec.write_to(&mut p).unwrap();
    p.data
}

#[test]
fn reply_reaches_only_a_caller_waiting_for_one() {
    let mut s = state();
    let mut reg = LocalRegistry::new();
    feed(&mut s, reply_record_bytes(0));
    let cmd = s.next_command().unwrap().unwrap();
    match s.interpret_return(&mut reg, cmd, WaitGoal::Reply).unwrap() {
        StepOutcome::Reply { record } => {
            assert_eq!(record.buffer, 0xabc);
            assert_eq!(record.data_size, 8);
        },
        _ => panic!("expected a structured reply"),
    }
    // The same return while waiting only for completion is a stray: its
    // buffer is released and no payload is surfaced.
    feed(&mut s, reply_record_bytes(0));
    let cmd = s.next_command().unwrap().unwrap();
    assert!(matches!(
        s.interpret_return(&mut reg, cmd, WaitGoal::TransactionComplete).unwrap(),
        StepOutcome::StrayReply { .. }
    ));
}

#[test]
fn status_reply_is_surfaced_for_decoding() {
    let mut s = state();
    let mut reg = LocalRegistry::new();
    feed(&mut s, reply_record_bytes(TF_STATUS_CODE));
    let cmd = s.next_command().unwrap().unwrap();
    assert!(matches!(
        s.interpret_return(&mut reg, cmd, WaitGoal::Reply).unwrap(),
        StepOutcome::ReplyStatus { .. }
    ));
    assert!(reply_status_to_result(0).is_ok());
    assert_eq!(
        reply_status_to_result(-32).unwrap_err(),
        BinderError::RemoteStatus { status: -32 }
    );
}

fn inbound_transaction_bytes(sender_pid: i32, flags: u32) -> Vec<u8> {
    let mut p = Parcel::new();
    BR_TRANSACTION.serialize(&mut p).unwrap();
    let rec = TransactionRecord {
        target: 0,
        cookie: 0,
        code: 5,
        flags,
        sender_pid,
        sender_euid: 1000,
        data_size: 0,
        offsets_size: 0,
        buffer: 0,
        offsets: 0,
    };
    rec.write_to(&mut p).unwrap();
    p.data
}

#[test]
fn nested_inbound_transaction_swaps_and_restores_caller_identity() {
    let mut s = state();
    let mut reg = LocalRegistry::new();
    // The thread is already servicing a call from process 11.
    feed(&mut s, inbound_transaction_bytes(11, TF_ONE_WAY));
    let cmd = s.next_command().unwrap().unwrap();
    let outer = match s.interpret_return(&mut reg, cmd, WaitGoal::Reply).unwrap() {
        StepOutcome::Inbound { frame, .. } => frame,
        _ => panic!("expected an inbound transaction"),
    };
    assert_eq!(s.transaction.unwrap().calling_pid, 11);

    // While blocked, a nested inbound call from process 42 arrives.
    feed(&mut s, inbound_transaction_bytes(42, 0));
    let cmd = s.next_command().unwrap().unwrap();
    let nested = match s.interpret_return(&mut reg, cmd, WaitGoal::Reply).unwrap() {
        StepOutcome::Inbound { frame, record, .. } => {
            // Inside the nested handler the observed identity is the nested
            // caller's, not the outer one's.
            assert_eq!(s.transaction.unwrap().calling_pid, 42);
            assert_eq!(s.transaction.unwrap().calling_uid, 1000);
            assert_eq!(record.code, 5);
            frame
        },
        _ => panic!("expected a nested inbound transaction"),
    };
    // The nested call is not one-way: a reply is queued and the frame
    // restored afterwards.
    let reply = Parcel::new();
    assert!(s.finish_inbound(0, &reply, 0, 0).unwrap());
    s.end_inbound(nested);
    assert_eq!(s.transaction.unwrap().calling_pid, 11);
    // Ending the outer call restores the original (no transaction).
    s.end_inbound(outer);
    assert!(s.transaction.is_none());
}

#[test]
fn one_way_inbound_needs_no_reply() {
    let mut s = state();
    let mut reg = LocalRegistry::new();
    feed(&mut s, inbound_transaction_bytes(7, TF_ONE_WAY));
    let cmd = s.next_command().unwrap().unwrap();
    let frame = match s.interpret_return(&mut reg, cmd, WaitGoal::Reply).unwrap() {
        StepOutcome::Inbound { frame, .. } => frame,
        _ => panic!("expected an inbound transaction"),
    };
    let reply = Parcel::new();
    let queued_before = s.out_parcel.len();
    assert!(!s.finish_inbound(TF_ONE_WAY, &reply, 0, 0).unwrap());
    assert_eq!(s.out_parcel.len(), queued_before);
    s.end_inbound(frame);
}

#[test]
fn refcount_handshake_acknowledges_and_never_double_frees() {
    let mut s = state();
    let mut reg = LocalRegistry::new();
    reg.register(7);
    assert_eq!(reg.counts(7), Some((0, 0)));

    let mut bytes = Parcel::new();
    BR_ACQUIRE.serialize(&mut bytes).unwrap();
    7u64.serialize(&mut bytes).unwrap();
    7u64.serialize(&mut bytes).unwrap();
    feed(&mut s, bytes.data);
    let cmd = s.next_command().unwrap().unwrap();
    assert!(matches!(
        s.interpret_return(&mut reg, cmd, WaitGoal::Reply).unwrap(),
        StepOutcome::Continue
    ));
    assert_eq!(reg.counts(7), Some((1, 0)));
    // The grant is acknowledged to the driver.
    assert_eq!(&s.out_parcel.data[0..4], &BC_ACQUIRE_DONE.to_le_bytes());
    assert_eq!(s.out_parcel.len(), 20);

    let mut bytes = Parcel::new();
    BR_RELEASE.serialize(&mut bytes).unwrap();
    7u64.serialize(&mut bytes).unwrap();
    7u64.serialize(&mut bytes).unwrap();
    feed(&mut s, bytes.data);
    let cmd = s.next_command().unwrap().unwrap();
    s.interpret_return(&mut reg, cmd, WaitGoal::Reply).unwrap();
    assert_eq!(reg.counts(7), Some((0, 0)));

    // Revoking a reference that is not held is rejected, never applied.
    let mut bytes = Parcel::new();
    BR_RELEASE.serialize(&mut bytes).unwrap();
    7u64.serialize(&mut bytes).unwrap();
    7u64.serialize(&mut bytes).unwrap();
    feed(&mut s, bytes.data);
    let cmd = s.next_command().unwrap().unwrap();
    assert_eq!(
        s.interpret_return(&mut reg, cmd, WaitGoal::Reply).unwrap_err(),
        BinderError::Code(StatusCode::BadValue)
    );
    assert_eq!(reg.counts(7), Some((0, 0)));
}

#[test]
fn weak_refcount_handshake() {
    let mut s = state();
    let mut reg = LocalRegistry::new();
    reg.register(9);
    let mut bytes = Parcel::new();
    BR_INCREFS.serialize(&mut bytes).unwrap();
    9u64.serialize(&mut bytes).unwrap();
    9u64.serialize(&mut bytes).unwrap();
    BR_DECREFS.serialize(&mut bytes).unwrap();
    9u64.serialize(&mut bytes).unwrap();
    9u64.serialize(&mut bytes).unwrap();
    feed(&mut s, bytes.data);
    let cmd = s.next_command().unwrap().unwrap();
    s.interpret_return(&mut reg, cmd, WaitGoal::Reply).unwrap();
    assert_eq!(reg.counts(9), Some((0, 1)));
    assert_eq!(&s.out_parcel.data[0..4], &BC_INCREFS_DONE.to_le_bytes());
    let cmd = s.next_command().unwrap().unwrap();
    s.interpret_return(&mut reg, cmd, WaitGoal::Reply).unwrap();
    assert_eq!(reg.counts(9), Some((0, 0)));
}

#[test]
fn unknown_returns_are_tolerated() {
    let mut s = state();
    let mut reg = LocalRegistry::new();
    feed(&mut s, u32_bytes(&[0x7fff7777]));
    let cmd = s.next_command().unwrap().unwrap();
    assert!(matches!(
        s.interpret_return(&mut reg, cmd, WaitGoal::Reply).unwrap(),
        StepOutcome::Continue
    ));
}

#[test]
fn dead_binder_is_acknowledged() {
    let mut s = state();
    let mut reg = LocalRegistry::new();
    let mut bytes = Parcel::new();
    BR_DEAD_BINDER.serialize(&mut bytes).unwrap();
    0x55u64.serialize(&mut bytes).unwrap();
    feed(&mut s, bytes.data);
    let cmd = s.next_command().unwrap().unwrap();
    match s.interpret_return(&mut reg, cmd, WaitGoal::Reply).unwrap() {
        StepOutcome::DeadBinder { cookie } => assert_eq!(cookie, 0x55),
        _ => panic!("expected a dead-binder notification"),
    }
    assert_eq!(&s.out_parcel.data[0..4], &BC_DEAD_BINDER_DONE.to_le_bytes());
}

#[test]
fn work_source_tokens_pack_and_propagate() {
    let mut s = state();
    // Without a transaction the operations are inert.
    assert_eq!(s.set_calling_work_source_uid(10), 0);
    assert!(!s.should_propagate_work_source());
    s.transaction = Some(TransactionState {
        calling_pid: 1,
        calling_sid: 0,
        calling_uid: 2,
        strict_mode_policy: 0,
        last_transaction_binder_flags: 0,
        work_source: 3,
        propagate_work_source: false,
    });
    let token = s.set_calling_work_source_uid(10);
    assert_eq!(token, 3);
    assert!(s.should_propagate_work_source());
    assert_eq!(s.calling_work_source_uid(), 10);
    let token = s.set_calling_work_source_uid_without_propagation(11);
    assert_eq!(token, 0x1_0000_0000u64 as i64 + 10);
    s.clear_propagate_work_source();
    assert!(!s.should_propagate_work_source());
    s.clear_calling_work_source();
    assert_eq!(s.calling_work_source_uid(), u32::MAX);
}

#[test]
fn flush_guards_exclude_loopers_and_reentry() {
    let mut s = state();
    assert!(s.begin_flush());
    assert!(!s.begin_flush());
    s.end_flush();
    assert!(s.begin_flush());
    s.end_flush();
    s.is_looper = true;
    assert!(!s.begin_flush());
}

#[test]
fn interrupted_exchange_is_retried_others_abort() {
    assert!(exchange_errno_disposition(4));
    assert!(!exchange_errno_disposition(5));
    assert!(!exchange_errno_disposition(9));
}

#[test]
fn registry_counts_and_errors() {
    let mut reg = LocalRegistry::new();
    assert_eq!(reg.counts(1), None);
    assert_eq!(reg.acquire_strong(1).unwrap_err(), StatusCode::BadValue);
    reg.register(1);
    reg.register(1);
    assert_eq!(reg.entries.len(), 1);
    reg.acquire_strong(1).unwrap();
    reg.acquire_strong(1).unwrap();
    reg.acquire_weak(1).unwrap();
    assert_eq!(reg.counts(1), Some((2, 1)));
    reg.release_strong(1).unwrap();
    reg.release_weak(1).unwrap();
    assert_eq!(reg.counts(1), Some((1, 0)));
    assert_eq!(reg.release_weak(1).unwrap_err(), StatusCode::BadValue);
}

#[test]
fn cleared_death_notification_is_surfaced() {
    let mut s = state();
    let mut reg = LocalRegistry::new();
    let mut bytes = Parcel::new();
    BR_CLEAR_DEATH_NOTIFICATION_DONE.serialize(&mut bytes).unwrap();
    0x66u64.serialize(&mut bytes).unwrap();
    feed(&mut s, bytes.data);
    let cmd = s.next_command().unwrap().unwrap();
    match s.interpret_return(&mut reg, cmd, WaitGoal::Reply).unwrap() {
        StepOutcome::ClearedDeathNotification { cookie } => assert_eq!(cookie, 0x66),
        _ => panic!("expected a cleared death notification"),
    }
}

#[test]
fn attempted_acquire_answers_the_driver() {
    let mut s = state();
    let mut reg = LocalRegistry::new();
    reg.register(3);
    let mut bytes = Parcel::new();
    BR_ATTEMPT_ACQUIRE.serialize(&mut bytes).unwrap();
    0i32.serialize(&mut bytes).unwrap(); // priority
    3u64.serialize(&mut bytes).unwrap(); // target
    3u64.serialize(&mut bytes).unwrap(); // cookie
    feed(&mut s, bytes.data);
    let cmd = s.next_command().unwrap().unwrap();
    assert!(matches!(
        s.interpret_return(&mut reg, cmd, WaitGoal::Reply).unwrap(),
        StepOutcome::Continue
    ));
    assert_eq!(reg.counts(3), Some((1, 0)));
    assert_eq!(&s.out_parcel.data[0..4], &BC_ACQUIRE_RESULT.to_le_bytes());
    assert_eq!(&s.out_parcel.data[4..8], &1u32.to_le_bytes());

    // An unknown target answers failure and changes nothing.
    let mut s = state();
    let mut bytes = Parcel::new();
    BR_ATTEMPT_ACQUIRE.serialize(&mut bytes).unwrap();
    0i32.serialize(&mut bytes).unwrap();
    9u64.serialize(&mut bytes).unwrap();
    9u64.serialize(&mut bytes).unwrap();
    feed(&mut s, bytes.data);
    let cmd = s.next_command().unwrap().unwrap();
    s.interpret_return(&mut reg, cmd, WaitGoal::Reply).unwrap();
    assert_eq!(reg.counts(9), None);
    assert_eq!(&s.out_parcel.data[4..8], &0u32.to_le_bytes());
}
