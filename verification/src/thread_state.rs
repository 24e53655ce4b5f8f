//! The per-thread transaction engine: inbound and outbound wire buffers,
//! the snapshot of the transaction currently being serviced, work-source
//! propagation, deferred release queues, and the decision core of the
//! driver exchange loop.
//!
//! Each execution thread owns one `ThreadState`; nothing here is shared
//! across threads. The engine never touches the driver device itself: it
//! says what to exchange ([`ThreadState::exchange_request`]), folds the
//! outcome back in ([`ThreadState::exchange_complete`]), and interprets
//! each returned opcode ([`ThreadState::interpret_return`]); a thin host
//! performs the blocking device call between those steps and dispatches
//! inbound calls to the serviced object.

use vstd::prelude::*;
use vstd::bytes::*;

use crate::error::{StatusCode, BinderError, FatalReason};
use crate::parcel::{Parcel, spec_i32_to_le, spec_i32_from_le};
use crate::binder::{
    TransactionRecord, CallRestriction, LocalRegistry, TRANSACTION_RECORD_SIZE, UNSET_WORK_SOURCE,
    BC_TRANSACTION, BC_REPLY, BC_FREE_BUFFER, BC_ACQUIRE, BC_RELEASE, BC_INCREFS, BC_DECREFS,
    BC_ACQUIRE_DONE, BC_INCREFS_DONE, BC_ENTER_LOOPER, BC_DEAD_BINDER_DONE, BC_ACQUIRE_RESULT,
    BR_ERROR, BR_OK, BR_TRANSACTION, BR_REPLY, BR_ACQUIRE_RESULT, BR_DEAD_REPLY,
    BR_TRANSACTION_COMPLETE, BR_INCREFS, BR_ACQUIRE, BR_RELEASE, BR_DECREFS, BR_ATTEMPT_ACQUIRE,
    BR_NOOP, BR_SPAWN_LOOPER, BR_FINISHED, BR_DEAD_BINDER, BR_CLEAR_DEATH_NOTIFICATION_DONE,
    BR_FAILED_REPLY, BR_FROZEN_REPLY, BR_ONEWAY_SPAM_SUSPECT, BR_TRANSACTION_SEC_CTX,
    TF_ONE_WAY, TF_STATUS_CODE, TF_ACCEPT_FDS, TF_CLEAR_BUF, INTERFACE_HEADER,
};
use crate::PARCEL_MAX;

verus! {

/// How many bytes of driver returns one exchange may receive.
pub const READ_CAPACITY: usize = 256;

/// The identity snapshot of the transaction a thread is servicing: caller
/// process id, caller security context, caller user id, the caller's
/// strict-mode policy, the last transaction's flags, and the work-source
/// attribution with its propagation flag.
#[derive(Clone, Copy, Debug, PartialEq, Eq, Structural)]
pub struct TransactionState {
    /// The calling process id.
    pub calling_pid: i32,
    /// The caller's security context, as an opaque 64-bit value (zero for
    /// none).
    pub calling_sid: u64,
    /// The calling effective user id.
    pub calling_uid: u32,
    /// The caller's strict-mode policy.
    pub strict_mode_policy: i32,
    /// The flags of the transaction being serviced.
    pub last_transaction_binder_flags: u32,
    /// Whose allowance this call is charged against.
    pub work_source: u32,
    /// Whether the work source propagates to nested calls.
    pub propagate_work_source: bool,
}

/// The snapshot a fresh inbound transaction record installs.
pub open spec fn snapshot_of(record: TransactionRecord, secctx: u64) -> TransactionState {
    TransactionState {
        calling_pid: record.sender_pid,
        calling_sid: secctx,
        calling_uid: record.sender_euid,
        strict_mode_policy: 0,
        last_transaction_binder_flags: record.flags,
        work_source: 0,
        propagate_work_source: false,
    }
}

impl TransactionState {
    /// The snapshot a fresh inbound transaction record installs.
    pub fn from_transaction_data(record: &TransactionRecord, secctx: u64) -> (t: TransactionState)
        ensures
            t == snapshot_of(*record, secctx),
    {
        TransactionState {
            calling_pid: record.sender_pid,
            calling_sid: secctx,
            calling_uid: record.sender_euid,
            strict_mode_policy: 0,
            last_transaction_binder_flags: record.flags,
            work_source: 0,
            propagate_work_source: false,
        }
    }
}

/// What a response-waiting caller is waiting for: a full reply, a plain
/// completion acknowledgement, or an acquire result.
#[derive(Clone, Copy, Debug, PartialEq, Eq, Structural)]
pub enum WaitGoal {
    /// A structured reply payload is owed.
    Reply,
    /// Only the completion acknowledgement is owed.
    TransactionComplete,
    /// The result of an attempted acquire is owed.
    AcquireResult,
}

/// The saved identity snapshot bracketing one inbound transaction, to be
/// restored when its servicing ends.
#[derive(Debug)]
pub struct InboundFrame {
    /// The snapshot that was current before the inbound call arrived.
    pub saved: Option<TransactionState>,
}

/// What one interpreted return opcode asks of the host.
#[derive(Debug)]
pub enum StepOutcome {
    /// Nothing; keep draining returns.
    Continue,
    /// The awaited completion acknowledgement arrived.
    Finished,
    /// The awaited acquire result arrived.
    AcquireDone {
        /// Whether the acquire succeeded.
        success: bool,
    },
    /// A structured reply arrived; the record's buffer holds the payload,
    /// which the host must wrap and later release.
    Reply {
        /// The reply transaction record.
        record: TransactionRecord,
    },
    /// A reply arrived whose payload is a raw status code; the host must
    /// read it from the record's buffer and release the buffer.
    ReplyStatus {
        /// The reply transaction record.
        record: TransactionRecord,
    },
    /// A reply arrived while none was awaited; the host must release its
    /// buffer and go on.
    StrayReply {
        /// The reply transaction record.
        record: TransactionRecord,
    },
    /// An inbound transaction arrived; the caller snapshot has been saved
    /// and the new identity installed. The host must dispatch it, send the
    /// reply unless one-way, and then restore the frame.
    Inbound {
        /// The snapshot to restore after servicing.
        frame: InboundFrame,
        /// The inbound transaction record.
        record: TransactionRecord,
        /// The caller's security context (zero for none).
        secctx: u64,
    },
    /// A remote object this process watches has died; the acknowledgement
    /// is already queued, the host should notify death recipients.
    DeadBinder {
        /// The dead object's cookie.
        cookie: u64,
    },
    /// A death-notification clearance completed for this cookie; the host
    /// should drop whatever it kept alive for the pending notification.
    ClearedDeathNotification {
        /// The watched object's cookie.
        cookie: u64,
    },
    /// The driver asks for one more looper thread; the host decides.
    SpawnLooper,
}

/// The per-thread mutable transaction context.
pub struct ThreadState {
    /// Returns received from the driver, not yet interpreted.
    pub in_parcel: Parcel,
    /// Commands queued for the driver, not yet transmitted.
    pub out_parcel: Parcel,
    /// The snapshot of the transaction currently being serviced.
    pub transaction: Option<TransactionState>,
    /// This thread's own strict-mode policy.
    pub strict_mode_policy: i32,
    /// Whether this thread acts as a service loop.
    pub is_looper: bool,
    /// Whether this thread is currently flushing its command queue.
    pub is_flushing: bool,
    /// Strong references to drop only after a full flush to the driver.
    pub post_strong_derefs: Vec<u64>,
    /// Weak references to drop only after a full flush to the driver.
    pub post_weak_derefs: Vec<u64>,
    /// The policy on blocking outbound calls.
    pub call_restriction: CallRestriction,
}

impl ThreadState {
    /// Well-formedness: both wire buffers are well-formed and the outbound
    /// buffer always appends at an aligned cursor.
    pub open spec fn wf(&self) -> bool {
        &&& self.in_parcel.wf()
        &&& self.out_parcel.wf()
        &&& self.out_parcel.at_end()
        &&& self.out_parcel.pos % 4 == 0
    }

    /// The 32-bit signed value at the head of the unread returns.
    pub open spec fn in_head_i32(&self) -> i32 {
        spec_i32_from_le(
            self.in_parcel.data@.subrange(self.in_parcel.pos as int, self.in_parcel.pos + 4),
        )
    }

    /// The 32-bit unsigned value at the head of the unread returns.
    pub open spec fn in_head_u32(&self) -> u32 {
        spec_u32_from_le_bytes(
            self.in_parcel.data@.subrange(self.in_parcel.pos as int, self.in_parcel.pos + 4),
        )
    }

    /// The 64-bit value `k` bytes past the head of the unread returns.
    pub open spec fn in_u64_at(&self, k: int) -> u64 {
        spec_u64_from_le_bytes(
            self.in_parcel.data@.subrange(self.in_parcel.pos + k, self.in_parcel.pos + k + 8),
        )
    }

    /// The transaction record at the head of the unread returns.
    pub open spec fn in_record(&self) -> TransactionRecord {
        TransactionRecord::from_wire_bytes(
            self.in_parcel.data@.subrange(
                self.in_parcel.pos as int,
                self.in_parcel.pos + TRANSACTION_RECORD_SIZE,
            ),
        )
    }

    /// Whether `n` unread bytes remain.
    pub open spec fn in_has(&self, n: int) -> bool {
        self.in_parcel.pos + n <= self.in_parcel.data@.len()
    }

    /// A fresh context for a thread, under the process's call-restriction
    /// policy: empty buffers, no transaction, no policy, no deferred
    /// releases.
    pub fn new(call_restriction: CallRestriction) -> (s: ThreadState)
        ensures
            s.wf(),
            s.in_parcel.data@ == Seq::<u8>::empty(),
            s.in_parcel.pos == 0,
            s.out_parcel.data@ == Seq::<u8>::empty(),
            s.transaction is None,
            s.strict_mode_policy == 0,
            !s.is_looper,
            !s.is_flushing,
            s.post_strong_derefs@ == Seq::<u64>::empty(),
            s.post_weak_derefs@ == Seq::<u64>::empty(),
            s.call_restriction == call_restriction,
    {
        ThreadState {
            in_parcel: Parcel::new(),
            out_parcel: Parcel::new(),
            transaction: None,
            strict_mode_policy: 0,
            is_looper: false,
            is_flushing: false,
            post_strong_derefs: Vec::new(),
            post_weak_derefs: Vec::new(),
            call_restriction,
        }
    }

    /// Sets this thread's strict-mode policy.
    pub fn set_strict_mode_policy(&mut self, policy: i32)
        ensures
            *final(self) == (ThreadState { strict_mode_policy: policy, ..*old(self) }),
    {
        self.strict_mode_policy = policy;
    }

    /// This thread's strict-mode policy.
    pub fn strict_mode_policy(&self) -> (p: i32)
        ensures
            p == self.strict_mode_policy,
    {
        self.strict_mode_policy
    }

    /// Sets the policy on blocking outbound calls.
    pub fn set_call_restriction(&mut self, restriction: CallRestriction)
        ensures
            *final(self) == (ThreadState { call_restriction: restriction, ..*old(self) }),
    {
        self.call_restriction = restriction;
    }

    /// The policy on blocking outbound calls.
    pub fn call_restriction(&self) -> (r: CallRestriction)
        ensures
            r == self.call_restriction,
    {
        self.call_restriction
    }

    /// The flags of the transaction being serviced, or zero when none is.
    pub fn last_transaction_binder_flags(&self) -> (f: u32)
        ensures
            f == (match self.transaction {
                Some(t) => t.last_transaction_binder_flags,
                None => 0u32,
            }),
    {
        match self.transaction {
            Some(t) => t.last_transaction_binder_flags,
            None => 0,
        }
    }

    /// Whether the current work source propagates to nested calls.
    pub fn should_propagate_work_source(&self) -> (b: bool)
        ensures
            b == (match self.transaction {
                Some(t) => t.propagate_work_source,
                None => false,
            }),
    {
        match self.transaction {
            Some(t) => t.propagate_work_source,
            None => false,
        }
    }

    /// Whose allowance the current call is charged against, or zero when no
    /// transaction is being serviced.
    pub fn calling_work_source_uid(&self) -> (u: u32)
        ensures
            u == (match self.transaction {
                Some(t) => t.work_source,
                None => 0u32,
            }),
    {
        match self.transaction {
            Some(t) => t.work_source,
            None => 0,
        }
    }

    /// Stops the current work source from propagating to nested calls.
    pub fn clear_propagate_work_source(&mut self)
        ensures
            *final(self) == (match old(self).transaction {
                Some(t) => (ThreadState {
                    transaction: Some(
                        TransactionState { propagate_work_source: false, ..t },
                    ),
                    ..*old(self)
                }),
                None => *old(self),
            }),
    {
        match self.transaction {
            Some(t) => {
                self.transaction = Some(TransactionState { propagate_work_source: false, ..t });
            },
            None => {
            },
        }
    }

    /// Replaces the calling work source without marking it for propagation,
    /// returning a token that packs the previous propagation flag and work
    /// source for later restoration.
    pub fn set_calling_work_source_uid_without_propagation(&mut self, uid: u32) -> (token: i64)
        ensures
            match old(self).transaction {
                Some(t) => {
                    &&& *final(self) == (ThreadState {
                        transaction: Some((TransactionState { work_source: uid, ..t })),
                        ..*old(self)
                    })
                    &&& token == ((if t.propagate_work_source {
                        0x100000000i64
                    } else {
                        0i64
                    }) + t.work_source as i64)
                },
                None => *final(self) == *old(self) && token == 0,
            },
    {
        match self.transaction {
            Some(t) => {
                let propagated_bit: i64 = if t.propagate_work_source {
                    0x100000000i64
                } else {
                    0i64
                };
                let token = propagated_bit + (t.work_source as i64);
                self.transaction = Some(TransactionState { work_source: uid, ..t });
                token
            },
            None => 0,
        }
    }

    /// Replaces the calling work source and marks it for propagation to
    /// nested calls, returning the same restoration token.
    pub fn set_calling_work_source_uid(&mut self, uid: u32) -> (token: i64)
        ensures
            match old(self).transaction {
                Some(t) => {
                    &&& *final(self) == (ThreadState {
                        transaction: Some(
                            (TransactionState {
                                work_source: uid,
                                propagate_work_source: true,
                                ..t
                            }),
                        ),
                        ..*old(self)
                    })
                    &&& token == ((if t.propagate_work_source {
                        0x100000000i64
                    } else {
                        0i64
                    }) + t.work_source as i64)
                },
                None => *final(self) == *old(self) && token == 0,
            },
    {
        let token = self.set_calling_work_source_uid_without_propagation(uid);
        match self.transaction {
            Some(t) => {
                self.transaction = Some(TransactionState { propagate_work_source: true, ..t });
            },
            None => {
            },
        }
        token
    }

    /// Resets the calling work source to the unset sentinel, never to be
    /// charged to a stale caller.
    pub fn clear_calling_work_source(&mut self) -> (token: i64)
        ensures
            match old(self).transaction {
                Some(t) => {
                    &&& *final(self) == (ThreadState {
                        transaction: Some(
                            (TransactionState {
                                work_source: 0xffffffffu32,
                                propagate_work_source: true,
                                ..t
                            }),
                        ),
                        ..*old(self)
                    })
                    &&& token == ((if t.propagate_work_source {
                        0x100000000i64
                    } else {
                        0i64
                    }) + t.work_source as i64)
                },
                None => *final(self) == *old(self) && token == 0,
            },
    {
        #[verifier::truncate]
        let unset = UNSET_WORK_SOURCE as u32;
        proof {
            assert(UNSET_WORK_SOURCE as u32 == 0xffffffffu32) by (bit_vector);
        }
        self.set_calling_work_source_uid(unset)
    }

    /// Queues a keep-alive for a strong remote reference until the next
    /// full flush has durably transmitted the commands before it.
    pub fn defer_strong(&mut self, id: u64)
        ensures
            *final(self) == (ThreadState {
                post_strong_derefs: final(self).post_strong_derefs,
                ..*old(self)
            }),
            final(self).post_strong_derefs@ == old(self).post_strong_derefs@.push(id),
    {
        self.post_strong_derefs.push(id);
    }

    /// Queues a keep-alive for a weak remote reference until the next full
    /// flush has durably transmitted the commands before it.
    pub fn defer_weak(&mut self, id: u64)
        ensures
            *final(self) == (ThreadState {
                post_weak_derefs: final(self).post_weak_derefs,
                ..*old(self)
            }),
            final(self).post_weak_derefs@ == old(self).post_weak_derefs@.push(id),
    {
        self.post_weak_derefs.push(id);
    }

    /// Marks the start of a command-queue flush; refused while this thread
    /// is a looper or a flush is already under way.
    pub fn begin_flush(&mut self) -> (started: bool)
        ensures
            started == (!old(self).is_looper && !old(self).is_flushing),
            started ==> *final(self) == (ThreadState { is_flushing: true, ..*old(self) }),
            !started ==> *final(self) == *old(self),
    {
        if self.is_looper || self.is_flushing {
            false
        } else {
            self.is_flushing = true;
            true
        }
    }

    /// Marks the end of a command-queue flush.
    pub fn end_flush(&mut self)
        ensures
            *final(self) == (ThreadState { is_flushing: false, ..*old(self) }),
    {
        self.is_flushing = false;
    }

    /// Restores the caller-identity snapshot saved when an inbound
    /// transaction began, so re-entrant calls observe correct identity.
    pub fn end_inbound(&mut self, frame: InboundFrame)
        ensures
            *final(self) == (ThreadState { transaction: frame.saved, ..*old(self) }),
    {
        self.transaction = frame.saved;
    }
}

} // verus!

verus! {

impl ThreadState {
    /// Queues one 32-bit command word for the driver.
    fn queue_u32(&mut self, v: u32) -> (r: Result<(), StatusCode>)
        requires
            old(self).wf(),
        ensures
            final(self).wf(),
            r is Ok <==> old(self).out_parcel.data@.len() + 4 <= PARCEL_MAX,
            r is Ok ==> *final(self) == (ThreadState {
                out_parcel: final(self).out_parcel,
                ..*old(self)
            }) && final(self).out_parcel.data@ == old(self).out_parcel.data@
                + spec_u32_to_le_bytes(v) && final(self).out_parcel.objects@ == old(self).out_parcel.objects@,
            r is Err ==> *final(self) == *old(self),
    {
        proof {
            lemma_auto_spec_u32_to_from_le_bytes();
        }
        let res = self.out_parcel.write_u32_aligned(v);
        proof {
            if res is Ok {
                assert(self.out_parcel.data@ =~= old(self).out_parcel.data@
                    + spec_u32_to_le_bytes(v));
            }
        }
        res
    }

    /// Queues one 64-bit word for the driver.
    fn queue_u64(&mut self, v: u64) -> (r: Result<(), StatusCode>)
        requires
            old(self).wf(),
        ensures
            final(self).wf(),
            r is Ok <==> old(self).out_parcel.data@.len() + 8 <= PARCEL_MAX,
            r is Ok ==> *final(self) == (ThreadState {
                out_parcel: final(self).out_parcel,
                ..*old(self)
            }) && final(self).out_parcel.data@ == old(self).out_parcel.data@
                + spec_u64_to_le_bytes(v) && final(self).out_parcel.objects@ == old(self).out_parcel.objects@,
            r is Err ==> *final(self) == *old(self),
    {
        proof {
            lemma_auto_spec_u64_to_from_le_bytes();
        }
        let res = self.out_parcel.write_u64_aligned(v);
        proof {
            if res is Ok {
                assert(self.out_parcel.data@ =~= old(self).out_parcel.data@
                    + spec_u64_to_le_bytes(v));
            }
        }
        res
    }

    /// The command stream bytes of an outbound transaction: the command
    /// word, then the transaction record addressing `handle` with the given
    /// payload geometry.
    pub open spec fn transact_cmd_bytes(
        cmd: u32,
        flags: u32,
        handle: u32,
        code: u32,
        data_size: u64,
        offsets_size: u64,
        buffer_ptr: u64,
        offsets_ptr: u64,
    ) -> Seq<u8> {
        spec_u32_to_le_bytes(cmd) + (TransactionRecord {
            target: handle as u64,
            cookie: 0u64,
            code,
            flags,
            sender_pid: 0i32,
            sender_euid: 0u32,
            data_size,
            offsets_size,
            buffer: buffer_ptr,
            offsets: offsets_ptr,
        }).wire_bytes()
    }

    /// Queues an outbound transaction: the command word and the transaction
    /// record naming the target handle, opcode, flags, and the payload the
    /// host will let the driver read at `buffer_ptr` / `offsets_ptr`.
    /// Caller identity fields are zero on the way out.
    pub fn write_transaction_data(
        &mut self,
        cmd: u32,
        flags: u32,
        handle: u32,
        code: u32,
        data: &Parcel,
        buffer_ptr: u64,
        offsets_ptr: u64,
    ) -> (r: Result<(), StatusCode>)
        requires
            old(self).wf(),
            data.wf(),
        ensures
            final(self).wf(),
            r is Ok <==> (old(self).out_parcel.data@.len() + 4 + TRANSACTION_RECORD_SIZE
                <= PARCEL_MAX && data.objects@.len() * 8 <= u64::MAX),
            r is Ok ==> *final(self) == (ThreadState {
                out_parcel: final(self).out_parcel,
                ..*old(self)
            }) && final(self).out_parcel.data@ == old(self).out_parcel.data@
                + Self::transact_cmd_bytes(
                cmd,
                flags,
                handle,
                code,
                data.data@.len() as u64,
                (data.objects@.len() * 8) as u64,
                buffer_ptr,
                offsets_ptr,
            ) && final(self).out_parcel.objects@ == old(self).out_parcel.objects@,
            r is Err ==> *final(self) == *old(self),
    {
        proof {
            lemma_auto_spec_u32_to_from_le_bytes();
        }
        if self.out_parcel.len() > PARCEL_MAX - 4 - TRANSACTION_RECORD_SIZE {
            return Err(StatusCode::NoMemory);
        }
        if data.objects.len() as u64 > u64::MAX / 8 {
            return Err(StatusCode::BadValue);
        }
        let record = TransactionRecord {
            target: handle as u64,
            cookie: 0,
            code,
            flags,
            sender_pid: 0,
            sender_euid: 0,
            data_size: data.len() as u64,
            offsets_size: (data.objects.len() as u64) * 8,
            buffer: buffer_ptr,
            offsets: offsets_ptr,
        };
        let r1 = self.queue_u32(cmd);
        proof {
            assert(r1 is Ok);
            record.lemma_wire_bytes_len();
        }
        let ghost mid = self.out_parcel.data@;
        let r2 = record.write_to(&mut self.out_parcel);
        proof {
            assert(r2 is Ok);
            assert(self.out_parcel.data@ =~= old(self).out_parcel.data@
                + Self::transact_cmd_bytes(
                cmd,
                flags,
                handle,
                code,
                data.data@.len() as u64,
                (data.objects@.len() * 8) as u64,
                buffer_ptr,
                offsets_ptr,
            ));
        }
        Ok(())
    }

    /// Queues the command that declares this thread a service looper.
    pub fn queue_enter_looper(&mut self) -> (r: Result<(), StatusCode>)
        requires
            old(self).wf(),
        ensures
            final(self).wf(),
            r is Ok <==> old(self).out_parcel.data@.len() + 4 <= PARCEL_MAX,
            r is Ok ==> *final(self) == (ThreadState {
                out_parcel: final(self).out_parcel,
                ..*old(self)
            }) && final(self).out_parcel.data@ == old(self).out_parcel.data@
                + spec_u32_to_le_bytes(BC_ENTER_LOOPER) && final(self).out_parcel.objects@ == old(self).out_parcel.objects@,
            r is Err ==> *final(self) == *old(self),
    {
        self.queue_u32(BC_ENTER_LOOPER)
    }

    /// Queues the release of a driver-owned buffer, to be transmitted with
    /// the next flush; the buffer must be released exactly once.
    pub fn queue_free_buffer(&mut self, buffer_ptr: u64) -> (r: Result<(), StatusCode>)
        requires
            old(self).wf(),
        ensures
            final(self).wf(),
            r is Ok <==> old(self).out_parcel.data@.len() + 12 <= PARCEL_MAX,
            r is Ok ==> *final(self) == (ThreadState {
                out_parcel: final(self).out_parcel,
                ..*old(self)
            }) && final(self).out_parcel.data@ == old(self).out_parcel.data@
                + spec_u32_to_le_bytes(BC_FREE_BUFFER) + spec_u64_to_le_bytes(buffer_ptr) && final(self).out_parcel.objects@ == old(self).out_parcel.objects@,
            r is Err ==> *final(self) == *old(self),
    {
        if self.out_parcel.len() > PARCEL_MAX - 12 {
            return Err(StatusCode::NoMemory);
        }
        let r1 = self.queue_u32(BC_FREE_BUFFER);
        proof {
            lemma_auto_spec_u32_to_from_le_bytes();
            lemma_auto_spec_u64_to_from_le_bytes();
            assert(r1 is Ok);
        }
        let r2 = self.queue_u64(buffer_ptr);
        proof {
            assert(r2 is Ok);
            assert(self.out_parcel.data@ =~= old(self).out_parcel.data@ + spec_u32_to_le_bytes(
                BC_FREE_BUFFER,
            ) + spec_u64_to_le_bytes(buffer_ptr));
        }
        Ok(())
    }

    /// Queues one reference-count command on a remote handle: the command
    /// word, then the handle.
    pub fn queue_handle_command(&mut self, cmd: u32, handle: u32) -> (r: Result<(), StatusCode>)
        requires
            old(self).wf(),
        ensures
            final(self).wf(),
            r is Ok <==> old(self).out_parcel.data@.len() + 8 <= PARCEL_MAX,
            r is Ok ==> *final(self) == (ThreadState {
                out_parcel: final(self).out_parcel,
                ..*old(self)
            }) && final(self).out_parcel.data@ == old(self).out_parcel.data@
                + spec_u32_to_le_bytes(cmd) + spec_u32_to_le_bytes(handle) && final(self).out_parcel.objects@ == old(self).out_parcel.objects@,
            r is Err ==> *final(self) == *old(self),
    {
        if self.out_parcel.len() > PARCEL_MAX - 8 {
            return Err(StatusCode::NoMemory);
        }
        let r1 = self.queue_u32(cmd);
        proof {
            lemma_auto_spec_u32_to_from_le_bytes();
            assert(r1 is Ok);
        }
        let r2 = self.queue_u32(handle);
        proof {
            assert(r2 is Ok);
            assert(self.out_parcel.data@ =~= old(self).out_parcel.data@ + spec_u32_to_le_bytes(
                cmd,
            ) + spec_u32_to_le_bytes(handle));
        }
        Ok(())
    }

    /// What one combined read/write exchange with the driver should carry:
    /// how many queued command bytes to write, and how much reply capacity
    /// to offer. `None` when there is nothing to do. Commands are written
    /// only when the host is not holding unread returns; replies are read
    /// only when receiving is wanted and no unread returns remain.
    pub fn exchange_request(&self, do_receive: bool) -> (r: Option<(usize, usize)>)
        requires
            self.wf(),
        ensures
            ({
                let need_read = self.in_parcel.pos >= self.in_parcel.data@.len();
                let out_avail: usize = if !do_receive || need_read {
                    self.out_parcel.data@.len() as usize
                } else {
                    0usize
                };
                let read_size: usize = if do_receive && need_read {
                    READ_CAPACITY
                } else {
                    0usize
                };
                if out_avail == 0 && read_size == 0 {
                    r is None
                } else {
                    r == Some((out_avail, read_size))
                }
            }),
    {
        let need_read = self.in_parcel.is_empty();
        let out_avail: usize = if !do_receive || need_read {
            self.out_parcel.len()
        } else {
            0
        };
        let read_size: usize = if do_receive && need_read {
            READ_CAPACITY
        } else {
            0
        };
        if out_avail == 0 && read_size == 0 {
            None
        } else {
            Some((out_avail, read_size))
        }
    }

    /// Folds a finished driver exchange back into the state. Partial
    /// consumption of the outbound commands is an unrecoverable invariant
    /// violation: the driver contract guarantees full consumption or none,
    /// so the host must abort on the fatal error returned for it. Full
    /// consumption clears the outbound buffer and drains the deferred
    /// release queues, exactly once, now that the commands before them are
    /// durably transmitted. Received bytes replace the inbound buffer.
    pub fn exchange_complete(&mut self, write_consumed: u64, read_data: Vec<u8>) -> (r: Result<
        (),
        BinderError,
    >)
        requires
            old(self).wf(),
            read_data@.len() <= PARCEL_MAX,
        ensures
            final(self).wf(),
            write_consumed > 0 && write_consumed < old(self).out_parcel.data@.len() ==> {
                &&& r is Err
                &&& r->Err_0 == BinderError::Fatal(
                    FatalReason::PartialWriteConsumed {
                        consumed: write_consumed,
                        pending: old(self).out_parcel.data@.len() as u64,
                    },
                )
                &&& *final(self) == *old(self)
            },
            !(write_consumed > 0 && write_consumed < old(self).out_parcel.data@.len()) ==> {
                &&& r is Ok
                &&& final(self).out_parcel.data@ == (if write_consumed > 0 {
                    Seq::<u8>::empty()
                } else {
                    old(self).out_parcel.data@
                })
                &&& final(self).post_strong_derefs@ == (if write_consumed > 0 {
                    Seq::<u64>::empty()
                } else {
                    old(self).post_strong_derefs@
                })
                &&& final(self).post_weak_derefs@ == (if write_consumed > 0 {
                    Seq::<u64>::empty()
                } else {
                    old(self).post_weak_derefs@
                })
                &&& final(self).in_parcel.data@ == (if read_data@.len() > 0 {
                    read_data@
                } else {
                    old(self).in_parcel.data@
                })
                &&& final(self).in_parcel.pos == (if read_data@.len() > 0 {
                    0int
                } else {
                    old(self).in_parcel.pos as int
                })
                &&& final(self).transaction == old(self).transaction
                &&& final(self).strict_mode_policy == old(self).strict_mode_policy
                &&& final(self).is_looper == old(self).is_looper
                &&& final(self).is_flushing == old(self).is_flushing
                &&& final(self).call_restriction == old(self).call_restriction
            },
    {
        if write_consumed > 0 {
            if write_consumed < self.out_parcel.len() as u64 {
                let pending = self.out_parcel.len() as u64;
                return Err(
                    BinderError::Fatal(
                        FatalReason::PartialWriteConsumed { consumed: write_consumed, pending },
                    ),
                );
            }
            self.out_parcel.clear();
            self.post_strong_derefs.clear();
            self.post_weak_derefs.clear();
        }
        if read_data.len() > 0 {
            self.in_parcel = match Parcel::from_parts(read_data, Vec::new()) {
                Ok(p) => p,
                Err(_) => Parcel::new(),
            };
        }
        Ok(())
    }

    /// Takes the next return opcode from the unread driver returns, or
    /// `None` when all returns are consumed; an opcode is four bytes, and a
    /// truncated one is a wire-format error.
    pub fn next_command(&mut self) -> (r: Result<Option<u32>, StatusCode>)
        requires
            old(self).wf(),
        ensures
            final(self).wf(),
            old(self).in_parcel.pos >= old(self).in_parcel.data@.len() ==> r == Ok::<
                Option<u32>,
                StatusCode,
            >(None) && *final(self) == *old(self),
            old(self).in_parcel.pos < old(self).in_parcel.data@.len() ==> {
                &&& old(self).in_has(4) ==> r == Ok::<Option<u32>, StatusCode>(
                    Some(old(self).in_head_u32()),
                ) && *final(self) == (ThreadState {
                    in_parcel: final(self).in_parcel,
                    ..*old(self)
                }) && final(self).in_parcel.data@ == old(self).in_parcel.data@ && final(self).in_parcel.pos == old(self).in_parcel.pos + 4 && final(self).in_parcel.objects@
                    == old(self).in_parcel.objects@
                &&& !old(self).in_has(4) ==> r == Err::<Option<u32>, StatusCode>(
                    StatusCode::NotEnoughData,
                ) && *final(self) == *old(self)
            },
    {
        if self.in_parcel.is_empty() {
            return Ok(None);
        }
        match self.in_parcel.read_u32_aligned() {
            Ok(v) => Ok(Some(v)),
            Err(e) => Err(e),
        }
    }
}

} // verus!

verus! {

/// The strict-mode bit that asks the receiver to gather violations rather
/// than act on them, set on every propagated policy.
pub const STRICT_MODE_PENALTY_GATHER: i32 = 0x400000;

/// A non-success raw status decoded from a reply is the remote call's
/// failure; success is silent.
pub fn reply_status_to_result(status: i32) -> (r: Result<(), BinderError>)
    ensures
        status == 0 <==> r is Ok,
        status != 0 ==> r == Err::<(), BinderError>(BinderError::RemoteStatus { status }),
{
    if status == 0 {
        Ok(())
    } else {
        Err(BinderError::RemoteStatus { status })
    }
}

/// How the host must react to the errno of a failed driver exchange: an
/// interrupted call is retried indefinitely, anything else aborts the
/// in-flight call with a fatal I/O error. The interrupted-syscall errno is
/// 4 on this driver's platform.
pub fn exchange_errno_disposition(errno: i32) -> (retry: bool)
    ensures
        retry <==> errno == 4,
{
    errno == 4
}

impl ThreadState {
    /// Everything but the wire buffers and deferred queues is unchanged.
    pub open spec fn same_core(pre: ThreadState, post: ThreadState) -> bool {
        &&& post.transaction == pre.transaction
        &&& post.strict_mode_policy == pre.strict_mode_policy
        &&& post.is_looper == pre.is_looper
        &&& post.is_flushing == pre.is_flushing
        &&& post.call_restriction == pre.call_restriction
    }

    /// The inbound buffer is unchanged but for the cursor moving `n` bytes.
    pub open spec fn in_advanced(pre: ThreadState, post: ThreadState, n: int) -> bool {
        &&& post.in_parcel.data@ == pre.in_parcel.data@
        &&& post.in_parcel.objects@ == pre.in_parcel.objects@
        &&& post.in_parcel.pos == pre.in_parcel.pos + n
    }

    /// The outbound buffer is unchanged.
    pub open spec fn out_same(pre: ThreadState, post: ThreadState) -> bool {
        post.out_parcel == pre.out_parcel
    }

    /// The outbound buffer grew by exactly these bytes.
    pub open spec fn out_appended(pre: ThreadState, post: ThreadState, b: Seq<u8>) -> bool {
        &&& post.out_parcel.data@ == pre.out_parcel.data@ + b
        &&& post.out_parcel.objects@ == pre.out_parcel.objects@
    }

    /// Both deferred release queues are unchanged.
    pub open spec fn queues_same(pre: ThreadState, post: ThreadState) -> bool {
        &&& post.post_strong_derefs@ == pre.post_strong_derefs@
        &&& post.post_weak_derefs@ == pre.post_weak_derefs@
    }

    /// Builds and queues an outbound transaction for a remote handle,
    /// always forcing the accept-file-descriptors flag, and applies the
    /// call-restriction policy: a policy of "fatal unless one-way" makes a
    /// blocking call an abort-class error after the record is queued. The
    /// returned goal says what the host must wait for: a one-way call never
    /// yields a reply, only the completion acknowledgement.
    pub fn start_transact(
        &mut self,
        handle: u32,
        code: u32,
        data: &Parcel,
        flags: u32,
        buffer_ptr: u64,
        offsets_ptr: u64,
    ) -> (r: Result<WaitGoal, BinderError>)
        requires
            old(self).wf(),
            data.wf(),
        ensures
            final(self).wf(),
            ({
                let f = flags | TF_ACCEPT_FDS;
                let fits = old(self).out_parcel.data@.len() + 4 + TRANSACTION_RECORD_SIZE
                    <= PARCEL_MAX && data.objects@.len() * 8 <= u64::MAX;
                let blocked = (f & TF_ONE_WAY == 0) && old(self).call_restriction
                    == CallRestriction::FatalIfNotOneway;
                &&& !fits ==> r is Err && (r->Err_0 matches BinderError::Code(_)) && *final(self)
                    == *old(self)
                &&& fits ==> *final(self) == (ThreadState {
                    out_parcel: final(self).out_parcel,
                    ..*old(self)
                }) && Self::out_appended(
                    *old(self),
                    *final(self),
                    Self::transact_cmd_bytes(
                        BC_TRANSACTION,
                        f,
                        handle,
                        code,
                        data.data@.len() as u64,
                        (data.objects@.len() * 8) as u64,
                        buffer_ptr,
                        offsets_ptr,
                    ),
                )
                &&& (fits && blocked) ==> r == Err::<WaitGoal, BinderError>(
                    BinderError::Fatal(FatalReason::RestrictedNonOnewayCall { code }),
                )
                &&& (fits && !blocked) ==> r == Ok::<WaitGoal, BinderError>(
                    if f & TF_ONE_WAY != 0 {
                        WaitGoal::TransactionComplete
                    } else {
                        WaitGoal::Reply
                    },
                )
            }),
    {
        let f = flags | TF_ACCEPT_FDS;
        match self.write_transaction_data(BC_TRANSACTION, f, handle, code, data, buffer_ptr, offsets_ptr) {
            Ok(u) => u,
            Err(e) => {
                return Err(BinderError::Code(e));
            },
        };
        if f & TF_ONE_WAY == 0 {
            match self.call_restriction {
                CallRestriction::FatalIfNotOneway => {
                    return Err(
                        BinderError::Fatal(FatalReason::RestrictedNonOnewayCall { code }),
                    );
                },
                _ => {
                },
            }
            Ok(WaitGoal::Reply)
        } else {
            Ok(WaitGoal::TransactionComplete)
        }
    }

    /// Ends the servicing of an inbound transaction: unless the call was
    /// one-way, queues the reply transaction record, and says whether the
    /// host must wait for the completion acknowledgement before restoring
    /// the saved frame.
    pub fn finish_inbound(
        &mut self,
        flags: u32,
        reply: &Parcel,
        reply_ptr: u64,
        reply_offsets_ptr: u64,
    ) -> (r: Result<bool, BinderError>)
        requires
            old(self).wf(),
            reply.wf(),
        ensures
            final(self).wf(),
            flags & TF_ONE_WAY != 0 ==> r == Ok::<bool, BinderError>(false) && *final(self)
                == *old(self),
            flags & TF_ONE_WAY == 0 ==> ({
                let fits = old(self).out_parcel.data@.len() + 4 + TRANSACTION_RECORD_SIZE
                    <= PARCEL_MAX && reply.objects@.len() * 8 <= u64::MAX;
                &&& !fits ==> r is Err && (r->Err_0 matches BinderError::Code(_)) && *final(self)
                    == *old(self)
                &&& fits ==> r == Ok::<bool, BinderError>(true) && *final(self) == (ThreadState {
                    out_parcel: final(self).out_parcel,
                    ..*old(self)
                }) && Self::out_appended(
                    *old(self),
                    *final(self),
                    Self::transact_cmd_bytes(
                        BC_REPLY,
                        flags & TF_CLEAR_BUF,
                        0xffffffffu32,
                        0,
                        reply.data@.len() as u64,
                        (reply.objects@.len() * 8) as u64,
                        reply_ptr,
                        reply_offsets_ptr,
                    ),
                )
            }),
    {
        if flags & TF_ONE_WAY != 0 {
            return Ok(false);
        }
        let forward = flags & TF_CLEAR_BUF;
        match self.write_transaction_data(
            BC_REPLY,
            forward,
            0xffffffff,
            0,
            reply,
            reply_ptr,
            reply_offsets_ptr,
        ) {
            Ok(u) => Ok(true),
            Err(e) => Err(BinderError::Code(e)),
        }
    }

    /// The wire bytes of an interface token: the caller's strict-mode
    /// policy with the gather bit, the work-source attribution, the fixed
    /// header constant, and the interface descriptor string.
    pub open spec fn interface_token_enc(policy: i32, work_source: i32, descriptor: Seq<char>) -> Seq<
        u8,
    > {
        spec_i32_to_le(policy) + spec_i32_to_le(work_source) + spec_u32_to_le_bytes(
            INTERFACE_HEADER,
        ) + crate::parcelable::str_enc(descriptor)
    }

    /// The strict-mode word this thread propagates in an interface token.
    pub open spec fn token_policy(&self) -> i32 {
        (self.strict_mode_policy | STRICT_MODE_PENALTY_GATHER) as i32
    }

    /// The work-source word this thread propagates in an interface token:
    /// the current work source when propagation is on, else the unset
    /// sentinel.
    pub open spec fn token_work_source(&self) -> i32 {
        match self.transaction {
            Some(t) => if t.propagate_work_source {
                t.work_source as i32
            } else {
                UNSET_WORK_SOURCE
            },
            None => UNSET_WORK_SOURCE,
        }
    }

    /// Writes the interface token the receiving side's interface check
    /// expects, at the buffer's aligned end cursor.
    pub fn write_interface_token(&self, parcel: &mut Parcel, descriptor: &str) -> (r: Result<
        (),
        StatusCode,
    >)
        requires
            old(parcel).wf(),
            old(parcel).at_end(),
            old(parcel).pos % 4 == 0,
        ensures
            final(parcel).wf(),
            final(parcel).at_end(),
            final(parcel).pos % 4 == 0,
            r is Ok <==> (crate::parcelable::str_enc_ok(descriptor@) && old(parcel).data@.len()
                + Self::interface_token_enc(
                self.token_policy(),
                self.token_work_source(),
                descriptor@,
            ).len() <= PARCEL_MAX),
            r is Ok ==> final(parcel).data@ == old(parcel).data@ + Self::interface_token_enc(
                self.token_policy(),
                self.token_work_source(),
                descriptor@,
            ) && final(parcel).objects@ == old(parcel).objects@,
    {
        proof {
            lemma_auto_spec_u32_to_from_le_bytes();
            crate::parcelable::lemma_str_enc_len(descriptor@);
        }
        let token_len_ok = parcel.len() <= PARCEL_MAX - 12;
        if !token_len_ok {
            proof {
                assert(Self::interface_token_enc(
                    self.token_policy(),
                    self.token_work_source(),
                    descriptor@,
                ).len() >= 12);
            }
            return Err(StatusCode::NoMemory);
        }
        let policy = self.strict_mode_policy | STRICT_MODE_PENALTY_GATHER;
        let work_source: i32 = match self.transaction {
            Some(t) => {
                if t.propagate_work_source {
                    #[verifier::truncate]
                    let ws = t.work_source as i32;
                    ws
                } else {
                    UNSET_WORK_SOURCE
                }
            },
            None => UNSET_WORK_SOURCE,
        };
        let r1 = parcel.write_i32_aligned(policy);
        proof {
            assert(r1 is Ok);
            assert(parcel.data@ =~= old(parcel).data@ + spec_i32_to_le(self.token_policy()));
        }
        let ghost s1 = parcel.data@;
        let r2 = parcel.write_i32_aligned(work_source);
        proof {
            assert(r2 is Ok);
            assert(work_source == self.token_work_source());
            assert(parcel.data@ =~= s1 + spec_i32_to_le(self.token_work_source()));
        }
        let ghost s2 = parcel.data@;
        let r3 = parcel.write_u32_aligned(INTERFACE_HEADER);
        proof {
            assert(r3 is Ok);
            assert(parcel.data@ =~= s2 + spec_u32_to_le_bytes(INTERFACE_HEADER));
        }
        let ghost s3 = parcel.data@;
        let r4 = crate::parcelable::write_str(descriptor, parcel);
        match r4 {
            Ok(u) => {
                proof {
                    assert(parcel.data@ =~= old(parcel).data@ + Self::interface_token_enc(
                        self.token_policy(),
                        self.token_work_source(),
                        descriptor@,
                    ));
                }
                Ok(u)
            },
            Err(e) => Err(e),
        }
    }
}

} // verus!

verus! {

/// Validates the interface token at an inbound reader's cursor against the
/// expected interface descriptor. Reads the caller's strict-mode policy
/// (zeroed when the call was one-way) into the thread, charges the
/// propagated work source without re-propagating it, checks the fixed
/// header constant, and then the descriptor string; a mismatch is a
/// structured error carrying both descriptors.
pub fn check_interface(state: &mut ThreadState, reader: &mut Parcel, expected: &str) -> (r: Result<
    (),
    BinderError,
>)
    requires
        old(state).wf(),
        old(reader).wf(),
    ensures
        final(state).wf(),
        final(reader).wf(),
        final(reader).data@ == old(reader).data@,
        final(reader).objects@ == old(reader).objects@,
        ({
            let data = old(reader).data@;
            let pos = old(reader).pos as int;
            let oneway = (match old(state).transaction {
                Some(t) => t.last_transaction_binder_flags,
                None => 0u32,
            }) & TF_ONE_WAY != 0;
            match <i32 as crate::parcelable::Deserialize>::dec(data, pos) {
                crate::parcelable::DecOutcome::Fail(e) => {
                    &&& r == Err::<(), BinderError>(BinderError::Code(e))
                    &&& *final(state) == *old(state)
                },
                crate::parcelable::DecOutcome::Found(p0, q1) => {
                    let eff: i32 = if oneway {
                        0i32
                    } else {
                        p0
                    };
                    let st1 = (ThreadState { strict_mode_policy: eff, ..*old(state) });
                    match <i32 as crate::parcelable::Deserialize>::dec(data, q1) {
                        crate::parcelable::DecOutcome::Fail(e) => {
                            &&& r == Err::<(), BinderError>(BinderError::Code(e))
                            &&& *final(state) == st1
                        },
                        crate::parcelable::DecOutcome::Found(ws, q2) => {
                            let st2 = (match st1.transaction {
                                Some(t) => (ThreadState {
                                    transaction: Some(
                                        (TransactionState { work_source: ws as u32, ..t }),
                                    ),
                                    ..st1
                                }),
                                None => st1,
                            });
                            match <u32 as crate::parcelable::Deserialize>::dec(data, q2) {
                                crate::parcelable::DecOutcome::Fail(e) => {
                                    &&& r == Err::<(), BinderError>(BinderError::Code(e))
                                    &&& *final(state) == st2
                                },
                                crate::parcelable::DecOutcome::Found(h, q3) => {
                                    &&& *final(state) == st2
                                    &&& h != INTERFACE_HEADER ==> r == Err::<(), BinderError>(
                                        BinderError::BadInterfaceHeader {
                                            expected: INTERFACE_HEADER,
                                            actual: h,
                                        },
                                    ) && final(reader).pos == q3
                                    &&& h == INTERFACE_HEADER ==> match <String as crate::parcelable::Deserialize>::dec(
                                        data,
                                        q3,
                                    ) {
                                        crate::parcelable::DecOutcome::Fail(e) => r == Err::<
                                            (),
                                            BinderError,
                                        >(BinderError::Code(e)),
                                        crate::parcelable::DecOutcome::Found(chars, q4) => {
                                            &&& final(reader).pos == q4
                                            &&& chars == expected@ ==> r is Ok
                                            &&& chars != expected@ ==> (r is Err
                                                && match r->Err_0 {
                                                BinderError::BadDescriptor { expected: ex, actual: ac } => {
                                                    ex@ == expected@ && ac@ == chars
                                                },
                                                _ => false,
                                            })
                                        },
                                    }
                                },
                            }
                        },
                    }
                },
            }
        }),
{
    let oneway = state.last_transaction_binder_flags() & TF_ONE_WAY != 0;
    let p0 = match reader.read_i32_aligned() {
        Ok(v) => v,
        Err(e) => {
            return Err(BinderError::Code(e));
        },
    };
    let eff: i32 = if oneway {
        0
    } else {
        p0
    };
    state.set_strict_mode_policy(eff);
    let ws = match reader.read_i32_aligned() {
        Ok(v) => v,
        Err(e) => {
            return Err(BinderError::Code(e));
        },
    };
    #[verifier::truncate]
    let ws_uid = ws as u32;
    state.set_calling_work_source_uid_without_propagation(ws_uid);
    let h = match reader.read_u32_aligned() {
        Ok(v) => v,
        Err(e) => {
            return Err(BinderError::Code(e));
        },
    };
    if h != INTERFACE_HEADER {
        return Err(BinderError::BadInterfaceHeader { expected: INTERFACE_HEADER, actual: h });
    }
    let descriptor = match <String as crate::parcelable::Deserialize>::deserialize(reader) {
        Ok(v) => v,
        Err(e) => {
            return Err(BinderError::Code(e));
        },
    };
    let expected_owned = expected.to_owned();
    if descriptor == expected_owned {
        Ok(())
    } else {
        Err(BinderError::BadDescriptor { expected: expected_owned, actual: descriptor })
    }
}


impl ThreadState {
    /// Handles a reference grant on a local object (strong or weak by
    /// `cmd`): reads the target and cookie, grants the reference in the
    /// arena, and queues the matching acknowledgement.
    fn step_grant(&mut self, registry: &mut LocalRegistry, cmd: u32) -> (r: Result<
        StepOutcome,
        BinderError,
    >)
        requires
            old(self).wf(),
            old(registry).wf(),
            cmd == BR_ACQUIRE || cmd == BR_INCREFS,
        ensures
            final(self).wf(),
            final(registry).wf(),
            if old(self).in_has(16) {
                let ptr = old(self).in_u64_at(0);
                let cookie = old(self).in_u64_at(8);
                let ack = if cmd == BR_ACQUIRE {
                    BC_ACQUIRE_DONE
                } else {
                    BC_INCREFS_DONE
                };
                let can = if cmd == BR_ACQUIRE {
                    crate::binder::has_id(old(registry).entries@, ptr) && old(registry).entry_for(
                        ptr,
                    ).strong < u64::MAX
                } else {
                    crate::binder::has_id(old(registry).entries@, ptr) && old(registry).entry_for(
                        ptr,
                    ).weak < u64::MAX
                };
                &&& Self::in_advanced(*old(self), *final(self), 16)
                &&& Self::queues_same(*old(self), *final(self))
                &&& Self::same_core(*old(self), *final(self))
                &&& (if old(self).out_parcel.data@.len() + 20 > PARCEL_MAX {
                    &&& r == Err::<StepOutcome, BinderError>(
                        BinderError::Code(StatusCode::NoMemory),
                    )
                    &&& Self::out_same(*old(self), *final(self))
                    &&& *final(registry) == *old(registry)
                } else if can {
                    &&& r == Ok::<StepOutcome, BinderError>(StepOutcome::Continue)
                    &&& (cmd == BR_ACQUIRE ==> crate::binder::strong_updated(
                        old(registry).entries@,
                        final(registry).entries@,
                        ptr,
                        (old(registry).entry_for(ptr).strong + 1) as u64,
                    ))
                    &&& (cmd == BR_INCREFS ==> crate::binder::weak_updated(
                        old(registry).entries@,
                        final(registry).entries@,
                        ptr,
                        (old(registry).entry_for(ptr).weak + 1) as u64,
                    ))
                    &&& Self::out_appended(
                        *old(self),
                        *final(self),
                        spec_u32_to_le_bytes(ack) + spec_u64_to_le_bytes(ptr)
                            + spec_u64_to_le_bytes(cookie),
                    )
                } else {
                    &&& r == Err::<StepOutcome, BinderError>(
                        BinderError::Code(StatusCode::BadValue),
                    )
                    &&& Self::out_same(*old(self), *final(self))
                    &&& *final(registry) == *old(registry)
                })
            } else {
                &&& *final(self) == *old(self)
                &&& *final(registry) == *old(registry)
                &&& r == Err::<StepOutcome, BinderError>(
                    BinderError::Code(StatusCode::NotEnoughData),
                )
            },
    {
        if self.in_parcel.len() - self.in_parcel.data_position() < 16
            || self.in_parcel.data_position() > self.in_parcel.len() {
            return Err(BinderError::Code(StatusCode::NotEnoughData));
        }
        let ptr = match self.in_parcel.read_u64_aligned() {
            Ok(v) => v,
            Err(e) => {
                return Err(BinderError::Code(e));
            },
        };
        let cookie = match self.in_parcel.read_u64_aligned() {
            Ok(v) => v,
            Err(e) => {
                return Err(BinderError::Code(e));
            },
        };
        if self.out_parcel.len() + 20 > PARCEL_MAX {
            return Err(BinderError::Code(StatusCode::NoMemory));
        }
        let ack: u32 = if cmd == BR_ACQUIRE {
            BC_ACQUIRE_DONE
        } else {
            BC_INCREFS_DONE
        };
        let granted = if cmd == BR_ACQUIRE {
            registry.acquire_strong(ptr)
        } else {
            registry.acquire_weak(ptr)
        };
        match granted {
            Ok(u) => u,
            Err(e) => {
                return Err(BinderError::Code(e));
            },
        };
        let r1 = self.queue_u32(ack);
        proof {
            lemma_auto_spec_u32_to_from_le_bytes();
            lemma_auto_spec_u64_to_from_le_bytes();
            assert(r1 is Ok);
        }
        let r2 = self.queue_u64(ptr);
        proof {
            assert(r2 is Ok);
        }
        let r3 = self.queue_u64(cookie);
        proof {
            assert(r3 is Ok);
            assert(self.out_parcel.data@ =~= old(self).out_parcel.data@ + (
            spec_u32_to_le_bytes(ack) + spec_u64_to_le_bytes(ptr) + spec_u64_to_le_bytes(
                cookie,
            )));
        }
        Ok(StepOutcome::Continue)
    }

    /// Handles a reference revocation on a local object (strong or weak by
    /// `cmd`): reads the target, and revokes the reference in the arena; a
    /// revocation the arena cannot match is rejected, never applied twice.
    fn step_revoke(&mut self, registry: &mut LocalRegistry, cmd: u32) -> (r: Result<
        StepOutcome,
        BinderError,
    >)
        requires
            old(self).wf(),
            old(registry).wf(),
            cmd == BR_RELEASE || cmd == BR_DECREFS,
        ensures
            final(self).wf(),
            final(registry).wf(),
            if old(self).in_has(16) {
                let ptr = old(self).in_u64_at(0);
                let can = if cmd == BR_RELEASE {
                    crate::binder::has_id(old(registry).entries@, ptr) && old(registry).entry_for(
                        ptr,
                    ).strong > 0
                } else {
                    crate::binder::has_id(old(registry).entries@, ptr) && old(registry).entry_for(
                        ptr,
                    ).weak > 0
                };
                &&& Self::in_advanced(*old(self), *final(self), 16)
                &&& Self::out_same(*old(self), *final(self))
                &&& Self::queues_same(*old(self), *final(self))
                &&& Self::same_core(*old(self), *final(self))
                &&& (if can {
                    &&& r == Ok::<StepOutcome, BinderError>(StepOutcome::Continue)
                    &&& (cmd == BR_RELEASE ==> crate::binder::strong_updated(
                        old(registry).entries@,
                        final(registry).entries@,
                        ptr,
                        (old(registry).entry_for(ptr).strong - 1) as u64,
                    ))
                    &&& (cmd == BR_DECREFS ==> crate::binder::weak_updated(
                        old(registry).entries@,
                        final(registry).entries@,
                        ptr,
                        (old(registry).entry_for(ptr).weak - 1) as u64,
                    ))
                } else {
                    &&& r == Err::<StepOutcome, BinderError>(
                        BinderError::Code(StatusCode::BadValue),
                    )
                    &&& *final(registry) == *old(registry)
                })
            } else {
                &&& *final(self) == *old(self)
                &&& *final(registry) == *old(registry)
                &&& r == Err::<StepOutcome, BinderError>(
                    BinderError::Code(StatusCode::NotEnoughData),
                )
            },
    {
        if self.in_parcel.len() - self.in_parcel.data_position() < 16
            || self.in_parcel.data_position() > self.in_parcel.len() {
            return Err(BinderError::Code(StatusCode::NotEnoughData));
        }
        let ptr = match self.in_parcel.read_u64_aligned() {
            Ok(v) => v,
            Err(e) => {
                return Err(BinderError::Code(e));
            },
        };
        let _cookie = match self.in_parcel.read_u64_aligned() {
            Ok(v) => v,
            Err(e) => {
                return Err(BinderError::Code(e));
            },
        };
        let dropped = if cmd == BR_RELEASE {
            registry.release_strong(ptr)
        } else {
            registry.release_weak(ptr)
        };
        match dropped {
            Ok(u) => Ok(StepOutcome::Continue),
            Err(e) => Err(BinderError::Code(e)),
        }
    }

    /// Handles an inbound transaction (with or without a security context
    /// by `cmd`): reads the record, saves the current caller snapshot and
    /// installs the inbound caller's identity.
    fn step_inbound(&mut self, cmd: u32) -> (r: Result<StepOutcome, BinderError>)
        requires
            old(self).wf(),
            cmd == BR_TRANSACTION || cmd == BR_TRANSACTION_SEC_CTX,
        ensures
            final(self).wf(),
            ({
                let need: int = if cmd == BR_TRANSACTION_SEC_CTX {
                    TRANSACTION_RECORD_SIZE + 8
                } else {
                    TRANSACTION_RECORD_SIZE as int
                };
                let ctx: u64 = if cmd == BR_TRANSACTION_SEC_CTX {
                    old(self).in_u64_at(TRANSACTION_RECORD_SIZE as int)
                } else {
                    0u64
                };
                if old(self).in_has(need) {
                    &&& Self::in_advanced(*old(self), *final(self), need)
                    &&& Self::out_same(*old(self), *final(self))
                    &&& Self::queues_same(*old(self), *final(self))
                    &&& final(self).transaction == Some(snapshot_of(old(self).in_record(), ctx))
                    &&& final(self).strict_mode_policy == old(self).strict_mode_policy
                    &&& final(self).is_looper == old(self).is_looper
                    &&& final(self).is_flushing == old(self).is_flushing
                    &&& final(self).call_restriction == old(self).call_restriction
                    &&& match r {
                        Ok(StepOutcome::Inbound { frame, record, secctx }) => {
                            &&& frame.saved == old(self).transaction
                            &&& record == old(self).in_record()
                            &&& secctx == ctx
                        },
                        _ => false,
                    }
                } else {
                    &&& *final(self) == *old(self)
                    &&& r == Err::<StepOutcome, BinderError>(
                        BinderError::Code(StatusCode::NotEnoughData),
                    )
                }
            }),
    {
        let need: usize = if cmd == BR_TRANSACTION_SEC_CTX {
            TRANSACTION_RECORD_SIZE + 8
        } else {
            TRANSACTION_RECORD_SIZE
        };
        if self.in_parcel.len() - self.in_parcel.data_position() < need
            || self.in_parcel.data_position() > self.in_parcel.len() {
            return Err(BinderError::Code(StatusCode::NotEnoughData));
        }
        let record = match TransactionRecord::read_from(&mut self.in_parcel) {
            Ok(v) => v,
            Err(e) => {
                return Err(BinderError::Code(e));
            },
        };
        let secctx: u64 = if cmd == BR_TRANSACTION_SEC_CTX {
            match self.in_parcel.read_u64_aligned() {
                Ok(v) => v,
                Err(e) => {
                    return Err(BinderError::Code(e));
                },
            }
        } else {
            0
        };
        let saved = self.transaction;
        self.transaction = Some(TransactionState::from_transaction_data(&record, secctx));
        Ok(StepOutcome::Inbound { frame: InboundFrame { saved }, record, secctx })
    }

    /// Handles a dead-peer notification: reads the dead object's cookie and
    /// queues the acknowledgement the driver expects.
    fn step_dead_binder(&mut self) -> (r: Result<StepOutcome, BinderError>)
        requires
            old(self).wf(),
        ensures
            final(self).wf(),
            if old(self).in_has(8) {
                let cookie = old(self).in_u64_at(0);
                &&& Self::in_advanced(*old(self), *final(self), 8)
                &&& Self::queues_same(*old(self), *final(self))
                &&& Self::same_core(*old(self), *final(self))
                &&& (if old(self).out_parcel.data@.len() + 12 > PARCEL_MAX {
                    &&& r == Err::<StepOutcome, BinderError>(
                        BinderError::Code(StatusCode::NoMemory),
                    )
                    &&& Self::out_same(*old(self), *final(self))
                } else {
                    &&& r == Ok::<StepOutcome, BinderError>(StepOutcome::DeadBinder { cookie })
                    &&& Self::out_appended(
                        *old(self),
                        *final(self),
                        spec_u32_to_le_bytes(BC_DEAD_BINDER_DONE) + spec_u64_to_le_bytes(cookie),
                    )
                })
            } else {
                &&& *final(self) == *old(self)
                &&& r == Err::<StepOutcome, BinderError>(
                    BinderError::Code(StatusCode::NotEnoughData),
                )
            },
    {
        if self.in_parcel.len() - self.in_parcel.data_position() < 8
            || self.in_parcel.data_position() > self.in_parcel.len() {
            return Err(BinderError::Code(StatusCode::NotEnoughData));
        }
        let cookie = match self.in_parcel.read_u64_aligned() {
            Ok(v) => v,
            Err(e) => {
                return Err(BinderError::Code(e));
            },
        };
        if self.out_parcel.len() + 12 > PARCEL_MAX {
            return Err(BinderError::Code(StatusCode::NoMemory));
        }
        let r1 = self.queue_u32(BC_DEAD_BINDER_DONE);
        proof {
            lemma_auto_spec_u32_to_from_le_bytes();
            lemma_auto_spec_u64_to_from_le_bytes();
            assert(r1 is Ok);
        }
        let r2 = self.queue_u64(cookie);
        proof {
            assert(r2 is Ok);
            assert(self.out_parcel.data@ =~= old(self).out_parcel.data@ + (
            spec_u32_to_le_bytes(BC_DEAD_BINDER_DONE) + spec_u64_to_le_bytes(cookie)));
        }
        Ok(StepOutcome::DeadBinder { cookie })
    }
}

impl ThreadState {
    /// Handles an attempted upgrade of a weak reference on a local object:
    /// reads the priority, target and cookie, tries the strong grant in the
    /// arena, and answers the driver with the result.
    fn step_attempt_acquire(&mut self, registry: &mut LocalRegistry) -> (r: Result<
        StepOutcome,
        BinderError,
    >)
        requires
            old(self).wf(),
            old(registry).wf(),
        ensures
            final(self).wf(),
            final(registry).wf(),
            if old(self).in_has(20) {
                let ptr = old(self).in_u64_at(4);
                let can = crate::binder::has_id(old(registry).entries@, ptr) && old(
                    registry,
                ).entry_for(ptr).strong < u64::MAX;
                &&& Self::in_advanced(*old(self), *final(self), 20)
                &&& Self::queues_same(*old(self), *final(self))
                &&& Self::same_core(*old(self), *final(self))
                &&& (if old(self).out_parcel.data@.len() + 8 > PARCEL_MAX {
                    &&& r == Err::<StepOutcome, BinderError>(
                        BinderError::Code(StatusCode::NoMemory),
                    )
                    &&& Self::out_same(*old(self), *final(self))
                    &&& *final(registry) == *old(registry)
                } else {
                    &&& r == Ok::<StepOutcome, BinderError>(StepOutcome::Continue)
                    &&& (can ==> crate::binder::strong_updated(
                        old(registry).entries@,
                        final(registry).entries@,
                        ptr,
                        (old(registry).entry_for(ptr).strong + 1) as u64,
                    ))
                    &&& (!can ==> *final(registry) == *old(registry))
                    &&& Self::out_appended(
                        *old(self),
                        *final(self),
                        spec_u32_to_le_bytes(BC_ACQUIRE_RESULT) + spec_u32_to_le_bytes(
                            if can {
                                1u32
                            } else {
                                0u32
                            },
                        ),
                    )
                })
            } else {
                &&& *final(self) == *old(self)
                &&& *final(registry) == *old(registry)
                &&& r == Err::<StepOutcome, BinderError>(
                    BinderError::Code(StatusCode::NotEnoughData),
                )
            },
    {
        if self.in_parcel.len() - self.in_parcel.data_position() < 20
            || self.in_parcel.data_position() > self.in_parcel.len() {
            return Err(BinderError::Code(StatusCode::NotEnoughData));
        }
        let _priority = match self.in_parcel.read_i32_aligned() {
            Ok(v) => v,
            Err(e) => {
                return Err(BinderError::Code(e));
            },
        };
        let ptr = match self.in_parcel.read_u64_aligned() {
            Ok(v) => v,
            Err(e) => {
                return Err(BinderError::Code(e));
            },
        };
        let _cookie = match self.in_parcel.read_u64_aligned() {
            Ok(v) => v,
            Err(e) => {
                return Err(BinderError::Code(e));
            },
        };
        if self.out_parcel.len() + 8 > PARCEL_MAX {
            return Err(BinderError::Code(StatusCode::NoMemory));
        }
        let success = match registry.acquire_strong(ptr) {
            Ok(u) => true,
            Err(e) => false,
        };
        let r1 = self.queue_u32(BC_ACQUIRE_RESULT);
        proof {
            lemma_auto_spec_u32_to_from_le_bytes();
            assert(r1 is Ok);
        }
        let r2 = self.queue_u32(
            if success {
                1
            } else {
                0
            },
        );
        proof {
            assert(r2 is Ok);
            assert(self.out_parcel.data@ =~= old(self).out_parcel.data@ + (
            spec_u32_to_le_bytes(BC_ACQUIRE_RESULT) + spec_u32_to_le_bytes(
                if success {
                    1u32
                } else {
                    0u32
                },
            )));
        }
        Ok(StepOutcome::Continue)
    }
}

impl ThreadState {
    /// Interprets one return opcode from the driver, reading its payload
    /// from the inbound buffer, updating this thread's state and the local
    /// arena, queueing any acknowledgement the protocol owes, and telling
    /// the host what to do next. `goal` is the terminal condition the
    /// caller is waiting for; only a matching return ends the wait, and a
    /// reply record is surfaced as a reply only to a caller waiting for
    /// one. Unknown opcodes are tolerated as no-ops; dead-peer and failure
    /// returns surface as typed errors, never silently dropped.
    #[verifier::rlimit(80)]
    pub fn interpret_return(
        &mut self,
        registry: &mut LocalRegistry,
        cmd: u32,
        goal: WaitGoal,
    ) -> (r: Result<StepOutcome, BinderError>)
        requires
            old(self).wf(),
            old(registry).wf(),
        ensures
            final(self).wf(),
            final(registry).wf(),
            (cmd == BR_OK || cmd == BR_NOOP) ==> *final(self) == *old(self) && *final(registry)
                == *old(registry) && r == Ok::<StepOutcome, BinderError>(StepOutcome::Continue),
            (cmd == BR_TRANSACTION_COMPLETE || cmd == BR_ONEWAY_SPAM_SUSPECT) ==> *final(self)
                == *old(self) && *final(registry) == *old(registry) && r == Ok::<
                StepOutcome,
                BinderError,
            >(
                if goal == WaitGoal::TransactionComplete {
                    StepOutcome::Finished
                } else {
                    StepOutcome::Continue
                },
            ),
            cmd == BR_DEAD_REPLY ==> *final(self) == *old(self) && *final(registry) == *old(
                registry,
            ) && r == Err::<StepOutcome, BinderError>(
                BinderError::Code(StatusCode::DeadObject),
            ),
            (cmd == BR_FAILED_REPLY || cmd == BR_FROZEN_REPLY) ==> *final(self) == *old(self)
                && *final(registry) == *old(registry) && r == Err::<StepOutcome, BinderError>(
                BinderError::Code(StatusCode::FailedTransaction),
            ),
            cmd == BR_FINISHED ==> *final(self) == *old(self) && *final(registry) == *old(
                registry,
            ) && r == Err::<StepOutcome, BinderError>(BinderError::Code(StatusCode::TimedOut)),
            cmd == BR_SPAWN_LOOPER ==> *final(self) == *old(self) && *final(registry) == *old(
                registry,
            ) && r == Ok::<StepOutcome, BinderError>(StepOutcome::SpawnLooper),
            cmd == BR_ERROR ==> *final(registry) == *old(registry) && (if old(self).in_has(4) {
                &&& Self::in_advanced(*old(self), *final(self), 4)
                &&& Self::out_same(*old(self), *final(self))
                &&& Self::queues_same(*old(self), *final(self))
                &&& Self::same_core(*old(self), *final(self))
                &&& r == Err::<StepOutcome, BinderError>(
                    BinderError::DriverStatus { status: old(self).in_head_i32() },
                )
            } else {
                &&& *final(self) == *old(self)
                &&& r == Err::<StepOutcome, BinderError>(
                    BinderError::Code(StatusCode::NotEnoughData),
                )
            }),
            cmd == BR_ACQUIRE_RESULT ==> *final(registry) == *old(registry) && (if old(
                self,
            ).in_has(4) {
                &&& Self::in_advanced(*old(self), *final(self), 4)
                &&& Self::out_same(*old(self), *final(self))
                &&& Self::queues_same(*old(self), *final(self))
                &&& Self::same_core(*old(self), *final(self))
                &&& r == Ok::<StepOutcome, BinderError>(
                    if goal == WaitGoal::AcquireResult {
                        StepOutcome::AcquireDone { success: old(self).in_head_i32() != 0 }
                    } else {
                        StepOutcome::Continue
                    },
                )
            } else {
                &&& *final(self) == *old(self)
                &&& r == Err::<StepOutcome, BinderError>(
                    BinderError::Code(StatusCode::NotEnoughData),
                )
            }),
            cmd == BR_REPLY ==> *final(registry) == *old(registry) && (if old(self).in_has(
                TRANSACTION_RECORD_SIZE as int,
            ) {
                &&& Self::in_advanced(*old(self), *final(self), TRANSACTION_RECORD_SIZE as int)
                &&& Self::out_same(*old(self), *final(self))
                &&& Self::queues_same(*old(self), *final(self))
                &&& Self::same_core(*old(self), *final(self))
                &&& r == Ok::<StepOutcome, BinderError>(
                    if goal == WaitGoal::Reply {
                        if old(self).in_record().flags & TF_STATUS_CODE == 0 {
                            StepOutcome::Reply { record: old(self).in_record() }
                        } else {
                            StepOutcome::ReplyStatus { record: old(self).in_record() }
                        }
                    } else {
                        StepOutcome::StrayReply { record: old(self).in_record() }
                    },
                )
            } else {
                &&& *final(self) == *old(self)
                &&& r == Err::<StepOutcome, BinderError>(
                    BinderError::Code(StatusCode::NotEnoughData),
                )
            }),
            cmd == BR_TRANSACTION ==> *final(registry) == *old(registry) && (if old(self).in_has(
                TRANSACTION_RECORD_SIZE as int,
            ) {
                &&& Self::in_advanced(*old(self), *final(self), TRANSACTION_RECORD_SIZE as int)
                &&& Self::out_same(*old(self), *final(self))
                &&& Self::queues_same(*old(self), *final(self))
                &&& final(self).transaction == Some(snapshot_of(old(self).in_record(), 0))
                &&& final(self).strict_mode_policy == old(self).strict_mode_policy
                &&& final(self).is_looper == old(self).is_looper
                &&& final(self).is_flushing == old(self).is_flushing
                &&& final(self).call_restriction == old(self).call_restriction
                &&& match r {
                    Ok(StepOutcome::Inbound { frame, record, secctx }) => {
                        &&& frame.saved == old(self).transaction
                        &&& record == old(self).in_record()
                        &&& secctx == 0
                    },
                    _ => false,
                }
            } else {
                &&& *final(self) == *old(self)
                &&& r == Err::<StepOutcome, BinderError>(
                    BinderError::Code(StatusCode::NotEnoughData),
                )
            }),
            cmd == BR_TRANSACTION_SEC_CTX ==> *final(registry) == *old(registry) && (if old(
                self,
            ).in_has(TRANSACTION_RECORD_SIZE + 8) {
                &&& Self::in_advanced(*old(self), *final(self), TRANSACTION_RECORD_SIZE + 8)
                &&& Self::out_same(*old(self), *final(self))
                &&& Self::queues_same(*old(self), *final(self))
                &&& final(self).transaction == Some(
                    snapshot_of(
                        old(self).in_record(),
                        old(self).in_u64_at(TRANSACTION_RECORD_SIZE as int),
                    ),
                )
                &&& final(self).strict_mode_policy == old(self).strict_mode_policy
                &&& final(self).is_looper == old(self).is_looper
                &&& final(self).is_flushing == old(self).is_flushing
                &&& final(self).call_restriction == old(self).call_restriction
                &&& match r {
                    Ok(StepOutcome::Inbound { frame, record, secctx }) => {
                        &&& frame.saved == old(self).transaction
                        &&& record == old(self).in_record()
                        &&& secctx == old(self).in_u64_at(TRANSACTION_RECORD_SIZE as int)
                    },
                    _ => false,
                }
            } else {
                &&& *final(self) == *old(self)
                &&& r == Err::<StepOutcome, BinderError>(
                    BinderError::Code(StatusCode::NotEnoughData),
                )
            }),
            cmd == BR_ACQUIRE ==> (if old(self).in_has(16) {
                let ptr = old(self).in_u64_at(0);
                let cookie = old(self).in_u64_at(8);
                &&& Self::in_advanced(*old(self), *final(self), 16)
                &&& Self::queues_same(*old(self), *final(self))
                &&& Self::same_core(*old(self), *final(self))
                &&& (if old(self).out_parcel.data@.len() + 20 > PARCEL_MAX {
                    &&& r == Err::<StepOutcome, BinderError>(
                        BinderError::Code(StatusCode::NoMemory),
                    )
                    &&& Self::out_same(*old(self), *final(self))
                    &&& *final(registry) == *old(registry)
                } else if crate::binder::has_id(old(registry).entries@, ptr) && old(
                    registry,
                ).entry_for(ptr).strong < u64::MAX {
                    &&& r == Ok::<StepOutcome, BinderError>(StepOutcome::Continue)
                    &&& crate::binder::strong_updated(
                        old(registry).entries@,
                        final(registry).entries@,
                        ptr,
                        (old(registry).entry_for(ptr).strong + 1) as u64,
                    )
                    &&& Self::out_appended(
                        *old(self),
                        *final(self),
                        spec_u32_to_le_bytes(BC_ACQUIRE_DONE) + spec_u64_to_le_bytes(ptr)
                            + spec_u64_to_le_bytes(cookie),
                    )
                } else {
                    &&& r == Err::<StepOutcome, BinderError>(
                        BinderError::Code(StatusCode::BadValue),
                    )
                    &&& Self::out_same(*old(self), *final(self))
                    &&& *final(registry) == *old(registry)
                })
            } else {
                &&& *final(self) == *old(self)
                &&& *final(registry) == *old(registry)
                &&& r == Err::<StepOutcome, BinderError>(
                    BinderError::Code(StatusCode::NotEnoughData),
                )
            }),
            cmd == BR_INCREFS ==> (if old(self).in_has(16) {
                let ptr = old(self).in_u64_at(0);
                let cookie = old(self).in_u64_at(8);
                &&& Self::in_advanced(*old(self), *final(self), 16)
                &&& Self::queues_same(*old(self), *final(self))
                &&& Self::same_core(*old(self), *final(self))
                &&& (if old(self).out_parcel.data@.len() + 20 > PARCEL_MAX {
                    &&& r == Err::<StepOutcome, BinderError>(
                        BinderError::Code(StatusCode::NoMemory),
                    )
                    &&& Self::out_same(*old(self), *final(self))
                    &&& *final(registry) == *old(registry)
                } else if crate::binder::has_id(old(registry).entries@, ptr) && old(
                    registry,
                ).entry_for(ptr).weak < u64::MAX {
                    &&& r == Ok::<StepOutcome, BinderError>(StepOutcome::Continue)
                    &&& crate::binder::weak_updated(
                        old(registry).entries@,
                        final(registry).entries@,
                        ptr,
                        (old(registry).entry_for(ptr).weak + 1) as u64,
                    )
                    &&& Self::out_appended(
                        *old(self),
                        *final(self),
                        spec_u32_to_le_bytes(BC_INCREFS_DONE) + spec_u64_to_le_bytes(ptr)
                            + spec_u64_to_le_bytes(cookie),
                    )
                } else {
                    &&& r == Err::<StepOutcome, BinderError>(
                        BinderError::Code(StatusCode::BadValue),
                    )
                    &&& Self::out_same(*old(self), *final(self))
                    &&& *final(registry) == *old(registry)
                })
            } else {
                &&& *final(self) == *old(self)
                &&& *final(registry) == *old(registry)
                &&& r == Err::<StepOutcome, BinderError>(
                    BinderError::Code(StatusCode::NotEnoughData),
                )
            }),
            cmd == BR_RELEASE ==> (if old(self).in_has(16) {
                let ptr = old(self).in_u64_at(0);
                &&& Self::in_advanced(*old(self), *final(self), 16)
                &&& Self::out_same(*old(self), *final(self))
                &&& Self::same_core(*old(self), *final(self))
                &&& (if crate::binder::has_id(old(registry).entries@, ptr) && old(
                    registry,
                ).entry_for(ptr).strong > 0 {
                    &&& r == Ok::<StepOutcome, BinderError>(StepOutcome::Continue)
                    &&& crate::binder::strong_updated(
                        old(registry).entries@,
                        final(registry).entries@,
                        ptr,
                        (old(registry).entry_for(ptr).strong - 1) as u64,
                    )
                    &&& Self::queues_same(*old(self), *final(self))
                } else {
                    &&& r == Err::<StepOutcome, BinderError>(
                        BinderError::Code(StatusCode::BadValue),
                    )
                    &&& *final(registry) == *old(registry)
                    &&& Self::queues_same(*old(self), *final(self))
                })
            } else {
                &&& *final(self) == *old(self)
                &&& *final(registry) == *old(registry)
                &&& r == Err::<StepOutcome, BinderError>(
                    BinderError::Code(StatusCode::NotEnoughData),
                )
            }),
            cmd == BR_DECREFS ==> (if old(self).in_has(16) {
                let ptr = old(self).in_u64_at(0);
                &&& Self::in_advanced(*old(self), *final(self), 16)
                &&& Self::out_same(*old(self), *final(self))
                &&& Self::same_core(*old(self), *final(self))
                &&& (if crate::binder::has_id(old(registry).entries@, ptr) && old(
                    registry,
                ).entry_for(ptr).weak > 0 {
                    &&& r == Ok::<StepOutcome, BinderError>(StepOutcome::Continue)
                    &&& crate::binder::weak_updated(
                        old(registry).entries@,
                        final(registry).entries@,
                        ptr,
                        (old(registry).entry_for(ptr).weak - 1) as u64,
                    )
                    &&& Self::queues_same(*old(self), *final(self))
                } else {
                    &&& r == Err::<StepOutcome, BinderError>(
                        BinderError::Code(StatusCode::BadValue),
                    )
                    &&& *final(registry) == *old(registry)
                    &&& Self::queues_same(*old(self), *final(self))
                })
            } else {
                &&& *final(self) == *old(self)
                &&& *final(registry) == *old(registry)
                &&& r == Err::<StepOutcome, BinderError>(
                    BinderError::Code(StatusCode::NotEnoughData),
                )
            }),
            cmd == BR_DEAD_BINDER ==> *final(registry) == *old(registry) && (if old(self).in_has(
                8,
            ) {
                let cookie = old(self).in_u64_at(0);
                &&& Self::in_advanced(*old(self), *final(self), 8)
                &&& Self::queues_same(*old(self), *final(self))
                &&& Self::same_core(*old(self), *final(self))
                &&& (if old(self).out_parcel.data@.len() + 12 > PARCEL_MAX {
                    &&& r == Err::<StepOutcome, BinderError>(
                        BinderError::Code(StatusCode::NoMemory),
                    )
                    &&& Self::out_same(*old(self), *final(self))
                } else {
                    &&& r == Ok::<StepOutcome, BinderError>(StepOutcome::DeadBinder { cookie })
                    &&& Self::out_appended(
                        *old(self),
                        *final(self),
                        spec_u32_to_le_bytes(BC_DEAD_BINDER_DONE) + spec_u64_to_le_bytes(cookie),
                    )
                })
            } else {
                &&& *final(self) == *old(self)
                &&& r == Err::<StepOutcome, BinderError>(
                    BinderError::Code(StatusCode::NotEnoughData),
                )
            }),
            cmd == BR_CLEAR_DEATH_NOTIFICATION_DONE ==> *final(registry) == *old(registry) && (
            if old(self).in_has(8) {
                &&& Self::in_advanced(*old(self), *final(self), 8)
                &&& Self::out_same(*old(self), *final(self))
                &&& Self::queues_same(*old(self), *final(self))
                &&& Self::same_core(*old(self), *final(self))
                &&& r == Ok::<StepOutcome, BinderError>(
                    StepOutcome::ClearedDeathNotification { cookie: old(self).in_u64_at(0) },
                )
            } else {
                &&& *final(self) == *old(self)
                &&& r == Err::<StepOutcome, BinderError>(
                    BinderError::Code(StatusCode::NotEnoughData),
                )
            }),
            cmd == BR_ATTEMPT_ACQUIRE ==> (if old(self).in_has(20) {
                let ptr = old(self).in_u64_at(4);
                let can = crate::binder::has_id(old(registry).entries@, ptr) && old(
                    registry,
                ).entry_for(ptr).strong < u64::MAX;
                &&& Self::in_advanced(*old(self), *final(self), 20)
                &&& Self::queues_same(*old(self), *final(self))
                &&& Self::same_core(*old(self), *final(self))
                &&& (if old(self).out_parcel.data@.len() + 8 > PARCEL_MAX {
                    &&& r == Err::<StepOutcome, BinderError>(
                        BinderError::Code(StatusCode::NoMemory),
                    )
                    &&& Self::out_same(*old(self), *final(self))
                    &&& *final(registry) == *old(registry)
                } else {
                    &&& r == Ok::<StepOutcome, BinderError>(StepOutcome::Continue)
                    &&& (can ==> crate::binder::strong_updated(
                        old(registry).entries@,
                        final(registry).entries@,
                        ptr,
                        (old(registry).entry_for(ptr).strong + 1) as u64,
                    ))
                    &&& (!can ==> *final(registry) == *old(registry))
                    &&& Self::out_appended(
                        *old(self),
                        *final(self),
                        spec_u32_to_le_bytes(BC_ACQUIRE_RESULT) + spec_u32_to_le_bytes(
                            if can {
                                1u32
                            } else {
                                0u32
                            },
                        ),
                    )
                })
            } else {
                &&& *final(self) == *old(self)
                &&& *final(registry) == *old(registry)
                &&& r == Err::<StepOutcome, BinderError>(
                    BinderError::Code(StatusCode::NotEnoughData),
                )
            }),
            (cmd != BR_OK && cmd != BR_NOOP && cmd != BR_TRANSACTION_COMPLETE && cmd
                != BR_ONEWAY_SPAM_SUSPECT && cmd != BR_DEAD_REPLY && cmd != BR_FAILED_REPLY && cmd
                != BR_FROZEN_REPLY && cmd != BR_FINISHED && cmd != BR_SPAWN_LOOPER && cmd
                != BR_ERROR && cmd != BR_ACQUIRE_RESULT && cmd != BR_REPLY && cmd != BR_TRANSACTION
                && cmd != BR_TRANSACTION_SEC_CTX && cmd != BR_ACQUIRE && cmd != BR_INCREFS && cmd
                != BR_RELEASE && cmd != BR_DECREFS && cmd != BR_DEAD_BINDER && cmd
                != BR_CLEAR_DEATH_NOTIFICATION_DONE && cmd != BR_ATTEMPT_ACQUIRE) ==> *final(self)
                == *old(self) && *final(registry) == *old(registry) && r == Ok::<
                StepOutcome,
                BinderError,
            >(StepOutcome::Continue),
    {
        if cmd == BR_OK || cmd == BR_NOOP {
            Ok(StepOutcome::Continue)
        } else if cmd == BR_TRANSACTION_COMPLETE || cmd == BR_ONEWAY_SPAM_SUSPECT {
            match goal {
                WaitGoal::TransactionComplete => Ok(StepOutcome::Finished),
                _ => Ok(StepOutcome::Continue),
            }
        } else if cmd == BR_DEAD_REPLY {
            Err(BinderError::Code(StatusCode::DeadObject))
        } else if cmd == BR_FAILED_REPLY || cmd == BR_FROZEN_REPLY {
            Err(BinderError::Code(StatusCode::FailedTransaction))
        } else if cmd == BR_FINISHED {
            Err(BinderError::Code(StatusCode::TimedOut))
        } else if cmd == BR_SPAWN_LOOPER {
            Ok(StepOutcome::SpawnLooper)
        } else if cmd == BR_ERROR {
            let status = match self.in_parcel.read_i32_aligned() {
                Ok(v) => v,
                Err(e) => {
                    return Err(BinderError::Code(e));
                },
            };
            Err(BinderError::DriverStatus { status })
        } else if cmd == BR_ACQUIRE_RESULT {
            let result = match self.in_parcel.read_i32_aligned() {
                Ok(v) => v,
                Err(e) => {
                    return Err(BinderError::Code(e));
                },
            };
            match goal {
                WaitGoal::AcquireResult => Ok(StepOutcome::AcquireDone { success: result != 0 }),
                _ => Ok(StepOutcome::Continue),
            }
        } else if cmd == BR_REPLY {
            let record = match TransactionRecord::read_from(&mut self.in_parcel) {
                Ok(v) => v,
                Err(e) => {
                    return Err(BinderError::Code(e));
                },
            };
            match goal {
                WaitGoal::Reply => {
                    if record.flags & TF_STATUS_CODE == 0 {
                        Ok(StepOutcome::Reply { record })
                    } else {
                        Ok(StepOutcome::ReplyStatus { record })
                    }
                },
                _ => Ok(StepOutcome::StrayReply { record }),
            }
        } else if cmd == BR_TRANSACTION || cmd == BR_TRANSACTION_SEC_CTX {
            self.step_inbound(cmd)
        } else if cmd == BR_ACQUIRE || cmd == BR_INCREFS {
            self.step_grant(registry, cmd)
        } else if cmd == BR_RELEASE || cmd == BR_DECREFS {
            self.step_revoke(registry, cmd)
        } else if cmd == BR_DEAD_BINDER {
            self.step_dead_binder()
        } else if cmd == BR_CLEAR_DEATH_NOTIFICATION_DONE {
            let cookie = match self.in_parcel.read_u64_aligned() {
                Ok(v) => v,
                Err(e) => {
                    return Err(BinderError::Code(e));
                },
            };
            Ok(StepOutcome::ClearedDeathNotification { cookie })
        } else if cmd == BR_ATTEMPT_ACQUIRE {
            self.step_attempt_acquire(registry)
        } else {
            Ok(StepOutcome::Continue)
        }
    }
}

/// Reentrancy of inbound transactions: while an inbound call is being
/// serviced, the installed caller identity is the inbound record's, and
/// restoring its frame brings back exactly the snapshot that was current
/// before it arrived — nested inbound calls on one thread observe correct
/// identity before, during, and after.
pub proof fn lemma_inbound_reentrancy(
    pre: ThreadState,
    during: ThreadState,
    after: ThreadState,
    record: TransactionRecord,
    secctx: u64,
    frame_saved: Option<TransactionState>,
)
    requires
        during.transaction == Some(snapshot_of(record, secctx)),
        frame_saved == pre.transaction,
        after.transaction == frame_saved,
    ensures
        during.transaction->Some_0.calling_pid == record.sender_pid,
        during.transaction->Some_0.calling_uid == record.sender_euid,
        after.transaction == pre.transaction,
        (match pre.transaction {
            Some(t) => t.calling_pid != record.sender_pid ==> during.transaction
                != pre.transaction,
            None => during.transaction != pre.transaction,
        }),
{
}

} // verus!
