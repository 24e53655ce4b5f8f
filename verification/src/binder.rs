//! Driver protocol definitions: command and return opcodes, transaction
//! flags, wire type tags for transferable object records, the fixed-layout
//! transaction record, and the arena of locally-hosted objects.
//!
//! The opcode values are the driver's ioctl-encoded constants and must match
//! it bit for bit; the transaction record layout likewise (field order,
//! widths and padding of the 64-byte record).

use vstd::prelude::*;
use vstd::bytes::*;

use crate::error::StatusCode;
use crate::parcel::{Parcel, spec_i32_to_le, spec_i32_from_le};

verus! {

/// Outbound command: submit a transaction record.
pub const BC_TRANSACTION: u32 = 0x40406300;

/// Outbound command: submit a reply transaction record.
pub const BC_REPLY: u32 = 0x40406301;

/// Outbound command: answer an attempted acquire with its result.
pub const BC_ACQUIRE_RESULT: u32 = 0x40046302;

/// Outbound command: release a driver-owned buffer that was handed to this
/// process with an inbound transaction or reply.
pub const BC_FREE_BUFFER: u32 = 0x40086303;

/// Outbound command: take a weak reference on a remote handle.
pub const BC_INCREFS: u32 = 0x40046304;

/// Outbound command: take a strong reference on a remote handle.
pub const BC_ACQUIRE: u32 = 0x40046305;

/// Outbound command: drop a strong reference on a remote handle.
pub const BC_RELEASE: u32 = 0x40046306;

/// Outbound command: drop a weak reference on a remote handle.
pub const BC_DECREFS: u32 = 0x40046307;

/// Outbound command: acknowledge a weak-reference grant on a local object.
pub const BC_INCREFS_DONE: u32 = 0x40106308;

/// Outbound command: acknowledge a strong-reference grant on a local object.
pub const BC_ACQUIRE_DONE: u32 = 0x40106309;

/// Outbound command: register an additional looper thread with the driver.
pub const BC_REGISTER_LOOPER: u32 = 0x0000630b;

/// Outbound command: this thread enters its service loop.
pub const BC_ENTER_LOOPER: u32 = 0x0000630c;

/// Outbound command: this thread leaves its service loop.
pub const BC_EXIT_LOOPER: u32 = 0x0000630d;

/// Outbound command: acknowledge a dead-binder notification.
pub const BC_DEAD_BINDER_DONE: u32 = 0x40086310;

/// Inbound return: an error status follows.
pub const BR_ERROR: u32 = 0x80047200;

/// Inbound return: no operation, with an unused status slot.
pub const BR_OK: u32 = 0x00007201;

/// Inbound return: an inbound transaction record follows.
pub const BR_TRANSACTION: u32 = 0x80407202;

/// Inbound return: a reply transaction record follows.
pub const BR_REPLY: u32 = 0x80407203;

/// Inbound return: the result of an attempted acquire follows.
pub const BR_ACQUIRE_RESULT: u32 = 0x80047204;

/// Inbound return: the target of a transaction is dead.
pub const BR_DEAD_REPLY: u32 = 0x00007205;

/// Inbound return: the outbound transaction has been consumed.
pub const BR_TRANSACTION_COMPLETE: u32 = 0x00007206;

/// Inbound return: grant a weak reference on a local object.
pub const BR_INCREFS: u32 = 0x80107207;

/// Inbound return: grant a strong reference on a local object.
pub const BR_ACQUIRE: u32 = 0x80107208;

/// Inbound return: revoke a strong reference on a local object.
pub const BR_RELEASE: u32 = 0x80107209;

/// Inbound return: revoke a weak reference on a local object.
pub const BR_DECREFS: u32 = 0x8010720a;

/// Inbound return: attempt to upgrade a weak reference on a local object.
pub const BR_ATTEMPT_ACQUIRE: u32 = 0x8014720b;

/// Inbound return: no operation.
pub const BR_NOOP: u32 = 0x0000720c;

/// Inbound return: the driver asks for one more looper thread.
pub const BR_SPAWN_LOOPER: u32 = 0x0000720d;

/// Inbound return: the looper is finished.
pub const BR_FINISHED: u32 = 0x0000720e;

/// Inbound return: a remote object this process watches has died.
pub const BR_DEAD_BINDER: u32 = 0x8008720f;

/// Inbound return: a death-notification clearance completed.
pub const BR_CLEAR_DEATH_NOTIFICATION_DONE: u32 = 0x80087210;

/// Inbound return: the outbound transaction failed.
pub const BR_FAILED_REPLY: u32 = 0x00007211;

/// Inbound return: the target process of the transaction is frozen.
pub const BR_FROZEN_REPLY: u32 = 0x00007212;

/// Inbound return: this process sends suspiciously many one-way calls.
pub const BR_ONEWAY_SPAM_SUSPECT: u32 = 0x00007213;

/// Inbound return: an inbound transaction record with a security context
/// pointer follows.
pub const BR_TRANSACTION_SEC_CTX: u32 = 0x80487202;

/// Transaction flag: one-way call, no reply payload is ever produced.
pub const TF_ONE_WAY: u32 = 0x01;

/// Transaction flag: the payload is a raw status code, not structured data.
pub const TF_STATUS_CODE: u32 = 0x08;

/// Transaction flag: the sender accepts file descriptors in the reply.
pub const TF_ACCEPT_FDS: u32 = 0x10;

/// Transaction flag: clear the driver-side buffer after the reply is sent.
pub const TF_CLEAR_BUF: u32 = 0x20;

/// Wire type tag of a locally-hosted strong object reference.
pub const BINDER_TYPE_BINDER: u32 = 0x73622a85;

/// Wire type tag of a handle-addressed strong object reference.
pub const BINDER_TYPE_HANDLE: u32 = 0x73682a85;

/// The fixed header constant an interface token starts with.
pub const INTERFACE_HEADER: u32 = 0x53595354;

/// The reserved transaction code of an interface-descriptor query.
pub const INTERFACE_TRANSACTION: u32 = 0x5f4e5446;

/// The reserved transaction code of a liveness ping.
pub const PING_TRANSACTION: u32 = 0x5f504e47;

/// The sentinel for "no work source set".
pub const UNSET_WORK_SOURCE: i32 = -1;

/// The compatibility level a transferred object reference promises.
#[derive(Clone, Copy, Debug, PartialEq, Eq, Structural)]
pub enum Stability {
    /// Undeclared, process-local stability.
    Local,
    /// Stable within the vendor image.
    Vendor,
    /// Stable within the system image.
    System,
    /// Stable across the vendor/system interface.
    Vintf,
}

/// The numeric rank of a stability level; a holder refuses content of lower
/// rank than its own.
pub open spec fn stability_rank(s: Stability) -> int {
    match s {
        Stability::Local => 0,
        Stability::Vendor => 3,
        Stability::System => 12,
        Stability::Vintf => 63,
    }
}

impl Stability {
    /// The 32-bit wire value of this stability level.
    pub fn to_i32(self) -> (v: i32)
        ensures
            v == stability_rank(self),
    {
        match self {
            Stability::Local => 0,
            Stability::Vendor => 3,
            Stability::System => 12,
            Stability::Vintf => 63,
        }
    }
}

/// The process-wide policy on blocking (non-one-way) outbound calls.
#[derive(Clone, Copy, Debug, PartialEq, Eq, Structural)]
pub enum CallRestriction {
    /// Blocking calls are allowed.
    Unrestricted,
    /// A blocking call is a diagnosed mistake, but proceeds.
    ErrorIfNotOneway,
    /// A blocking call must crash the process.
    FatalIfNotOneway,
}

/// The fixed-layout transaction record exchanged with the driver: target
/// (pointer or handle, by wire type), opcode, flags, caller identity (zero
/// when outbound), payload size and pointer, and object-offsets size and
/// pointer. 64 bytes on the wire.
#[derive(Clone, Copy, Debug, PartialEq, Eq, Structural)]
pub struct TransactionRecord {
    /// Target: a local-object id, or a handle in the low 32 bits.
    pub target: u64,
    /// Target-private cookie.
    pub cookie: u64,
    /// The method opcode ("code") of the call.
    pub code: u32,
    /// Transaction flags.
    pub flags: u32,
    /// Caller process id; zero when outbound.
    pub sender_pid: i32,
    /// Caller effective user id; zero when outbound.
    pub sender_euid: u32,
    /// Payload size in bytes.
    pub data_size: u64,
    /// Object-offsets size in bytes.
    pub offsets_size: u64,
    /// Pointer to the payload bytes.
    pub buffer: u64,
    /// Pointer to the object-offsets array.
    pub offsets: u64,
}

/// Byte length of an encoded transaction record.
pub const TRANSACTION_RECORD_SIZE: usize = 64;

impl TransactionRecord {
    /// The 64 wire bytes of this record, fields in driver order, each
    /// little-endian.
    pub open spec fn wire_bytes(self) -> Seq<u8> {
        spec_u64_to_le_bytes(self.target) + spec_u64_to_le_bytes(self.cookie)
            + spec_u32_to_le_bytes(self.code) + spec_u32_to_le_bytes(self.flags) + spec_i32_to_le(
            self.sender_pid,
        ) + spec_u32_to_le_bytes(self.sender_euid) + spec_u64_to_le_bytes(self.data_size)
            + spec_u64_to_le_bytes(self.offsets_size) + spec_u64_to_le_bytes(self.buffer)
            + spec_u64_to_le_bytes(self.offsets)
    }

    /// The record read back from 64 wire bytes.
    pub open spec fn from_wire_bytes(s: Seq<u8>) -> TransactionRecord
        recommends
            s.len() == TRANSACTION_RECORD_SIZE,
    {
        TransactionRecord {
            target: spec_u64_from_le_bytes(s.subrange(0, 8)),
            cookie: spec_u64_from_le_bytes(s.subrange(8, 16)),
            code: spec_u32_from_le_bytes(s.subrange(16, 20)),
            flags: spec_u32_from_le_bytes(s.subrange(20, 24)),
            sender_pid: spec_i32_from_le(s.subrange(24, 28)),
            sender_euid: spec_u32_from_le_bytes(s.subrange(28, 32)),
            data_size: spec_u64_from_le_bytes(s.subrange(32, 40)),
            offsets_size: spec_u64_from_le_bytes(s.subrange(40, 48)),
            buffer: spec_u64_from_le_bytes(s.subrange(48, 56)),
            offsets: spec_u64_from_le_bytes(s.subrange(56, 64)),
        }
    }

    /// The encoded record is 64 bytes long.
    pub proof fn lemma_wire_bytes_len(self)
        ensures
            self.wire_bytes().len() == TRANSACTION_RECORD_SIZE,
    {
        lemma_auto_spec_u64_to_from_le_bytes();
        lemma_auto_spec_u32_to_from_le_bytes();
    }

    /// A record survives the round trip through its 64 wire bytes.
    pub proof fn lemma_record_round_trip(self)
        ensures
            self.wire_bytes().len() == TRANSACTION_RECORD_SIZE,
            Self::from_wire_bytes(self.wire_bytes()) == self,
    {
        lemma_auto_spec_u64_to_from_le_bytes();
        lemma_auto_spec_u32_to_from_le_bytes();
        crate::parcel::lemma_i32_le_round_trip(self.sender_pid);
        let s = self.wire_bytes();
        assert(s.subrange(0, 8) =~= spec_u64_to_le_bytes(self.target));
        assert(s.subrange(8, 16) =~= spec_u64_to_le_bytes(self.cookie));
        assert(s.subrange(16, 20) =~= spec_u32_to_le_bytes(self.code));
        assert(s.subrange(20, 24) =~= spec_u32_to_le_bytes(self.flags));
        assert(s.subrange(24, 28) =~= spec_i32_to_le(self.sender_pid));
        assert(s.subrange(28, 32) =~= spec_u32_to_le_bytes(self.sender_euid));
        assert(s.subrange(32, 40) =~= spec_u64_to_le_bytes(self.data_size));
        assert(s.subrange(40, 48) =~= spec_u64_to_le_bytes(self.offsets_size));
        assert(s.subrange(48, 56) =~= spec_u64_to_le_bytes(self.buffer));
        assert(s.subrange(56, 64) =~= spec_u64_to_le_bytes(self.offsets));
    }

    /// Appends the record's 64 wire bytes to a buffer whose aligned cursor
    /// stands at its end.
    #[verifier::rlimit(60)]
    pub fn write_to(&self, parcel: &mut Parcel) -> (r: Result<(), StatusCode>)
        requires
            old(parcel).wf(),
            old(parcel).at_end(),
            old(parcel).pos % 4 == 0,
        ensures
            final(parcel).wf(),
            final(parcel).objects@ == old(parcel).objects@,
            r is Ok <==> old(parcel).data@.len() + TRANSACTION_RECORD_SIZE <= crate::PARCEL_MAX,
            r is Ok ==> {
                &&& final(parcel).data@ == old(parcel).data@ + self.wire_bytes()
                &&& final(parcel).at_end()
                &&& final(parcel).pos % 4 == 0
            },
            r is Err ==> *final(parcel) == *old(parcel),
    {
        proof {
            self.lemma_wire_bytes_len();
            lemma_auto_spec_u64_to_from_le_bytes();
            lemma_auto_spec_u32_to_from_le_bytes();
        }
        if parcel.len() > crate::PARCEL_MAX - TRANSACTION_RECORD_SIZE {
            return Err(StatusCode::NoMemory);
        }
        let ghost base = parcel.data@;
        let r1 = parcel.write_u64_aligned(self.target);
        proof {
            assert(parcel.data@ =~= base + spec_u64_to_le_bytes(self.target));
        }
        let ghost s1 = parcel.data@;
        let r2 = parcel.write_u64_aligned(self.cookie);
        proof {
            assert(parcel.data@ =~= s1 + spec_u64_to_le_bytes(self.cookie));
        }
        let ghost s2 = parcel.data@;
        let r3 = parcel.write_u32_aligned(self.code);
        proof {
            assert(parcel.data@ =~= s2 + spec_u32_to_le_bytes(self.code));
        }
        let ghost s3 = parcel.data@;
        let r4 = parcel.write_u32_aligned(self.flags);
        proof {
            assert(parcel.data@ =~= s3 + spec_u32_to_le_bytes(self.flags));
        }
        let ghost s4 = parcel.data@;
        let r5 = parcel.write_i32_aligned(self.sender_pid);
        proof {
            assert(parcel.data@ =~= s4 + spec_i32_to_le(self.sender_pid));
        }
        let ghost s5 = parcel.data@;
        let r6 = parcel.write_u32_aligned(self.sender_euid);
        proof {
            assert(parcel.data@ =~= s5 + spec_u32_to_le_bytes(self.sender_euid));
        }
        let ghost s6 = parcel.data@;
        let r7 = parcel.write_u64_aligned(self.data_size);
        proof {
            assert(parcel.data@ =~= s6 + spec_u64_to_le_bytes(self.data_size));
        }
        let ghost s7 = parcel.data@;
        let r8 = parcel.write_u64_aligned(self.offsets_size);
        proof {
            assert(parcel.data@ =~= s7 + spec_u64_to_le_bytes(self.offsets_size));
        }
        let ghost s8 = parcel.data@;
        let r9 = parcel.write_u64_aligned(self.buffer);
        proof {
            assert(parcel.data@ =~= s8 + spec_u64_to_le_bytes(self.buffer));
        }
        let ghost s9 = parcel.data@;
        let r10 = parcel.write_u64_aligned(self.offsets);
        proof {
            assert(parcel.data@ =~= s9 + spec_u64_to_le_bytes(self.offsets));
            assert(parcel.data@ =~= base + self.wire_bytes());
        }
        Ok(())
    }

    /// Reads a record from 64 wire bytes at the buffer's cursor; fails when
    /// fewer bytes remain.
    pub fn read_from(parcel: &mut Parcel) -> (r: Result<TransactionRecord, StatusCode>)
        requires
            old(parcel).wf(),
        ensures
            final(parcel).wf(),
            final(parcel).data@ == old(parcel).data@,
            final(parcel).objects@ == old(parcel).objects@,
            r is Ok <==> old(parcel).pos + TRANSACTION_RECORD_SIZE <= old(parcel).data@.len(),
            r is Ok ==> {
                &&& r->Ok_0 == Self::from_wire_bytes(
                    old(parcel).data@.subrange(
                        old(parcel).pos as int,
                        old(parcel).pos + TRANSACTION_RECORD_SIZE,
                    ),
                )
                &&& final(parcel).pos == old(parcel).pos + TRANSACTION_RECORD_SIZE
            },
            r is Err ==> r->Err_0 == StatusCode::NotEnoughData && *final(parcel) == *old(parcel),
    {
        if parcel.len() - parcel.data_position() < TRANSACTION_RECORD_SIZE {
            return Err(StatusCode::NotEnoughData);
        }
        let ghost p = parcel.pos as int;
        let ghost whole = parcel.data@.subrange(p, p + TRANSACTION_RECORD_SIZE);
        let target = Self::read_field_u64(parcel)?;
        let cookie = Self::read_field_u64(parcel)?;
        let code = Self::read_field_u32(parcel)?;
        let flags = Self::read_field_u32(parcel)?;
        let sender_pid = Self::read_field_i32(parcel)?;
        let sender_euid = Self::read_field_u32(parcel)?;
        let data_size = Self::read_field_u64(parcel)?;
        let offsets_size = Self::read_field_u64(parcel)?;
        let buffer = Self::read_field_u64(parcel)?;
        let offsets = Self::read_field_u64(parcel)?;
        let rec = TransactionRecord {
            target,
            cookie,
            code,
            flags,
            sender_pid,
            sender_euid,
            data_size,
            offsets_size,
            buffer,
            offsets,
        };
        proof {
            assert(whole.subrange(0, 8) =~= old(parcel).data@.subrange(p, p + 8));
            assert(whole.subrange(8, 16) =~= old(parcel).data@.subrange(p + 8, p + 16));
            assert(whole.subrange(16, 20) =~= old(parcel).data@.subrange(p + 16, p + 20));
            assert(whole.subrange(20, 24) =~= old(parcel).data@.subrange(p + 20, p + 24));
            assert(whole.subrange(24, 28) =~= old(parcel).data@.subrange(p + 24, p + 28));
            assert(whole.subrange(28, 32) =~= old(parcel).data@.subrange(p + 28, p + 32));
            assert(whole.subrange(32, 40) =~= old(parcel).data@.subrange(p + 32, p + 40));
            assert(whole.subrange(40, 48) =~= old(parcel).data@.subrange(p + 40, p + 48));
            assert(whole.subrange(48, 56) =~= old(parcel).data@.subrange(p + 48, p + 56));
            assert(whole.subrange(56, 64) =~= old(parcel).data@.subrange(p + 56, p + 64));
        }
        Ok(rec)
    }

    /// Reads one 64-bit record field at the cursor.
    fn read_field_u64(parcel: &mut Parcel) -> (r: Result<u64, StatusCode>)
        requires
            old(parcel).wf(),
            old(parcel).pos + 8 <= old(parcel).data@.len(),
        ensures
            final(parcel).wf(),
            final(parcel).data@ == old(parcel).data@,
            final(parcel).objects@ == old(parcel).objects@,
            r is Ok,
            r->Ok_0 == spec_u64_from_le_bytes(
                old(parcel).data@.subrange(old(parcel).pos as int, old(parcel).pos + 8),
            ),
            final(parcel).pos == old(parcel).pos + 8,
    {
        parcel.read_u64_aligned()
    }

    /// Reads one 32-bit unsigned record field at the cursor.
    fn read_field_u32(parcel: &mut Parcel) -> (r: Result<u32, StatusCode>)
        requires
            old(parcel).wf(),
            old(parcel).pos + 4 <= old(parcel).data@.len(),
        ensures
            final(parcel).wf(),
            final(parcel).data@ == old(parcel).data@,
            final(parcel).objects@ == old(parcel).objects@,
            r is Ok,
            r->Ok_0 == spec_u32_from_le_bytes(
                old(parcel).data@.subrange(old(parcel).pos as int, old(parcel).pos + 4),
            ),
            final(parcel).pos == old(parcel).pos + 4,
    {
        parcel.read_u32_aligned()
    }

    /// Reads one 32-bit signed record field at the cursor.
    fn read_field_i32(parcel: &mut Parcel) -> (r: Result<i32, StatusCode>)
        requires
            old(parcel).wf(),
            old(parcel).pos + 4 <= old(parcel).data@.len(),
        ensures
            final(parcel).wf(),
            final(parcel).data@ == old(parcel).data@,
            final(parcel).objects@ == old(parcel).objects@,
            r is Ok,
            r->Ok_0 == spec_i32_from_le(
                old(parcel).data@.subrange(old(parcel).pos as int, old(parcel).pos + 4),
            ),
            final(parcel).pos == old(parcel).pos + 4,
    {
        parcel.read_i32_aligned()
    }
}

/// A strong reference to a capability: either locally hosted (an arena id)
/// or remote, addressed by a driver-assigned integer handle.
#[derive(Clone, Copy, Debug, PartialEq, Eq, Structural)]
pub enum ObjectRef {
    /// A capability serviced in this process, named by its arena id.
    Local { id: u64 },
    /// A remote capability, named by its driver-assigned handle.
    Handle { handle: u32 },
}

/// One locally-hosted object in the arena, with its driver-visible
/// reference counts.
#[derive(Clone, Copy, Debug, PartialEq, Eq, Structural)]
pub struct LocalEntry {
    /// The stable id the object is named by on the wire.
    pub id: u64,
    /// Strong references the driver holds on the object.
    pub strong: u64,
    /// Weak references the driver holds on the object.
    pub weak: u64,
}

/// Whether some entry of `s` carries the id.
pub open spec fn has_id(s: Seq<LocalEntry>, id: u64) -> bool {
    exists|i: int| 0 <= i < s.len() && s[i].id == id
}

/// `b` is `a` with the strong count of the entry carrying `id` replaced by
/// `strong`, everything else unchanged.
pub open spec fn strong_updated(a: Seq<LocalEntry>, b: Seq<LocalEntry>, id: u64, strong: u64) -> bool {
    &&& a.len() == b.len()
    &&& forall|k: int|
        0 <= k < a.len() ==> (#[trigger] b[k]).id == a[k].id && b[k].weak == a[k].weak
            && b[k].strong == (if a[k].id == id {
            strong
        } else {
            a[k].strong
        })
}

/// `b` is `a` with the weak count of the entry carrying `id` replaced by
/// `weak`, everything else unchanged.
pub open spec fn weak_updated(a: Seq<LocalEntry>, b: Seq<LocalEntry>, id: u64, weak: u64) -> bool {
    &&& a.len() == b.len()
    &&& forall|k: int|
        0 <= k < a.len() ==> (#[trigger] b[k]).id == a[k].id && b[k].strong == a[k].strong
            && b[k].weak == (if a[k].id == id {
            weak
        } else {
            a[k].weak
        })
}

/// The arena of locally-hosted objects, indexed by stable integer id. It
/// enforces that reference grants and revocations are matched: a revocation
/// on an id whose count is already zero is rejected, never applied twice.
pub struct LocalRegistry {
    /// The arena entries; ids are unique.
    pub entries: Vec<LocalEntry>,
}

impl LocalRegistry {
    /// Well-formedness: no id occurs twice.
    pub open spec fn wf(&self) -> bool {
        forall|i: int, j: int|
            0 <= i < j < self.entries@.len() ==> (#[trigger] self.entries@[i]).id != (
            #[trigger] self.entries@[j]).id
    }

    /// The entry carrying `id`.
    pub open spec fn entry_for(&self, id: u64) -> LocalEntry
        recommends
            has_id(self.entries@, id),
    {
        self.entries@[choose|i: int|
            0 <= i < self.entries@.len() && (#[trigger] self.entries@[i]).id == id]
    }

    /// An empty arena.
    pub fn new() -> (r: LocalRegistry)
        ensures
            r.wf(),
            r.entries@ == Seq::<LocalEntry>::empty(),
    {
        LocalRegistry { entries: Vec::new() }
    }

    /// The index of the entry carrying `id`, if any.
    fn find(&self, id: u64) -> (r: Option<usize>)
        requires
            self.wf(),
        ensures
            match r {
                Some(i) => i < self.entries@.len() && self.entries@[i as int].id == id,
                None => !has_id(self.entries@, id),
            },
    {
        let mut i: usize = 0;
        while i < self.entries.len()
            invariant
                i <= self.entries@.len(),
                forall|k: int| 0 <= k < i ==> (#[trigger] self.entries@[k]).id != id,
            decreases self.entries@.len() - i,
        {
            if self.entries[i].id == id {
                return Some(i);
            }
            i += 1;
        }
        None
    }

    /// The driver-visible reference counts (strong, weak) of an id, if the
    /// arena knows it.
    pub fn counts(&self, id: u64) -> (r: Option<(u64, u64)>)
        requires
            self.wf(),
        ensures
            match r {
                Some(c) => has_id(self.entries@, id) && c.0 == self.entry_for(id).strong && c.1
                    == self.entry_for(id).weak,
                None => !has_id(self.entries@, id),
            },
    {
        match self.find(id) {
            Some(i) => {
                let e = self.entries[i];
                proof {
                    let w = choose|k: int|
                        0 <= k < self.entries@.len() && (#[trigger] self.entries@[k]).id == id;
                    assert(w == i as int);
                }
                Some((e.strong, e.weak))
            },
            None => None,
        }
    }

    /// Makes `id` known to the arena with zero counts; an id already known
    /// is left as it is.
    pub fn register(&mut self, id: u64)
        requires
            old(self).wf(),
        ensures
            final(self).wf(),
            has_id(final(self).entries@, id),
            has_id(old(self).entries@, id) ==> final(self).entries@ == old(self).entries@,
            !has_id(old(self).entries@, id) ==> final(self).entries@ == old(self).entries@.push(
                LocalEntry { id, strong: 0u64, weak: 0u64 },
            ),
    {
        match self.find(id) {
            Some(_) => {
            },
            None => {
                self.entries.push(LocalEntry { id, strong: 0, weak: 0 });
                proof {
                    assert(final(self).entries@[old(self).entries@.len() as int].id == id);
                }
            },
        }
    }

    /// Grants one strong reference on `id`; rejected when the arena does not
    /// know the id, or when the count cannot grow.
    pub fn acquire_strong(&mut self, id: u64) -> (r: Result<(), StatusCode>)
        requires
            old(self).wf(),
        ensures
            final(self).wf(),
            r is Ok <==> (has_id(old(self).entries@, id) && old(self).entry_for(id).strong
                < u64::MAX),
            r is Ok ==> strong_updated(
                old(self).entries@,
                final(self).entries@,
                id,
                (old(self).entry_for(id).strong + 1) as u64,
            ),
            r is Err ==> *final(self) == *old(self) && r->Err_0 == StatusCode::BadValue,
    {
        match self.find(id) {
            Some(i) => {
                proof {
                    let w = choose|k: int|
                        0 <= k < self.entries@.len() && (#[trigger] self.entries@[k]).id == id;
                    assert(w == i as int);
                }
                let e = self.entries[i];
                if e.strong == u64::MAX {
                    return Err(StatusCode::BadValue);
                }
                self.entries[i] = LocalEntry { id: e.id, strong: e.strong + 1, weak: e.weak };
                Ok(())
            },
            None => Err(StatusCode::BadValue),
        }
    }

    /// Revokes one strong reference on `id`; rejected when the arena does
    /// not know the id or no strong reference is held, so a revocation is
    /// never applied twice.
    pub fn release_strong(&mut self, id: u64) -> (r: Result<(), StatusCode>)
        requires
            old(self).wf(),
        ensures
            final(self).wf(),
            r is Ok <==> (has_id(old(self).entries@, id) && old(self).entry_for(id).strong > 0),
            r is Ok ==> strong_updated(
                old(self).entries@,
                final(self).entries@,
                id,
                (old(self).entry_for(id).strong - 1) as u64,
            ),
            r is Err ==> *final(self) == *old(self) && r->Err_0 == StatusCode::BadValue,
    {
        match self.find(id) {
            Some(i) => {
                proof {
                    let w = choose|k: int|
                        0 <= k < self.entries@.len() && (#[trigger] self.entries@[k]).id == id;
                    assert(w == i as int);
                }
                let e = self.entries[i];
                if e.strong == 0 {
                    return Err(StatusCode::BadValue);
                }
                self.entries[i] = LocalEntry { id: e.id, strong: e.strong - 1, weak: e.weak };
                Ok(())
            },
            None => Err(StatusCode::BadValue),
        }
    }

    /// Grants one weak reference on `id`; rejected when the arena does not
    /// know the id, or when the count cannot grow.
    pub fn acquire_weak(&mut self, id: u64) -> (r: Result<(), StatusCode>)
        requires
            old(self).wf(),
        ensures
            final(self).wf(),
            r is Ok <==> (has_id(old(self).entries@, id) && old(self).entry_for(id).weak
                < u64::MAX),
            r is Ok ==> weak_updated(
                old(self).entries@,
                final(self).entries@,
                id,
                (old(self).entry_for(id).weak + 1) as u64,
            ),
            r is Err ==> *final(self) == *old(self) && r->Err_0 == StatusCode::BadValue,
    {
        match self.find(id) {
            Some(i) => {
                proof {
                    let w = choose|k: int|
                        0 <= k < self.entries@.len() && (#[trigger] self.entries@[k]).id == id;
                    assert(w == i as int);
                }
                let e = self.entries[i];
                if e.weak == u64::MAX {
                    return Err(StatusCode::BadValue);
                }
                self.entries[i] = LocalEntry { id: e.id, strong: e.strong, weak: e.weak + 1 };
                Ok(())
            },
            None => Err(StatusCode::BadValue),
        }
    }

    /// Revokes one weak reference on `id`; rejected when the arena does not
    /// know the id or no weak reference is held.
    pub fn release_weak(&mut self, id: u64) -> (r: Result<(), StatusCode>)
        requires
            old(self).wf(),
        ensures
            final(self).wf(),
            r is Ok <==> (has_id(old(self).entries@, id) && old(self).entry_for(id).weak > 0),
            r is Ok ==> weak_updated(
                old(self).entries@,
                final(self).entries@,
                id,
                (old(self).entry_for(id).weak - 1) as u64,
            ),
            r is Err ==> *final(self) == *old(self) && r->Err_0 == StatusCode::BadValue,
    {
        match self.find(id) {
            Some(i) => {
                proof {
                    let w = choose|k: int|
                        0 <= k < self.entries@.len() && (#[trigger] self.entries@[k]).id == id;
                    assert(w == i as int);
                }
                let e = self.entries[i];
                if e.weak == 0 {
                    return Err(StatusCode::BadValue);
                }
                self.entries[i] = LocalEntry { id: e.id, strong: e.strong, weak: e.weak - 1 };
                Ok(())
            },
            None => Err(StatusCode::BadValue),
        }
    }
}

} // verus!
