//! Status codes and error values surfaced by the transport engine.
//!
//! Three kinds of failure are kept apart, mirroring how callers must react:
//! typed status codes for wire-format and protocol errors (recoverable by the
//! caller), remote/driver-reported statuses propagated from the peer, and
//! fatal invariant violations on which the hosting process must abort.

use vstd::prelude::*;

verus! {

/// A typed status code, wire-compatible with the 32-bit status values the
/// driver protocol and remote peers exchange.
#[derive(Clone, Copy, Debug, PartialEq, Eq, Structural)]
pub enum StatusCode {
    NoError,
    UnknownError,
    NoMemory,
    InvalidOperation,
    BadValue,
    BadType,
    NameNotFound,
    PermissionDenied,
    NoInit,
    AlreadyExists,
    DeadObject,
    FailedTransaction,
    BadIndex,
    NotEnoughData,
    WouldBlock,
    TimedOut,
    UnknownTransaction,
    FdsNotAllowed,
    UnexpectedNull,
    BadFd,
}

/// The 32-bit wire value of a status code.
pub open spec fn status_to_i32(s: StatusCode) -> i32 {
    match s {
        StatusCode::NoError => 0i32,
        StatusCode::UnknownError => -2147483648i32,
        StatusCode::NoMemory => -12i32,
        StatusCode::InvalidOperation => -38i32,
        StatusCode::BadValue => -22i32,
        StatusCode::BadType => -2147483647i32,
        StatusCode::NameNotFound => -2i32,
        StatusCode::PermissionDenied => -1i32,
        StatusCode::NoInit => -19i32,
        StatusCode::AlreadyExists => -17i32,
        StatusCode::DeadObject => -32i32,
        StatusCode::FailedTransaction => -2147483646i32,
        StatusCode::BadIndex => -75i32,
        StatusCode::NotEnoughData => -61i32,
        StatusCode::WouldBlock => -11i32,
        StatusCode::TimedOut => -110i32,
        StatusCode::UnknownTransaction => -74i32,
        StatusCode::FdsNotAllowed => -2147483641i32,
        StatusCode::UnexpectedNull => -2147483640i32,
        StatusCode::BadFd => -9i32,
    }
}

/// The status code a 32-bit wire value decodes to; values that name no
/// specific code fall back to `UnknownError`.
pub open spec fn status_from_i32(v: i32) -> StatusCode {
    if v == 0 {
        StatusCode::NoError
    } else if v == -12 {
        StatusCode::NoMemory
    } else if v == -38 {
        StatusCode::InvalidOperation
    } else if v == -22 {
        StatusCode::BadValue
    } else if v == i32::MIN + 1 {
        StatusCode::BadType
    } else if v == -2 {
        StatusCode::NameNotFound
    } else if v == -1 {
        StatusCode::PermissionDenied
    } else if v == -19 {
        StatusCode::NoInit
    } else if v == -17 {
        StatusCode::AlreadyExists
    } else if v == -32 {
        StatusCode::DeadObject
    } else if v == i32::MIN + 2 {
        StatusCode::FailedTransaction
    } else if v == -75 {
        StatusCode::BadIndex
    } else if v == -61 {
        StatusCode::NotEnoughData
    } else if v == -11 {
        StatusCode::WouldBlock
    } else if v == -110 {
        StatusCode::TimedOut
    } else if v == -74 {
        StatusCode::UnknownTransaction
    } else if v == i32::MIN + 7 {
        StatusCode::FdsNotAllowed
    } else if v == i32::MIN + 8 {
        StatusCode::UnexpectedNull
    } else if v == -9 {
        StatusCode::BadFd
    } else {
        StatusCode::UnknownError
    }
}

impl StatusCode {
    /// The 32-bit wire value of this status code.
    pub fn to_i32(self) -> (v: i32)
        ensures
            v == status_to_i32(self),
    {
        match self {
            StatusCode::NoError => 0,
            StatusCode::UnknownError => i32::MIN,
            StatusCode::NoMemory => -12,
            StatusCode::InvalidOperation => -38,
            StatusCode::BadValue => -22,
            StatusCode::BadType => i32::MIN + 1,
            StatusCode::NameNotFound => -2,
            StatusCode::PermissionDenied => -1,
            StatusCode::NoInit => -19,
            StatusCode::AlreadyExists => -17,
            StatusCode::DeadObject => -32,
            StatusCode::FailedTransaction => i32::MIN + 2,
            StatusCode::BadIndex => -75,
            StatusCode::NotEnoughData => -61,
            StatusCode::WouldBlock => -11,
            StatusCode::TimedOut => -110,
            StatusCode::UnknownTransaction => -74,
            StatusCode::FdsNotAllowed => i32::MIN + 7,
            StatusCode::UnexpectedNull => i32::MIN + 8,
            StatusCode::BadFd => -9,
        }
    }

    /// The status code named by a 32-bit wire value.
    pub fn from_i32(v: i32) -> (s: StatusCode)
        ensures
            s == status_from_i32(v),
    {
        if v == 0 {
            StatusCode::NoError
        } else if v == -12 {
            StatusCode::NoMemory
        } else if v == -38 {
            StatusCode::InvalidOperation
        } else if v == -22 {
            StatusCode::BadValue
        } else if v == i32::MIN + 1 {
            StatusCode::BadType
        } else if v == -2 {
            StatusCode::NameNotFound
        } else if v == -1 {
            StatusCode::PermissionDenied
        } else if v == -19 {
            StatusCode::NoInit
        } else if v == -17 {
            StatusCode::AlreadyExists
        } else if v == -32 {
            StatusCode::DeadObject
        } else if v == i32::MIN + 2 {
            StatusCode::FailedTransaction
        } else if v == -75 {
            StatusCode::BadIndex
        } else if v == -61 {
            StatusCode::NotEnoughData
        } else if v == -11 {
            StatusCode::WouldBlock
        } else if v == -110 {
            StatusCode::TimedOut
        } else if v == -74 {
            StatusCode::UnknownTransaction
        } else if v == i32::MIN + 7 {
            StatusCode::FdsNotAllowed
        } else if v == i32::MIN + 8 {
            StatusCode::UnexpectedNull
        } else if v == -9 {
            StatusCode::BadFd
        } else {
            StatusCode::UnknownError
        }
    }
}

/// Every status code survives a round trip through its 32-bit wire value.
pub proof fn lemma_status_round_trip(s: StatusCode)
    ensures
        status_from_i32(status_to_i32(s)) == s,
{
}

/// A condition under which the hosting process must abort: it signals a
/// broken contract with the kernel driver or a deliberate crash-on-misuse
/// policy, never a recoverable application error.
#[derive(Clone, Copy, Debug, PartialEq, Eq, Structural)]
pub enum FatalReason {
    /// The driver consumed only part of the outbound command buffer; the
    /// driver contract guarantees full consumption or none.
    PartialWriteConsumed { consumed: u64, pending: u64 },
    /// A blocking (non-one-way) call was attempted while the call-restriction
    /// policy demands that such calls crash the process.
    RestrictedNonOnewayCall { code: u32 },
}

/// An error surfaced by the transport engine.
#[derive(Clone, Debug, PartialEq, Eq)]
pub enum BinderError {
    /// A typed wire-format or protocol error.
    Code(StatusCode),
    /// An inbound interface token carried the wrong fixed header constant.
    BadInterfaceHeader { expected: u32, actual: u32 },
    /// An inbound interface token named a different interface descriptor
    /// than the one the receiver implements.
    BadDescriptor { expected: String, actual: String },
    /// A reply marked as carrying a raw status code held this non-success
    /// status; it is the remote call's result, not a local decode failure.
    RemoteStatus { status: i32 },
    /// The driver reported an error return carrying this embedded status.
    DriverStatus { status: i32 },
    /// The hosting process must abort.
    Fatal(FatalReason),
}

impl BinderError {
    /// Whether this error demands a process-level abort.
    pub fn is_fatal(&self) -> (b: bool)
        ensures
            b == (self matches BinderError::Fatal(_)),
    {
        match self {
            BinderError::Fatal(_) => true,
            _ => false,
        }
    }
}

} // verus!
