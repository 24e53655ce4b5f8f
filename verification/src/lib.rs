//! A user-space transport engine for a kernel-mediated object-capability IPC
//! mechanism: a typed wire-format (de)serialization layer over a growable,
//! 4-byte-aligned wire buffer, and the per-thread transaction protocol engine
//! that exchanges command/return opcode streams with the kernel driver.
//!
//! The engine itself never touches the driver device: every decision (what to
//! write, how to interpret a returned opcode, when a reply is owed) is a
//! verified function from state and event to new state and action, and a thin
//! unverified host performs the blocking device exchanges it is asked for.

pub mod binder;
pub mod error;
pub mod parcel;
pub mod parcelable;
pub mod parcelable_holder;
pub mod proxy;
pub mod thread_state;
pub mod utf16;

use vstd::prelude::*;

verus! {

/// The largest number of payload bytes a wire buffer may hold.
///
/// Length and count fields on the wire are 32-bit signed integers, so no
/// buffer may ever grow past `i32::MAX` bytes.
pub const PARCEL_MAX: usize = 0x7fff_ffff;

} // verus!
