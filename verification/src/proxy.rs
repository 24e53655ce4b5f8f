//! The proxy side of a remote capability: a handle with its interface
//! descriptor, building outbound parcels and submitting transactions.

use vstd::prelude::*;

use crate::error::{StatusCode, BinderError};
use crate::parcel::Parcel;
use crate::thread_state::{ThreadState, WaitGoal};
use crate::binder::{ObjectRef, TRANSACTION_RECORD_SIZE, BC_TRANSACTION, TF_ACCEPT_FDS, TF_ONE_WAY};
use crate::PARCEL_MAX;

verus! {

/// A remote capability, named by its driver-assigned handle and the
/// interface descriptor it serves.
pub struct ProxyHandle {
    /// The driver-assigned integer handle.
    pub handle: u32,
    /// The interface descriptor string.
    pub descriptor: String,
}

impl ProxyHandle {
    /// A new proxy for a handle serving an interface.
    pub fn new(handle: u32, interface: String) -> (r: Box<ProxyHandle>)
        ensures
            r.handle == handle,
            r.descriptor@ == interface@,
    {
        Box::new(ProxyHandle { handle, descriptor: interface })
    }

    /// The driver-assigned handle.
    pub fn handle(&self) -> (h: u32)
        ensures
            h == self.handle,
    {
        self.handle
    }

    /// The interface descriptor.
    pub fn descriptor(&self) -> (d: &str)
        ensures
            d@ == self.descriptor@,
    {
        self.descriptor.as_str()
    }

    /// Queues an outbound transaction on this proxy's handle and says what
    /// the host must wait for; a one-way call never yields a reply, only a
    /// completion acknowledgement.
    pub fn submit_transact(
        &self,
        state: &mut ThreadState,
        code: u32,
        data: &Parcel,
        flags: u32,
        buffer_ptr: u64,
        offsets_ptr: u64,
    ) -> (r: Result<WaitGoal, BinderError>)
        requires
            old(state).wf(),
            data.wf(),
        ensures
            final(state).wf(),
            ({
                let f = flags | TF_ACCEPT_FDS;
                let fits = old(state).out_parcel.data@.len() + 4 + TRANSACTION_RECORD_SIZE
                    <= PARCEL_MAX && data.objects@.len() * 8 <= u64::MAX;
                let blocked = (f & TF_ONE_WAY == 0) && old(state).call_restriction
                    == crate::binder::CallRestriction::FatalIfNotOneway;
                &&& !fits ==> r is Err && *final(state) == *old(state)
                &&& fits ==> ThreadState::out_appended(
                    *old(state),
                    *final(state),
                    ThreadState::transact_cmd_bytes(
                        BC_TRANSACTION,
                        f,
                        self.handle,
                        code,
                        data.data@.len() as u64,
                        (data.objects@.len() * 8) as u64,
                        buffer_ptr,
                        offsets_ptr,
                    ),
                )
                &&& (fits && blocked) ==> r is Err && (r->Err_0 matches BinderError::Fatal(_))
                &&& (fits && !blocked) ==> r == Ok::<WaitGoal, BinderError>(
                    if f & TF_ONE_WAY != 0 {
                        WaitGoal::TransactionComplete
                    } else {
                        WaitGoal::Reply
                    },
                )
            }),
    {
        state.start_transact(self.handle, code, data, flags, buffer_ptr, offsets_ptr)
    }

    /// Builds a fresh outbound parcel, prefixed with the interface token
    /// this proxy's interface expects when a header is asked for.
    pub fn prepare_transact(&self, state: &ThreadState, write_header: bool) -> (r: Result<
        Parcel,
        StatusCode,
    >)
        ensures
            r is Ok ==> {
                &&& r->Ok_0.wf()
                &&& r->Ok_0.at_end()
                &&& r->Ok_0.pos % 4 == 0
                &&& r->Ok_0.objects@ == Seq::<u64>::empty()
                &&& r->Ok_0.data@ == (if write_header {
                    ThreadState::interface_token_enc(
                        state.token_policy(),
                        state.token_work_source(),
                        self.descriptor@,
                    )
                } else {
                    Seq::<u8>::empty()
                })
            },
            !write_header ==> r is Ok,
            write_header ==> (r is Ok <==> (crate::parcelable::str_enc_ok(self.descriptor@)
                && ThreadState::interface_token_enc(
                state.token_policy(),
                state.token_work_source(),
                self.descriptor@,
            ).len() <= PARCEL_MAX)),
    {
        let mut data = Parcel::new();
        if write_header {
            match state.write_interface_token(&mut data, self.descriptor.as_str()) {
                Ok(u) => u,
                Err(e) => {
                    return Err(e);
                },
            };
        }
        Ok(data)
    }
}

/// The typed face of a remote interface: its descriptor, and how a proxy
/// for it is built from a decoded strong reference. Generated call stubs
/// implement this for each interface.
pub trait Proxy: Sized {
    /// The interface descriptor string, the same for every implementation
    /// of the interface.
    fn descriptor() -> &'static str;

    /// Builds the typed proxy from a decoded strong reference, if the
    /// reference fits the expected interface.
    fn from_binder(binder: ObjectRef) -> Result<Self, StatusCode>;
}

} // verus!
