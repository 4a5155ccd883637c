//! The fixed-signature callbacks the native engine uses to reach a
//! registered transport.
//!
//! During a protocol round the engine holds nothing but an opaque handle and
//! boundary buffers.  Each callback resolves the handle in the registry,
//! forwards to the corresponding transport method, translates success or
//! failure into the engine's integer convention — zero for success, anything
//! else for failure — and re-encodes returned byte sequences as fresh
//! boundary buffers whose ownership passes to the engine.  A handle that is
//! not registered is engine misuse and is answered with a failure status at
//! once, touching nothing.

use crate::buffer::CMem;
use crate::buffer::CMems;
use crate::buffer::MAX_BOUNDARY_LEN;
use crate::errors::error_status;
use crate::errors::STATUS_OK;
use crate::errors::STATUS_UNKNOWN_HANDLE;
use crate::registry::Registry;
use crate::transport::contains_sender;
use crate::transport::distinct_senders;
use crate::transport::IDataTransport;
use vstd::prelude::*;

verus! {

/// Forwards a send: the buffer's bytes go out on the channel from the
/// transport's party to `receiver`.  Status zero reports exactly a
/// successful send, on which no other channel moves; any failure leaves the
/// medium untouched.
pub fn callback_send<T: IDataTransport>(
    reg: &Registry<T>,
    net: &mut T::Medium,
    handle: u64,
    receiver: i32,
    buffer: &CMem,
) -> (status: i32)
    requires
        reg.wf(),
        buffer.wf(),
        reg@.contains_key(handle) ==> reg@[handle].medium_inv(*old(net)),
    ensures
        !reg@.contains_key(handle) ==> status == STATUS_UNKNOWN_HANDLE && *final(net) == *old(net),
        reg@.contains_key(handle) ==> ({
            let t = reg@[handle];
            &&& t.medium_inv(*final(net))
            &&& (status == STATUS_OK ==> t.channel(*final(net), t.role_spec(), receiver as int)
                == t.channel(*old(net), t.role_spec(), receiver as int).push(buffer@))
            &&& (status == STATUS_OK ==> forall|s: int, d: int|
                !(s == t.role_spec() && d == receiver as int) ==> t.channel(*final(net), s, d)
                    == t.channel(*old(net), s, d))
            &&& (status != STATUS_OK ==> *final(net) == *old(net))
        }),
{
    if !reg.contains(handle) {
        return STATUS_UNKNOWN_HANDLE;
    }
    let t = reg.get_dt_impl(handle);
    let bytes = buffer.to_bytes();
    match t.message_send(net, receiver, bytes.as_slice()) {
        Ok(_) => STATUS_OK,
        Err(e) => error_status(&e),
    }
}

/// Forwards a receive: on status zero the returned buffer carries, freshly
/// boundary-encoded, the oldest message in flight from `sender` to the
/// transport's party, which is removed from its channel; on any failure the
/// medium is untouched and the returned buffer is the null encoding.
pub fn callback_receive<T: IDataTransport>(
    reg: &Registry<T>,
    net: &mut T::Medium,
    handle: u64,
    sender: i32,
) -> (r: (i32, CMem))
    requires
        reg.wf(),
        reg@.contains_key(handle) ==> reg@[handle].medium_inv(*old(net)),
        reg@.contains_key(handle) ==> ({
            let ch = reg@[handle].channel(*old(net), sender as int, reg@[handle].role_spec());
            ch.len() > 0 ==> ch.first().len() <= MAX_BOUNDARY_LEN
        }),
    ensures
        r.1.wf(),
        !reg@.contains_key(handle) ==> r.0 == STATUS_UNKNOWN_HANDLE && *final(net) == *old(net)
            && r.1@.len() == 0,
        reg@.contains_key(handle) ==> ({
            let t = reg@[handle];
            let ch = t.channel(*old(net), sender as int, t.role_spec());
            &&& t.medium_inv(*final(net))
            &&& (r.0 == STATUS_OK ==> ch.len() > 0 && r.1@ == ch.first() && t.channel(
                *final(net),
                sender as int,
                t.role_spec(),
            ) == ch.drop_first())
            &&& (r.0 == STATUS_OK ==> forall|s: int, d: int|
                !(s == sender as int && d == t.role_spec()) ==> t.channel(*final(net), s, d)
                    == t.channel(*old(net), s, d))
            &&& (r.0 != STATUS_OK ==> *final(net) == *old(net) && r.1@.len() == 0)
        }),
{
    if !reg.contains(handle) {
        return (STATUS_UNKNOWN_HANDLE, CMem::new(&[]));
    }
    let t = reg.get_dt_impl(handle);
    match t.message_receive(net, sender) {
        Ok(v) => {
            let out = CMem::new(v.as_slice());
            (STATUS_OK, out)
        },
        Err(e) => (error_status(&e), CMem::new(&[])),
    }
}

/// Forwards a receive-all: on status zero the returned buffer set carries
/// one freshly encoded payload per requested sender, in the order requested,
/// each removed from the front of its channel.  The call fails as a whole:
/// on any non-zero status the medium is untouched and the set is empty — no
/// partial result ever crosses the boundary.
pub fn callback_receive_all<T: IDataTransport>(
    reg: &Registry<T>,
    net: &mut T::Medium,
    handle: u64,
    senders: &[i32],
) -> (r: (i32, CMems))
    requires
        reg.wf(),
        senders@.len() <= MAX_BOUNDARY_LEN,
        reg@.contains_key(handle) ==> reg@[handle].medium_inv(*old(net)),
        reg@.contains_key(handle) ==> (forall|i: int|
            0 <= i < senders@.len() ==> ({
                let ch = reg@[handle].channel(
                    *old(net),
                    #[trigger] senders@[i] as int,
                    reg@[handle].role_spec(),
                );
                ch.len() > 0 ==> ch.first().len() <= MAX_BOUNDARY_LEN
            })),
    ensures
        r.1.wf(),
        !reg@.contains_key(handle) ==> r.0 == STATUS_UNKNOWN_HANDLE && *final(net) == *old(net)
            && r.1@.len() == 0,
        reg@.contains_key(handle) ==> ({
            let t = reg@[handle];
            &&& t.medium_inv(*final(net))
            &&& (r.0 == STATUS_OK ==> {
                &&& distinct_senders(senders@)
                &&& r.1@.len() == senders@.len()
                &&& forall|i: int|
                    0 <= i < senders@.len() ==> t.channel(
                        *old(net),
                        #[trigger] senders@[i] as int,
                        t.role_spec(),
                    ).len() > 0
                &&& forall|i: int|
                    0 <= i < senders@.len() ==> r.1@[i] == t.channel(
                        *old(net),
                        #[trigger] senders@[i] as int,
                        t.role_spec(),
                    ).first()
                &&& forall|i: int|
                    0 <= i < senders@.len() ==> t.channel(
                        *final(net),
                        #[trigger] senders@[i] as int,
                        t.role_spec(),
                    ) == t.channel(*old(net), senders@[i] as int, t.role_spec()).drop_first()
                &&& forall|s: int, d: int|
                    #![auto]
                    d != t.role_spec() || !contains_sender(senders@, s) ==> t.channel(
                        *final(net),
                        s,
                        d,
                    ) == t.channel(*old(net), s, d)
            })
            &&& (r.0 != STATUS_OK ==> *final(net) == *old(net) && r.1@.len() == 0)
        }),
{
    if !reg.contains(handle) {
        return (STATUS_UNKNOWN_HANDLE, CMems::new(&[]));
    }
    let t = reg.get_dt_impl(handle);
    match t.messages_receive(net, senders) {
        Ok(v) => {
            proof {
                assert forall|i: int| 0 <= i < v@.len() implies v@[i]@.len()
                    <= MAX_BOUNDARY_LEN by {
                    assert(v@[i]@ == reg@[handle].channel(
                        *old(net),
                        senders@[i] as int,
                        reg@[handle].role_spec(),
                    ).first());
                }
            }
            let out = CMems::new(v.as_slice());
            proof {
                assert forall|i: int| 0 <= i < senders@.len() implies out@[i] == reg@[
                    handle
                ].channel(*old(net), #[trigger] senders@[i] as int, reg@[handle].role_spec()).first() by {
                    assert(out@[i] == v.deep_view()[i]);
                    assert(v.deep_view()[i] == v@[i]@);
                }
            }
            (STATUS_OK, out)
        },
        Err(e) => (error_status(&e), CMems::new(&[])),
    }
}

} // verus!
