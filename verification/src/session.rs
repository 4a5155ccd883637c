//! Job sessions: the objects that bind a party's role identity to a
//! registered transport for the duration of a protocol run.
//!
//! A 2-party session carries a binary role; an N-party session carries a
//! party count, a 0-based party index and a session identifier that keeps
//! concurrent jobs among the same party set apart.  A session's role is
//! fixed at construction and never changes, and the transport handle it owns
//! is valid exactly for the session's lifetime: construction registers the
//! transport (and rolls the registration back if the session cannot be
//! built), teardown releases the session's state and then unregisters the
//! transport, reversing acquisition order.  Teardown consumes the session,
//! so the handle is released exactly once.

use crate::errors::BridgeError;
use crate::registry::Registry;
use crate::transport::IDataTransport;
use vstd::prelude::*;

verus! {

/// A 2-party job session: one role (0 for peer 1, 1 for peer 2) and the
/// handle of the transport registered for it.
pub struct JobSession2P {
    transport_handle: u64,
    role_index: i32,
}

impl JobSession2P {
    /// The fixed role this session speaks for.
    pub closed spec fn role_spec(&self) -> int {
        self.role_index as int
    }

    /// The transport handle this session owns.
    pub closed spec fn handle_spec(&self) -> u64 {
        self.transport_handle
    }

    /// Registers the transport and constructs a session bound to the fresh
    /// handle and to `role_index`.  The roles of a 2-party session are 0 and
    /// 1; any other index makes construction fail, and the registration is
    /// rolled back so the registry is left exactly as it was.
    pub fn new<T: IDataTransport>(reg: &mut Registry<T>, dt_impl: T, role_index: i32) -> (r:
        Result<JobSession2P, BridgeError>)
        requires
            old(reg).wf(),
            old(reg).handle_bound() < u64::MAX,
        ensures
            final(reg).wf(),
            final(reg).handle_bound() == old(reg).handle_bound() + 1,
            0 <= role_index <= 1 <==> r is Ok,
            r matches Ok(s) ==> {
                &&& s.role_spec() == role_index
                &&& !old(reg)@.contains_key(s.handle_spec())
                &&& final(reg)@ == old(reg)@.insert(s.handle_spec(), dt_impl)
            },
            r is Err ==> r == Err::<JobSession2P, BridgeError>(BridgeError::UsageError) && final(reg)@ == old(reg)@,
    {
        let h = reg.set_dt_impl(dt_impl);
        if role_index < 0 || role_index > 1 {
            reg.free_dt_impl(h);
            proof {
                assert(old(reg)@.insert(h, dt_impl).remove(h) =~= old(reg)@);
            }
            return Err(BridgeError::UsageError);
        }
        Ok(JobSession2P { transport_handle: h, role_index })
    }

    /// Whether this session speaks for peer 1 (role 0).
    pub fn is_peer1(&self) -> (r: bool)
        ensures
            r == (self.role_spec() == 0),
    {
        self.role_index == 0
    }

    /// Whether this session speaks for peer 2 (role 1).
    pub fn is_peer2(&self) -> (r: bool)
        ensures
            r == (self.role_spec() == 1),
    {
        self.role_index == 1
    }

    /// Whether this session speaks for the given role.
    pub fn is_role_index(&self, role_index: i32) -> (r: bool)
        ensures
            r == (self.role_spec() == role_index),
    {
        self.role_index == role_index
    }

    /// The fixed role this session speaks for.
    pub fn get_role_index(&self) -> (r: i32)
        ensures
            r == self.role_spec(),
    {
        self.role_index
    }

    /// The handle under which this session's transport is registered.
    pub fn get_transport_handle(&self) -> (r: u64)
        ensures
            r == self.handle_spec(),
    {
        self.transport_handle
    }

    /// One named exchange between the two peers.  If this session's own role
    /// is the sender, the payload goes out to the receiver and comes back
    /// unchanged on success; if it is the receiver, the oldest message from
    /// the sender is received and returned.  A session that is neither
    /// sender nor receiver is no participant of the exchange it names: the
    /// call fails with a usage error and performs no I/O.
    pub fn message<T: IDataTransport>(
        &self,
        reg: &Registry<T>,
        net: &mut T::Medium,
        sender: i32,
        receiver: i32,
        msg: &[u8],
    ) -> (r: Result<Vec<u8>, BridgeError>)
        requires
            reg.wf(),
            reg@.contains_key(self.handle_spec()),
            reg@[self.handle_spec()].medium_inv(*old(net)),
        ensures
            ({
                let t = reg@[self.handle_spec()];
                &&& t.medium_inv(*final(net))
                &&& (self.role_spec() != sender && self.role_spec() != receiver ==> r == Err::<
                    Vec<u8>,
                    BridgeError,
                >(BridgeError::UsageError))
                &&& (r is Err ==> *final(net) == *old(net))
                &&& (self.role_spec() == sender ==> (r matches Ok(v) ==> v@ == msg@ && t.channel(
                    *final(net),
                    t.role_spec(),
                    receiver as int,
                ) == t.channel(*old(net), t.role_spec(), receiver as int).push(msg@)))
                &&& (self.role_spec() != sender && self.role_spec() == receiver ==> (r matches Ok(
                    v,
                ) ==> {
                    let ch = t.channel(*old(net), sender as int, t.role_spec());
                    &&& ch.len() > 0
                    &&& v@ == ch.first()
                    &&& t.channel(*final(net), sender as int, t.role_spec()) == ch.drop_first()
                }))
            }),
    {
        if self.is_role_index(sender) {
            let t = reg.get_dt_impl(self.transport_handle);
            match t.message_send(net, receiver, msg) {
                Ok(_) => Ok(vstd::slice::slice_to_vec(msg)),
                Err(e) => Err(e),
            }
        } else if self.is_role_index(receiver) {
            let t = reg.get_dt_impl(self.transport_handle);
            t.message_receive(net, sender)
        } else {
            Err(BridgeError::UsageError)
        }
    }

    /// Tears the session down: the session's own state goes first, then the
    /// transport binding is unregistered — reversing acquisition order, so
    /// no callback can reach a transport that is already gone.  Consuming
    /// the session makes this happen exactly once, and afterwards the
    /// registry no longer resolves the handle.
    pub fn close<T: IDataTransport>(self, reg: &mut Registry<T>)
        requires
            old(reg).wf(),
            old(reg)@.contains_key(self.handle_spec()),
        ensures
            final(reg).wf(),
            final(reg)@ == old(reg)@.remove(self.handle_spec()),
            !final(reg)@.contains_key(self.handle_spec()),
    {
        reg.free_dt_impl(self.transport_handle);
    }
}

/// An N-party job session: a party count, this party's 0-based index, a
/// session identifier for concurrent jobs among the same party set, and the
/// handle of the transport registered for it.  Message exchange of an
/// N-party run is driven entirely by the engine through the registered
/// transport's `receive_all`.
pub struct JobSessionMP {
    transport_handle: u64,
    party_count: i32,
    party_index: i32,
    job_session_id: i32,
}

impl JobSessionMP {
    /// The number of parties in the run.
    pub closed spec fn party_count_spec(&self) -> int {
        self.party_count as int
    }

    /// The fixed index of the party this session speaks for.
    pub closed spec fn party_index_spec(&self) -> int {
        self.party_index as int
    }

    /// The identifier distinguishing concurrent jobs among one party set.
    pub closed spec fn session_id_spec(&self) -> int {
        self.job_session_id as int
    }

    /// The transport handle this session owns.
    pub closed spec fn handle_spec(&self) -> u64 {
        self.transport_handle
    }

    /// Registers the transport and constructs a session for party
    /// `role_index` of `party_count` parties under the given job session
    /// identifier.  The index must name one of the parties; otherwise
    /// construction fails and the registration is rolled back, leaving the
    /// registry exactly as it was.
    pub fn new<T: IDataTransport>(
        reg: &mut Registry<T>,
        dt_impl: T,
        party_count: i32,
        role_index: i32,
        job_session_id: i32,
    ) -> (r: Result<JobSessionMP, BridgeError>)
        requires
            old(reg).wf(),
            old(reg).handle_bound() < u64::MAX,
        ensures
            final(reg).wf(),
            final(reg).handle_bound() == old(reg).handle_bound() + 1,
            (1 <= party_count && 0 <= role_index < party_count) <==> r is Ok,
            r matches Ok(s) ==> {
                &&& s.party_count_spec() == party_count
                &&& s.party_index_spec() == role_index
                &&& s.session_id_spec() == job_session_id
                &&& !old(reg)@.contains_key(s.handle_spec())
                &&& final(reg)@ == old(reg)@.insert(s.handle_spec(), dt_impl)
            },
            r is Err ==> r == Err::<JobSessionMP, BridgeError>(BridgeError::UsageError) && final(reg)@ == old(reg)@,
    {
        let h = reg.set_dt_impl(dt_impl);
        if party_count < 1 || role_index < 0 || role_index >= party_count {
            reg.free_dt_impl(h);
            proof {
                assert(old(reg)@.insert(h, dt_impl).remove(h) =~= old(reg)@);
            }
            return Err(BridgeError::UsageError);
        }
        Ok(JobSessionMP { transport_handle: h, party_count, party_index: role_index, job_session_id })
    }

    /// Whether this session speaks for the given party.
    pub fn is_party(&self, party_index: i32) -> (r: bool)
        ensures
            r == (self.party_index_spec() == party_index),
    {
        self.party_index == party_index
    }

    /// The fixed index of the party this session speaks for.
    pub fn get_party_index(&self) -> (r: i32)
        ensures
            r == self.party_index_spec(),
    {
        self.party_index
    }

    /// The handle under which this session's transport is registered.
    pub fn get_transport_handle(&self) -> (r: u64)
        ensures
            r == self.handle_spec(),
    {
        self.transport_handle
    }

    /// Tears the session down, as `JobSession2P::close` does: session state
    /// first, then the transport binding, exactly once.
    pub fn close<T: IDataTransport>(self, reg: &mut Registry<T>)
        requires
            old(reg).wf(),
            old(reg)@.contains_key(self.handle_spec()),
        ensures
            final(reg).wf(),
            final(reg)@ == old(reg)@.remove(self.handle_spec()),
            !final(reg)@.contains_key(self.handle_spec()),
    {
        reg.free_dt_impl(self.transport_handle);
    }
}

} // verus!
