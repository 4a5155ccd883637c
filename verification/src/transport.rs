//! The transport capability and an in-memory loopback implementation.
//!
//! A transport moves bytes between the parties of a protocol run.  Its model
//! is a set of directed channels: `channel(net, s, d)` is the sequence of
//! messages in flight from party `s` to party `d`, oldest first.  Sending
//! appends to a channel and receiving removes from its front, so for a single
//! sender–receiver pair delivery order matches send order.  `receive_all`
//! must yield one payload per requested sender, aligned to the request, and
//! must fail as a whole — leaving every channel untouched — if any one
//! sender's exchange cannot be served.
//!
//! The medium the channels live in is passed to every call explicitly: an
//! endpoint value only carries the identity it speaks for.  Any
//! implementation of the three-method capability can be plugged in; the
//! loopback pair below serves in-process runs and tests.

use crate::errors::BridgeError;
use vstd::prelude::*;

verus! {

/// Whether no sender index occurs twice in a request.
pub open spec fn distinct_senders(s: Seq<i32>) -> bool {
    forall|i: int, j: int| 0 <= i < j < s.len() ==> s[i] != s[j]
}

/// Whether a request names the sender `s`.
pub open spec fn contains_sender(ss: Seq<i32>, s: int) -> bool {
    exists|i: int| 0 <= i < ss.len() && ss[i] == s
}

/// The capability a caller supplies to let the engine exchange bytes with
/// peers.  An implementor chooses a medium type holding the in-flight
/// messages and says, through `channel`, which bytes are under way between
/// any two parties; the three methods must respect that model.
pub trait IDataTransport: Sized {
    /// The shared state the channels live in.
    type Medium;

    /// The party this endpoint speaks for.
    spec fn role_spec(&self) -> int;

    /// Well-formedness of the medium, as this endpoint requires it.
    spec fn medium_inv(&self, net: Self::Medium) -> bool;

    /// The messages in flight from party `s` to party `d`, oldest first.
    spec fn channel(&self, net: Self::Medium, s: int, d: int) -> Seq<Seq<u8>>;

    /// Sends `buffer` to `receiver`: on success the bytes are appended to
    /// the channel from this endpoint's party to the receiver, and no other
    /// channel moves; on failure nothing moves.
    fn message_send(&self, net: &mut Self::Medium, receiver: i32, buffer: &[u8]) -> (r: Result<
        (),
        BridgeError,
    >)
        requires
            self.medium_inv(*old(net)),
        ensures
            self.medium_inv(*final(net)),
            r is Ok ==> self.channel(*final(net), self.role_spec(), receiver as int)
                == self.channel(*old(net), self.role_spec(), receiver as int).push(buffer@),
            r is Ok ==> forall|s: int, d: int|
                !(s == self.role_spec() && d == receiver as int) ==> self.channel(
                    *final(net),
                    s,
                    d,
                ) == self.channel(*old(net), s, d),
            r is Err ==> *final(net) == *old(net),
    ;

    /// Receives the oldest message in flight from `sender`: on success that
    /// message is returned and removed from the front of its channel, and no
    /// other channel moves; on failure nothing moves.
    fn message_receive(&self, net: &mut Self::Medium, sender: i32) -> (r: Result<
        Vec<u8>,
        BridgeError,
    >)
        requires
            self.medium_inv(*old(net)),
        ensures
            self.medium_inv(*final(net)),
            r matches Ok(v) ==> self.channel(*old(net), sender as int, self.role_spec()).len() > 0
                && v@ == self.channel(*old(net), sender as int, self.role_spec()).first(),
            r is Ok ==> self.channel(*final(net), sender as int, self.role_spec()) == self.channel(
                *old(net),
                sender as int,
                self.role_spec(),
            ).drop_first(),
            r is Ok ==> forall|s: int, d: int|
                !(s == sender as int && d == self.role_spec()) ==> self.channel(*final(net), s, d)
                    == self.channel(*old(net), s, d),
            r is Err ==> *final(net) == *old(net),
    ;

    /// Receives one message from each of the requested senders, aligned to
    /// the request.  The call succeeds as a whole or fails as a whole: on
    /// failure no channel moves and no partial result exists.
    fn messages_receive(&self, net: &mut Self::Medium, senders: &[i32]) -> (r: Result<
        Vec<Vec<u8>>,
        BridgeError,
    >)
        requires
            self.medium_inv(*old(net)),
        ensures
            self.medium_inv(*final(net)),
            r matches Ok(v) ==> {
                &&& distinct_senders(senders@)
                &&& v@.len() == senders@.len()
                &&& forall|i: int|
                    0 <= i < senders@.len() ==> self.channel(
                        *old(net),
                        senders@[i] as int,
                        self.role_spec(),
                    ).len() > 0
                &&& forall|i: int|
                    0 <= i < senders@.len() ==> v@[i]@ == self.channel(
                        *old(net),
                        senders@[i] as int,
                        self.role_spec(),
                    ).first()
                &&& forall|i: int|
                    0 <= i < senders@.len() ==> self.channel(
                        *final(net),
                        senders@[i] as int,
                        self.role_spec(),
                    ) == self.channel(*old(net), senders@[i] as int, self.role_spec()).drop_first()
                &&& forall|s: int, d: int|
                    #![auto]
                    d != self.role_spec() || !contains_sender(senders@, s) ==> self.channel(
                        *final(net),
                        s,
                        d,
                    ) == self.channel(*old(net), s, d)
            },
            r is Err ==> *final(net) == *old(net),
    ;
}

/// Law: a channel is first-in, first-out.  After sending `m1` and then `m2`
/// on a channel with `q` messages already in flight, the receiver's
/// sequential receives yield every backlog message in order, then `m1`, then
/// `m2`; in particular, on an initially empty channel the first receive
/// yields `m1` and the second `m2`.
pub proof fn lemma_fifo_per_channel(q: Seq<Seq<u8>>, m1: Seq<u8>, m2: Seq<u8>)
    ensures
        q.push(m1).push(m2)[q.len() as int] == m1,
        q.push(m1).push(m2)[q.len() as int + 1] == m2,
        q.len() == 0 ==> q.push(m1).push(m2).first() == m1,
        q.len() == 0 ==> q.push(m1).push(m2).drop_first().first() == m2,
{
    assert(q.push(m1)[q.len() as int] == m1);
    assert(q.push(m1).push(m2)[q.len() as int] == m1);
    if q.len() == 0 {
        assert(q.push(m1).push(m2).drop_first()[0] == q.push(m1).push(m2)[1]);
    }
}

/// The shared medium of an in-memory loopback group: one queue per directed
/// pair of parties, all held in one place and threaded explicitly through
/// the endpoints that exchange on them.
pub struct LoopbackNet {
    party_count: usize,
    queues: Vec<Vec<Vec<u8>>>,
}

/// Largest party count a loopback group supports.
pub const MAX_PARTIES: usize = 0x7fff;

impl LoopbackNet {
    /// The number of parties in the group.
    pub closed spec fn party_count_spec(&self) -> int {
        self.party_count as int
    }

    /// One queue per ordered pair of parties.
    pub closed spec fn wf(&self) -> bool {
        &&& 1 <= self.party_count <= MAX_PARTIES
        &&& self.queues@.len() == self.party_count * self.party_count
    }

    /// The messages in flight from `s` to `d`, oldest first; nothing is ever
    /// in flight outside the group.
    pub closed spec fn chan(&self, s: int, d: int) -> Seq<Seq<u8>> {
        if 0 <= s < self.party_count && 0 <= d < self.party_count {
            self.queues@[s * self.party_count + d].deep_view()
        } else {
            Seq::empty()
        }
    }

    /// An empty loopback medium for `party_count` parties.
    pub fn new(party_count: usize) -> (r: LoopbackNet)
        requires
            1 <= party_count <= MAX_PARTIES,
        ensures
            r.wf(),
            r.party_count_spec() == party_count,
            forall|s: int, d: int| r.chan(s, d) == Seq::<Seq<u8>>::empty(),
    {
        proof {
            lemma_chan_index(party_count as int, party_count - 1, party_count - 1);
        }
        let total = party_count * party_count;
        let mut queues: Vec<Vec<Vec<u8>>> = Vec::new();
        let mut i: usize = 0;
        while i < total
            invariant
                i <= total,
                queues@.len() == i,
                forall|k: int| 0 <= k < i ==> queues@[k]@.len() == 0,
            decreases total - i,
        {
            queues.push(Vec::new());
            i += 1;
        }
        let r = LoopbackNet { party_count, queues };
        proof {
            assert forall|s: int, d: int| r.chan(s, d) == Seq::<Seq<u8>>::empty() by {
                if 0 <= s < party_count && 0 <= d < party_count {
                    lemma_chan_index(party_count as int, s, d);
                    assert(r.chan(s, d) =~= Seq::<Seq<u8>>::empty());
                } else {
                    assert(r.chan(s, d) =~= Seq::<Seq<u8>>::empty());
                }
            }
        }
        r
    }

    /// The number of parties in the group.
    pub fn party_count(&self) -> (r: usize)
        ensures
            r == self.party_count_spec(),
    {
        self.party_count
    }

    /// The number of messages in flight from `s` to `d`.
    pub fn queue_len(&self, s: usize, d: usize) -> (r: usize)
        requires
            self.wf(),
            s < self.party_count_spec(),
            d < self.party_count_spec(),
        ensures
            r == self.chan(s as int, d as int).len(),
    {
        proof {
            lemma_chan_index(self.party_count as int, s as int, d as int);
        }
        let idx = s * self.party_count + d;
        self.queues[idx].len()
    }

    /// Appends a message to the channel from `s` to `d`; no other channel
    /// moves.
    fn push_msg(&mut self, s: usize, d: usize, msg: &[u8])
        requires
            old(self).wf(),
            s < old(self).party_count_spec(),
            d < old(self).party_count_spec(),
        ensures
            final(self).wf(),
            final(self).party_count_spec() == old(self).party_count_spec(),
            final(self).chan(s as int, d as int) == old(self).chan(s as int, d as int).push(msg@),
            forall|a: int, b: int|
                !(a == s as int && b == d as int) ==> final(self).chan(a, b) == old(self).chan(
                    a,
                    b,
                ),
    {
        let ghost pre = *self;
        let n = self.party_count;
        proof {
            lemma_chan_index(n as int, s as int, d as int);
        }
        let idx = s * n + d;
        let ghost q0 = self.queues@[idx as int];
        let v = vstd::slice::slice_to_vec(msg);
        let ghost vg = v;
        let q = &mut self.queues[idx];
        q.push(v);
        proof {
            assert(self.queues@[idx as int]@ == q0@.push(vg));
            assert forall|j: int| 0 <= j <= q0@.len() implies self.queues@[
                idx as int
            ].deep_view()[j] == q0.deep_view().push(msg@)[j] by {
                assert(self.queues@[idx as int].deep_view()[j] == self.queues@[idx as int]@[
                    j
                ].deep_view());
                if j < q0@.len() {
                    assert(q0@.push(vg)[j] == q0@[j]);
                    assert(q0.deep_view()[j] == q0@[j].deep_view());
                } else {
                    assert(q0@.push(vg)[j] == vg);
                    assert(vg@ == msg@);
                }
            }
            assert(self.queues@[idx as int].deep_view() =~= q0.deep_view().push(msg@));
            assert(final(self).chan(s as int, d as int) == old(self).chan(s as int, d as int).push(
                msg@,
            ));
            assert forall|a: int, b: int| !(a == s as int && b == d as int) implies self.chan(a, b)
                == pre.chan(a, b) by {
                if 0 <= a < n && 0 <= b < n {
                    lemma_chan_index(n as int, a, b);
                    if a * (n as int) + b == idx {
                        lemma_chan_index_inj(n as int, a, b, s as int, d as int);
                    }
                    assert(self.queues@[a * (n as int) + b] == pre.queues@[a * (n as int) + b]);
                }
            }
        }
    }

    /// Removes and returns the oldest message in flight from `s` to `d`; no
    /// other channel moves.
    fn pop_msg(&mut self, s: usize, d: usize) -> (r: Vec<u8>)
        requires
            old(self).wf(),
            s < old(self).party_count_spec(),
            d < old(self).party_count_spec(),
            old(self).chan(s as int, d as int).len() > 0,
        ensures
            final(self).wf(),
            final(self).party_count_spec() == old(self).party_count_spec(),
            r@ == old(self).chan(s as int, d as int).first(),
            final(self).chan(s as int, d as int) == old(self).chan(
                s as int,
                d as int,
            ).drop_first(),
            forall|a: int, b: int|
                !(a == s as int && b == d as int) ==> final(self).chan(a, b) == old(self).chan(
                    a,
                    b,
                ),
    {
        let ghost pre = *self;
        let n = self.party_count;
        proof {
            lemma_chan_index(n as int, s as int, d as int);
        }
        let idx = s * n + d;
        let ghost q0 = self.queues@[idx as int];
        let q = &mut self.queues[idx];
        let v = q.remove(0);
        proof {
            assert(self.queues@[idx as int]@ == q0@.remove(0));
            assert(q0@.remove(0) =~= q0@.drop_first());
            assert forall|j: int| 0 <= j < q0@.len() - 1 implies self.queues@[
                idx as int
            ].deep_view()[j] == q0.deep_view().drop_first()[j] by {
                assert(self.queues@[idx as int].deep_view()[j] == self.queues@[idx as int]@[
                    j
                ].deep_view());
                assert(q0@.drop_first()[j] == q0@[j + 1]);
                assert(q0.deep_view()[j + 1] == q0@[j + 1].deep_view());
            }
            assert(self.queues@[idx as int].deep_view() =~= q0.deep_view().drop_first());
            assert(v == q0@[0]);
            assert(v@ == q0.deep_view()[0]);
            assert forall|a: int, b: int| !(a == s as int && b == d as int) implies self.chan(a, b)
                == pre.chan(a, b) by {
                if 0 <= a < n && 0 <= b < n {
                    lemma_chan_index(n as int, a, b);
                    if a * (n as int) + b == idx {
                        lemma_chan_index_inj(n as int, a, b, s as int, d as int);
                    }
                    assert(self.queues@[a * (n as int) + b] == pre.queues@[a * (n as int) + b]);
                }
            }
        }
        v
    }
}

/// Within a group of `n` parties, each ordered pair gets its own slot.
proof fn lemma_chan_index(n: int, s: int, d: int)
    by (nonlinear_arith)
    requires
        0 <= s < n,
        0 <= d < n,
        n <= MAX_PARTIES,
    ensures
        0 <= s * n + d < n * n,
        n * n <= 0x3fff_ffff,
{
}

/// Distinct ordered pairs get distinct slots.
proof fn lemma_chan_index_inj(n: int, s1: int, d1: int, s2: int, d2: int)
    by (nonlinear_arith)
    requires
        0 <= s1 < n,
        0 <= d1 < n,
        0 <= s2 < n,
        0 <= d2 < n,
        s1 * n + d1 == s2 * n + d2,
    ensures
        s1 == s2,
        d1 == d2,
{
}

/// One endpoint of an in-memory loopback group: it carries only the party it
/// speaks for; the messages live in the shared `LoopbackNet` medium.
pub struct LoopbackEndpoint {
    role: i32,
}

impl LoopbackEndpoint {
    /// An endpoint speaking for party `role`.
    pub fn new(role: i32) -> (r: LoopbackEndpoint)
        requires
            role >= 0,
        ensures
            r.role_spec() == role,
    {
        LoopbackEndpoint { role }
    }
}

impl IDataTransport for LoopbackEndpoint {
    type Medium = LoopbackNet;

    /// The party this endpoint speaks for.
    closed spec fn role_spec(&self) -> int {
        self.role as int
    }

    /// The medium is well formed.  Whether this endpoint's party is in the
    /// group is checked call by call, so endpoints sharing one medium can
    /// interleave freely.
    open spec fn medium_inv(&self, net: LoopbackNet) -> bool {
        net.wf()
    }

    /// The loopback channels are the medium's queues.
    open spec fn channel(&self, net: LoopbackNet, s: int, d: int) -> Seq<Seq<u8>> {
        net.chan(s, d)
    }

    /// Succeeds exactly when this endpoint's party and the receiver are
    /// both parties of the group.
    fn message_send(&self, net: &mut LoopbackNet, receiver: i32, buffer: &[u8]) -> (r: Result<
        (),
        BridgeError,
    >)
        ensures
            r is Ok <==> (0 <= self.role_spec() < old(net).party_count_spec() && 0 <= receiver
                < old(net).party_count_spec()),
            r is Err ==> r == Err::<(), BridgeError>(BridgeError::TransportFailure),
    {
        let n = net.party_count();
        if self.role < 0 || self.role >= n as i32 {
            return Err(BridgeError::TransportFailure);
        }
        if receiver < 0 || receiver >= n as i32 {
            return Err(BridgeError::TransportFailure);
        }
        net.push_msg(self.role as usize, receiver as usize, buffer);
        Ok(())
    }

    /// Succeeds exactly when this endpoint's party and the sender are both
    /// parties of the group and the sender has a message in flight here.
    fn message_receive(&self, net: &mut LoopbackNet, sender: i32) -> (r: Result<
        Vec<u8>,
        BridgeError,
    >)
        ensures
            r is Ok <==> (0 <= self.role_spec() < old(net).party_count_spec() && 0 <= sender
                < old(net).party_count_spec() && self.channel(
                *old(net),
                sender as int,
                self.role_spec(),
            ).len() > 0),
            r is Err ==> r == Err::<Vec<u8>, BridgeError>(BridgeError::TransportFailure),
    {
        let n = net.party_count();
        if self.role < 0 || self.role >= n as i32 {
            return Err(BridgeError::TransportFailure);
        }
        if sender < 0 || sender >= n as i32 {
            return Err(BridgeError::TransportFailure);
        }
        if net.queue_len(sender as usize, self.role as usize) == 0 {
            return Err(BridgeError::TransportFailure);
        }
        let v = net.pop_msg(sender as usize, self.role as usize);
        Ok(v)
    }

    /// Succeeds exactly when the senders are pairwise distinct parties of
    /// the group, each with a message in flight to this endpoint.  The
    /// channels are checked before any is touched, so a failed call leaves
    /// the medium exactly as it was.
    fn messages_receive(&self, net: &mut LoopbackNet, senders: &[i32]) -> (r: Result<
        Vec<Vec<u8>>,
        BridgeError,
    >)
        ensures
            r is Ok <==> loopback_receive_all_ok(self.role_spec(), *old(net), senders@),
            r is Err ==> r == Err::<Vec<Vec<u8>>, BridgeError>(BridgeError::TransportFailure),
    {
        let ghost net0 = *net;
        let n = net.party_count();
        if self.role < 0 || self.role >= n as i32 {
            return Err(BridgeError::TransportFailure);
        }
        let m = senders.len();
        let role = self.role as usize;
        let mut i: usize = 0;
        while i < m
            invariant
                i <= m,
                m == senders@.len(),
                n == net.party_count_spec(),
                *net == net0,
                self.medium_inv(*net),
                0 <= role < n,
                role == self.role_spec(),
                forall|j: int| 0 <= j < i ==> 0 <= #[trigger] senders@[j] < n,
                forall|j: int|
                    0 <= j < i ==> net0.chan(#[trigger] senders@[j] as int, role as int).len() > 0,
                forall|j: int, k: int| 0 <= j < k < i ==> senders@[j] != senders@[k],
            decreases m - i,
        {
            let s = senders[i];
            if s < 0 || s >= n as i32 {
                proof {
                    lemma_receive_all_not_ok_bad_sender(self.role_spec(), net0, senders@, i as int);
                }
                return Err(BridgeError::TransportFailure);
            }
            if net.queue_len(s as usize, role) == 0 {
                proof {
                    lemma_receive_all_not_ok_bad_sender(self.role_spec(), net0, senders@, i as int);
                }
                return Err(BridgeError::TransportFailure);
            }
            let mut j: usize = 0;
            while j < i
                invariant
                    j <= i < m,
                    m == senders@.len(),
                    *net == net0,
                    self.medium_inv(*net),
                    role == self.role_spec(),
                    s == senders@[i as int],
                    forall|k: int| 0 <= k < j ==> senders@[k] != s,
                decreases i - j,
            {
                if senders[j] == s {
                    proof {
                        lemma_receive_all_not_ok_duplicate(
                            self.role_spec(),
                            net0,
                            senders@,
                            j as int,
                            i as int,
                        );
                    }
                    return Err(BridgeError::TransportFailure);
                }
                j += 1;
            }
            i += 1;
        }
        let mut out: Vec<Vec<u8>> = Vec::new();
        i = 0;
        while i < m
            invariant
                i <= m,
                m == senders@.len(),
                n == net.party_count_spec() == net0.party_count_spec(),
                self.medium_inv(*net),
                net.wf(),
                0 <= role < n,
                role == self.role_spec(),
                forall|j: int| 0 <= j < m ==> 0 <= #[trigger] senders@[j] < n,
                forall|j: int|
                    0 <= j < m ==> net0.chan(#[trigger] senders@[j] as int, role as int).len() > 0,
                forall|j: int, k: int| 0 <= j < k < m ==> senders@[j] != senders@[k],
                out@.len() == i,
                forall|j: int|
                    0 <= j < i ==> out@[j]@ == net0.chan(
                        #[trigger] senders@[j] as int,
                        role as int,
                    ).first(),
                forall|j: int|
                    0 <= j < i ==> net.chan(#[trigger] senders@[j] as int, role as int) == net0.chan(
                        senders@[j] as int,
                        role as int,
                    ).drop_first(),
                forall|a: int, b: int|
                    #![auto]
                    b != role as int || !contains_sender(senders@.take(i as int), a) ==> net.chan(
                        a,
                        b,
                    ) == net0.chan(a, b),
            decreases m - i,
        {
            let s = senders[i];
            proof {
                assert(!contains_sender(senders@.take(i as int), s as int));
                assert(net.chan(s as int, role as int) == net0.chan(s as int, role as int));
            }
            let v = net.pop_msg(s as usize, role);
            out.push(v);
            proof {
                assert forall|j: int|
                    0 <= j < i + 1 implies net.chan(#[trigger] senders@[j] as int, role as int)
                    == net0.chan(senders@[j] as int, role as int).drop_first() by {
                    if j < i {
                        assert(senders@[j] != senders@[i as int]);
                    }
                }
                assert forall|a: int, b: int|
                    #![auto]
                    b != role as int || !contains_sender(senders@.take(i + 1), a) implies net.chan(
                        a,
                        b,
                    ) == net0.chan(a, b) by {
                    if a == s as int && b == role as int {
                        assert(senders@.take(i + 1)[i as int] == s as int);
                        assert(contains_sender(senders@.take(i + 1), a));
                    } else {
                        if b == role as int && contains_sender(senders@.take(i as int), a) {
                            let w = choose|w: int|
                                0 <= w < i && senders@.take(i as int)[w] == a;
                            assert(senders@.take(i + 1)[w] == a);
                            assert(contains_sender(senders@.take(i + 1), a));
                        }
                    }
                }
            }
            i += 1;
        }
        proof {
            assert(senders@.take(m as int) =~= senders@);
        }
        Ok(out)
    }
}

/// Exactly when a loopback `receive_all` succeeds: the requested senders are
/// pairwise distinct parties of the group, each with a message in flight to
/// party `role`.
pub open spec fn loopback_receive_all_ok(role: int, net: LoopbackNet, senders: Seq<i32>) -> bool {
    &&& 0 <= role < net.party_count_spec()
    &&& distinct_senders(senders)
    &&& forall|i: int| 0 <= i < senders.len() ==> 0 <= #[trigger] senders[i] < net.party_count_spec()
    &&& forall|i: int| 0 <= i < senders.len() ==> net.chan(#[trigger] senders[i] as int, role).len() > 0
}

/// A request whose `i`-th sender is outside the group or has nothing in
/// flight cannot succeed.
proof fn lemma_receive_all_not_ok_bad_sender(role: int, net: LoopbackNet, senders: Seq<i32>, i: int)
    requires
        0 <= i < senders.len(),
        !(0 <= senders[i] < net.party_count_spec()) || net.chan(senders[i] as int, role).len()
            == 0,
    ensures
        !loopback_receive_all_ok(role, net, senders),
{
}

/// A request naming the same sender twice cannot succeed.
proof fn lemma_receive_all_not_ok_duplicate(
    role: int,
    net: LoopbackNet,
    senders: Seq<i32>,
    j: int,
    i: int,
)
    requires
        0 <= j < i < senders.len(),
        senders[j] == senders[i],
    ensures
        !loopback_receive_all_ok(role, net, senders),
{
}

} // verus!
