//! The connection manager: a fixed-capacity pool of session slots, the
//! accept/connect decision logic with its security gates (blacklist and
//! attempt debounce), the per-peer FIFO of decrypted inbound messages, and
//! teardown.
//!
//! This type holds the node's whole shared state as one value; the transport
//! itself (sockets, threads, timers) lives outside. A live socket is
//! represented here by a caller-chosen token, and every function that in the
//! original flow performs I/O instead returns what the caller must do: the
//! token to write to or shut down, the bytes to send.

use vstd::prelude::*;
use vstd::string::StringSliceAdditionalSpecFns;

use crate::crypto;
use crate::keyed::{has_key, key_index, keys_unique};
use crate::keyed::{lemma_key_index, lemma_key_push, lemma_key_remove, lemma_same_keys};

verus! {

/// Milliseconds in the debounce window: a repeated connection attempt to the
/// same address within this window of a still-recorded one is rejected.
pub const DEBOUNCE_WINDOW_MS: u64 = 5000;

/// One fixed position in the connection pool, holding one peer's live
/// session state. An empty `peer_address` means no session holds the slot;
/// `busy` alone (with an empty address) marks a reservation made while an
/// outbound handshake is still in flight.
pub struct Slot {
    pub peer_address: String,
    pub socket: Option<u64>,
    pub busy: bool,
    pub peer_public_key: Option<crypto::PublicKey>,
    pub local_private_key: Option<crypto::PrivateKey>,
}

impl Slot {
    /// Free for a new session: no address recorded and no worker holding it.
    pub open spec fn is_free(self) -> bool {
        self.peer_address@.len() == 0 && !self.busy
    }

    /// Holds a live session's address.
    pub open spec fn occupied(self) -> bool {
        self.peer_address@.len() > 0
    }

    /// Fully reset: what construction and teardown leave behind.
    pub open spec fn cleared(self) -> bool {
        &&& self.peer_address@.len() == 0
        &&& self.socket is None
        &&& !self.busy
        &&& self.peer_public_key is None
        &&& self.local_private_key is None
    }
}

/// The addresses of the occupied slots, in slot order.
pub open spec fn connected_addrs(slots: Seq<Slot>) -> Seq<Seq<char>>
    decreases slots.len(),
{
    if slots.len() == 0 {
        Seq::empty()
    } else {
        let rest = connected_addrs(slots.drop_last());
        if slots.last().occupied() {
            rest.push(slots.last().peer_address@)
        } else {
            rest
        }
    }
}

/// The socket tokens of the occupied slots that have one, in slot order:
/// what a full shutdown must close.
pub open spec fn live_sockets(slots: Seq<Slot>) -> Seq<u64>
    decreases slots.len(),
{
    if slots.len() == 0 {
        Seq::empty()
    } else {
        let rest = live_sockets(slots.drop_last());
        match slots.last().socket {
            Some(s) => if slots.last().occupied() {
                rest.push(s)
            } else {
                rest
            },
            None => rest,
        }
    }
}

/// A pool where no slot is occupied lists no connected address.
pub proof fn lemma_no_occupied_no_addrs(slots: Seq<Slot>)
    requires
        forall|i: int| 0 <= i < slots.len() ==> !(#[trigger] slots[i]).occupied(),
    ensures
        connected_addrs(slots) == Seq::<Seq<char>>::empty(),
    decreases slots.len(),
{
    if slots.len() > 0 {
        assert(slots[slots.len() - 1] == slots.last());
        lemma_no_occupied_no_addrs(slots.drop_last());
    }
}

/// A pool cannot list more connected addresses than it has slots, and lists
/// one per slot only when every slot is occupied.
proof fn lemma_connected_addrs_len(slots: Seq<Slot>)
    ensures
        connected_addrs(slots).len() <= slots.len(),
        connected_addrs(slots).len() == slots.len() ==> forall|i: int|
            0 <= i < slots.len() ==> (#[trigger] slots[i]).occupied(),
    decreases slots.len(),
{
    if slots.len() > 0 {
        lemma_connected_addrs_len(slots.drop_last());
        if connected_addrs(slots).len() == slots.len() {
            assert(slots.last().occupied());
            assert forall|i: int| 0 <= i < slots.len() implies (#[trigger] slots[i]).occupied() by {
                if i < slots.len() - 1 {
                    assert(slots.drop_last()[i] == slots[i]);
                } else {
                    assert(slots[i] == slots.last());
                }
            }
        }
    }
}

/// Filling one unoccupied slot with an occupied one lists exactly one more
/// connected address.
proof fn lemma_connected_addrs_update(slots: Seq<Slot>, i: int, s: Slot)
    requires
        0 <= i < slots.len(),
        !slots[i].occupied(),
        s.occupied(),
    ensures
        connected_addrs(slots.update(i, s)).len() == connected_addrs(slots).len() + 1,
    decreases slots.len(),
{
    let t = slots.update(i, s);
    if i == slots.len() - 1 {
        assert(t.drop_last() =~= slots.drop_last());
        assert(t.last() == s);
        assert(slots.last() == slots[i]);
    } else {
        assert(t.drop_last() =~= slots.drop_last().update(i, s));
        assert(t.last() == slots.last());
        lemma_connected_addrs_update(slots.drop_last(), i, s);
    }
}

/// The verdict of the outbound session gate: either a rejection, with the
/// rule that caused it, or the index of the slot reserved for the attempt.
#[derive(Debug, PartialEq, Eq)]
pub enum SessionStep {
    /// The target is this node itself.
    SelfTarget,
    /// A session for this address already holds a slot; nothing to do.
    AlreadyConnected,
    /// The target address is on the blacklist.
    Blacklisted,
    /// A connection attempt for this address is already recorded within the
    /// debounce window.
    AttemptInFlight,
    /// Every slot is busy.
    NoFreeSlot,
    /// Proceed: this slot index is reserved for the handshake.
    Connect(usize),
}

/// The connection manager's state: the slot pool, the per-peer inbound
/// queues, the attempt table, the blacklist, and the node's own identity.
pub struct P2P {
    pub running: bool,
    pub port: u16,
    pub host: String,
    pub max_clients: usize,
    pub slots: Vec<Slot>,
    pub queues: Vec<(String, Vec<Vec<u8>>)>,
    pub attempts: Vec<(String, u64)>,
    pub blacklist: Vec<String>,
}

impl P2P {
    /// Well-formedness: the pool has exactly `max_clients` slots, queue and
    /// attempt keys are distinct, and a slot holding an address is busy.
    pub open spec fn wf(self) -> bool {
        &&& self.slots@.len() == self.max_clients
        &&& keys_unique(self.queues@)
        &&& keys_unique(self.attempts@)
        &&& forall|i: int|
            0 <= i < self.slots@.len() ==> ((#[trigger] self.slots@[i]).occupied()
                ==> self.slots@[i].busy)
    }

    /// Some occupied slot holds this address. An empty string marks a free
    /// slot, so no address equal to it is ever connected.
    pub open spec fn connected(self, addr: Seq<char>) -> bool {
        exists|i: int|
            0 <= i < self.slots@.len() && (#[trigger] self.slots@[i]).occupied()
                && self.slots@[i].peer_address@ == addr
    }

    /// `i` is the first occupied slot holding this address: the one every
    /// lookup by address resolves to.
    pub open spec fn first_slot_for(self, addr: Seq<char>, i: int) -> bool {
        &&& 0 <= i < self.slots@.len()
        &&& self.slots@[i].occupied()
        &&& self.slots@[i].peer_address@ == addr
        &&& forall|j: int|
            0 <= j < i ==> !((#[trigger] self.slots@[j]).occupied()
                && self.slots@[j].peer_address@ == addr)
    }

    /// Some slot is free for an inbound session.
    pub open spec fn has_free_slot(self) -> bool {
        exists|i: int| 0 <= i < self.slots@.len() && (#[trigger] self.slots@[i]).is_free()
    }

    /// The address is on the blacklist.
    pub open spec fn spec_blacklisted(self, addr: Seq<char>) -> bool {
        exists|i: int| 0 <= i < self.blacklist@.len() && (#[trigger] self.blacklist@[i])@ == addr
    }

    /// The inbound queue recorded for this address, if any, as a sequence of
    /// payloads in arrival order.
    pub open spec fn queue_of(self, addr: Seq<char>) -> Option<Seq<Seq<u8>>> {
        if has_key(self.queues@, addr) {
            Some(self.queues@[key_index(self.queues@, addr)].1.deep_view())
        } else {
            None
        }
    }

    /// The queue for this address, or the empty sequence if none is recorded.
    pub open spec fn queue_or_empty(self, addr: Seq<char>) -> Seq<Seq<u8>> {
        match self.queue_of(addr) {
            Some(q) => q,
            None => Seq::empty(),
        }
    }

    /// The timestamp of the recorded connection attempt for this address.
    pub open spec fn attempt_of(self, addr: Seq<char>) -> Option<u64> {
        if has_key(self.attempts@, addr) {
            Some(self.attempts@[key_index(self.attempts@, addr)].1)
        } else {
            None
        }
    }

    /// A recorded attempt blocks a new one at time `now`: the record is
    /// younger than the debounce window.
    pub open spec fn attempt_blocks(self, addr: Seq<char>, now: u64) -> bool {
        match self.attempt_of(addr) {
            Some(t) => now < t + DEBOUNCE_WINDOW_MS,
            None => false,
        }
    }

    /// Everything but the attempt table is unchanged.
    pub open spec fn same_except_attempts(pre: P2P, post: P2P) -> bool {
        &&& post.running == pre.running
        &&& post.port == pre.port
        &&& post.host == pre.host
        &&& post.max_clients == pre.max_clients
        &&& post.slots == pre.slots
        &&& post.queues == pre.queues
        &&& post.blacklist == pre.blacklist
    }

    /// Everything but the queue table is unchanged.
    pub open spec fn same_except_queues(pre: P2P, post: P2P) -> bool {
        &&& post.running == pre.running
        &&& post.port == pre.port
        &&& post.host == pre.host
        &&& post.max_clients == pre.max_clients
        &&& post.slots == pre.slots
        &&& post.attempts == pre.attempts
        &&& post.blacklist == pre.blacklist
    }

    /// Everything but the slot pool and the attempt table is unchanged.
    pub open spec fn same_except_slots_attempts(pre: P2P, post: P2P) -> bool {
        &&& post.running == pre.running
        &&& post.port == pre.port
        &&& post.host == pre.host
        &&& post.max_clients == pre.max_clients
        &&& post.queues == pre.queues
        &&& post.blacklist == pre.blacklist
    }

    /// Everything but the slot pool and the queue table is unchanged.
    pub open spec fn same_except_slots_queues(pre: P2P, post: P2P) -> bool {
        &&& post.running == pre.running
        &&& post.port == pre.port
        &&& post.host == pre.host
        &&& post.max_clients == pre.max_clients
        &&& post.attempts == pre.attempts
        &&& post.blacklist == pre.blacklist
    }

    /// A fresh node: every slot cleared, no queues, no recorded attempts,
    /// accepting work. The caller supplies what only the environment knows:
    /// the port it bound, the node's own shareable address, and the blacklist
    /// loaded at startup.
    pub fn new(port: u16, max_clients: usize, host: String, blacklist: Vec<String>) -> (r: P2P)
        ensures
            r.wf(),
            r.running,
            r.port == port,
            r.host@ == host@,
            r.max_clients == max_clients,
            forall|i: int| 0 <= i < r.slots@.len() ==> (#[trigger] r.slots@[i]).cleared(),
            r.queues@.len() == 0,
            r.attempts@.len() == 0,
            r.blacklist == blacklist,
    {
        let mut slots: Vec<Slot> = Vec::new();
        let mut i: usize = 0;
        while i < max_clients
            invariant
                i <= max_clients,
                slots@.len() == i,
                forall|k: int| 0 <= k < i ==> (#[trigger] slots@[k]).cleared(),
            decreases max_clients - i,
        {
            slots.push(
                Slot {
                    peer_address: String::new(),
                    socket: None,
                    busy: false,
                    peer_public_key: None,
                    local_private_key: None,
                },
            );
            i = i + 1;
        }
        P2P {
            running: true,
            port,
            host,
            max_clients,
            slots,
            queues: Vec::new(),
            attempts: Vec::new(),
            blacklist,
        }
    }

    /// The address this node shares with peers so they can connect back.
    pub fn get_host_ip(&self) -> (r: &str)
        ensures
            r@ == self.host@,
    {
        self.host.as_str()
    }

    /// The port this node listens on.
    pub fn get_port(&self) -> (r: u16)
        ensures
            r == self.port,
    {
        self.port
    }

    /// Whether the node still accepts work; workers poll this between steps.
    pub fn is_running(&self) -> (r: bool)
        ensures
            r == self.running,
    {
        self.running
    }

    /// Blacklist membership: checked on every inbound accept and every
    /// outbound session request.
    pub fn is_blacklisted(&self, address: &str) -> (r: bool)
        ensures
            r == self.spec_blacklisted(address@),
    {
        let a = address.to_owned();
        let mut i: usize = 0;
        while i < self.blacklist.len()
            invariant
                a@ == address@,
                i <= self.blacklist@.len(),
                forall|j: int| 0 <= j < i ==> (#[trigger] self.blacklist@[j])@ != address@,
            decreases self.blacklist@.len() - i,
        {
            if self.blacklist[i] == a {
                return true;
            }
            i = i + 1;
        }
        false
    }

    /// Whether some occupied slot currently holds this address; false for the
    /// empty string, which marks a free slot.
    pub fn check_address(&self, address: &str) -> (r: bool)
        ensures
            r == self.connected(address@),
    {
        let a = address.to_owned();
        let mut i: usize = 0;
        while i < self.slots.len()
            invariant
                a@ == address@,
                i <= self.slots@.len(),
                forall|j: int|
                    0 <= j < i ==> !((#[trigger] self.slots@[j]).occupied()
                        && self.slots@[j].peer_address@ == address@),
            decreases self.slots@.len() - i,
        {
            if !self.slots[i].peer_address.as_str().is_empty() && self.slots[i].peer_address == a {
                return true;
            }
            i = i + 1;
        }
        false
    }

    /// The first occupied slot holding this address, as every address-keyed
    /// operation resolves it.
    fn get_ind_by_address(&self, address: &str) -> (r: Option<usize>)
        ensures
            match r {
                Some(i) => self.first_slot_for(address@, i as int),
                None => !self.connected(address@),
            },
    {
        let a = address.to_owned();
        let mut i: usize = 0;
        while i < self.slots.len()
            invariant
                a@ == address@,
                i <= self.slots@.len(),
                forall|j: int|
                    0 <= j < i ==> !((#[trigger] self.slots@[j]).occupied()
                        && self.slots@[j].peer_address@ == address@),
            decreases self.slots@.len() - i,
        {
            if !self.slots[i].peer_address.as_str().is_empty() && self.slots[i].peer_address == a {
                return Some(i);
            }
            i = i + 1;
        }
        None
    }

    /// Snapshot of all connected addresses, in slot order.
    pub fn get_connected_clients(&self) -> (r: Vec<String>)
        ensures
            r.deep_view() == connected_addrs(self.slots@),
    {
        let mut out: Vec<String> = Vec::new();
        let mut i: usize = 0;
        while i < self.slots.len()
            invariant
                i <= self.slots@.len(),
                out.deep_view() == connected_addrs(self.slots@.subrange(0, i as int)),
            decreases self.slots@.len() - i,
        {
            proof {
                assert(self.slots@.subrange(0, i + 1).drop_last() =~= self.slots@.subrange(
                    0,
                    i as int,
                ));
                assert(self.slots@.subrange(0, i + 1).last() == self.slots@[i as int]);
            }
            if !self.slots[i].peer_address.as_str().is_empty() {
                out.push(self.slots[i].peer_address.clone());
                proof {
                    assert(out.deep_view() =~= connected_addrs(self.slots@.subrange(0, i + 1)));
                }
            }
            i = i + 1;
        }
        proof {
            assert(self.slots@.subrange(0, self.slots@.len() as int) =~= self.slots@);
        }
        out
    }

    /// How many slots hold a session right now.
    pub fn connected_clients_count(&self) -> (r: usize)
        ensures
            r == connected_addrs(self.slots@).len(),
    {
        let mut count: usize = 0;
        let mut i: usize = 0;
        while i < self.slots.len()
            invariant
                i <= self.slots@.len(),
                count == connected_addrs(self.slots@.subrange(0, i as int)).len(),
                count <= i,
            decreases self.slots@.len() - i,
        {
            proof {
                assert(self.slots@.subrange(0, i + 1).drop_last() =~= self.slots@.subrange(
                    0,
                    i as int,
                ));
                assert(self.slots@.subrange(0, i + 1).last() == self.slots@[i as int]);
            }
            if !self.slots[i].peer_address.as_str().is_empty() {
                count = count + 1;
            }
            i = i + 1;
        }
        proof {
            assert(self.slots@.subrange(0, self.slots@.len() as int) =~= self.slots@);
        }
        count
    }

    /// Record a decrypted payload at the back of this peer's queue, creating
    /// the queue on its first message.
    fn push_request(&mut self, address: &str, payload: Vec<u8>)
        requires
            old(self).wf(),
        ensures
            final(self).wf(),
            P2P::same_except_queues(*old(self), *final(self)),
            final(self).queue_of(address@) == Some(
                old(self).queue_or_empty(address@).push(payload@),
            ),
            forall|a: Seq<char>|
                a != address@ ==> final(self).queue_of(a) == old(self).queue_of(a),
    {
        let ghost pre = self.queues@;
        match crate::keyed::find_key(&self.queues, address) {
            Some(i) => {
                proof {
                    lemma_key_index(pre, address@, i as int);
                }
                self.queues[i].1.push(payload);
                proof {
                    assert(self.queues@[i as int].0 == pre[i as int].0);
                    lemma_same_keys(pre, self.queues@);
                    assert(self.queues@[i as int].1.deep_view() =~~= pre[i as int].1.deep_view()
                        .push(payload@));
                }
            },
            None => {
                let key = address.to_owned();
                let mut fresh: Vec<Vec<u8>> = Vec::new();
                fresh.push(payload);
                let ghost entry = (key, fresh);
                self.queues.push((key, fresh));
                proof {
                    lemma_key_push(pre, entry.0, entry.1);
                    assert(entry.1.deep_view() =~~= Seq::<Seq<u8>>::empty().push(payload@));
                }
            },
        }
    }

    /// True iff a queue exists for this address and holds a message.
    pub fn check_request(&self, address: &str) -> (r: bool)
        requires
            self.wf(),
        ensures
            r == match self.queue_of(address@) {
                Some(q) => q.len() > 0,
                None => false,
            },
    {
        match crate::keyed::find_key(&self.queues, address) {
            Some(i) => {
                proof {
                    lemma_key_index(self.queues@, address@, i as int);
                }
                self.queues[i].1.len() > 0
            },
            None => false,
        }
    }

    /// Pop the oldest queued message for this address; `None` when no queue
    /// exists or it is empty. An emptied queue stays in place until the
    /// connection is closed.
    pub fn get_request(&mut self, address: &str) -> (r: Option<Vec<u8>>)
        requires
            old(self).wf(),
        ensures
            final(self).wf(),
            P2P::same_except_queues(*old(self), *final(self)),
            forall|a: Seq<char>|
                a != address@ ==> final(self).queue_of(a) == old(self).queue_of(a),
            match old(self).queue_of(address@) {
                Some(q) => {
                    if q.len() > 0 {
                        &&& match r {
                            Some(m) => m@ == q[0],
                            None => false,
                        }
                        &&& final(self).queue_of(address@) == Some(q.drop_first())
                    } else {
                        &&& r is None
                        &&& final(self).queue_of(address@) == Some(q)
                    }
                },
                None => r is None && final(self).queue_of(address@) is None,
            },
    {
        let ghost pre = self.queues@;
        match crate::keyed::find_key(&self.queues, address) {
            Some(i) => {
                proof {
                    lemma_key_index(pre, address@, i as int);
                }
                if self.queues[i].1.len() > 0 {
                    let m = self.queues[i].1.remove(0);
                    proof {
                        assert(self.queues@[i as int].0 == pre[i as int].0);
                        lemma_same_keys(pre, self.queues@);
                        assert(m@ =~~= pre[i as int].1.deep_view()[0]);
                        assert(self.queues@[i as int].1.deep_view() =~~= pre[i as int].1.deep_view()
                            .drop_first());
                    }
                    Some(m)
                } else {
                    None
                }
            },
            None => None,
        }
    }

    /// Drop the queue recorded for this address, if any.
    fn remove_queue(&mut self, address: &str)
        requires
            old(self).wf(),
        ensures
            final(self).wf(),
            P2P::same_except_queues(*old(self), *final(self)),
            final(self).queue_of(address@) is None,
            forall|a: Seq<char>|
                a != address@ ==> final(self).queue_of(a) == old(self).queue_of(a),
    {
        let ghost pre = self.queues@;
        match crate::keyed::find_key(&self.queues, address) {
            Some(i) => {
                proof {
                    lemma_key_index(pre, address@, i as int);
                    lemma_key_remove(pre, i as int);
                }
                self.queues.remove(i);
            },
            None => (),
        }
    }

    /// The debounce gate: admit and record a connection attempt for this
    /// address at time `now`, unless one within the window is still recorded.
    /// An expired record is replaced; a rejection records nothing.
    pub fn admit_attempt(&mut self, address: &str, now: u64) -> (r: bool)
        requires
            old(self).wf(),
        ensures
            final(self).wf(),
            r == !old(self).attempt_blocks(address@, now),
            !r ==> *final(self) == *old(self),
            r ==> P2P::same_except_attempts(*old(self), *final(self)),
            r ==> final(self).attempt_of(address@) == Some(now),
            r ==> forall|a: Seq<char>|
                a != address@ ==> final(self).attempt_of(a) == old(self).attempt_of(a),
    {
        let ghost pre = self.attempts@;
        match crate::keyed::find_key(&self.attempts, address) {
            Some(i) => {
                proof {
                    lemma_key_index(pre, address@, i as int);
                }
                let t = self.attempts[i].1;
                if now < t || now - t < DEBOUNCE_WINDOW_MS {
                    false
                } else {
                    proof {
                        lemma_key_remove(pre, i as int);
                    }
                    self.attempts.remove(i);
                    let key = address.to_owned();
                    let ghost entry = (key, now);
                    self.attempts.push((key, now));
                    proof {
                        lemma_key_push(pre.remove(i as int), entry.0, entry.1);
                    }
                    true
                }
            },
            None => {
                let key = address.to_owned();
                let ghost entry = (key, now);
                self.attempts.push((key, now));
                proof {
                    lemma_key_push(pre, entry.0, entry.1);
                }
                true
            },
        }
    }

    /// Claim the first free slot for a completed inbound handshake: record
    /// the peer's address, mark the slot busy, attach the socket token and
    /// both session keys, and release the debounce record for the address.
    /// `None` when every slot is taken: the connection is dropped, the pool
    /// and queues are untouched, and the debounce record is released there
    /// too — the attempt's outcome is known.
    #[verifier::loop_isolation(false)]
    pub fn attach_session(
        &mut self,
        address: &str,
        socket: u64,
        peer_key: crypto::PublicKey,
        local_key: crypto::PrivateKey,
    ) -> (r: Option<usize>)
        requires
            old(self).wf(),
            address@.len() > 0,
        ensures
            final(self).wf(),
            match r {
                None => {
                    &&& !old(self).has_free_slot()
                    &&& P2P::same_except_attempts(*old(self), *final(self))
                    &&& final(self).attempt_of(address@) is None
                    &&& forall|a: Seq<char>|
                        a != address@ ==> final(self).attempt_of(a) == old(self).attempt_of(a)
                },
                Some(i) => {
                    &&& i < old(self).slots@.len()
                    &&& old(self).slots@[i as int].is_free()
                    &&& forall|j: int| 0 <= j < i ==> !(#[trigger] old(self).slots@[j]).is_free()
                    &&& P2P::same_except_slots_attempts(*old(self), *final(self))
                    &&& final(self).slots@.len() == old(self).slots@.len()
                    &&& final(self).slots@[i as int].peer_address@ == address@
                    &&& final(self).slots@[i as int].busy
                    &&& final(self).slots@[i as int].socket == Some(socket)
                    &&& final(self).slots@[i as int].peer_public_key == Some(peer_key)
                    &&& final(self).slots@[i as int].local_private_key == Some(local_key)
                    &&& forall|j: int|
                        0 <= j < old(self).slots@.len() && j != i ==> final(self).slots@[j] == old(self).slots@[j]
                    &&& final(self).attempt_of(address@) is None
                    &&& forall|a: Seq<char>|
                        a != address@ ==> final(self).attempt_of(a) == old(self).attempt_of(a)
                    &&& final(self).connected(address@)
                    &&& connected_addrs(final(self).slots@).len() == connected_addrs(
                        old(self).slots@,
                    ).len() + 1
                },
            },
    {
        let mut i: usize = 0;
        while i < self.slots.len()
            invariant
                *self == *old(self),
                i <= self.slots@.len(),
                forall|j: int| 0 <= j < i ==> !(#[trigger] self.slots@[j]).is_free(),
            decreases self.slots@.len() - i,
        {
            if self.slots[i].peer_address.as_str().is_empty() && !self.slots[i].busy {
                self.slots[i] = Slot {
                    peer_address: address.to_owned(),
                    socket: Some(socket),
                    busy: true,
                    peer_public_key: Some(peer_key),
                    local_private_key: Some(local_key),
                };
                proof {
                    lemma_connected_addrs_update(
                        old(self).slots@,
                        i as int,
                        self.slots@[i as int],
                    );
                }
                self.remove_attempt(address);
                return Some(i);
            }
            i = i + 1;
        }
        self.remove_attempt(address);
        None
    }

    /// The outbound session gate, applied in order: reject a connection to
    /// this node itself, report an address that already holds a slot as
    /// already connected, reject a blacklisted address, reject an address
    /// whose attempt record is still within the debounce window, and fail
    /// when every slot is busy (dropping the just-recorded attempt).
    /// Otherwise record the attempt and reserve the first non-busy slot, to
    /// be filled by `finish_outbound` or released by `abort_outbound` once
    /// the handshake's outcome is known.
    #[verifier::loop_isolation(false)]
    pub fn create_session(&mut self, address: &str, port: Option<u16>, now: u64) -> (r:
        SessionStep)
        requires
            old(self).wf(),
        ensures
            final(self).wf(),
            ({
                let tp = match port {
                    Some(p) => p,
                    None => old(self).port,
                };
                if address@ == old(self).host@ && tp == old(self).port {
                    r == SessionStep::SelfTarget && *final(self) == *old(self)
                } else if old(self).connected(address@) {
                    r == SessionStep::AlreadyConnected && *final(self) == *old(self)
                } else if old(self).spec_blacklisted(address@) {
                    r == SessionStep::Blacklisted && *final(self) == *old(self)
                } else if old(self).attempt_blocks(address@, now) {
                    r == SessionStep::AttemptInFlight && *final(self) == *old(self)
                } else if forall|i: int|
                    0 <= i < old(self).slots@.len() ==> (#[trigger] old(self).slots@[i]).busy {
                    &&& r == SessionStep::NoFreeSlot
                    &&& P2P::same_except_attempts(*old(self), *final(self))
                    &&& final(self).attempt_of(address@) is None
                    &&& forall|a: Seq<char>|
                        a != address@ ==> final(self).attempt_of(a) == old(self).attempt_of(a)
                } else {
                    match r {
                        SessionStep::Connect(i) => {
                            &&& i < old(self).slots@.len()
                            &&& !old(self).slots@[i as int].busy
                            &&& forall|j: int|
                                0 <= j < i ==> (#[trigger] old(self).slots@[j]).busy
                            &&& P2P::same_except_slots_attempts(*old(self), *final(self))
                            &&& final(self).slots@.len() == old(self).slots@.len()
                            &&& final(self).slots@[i as int].busy
                            &&& final(self).slots@[i as int].peer_address == old(self).slots@[i as int].peer_address
                            &&& final(self).slots@[i as int].socket == old(self).slots@[i as int].socket
                            &&& final(self).slots@[i as int].peer_public_key == old(self).slots@[i as int].peer_public_key
                            &&& final(self).slots@[i as int].local_private_key == old(self).slots@[i as int].local_private_key
                            &&& forall|j: int|
                                0 <= j < old(self).slots@.len() && j != i ==> final(self).slots@[j] == old(self).slots@[j]
                            &&& final(self).attempt_of(address@) == Some(now)
                            &&& forall|a: Seq<char>|
                                a != address@ ==> final(self).attempt_of(a) == old(self).attempt_of(a)
                        },
                        _ => false,
                    }
                }
            }),
    {
        let tp = match port {
            Some(p) => p,
            None => self.port,
        };
        if address.to_owned() == self.host && tp == self.port {
            return SessionStep::SelfTarget;
        }
        if self.check_address(address) {
            return SessionStep::AlreadyConnected;
        }
        if self.is_blacklisted(address) {
            return SessionStep::Blacklisted;
        }
        if !self.admit_attempt(address, now) {
            return SessionStep::AttemptInFlight;
        }
        let ghost mid = *self;
        let mut i: usize = 0;
        while i < self.slots.len()
            invariant
                *self == mid,
                i <= self.slots@.len(),
                forall|j: int| 0 <= j < i ==> (#[trigger] self.slots@[j]).busy,
            decreases self.slots@.len() - i,
        {
            if !self.slots[i].busy {
                self.slots[i].busy = true;
                return SessionStep::Connect(i);
            }
            i = i + 1;
        }
        self.remove_attempt(address);
        SessionStep::NoFreeSlot
    }

    /// Store a completed outbound handshake into the slot reserved for it —
    /// still address-less from the reservation — and drop the debounce
    /// record: the attempt's outcome is known.
    pub fn finish_outbound(
        &mut self,
        slot: usize,
        address: &str,
        socket: u64,
        peer_key: crypto::PublicKey,
        local_key: crypto::PrivateKey,
    )
        requires
            old(self).wf(),
            slot < old(self).slots@.len(),
            !old(self).slots@[slot as int].occupied(),
            address@.len() > 0,
        ensures
            final(self).wf(),
            P2P::same_except_slots_attempts(*old(self), *final(self)),
            final(self).slots@.len() == old(self).slots@.len(),
            final(self).slots@[slot as int].peer_address@ == address@,
            final(self).slots@[slot as int].busy,
            final(self).slots@[slot as int].socket == Some(socket),
            final(self).slots@[slot as int].peer_public_key == Some(peer_key),
            final(self).slots@[slot as int].local_private_key == Some(local_key),
            forall|j: int|
                0 <= j < old(self).slots@.len() && j != slot ==> final(self).slots@[j] == old(self).slots@[j],
            final(self).attempt_of(address@) is None,
            forall|a: Seq<char>|
                a != address@ ==> final(self).attempt_of(a) == old(self).attempt_of(a),
            final(self).connected(address@),
            connected_addrs(final(self).slots@).len() == connected_addrs(old(self).slots@).len()
                + 1,
    {
        self.slots[slot] = Slot {
            peer_address: address.to_owned(),
            socket: Some(socket),
            busy: true,
            peer_public_key: Some(peer_key),
            local_private_key: Some(local_key),
        };
        proof {
            lemma_connected_addrs_update(old(self).slots@, slot as int, self.slots@[slot as int]);
        }
        self.remove_attempt(address);
    }

    /// Release the slot reserved for a failed outbound attempt and drop the
    /// debounce record: a fast failure allows a fresh attempt immediately.
    pub fn abort_outbound(&mut self, slot: usize, address: &str)
        requires
            old(self).wf(),
            slot < old(self).slots@.len(),
            !old(self).slots@[slot as int].occupied(),
        ensures
            final(self).wf(),
            P2P::same_except_slots_attempts(*old(self), *final(self)),
            final(self).slots@.len() == old(self).slots@.len(),
            final(self).slots@[slot as int].cleared(),
            forall|j: int|
                0 <= j < old(self).slots@.len() && j != slot ==> final(self).slots@[j] == old(self).slots@[j],
            final(self).attempt_of(address@) is None,
            forall|a: Seq<char>|
                a != address@ ==> final(self).attempt_of(a) == old(self).attempt_of(a),
    {
        self.slots[slot] = Slot {
            peer_address: String::new(),
            socket: None,
            busy: false,
            peer_public_key: None,
            local_private_key: None,
        };
        self.remove_attempt(address);
    }

    /// Drop the recorded attempt for this address, if any: its outcome is
    /// known — success, or any failure of a handshake step — so the debounce
    /// no longer applies and a fresh attempt is admitted at once.
    pub fn remove_attempt(&mut self, address: &str)
        requires
            old(self).wf(),
        ensures
            final(self).wf(),
            P2P::same_except_attempts(*old(self), *final(self)),
            final(self).attempt_of(address@) is None,
            forall|a: Seq<char>|
                a != address@ ==> final(self).attempt_of(a) == old(self).attempt_of(a),
    {
        let ghost pre = self.attempts@;
        match crate::keyed::find_key(&self.attempts, address) {
            Some(i) => {
                proof {
                    lemma_key_index(pre, address@, i as int);
                    lemma_key_remove(pre, i as int);
                }
                self.attempts.remove(i);
            },
            None => (),
        }
    }

    /// Tear down the slot at `idx` for `address`: clear every field of the
    /// slot, drop the address's inbound queue, and hand back the socket
    /// token that must be shut down, if one was attached. Idempotent: a
    /// cleared slot stays cleared.
    pub fn close_connection_at(&mut self, address: &str, idx: usize) -> (r: Option<u64>)
        requires
            old(self).wf(),
            idx < old(self).slots@.len(),
        ensures
            final(self).wf(),
            P2P::same_except_slots_queues(*old(self), *final(self)),
            r == old(self).slots@[idx as int].socket,
            final(self).slots@.len() == old(self).slots@.len(),
            final(self).slots@[idx as int].cleared(),
            forall|j: int|
                0 <= j < old(self).slots@.len() && j != idx ==> final(self).slots@[j] == old(self).slots@[j],
            final(self).queue_of(address@) is None,
            forall|a: Seq<char>|
                a != address@ ==> final(self).queue_of(a) == old(self).queue_of(a),
    {
        let r = self.slots[idx].socket;
        self.slots[idx] = Slot {
            peer_address: String::new(),
            socket: None,
            busy: false,
            peer_public_key: None,
            local_private_key: None,
        };
        self.remove_queue(address);
        r
    }

    /// Tear down the session for this address, if one holds a slot: the
    /// full teardown applied to the first slot the address resolves to.
    /// Returns the socket token to shut down; `None` when the address holds
    /// no slot or that slot had no socket attached.
    pub fn close_connection(&mut self, address: &str) -> (r: Option<u64>)
        requires
            old(self).wf(),
        ensures
            final(self).wf(),
            !old(self).connected(address@) ==> *final(self) == *old(self) && r is None,
            forall|i: int|
                #[trigger] old(self).first_slot_for(address@, i) ==> {
                    &&& P2P::same_except_slots_queues(*old(self), *final(self))
                    &&& r == old(self).slots@[i].socket
                    &&& final(self).slots@.len() == old(self).slots@.len()
                    &&& final(self).slots@[i].cleared()
                    &&& forall|j: int|
                        0 <= j < old(self).slots@.len() && j != i ==> final(self).slots@[j] == old(self).slots@[j]
                    &&& final(self).queue_of(address@) is None
                    &&& forall|a: Seq<char>|
                        a != address@ ==> final(self).queue_of(a) == old(self).queue_of(a)
                },
    {
        match self.get_ind_by_address(address) {
            Some(idx) => self.close_connection_at(address, idx),
            None => None,
        }
    }

    /// Whether a read worker for slot `idx` should keep polling: the node is
    /// running and the slot is still held.
    pub fn read_loop_continues(&self, idx: usize) -> (r: bool)
        requires
            idx < self.slots@.len(),
        ensures
            r == (self.running && self.slots@[idx as int].busy),
    {
        self.running && self.slots[idx].busy
    }

    /// One step of a read worker: decrypt a frame read for slot `idx` with
    /// the slot's session key and queue the plaintext under the slot's
    /// address. Returns whether the read loop should go on: a slot without a
    /// key skips the frame, a decryption failure ends the loop (and with it
    /// the connection), a decrypted message is queued in arrival order.
    pub fn handle_ciphertext(&mut self, idx: usize, data: &[u8]) -> (cont: bool)
        requires
            old(self).wf(),
            idx < old(self).slots@.len(),
        ensures
            final(self).wf(),
            ({
                let slot = old(self).slots@[idx as int];
                match slot.local_private_key {
                    None => cont && *final(self) == *old(self),
                    Some(k) => match crypto::decrypt_of(k@, data@) {
                        None => !cont && *final(self) == *old(self),
                        Some(p) => {
                            &&& cont
                            &&& P2P::same_except_queues(*old(self), *final(self))
                            &&& final(self).queue_of(slot.peer_address@) == Some(
                                old(self).queue_or_empty(slot.peer_address@).push(p),
                            )
                            &&& forall|a: Seq<char>|
                                a != slot.peer_address@ ==> final(self).queue_of(a) == old(self).queue_of(a)
                        },
                    },
                }
            }),
    {
        let plain = match &self.slots[idx].local_private_key {
            None => {
                return true;
            },
            Some(k) => crypto::decrypt(k, data),
        };
        match plain {
            Some(p) => {
                let addr = self.slots[idx].peer_address.clone();
                self.push_request(addr.as_str(), p);
                true
            },
            None => false,
        }
    }

    /// Prepare an encrypted message for this peer: look up the first slot
    /// holding the address, encrypt the text under the peer's public key,
    /// and hand back the slot's socket token with a one-block ciphertext to
    /// write. `None` when the address holds no slot, the slot has no key or
    /// no socket, or encryption itself fails — under a generated session key
    /// that is exactly when the message exceeds one block.
    pub fn send(&self, address: &str, message: &str) -> (r: Option<(u64, Vec<u8>)>)
        requires
            self.wf(),
        ensures
            !self.connected(address@) ==> r is None,
            forall|i: int|
                #[trigger] self.first_slot_for(address@, i) && (self.slots@[i].peer_public_key
                    is None || self.slots@[i].socket is None) ==> r is None,
            forall|i: int|
                #[trigger] self.first_slot_for(address@, i) ==> match (
                    self.slots@[i].peer_public_key,
                    self.slots@[i].socket,
                ) {
                    (Some(k), Some(_)) => crypto::generated_key(k@) ==> (r is Some
                        <==> message.spec_bytes().len() <= crypto::MAX_PLAINTEXT_LEN),
                    _ => true,
                },
            match r {
                Some(sc) => exists|i: int|
                    {
                        &&& #[trigger] self.first_slot_for(address@, i)
                        &&& self.slots@[i].socket == Some(sc.0)
                        &&& match self.slots@[i].peer_public_key {
                            Some(k) => crypto::generated_key(k@) ==> crypto::decrypt_of(k@, sc.1@)
                                == Some(message.spec_bytes()) && sc.1@.len()
                                == crypto::CIPHERTEXT_LEN,
                            None => false,
                        }
                    },
                None => true,
            },
    {
        let idx = match self.get_ind_by_address(address) {
            Some(i) => i,
            None => {
                return None;
            },
        };
        let key = match &self.slots[idx].peer_public_key {
            Some(k) => k,
            None => {
                return None;
            },
        };
        let cipher = match crypto::encrypt(key, message.as_bytes()) {
            Some(c) => c,
            None => {
                return None;
            },
        };
        match self.slots[idx].socket {
            Some(s) => Some((s, cipher)),
            None => None,
        }
    }

    /// The unencrypted variant of the lookup behind `send`: the socket token
    /// of the first slot holding this address, for a caller that writes raw
    /// bytes. `None` when the address holds no slot or no socket is
    /// attached.
    pub fn raw_send(&self, address: &str) -> (r: Option<u64>)
        ensures
            !self.connected(address@) ==> r is None,
            forall|i: int|
                #[trigger] self.first_slot_for(address@, i) ==> r == self.slots@[i].socket,
    {
        match self.get_ind_by_address(address) {
            Some(i) => self.slots[i].socket,
            None => None,
        }
    }

    /// Stop the node: clear the running flag, tear down every occupied slot
    /// and its queue, and hand back the socket tokens to shut down, in slot
    /// order. Afterwards no client is connected.
    #[verifier::loop_isolation(false)]
    pub fn kill_server(&mut self) -> (r: Vec<u64>)
        requires
            old(self).wf(),
        ensures
            final(self).wf(),
            !final(self).running,
            final(self).port == old(self).port,
            final(self).host == old(self).host,
            final(self).max_clients == old(self).max_clients,
            final(self).blacklist == old(self).blacklist,
            final(self).attempts == old(self).attempts,
            final(self).slots@.len() == old(self).slots@.len(),
            forall|i: int|
                0 <= i < old(self).slots@.len() ==> if (#[trigger] old(self).slots@[i]).occupied() {
                    final(self).slots@[i].cleared()
                } else {
                    final(self).slots@[i] == old(self).slots@[i]
                },
            forall|a: Seq<char>|
                (exists|j: int|
                    0 <= j < old(self).slots@.len() && (#[trigger] old(self).slots@[j]).peer_address@ == a && old(self).slots@[j].occupied()) ==> final(self).queue_of(a) is None,
            forall|a: Seq<char>|
                !(exists|j: int|
                    0 <= j < old(self).slots@.len() && (#[trigger] old(self).slots@[j]).peer_address@ == a && old(self).slots@[j].occupied()) ==> final(self).queue_of(a) == old(self).queue_of(a),
            connected_addrs(final(self).slots@) == Seq::<Seq<char>>::empty(),
            r@ == live_sockets(old(self).slots@),
    {
        self.running = false;
        let mut out: Vec<u64> = Vec::new();
        let mut i: usize = 0;
        while i < self.slots.len()
            invariant
                self.wf(),
                i <= self.slots@.len(),
                !self.running,
                self.port == old(self).port,
                self.host == old(self).host,
                self.max_clients == old(self).max_clients,
                self.blacklist == old(self).blacklist,
                self.attempts == old(self).attempts,
                self.slots@.len() == old(self).slots@.len(),
                forall|j: int| i <= j < old(self).slots@.len() ==> self.slots@[j] == old(self).slots@[j],
                forall|j: int|
                    0 <= j < i ==> if (#[trigger] old(self).slots@[j]).occupied() {
                        self.slots@[j].cleared()
                    } else {
                        self.slots@[j] == old(self).slots@[j]
                    },
                out@ == live_sockets(old(self).slots@.subrange(0, i as int)),
                forall|a: Seq<char>|
                    (exists|j: int|
                        0 <= j < i && (#[trigger] old(self).slots@[j]).peer_address@ == a && old(self).slots@[j].occupied()) ==> self.queue_of(a) is None,
                forall|a: Seq<char>|
                    !(exists|j: int|
                        0 <= j < i && (#[trigger] old(self).slots@[j]).peer_address@ == a && old(self).slots@[j].occupied()) ==> self.queue_of(a) == old(self).queue_of(a),
            decreases self.slots@.len() - i,
        {
            proof {
                assert(old(self).slots@.subrange(0, i + 1).drop_last() =~= old(self).slots@.subrange(0, i as int));
                assert(old(self).slots@.subrange(0, i + 1).last() == old(self).slots@[i as int]);
            }
            let ghost entry = *self;
            if !self.slots[i].peer_address.as_str().is_empty() {
                let addr = self.slots[i].peer_address.clone();
                if let Some(s) = self.slots[i].socket {
                    out.push(s);
                }
                self.slots[i] = Slot {
                    peer_address: String::new(),
                    socket: None,
                    busy: false,
                    peer_public_key: None,
                    local_private_key: None,
                };
                self.remove_queue(addr.as_str());
                proof {
                    assert forall|a: Seq<char>|
                        (exists|j: int|
                            0 <= j < i + 1 && (#[trigger] old(self).slots@[j]).peer_address@ == a
                                && old(self).slots@[j].occupied()) implies self.queue_of(a)
                        is None by {
                        let j = choose|j: int|
                            0 <= j < i + 1 && (#[trigger] old(self).slots@[j]).peer_address@ == a
                                && old(self).slots@[j].occupied();
                        if a != addr@ {
                            assert(j < i);
                            assert(entry.queue_of(a) is None);
                        }
                    }
                    assert forall|a: Seq<char>|
                        !(exists|j: int|
                            0 <= j < i + 1 && (#[trigger] old(self).slots@[j]).peer_address@ == a
                                && old(self).slots@[j].occupied()) implies self.queue_of(a) == old(
                        self,
                    ).queue_of(a) by {
                        assert(old(self).slots@[i as int].peer_address@ == addr@);
                        if a != addr@ {
                            assert(!(exists|j: int|
                                0 <= j < i && (#[trigger] old(self).slots@[j]).peer_address@ == a
                                    && old(self).slots@[j].occupied()));
                            assert(entry.queue_of(a) == old(self).queue_of(a));
                        }
                    }
                }
            } else {
                proof {
                    assert forall|a: Seq<char>|
                        (exists|j: int|
                            0 <= j < i + 1 && (#[trigger] old(self).slots@[j]).peer_address@ == a
                                && old(self).slots@[j].occupied()) implies self.queue_of(a)
                        is None by {
                        let j = choose|j: int|
                            0 <= j < i + 1 && (#[trigger] old(self).slots@[j]).peer_address@ == a
                                && old(self).slots@[j].occupied();
                        assert(j < i);
                    }
                }
            }
            i = i + 1;
        }
        proof {
            assert(old(self).slots@.subrange(0, old(self).slots@.len() as int) =~= old(self).slots@);
            assert forall|k: int|
                0 <= k < self.slots@.len() implies !(#[trigger] self.slots@[k]).occupied() by {
                if old(self).slots@[k].occupied() {
                    assert(self.slots@[k].cleared());
                }
            }
            lemma_no_occupied_no_addrs(self.slots@);
        }
        out
    }
}

/// Slot capacity: once a pool of `max_clients` slots lists `max_clients`
/// connected clients, every slot is occupied and busy, so no slot is free —
/// a further handshake must be refused: `attach_session` answers `None` and
/// the session gate answers `NoFreeSlot`.
pub proof fn lemma_capacity(s: P2P)
    requires
        s.wf(),
        connected_addrs(s.slots@).len() == s.max_clients,
    ensures
        forall|i: int| 0 <= i < s.slots@.len() ==> (#[trigger] s.slots@[i]).busy,
        !s.has_free_slot(),
{
    lemma_connected_addrs_len(s.slots@);
}

/// Debounce: while an attempt for an address is recorded at `t1`, a second
/// attempt strictly within the window is rejected, and one at or past the
/// window's end is admitted. (When the first attempt's outcome is known its
/// record is dropped, and `attempt_blocks` is false outright: a completed
/// attempt blocks nothing.)
pub proof fn lemma_debounce(s: P2P, addr: Seq<char>, t2: u64)
    ensures
        s.attempt_of(addr) matches Some(t1) ==> s.attempt_blocks(addr, t2) == (t2 < t1
            + DEBOUNCE_WINDOW_MS),
        s.attempt_of(addr) is None ==> !s.attempt_blocks(addr, t2),
{
}

/// Queue ordering: appending arrivals to a peer's queue moves nothing that
/// was already queued and places each new message after the old ones, in
/// arrival order; with retrieval always taking the front, messages come out
/// in the order they came in.
pub proof fn lemma_queue_fifo(q: Seq<Seq<u8>>, ms: Seq<Seq<u8>>)
    ensures
        (q + ms).len() == q.len() + ms.len(),
        forall|k: int| 0 <= k < q.len() ==> (q + ms)[k] == q[k],
        forall|k: int| 0 <= k < ms.len() ==> (q + ms)[q.len() + k] == ms[k],
{
}

} // verus!
