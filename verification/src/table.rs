//! The port layer: a table of kernel-style port objects.
//!
//! A port is named by a nonzero number; name zero is reserved as the null
//! name and never denotes a port. A port either carries a receive right
//! (exclusive, with a queue of pending message buffers and a counted set of
//! send rights) or is a port set, a grouping object whose members can be
//! waited on together. Beside the ports stands the bootstrap registry, a
//! name-to-port namespace used for first contact.
//!
//! Every operation returns a machine status code; zero is success.

use vstd::prelude::*;

verus! {

pub const KERN_SUCCESS: i32 = 0;

pub const KERN_INVALID_NAME: i32 = 15;

pub const KERN_INVALID_RIGHT: i32 = 17;

pub const KERN_UREFS_OVERFLOW: i32 = 19;

pub const MACH_MSG_SUCCESS: i32 = 0;

/// The destination of a send no longer has a live receive right.
pub const MACH_SEND_INVALID_DEST: i32 = 0x10000003;

/// A receive found a message larger than the caller's buffer.
pub const MACH_RCV_TOO_LARGE: i32 = 0x10004004;

/// A received buffer did not parse as a message.
pub const MACH_RCV_BODY_ERROR: i32 = 0x1000400c;

pub const BOOTSTRAP_SUCCESS: i32 = 0;

pub const BOOTSTRAP_NAME_IN_USE: i32 = 1101;

pub const BOOTSTRAP_UNKNOWN_SERVICE: i32 = 1102;

/// The null port name: never a live port.
pub const MACH_PORT_NULL: u32 = 0;

/// The size report of a too-large receive understates the needed buffer by
/// this fixed amount; receivers must add it back before retrying.
pub const RECV_SIZE_CORRECTION: u32 = 8;

/// One port object.
pub struct PortState {
    /// A live receive right exists for this port.
    pub receive_live: bool,
    /// How many send rights are outstanding.
    pub send_refs: u32,
    /// This object is a port set, not a message-carrying port.
    pub is_set: bool,
    /// The port set this port belongs to, or the null name.
    pub in_set: u32,
    /// Pending message buffers, oldest first.
    pub queue: Vec<Vec<u8>>,
}

/// One bootstrap registration: a published name resolving to a port.
pub struct Registration {
    pub name: String,
    pub port: u32,
}

/// The table of all port objects of one process pair, with the bootstrap
/// registry. Port `p` is entry `p - 1`; allocation appends.
pub struct PortTable {
    pub entries: Vec<PortState>,
    pub registry: Vec<Registration>,
}

impl PortTable {
    /// `p` names an entry of the table.
    pub open spec fn valid_name(self, p: u32) -> bool {
        1 <= p && p <= self.entries@.len()
    }

    /// The entry that `p` names.
    pub open spec fn entry(self, p: u32) -> PortState {
        self.entries@[p - 1]
    }

    /// `p` is a port with a live receive right.
    pub open spec fn is_receive(self, p: u32) -> bool {
        self.valid_name(p) && !self.entry(p).is_set && self.entry(p).receive_live
    }

    /// `p` is a port set.
    pub open spec fn is_port_set(self, p: u32) -> bool {
        self.valid_name(p) && self.entry(p).is_set
    }

    /// The outstanding send rights on `p`.
    pub open spec fn send_refs(self, p: u32) -> int {
        if self.valid_name(p) {
            self.entry(p).send_refs as int
        } else {
            0
        }
    }

    /// A send right on `p` can be used: the receive side is alive and at
    /// least one send right is outstanding.
    pub open spec fn sendable(self, p: u32) -> bool {
        self.is_receive(p) && self.entry(p).send_refs > 0
    }

    /// The pending messages of `p`, oldest first, as byte sequences.
    pub open spec fn queue_of(self, p: u32) -> Seq<Seq<u8>> {
        self.entry(p).queue@.map_values(|m: Vec<u8>| m@)
    }

    /// A receive on `source` can be served by dequeuing from `p`: either
    /// `p` is `source` itself, or `source` is a port set holding `p`.
    pub open spec fn serves(self, source: u32, p: u32) -> bool {
        self.is_receive(p) && (p == source || (self.is_port_set(source) && self.entry(p).in_set
            == source))
    }

    /// Some port can serve a receive on `source` right now.
    pub open spec fn has_pending(self, source: u32) -> bool {
        exists|p: u32| self.serves(source, p) && self.queue_of(p).len() > 0
    }

    /// `name` is published in the bootstrap registry.
    pub open spec fn is_registered(self, name: Seq<char>) -> bool {
        exists|j: int|
            0 <= j < self.registry@.len() && self.registry@[j].name@ == name
    }

    /// The index of `name` in the registry (unique under [`Self::wf`]).
    pub open spec fn reg_index(self, name: Seq<char>) -> int {
        choose|j: int| 0 <= j < self.registry@.len() && self.registry@[j].name@ == name
    }

    /// The port that `name` resolves to, if it is published.
    pub open spec fn registered_port(self, name: Seq<char>) -> Option<u32> {
        if self.is_registered(name) {
            Some(self.registry@[self.reg_index(name)].port)
        } else {
            None
        }
    }

    /// One entry is consistent with the table around it.
    pub open spec fn wf_entry(self, j: int) -> bool {
        let e = self.entries@[j];
        &&& (e.in_set != 0 ==> self.is_port_set(e.in_set))
        &&& (e.is_set ==> e.in_set == 0 && e.queue@.len() == 0)
        &&& forall|q: int|
            0 <= q < e.queue@.len() ==> 28 <= (#[trigger] e.queue@[q])@.len()
                && e.queue@[q]@.len() + 8 <= u32::MAX
    }

    /// The table's invariant: port names fit in a nonzero `u32`, entries
    /// are internally consistent, registered names are distinct and resolve
    /// to names of the table.
    pub open spec fn wf(self) -> bool {
        &&& self.entries@.len() + 1 <= u32::MAX
        &&& forall|j: int| 0 <= j < self.entries@.len() ==> self.wf_entry(j)
        &&& forall|j: int|
            0 <= j < self.registry@.len() ==> self.valid_name(
                (#[trigger] self.registry@[j]).port,
            )
        &&& forall|j: int, k: int|
            0 <= j < self.registry@.len() && 0 <= k < self.registry@.len() && j != k
                ==> (#[trigger] self.registry@[j]).name@ != (#[trigger] self.registry@[k]).name@
    }

    /// `other` differs from `self` at most in the entry of `p`.
    pub open spec fn same_except(self, other: PortTable, p: u32) -> bool {
        &&& other.entries@.len() == self.entries@.len()
        &&& other.registry == self.registry
        &&& forall|q: u32|
            self.valid_name(q) && q != p ==> other.entry(q) == #[trigger] self.entry(q)
    }

    /// An empty table: no ports, nothing registered.
    pub fn new() -> (t: PortTable)
        ensures
            t.wf(),
            t.entries@.len() == 0,
            t.registry@.len() == 0,
    {
        PortTable { entries: Vec::new(), registry: Vec::new() }
    }

    fn alloc_entry(&mut self, is_set: bool) -> (r: Result<u32, i32>)
        requires
            old(self).wf(),
            old(self).entries@.len() + 2 <= u32::MAX,
        ensures
            final(self).wf(),
            r is Ok,
            r->Ok_0 == old(self).entries@.len() + 1,
            !old(self).valid_name(r->Ok_0),
            final(self).entries@.len() == old(self).entries@.len() + 1,
            final(self).registry == old(self).registry,
            final(self).valid_name(r->Ok_0),
            final(self).entry(r->Ok_0).receive_live,
            final(self).entry(r->Ok_0).send_refs == 0,
            final(self).entry(r->Ok_0).is_set == is_set,
            final(self).entry(r->Ok_0).in_set == 0,
            final(self).queue_of(r->Ok_0) == Seq::<Seq<u8>>::empty(),
            forall|q: u32|
                old(self).valid_name(q) ==> final(self).entry(q) == #[trigger] old(self).entry(q),
    {
        let name = (self.entries.len() + 1) as u32;
        self.entries.push(
            PortState {
                receive_live: true,
                send_refs: 0,
                is_set,
                in_set: 0,
                queue: Vec::new(),
            },
        );
        proof {
            assert forall|j: int| 0 <= j < self.entries@.len() implies self.wf_entry(j) by {
                if j < old(self).entries@.len() {
                    assert(old(self).wf_entry(j));
                }
            }
            assert(self.queue_of(name) =~= Seq::<Seq<u8>>::empty());
        }
        Ok(name)
    }

    /// Allocates a fresh port with a receive right and an empty queue.
    pub fn allocate_receive_right(&mut self) -> (r: Result<u32, i32>)
        requires
            old(self).wf(),
            old(self).entries@.len() + 2 <= u32::MAX,
        ensures
            final(self).wf(),
            r is Ok,
            r->Ok_0 == old(self).entries@.len() + 1,
            !old(self).valid_name(r->Ok_0),
            final(self).entries@.len() == old(self).entries@.len() + 1,
            final(self).registry == old(self).registry,
            final(self).is_receive(r->Ok_0),
            final(self).send_refs(r->Ok_0) == 0,
            final(self).entry(r->Ok_0).in_set == 0,
            final(self).queue_of(r->Ok_0) == Seq::<Seq<u8>>::empty(),
            forall|q: u32|
                old(self).valid_name(q) ==> final(self).entry(q) == #[trigger] old(self).entry(q),
    {
        self.alloc_entry(false)
    }

    /// Allocates a fresh port set.
    pub fn allocate_port_set(&mut self) -> (r: Result<u32, i32>)
        requires
            old(self).wf(),
            old(self).entries@.len() + 2 <= u32::MAX,
        ensures
            final(self).wf(),
            r is Ok,
            r->Ok_0 == old(self).entries@.len() + 1,
            !old(self).valid_name(r->Ok_0),
            final(self).entries@.len() == old(self).entries@.len() + 1,
            final(self).registry == old(self).registry,
            final(self).is_port_set(r->Ok_0),
            forall|q: u32|
                old(self).valid_name(q) ==> final(self).entry(q) == #[trigger] old(self).entry(q),
    {
        self.alloc_entry(true)
    }

    /// Extracts one more send right from a live receive right: the count of
    /// outstanding send rights grows by one and the same port name denotes
    /// the new right.
    pub fn extract_send_right(&mut self, p: u32) -> (r: Result<u32, i32>)
        requires
            old(self).wf(),
        ensures
            final(self).wf(),
            old(self).is_receive(p) && old(self).send_refs(p) < u32::MAX ==> {
                &&& r == Ok::<u32, i32>(p)
                &&& old(self).same_except(*final(self), p)
                &&& final(self).is_receive(p)
                &&& final(self).entry(p).send_refs == old(self).entry(p).send_refs + 1
                &&& final(self).entry(p).is_set == old(self).entry(p).is_set
                &&& final(self).entry(p).in_set == old(self).entry(p).in_set
                &&& final(self).entry(p).receive_live == old(self).entry(p).receive_live
                &&& final(self).entry(p).queue == old(self).entry(p).queue
            },
            !old(self).is_receive(p) ==> r == Err::<u32, i32>(KERN_INVALID_RIGHT) && *final(self)
                == *old(self),
            old(self).is_receive(p) && old(self).send_refs(p) == u32::MAX ==> r == Err::<u32, i32>(
                KERN_UREFS_OVERFLOW,
            ) && *final(self) == *old(self),
    {
        if p < 1 || (p as usize) > self.entries.len() {
            return Err(KERN_INVALID_RIGHT);
        }
        let idx = (p as usize) - 1;
        if self.entries[idx].is_set || !self.entries[idx].receive_live {
            return Err(KERN_INVALID_RIGHT);
        }
        if self.entries[idx].send_refs == u32::MAX {
            return Err(KERN_UREFS_OVERFLOW);
        }
        let refs = self.entries[idx].send_refs;
        self.entries[idx].send_refs = refs + 1;
        proof {
            assert forall|j: int| 0 <= j < self.entries@.len() implies self.wf_entry(j) by {
                assert(old(self).wf_entry(j));
            }
        }
        Ok(p)
    }

    /// Adds one reference to an outstanding send right.
    pub fn add_send_ref(&mut self, p: u32) -> (r: i32)
        requires
            old(self).wf(),
        ensures
            final(self).wf(),
            old(self).sendable(p) && old(self).send_refs(p) < u32::MAX ==> {
                &&& r == KERN_SUCCESS
                &&& old(self).same_except(*final(self), p)
                &&& final(self).is_receive(p)
                &&& final(self).entry(p).send_refs == old(self).entry(p).send_refs + 1
                &&& final(self).entry(p).is_set == old(self).entry(p).is_set
                &&& final(self).entry(p).in_set == old(self).entry(p).in_set
                &&& final(self).entry(p).receive_live == old(self).entry(p).receive_live
                &&& final(self).entry(p).queue == old(self).entry(p).queue
            },
            !old(self).sendable(p) ==> r == KERN_INVALID_RIGHT && *final(self) == *old(self),
            old(self).sendable(p) && old(self).send_refs(p) == u32::MAX ==> r
                == KERN_UREFS_OVERFLOW && *final(self) == *old(self),
    {
        if p < 1 || (p as usize) > self.entries.len() {
            return KERN_INVALID_RIGHT;
        }
        let idx = (p as usize) - 1;
        if self.entries[idx].is_set || !self.entries[idx].receive_live
            || self.entries[idx].send_refs == 0 {
            return KERN_INVALID_RIGHT;
        }
        if self.entries[idx].send_refs == u32::MAX {
            return KERN_UREFS_OVERFLOW;
        }
        let refs = self.entries[idx].send_refs;
        self.entries[idx].send_refs = refs + 1;
        proof {
            assert forall|j: int| 0 <= j < self.entries@.len() implies self.wf_entry(j) by {
                assert(old(self).wf_entry(j));
            }
        }
        KERN_SUCCESS
    }

    /// Gives up one reference to a send right. When the receive side is
    /// already gone the right is dead and the release reports
    /// `KERN_INVALID_RIGHT`, which callers treat as benign.
    pub fn release_send_ref(&mut self, p: u32) -> (r: i32)
        requires
            old(self).wf(),
        ensures
            final(self).wf(),
            old(self).sendable(p) ==> {
                &&& r == KERN_SUCCESS
                &&& old(self).same_except(*final(self), p)
                &&& final(self).valid_name(p)
                &&& final(self).entry(p).send_refs == old(self).entry(p).send_refs - 1
                &&& final(self).entry(p).is_set == old(self).entry(p).is_set
                &&& final(self).entry(p).in_set == old(self).entry(p).in_set
                &&& final(self).entry(p).receive_live == old(self).entry(p).receive_live
                &&& final(self).entry(p).queue == old(self).entry(p).queue
            },
            !old(self).sendable(p) ==> r == KERN_INVALID_RIGHT && *final(self) == *old(self),
    {
        if p < 1 || (p as usize) > self.entries.len() {
            return KERN_INVALID_RIGHT;
        }
        let idx = (p as usize) - 1;
        if self.entries[idx].is_set || !self.entries[idx].receive_live
            || self.entries[idx].send_refs == 0 {
            return KERN_INVALID_RIGHT;
        }
        let refs = self.entries[idx].send_refs;
        self.entries[idx].send_refs = refs - 1;
        proof {
            assert forall|j: int| 0 <= j < self.entries@.len() implies self.wf_entry(j) by {
                assert(old(self).wf_entry(j));
            }
        }
        KERN_SUCCESS
    }

    /// Gives up a live receive right: the port goes dead, and later sends
    /// to it fail with `MACH_SEND_INVALID_DEST`.
    pub fn release_receive_right(&mut self, p: u32) -> (r: i32)
        requires
            old(self).wf(),
        ensures
            final(self).wf(),
            old(self).is_receive(p) ==> {
                &&& r == KERN_SUCCESS
                &&& old(self).same_except(*final(self), p)
                &&& final(self).valid_name(p)
                &&& !final(self).is_receive(p)
                &&& !final(self).entry(p).receive_live
                &&& final(self).entry(p).send_refs == old(self).entry(p).send_refs
                &&& final(self).entry(p).is_set == old(self).entry(p).is_set
                &&& final(self).entry(p).in_set == old(self).entry(p).in_set
                &&& final(self).entry(p).queue == old(self).entry(p).queue
            },
            !old(self).is_receive(p) ==> r == KERN_INVALID_RIGHT && *final(self) == *old(self),
    {
        if p < 1 || (p as usize) > self.entries.len() {
            return KERN_INVALID_RIGHT;
        }
        let idx = (p as usize) - 1;
        if self.entries[idx].is_set || !self.entries[idx].receive_live {
            return KERN_INVALID_RIGHT;
        }
        self.entries[idx].receive_live = false;
        proof {
            assert forall|j: int| 0 <= j < self.entries@.len() implies self.wf_entry(j) by {
                assert(old(self).wf_entry(j));
            }
        }
        KERN_SUCCESS
    }

    /// Moves a port with a live receive right into a port set.
    pub fn move_member(&mut self, p: u32, set: u32) -> (r: i32)
        requires
            old(self).wf(),
        ensures
            final(self).wf(),
            old(self).is_receive(p) && old(self).is_port_set(set) ==> {
                &&& r == KERN_SUCCESS
                &&& old(self).same_except(*final(self), p)
                &&& final(self).is_receive(p)
                &&& final(self).entry(p).in_set == set
                &&& final(self).entry(p).send_refs == old(self).entry(p).send_refs
                &&& final(self).entry(p).is_set == old(self).entry(p).is_set
                &&& final(self).entry(p).receive_live == old(self).entry(p).receive_live
                &&& final(self).entry(p).queue == old(self).entry(p).queue
            },
            !old(self).is_receive(p) ==> r == KERN_INVALID_RIGHT && *final(self) == *old(self),
            old(self).is_receive(p) && !old(self).is_port_set(set) ==> r == KERN_INVALID_NAME
                && *final(self) == *old(self),
    {
        if p < 1 || (p as usize) > self.entries.len() {
            return KERN_INVALID_RIGHT;
        }
        let idx = (p as usize) - 1;
        if self.entries[idx].is_set || !self.entries[idx].receive_live {
            return KERN_INVALID_RIGHT;
        }
        if set < 1 || (set as usize) > self.entries.len() {
            return KERN_INVALID_NAME;
        }
        if !self.entries[(set as usize) - 1].is_set {
            return KERN_INVALID_NAME;
        }
        self.entries[idx].in_set = set;
        proof {
            assert forall|j: int| 0 <= j < self.entries@.len() implies self.wf_entry(j) by {
                assert(old(self).wf_entry(j));
            }
        }
        KERN_SUCCESS
    }

    /// Enqueues a message buffer on the destination port, blocking until
    /// the kernel queue accepts it. A destination whose receive right is
    /// gone fails with `MACH_SEND_INVALID_DEST`.
    pub fn enqueue(&mut self, dest: u32, msg: Vec<u8>) -> (r: i32)
        requires
            old(self).wf(),
            28 <= msg@.len(),
            msg@.len() + 8 <= u32::MAX,
        ensures
            final(self).wf(),
            old(self).is_receive(dest) ==> {
                &&& r == MACH_MSG_SUCCESS
                &&& old(self).same_except(*final(self), dest)
                &&& final(self).is_receive(dest)
                &&& final(self).queue_of(dest) == old(self).queue_of(dest).push(msg@)
                &&& final(self).entry(dest).send_refs == old(self).entry(dest).send_refs
                &&& final(self).entry(dest).is_set == old(self).entry(dest).is_set
                &&& final(self).entry(dest).in_set == old(self).entry(dest).in_set
                &&& final(self).entry(dest).receive_live == old(self).entry(dest).receive_live
            },
            !old(self).is_receive(dest) ==> r == MACH_SEND_INVALID_DEST && *final(self) == *old(
                self,
            ),
    {
        if dest < 1 || (dest as usize) > self.entries.len() {
            return MACH_SEND_INVALID_DEST;
        }
        let idx = (dest as usize) - 1;
        if self.entries[idx].is_set || !self.entries[idx].receive_live {
            return MACH_SEND_INVALID_DEST;
        }
        self.entries[idx].queue.push(msg);
        proof {
            assert forall|j: int| 0 <= j < self.entries@.len() implies self.wf_entry(j) by {
                assert(old(self).wf_entry(j));
                if j == idx {
                    let e = self.entries@[j];
                    let eo = old(self).entries@[j];
                    assert forall|q: int| 0 <= q < e.queue@.len() implies 28 <= (
                    #[trigger] e.queue@[q])@.len() && e.queue@[q]@.len() + 8 <= u32::MAX by {
                        if q < eo.queue@.len() {
                            assert(e.queue@[q] == eo.queue@[q]);
                        } else {
                            assert(e.queue@[q] == msg);
                        }
                    }
                }
            }
            assert(self.queue_of(dest) =~= old(self).queue_of(dest).push(msg@));
        }
        MACH_MSG_SUCCESS
    }

    /// The first port, scanning names upward from `i + 1`, that can serve a
    /// receive on `source` and has a pending message.
    pub open spec fn ready_from(self, source: u32, i: int) -> Option<u32>
        decreases self.entries@.len() - i,
    {
        if i < 0 || i >= self.entries@.len() {
            None
        } else if self.serves(source, (i + 1) as u32) && self.queue_of((i + 1) as u32).len() > 0 {
            Some((i + 1) as u32)
        } else {
            self.ready_from(source, i + 1)
        }
    }

    /// The port a receive on `source` dequeues from next.
    pub open spec fn ready_port(self, source: u32) -> Option<u32> {
        self.ready_from(source, 0)
    }

    /// A found ready port serves the source and has a pending message.
    pub proof fn lemma_ready_from_some(self, source: u32, i: int, p: u32)
        requires
            0 <= i,
            self.entries@.len() + 1 <= u32::MAX,
            self.ready_from(source, i) == Some(p),
        ensures
            self.serves(source, p),
            self.queue_of(p).len() > 0,
            i + 1 <= p <= self.entries@.len(),
        decreases self.entries@.len() - i,
    {
        if !(i < 0 || i >= self.entries@.len()) {
            if !(self.serves(source, (i + 1) as u32) && self.queue_of((i + 1) as u32).len() > 0) {
                self.lemma_ready_from_some(source, i + 1, p);
            }
        }
    }

    /// When the scan finds nothing, no port past the scan start could
    /// serve the source.
    pub proof fn lemma_ready_from_none(self, source: u32, i: int)
        requires
            0 <= i,
            self.ready_from(source, i) is None,
        ensures
            forall|p: u32|
                i + 1 <= p <= self.entries@.len() ==> !(#[trigger] self.serves(source, p)
                    && self.queue_of(p).len() > 0),
        decreases self.entries@.len() - i,
    {
        if i < self.entries@.len() {
            self.lemma_ready_from_none(source, i + 1);
        }
    }

    /// A receive finds a port exactly when some served port has a pending
    /// message.
    pub proof fn lemma_ready_port_exists(self, source: u32)
        requires
            self.has_pending(source),
        ensures
            self.ready_port(source) is Some,
    {
        if self.ready_port(source) is None {
            self.lemma_ready_from_none(source, 0);
            let p = choose|p: u32| self.serves(source, p) && self.queue_of(p).len() > 0;
            assert(self.serves(source, p) && self.queue_of(p).len() > 0);
            assert(false);
        }
    }

    /// Dequeues the next pending message for `source`, a port or a port
    /// set, given a buffer of `max_size` bytes. A message that does not fit
    /// is left queued, and its size is reported short by
    /// [`RECV_SIZE_CORRECTION`] bytes, as the receive retry protocol
    /// expects.
    pub fn dequeue(&mut self, source: u32, max_size: u32) -> (r: RecvOutcome)
        requires
            old(self).wf(),
            old(self).has_pending(source),
        ensures
            final(self).wf(),
            old(self).ready_port(source) is Some,
            ({
                let p = old(self).ready_port(source)->Some_0;
                let front = old(self).queue_of(p)[0];
                match r {
                    RecvOutcome::Delivered { port, message } => {
                        &&& front.len() <= max_size
                        &&& port == p
                        &&& message@ == front
                        &&& old(self).same_except(*final(self), p)
                        &&& final(self).is_receive(p)
                        &&& final(self).queue_of(p) == old(self).queue_of(p).drop_first()
                        &&& final(self).entry(p).send_refs == old(self).entry(p).send_refs
                        &&& final(self).entry(p).in_set == old(self).entry(p).in_set
                        &&& final(self).entry(p).is_set == old(self).entry(p).is_set
                        &&& final(self).entry(p).receive_live == old(self).entry(
                            p,
                        ).receive_live
                    },
                    RecvOutcome::TooLarge { reported_size } => {
                        &&& front.len() > max_size
                        &&& reported_size + RECV_SIZE_CORRECTION == front.len()
                        &&& *final(self) == *old(self)
                    },
                }
            }),
    {
        proof {
            old(self).lemma_ready_port_exists(source);
        }
        let n = self.entries.len();
        let source_ok = source >= 1 && (source as usize) <= n;
        let source_is_set = source_ok && self.entries[(source as usize) - 1].is_set;
        let mut i: usize = 0;
        let mut found: u32 = 0;
        while i < n && found == 0
            invariant
                self == old(self),
                old(self).wf(),
                n == self.entries@.len(),
                0 <= i <= n,
                source_is_set == old(self).is_port_set(source),
                found == 0 ==> old(self).ready_from(source, 0) == old(self).ready_from(
                    source,
                    i as int,
                ),
                found != 0 ==> old(self).ready_port(source) == Some(found),
                old(self).ready_from(source, 0) is Some,
            decreases n - i,
        {
            let e_is_set = self.entries[i].is_set;
            let e_live = self.entries[i].receive_live;
            let e_in_set = self.entries[i].in_set;
            let e_has_msg = self.entries[i].queue.len() > 0;
            let p = (i + 1) as u32;
            if !e_is_set && e_live && e_has_msg && (p == source || (source_is_set && e_in_set
                == source)) {
                found = p;
                i = n;
            } else {
                proof {
                    assert(!(old(self).serves(source, p) && old(self).queue_of(p).len() > 0));
                }
                i = i + 1;
            }
        }
        if found == 0 {
            proof {
                assert(false);
            }
            return RecvOutcome::TooLarge { reported_size: 0 };
        }
        proof {
            assert(old(self).ready_port(source) == Some(found));
            old(self).lemma_ready_from_some(source, 0, found);
        }
        let idx = (found as usize) - 1;
        let front_len = self.entries[idx].queue[0].len();
        proof {
            assert(old(self).wf_entry(idx as int));
            assert(old(self).queue_of(found)[0] == old(self).entry(found).queue@[0]@);
        }
        if front_len <= max_size as usize {
            let message = self.entries[idx].queue.remove(0);
            proof {
                assert forall|j: int| 0 <= j < self.entries@.len() implies self.wf_entry(j) by {
                    assert(old(self).wf_entry(j));
                    if j == idx {
                        let e = self.entries@[j];
                        let eo = old(self).entries@[j];
                        assert forall|q: int| 0 <= q < e.queue@.len() implies 28 <= (
                        #[trigger] e.queue@[q])@.len() && e.queue@[q]@.len() + 8 <= u32::MAX by {
                            assert(e.queue@[q] == eo.queue@[q + 1]);
                        }
                    }
                }
                assert(self.queue_of(found) =~= old(self).queue_of(found).drop_first());
            }
            RecvOutcome::Delivered { port: found, message }
        } else {
            let reported = (front_len - 8) as u32;
            RecvOutcome::TooLarge { reported_size: reported }
        }
    }

    /// Publishes `name` in the bootstrap registry, resolving to `port`.
    /// A name already present is refused with `BOOTSTRAP_NAME_IN_USE`.
    pub fn register_name(&mut self, name: String, port: u32) -> (r: i32)
        requires
            old(self).wf(),
            old(self).valid_name(port),
        ensures
            final(self).wf(),
            old(self).is_registered(name@) ==> r == BOOTSTRAP_NAME_IN_USE && *final(self) == *old(
                self,
            ),
            !old(self).is_registered(name@) ==> {
                &&& r == BOOTSTRAP_SUCCESS
                &&& final(self).entries == old(self).entries
                &&& final(self).is_registered(name@)
                &&& final(self).registered_port(name@) == Some(port)
                &&& forall|m: Seq<char>|
                    m != name@ ==> #[trigger] final(self).is_registered(m) == old(
                        self,
                    ).is_registered(m) && final(self).registered_port(m) == old(
                        self,
                    ).registered_port(m)
            },
    {
        if let Some(_idx) = self.find_name(&name) {
            return BOOTSTRAP_NAME_IN_USE;
        }
        let ghost oldt = *self;
        self.registry.push(Registration { name, port });
        proof {
            let last = self.registry@.len() - 1;
            assert forall|j: int| 0 <= j < self.entries@.len() implies self.wf_entry(j) by {
                assert(old(self).wf_entry(j));
            }
            assert forall|j: int| 0 <= j < self.registry@.len() implies self.valid_name(
                (#[trigger] self.registry@[j]).port,
            ) by {
                if j < last {
                    assert(oldt.registry@[j] == self.registry@[j]);
                }
            }
            assert forall|j: int, k: int|
                0 <= j < self.registry@.len() && 0 <= k < self.registry@.len() && j
                    != k implies (#[trigger] self.registry@[j]).name@ != (
            #[trigger] self.registry@[k]).name@ by {
                if j < last && k < last {
                    assert(oldt.registry@[j] == self.registry@[j]);
                    assert(oldt.registry@[k] == self.registry@[k]);
                } else if j == last {
                    assert(!oldt.is_registered(self.registry@[last].name@));
                    assert(oldt.registry@[k] == self.registry@[k]);
                } else {
                    assert(!oldt.is_registered(self.registry@[last].name@));
                    assert(oldt.registry@[j] == self.registry@[j]);
                }
            }
            let nm = self.registry@[last].name@;
            assert(self.is_registered(nm));
            assert(self.reg_index(nm) == last);
            assert forall|m: Seq<char>| m != nm implies #[trigger] self.is_registered(m)
                == oldt.is_registered(m) && self.registered_port(m) == oldt.registered_port(
                m,
            ) by {
                assert forall|j: int|
                    0 <= j < oldt.registry@.len() implies oldt.registry@[j]
                    == self.registry@[j] by {}
                if oldt.is_registered(m) {
                    let j = oldt.reg_index(m);
                    assert(self.registry@[j].name@ == m);
                    assert(self.is_registered(m));
                    let k = self.reg_index(m);
                    assert(self.registry@[k].name@ == m);
                    assert(k == j);
                } else {
                    if self.is_registered(m) {
                        let k = self.reg_index(m);
                        assert(self.registry@[k].name@ == m);
                        assert(k != last);
                        assert(oldt.registry@[k].name@ == m);
                        assert(false);
                    }
                }
            }
        }
        BOOTSTRAP_SUCCESS
    }

    /// Finds the registry position of `name`, if it is published.
    fn find_name(&self, name: &String) -> (r: Option<usize>)
        ensures
            match r {
                Some(j) => j < self.registry@.len() && self.registry@[j as int].name@ == name@,
                None => !self.is_registered(name@),
            },
    {
        let n = self.registry.len();
        let mut i: usize = 0;
        while i < n
            invariant
                n == self.registry@.len(),
                0 <= i <= n,
                forall|j: int| 0 <= j < i ==> (#[trigger] self.registry@[j]).name@ != name@,
            decreases n - i,
        {
            if self.registry[i].name == *name {
                return Some(i);
            }
            i = i + 1;
        }
        None
    }

    /// Resolves a published name to a send right on its port: the port's
    /// send count grows by one. A name that is not published, or whose
    /// port no longer has a live receive right, fails with
    /// `BOOTSTRAP_UNKNOWN_SERVICE`.
    pub fn look_up_name(&mut self, name: &String) -> (r: Result<u32, i32>)
        requires
            old(self).wf(),
        ensures
            final(self).wf(),
            final(self).registry == old(self).registry,
            match old(self).registered_port(name@) {
                Some(p) => {
                    &&& old(self).is_receive(p) && old(self).send_refs(p) < u32::MAX ==> {
                        &&& r == Ok::<u32, i32>(p)
                        &&& old(self).same_except(*final(self), p)
                        &&& final(self).is_receive(p)
                        &&& final(self).entry(p).send_refs == old(self).entry(p).send_refs + 1
                        &&& final(self).entry(p).in_set == old(self).entry(p).in_set
                        &&& final(self).entry(p).is_set == old(self).entry(p).is_set
                        &&& final(self).entry(p).receive_live == old(self).entry(p).receive_live
                        &&& final(self).entry(p).queue == old(self).entry(p).queue
                    }
                    &&& !old(self).is_receive(p) ==> r == Err::<u32, i32>(
                        BOOTSTRAP_UNKNOWN_SERVICE,
                    ) && *final(self) == *old(self)
                    &&& old(self).is_receive(p) && old(self).send_refs(p) == u32::MAX ==> r
                        == Err::<u32, i32>(KERN_UREFS_OVERFLOW) && *final(self) == *old(self)
                },
                None => r == Err::<u32, i32>(BOOTSTRAP_UNKNOWN_SERVICE) && *final(self) == *old(
                    self,
                ),
            },
    {
        let found = self.find_name(name);
        match found {
            None => Err(BOOTSTRAP_UNKNOWN_SERVICE),
            Some(j) => {
                let p = self.registry[j].port;
                proof {
                    assert(old(self).reg_index(name@) == j);
                }
                let idx = (p as usize) - 1;
                if self.entries[idx].is_set || !self.entries[idx].receive_live {
                    return Err(BOOTSTRAP_UNKNOWN_SERVICE);
                }
                if self.entries[idx].send_refs == u32::MAX {
                    return Err(KERN_UREFS_OVERFLOW);
                }
                let refs = self.entries[idx].send_refs;
                self.entries[idx].send_refs = refs + 1;
                proof {
                    assert forall|j2: int| 0 <= j2 < self.entries@.len() implies self.wf_entry(
                        j2,
                    ) by {
                        assert(old(self).wf_entry(j2));
                    }
                }
                Ok(p)
            },
        }
    }

    /// Withdraws `name` from the bootstrap registry, if it is published.
    pub fn unregister_name(&mut self, name: &String) -> (r: i32)
        requires
            old(self).wf(),
        ensures
            final(self).wf(),
            final(self).entries == old(self).entries,
            !old(self).is_registered(name@) ==> r == BOOTSTRAP_UNKNOWN_SERVICE && *final(self)
                == *old(self),
            old(self).is_registered(name@) ==> {
                &&& r == BOOTSTRAP_SUCCESS
                &&& !final(self).is_registered(name@)
                &&& forall|m: Seq<char>|
                    m != name@ ==> #[trigger] final(self).is_registered(m) == old(
                        self,
                    ).is_registered(m) && final(self).registered_port(m) == old(
                        self,
                    ).registered_port(m)
            },
    {
        let found = self.find_name(name);
        match found {
            None => BOOTSTRAP_UNKNOWN_SERVICE,
            Some(j) => {
                let ghost oldt = *self;
                let _gone = self.registry.remove(j);
                proof {
                    assert forall|j2: int| 0 <= j2 < self.entries@.len() implies self.wf_entry(
                        j2,
                    ) by {
                        assert(oldt.wf_entry(j2));
                    }
                    assert forall|j2: int, k2: int|
                        0 <= j2 < self.registry@.len() && 0 <= k2 < self.registry@.len() && j2
                            != k2 implies (#[trigger] self.registry@[j2]).name@ != (
                    #[trigger] self.registry@[k2]).name@ by {
                        let oj = if j2 < j { j2 } else { j2 + 1 };
                        let ok = if k2 < j { k2 } else { k2 + 1 };
                        assert(self.registry@[j2] == oldt.registry@[oj]);
                        assert(self.registry@[k2] == oldt.registry@[ok]);
                    }
                    assert forall|j2: int| 0 <= j2 < self.registry@.len() implies self.valid_name(
                        (#[trigger] self.registry@[j2]).port,
                    ) by {
                        let oj = if j2 < j { j2 } else { j2 + 1 };
                        assert(self.registry@[j2] == oldt.registry@[oj]);
                    }
                    if self.is_registered(name@) {
                        let k = self.reg_index(name@);
                        let ok = if k < j { k } else { k + 1 };
                        assert(self.registry@[k] == oldt.registry@[ok]);
                        assert(oldt.registry@[ok].name@ == name@);
                        assert(oldt.registry@[j as int].name@ == name@);
                        assert(false);
                    }
                    assert forall|m: Seq<char>| m != name@ implies #[trigger] self.is_registered(
                        m,
                    ) == oldt.is_registered(m) && self.registered_port(m) == oldt.registered_port(
                        m,
                    ) by {
                        if oldt.is_registered(m) {
                            let oj = oldt.reg_index(m);
                            let nj = if oj < j {
                                oj
                            } else {
                                oj - 1
                            };
                            assert(oj != j);
                            assert(self.registry@[nj] == oldt.registry@[oj]);
                            assert(self.is_registered(m));
                            let k = self.reg_index(m);
                            assert(self.registry@[k].name@ == m);
                            assert(k == nj);
                        } else {
                            if self.is_registered(m) {
                                let k = self.reg_index(m);
                                let ok = if k < j { k } else { k + 1 };
                                assert(self.registry@[k] == oldt.registry@[ok]);
                                assert(false);
                            }
                        }
                    }
                }
                BOOTSTRAP_SUCCESS
            },
        }
    }
}

/// What a blocking receive handed back: a message, or the report that the
/// caller's buffer is too small for the pending message.
pub enum RecvOutcome {
    /// A message was dequeued from `port`.
    Delivered { port: u32, message: Vec<u8> },
    /// The pending message did not fit. It needs `reported_size` plus
    /// [`RECV_SIZE_CORRECTION`] bytes of buffer.
    TooLarge { reported_size: u32 },
}

} // verus!
